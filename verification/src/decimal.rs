//! Nonnegative fixed-point decimal numbers and digit-string parsing.
//!
//! A value is `mantissa / 10^scale`. Fare prices and rates are nonnegative,
//! so the mantissa is unsigned; every operation states its result exactly
//! over the mantissa and the scale.

use vstd::prelude::*;

use crate::error::Error;

verus! {

/// `10^n`.
pub open spec fn pow10(n: nat) -> nat
    decreases n,
{
    if n == 0 {
        1
    } else {
        10 * pow10((n - 1) as nat)
    }
}

/// `10^n` grows with `n`.
pub proof fn lemma_pow10_monotone(a: nat, b: nat)
    requires
        a <= b,
    ensures
        pow10(a) <= pow10(b),
    decreases b,
{
    if a < b {
        lemma_pow10_monotone(a, (b - 1) as nat);
        assert(pow10(b) == 10 * pow10((b - 1) as nat));
    }
}

/// The largest power of ten a mantissa can be scaled by.
pub proof fn lemma_pow10_18()
    ensures
        pow10(18) == 1000000000000000000,
{
    reveal_with_fuel(pow10, 20);
}

/// `10^n`, executable.
pub fn pow10_exec(n: u32) -> (r: u64)
    requires
        n <= 18,
    ensures
        r == pow10(n as nat),
{
    let mut r: u64 = 1;
    let mut i: u32 = 0;
    while i < n
        invariant
            i <= n <= 18,
            r == pow10(i as nat),
        decreases n - i,
    {
        proof {
            lemma_pow10_monotone((i + 1) as nat, 18);
            lemma_pow10_18();
        }
        r = r * 10;
        i = i + 1;
    }
    r
}

/// Whether the character is a decimal digit.
pub open spec fn is_digit(c: char) -> bool {
    48 <= c as int <= 57
}

/// The value of a decimal digit.
pub open spec fn digit_val(c: char) -> nat {
    (c as int - 48) as nat
}

/// Whether every character is a decimal digit.
pub open spec fn all_digits(s: Seq<char>) -> bool {
    forall|i: int| 0 <= i < s.len() ==> is_digit(s[i])
}

/// The number written by a digit string, most significant digit first.
pub open spec fn digits_val(s: Seq<char>) -> nat
    decreases s.len(),
{
    if s.len() == 0 {
        0
    } else {
        digits_val(s.drop_last()) * 10 + digit_val(s.last())
    }
}

/// Extending a digit string by one digit multiplies its value by ten and
/// adds the digit.
pub proof fn lemma_digits_val_push(s: Seq<char>, c: char)
    ensures
        digits_val(s.push(c)) == digits_val(s) * 10 + digit_val(c),
{
    assert(s.push(c).drop_last() =~= s);
    assert(s.push(c).last() == c);
}

/// A digit string is worth at least as much as the prefix written by its
/// first characters.
pub proof fn lemma_digits_val_prefix(full: Seq<char>, pre: Seq<char>)
    requires
        pre.len() <= full.len(),
        forall|j: int| 0 <= j < pre.len() ==> pre[j] == full[j],
    ensures
        digits_val(pre) <= digits_val(full),
    decreases full.len() - pre.len(),
{
    if pre.len() < full.len() {
        let pre2 = full.subrange(0, pre.len() as int + 1);
        assert(pre2.drop_last() =~= pre);
        assert(digits_val(pre2) == digits_val(pre) * 10 + digit_val(pre2.last()));
        lemma_digits_val_prefix(full, pre2);
    } else {
        assert(pre =~= full);
    }
}

/// Parses an unsigned number; succeeds exactly on nonempty all-digit
/// strings whose value fits.
pub fn parse_u32(s: &str) -> (r: Result<u32, Error>)
    ensures
        match r {
            Ok(v) => {
                &&& s@.len() > 0
                &&& all_digits(s@)
                &&& v == digits_val(s@)
            },
            Err(e) => {
                &&& !(s@.len() > 0 && all_digits(s@) && digits_val(s@) <= u32::MAX)
                &&& e matches Error::InvalidNumber { text } && text@ == s@
            },
        },
{
    let n = s.unicode_len();
    if n == 0 {
        return Err(Error::InvalidNumber { text: s.to_owned() });
    }
    let mut v: u32 = 0;
    let mut i: usize = 0;
    while i < n
        invariant
            n == s@.len(),
            0 < n,
            i <= n,
            all_digits(s@.subrange(0, i as int)),
            v == digits_val(s@.subrange(0, i as int)),
        decreases n - i,
    {
        let c = s.get_char(i);
        let cv = c as u32;
        if cv < 48 || cv > 57 {
            proof {
                assert(!is_digit(s@[i as int]));
            }
            return Err(Error::InvalidNumber { text: s.to_owned() });
        }
        let d = cv - 48;
        proof {
            assert(s@.subrange(0, i + 1) =~= s@.subrange(0, i as int).push(s@[i as int]));
            lemma_digits_val_push(s@.subrange(0, i as int), s@[i as int]);
        }
        let v10 = match v.checked_mul(10) {
            Some(x) => x,
            None => {
                proof {
                    lemma_overflow_u32(s@, i as int);
                }
                return Err(Error::InvalidNumber { text: s.to_owned() });
            },
        };
        v = match v10.checked_add(d) {
            Some(x) => x,
            None => {
                proof {
                    lemma_overflow_u32(s@, i as int);
                }
                return Err(Error::InvalidNumber { text: s.to_owned() });
            },
        };
        i = i + 1;
    }
    proof {
        assert(s@.subrange(0, n as int) =~= s@);
    }
    Ok(v)
}

/// When one more digit no longer fits, the whole string does not fit.
proof fn lemma_overflow_u32(s: Seq<char>, i: int)
    requires
        0 <= i < s.len(),
        is_digit(s[i]),
        digits_val(s.subrange(0, i)) * 10 + digit_val(s[i]) > u32::MAX,
    ensures
        digits_val(s) > u32::MAX,
{
    assert(s.subrange(0, i + 1) =~= s.subrange(0, i).push(s[i]));
    lemma_digits_val_push(s.subrange(0, i), s[i]);
    lemma_digits_val_prefix(s, s.subrange(0, i + 1));
}

/// A nonnegative fixed-point decimal: `mantissa / 10^scale`.
#[derive(PartialEq, Eq, Structural, Clone, Copy, Debug)]
pub struct Decimal {
    /// The digits of the number, as one integer.
    pub mantissa: u64,
    /// How many of the trailing digits lie behind the decimal point.
    pub scale: u32,
}

/// Where the decimal point sits in a written decimal: either `k` is the
/// position of the single dot, with digits on both sides, or `k` is the
/// length and the whole string is digits.
pub open spec fn dec_shape_at(s: Seq<char>, k: int) -> bool {
    if k == s.len() {
        s.len() > 0 && all_digits(s)
    } else {
        &&& 0 < k < s.len() - 1
        &&& s[k] == '.'
        &&& all_digits(s.subrange(0, k))
        &&& all_digits(s.subrange(k + 1, s.len() as int))
    }
}

/// The digits of a written decimal, the dot removed.
pub open spec fn dec_digits(s: Seq<char>, k: int) -> Seq<char> {
    if k == s.len() {
        s
    } else {
        s.subrange(0, k) + s.subrange(k + 1, s.len() as int)
    }
}

/// How many digits of a written decimal stand behind the dot.
pub open spec fn dec_scale(s: Seq<char>, k: int) -> int {
    if k == s.len() {
        0
    } else {
        s.len() - 1 - k
    }
}

/// Whether the string writes exactly this decimal.
pub open spec fn dec_parses_to(s: Seq<char>, d: Decimal) -> bool {
    exists|k: int|
        #![trigger dec_shape_at(s, k)]
        {
            &&& 0 <= k <= s.len()
            &&& dec_shape_at(s, k)
            &&& d.mantissa == digits_val(dec_digits(s, k))
            &&& d.scale == dec_scale(s, k)
        }
}

/// Whether the string writes any decimal this type can hold.
pub open spec fn dec_valid(s: Seq<char>) -> bool {
    exists|k: int|
        #![trigger dec_shape_at(s, k)]
        {
            &&& 0 <= k <= s.len()
            &&& dec_shape_at(s, k)
            &&& digits_val(dec_digits(s, k)) <= u64::MAX
            &&& dec_scale(s, k) <= 18
        }
}

/// The digits among the first `i` characters, the dot at `k` skipped.
pub open spec fn seen_digits(s: Seq<char>, k: int, i: int) -> Seq<char> {
    if i <= k {
        s.subrange(0, i)
    } else {
        s.subrange(0, k) + s.subrange(k + 1, i)
    }
}

/// With one dot at `k1` and digits everywhere else, no other split fits
/// the written-decimal shape.
proof fn lemma_only_dot_shape(s: Seq<char>, k1: int, k: int)
    requires
        0 <= k1 <= s.len(),
        k1 < s.len() ==> s[k1] == '.' && !is_digit(s[k1]),
        forall|j: int| 0 <= j < s.len() && j != k1 ==> is_digit(s[j]),
        0 <= k <= s.len(),
        k != k1,
    ensures
        !dec_shape_at(s, k),
{
    if k == s.len() {
        // Then k1 < s.len() and s[k1] is no digit.
        assert(k1 < s.len());
        if dec_shape_at(s, k) {
            assert(is_digit(s[k1]));
        }
    } else {
        if dec_shape_at(s, k) {
            // s[k] is a dot, but every position other than k1 is a digit.
            assert(is_digit(s[k]));
        }
    }
}

impl Decimal {
    /// Scales are kept small enough that rescaling stays representable.
    pub open spec fn wf(&self) -> bool {
        self.scale <= 18
    }

    /// Builds a decimal from its parts.
    pub fn new(mantissa: u64, scale: u32) -> (r: Decimal)
        requires
            scale <= 18,
        ensures
            r.mantissa == mantissa,
            r.scale == scale,
            r.wf(),
    {
        Decimal { mantissa, scale }
    }

    /// Parses a written decimal: digits with at most one dot, neither
    /// first nor last; succeeds exactly when the value is representable.
    pub fn parse(s: &str) -> (r: Result<Decimal, Error>)
        ensures
            match r {
                Ok(d) => dec_parses_to(s@, d) && d.wf(),
                Err(e) => {
                    &&& !dec_valid(s@)
                    &&& e matches Error::InvalidDecimal { text } && text@ == s@
                },
            },
    {
        let n = s.unicode_len();
        // Find the dot, and check every other character is a digit.
        let mut dot: usize = n;
        let mut i: usize = 0;
        while i < n
            invariant
                n == s@.len(),
                i <= n,
                dot == n || (dot < i && s@[dot as int] == '.'),
                forall|j: int| 0 <= j < i && j != dot ==> is_digit(s@[j]),
            decreases n - i,
        {
            let c = s.get_char(i);
            if c == '.' {
                if dot != n {
                    // A second dot: whatever split is chosen, a dot stays
                    // among its digits.
                    proof {
                        lemma_two_dots_invalid(s@, dot as int, i as int);
                    }
                    return Err(Error::InvalidDecimal { text: s.to_owned() });
                }
                dot = i;
            } else {
                let cv = c as u32;
                if cv < 48 || cv > 57 {
                    proof {
                        lemma_bad_char_invalid(s@, i as int);
                    }
                    return Err(Error::InvalidDecimal { text: s.to_owned() });
                }
            }
            i = i + 1;
        }
        if n == 0 {
            proof {
                assert forall|k: int| 0 <= k <= s@.len() implies !dec_shape_at(s@, k) by {}
                assert(!dec_valid(s@));
            }
            return Err(Error::InvalidDecimal { text: s.to_owned() });
        }
        if dot == 0 || (dot != n && dot == n - 1) {
            proof {
                assert forall|k: int| 0 <= k <= s@.len() implies !dec_shape_at(s@, k) by {
                    if k != dot as int {
                        lemma_only_dot_shape(s@, dot as int, k);
                    }
                }
                assert(!dec_valid(s@));
            }
            return Err(Error::InvalidDecimal { text: s.to_owned() });
        }
        let scale: usize = if dot == n {
            0
        } else {
            n - 1 - dot
        };
        if scale > 18 {
            proof {
                assert forall|k: int|
                    0 <= k <= s@.len() && dec_shape_at(s@, k) implies !(dec_scale(s@, k)
                    <= 18) by {
                    if k != dot as int {
                        lemma_only_dot_shape(s@, dot as int, k);
                    }
                }
                assert(!dec_valid(s@));
            }
            return Err(Error::InvalidDecimal { text: s.to_owned() });
        }
        // Accumulate the digits, skipping the dot.
        let mut m: u64 = 0;
        let mut i: usize = 0;
        while i < n
            invariant
                n == s@.len(),
                i <= n,
                0 < n,
                dot == n || (dot < n && s@[dot as int] == '.'),
                dot != 0 && (dot == n || dot < n - 1),
                forall|j: int| 0 <= j < n && j != dot ==> is_digit(s@[j]),
                m == digits_val(seen_digits(s@, dot as int, i as int)),
            decreases n - i,
        {
            if i != dot {
                let c = s.get_char(i);
                let d = (c as u32) - 48;
                proof {
                    lemma_seen_digits_step(s@, dot as int, i as int);
                    lemma_digits_val_push(seen_digits(s@, dot as int, i as int), s@[i as int]);
                }
                let m10 = match m.checked_mul(10) {
                    Some(x) => x,
                    None => {
                        proof {
                            lemma_mantissa_overflow(s@, dot as int, i as int);
                        }
                        return Err(Error::InvalidDecimal { text: s.to_owned() });
                    },
                };
                m = match m10.checked_add(d as u64) {
                    Some(x) => x,
                    None => {
                        proof {
                            lemma_mantissa_overflow(s@, dot as int, i as int);
                        }
                        return Err(Error::InvalidDecimal { text: s.to_owned() });
                    },
                };
            } else {
                proof {
                    assert(seen_digits(s@, dot as int, i + 1) =~= seen_digits(
                        s@,
                        dot as int,
                        i as int,
                    ));
                }
            }
            i = i + 1;
        }
        proof {
            assert(seen_digits(s@, dot as int, n as int) =~= dec_digits(s@, dot as int));
            assert(dec_shape_at(s@, dot as int)) by {
                if dot < n {
                    assert(forall|j: int|
                        0 <= j < dot ==> is_digit(#[trigger] s@.subrange(0, dot as int)[j]));
                    assert(forall|j: int|
                        0 <= j < n - dot - 1 ==> is_digit(
                            #[trigger] s@.subrange(dot as int + 1, n as int)[j],
                        ));
                }
            }
        }
        Ok(Decimal { mantissa: m, scale: scale as u32 })
    }
    /// A whole number.
    pub fn from_u32(v: u32) -> (r: Decimal)
        ensures
            r.mantissa == v,
            r.scale == 0,
            r.wf(),
    {
        Decimal { mantissa: v as u64, scale: 0 }
    }

    /// The sum, at the finer of the two scales; fails exactly when the
    /// rescaled sum does not fit in the mantissa.
    pub fn add(self, other: Decimal) -> (r: Result<Decimal, Error>)
        requires
            self.wf(),
            other.wf(),
        ensures
            ({
                let sc = if self.scale >= other.scale {
                    self.scale
                } else {
                    other.scale
                };
                let sum = self.mantissa * pow10((sc - self.scale) as nat) + other.mantissa * pow10(
                    (sc - other.scale) as nat,
                );
                match r {
                    Ok(d) => {
                        &&& d.wf()
                        &&& d.scale == sc
                        &&& d.mantissa == sum
                    },
                    Err(e) => sum > u64::MAX && e is DecimalOutOfRange,
                }
            }),
    {
        let sc = if self.scale >= other.scale {
            self.scale
        } else {
            other.scale
        };
        let pa = pow10_exec(sc - self.scale);
        let pb = pow10_exec(sc - other.scale);
        let a = match self.mantissa.checked_mul(pa) {
            Some(x) => x,
            None => {
                return Err(Error::DecimalOutOfRange);
            },
        };
        let b = match other.mantissa.checked_mul(pb) {
            Some(x) => x,
            None => {
                return Err(Error::DecimalOutOfRange);
            },
        };
        match a.checked_add(b) {
            Some(x) => Ok(Decimal { mantissa: x, scale: sc }),
            None => Err(Error::DecimalOutOfRange),
        }
    }

    /// The product, at the sum of the two scales; fails exactly when the
    /// product mantissa or the combined scale is not representable.
    pub fn mul(self, other: Decimal) -> (r: Result<Decimal, Error>)
        requires
            self.wf(),
            other.wf(),
        ensures
            match r {
                Ok(d) => {
                    &&& d.wf()
                    &&& d.scale == self.scale + other.scale
                    &&& d.mantissa == self.mantissa * other.mantissa
                },
                Err(e) => {
                    &&& (self.scale + other.scale > 18 || self.mantissa * other.mantissa
                        > u64::MAX)
                    &&& e is DecimalOutOfRange
                },
            },
    {
        if self.scale > 18 - other.scale {
            return Err(Error::DecimalOutOfRange);
        }
        match self.mantissa.checked_mul(other.mantissa) {
            Some(x) => Ok(Decimal { mantissa: x, scale: self.scale + other.scale }),
            None => Err(Error::DecimalOutOfRange),
        }
    }


/// Rounding to `dp` places, ties up, as one value.
pub open spec fn round_dp_spec(self, dp: u32) -> Decimal {
    if self.scale <= dp {
        self
    } else {
        let p = pow10((self.scale - dp) as nat);
        let q = self.mantissa as int / p as int;
        let rem = self.mantissa as int % p as int;
        Decimal {
            mantissa: (q + (if 2 * rem >= p { 1int } else { 0int })) as u64,
            scale: dp,
        }
    }
}

    /// Rounds to `dp` decimal places, ties rounded up; a value already at
    /// or below that scale is returned unchanged.
    pub fn round_dp_half_up(self, dp: u32) -> (r: Decimal)
        requires
            self.wf(),
        ensures
            r.wf(),
            r == self.round_dp_spec(dp),
            self.scale <= dp ==> r == self,
            self.scale > dp ==> {
                let p = pow10((self.scale - dp) as nat);
                &&& r.scale == dp
                &&& r.mantissa == self.mantissa as int / p as int + (if 2 * (self.mantissa as int
                    % p as int) >= p { 1int } else { 0int })
            },
    {
        if self.scale <= dp {
            return self;
        }
        let p = pow10_exec(self.scale - dp);
        proof {
            assert(pow10(0) == 1);
            assert(pow10(1) == 10);
            lemma_pow10_monotone(1, (self.scale - dp) as nat);
        }
        let q = self.mantissa / p;
        let rem = self.mantissa % p;
        proof {
            lemma_pow10_18();
            lemma_pow10_monotone((self.scale - dp) as nat, 18);
            assert(q * p + rem == self.mantissa) by (nonlinear_arith)
                requires
                    p > 0,
                    q == self.mantissa / p,
                    rem == self.mantissa % p,
            ;
            assert(q + 1 <= u64::MAX) by (nonlinear_arith)
                requires
                    p >= 10,
                    q * p + rem == self.mantissa,
                    rem >= 0,
                    q >= 0,
                    self.mantissa <= u64::MAX,
            ;
        }
        if rem >= p - rem {
            Decimal { mantissa: q + 1, scale: dp }
        } else {
            Decimal { mantissa: q, scale: dp }
        }
    }

    /// Strips trailing zero digits from the fractional part; the value is
    /// unchanged.
    pub fn normalize(self) -> (r: Decimal)
        requires
            self.wf(),
        ensures
            r.wf(),
            r.scale <= self.scale,
            r.mantissa * pow10((self.scale - r.scale) as nat) == self.mantissa,
            r.scale > 0 ==> r.mantissa % 10 != 0,
    {
        let mut m = self.mantissa;
        let mut scale = self.scale;
        proof {
            assert(pow10(0) == 1);
            assert((self.scale - scale) as nat == 0);
            assert(pow10((self.scale - scale) as nat) == 1);
            assert(m * pow10((self.scale - scale) as nat) == self.mantissa);
        }
        while scale > 0 && m % 10 == 0
            invariant
                scale <= self.scale <= 18,
                m * pow10((self.scale - scale) as nat) == self.mantissa,
            decreases scale,
        {
            proof {
                let k = (self.scale - scale) as nat;
                let m2 = m as int / 10;
                assert(m2 * 10 == m) by (nonlinear_arith)
                    requires
                        m % 10 == 0,
                        m2 == m as int / 10,
                        m >= 0,
                ;
                assert(pow10(k + 1) == 10 * pow10(k));
                assert(m2 * pow10(k + 1) == (m2 * 10) * pow10(k)) by (nonlinear_arith)
                    requires
                        pow10(k + 1) == 10 * pow10(k),
                ;
            }
            m = m / 10;
            scale = scale - 1;
        }
        Decimal { mantissa: m, scale }
    }

    /// The number of fractional digits.
    pub fn scale(&self) -> (r: u32)
        ensures
            r == self.scale,
    {
        self.scale
    }
}

/// Appending the next non-dot character extends the seen digits by one.
proof fn lemma_seen_digits_step(s: Seq<char>, k: int, i: int)
    requires
        0 <= i < s.len(),
        0 <= k <= s.len(),
        i != k,
    ensures
        seen_digits(s, k, i + 1) == seen_digits(s, k, i).push(s[i]),
{
    assert(seen_digits(s, k, i + 1) =~= seen_digits(s, k, i).push(s[i]));
}

/// When one more digit no longer fits in the mantissa, no split of the
/// string writes a representable decimal.
proof fn lemma_mantissa_overflow(s: Seq<char>, k1: int, i: int)
    requires
        0 <= k1 <= s.len(),
        k1 < s.len() ==> s[k1] == '.' && !is_digit(s[k1]),
        forall|j: int| 0 <= j < s.len() && j != k1 ==> is_digit(s[j]),
        0 <= i < s.len(),
        i != k1,
        digits_val(seen_digits(s, k1, i + 1)) > u64::MAX,
    ensures
        !dec_valid(s),
{
    let full = dec_digits(s, k1);
    let pre = seen_digits(s, k1, i + 1);
    assert(pre.len() <= full.len());
    assert forall|j: int| 0 <= j < pre.len() implies pre[j] == full[j] by {}
    lemma_digits_val_prefix(full, pre);
    assert forall|k: int|
        0 <= k <= s.len() && dec_shape_at(s, k) implies !(digits_val(dec_digits(s, k))
        <= u64::MAX) by {
        if k != k1 {
            lemma_only_dot_shape(s, k1, k);
        }
    }
    assert(!dec_valid(s));
}

/// Two dots leave no valid split.
proof fn lemma_two_dots_invalid(s: Seq<char>, k1: int, k2: int)
    requires
        0 <= k1 < k2 < s.len(),
        s[k1] == '.',
        s[k2] == '.',
    ensures
        !dec_valid(s),
{
    assert forall|k: int| 0 <= k <= s.len() implies !dec_shape_at(s, k) by {
        if dec_shape_at(s, k) {
            if k == s.len() {
                assert(is_digit(s[k1]));
                assert(false);
            } else {
                let kx = if k == k1 {
                    k2
                } else {
                    k1
                };
                if kx < k {
                    assert(s.subrange(0, k)[kx] == s[kx]);
                    assert(is_digit(s[kx]));
                } else {
                    assert(s.subrange(k + 1, s.len() as int)[kx - k - 1] == s[kx]);
                    assert(is_digit(s[kx]));
                }
                assert(false);
            }
        }
    }
    assert(!dec_valid(s));
}

/// A character that is neither digit nor dot leaves no valid split.
proof fn lemma_bad_char_invalid(s: Seq<char>, i: int)
    requires
        0 <= i < s.len(),
        !is_digit(s[i]),
        s[i] != '.',
    ensures
        !dec_valid(s),
{
    assert forall|k: int| 0 <= k <= s.len() implies !dec_shape_at(s, k) by {
        if dec_shape_at(s, k) {
            if k == s.len() {
                assert(is_digit(s[i]));
            } else {
                if i < k {
                    assert(s.subrange(0, k)[i] == s[i]);
                    assert(is_digit(s[i]));
                } else if i > k {
                    assert(s.subrange(k + 1, s.len() as int)[i - k - 1] == s[i]);
                    assert(is_digit(s[i]));
                }
            }
            assert(false);
        }
    }
    assert(!dec_valid(s));
}

/// A string writes at most one decimal.
pub proof fn lemma_parse_unique(s: Seq<char>, d1: Decimal, d2: Decimal)
    requires
        dec_parses_to(s, d1),
        dec_parses_to(s, d2),
    ensures
        d1 == d2,
{
    let k1 = choose|k: int|
        #![trigger dec_shape_at(s, k)]
        {
            &&& 0 <= k <= s.len()
            &&& dec_shape_at(s, k)
            &&& d1.mantissa == digits_val(dec_digits(s, k))
            &&& d1.scale == dec_scale(s, k)
        };
    let k2 = choose|k: int|
        #![trigger dec_shape_at(s, k)]
        {
            &&& 0 <= k <= s.len()
            &&& dec_shape_at(s, k)
            &&& d2.mantissa == digits_val(dec_digits(s, k))
            &&& d2.scale == dec_scale(s, k)
        };
    if k1 != k2 {
        // Two different splits cannot both fit the shape: whichever names
        // the dot, the other sees that dot among its digits.
        if k1 == s.len() {
            assert(is_digit(s[k2]));
            assert(false);
        } else if k2 == s.len() {
            assert(is_digit(s[k1]));
            assert(false);
        } else if k1 < k2 {
            assert(s.subrange(0, k2)[k1] == s[k1]);
            assert(is_digit(s[k1]));
            assert(false);
        } else {
            assert(s.subrange(0, k1)[k2] == s[k2]);
            assert(is_digit(s[k2]));
            assert(false);
        }
    }
}

} // verus!
