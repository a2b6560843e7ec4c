//! Handle sets: unordered, deduplicated groups of positional handles of
//! one kind, held as strictly increasing vectors of positions.

use vstd::prelude::*;

verus! {

/// Strictly increasing: sorted, and free of duplicates.
pub open spec fn strictly_sorted(s: Seq<usize>) -> bool {
    forall|i: int, j: int| 0 <= i < j < s.len() ==> s[i] < s[j]
}

/// Every element lies below the bound.
pub open spec fn below(s: Seq<usize>, n: int) -> bool {
    forall|i: int| 0 <= i < s.len() ==> s[i] < n
}

/// A strictly sorted sequence holds each value at most once, so two such
/// sequences over one set of values are one sequence.
pub proof fn lemma_sorted_set_unique(a: Seq<usize>, b: Seq<usize>)
    requires
        strictly_sorted(a),
        strictly_sorted(b),
        a.to_set() == b.to_set(),
    ensures
        a == b,
    decreases a.len(),
{
    if a.len() == 0 {
        if b.len() > 0 {
            assert(a.to_set().contains(b[0]));
            assert(false);
        }
        assert(a =~= b);
    } else {
        assert(a.to_set().contains(a[0]));
        assert(b.to_set().contains(a[0]));
        if b.len() == 0 {
            assert(false);
        }
        // The heads agree: each head is the least element of its set.
        assert(b.contains(a[0]));
        assert(b.to_set().contains(b[0]));
        assert(a.to_set().contains(b[0]));
        assert(a.contains(b[0]));
        let ia = choose|i: int| 0 <= i < a.len() && a[i] == b[0];
        let ib = choose|i: int| 0 <= i < b.len() && b[i] == a[0];
        assert(a[0] <= a[ia] && b[0] <= b[ib]);
        assert(a[0] == b[0]);
        let at = a.subrange(1, a.len() as int);
        let bt = b.subrange(1, b.len() as int);
        assert(at.to_set() =~= bt.to_set()) by {
            assert forall|x: usize| at.to_set().contains(x) implies bt.to_set().contains(x) by {
                let i = choose|i: int| 0 <= i < at.len() && at[i] == x;
                assert(a[i + 1] == x);
                assert(a.to_set().contains(x));
                let j = choose|j: int| 0 <= j < b.len() && b[j] == x;
                assert(x > a[0]);
                assert(j > 0);
                assert(bt[j - 1] == x);
            }
            assert forall|x: usize| bt.to_set().contains(x) implies at.to_set().contains(x) by {
                let i = choose|i: int| 0 <= i < bt.len() && bt[i] == x;
                assert(b[i + 1] == x);
                assert(b.to_set().contains(x));
                let j = choose|j: int| 0 <= j < a.len() && a[j] == x;
                assert(x > b[0]);
                assert(j > 0);
                assert(at[j - 1] == x);
            }
        }
        lemma_sorted_set_unique(at, bt);
        assert(a.len() == b.len());
        assert forall|i: int| 0 <= i < a.len() implies a[i] == b[i] by {
            if i > 0 {
                assert(at[i - 1] == bt[i - 1]);
            }
        }
        assert(a =~= b);
    }
}

/// Whether the sorted vector holds the value.
pub fn contains_sorted(v: &Vec<usize>, x: usize) -> (r: bool)
    ensures
        r == v@.to_set().contains(x),
{
    let n = v.len();
    for k in 0..n
        invariant
            n == v@.len(),
            forall|i: int| 0 <= i < k ==> v@[i] != x,
    {
        if v[k] == x {
            assert(v@.contains(x));
            return true;
        }
    }
    proof {
        if v@.to_set().contains(x) {
            let i = choose|i: int| 0 <= i < v@.len() && v@[i] == x;
        }
    }
    false
}

/// Puts a value into a sorted handle set; the set afterwards holds
/// exactly the old values and the new one.
pub fn insert_sorted(v: &mut Vec<usize>, x: usize)
    requires
        strictly_sorted(old(v)@),
    ensures
        strictly_sorted(final(v)@),
        final(v)@.to_set() == old(v)@.to_set().insert(x),
        final(v)@.len() <= old(v)@.len() + 1,
{
    let n = v.len();
    let mut k: usize = 0;
    while k < n && v[k] < x
        invariant
            n == v@.len(),
            k <= n,
            strictly_sorted(v@),
            forall|i: int| 0 <= i < k ==> v@[i] < x,
            v@ == old(v)@,
        decreases n - k,
    {
        k = k + 1;
    }
    if k < n && v[k] == x {
        proof {
            assert(v@.contains(x));
            assert(final(v)@.to_set() =~= old(v)@.to_set().insert(x));
        }
        return ;
    }
    proof {
        if k < n {
            assert(v@[k as int] > x);
        }
    }
    v.insert(k, x);
    proof {
        let s = old(v)@;
        let t = v@;
        assert(t == s.insert(k as int, x));
        assert forall|i: int, j: int| 0 <= i < j < t.len() implies t[i] < t[j] by {
            if i < k && j < k {
            } else if i < k && j == k {
            } else if i < k && j > k {
                assert(t[j] == s[j - 1]);
                if j - 1 > k - 1 && k as int - 1 >= 0 {
                }
            } else if i == k {
                assert(t[j] == s[j - 1]);
                assert(s[j - 1] > x);
            } else {
                assert(t[i] == s[i - 1] && t[j] == s[j - 1]);
            }
        }
        assert(t.to_set() =~= s.to_set().insert(x)) by {
            assert forall|y: usize| t.to_set().contains(y) implies s.to_set().contains(y) || y
                == x by {
                let i = choose|i: int| 0 <= i < t.len() && t[i] == y;
                if i < k {
                    assert(s[i] == y);
                } else if i > k {
                    assert(s[i - 1] == y);
                }
            }
            assert forall|y: usize| s.to_set().contains(y) implies t.to_set().contains(y) by {
                let i = choose|i: int| 0 <= i < s.len() && s[i] == y;
                if i < k {
                    assert(t[i] == y);
                } else {
                    assert(t[i + 1] == y);
                }
            }
            assert(t.to_set().contains(x)) by {
                assert(t[k as int] == x);
            }
        }
    }
}

/// The union of two sorted handle sets.
pub fn union_sorted(a: &Vec<usize>, b: &Vec<usize>) -> (r: Vec<usize>)
    requires
        strictly_sorted(a@),
        strictly_sorted(b@),
    ensures
        strictly_sorted(r@),
        r@.to_set() == a@.to_set().union(b@.to_set()),
{
    let na = a.len();
    let mut out: Vec<usize> = Vec::new();
    for k in 0..na
        invariant
            na == a@.len(),
            out@ == a@.subrange(0, k as int),
    {
        out.push(a[k]);
        proof {
            assert(out@ =~= a@.subrange(0, k + 1));
        }
    }
    proof {
        assert(out@ =~= a@);
        assert(out@.to_set() =~= a@.to_set().union(b@.subrange(0, 0).to_set()));
    }
    let n = b.len();
    for k in 0..n
        invariant
            n == b@.len(),
            strictly_sorted(out@),
            out@.to_set() == a@.to_set().union(b@.subrange(0, k as int).to_set()),
    {
        proof {
            assert(b@.subrange(0, k + 1) =~= b@.subrange(0, k as int).push(b@[k as int]));
            assert(b@.subrange(0, k + 1).to_set() =~= b@.subrange(0, k as int).to_set().insert(
                b@[k as int],
            )) by {
                let s0 = b@.subrange(0, k as int);
                let s1 = b@.subrange(0, k + 1);
                assert forall|y: usize| s1.to_set().contains(y) implies s0.to_set().insert(
                    b@[k as int],
                ).contains(y) by {
                    let i = choose|i: int| 0 <= i < s1.len() && s1[i] == y;
                    if i < k {
                        assert(s0[i] == y);
                    }
                }
                assert forall|y: usize| s0.to_set().insert(b@[k as int]).contains(y) implies s1.to_set().contains(
                    y,
                ) by {
                    if s0.to_set().contains(y) {
                        let i = choose|i: int| 0 <= i < s0.len() && s0[i] == y;
                        assert(s1[i] == y);
                    } else {
                        assert(s1[k as int] == y);
                    }
                }
            }
        }
        insert_sorted(&mut out, b[k]);
        proof {
            assert(out@.to_set() =~= a@.to_set().union(b@.subrange(0, k + 1).to_set()));
        }
    }
    proof {
        assert(b@.subrange(0, n as int) =~= b@);
    }
    out
}

} // verus!
