//! Fare records extracted from NeTEx elements: tickets, prices, uses,
//! perimeters and restrictions, plus the per-element readers the
//! extraction is built from. Parsing the XML bytes and walking the zip
//! archives is a caller's concern.

use vstd::prelude::*;

use crate::collection::{ids_equal, WithId};
use crate::decimal::{all_digits, dec_parses_to, dec_valid, digits_val, parse_u32, Decimal};
use crate::error::Error;
use crate::model::Collections;
use crate::objects::{
    prefixed, Date, ObjectType, PerimeterAction, RestrictionType, Ticket, TicketPrice, TicketUse,
    TicketUsePerimeter, TicketUseRestriction,
};
use crate::xml::{attr_first, named, Element};

verus! {

/// Whether this ISO 4217 alpha-3 code names a currency; the fixed table
/// makes the answer a function of the code alone.
pub uninterp spec fn known_currency(code: Seq<char>) -> bool;

/// Relies on iso4217::alpha3: a lookup in the fixed ISO 4217 currency
/// table, whose result depends on the code alone.
#[verifier::external_body]
fn currency_exists(code: &str) -> (r: bool)
    ensures
        r == known_currency(code@),
{
    iso4217::alpha3(code).is_some()
}

/// String equality against a literal.
fn eq_lit(a: &String, lit: &str) -> (r: bool)
    ensures
        r == (a@ == lit@),
{
    ids_equal(a, &lit.to_owned())
}

/// Whether `p` is the part of `id` before its first colon.
pub open spec fn prefix_of(id: Seq<char>, p: Seq<char>) -> bool {
    exists|k: int|
        #![trigger id.subrange(0, k)]
        {
            &&& 0 <= k < id.len()
            &&& id[k] == ':'
            &&& (forall|i: int| 0 <= i < k ==> id[i] != ':')
            &&& p == id.subrange(0, k)
        }
}

/// The prefix of the first contributor's identifier, up to its first
/// colon: fare identifiers are namespaced like the model they enrich.
pub fn get_prefix(collections: &Collections) -> (r: Option<String>)
    ensures
        (r matches Some(p) ==> collections.contributors.records().len() > 0 && prefix_of(
            collections.contributors.records()[0].sid(),
            p@,
        )),
        (r is None ==> collections.contributors.records().len() == 0 || (forall|i: int|
            0 <= i < collections.contributors.records()[0].sid().len()
                ==> collections.contributors.records()[0].sid()[i] != ':')),
{
    if collections.contributors.is_empty() {
        return None;
    }
    let id: &String = collections.contributors.get_by_idx(0).id();
    let s: &str = id.as_str();
    let n = s.unicode_len();
    let mut k: usize = 0;
    while k < n
        invariant
            n == s@.len(),
            k <= n,
            collections.contributors.records().len() > 0,
            s@ == collections.contributors.records()[0].sid(),
            forall|i: int| 0 <= i < k ==> s@[i] != ':',
        decreases n - k,
    {
        if s.get_char(k) == ':' {
            let p = s.substring_char(0, k).to_owned();
            proof {
                let cs = collections.contributors.records();
                assert(p@ == cs[0].sid().subrange(0, k as int));
                assert(prefix_of(cs[0].sid(), p@));
            }
            return Some(p);
        }
        k = k + 1;
    }
    None
}

impl Ticket {
    /// Reads a ticket from a `DistanceMatrixElement`: fails on any other
    /// element name, or when the element has no `id` attribute.
    pub fn try_from(distance_matrix_element: &Element) -> (r: Result<Ticket, Error>)
        ensures
            match r {
                Ok(t) => {
                    &&& distance_matrix_element.name@ == "DistanceMatrixElement"@
                    &&& attr_first(distance_matrix_element.attributes@, "id"@) == Some(t.id@)
                    &&& t.name@ == "Ticket Origin-Destination"@
                    &&& t.comment is None
                },
                Err(e) => {
                    &&& (distance_matrix_element.name@ != "DistanceMatrixElement"@ || attr_first(
                        distance_matrix_element.attributes@,
                        "id"@,
                    ) is None)
                    &&& (distance_matrix_element.name@ != "DistanceMatrixElement"@
                        ==> (e matches Error::NotADistanceMatrixElement { name } && name@
                        == distance_matrix_element.name@))
                },
            },
    {
        if !eq_lit(&distance_matrix_element.name, "DistanceMatrixElement") {
            return Err(
                Error::NotADistanceMatrixElement { name: distance_matrix_element.name.clone() },
            );
        }
        let id = match distance_matrix_element.try_attribute("id") {
            Ok(v) => v,
            Err(e) => {
                return Err(e);
            },
        };
        Ok(Ticket { id, name: "Ticket Origin-Destination".to_owned(), comment: None })
    }
}

impl TicketPrice {
    /// Builds a ticket price; fails exactly when the currency is not a
    /// known ISO 4217 alpha-3 code.
    pub fn try_from(
        ticket_id: String,
        price: Decimal,
        currency: String,
        validity: (Date, Date),
    ) -> (r: Result<TicketPrice, Error>)
        ensures
            ({
                let cur = currency@;
                match r {
                    Ok(tp) => {
                        &&& known_currency(cur)
                        &&& tp.ticket_id@ == ticket_id@
                        &&& tp.price == price
                        &&& tp.currency@ == cur
                        &&& tp.ticket_validity_start == validity.0
                        &&& tp.ticket_validity_end == validity.1
                    },
                    Err(e) => !known_currency(cur) && (e matches Error::InvalidCurrency {
                        currency: c,
                    } && c@ == cur),
                }
            }),
    {
        if !currency_exists(currency.as_str()) {
            return Err(Error::InvalidCurrency { currency });
        }
        Ok(
            TicketPrice {
                ticket_id,
                price,
                currency,
                ticket_validity_start: validity.0,
                ticket_validity_end: validity.1,
            },
        )
    }
}

impl TicketUse {
    /// The single use of a ticket, allowing no transfer.
    pub fn from(ticket_id: String) -> (r: TicketUse)
        ensures
            r.id@ == "TU:"@ + ticket_id@,
            r.ticket_id@ == ticket_id@,
            r.max_transfers == Some(0u32),
            r.boarding_time_limit is None,
            r.alighting_time_limit is None,
    {
        let ticket_use_id = "TU:".to_owned().concat(ticket_id.as_str());
        TicketUse {
            id: ticket_use_id,
            ticket_id,
            max_transfers: Some(0),
            boarding_time_limit: None,
            alighting_time_limit: None,
        }
    }
}

impl TicketUsePerimeter {
    /// A perimeter including one line.
    pub fn from(ticket_use_id: String, line_id: String) -> (r: TicketUsePerimeter)
        ensures
            r.ticket_use_id@ == ticket_use_id@,
            r.object_type == ObjectType::Line,
            r.object_id@ == line_id@,
            r.perimeter_action == PerimeterAction::Included,
    {
        TicketUsePerimeter {
            ticket_use_id,
            object_type: ObjectType::Line,
            object_id: line_id,
            perimeter_action: PerimeterAction::Included,
        }
    }
}

impl TicketUseRestriction {
    /// An origin-destination restriction of one ticket use.
    pub fn from(ticket_use_id: String, origin_destination: (String, String)) -> (r:
        TicketUseRestriction)
        ensures
            r.ticket_use_id@ == ticket_use_id@,
            r.restriction_type == RestrictionType::OriginDestination,
            r.use_origin@ == origin_destination.0@,
            r.use_destination@ == origin_destination.1@,
    {
        TicketUseRestriction {
            ticket_use_id,
            restriction_type: RestrictionType::OriginDestination,
            use_origin: origin_destination.0,
            use_destination: origin_destination.1,
        }
    }
}

/// What a well-formed distance reading looks like: a unique `Distance`
/// child whose text writes the number.
pub open spec fn distance_of(el: Element, v: u32) -> bool {
    let ds = named(el.children@, "Distance"@);
    &&& ds.len() == 1
    &&& ds[0].text@.len() > 0
    &&& all_digits(ds[0].text@)
    &&& v == digits_val(ds[0].text@)
}

/// Reads the distance in meters of a `DistanceMatrixElement`; succeeds
/// exactly when the element has one `Distance` child whose text is a
/// number that fits.
pub fn get_distance(distance_matrix_element: &Element) -> (r: Result<u32, Error>)
    ensures
        match r {
            Ok(v) => distance_of(*distance_matrix_element, v),
            Err(e) => !exists|v: u32| distance_of(*distance_matrix_element, v),
        },
{
    let child = match distance_matrix_element.try_only_child("Distance") {
        Ok(c) => c,
        Err(e) => {
            return Err(e);
        },
    };
    match parse_u32(child.text().as_str()) {
        Ok(v) => {
            proof {
                assert(distance_of(*distance_matrix_element, v));
            }
            Ok(v)
        },
        Err(e) => {
            proof {
                assert forall|v: u32| !distance_of(*distance_matrix_element, v) by {}
            }
            Err(e)
        },
    }
}

/// What a well-formed amount-times-units price looks like: unique
/// `Amount` and `Units` children whose texts write decimals whose product
/// is representable.
pub open spec fn amount_units_of(el: Element, d: Decimal) -> bool {
    let am = named(el.children@, "Amount"@);
    let un = named(el.children@, "Units"@);
    &&& am.len() == 1
    &&& un.len() == 1
    &&& d.wf()
    &&& exists|da: Decimal, du: Decimal|
        #![trigger da.mantissa * du.mantissa]
        {
            &&& dec_parses_to(am[0].text@, da)
            &&& dec_parses_to(un[0].text@, du)
            &&& da.wf() && du.wf()
            &&& d.mantissa == da.mantissa * du.mantissa
            &&& d.scale == da.scale + du.scale
        }
}

/// Reads the amount-times-units price of an element; succeeds exactly
/// when both parts are present, unique, parse, and their product is
/// representable.
fn get_amount_units_factor(el: &Element) -> (r: Result<Decimal, Error>)
    ensures
        match r {
            Ok(d) => amount_units_of(*el, d) && d.wf(),
            Err(e) => !exists|d: Decimal| amount_units_of(*el, d),
        },
{
    let amount_el = match el.try_only_child("Amount") {
        Ok(c) => c,
        Err(e) => {
            return Err(e);
        },
    };
    let units_el = match el.try_only_child("Units") {
        Ok(c) => c,
        Err(e) => {
            return Err(e);
        },
    };
    let da = match Decimal::parse(amount_el.text().as_str()) {
        Ok(d) => d,
        Err(e) => {
            proof {
                lemma_no_parse(named(el.children@, "Amount"@)[0].text@);
            }
            return Err(e);
        },
    };
    let du = match Decimal::parse(units_el.text().as_str()) {
        Ok(d) => d,
        Err(e) => {
            proof {
                lemma_no_parse(named(el.children@, "Units"@)[0].text@);
            }
            return Err(e);
        },
    };
    match da.mul(du) {
        Ok(d) => {
            proof {
                assert(dec_parses_to(named(el.children@, "Amount"@)[0].text@, da));
                assert(dec_parses_to(named(el.children@, "Units"@)[0].text@, du));
                assert(d.mantissa == da.mantissa * du.mantissa);
                assert(exists|xa: Decimal, xu: Decimal|
                    #![trigger xa.mantissa * xu.mantissa]
                    {
                        &&& dec_parses_to(named(el.children@, "Amount"@)[0].text@, xa)
                        &&& dec_parses_to(named(el.children@, "Units"@)[0].text@, xu)
                        &&& xa.wf() && xu.wf()
                        &&& d.mantissa == xa.mantissa * xu.mantissa
                        &&& d.scale == xa.scale + xu.scale
                    });
                assert(amount_units_of(*el, d));
            }
            Ok(d)
        },
        Err(e) => {
            proof {
                assert forall|d: Decimal| !amount_units_of(*el, d) by {
                    if amount_units_of(*el, d) {
                        let (xa, xu) = choose|xa: Decimal, xu: Decimal|
                            #![trigger xa.mantissa * xu.mantissa]
                            {
                                &&& dec_parses_to(named(el.children@, "Amount"@)[0].text@, xa)
                                &&& dec_parses_to(named(el.children@, "Units"@)[0].text@, xu)
                                &&& xa.wf() && xu.wf()
                                &&& d.mantissa == xa.mantissa * xu.mantissa
                                &&& d.scale == xa.scale + xu.scale
                            };
                        crate::decimal::lemma_parse_unique(
                            named(el.children@, "Amount"@)[0].text@,
                            xa,
                            da,
                        );
                        crate::decimal::lemma_parse_unique(
                            named(el.children@, "Units"@)[0].text@,
                            xu,
                            du,
                        );
                    }
                }
            }
            Err(e)
        },
    }
}

/// A string that fails to parse writes no decimal at all.
proof fn lemma_no_parse(s: Seq<char>)
    requires
        !dec_valid(s),
    ensures
        forall|d: Decimal| d.wf() ==> !#[trigger] dec_parses_to(s, d),
{
    assert forall|d: Decimal| d.wf() implies !dec_parses_to(s, d) by {
        if dec_parses_to(s, d) {
            let k = choose|k: int|
                #![trigger crate::decimal::dec_shape_at(s, k)]
                {
                    &&& 0 <= k <= s.len()
                    &&& crate::decimal::dec_shape_at(s, k)
                    &&& d.mantissa == digits_val(crate::decimal::dec_digits(s, k))
                    &&& d.scale == crate::decimal::dec_scale(s, k)
                };
            assert(false);
        }
    }
}

/// What a well-formed direct price looks like: a unique `prices` child
/// with a unique `DistanceMatrixElementPrice` child carrying the
/// amount-times-units price.
pub open spec fn direct_price_of(el: Element, d: Decimal) -> bool {
    let ps = named(el.children@, "prices"@);
    &&& ps.len() == 1
    &&& {
        let dmp = named(ps[0].children@, "DistanceMatrixElementPrice"@);
        &&& dmp.len() == 1
        &&& amount_units_of(dmp[0], d)
    }
}

/// Reads the direct price of a `DistanceMatrixElement`: the amount times
/// units of its unique price entry; succeeds exactly when that chain is
/// well formed.
pub fn calculate_direct_price(distance_matrix_element: &Element) -> (r: Result<Decimal, Error>)
    ensures
        match r {
            Ok(d) => direct_price_of(*distance_matrix_element, d) && d.wf(),
            Err(e) => !exists|d: Decimal| direct_price_of(*distance_matrix_element, d),
        },
{
    let prices = match distance_matrix_element.try_only_child("prices") {
        Ok(c) => c,
        Err(e) => {
            return Err(e);
        },
    };
    let dmp = match prices.try_only_child("DistanceMatrixElementPrice") {
        Ok(c) => c,
        Err(e) => {
            return Err(e);
        },
    };
    match get_amount_units_factor(dmp) {
        Ok(d) => Ok(d),
        Err(e) => Err(e),
    }
}

/// The price of one ticket by distance: the boarding fee plus the unit
/// price times the distance, rounded half-up to the rounding rule's
/// scale; fails exactly when an intermediate value leaves the
/// representable range.
pub fn distance_price(
    boarding_fee: Decimal,
    unit_price: Decimal,
    distance: u32,
    rounding_scale: u32,
) -> (r: Result<Decimal, Error>)
    requires
        boarding_fee.wf(),
        unit_price.wf(),
    ensures
        match r {
            Ok(d) => {
                &&& d.wf()
                &&& exists|raw: Decimal|
                    #![trigger raw.round_dp_spec(rounding_scale)]
                    {
                        &&& raw.wf()
                        &&& raw.scale == if boarding_fee.scale >= unit_price.scale {
                            boarding_fee.scale as int
                        } else {
                            unit_price.scale as int
                        }
                        &&& raw.mantissa == boarding_fee.mantissa * crate::decimal::pow10(
                            (raw.scale - boarding_fee.scale) as nat,
                        ) + (unit_price.mantissa * distance) * crate::decimal::pow10(
                            (raw.scale - unit_price.scale) as nat,
                        )
                        &&& d == raw.round_dp_spec(rounding_scale)
                    }
            },
            Err(e) => e is DecimalOutOfRange,
        },
{
    let dist = Decimal::from_u32(distance);
    let scaled = match unit_price.mul(dist) {
        Ok(d) => d,
        Err(e) => {
            return Err(e);
        },
    };
    let raw = match boarding_fee.add(scaled) {
        Ok(d) => d,
        Err(e) => {
            return Err(e);
        },
    };
    let rounded = raw.round_dp_half_up(rounding_scale);
    proof {
        assert(rounded == raw.round_dp_spec(rounding_scale));
    }
    Ok(rounded)
}

/// The well-formed matching entries of a key list: for each `KeyValue`
/// child whose unique `Key` child holds the wanted key, the text of its
/// unique `Value` child.
pub open spec fn kv_values(s: Seq<Element>, key: Seq<char>) -> Seq<Seq<char>>
    decreases s.len(),
{
    if s.len() == 0 {
        Seq::empty()
    } else {
        one_kv_value(s[0], key) + kv_values(s.drop_first(), key)
    }
}

/// The contribution of one child to the key-list lookup.
pub open spec fn one_kv_value(e: Element, key: Seq<char>) -> Seq<Seq<char>> {
    let ks = named(e.children@, "Key"@);
    let vs = named(e.children@, "Value"@);
    if e.name@ == "KeyValue"@ && ks.len() == 1 && ks[0].text@ == key && vs.len() == 1 {
        seq![vs[0].text@]
    } else {
        Seq::empty()
    }
}

/// The value stored in an element's key list under this key, when the
/// element has one `KeyList` child with exactly one well-formed entry for
/// the key.
pub open spec fn keylist_value_of(e: Element, key: Seq<char>) -> Option<Seq<char>> {
    let kls = named(e.children@, "KeyList"@);
    if kls.len() == 1 {
        let vs = kv_values(kls[0].children@, key);
        if vs.len() == 1 {
            Some(vs[0])
        } else {
            None
        }
    } else {
        None
    }
}

/// Reads the value stored under a key in an element's key list; succeeds
/// exactly when the element has one key list with exactly one well-formed
/// entry for the key.
pub fn get_value_in_keylist(el: &Element, key: &str) -> (r: Result<String, Error>)
    ensures
        match r {
            Ok(v) => keylist_value_of(*el, key@) == Some(v@),
            Err(e) => keylist_value_of(*el, key@) is None,
        },
{
    let keylist = match el.try_only_child("KeyList") {
        Ok(c) => c,
        Err(e) => {
            return Err(e);
        },
    };
    let n = keylist.children.len();
    let mut found: Option<String> = None;
    let mut count: usize = 0;
    let mut k: usize = 0;
    let key_string = key.to_owned();
    while k < n
        invariant
            n == keylist.children@.len(),
            k <= n,
            key_string@ == key@,
            count <= k,
            count == kv_values(keylist.children@.subrange(0, k as int), key@).len(),
            count > 0 ==> (found matches Some(v) && v@ == kv_values(
                keylist.children@.subrange(0, k as int),
                key@,
            )[0]),
            count == 0 ==> found is None,
        decreases n - k,
    {
        let child = &keylist.children[k];
        proof {
            assert(keylist.children@.subrange(0, k + 1) =~= keylist.children@.subrange(
                0,
                k as int,
            ).push(keylist.children@[k as int]));
            lemma_kv_values_snoc(
                keylist.children@.subrange(0, k as int),
                keylist.children@[k as int],
                key@,
            );
        }
        let mut contributed: Option<String> = None;
        if eq_lit(&child.name, "KeyValue") {
            match child.try_only_child("Key") {
                Ok(key_el) => {
                    if ids_equal(key_el.text(), &key_string) {
                        match child.try_only_child("Value") {
                            Ok(value_el) => {
                                contributed = Some(value_el.text().clone());
                            },
                            Err(_) => {},
                        }
                    }
                },
                Err(_) => {},
            }
        }
        proof {
            match &contributed {
                Some(v) => {
                    assert(one_kv_value(keylist.children@[k as int], key@) =~= seq![v@]);
                },
                None => {
                    assert(one_kv_value(keylist.children@[k as int], key@) =~= Seq::<
                        Seq<char>,
                    >::empty());
                },
            }
        }
        match contributed {
            Some(v) => {
                if count == 0 {
                    found = Some(v);
                }
                count = count + 1;
            },
            None => {},
        }
        k = k + 1;
    }
    proof {
        assert(keylist.children@.subrange(0, n as int) =~= keylist.children@);
    }
    if count == 1 {
        match found {
            Some(v) => Ok(v),
            None => Err(Error::KeyValueNotFound { key: key_string }),
        }
    } else {
        Err(Error::KeyValueNotFound { key: key_string })
    }
}

/// Appending one child appends its contribution to the key-list lookup.
proof fn lemma_kv_values_snoc(s: Seq<Element>, x: Element, key: Seq<char>)
    ensures
        kv_values(s.push(x), key) == kv_values(s, key) + one_kv_value(x, key),
    decreases s.len(),
{
    if s.len() == 0 {
        assert(s.push(x)[0] == x);
        assert(s.push(x).drop_first() =~= Seq::<Element>::empty());
        assert(kv_values(s.push(x), key) == one_kv_value(s.push(x)[0], key) + kv_values(
            s.push(x).drop_first(),
            key,
        ));
        assert(kv_values(s.push(x).drop_first(), key) =~~= Seq::<Seq<char>>::empty());
        assert(kv_values(s.push(x), key) =~~= one_kv_value(x, key));
        assert(kv_values(s, key) + one_kv_value(x, key) =~~= one_kv_value(x, key));
    } else {
        assert(s.push(x).drop_first() =~= s.drop_first().push(x));
        assert(s.push(x)[0] == s[0]);
        lemma_kv_values_snoc(s.drop_first(), x, key);
        assert(kv_values(s.push(x), key) =~~= kv_values(s, key) + one_kv_value(x, key));
    }
}

/// The line references of the validity triggers, in document order: for
/// each `ValidityTrigger` child, each `TriggerObjectRef` grandchild whose
/// reference class is `Line` and that carries a reference.
pub open spec fn trigger_line_refs(s: Seq<Element>) -> Seq<Seq<char>>
    decreases s.len(),
{
    if s.len() == 0 {
        Seq::empty()
    } else {
        trigger_contribution(s[0]) + trigger_line_refs(s.drop_first())
    }
}

/// The line references inside one validity trigger.
pub open spec fn trigger_contribution(e: Element) -> Seq<Seq<char>> {
    if e.name@ == "ValidityTrigger"@ {
        tor_refs(e.children@)
    } else {
        Seq::empty()
    }
}

/// The line references among trigger-object-reference children.
pub open spec fn tor_refs(s: Seq<Element>) -> Seq<Seq<char>>
    decreases s.len(),
{
    if s.len() == 0 {
        Seq::empty()
    } else {
        one_tor_ref(s[0]) + tor_refs(s.drop_first())
    }
}

/// The contribution of one child to the line references.
pub open spec fn one_tor_ref(e: Element) -> Seq<Seq<char>> {
    if e.name@ == "TriggerObjectRef"@ && attr_first(e.attributes@, "nameOfRefClass"@) == Some(
        "Line"@,
    ) && attr_first(e.attributes@, "ref"@) is Some {
        seq![attr_first(e.attributes@, "ref"@).unwrap()]
    } else {
        Seq::empty()
    }
}

/// The planning numbers of the lines carrying this identifier: for each
/// `Line` child with the referenced identifier, its key-list value under
/// the KV1 planning number key.
pub open spec fn line_values(s: Seq<Element>, line_ref: Seq<char>) -> Seq<Seq<char>>
    decreases s.len(),
{
    if s.len() == 0 {
        Seq::empty()
    } else {
        one_line_value(s[0], line_ref) + line_values(s.drop_first(), line_ref)
    }
}

/// The contribution of one child to the line lookup.
pub open spec fn one_line_value(e: Element, line_ref: Seq<char>) -> Seq<Seq<char>> {
    if e.name@ == "Line"@ && attr_first(e.attributes@, "id"@) == Some(line_ref)
        && keylist_value_of(e, "KV1PlanningLijnNummer"@) is Some {
        seq![keylist_value_of(e, "KV1PlanningLijnNummer"@).unwrap()]
    } else {
        Seq::empty()
    }
}

/// What a well-formed line identifier extraction looks like: one
/// content-validity block naming exactly one line, and exactly one line
/// of the service frame carrying that identifier and a planning number.
pub open spec fn line_id_of(fare_frame: Element, service_frame: Element, v: Seq<char>) -> bool {
    let cvcs = named(fare_frame.children@, "contentValidityConditions"@);
    let lines = named(service_frame.children@, "lines"@);
    &&& cvcs.len() == 1
    &&& {
        let refs = trigger_line_refs(cvcs[0].children@);
        &&& refs.len() == 1
        &&& lines.len() == 1
        &&& {
            let values = line_values(lines[0].children@, refs[0]);
            &&& values.len() == 1
            &&& v == values[0]
        }
    }
}

/// Extracts the planning number of the line a fare frame is valid for:
/// the unique line reference of the frame's validity triggers, looked up
/// among the service frame's lines. Succeeds exactly when that chain is
/// well formed and unambiguous.
pub fn get_line_id(fare_frame: &Element, service_frame: &Element) -> (r: Result<String, Error>)
    ensures
        match r {
            Ok(v) => line_id_of(*fare_frame, *service_frame, v@),
            Err(e) => !exists|v: Seq<char>| line_id_of(*fare_frame, *service_frame, v),
        },
{
    let cvc = match fare_frame.try_only_child("contentValidityConditions") {
        Ok(c) => c,
        Err(e) => {
            return Err(e);
        },
    };
    // Collect the line references of the validity triggers.
    let n = cvc.children.len();
    let mut refs: Vec<String> = Vec::new();
    let mut k: usize = 0;
    while k < n
        invariant
            n == cvc.children@.len(),
            k <= n,
            refs@.len() == trigger_line_refs(cvc.children@.subrange(0, k as int)).len(),
            forall|i: int|
                0 <= i < refs@.len() ==> (#[trigger] refs@[i])@ == trigger_line_refs(
                    cvc.children@.subrange(0, k as int),
                )[i],
        decreases n - k,
    {
        let child = &cvc.children[k];
        proof {
            lemma_trigger_refs_snoc(cvc.children@.subrange(0, k as int), cvc.children@[k as int]);
            assert(cvc.children@.subrange(0, k + 1) =~= cvc.children@.subrange(0, k as int).push(
                cvc.children@[k as int],
            ));
        }
        if eq_lit(&child.name, "ValidityTrigger") {
            let m = child.children.len();
            let mut t: usize = 0;
            while t < m
                invariant
                    m == child.children@.len(),
                    t <= m,
                    trigger_contribution(*child) == tor_refs(child.children@),
                    refs@.len() == trigger_line_refs(cvc.children@.subrange(0, k as int)).len()
                        + tor_refs(child.children@.subrange(0, t as int)).len(),
                    forall|i: int|
                        0 <= i < refs@.len() ==> (#[trigger] refs@[i])@ == (trigger_line_refs(
                            cvc.children@.subrange(0, k as int),
                        ) + tor_refs(child.children@.subrange(0, t as int)))[i],
                decreases m - t,
            {
                let tor = &child.children[t];
                proof {
                    lemma_tor_refs_snoc(child.children@.subrange(0, t as int), child.children@[t as int]);
                    assert(child.children@.subrange(0, t + 1) =~= child.children@.subrange(
                        0,
                        t as int,
                    ).push(child.children@[t as int]));
                }
                if eq_lit(&tor.name, "TriggerObjectRef") && tor.attribute_is(
                    "nameOfRefClass",
                    "Line",
                ) {
                    match tor.try_attribute("ref") {
                        Ok(v) => {
                            refs.push(v);
                            proof {
                                assert(one_tor_ref(child.children@[t as int]) =~= seq![
                                    refs@[refs@.len() - 1]@,
                                ]);
                            }
                        },
                        Err(_) => {
                            proof {
                                assert(one_tor_ref(child.children@[t as int]) =~= Seq::<
                                    Seq<char>,
                                >::empty());
                            }
                        },
                    }
                } else {
                    proof {
                        assert(one_tor_ref(child.children@[t as int]) =~= Seq::<
                            Seq<char>,
                        >::empty());
                    }
                }
                t = t + 1;
            }
            proof {
                assert(child.children@.subrange(0, m as int) =~= child.children@);
            }
        } else {
            proof {
                assert(trigger_contribution(cvc.children@[k as int]) =~= Seq::<Seq<char>>::empty());
            }
        }
        k = k + 1;
    }
    proof {
        assert(cvc.children@.subrange(0, n as int) =~= cvc.children@);
    }
    if refs.len() != 1 {
        proof {
            assert forall|v: Seq<char>| !line_id_of(*fare_frame, *service_frame, v) by {
                assert(named(fare_frame.children@, "contentValidityConditions"@)[0] == *cvc);
                assert(trigger_line_refs(cvc.children@).len() == refs@.len());
            }
        }
        return Err(Error::LineReferenceNotFound);
    }
    let line_ref = &refs[0];
    // Look the referenced line up among the service frame's lines.
    let lines = match service_frame.try_only_child("lines") {
        Ok(c) => c,
        Err(e) => {
            proof {
                assert forall|v: Seq<char>| !line_id_of(*fare_frame, *service_frame, v) by {
                    assert(named(service_frame.children@, "lines"@).len() != 1);
                }
            }
            return Err(e);
        },
    };
    let m = lines.children.len();
    let mut value: Option<String> = None;
    let mut count: usize = 0;
    let mut t: usize = 0;
    while t < m
        invariant
            m == lines.children@.len(),
            t <= m,
            *line_ref == refs@[0],
            count <= t,
            count == line_values(lines.children@.subrange(0, t as int), line_ref@).len(),
            count > 0 ==> (value matches Some(v) && v@ == line_values(
                lines.children@.subrange(0, t as int),
                line_ref@,
            )[0]),
            count == 0 ==> value is None,
        decreases m - t,
    {
        let line = &lines.children[t];
        proof {
            lemma_line_values_snoc(
                lines.children@.subrange(0, t as int),
                lines.children@[t as int],
                line_ref@,
            );
            assert(lines.children@.subrange(0, t + 1) =~= lines.children@.subrange(0, t as int).push(
                lines.children@[t as int],
            ));
        }
        let mut contributed: Option<String> = None;
        if eq_lit(&line.name, "Line") && line.attribute_is("id", line_ref.as_str()) {
            match get_value_in_keylist(line, "KV1PlanningLijnNummer") {
                Ok(v) => {
                    contributed = Some(v);
                },
                Err(_) => {},
            }
        }
        proof {
            match &contributed {
                Some(v) => {
                    assert(one_line_value(lines.children@[t as int], line_ref@) =~= seq![v@]);
                },
                None => {
                    assert(one_line_value(lines.children@[t as int], line_ref@) =~= Seq::<
                        Seq<char>,
                    >::empty());
                },
            }
        }
        match contributed {
            Some(v) => {
                if count == 0 {
                    value = Some(v);
                }
                count = count + 1;
            },
            None => {},
        }
        t = t + 1;
    }
    proof {
        assert(lines.children@.subrange(0, m as int) =~= lines.children@);
    }
    if count == 1 {
        match value {
            Some(v) => {
                proof {
                    assert(named(fare_frame.children@, "contentValidityConditions"@)[0] == *cvc);
                    assert(named(service_frame.children@, "lines"@)[0] == *lines);
                    assert(trigger_line_refs(cvc.children@).len() == 1);
                    assert(trigger_line_refs(cvc.children@)[0] == refs@[0]@);
                    assert(line_values(lines.children@, line_ref@).len() == 1);
                    assert(v@ == line_values(lines.children@, line_ref@)[0]);
                    assert(line_id_of(*fare_frame, *service_frame, v@));
                }
                Ok(v)
            },
            None => Err(Error::LineNotFound { line_ref: line_ref.clone() }),
        }
    } else {
        proof {
            assert forall|v: Seq<char>| !line_id_of(*fare_frame, *service_frame, v) by {
                assert(named(fare_frame.children@, "contentValidityConditions"@)[0] == *cvc);
                assert(named(service_frame.children@, "lines"@)[0] == *lines);
                assert(trigger_line_refs(cvc.children@).len() == 1);
                assert(trigger_line_refs(cvc.children@)[0] == refs@[0]@);
                assert(line_values(lines.children@, line_ref@).len() == count);
            }
        }
        Err(Error::LineNotFound { line_ref: line_ref.clone() })
    }
}

/// Appending one child appends its contribution to the trigger references.
proof fn lemma_trigger_refs_snoc(s: Seq<Element>, x: Element)
    ensures
        trigger_line_refs(s.push(x)) == trigger_line_refs(s) + trigger_contribution(x),
    decreases s.len(),
{
    if s.len() == 0 {
        assert(s.push(x)[0] == x);
        assert(s.push(x).drop_first() =~= Seq::<Element>::empty());
        assert(trigger_line_refs(s.push(x)) == trigger_contribution(s.push(x)[0])
            + trigger_line_refs(s.push(x).drop_first()));
        assert(trigger_line_refs(s.push(x).drop_first()) =~~= Seq::<Seq<char>>::empty());
        assert(trigger_line_refs(s.push(x)) =~~= trigger_contribution(x));
        assert(trigger_line_refs(s) + trigger_contribution(x) =~~= trigger_contribution(x));
    } else {
        assert(s.push(x).drop_first() =~= s.drop_first().push(x));
        assert(s.push(x)[0] == s[0]);
        lemma_trigger_refs_snoc(s.drop_first(), x);
        assert(trigger_line_refs(s.push(x)) =~~= trigger_line_refs(s) + trigger_contribution(x));
    }
}

/// Appending one child appends its contribution to the reference list.
proof fn lemma_tor_refs_snoc(s: Seq<Element>, x: Element)
    ensures
        tor_refs(s.push(x)) == tor_refs(s) + one_tor_ref(x),
    decreases s.len(),
{
    if s.len() == 0 {
        assert(s.push(x)[0] == x);
        assert(s.push(x).drop_first() =~= Seq::<Element>::empty());
        assert(tor_refs(s.push(x)) == one_tor_ref(s.push(x)[0]) + tor_refs(
            s.push(x).drop_first(),
        ));
        assert(tor_refs(s.push(x).drop_first()) =~~= Seq::<Seq<char>>::empty());
        assert(tor_refs(s.push(x)) =~~= one_tor_ref(x));
        assert(tor_refs(s) + one_tor_ref(x) =~~= one_tor_ref(x));
    } else {
        assert(s.push(x).drop_first() =~= s.drop_first().push(x));
        assert(s.push(x)[0] == s[0]);
        lemma_tor_refs_snoc(s.drop_first(), x);
        assert(tor_refs(s.push(x)) =~~= tor_refs(s) + one_tor_ref(x));
    }
}

/// Appending one child appends its contribution to the line lookup.
proof fn lemma_line_values_snoc(s: Seq<Element>, x: Element, line_ref: Seq<char>)
    ensures
        line_values(s.push(x), line_ref) == line_values(s, line_ref) + one_line_value(x, line_ref),
    decreases s.len(),
{
    if s.len() == 0 {
        assert(s.push(x)[0] == x);
        assert(s.push(x).drop_first() =~= Seq::<Element>::empty());
        assert(line_values(s.push(x), line_ref) == one_line_value(s.push(x)[0], line_ref)
            + line_values(s.push(x).drop_first(), line_ref));
        assert(line_values(s.push(x).drop_first(), line_ref) =~~= Seq::<Seq<char>>::empty());
        assert(line_values(s.push(x), line_ref) =~~= one_line_value(x, line_ref));
        assert(line_values(s, line_ref) + one_line_value(x, line_ref) =~~= one_line_value(
            x,
            line_ref,
        ));
    } else {
        assert(s.push(x).drop_first() =~= s.drop_first().push(x));
        assert(s.push(x)[0] == s[0]);
        lemma_line_values_snoc(s.drop_first(), x, line_ref);
        assert(line_values(s.push(x), line_ref) =~~= line_values(s, line_ref) + one_line_value(
            x,
            line_ref,
        ));
    }
}

/// The suffix of a reference after its first colon, when the reference
/// has one and something follows it.
pub open spec fn strip_of(r: Seq<char>) -> Option<Seq<char>>
    decreases r.len(),
{
    if r.len() == 0 {
        None
    } else if r[0] == ':' {
        if r.len() > 1 {
            Some(r.subrange(1, r.len() as int))
        } else {
            None
        }
    } else {
        strip_of(r.drop_first())
    }
}

/// Removes the namespace prefix of a reference: everything up to and
/// including its first colon; fails exactly when there is no colon, or
/// nothing follows it.
pub fn remove_netex_prefix(reference: &String) -> (r: Result<String, Error>)
    ensures
        match r {
            Ok(v) => strip_of(reference@) == Some(v@),
            Err(e) => strip_of(reference@) is None,
        },
{
    let s = reference.as_str();
    let n = s.unicode_len();
    proof {
        assert(s@.subrange(0, n as int) =~= s@);
    }
    let mut k: usize = 0;
    while k < n
        invariant
            n == s@.len(),
            k <= n,
            s@ == reference@,
            strip_of(reference@) == strip_of(s@.subrange(k as int, n as int)),
        decreases n - k,
    {
        proof {
            assert(s@.subrange(k as int, n as int)[0] == s@[k as int]);
            assert(s@.subrange(k as int, n as int).drop_first() =~= s@.subrange(k + 1, n as int));
        }
        if s.get_char(k) == ':' {
            if k + 1 < n {
                let v = s.substring_char(k + 1, n).to_owned();
                proof {
                    assert(s@.subrange(k as int, n as int).subrange(
                        1,
                        s@.subrange(k as int, n as int).len() as int,
                    ) =~= s@.subrange(k + 1, n as int));
                }
                return Ok(v);
            } else {
                proof {
                    assert(s@.subrange(k as int, n as int).len() == 1);
                }
                return Err(Error::PrefixNotRemovable { reference: reference.clone() });
            }
        }
        k = k + 1;
    }
    proof {
        assert(s@.subrange(n as int, n as int) =~= Seq::<char>::empty());
    }
    Err(Error::PrefixNotRemovable { reference: reference.clone() })
}

/// The projected point references of a scheduled stop point's
/// projections, in document order.
pub open spec fn proj_refs(s: Seq<Element>) -> Seq<Seq<char>>
    decreases s.len(),
{
    if s.len() == 0 {
        Seq::empty()
    } else {
        pp_contribution(s[0]) + proj_refs(s.drop_first())
    }
}

/// The references inside one point projection.
pub open spec fn pp_contribution(e: Element) -> Seq<Seq<char>> {
    if e.name@ == "PointProjection"@ {
        ppr_refs(e.children@)
    } else {
        Seq::empty()
    }
}

/// The references among projected-point-reference children.
pub open spec fn ppr_refs(s: Seq<Element>) -> Seq<Seq<char>>
    decreases s.len(),
{
    if s.len() == 0 {
        Seq::empty()
    } else {
        one_ppr_ref(s[0]) + ppr_refs(s.drop_first())
    }
}

/// The contribution of one child to the projected references.
pub open spec fn one_ppr_ref(e: Element) -> Seq<Seq<char>> {
    if e.name@ == "ProjectedPointRef"@ && attr_first(e.attributes@, "ref"@) is Some {
        seq![attr_first(e.attributes@, "ref"@).unwrap()]
    } else {
        Seq::empty()
    }
}

/// Appending one child appends its contribution to the projections.
proof fn lemma_proj_refs_snoc(s: Seq<Element>, x: Element)
    ensures
        proj_refs(s.push(x)) == proj_refs(s) + pp_contribution(x),
    decreases s.len(),
{
    if s.len() == 0 {
        assert(s.push(x)[0] == x);
        assert(s.push(x).drop_first() =~= Seq::<Element>::empty());
        assert(proj_refs(s.push(x)) == pp_contribution(s.push(x)[0]) + proj_refs(
            s.push(x).drop_first(),
        ));
        assert(proj_refs(s.push(x).drop_first()) =~~= Seq::<Seq<char>>::empty());
        assert(proj_refs(s.push(x)) =~~= pp_contribution(x));
        assert(proj_refs(s) + pp_contribution(x) =~~= pp_contribution(x));
    } else {
        assert(s.push(x).drop_first() =~= s.drop_first().push(x));
        assert(s.push(x)[0] == s[0]);
        lemma_proj_refs_snoc(s.drop_first(), x);
        assert(proj_refs(s.push(x)) =~~= proj_refs(s) + pp_contribution(x));
    }
}

/// Appending one child appends its contribution to the reference list.
proof fn lemma_ppr_refs_snoc(s: Seq<Element>, x: Element)
    ensures
        ppr_refs(s.push(x)) == ppr_refs(s) + one_ppr_ref(x),
    decreases s.len(),
{
    if s.len() == 0 {
        assert(s.push(x)[0] == x);
        assert(s.push(x).drop_first() =~= Seq::<Element>::empty());
        assert(ppr_refs(s.push(x)) == one_ppr_ref(s.push(x)[0]) + ppr_refs(
            s.push(x).drop_first(),
        ));
        assert(ppr_refs(s.push(x).drop_first()) =~~= Seq::<Seq<char>>::empty());
        assert(ppr_refs(s.push(x)) =~~= one_ppr_ref(x));
        assert(ppr_refs(s) + one_ppr_ref(x) =~~= one_ppr_ref(x));
    } else {
        assert(s.push(x).drop_first() =~= s.drop_first().push(x));
        assert(s.push(x)[0] == s[0]);
        lemma_ppr_refs_snoc(s.drop_first(), x);
        assert(ppr_refs(s.push(x)) =~~= ppr_refs(s) + one_ppr_ref(x));
    }
}

/// The scheduled stop points carrying this identifier.
pub open spec fn ssp_matching(s: Seq<Element>, r: Seq<char>) -> Seq<Element> {
    s.filter(
        |e: Element|
            e.name@ == "ScheduledStopPoint"@ && attr_first(e.attributes@, "id"@) == Some(r),
    )
}

/// The projected references of the unique scheduled stop point with this
/// identifier; fails when the point is missing, not unique, or lacks a
/// unique projections block.
fn get_stop_point_refs(scheduled_stop_points: &Element, stop_point_ref: &String) -> (r: Result<
    Vec<String>,
    Error,
>)
    ensures
        match r {
            Ok(v) => {
                let sel = ssp_matching(scheduled_stop_points.children@, stop_point_ref@);
                &&& sel.len() == 1
                &&& {
                    let ps = named(sel[0].children@, "projections"@);
                    &&& ps.len() == 1
                    &&& v@.len() == proj_refs(ps[0].children@).len()
                    &&& forall|i: int|
                        0 <= i < v@.len() ==> (#[trigger] v@[i])@ == proj_refs(ps[0].children@)[i]
                }
            },
            Err(e) => {
                let sel = ssp_matching(scheduled_stop_points.children@, stop_point_ref@);
                sel.len() != 1 || named(sel[0].children@, "projections"@).len() != 1
            },
        },
{
    let ghost pred = |e: Element|
        e.name@ == "ScheduledStopPoint"@ && attr_first(e.attributes@, "id"@) == Some(
            stop_point_ref@,
        );
    let n = scheduled_stop_points.children.len();
    let mut count: usize = 0;
    let mut first: usize = 0;
    let mut k: usize = 0;
    while k < n
        invariant
            n == scheduled_stop_points.children@.len(),
            k <= n,
            count == scheduled_stop_points.children@.subrange(0, k as int).filter(pred).len(),
            count <= k,
            count > 0 ==> first < k && scheduled_stop_points.children@[first as int]
                == scheduled_stop_points.children@.subrange(0, k as int).filter(pred)[0],
            pred == (|e: Element|
                e.name@ == "ScheduledStopPoint"@ && attr_first(e.attributes@, "id"@) == Some(
                    stop_point_ref@,
                )),
        decreases n - k,
    {
        proof {
            assert(scheduled_stop_points.children@.subrange(0, k + 1)
                =~= scheduled_stop_points.children@.subrange(0, k as int).push(
                scheduled_stop_points.children@[k as int],
            ));
            assert(scheduled_stop_points.children@.subrange(0, k + 1).drop_last()
                =~= scheduled_stop_points.children@.subrange(0, k as int));
            reveal(Seq::filter);
        }
        let child = &scheduled_stop_points.children[k];
        if eq_lit(&child.name, "ScheduledStopPoint") && child.attribute_is(
            "id",
            stop_point_ref.as_str(),
        ) {
            if count == 0 {
                first = k;
            }
            count = count + 1;
        }
        k = k + 1;
    }
    proof {
        assert(scheduled_stop_points.children@.subrange(0, n as int)
            =~= scheduled_stop_points.children@);
    }
    if count != 1 {
        return Err(Error::ScheduledStopPointNotFound { reference: stop_point_ref.clone() });
    }
    let ssp = &scheduled_stop_points.children[first];
    let projections = match ssp.try_only_child("projections") {
        Ok(c) => c,
        Err(e) => {
            return Err(e);
        },
    };
    // Collect the projected references.
    let m = projections.children.len();
    let mut refs: Vec<String> = Vec::new();
    let mut t: usize = 0;
    while t < m
        invariant
            m == projections.children@.len(),
            t <= m,
            refs@.len() == proj_refs(projections.children@.subrange(0, t as int)).len(),
            forall|i: int|
                0 <= i < refs@.len() ==> (#[trigger] refs@[i])@ == proj_refs(
                    projections.children@.subrange(0, t as int),
                )[i],
        decreases m - t,
    {
        let pp = &projections.children[t];
        proof {
            lemma_proj_refs_snoc(
                projections.children@.subrange(0, t as int),
                projections.children@[t as int],
            );
            assert(projections.children@.subrange(0, t + 1) =~= projections.children@.subrange(
                0,
                t as int,
            ).push(projections.children@[t as int]));
        }
        if eq_lit(&pp.name, "PointProjection") {
            let q = pp.children.len();
            let mut u: usize = 0;
            while u < q
                invariant
                    q == pp.children@.len(),
                    u <= q,
                    pp_contribution(*pp) == ppr_refs(pp.children@),
                    refs@.len() == proj_refs(projections.children@.subrange(0, t as int)).len()
                        + ppr_refs(pp.children@.subrange(0, u as int)).len(),
                    forall|i: int|
                        0 <= i < refs@.len() ==> (#[trigger] refs@[i])@ == (proj_refs(
                            projections.children@.subrange(0, t as int),
                        ) + ppr_refs(pp.children@.subrange(0, u as int)))[i],
                decreases q - u,
            {
                let ppr = &pp.children[u];
                proof {
                    lemma_ppr_refs_snoc(pp.children@.subrange(0, u as int), pp.children@[u as int]);
                    assert(pp.children@.subrange(0, u + 1) =~= pp.children@.subrange(
                        0,
                        u as int,
                    ).push(pp.children@[u as int]));
                }
                if eq_lit(&ppr.name, "ProjectedPointRef") {
                    match ppr.try_attribute("ref") {
                        Ok(v) => {
                            refs.push(v);
                            proof {
                                assert(one_ppr_ref(pp.children@[u as int]) =~= seq![
                                    refs@[refs@.len() - 1]@,
                                ]);
                            }
                        },
                        Err(_) => {
                            proof {
                                assert(one_ppr_ref(pp.children@[u as int]) =~= Seq::<
                                    Seq<char>,
                                >::empty());
                            }
                        },
                    }
                } else {
                    proof {
                        assert(one_ppr_ref(pp.children@[u as int]) =~= Seq::<Seq<char>>::empty());
                    }
                }
                u = u + 1;
            }
            proof {
                assert(pp.children@.subrange(0, q as int) =~= pp.children@);
            }
        } else {
            proof {
                assert(pp_contribution(projections.children@[t as int]) =~= Seq::<
                    Seq<char>,
                >::empty());
            }
        }
        t = t + 1;
    }
    proof {
        assert(projections.children@.subrange(0, m as int) =~= projections.children@);
    }
    Ok(refs)
}

/// The distinct stop areas, in first-appearance order, of the stop points
/// the stripped references resolve to under the prefix; a reference whose
/// stop point is unknown contributes nothing.
pub open spec fn areas_from(
    c: Collections,
    prefix: Seq<char>,
    refs: Seq<Seq<char>>,
    seen: Seq<Seq<char>>,
) -> Seq<Seq<char>>
    decreases refs.len(),
{
    if refs.len() == 0 {
        Seq::empty()
    } else {
        let found = one_area(c, prefix, refs[0], seen);
        found + areas_from(c, prefix, refs.drop_first(), seen + found)
    }
}

/// The contribution of one stripped reference to the distinct areas.
pub open spec fn one_area(
    c: Collections,
    prefix: Seq<char>,
    stripped: Seq<char>,
    seen: Seq<Seq<char>>,
) -> Seq<Seq<char>> {
    let full = prefix + stripped;
    if c.stop_points.contains_id(full) {
        let a = c.stop_points.records()[c.stop_points.index_of_id(full)].stop_area_id@;
        if seen.contains(a) {
            Seq::empty()
        } else {
            seq![a]
        }
    } else {
        Seq::empty()
    }
}

/// Resolves stripped references to their distinct stop areas, in
/// first-appearance order.
fn collect_areas(c: &Collections, prefix: &str, stripped: &Vec<String>) -> (r: Vec<String>)
    requires
        c.wf(),
    ensures
        ({
            let spec_refs = Seq::new(stripped@.len(), |i: int| stripped@[i]@);
            &&& r@.len() == areas_from(*c, prefix@, spec_refs, Seq::empty()).len()
            &&& forall|i: int|
                0 <= i < r@.len() ==> (#[trigger] r@[i])@ == areas_from(
                    *c,
                    prefix@,
                    spec_refs,
                    Seq::empty(),
                )[i]
        }),
{
    let ghost spec_refs = Seq::new(stripped@.len(), |i: int| stripped@[i]@);
    let n = stripped.len();
    let mut out: Vec<String> = Vec::new();
    let ghost full = areas_from(*c, prefix@, spec_refs, Seq::empty());
    proof {
        assert(spec_refs.subrange(0, n as int) =~= spec_refs);
        assert(Seq::new(0, |i: int| Seq::<char>::empty()) =~~= Seq::<Seq<char>>::empty());
        assert(Seq::<Seq<char>>::empty() + areas_from(*c, prefix@, spec_refs, Seq::empty())
            =~~= areas_from(*c, prefix@, spec_refs, Seq::empty()));
        assert(Seq::new(0nat, |i: int| Seq::<char>::empty()).len() == 0);
    }
    let mut k: usize = 0;
    while k < n
        invariant
            n == stripped@.len(),
            k <= n,
            c.wf(),
            spec_refs == Seq::new(stripped@.len(), |i: int| stripped@[i]@),
            full == areas_from(*c, prefix@, spec_refs, Seq::empty()),
            ({
                let seen = Seq::new(out@.len(), |i: int| out@[i]@);
                full == seen + areas_from(
                    *c,
                    prefix@,
                    spec_refs.subrange(k as int, n as int),
                    seen,
                )
            }),
        decreases n - k,
    {
        let ghost seen0 = Seq::new(out@.len(), |i: int| out@[i]@);
        proof {
            assert(spec_refs.subrange(k as int, n as int)[0] == spec_refs[k as int]);
            assert(spec_refs.subrange(k as int, n as int).drop_first() =~= spec_refs.subrange(
                k + 1,
                n as int,
            ));
        }
        let fullid = prefixed(prefix, &stripped[k]);
        match c.stop_points.get(&fullid) {
            Some(sp) => {
                let area = &sp.stop_area_id;
                let mut already = false;
                let no = out.len();
                let mut i: usize = 0;
                while i < no
                    invariant
                        no == out@.len(),
                        i <= no,
                        already == exists|j: int| 0 <= j < i && (#[trigger] out@[j])@ == area@,
                    decreases no - i,
                {
                    if ids_equal(&out[i], area) {
                        already = true;
                    }
                    i = i + 1;
                }
                proof {
                    assert(seen0.contains(area@) == already) by {
                        if seen0.contains(area@) {
                            let j = choose|j: int|
                                0 <= j < seen0.len() && seen0[j] == area@;
                            assert(out@[j]@ == area@);
                        }
                        if already {
                            let j = choose|j: int| 0 <= j < out@.len() && (#[trigger] out@[j])@ == area@;
                            assert(seen0[j] == area@);
                        }
                    }
                    assert(one_area(*c, prefix@, spec_refs[k as int], seen0) == (if already {
                        Seq::<Seq<char>>::empty()
                    } else {
                        seq![area@]
                    }));
                }
                if !already {
                    out.push(sp.stop_area_id.clone());
                    proof {
                        assert(Seq::new(out@.len(), |i: int| out@[i]@) =~~= seen0 + seq![
                            out@[out@.len() - 1]@,
                        ]);
                    }
                } else {
                    proof {
                        assert(seen0 + Seq::<Seq<char>>::empty() =~~= seen0);
                        assert(Seq::new(out@.len(), |i: int| out@[i]@) =~~= seen0);
                    }
                }
            },
            None => {
                proof {
                    assert(one_area(*c, prefix@, spec_refs[k as int], seen0) =~~= Seq::<
                        Seq<char>,
                    >::empty());
                    assert(seen0 + Seq::<Seq<char>>::empty() =~~= seen0);
                }
            },
        }
        k = k + 1;
    }
    proof {
        assert(spec_refs.subrange(n as int, n as int) =~= Seq::<Seq<char>>::empty());
        let seen = Seq::new(out@.len(), |i: int| out@[i]@);
        assert(areas_from(*c, prefix@, spec_refs.subrange(n as int, n as int), seen) =~~= Seq::<
            Seq<char>,
        >::empty());
        assert(full =~~= seen + Seq::<Seq<char>>::empty());
        assert forall|i: int| 0 <= i < out@.len() implies (#[trigger] out@[i])@ == full[i] by {
            assert(seen[i] == out@[i]@);
        }
    }
    out
}

/// Whether one side's scheduled stop point is unique and projectable.
pub open spec fn side_wf(ssp_container: Element, r: Seq<char>) -> bool {
    let sel = ssp_matching(ssp_container.children@, r);
    &&& sel.len() == 1
    &&& named(sel[0].children@, "projections"@).len() == 1
}

/// One side's projected references.
pub open spec fn side_refs(ssp_container: Element, r: Seq<char>) -> Seq<Seq<char>> {
    proj_refs(
        named(ssp_matching(ssp_container.children@, r)[0].children@, "projections"@)[0].children@,
    )
}

/// Whether every reference carries a strippable prefix.
pub open spec fn all_strippable(refs: Seq<Seq<char>>) -> bool {
    forall|i: int| 0 <= i < refs.len() ==> strip_of(#[trigger] refs[i]) is Some
}

/// The references with their prefixes stripped.
pub open spec fn strip_all(refs: Seq<Seq<char>>) -> Seq<Seq<char>> {
    refs.map_values(|r: Seq<char>| strip_of(r)->Some_0)
}

/// What a well-formed origin-destination extraction requires of the
/// elements: unique start and end references, a unique block of scheduled
/// stop points, and on each side a unique projectable stop point whose
/// references all carry a strippable prefix.
pub open spec fn od_wf(service_frame: Element, distance_matrix_element: Element) -> bool {
    let starts = named(distance_matrix_element.children@, "StartStopPointRef"@);
    let ends = named(distance_matrix_element.children@, "EndStopPointRef"@);
    let ssps = named(service_frame.children@, "scheduledStopPoints"@);
    &&& starts.len() == 1
    &&& attr_first(starts[0].attributes@, "ref"@) is Some
    &&& ends.len() == 1
    &&& attr_first(ends[0].attributes@, "ref"@) is Some
    &&& ssps.len() == 1
    &&& side_wf(ssps[0], attr_first(starts[0].attributes@, "ref"@)->Some_0)
    &&& side_wf(ssps[0], attr_first(ends[0].attributes@, "ref"@)->Some_0)
    &&& all_strippable(side_refs(ssps[0], attr_first(starts[0].attributes@, "ref"@)->Some_0))
    &&& all_strippable(side_refs(ssps[0], attr_first(ends[0].attributes@, "ref"@)->Some_0))
}

/// The stop areas one side resolves to, distinct and in first-appearance
/// order.
pub open spec fn side_areas(
    c: Collections,
    prefix: Seq<char>,
    service_frame: Element,
    distance_matrix_element: Element,
    side: Seq<char>,
) -> Seq<Seq<char>> {
    let ssps = named(service_frame.children@, "scheduledStopPoints"@);
    let refel = named(distance_matrix_element.children@, side);
    let r = attr_first(refel[0].attributes@, "ref"@)->Some_0;
    areas_from(c, prefix, strip_all(side_refs(ssps[0], r)), Seq::empty())
}

/// All origin/destination pairs, origins outermost.
pub open spec fn od_product(os: Seq<Seq<char>>, ds: Seq<Seq<char>>) -> Seq<(Seq<char>, Seq<char>)>
    decreases os.len(),
{
    if os.len() == 0 {
        Seq::empty()
    } else {
        pair_row(os[0], ds) + od_product(os.drop_first(), ds)
    }
}

/// One origin paired with every destination.
pub open spec fn pair_row(o: Seq<char>, ds: Seq<Seq<char>>) -> Seq<(Seq<char>, Seq<char>)> {
    ds.map_values(|d: Seq<char>| (o, d))
}

/// Appending one origin appends its row of pairs.
proof fn lemma_od_product_snoc(os: Seq<Seq<char>>, x: Seq<char>, ds: Seq<Seq<char>>)
    ensures
        od_product(os.push(x), ds) == od_product(os, ds) + pair_row(x, ds),
    decreases os.len(),
{
    if os.len() == 0 {
        assert(os.push(x)[0] == x);
        assert(os.push(x).drop_first() =~= Seq::<Seq<char>>::empty());
        assert(od_product(os.push(x), ds) == pair_row(os.push(x)[0], ds) + od_product(
            os.push(x).drop_first(),
            ds,
        ));
        assert(od_product(os.push(x).drop_first(), ds) =~~= Seq::<(Seq<char>, Seq<char>)>::empty());
        assert(od_product(os.push(x), ds) =~~= pair_row(x, ds));
        assert(od_product(os, ds) + pair_row(x, ds) =~~= pair_row(x, ds));
    } else {
        assert(os.push(x).drop_first() =~= os.drop_first().push(x));
        assert(os.push(x)[0] == os[0]);
        lemma_od_product_snoc(os.drop_first(), x, ds);
        assert(od_product(os.push(x), ds) =~~= od_product(os, ds) + pair_row(x, ds));
    }
}

/// Extracts every origin/destination stop-area pair a distance matrix
/// element stands for: the start and end scheduled stop points are
/// projected onto stop points of the model, and the distinct stop areas
/// on each side are paired up. Succeeds exactly when the element chain is
/// well formed; a projected stop point unknown to the model contributes
/// nothing.
pub fn get_origin_destinations(
    collections: &Collections,
    service_frame: &Element,
    distance_matrix_element: &Element,
    prefix_with_colon: &str,
) -> (r: Result<Vec<(String, String)>, Error>)
    requires
        collections.wf(),
    ensures
        match r {
            Ok(v) => {
                let os = side_areas(
                    *collections,
                    prefix_with_colon@,
                    *service_frame,
                    *distance_matrix_element,
                    "StartStopPointRef"@,
                );
                let ds = side_areas(
                    *collections,
                    prefix_with_colon@,
                    *service_frame,
                    *distance_matrix_element,
                    "EndStopPointRef"@,
                );
                &&& od_wf(*service_frame, *distance_matrix_element)
                &&& v@.len() == od_product(os, ds).len()
                &&& forall|i: int|
                    0 <= i < v@.len() ==> ((#[trigger] v@[i]).0@, v@[i].1@) == od_product(os, ds)[i]
            },
            Err(e) => !od_wf(*service_frame, *distance_matrix_element),
        },
{
    let start_el = match distance_matrix_element.try_only_child("StartStopPointRef") {
        Ok(c) => c,
        Err(e) => {
            return Err(e);
        },
    };
    let start_ref = match start_el.try_attribute("ref") {
        Ok(v) => v,
        Err(e) => {
            return Err(e);
        },
    };
    let end_el = match distance_matrix_element.try_only_child("EndStopPointRef") {
        Ok(c) => c,
        Err(e) => {
            return Err(e);
        },
    };
    let end_ref = match end_el.try_attribute("ref") {
        Ok(v) => v,
        Err(e) => {
            return Err(e);
        },
    };
    let ssps = match service_frame.try_only_child("scheduledStopPoints") {
        Ok(c) => c,
        Err(e) => {
            return Err(e);
        },
    };
    let start_refs = match get_stop_point_refs(ssps, &start_ref) {
        Ok(v) => v,
        Err(e) => {
            return Err(e);
        },
    };
    let end_refs = match get_stop_point_refs(ssps, &end_ref) {
        Ok(v) => v,
        Err(e) => {
            return Err(e);
        },
    };
    let start_stripped = match strip_refs(&start_refs) {
        Ok(v) => v,
        Err(e) => {
            proof {
                let sr = side_refs(*ssps, start_ref@);
                assert(Seq::new(start_refs@.len(), |i: int| start_refs@[i]@) =~~= sr);
            }
            return Err(e);
        },
    };
    let end_stripped = match strip_refs(&end_refs) {
        Ok(v) => v,
        Err(e) => {
            proof {
                let sr = side_refs(*ssps, end_ref@);
                assert(Seq::new(end_refs@.len(), |i: int| end_refs@[i]@) =~~= sr);
            }
            return Err(e);
        },
    };
    proof {
        assert(Seq::new(start_refs@.len(), |i: int| start_refs@[i]@) =~~= side_refs(
            *ssps,
            start_ref@,
        ));
        assert(Seq::new(end_refs@.len(), |i: int| end_refs@[i]@) =~~= side_refs(*ssps, end_ref@));
        assert(Seq::new(start_stripped@.len(), |i: int| start_stripped@[i]@) =~~= strip_all(
            side_refs(*ssps, start_ref@),
        ));
        assert(Seq::new(end_stripped@.len(), |i: int| end_stripped@[i]@) =~~= strip_all(
            side_refs(*ssps, end_ref@),
        ));
    }
    let origins = collect_areas(collections, prefix_with_colon, &start_stripped);
    let destinations = collect_areas(collections, prefix_with_colon, &end_stripped);
    let ghost os = side_areas(
        *collections,
        prefix_with_colon@,
        *service_frame,
        *distance_matrix_element,
        "StartStopPointRef"@,
    );
    let ghost ds = side_areas(
        *collections,
        prefix_with_colon@,
        *service_frame,
        *distance_matrix_element,
        "EndStopPointRef"@,
    );
    proof {
        assert(named(distance_matrix_element.children@, "StartStopPointRef"@)[0] == *start_el);
        assert(named(distance_matrix_element.children@, "EndStopPointRef"@)[0] == *end_el);
        assert(named(service_frame.children@, "scheduledStopPoints"@)[0] == *ssps);
        assert(Seq::new(origins@.len(), |i: int| origins@[i]@) =~~= os);
        assert(Seq::new(destinations@.len(), |i: int| destinations@[i]@) =~~= ds);
    }
    // Pair every origin with every destination.
    let no = origins.len();
    let nd = destinations.len();
    let mut out: Vec<(String, String)> = Vec::new();
    let mut k: usize = 0;
    while k < no
        invariant
            no == origins@.len(),
            nd == destinations@.len(),
            os == Seq::new(origins@.len(), |i: int| origins@[i]@),
            ds == Seq::new(destinations@.len(), |i: int| destinations@[i]@),
            out@.len() == od_product(os.subrange(0, k as int), ds).len(),
            k <= no,
            forall|i: int|
                0 <= i < out@.len() ==> ((#[trigger] out@[i]).0@, out@[i].1@) == od_product(
                    os.subrange(0, k as int),
                    ds,
                )[i],
        decreases no - k,
    {
        proof {
            lemma_od_product_snoc(os.subrange(0, k as int), os[k as int], ds);
            assert(os.subrange(0, k + 1) =~~= os.subrange(0, k as int).push(os[k as int]));
        }
        let mut t: usize = 0;
        while t < nd
            invariant
                no == origins@.len(),
                nd == destinations@.len(),
                k < no,
                t <= nd,
                os == Seq::new(origins@.len(), |i: int| origins@[i]@),
                ds == Seq::new(destinations@.len(), |i: int| destinations@[i]@),
                out@.len() == od_product(os.subrange(0, k as int), ds).len() + t,
                forall|i: int|
                    0 <= i < out@.len() ==> ((#[trigger] out@[i]).0@, out@[i].1@) == (od_product(
                        os.subrange(0, k as int),
                        ds,
                    ) + pair_row(os[k as int], ds))[i],
            decreases nd - t,
        {
            out.push((origins[k].clone(), destinations[t].clone()));
            proof {
                assert(pair_row(os[k as int], ds)[t as int] == (os[k as int], ds[t as int]));
            }
            t = t + 1;
        }
        k = k + 1;
    }
    proof {
        assert(os.subrange(0, no as int) =~~= os);
    }
    Ok(out)
}

/// Strips the namespace prefix of every reference; fails exactly when
/// some reference has none.
fn strip_refs(refs: &Vec<String>) -> (r: Result<Vec<String>, Error>)
    ensures
        ({
            let views = Seq::new(refs@.len(), |i: int| refs@[i]@);
            match r {
                Ok(v) => {
                    &&& all_strippable(views)
                    &&& v@.len() == refs@.len()
                    &&& Seq::new(v@.len(), |i: int| v@[i]@) =~~= strip_all(views)
                },
                Err(e) => !all_strippable(views),
            }
        }),
{
    let ghost views = Seq::new(refs@.len(), |i: int| refs@[i]@);
    let n = refs.len();
    let mut out: Vec<String> = Vec::new();
    let mut k: usize = 0;
    while k < n
        invariant
            n == refs@.len(),
            k <= n,
            views == Seq::new(refs@.len(), |i: int| refs@[i]@),
            out@.len() == k,
            forall|i: int|
                0 <= i < k ==> strip_of(#[trigger] views[i]) is Some && out@[i]@ == strip_of(
                    views[i],
                )->Some_0,
        decreases n - k,
    {
        match remove_netex_prefix(&refs[k]) {
            Ok(v) => {
                out.push(v);
            },
            Err(e) => {
                proof {
                    assert(strip_of(views[k as int]) is None);
                }
                return Err(e);
            },
        }
        k = k + 1;
    }
    proof {
        assert(Seq::new(out@.len(), |i: int| out@[i]@) =~~= strip_all(views));
    }
    Ok(out)
}

} // verus!
