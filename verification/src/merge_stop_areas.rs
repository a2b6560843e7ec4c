//! Stop-area merging: grouping rules are validated, each merge pair is
//! checked against a distance threshold, and every reference to a merged
//! stop area anywhere in the model is rewritten to its master.

use vstd::prelude::*;

use crate::collection::{ids_equal, CollectionWithId, WithId};
use crate::error::Error;
use crate::model::Collections;
use crate::objects::{Coord, StopArea, StopPoint, TicketUseRestriction};
use crate::transform::sanitized_from;
use vstd::arithmetic::div_mod::lemma_div_is_ordered;

verus! {

/// One grouping instruction: the master keeps its identifier, the listed
/// stop areas are merged into it.
pub struct MergeRule {
    /// The stop area that survives the merge.
    pub master_id: String,
    /// The stop areas to merge into the master.
    pub to_merge_ids: Vec<String>,
}

/// One master/merged pair, as reported.
pub struct MergePair {
    /// The surviving stop area.
    pub master: String,
    /// The merged-away stop area.
    pub merged: String,
}

/// What the merger did: the merges applied, the pairs skipped for lying
/// too far apart, and the rule identifiers that matched no stop area.
pub struct MergeReport {
    /// The merges carried out.
    pub applied: Vec<MergePair>,
    /// The pairs whose stop areas lie further apart than the threshold.
    pub skipped_too_far: Vec<MergePair>,
    /// Identifiers named by rules but absent from the model.
    pub unmatched: Vec<String>,
}

/// Whether a rule lists this identifier as a to-merge target.
pub open spec fn rule_lists(r: MergeRule, id: Seq<char>) -> bool {
    exists|i: int| 0 <= i < r.to_merge_ids@.len() && (#[trigger] r.to_merge_ids@[i])@ == id
}

/// A conflict between two rules: a target of rule `j` that rule `i` also
/// lists (one stop area under two masters), or that is rule `i`'s own
/// master (a chained merge).
pub open spec fn rules_conflict_at(rules: Seq<MergeRule>, i: int, j: int, t: int) -> bool {
    &&& 0 <= i < rules.len()
    &&& 0 <= j < rules.len()
    &&& i != j
    &&& 0 <= t < rules[j].to_merge_ids@.len()
    &&& (rule_lists(rules[i], rules[j].to_merge_ids@[t]@) || rules[i].master_id@
        == rules[j].to_merge_ids@[t]@)
}

/// Whether the rule set is free of conflicts.
pub open spec fn rules_ok(rules: Seq<MergeRule>) -> bool {
    forall|i: int, j: int, t: int| !rules_conflict_at(rules, i, j, t)
}

/// Whether the vector holds a string with this view.
pub fn list_contains(v: &Vec<String>, s: &String) -> (r: bool)
    ensures
        r == exists|k: int| 0 <= k < v@.len() && (#[trigger] v@[k])@ == s@,
{
    let n = v.len();
    for k in 0..n
        invariant
            n == v@.len(),
            forall|i: int| 0 <= i < k ==> (#[trigger] v@[i])@ != s@,
    {
        if ids_equal(&v[k], s) {
            return true;
        }
    }
    false
}

/// Whether the error names two conflicting rules and the identifier they
/// disagree on.
pub open spec fn names_conflict(rules: Seq<MergeRule>, e: Error) -> bool {
    match e {
        Error::RuleConflict { first_rule, second_rule, id } => conflict_with(
            rules,
            first_rule as int,
            second_rule as int,
            id@,
        ),
        _ => false,
    }
}

/// Some target of rule `j` conflicts with rule `i` and is written `idv`.
pub open spec fn conflict_with(rules: Seq<MergeRule>, i: int, j: int, idv: Seq<char>) -> bool {
    exists|t: int|
        #![trigger rules_conflict_at(rules, i, j, t)]
        rules_conflict_at(rules, i, j, t) && rules[j].to_merge_ids@[t]@ == idv
}

/// Validates a rule set: fails exactly when some stop area is listed
/// under two masters or a master is itself merged away, naming the two
/// conflicting rules and the identifier they disagree on.
pub fn check_rules(rules: &Vec<MergeRule>) -> (r: Result<(), Error>)
    ensures
        match r {
            Ok(()) => rules_ok(rules@),
            Err(e) => {
                &&& !rules_ok(rules@)
                &&& names_conflict(rules@, e)
            },
        },
{
    let n = rules.len();
    let mut j: usize = 0;
    while j < n
        invariant
            n == rules@.len(),
            j <= n,
            forall|i2: int, j2: int, t2: int| j2 < j ==> !rules_conflict_at(rules@, i2, j2, t2),
        decreases n - j,
    {
        let m = rules[j].to_merge_ids.len();
        let mut t: usize = 0;
        while t < m
            invariant
                n == rules@.len(),
                j < n,
                m == rules@[j as int].to_merge_ids@.len(),
                t <= m,
                forall|i2: int, j2: int, t2: int| j2 < j ==> !rules_conflict_at(rules@, i2, j2, t2),
                forall|i2: int, t2: int| t2 < t ==> !rules_conflict_at(rules@, i2, j as int, t2),
            decreases m - t,
        {
            let target = &rules[j].to_merge_ids[t];
            let mut i: usize = 0;
            while i < n
                invariant
                    n == rules@.len(),
                    j < n,
                    m == rules@[j as int].to_merge_ids@.len(),
                    t < m,
                    i <= n,
                    *target == rules@[j as int].to_merge_ids@[t as int],
                    forall|i2: int| i2 < i ==> !rules_conflict_at(rules@, i2, j as int, t as int),
                decreases n - i,
            {
                if i != j {
                    if ids_equal(&rules[i].master_id, target) {
                        let id_clone = target.clone();
                        proof {
                            assert(rules_conflict_at(rules@, i as int, j as int, t as int));
                            assert(!rules_ok(rules@));
                            assert(rules@[j as int].to_merge_ids@[t as int]@ == id_clone@);
                            assert(conflict_with(rules@, i as int, j as int, id_clone@));
                        }
                        let e = Error::RuleConflict {
                            first_rule: i,
                            second_rule: j,
                            id: id_clone,
                        };
                        proof {
                            assert(names_conflict(rules@, e));
                        }
                        return Err(e);
                    }
                    if list_contains(&rules[i].to_merge_ids, target) {
                        let id_clone = target.clone();
                        proof {
                            assert(rule_lists(rules@[i as int], target@));
                            assert(rules_conflict_at(rules@, i as int, j as int, t as int));
                            assert(!rules_ok(rules@));
                            assert(rules@[j as int].to_merge_ids@[t as int]@ == id_clone@);
                            assert(conflict_with(rules@, i as int, j as int, id_clone@));
                        }
                        let e = Error::RuleConflict {
                            first_rule: i,
                            second_rule: j,
                            id: id_clone,
                        };
                        proof {
                            assert(names_conflict(rules@, e));
                        }
                        return Err(e);
                    }
                }
                proof {
                    if rules_conflict_at(rules@, i as int, j as int, t as int) {
                        assert(false);
                    }
                }
                i = i + 1;
            }
            t = t + 1;
        }
        j = j + 1;
    }
    Ok(())
}

/// Whether an identifier is merged away by the applied pairs.
pub open spec fn in_merged(applied: Seq<MergePair>, id: Seq<char>) -> bool {
    exists|k: int| 0 <= k < applied.len() && (#[trigger] applied[k]).merged@ == id
}

/// The identifier after the merge: the master of the pair that merges it
/// away, or the identifier itself.
pub open spec fn map_id(applied: Seq<MergePair>, id: Seq<char>) -> Seq<char> {
    if in_merged(applied, id) {
        let k = choose|k: int| 0 <= k < applied.len() && (#[trigger] applied[k]).merged@ == id;
        applied[k].master@
    } else {
        id
    }
}

/// A sound set of applied pairs: each stop area merged away only once,
/// and no master merged away itself.
pub open spec fn applied_ok(applied: Seq<MergePair>) -> bool {
    &&& forall|k1: int, k2: int|
        0 <= k1 < k2 < applied.len() ==> (#[trigger] applied[k1]).merged@
            != (#[trigger] applied[k2]).merged@
    &&& forall|k: int|
        0 <= k < applied.len() ==> !in_merged(applied, (#[trigger] applied[k]).master@)
}

/// The master an identifier is merged into, when it is merged away.
fn map_lookup<'a>(applied: &'a Vec<MergePair>, id: &String) -> (r: Option<&'a String>)
    requires
        applied_ok(applied@),
    ensures
        match r {
            Some(m) => in_merged(applied@, id@) && m@ == map_id(applied@, id@),
            None => !in_merged(applied@, id@),
        },
{
    let n = applied.len();
    for k in 0..n
        invariant
            n == applied@.len(),
            applied_ok(applied@),
            forall|i: int| 0 <= i < k ==> (#[trigger] applied@[i]).merged@ != id@,
    {
        if ids_equal(&applied[k].merged, id) {
            proof {
                let w = choose|w: int|
                    0 <= w < applied@.len() && (#[trigger] applied@[w]).merged@ == id@;
                if w != k {
                    assert(applied@[w].merged@ != applied@[k as int].merged@);
                }
            }
            return Some(&applied[k].master);
        }
    }
    None
}

/// The cosine of a latitude, in 1/32768 units, by the two-term small-angle
/// series the merger uses; clamped at zero near the poles.
pub open spec fn cos_q15(lat_micro_abs: int) -> int {
    let r = lat_micro_abs * 573 / 1000000;
    let c = 32768 - r * r / 65536 + r * r * r * r / 844424930131968;
    if c < 0 {
        0
    } else {
        c
    }
}

/// The squared flat-surface distance in square meters between two
/// coordinates, by the merger's integer approximation: one microdegree of
/// latitude is 0.111319 meters, and longitude shrinks by the cosine of
/// the mean latitude.
pub open spec fn dist_sq_meters(a: Coord, b: Coord) -> int {
    let dlat = if a.lat_micro >= b.lat_micro {
        a.lat_micro - b.lat_micro
    } else {
        b.lat_micro - a.lat_micro
    };
    let dlon = if a.lon_micro >= b.lon_micro {
        a.lon_micro - b.lon_micro
    } else {
        b.lon_micro - a.lon_micro
    };
    let sum = a.lat_micro + b.lat_micro;
    let asum = if sum < 0 {
        -sum
    } else {
        sum
    };
    let c = cos_q15(asum / 2);
    let dy = dlat * 111319 / 1000000;
    let dx = dlon * 111319 * c / 32768000000;
    dy * dy + dx * dx
}

/// Whether two coordinates lie within the given distance of each other,
/// by the merger's integer approximation of the geodesic distance.
pub fn within_distance(a: Coord, b: Coord, meters: u64) -> (r: bool)
    requires
        a.on_globe(),
        b.on_globe(),
    ensures
        r == (dist_sq_meters(a, b) <= meters * meters),
{
    let dlat: u128 = if a.lat_micro >= b.lat_micro {
        (a.lat_micro - b.lat_micro) as u128
    } else {
        (b.lat_micro - a.lat_micro) as u128
    };
    let dlon: u128 = if a.lon_micro >= b.lon_micro {
        (a.lon_micro - b.lon_micro) as u128
    } else {
        (b.lon_micro - a.lon_micro) as u128
    };
    let sum: i64 = a.lat_micro + b.lat_micro;
    let asum: u128 = if sum < 0 {
        (-sum) as u128
    } else {
        sum as u128
    };
    let half: u128 = asum / 2;
    proof {
        assert(half <= 90000000);
        assert(half * 573 <= 90000000 * 573) by (nonlinear_arith)
            requires
                half <= 90000000,
        ;
    }
    let hw: u128 = half * 573;
    let rq: u128 = hw / 1000000;
    proof {
        lemma_div_is_ordered(hw as int, 51570000000, 1000000);
        assert(rq <= 51570);
    }
    proof {
        assert(rq * rq <= 51570 * 51570) by (nonlinear_arith)
            requires
                rq <= 51570,
        ;
    }
    let r2: u128 = rq * rq;
    proof {
        assert(r2 * r2 <= 2659464900 * 2659464900) by (nonlinear_arith)
            requires
                r2 <= 2659464900,
        ;
    }
    let r4: u128 = r2 * r2;
    let t2: u128 = r2 / 65536;
    let t4: u128 = r4 / 844424930131968;
    proof {
        lemma_div_is_ordered(r2 as int, 2659464900, 65536);
        lemma_div_is_ordered(r4 as int, 7072753554332010000, 844424930131968);
        assert(t2 <= 40580);
        assert(t4 <= 8375);
    }
    let ci: i128 = 32768i128 - (t2 as i128) + (t4 as i128);
    let c: u128 = if ci < 0 {
        0
    } else {
        ci as u128
    };
    proof {
        assert((rq as int) * (rq as int) * (rq as int) * (rq as int) == (r2 as int) * (
        r2 as int)) by (nonlinear_arith)
            requires
                r2 == rq * rq,
        ;
        assert(c == cos_q15(half as int));
        assert(c <= 41143);
    }
    proof {
        assert(dlat <= 180000000);
        assert(dlat * 111319 <= 180000000 * 111319) by (nonlinear_arith)
            requires
                dlat <= 180000000,
        ;
    }
    let dyw: u128 = dlat * 111319;
    let dy: u128 = dyw / 1000000;
    proof {
        lemma_div_is_ordered(dyw as int, 20037420000000, 1000000);
        assert(dy <= 20037420);
    }
    let dxw: u128 = dlon * 111319;
    proof {
        assert(dlon <= 360000000);
        assert(dxw <= 360000000 * 111319) by (nonlinear_arith)
            requires
                dlon <= 360000000,
                dxw == dlon * 111319,
        ;
    }
    proof {
        assert(dxw * c <= 40074840000000000 * 41143) by (nonlinear_arith)
            requires
                dxw <= 40074840000000000,
                c <= 41143,
        ;
    }
    let dxc: u128 = dxw * c;
    let dx: u128 = dxc / 32768000000;
    proof {
        lemma_div_is_ordered(dxc as int, 1648799142120000000000, 32768000000);
        assert(dx <= 50317356632);
        assert(dx * dx <= 50317356632 * 50317356632) by (nonlinear_arith)
            requires
                dx <= 50317356632,
        ;
        assert(dy * dy <= 20037420 * 20037420) by (nonlinear_arith)
            requires
                dy <= 20037420,
        ;
    }
    let dsq: u128 = dy * dy + dx * dx;
    let m128: u128 = meters as u128;
    proof {
        assert(m128 * m128 <= 18446744073709551615 * 18446744073709551615) by (nonlinear_arith)
            requires
                m128 <= 18446744073709551615,
        ;
    }
    let msq: u128 = m128 * m128;
    proof {
        assert(dsq == dist_sq_meters(a, b));
        assert(msq == meters * meters);
    }
    dsq <= msq
}

/// Whether the list holds a string with this view.
pub open spec fn str_in(list: Seq<String>, id: Seq<char>) -> bool {
    exists|k: int| 0 <= k < list.len() && (#[trigger] list[k])@ == id
}

/// Whether the list holds this master/merged pair.
pub open spec fn pair_in(list: Seq<MergePair>, master: Seq<char>, merged: Seq<char>) -> bool {
    exists|k: int|
        0 <= k < list.len() && (#[trigger] list[k]).master@ == master && list[k].merged@ == merged
}

/// The coordinate of the stop area carrying this identifier.
pub open spec fn sa_coord(sas: Seq<StopArea>, id: Seq<char>) -> Coord {
    let k = choose|k: int| 0 <= k < sas.len() && (#[trigger] sas[k]).sid() == id;
    sas[k].coord
}

/// What became of one rule target: reported as unmatched when the master
/// or the target is not in the model, skipped when the two stop areas lie
/// too far apart, merged into its master otherwise; a stop area listed
/// under its own master is left alone.
pub open spec fn target_outcome(
    rules: Seq<MergeRule>,
    sas: Seq<StopArea>,
    maxd: u64,
    applied: Seq<MergePair>,
    skipped: Seq<MergePair>,
    unmatched: Seq<String>,
    j: int,
    t: int,
) -> bool {
    let master = rules[j].master_id@;
    let target = rules[j].to_merge_ids@[t]@;
    if !crate::transform::has_record_with_id(sas, master) {
        str_in(unmatched, master)
    } else if !crate::transform::has_record_with_id(sas, target) {
        str_in(unmatched, target)
    } else if master == target {
        true
    } else if dist_sq_meters(sa_coord(sas, master), sa_coord(sas, target)) > maxd * maxd {
        pair_in(skipped, master, target)
    } else {
        in_merged(applied, target) && map_id(applied, target) == master
    }
}

/// Every rule target was classified.
pub open spec fn merge_classified(
    rules: Seq<MergeRule>,
    sas: Seq<StopArea>,
    maxd: u64,
    applied: Seq<MergePair>,
    skipped: Seq<MergePair>,
    unmatched: Seq<String>,
) -> bool {
    forall|j: int, t: int|
        #![trigger target_outcome(rules, sas, maxd, applied, skipped, unmatched, j, t)]
        0 <= j < rules.len() && 0 <= t < rules[j].to_merge_ids@.len() ==> target_outcome(
            rules,
            sas,
            maxd,
            applied,
            skipped,
            unmatched,
            j,
            t,
        )
}

/// Every applied pair names two stop areas of the model and comes from a
/// rule.
pub open spec fn applied_sound(rules: Seq<MergeRule>, sas: Seq<StopArea>, applied: Seq<MergePair>) -> bool {
    forall|k: int|
        0 <= k < applied.len() ==> {
            let p = #[trigger] applied[k];
            &&& crate::transform::has_record_with_id(sas, p.master@)
            &&& crate::transform::has_record_with_id(sas, p.merged@)
            &&& p.master@ != p.merged@
            &&& exists|j: int|
                0 <= j < rules.len() && (#[trigger] rules[j]).master_id@ == p.master@
                    && rule_lists(rules[j], p.merged@)
        }
}

/// Extending a sound pair list does not change where the old identifiers
/// are mapped.
proof fn lemma_map_id_extend(a1: Seq<MergePair>, a2: Seq<MergePair>, id: Seq<char>)
    requires
        a1.len() <= a2.len(),
        forall|k: int| 0 <= k < a1.len() ==> a2[k] == a1[k],
        applied_ok(a2),
        in_merged(a1, id),
    ensures
        in_merged(a2, id),
        map_id(a2, id) == map_id(a1, id),
{
    let k1 = choose|k: int| 0 <= k < a1.len() && (#[trigger] a1[k]).merged@ == id;
    assert(a2[k1].merged@ == id);
    assert(in_merged(a2, id));
    let w1 = choose|k: int| 0 <= k < a1.len() && (#[trigger] a1[k]).merged@ == id;
    let w2 = choose|k: int| 0 <= k < a2.len() && (#[trigger] a2[k]).merged@ == id;
    if w2 != w1 {
        assert(a2[w1].merged@ == id);
        assert(a2[w2].merged@ == id);
        assert(false);
    }
}

/// A classified outcome stays classified when the three lists grow.
proof fn lemma_outcome_extend(
    rules: Seq<MergeRule>,
    sas: Seq<StopArea>,
    maxd: u64,
    a1: Seq<MergePair>,
    s1: Seq<MergePair>,
    u1: Seq<String>,
    a2: Seq<MergePair>,
    s2: Seq<MergePair>,
    u2: Seq<String>,
    j: int,
    t: int,
)
    requires
        0 <= j < rules.len(),
        0 <= t < rules[j].to_merge_ids@.len(),
        target_outcome(rules, sas, maxd, a1, s1, u1, j, t),
        a1.len() <= a2.len(),
        forall|k: int| 0 <= k < a1.len() ==> a2[k] == a1[k],
        s1.len() <= s2.len(),
        forall|k: int| 0 <= k < s1.len() ==> s2[k] == s1[k],
        u1.len() <= u2.len(),
        forall|k: int| 0 <= k < u1.len() ==> u2[k] == u1[k],
        applied_ok(a2),
    ensures
        target_outcome(rules, sas, maxd, a2, s2, u2, j, t),
{
    let master = rules[j].master_id@;
    let target = rules[j].to_merge_ids@[t]@;
    if !crate::transform::has_record_with_id(sas, master) {
        let k = choose|k: int| 0 <= k < u1.len() && (#[trigger] u1[k])@ == master;
        assert(u2[k]@ == master);
    } else if !crate::transform::has_record_with_id(sas, target) {
        let k = choose|k: int| 0 <= k < u1.len() && (#[trigger] u1[k])@ == target;
        assert(u2[k]@ == target);
    } else if master == target {
    } else if dist_sq_meters(sa_coord(sas, master), sa_coord(sas, target)) > maxd * maxd {
        let k = choose|k: int|
            0 <= k < s1.len() && (#[trigger] s1[k]).master@ == master && s1[k].merged@ == target;
        assert(s2[k].master@ == master && s2[k].merged@ == target);
    } else {
        lemma_map_id_extend(a1, a2, target);
    }
}

/// How a merge relates the stores before and after the rewrites: the
/// merged stop areas removed, every stop point's and every
/// origin-destination restriction's stop-area reference mapped to its
/// master, everything else untouched.
pub open spec fn merged_from(old_c: Collections, mid: Collections, applied: Seq<MergePair>) -> bool {
    &&& mid.stop_areas.records() == old_c.stop_areas.records().filter(
        |sa: StopArea| !in_merged(applied, sa.sid()),
    )
    &&& mid.stop_points.records().len() == old_c.stop_points.records().len()
    &&& forall|k: int|
        0 <= k < mid.stop_points.records().len() ==> {
            let sp = #[trigger] mid.stop_points.records()[k];
            let old_sp = old_c.stop_points.records()[k];
            &&& sp.sid() == old_sp.sid()
            &&& sp.name == old_sp.name
            &&& sp.coord == old_sp.coord
            &&& sp.stop_area_id@ == map_id(applied, old_sp.stop_area_id@)
        }
    &&& mid.ticket_use_restrictions.records().len() == old_c.ticket_use_restrictions.records().len()
    &&& forall|k: int|
        0 <= k < mid.ticket_use_restrictions.records().len() ==> {
            let tr = #[trigger] mid.ticket_use_restrictions.records()[k];
            let old_tr = old_c.ticket_use_restrictions.records()[k];
            &&& tr.ticket_use_id == old_tr.ticket_use_id
            &&& tr.restriction_type == old_tr.restriction_type
            &&& tr.use_origin@ == map_id(applied, old_tr.use_origin@)
            &&& tr.use_destination@ == map_id(applied, old_tr.use_destination@)
        }
    &&& mid.contributors == old_c.contributors
    &&& mid.datasets == old_c.datasets
    &&& mid.networks == old_c.networks
    &&& mid.commercial_modes == old_c.commercial_modes
    &&& mid.physical_modes == old_c.physical_modes
    &&& mid.companies == old_c.companies
    &&& mid.lines == old_c.lines
    &&& mid.routes == old_c.routes
    &&& mid.vehicle_journeys == old_c.vehicle_journeys
    &&& mid.calendars == old_c.calendars
    &&& mid.comments == old_c.comments
    &&& mid.equipments == old_c.equipments
    &&& mid.geometries == old_c.geometries
    &&& mid.tickets == old_c.tickets
    &&& mid.ticket_uses == old_c.ticket_uses
    &&& mid.transfers == old_c.transfers
    &&& mid.frequencies == old_c.frequencies
    &&& mid.ticket_prices == old_c.ticket_prices
    &&& mid.ticket_use_perimeters == old_c.ticket_use_perimeters
}

/// After a valid merge, nothing references a merged-away stop area: the
/// merged identifiers are gone from the stop areas, every stop point and
/// every origin-destination restriction points at surviving stop areas,
/// and the merged areas' former stop points now belong to their masters.
pub proof fn lemma_merge_removes_references(
    old_c: Collections,
    mid: Collections,
    new_c: Collections,
    applied: Seq<MergePair>,
)
    requires
        applied_ok(applied),
        merged_from(old_c, mid, applied),
        sanitized_from(mid, new_c),
    ensures
        forall|k: int|
            0 <= k < new_c.stop_areas.records().len() ==> !in_merged(
                applied,
                (#[trigger] new_c.stop_areas.records()[k]).sid(),
            ),
        forall|k: int|
            0 <= k < new_c.stop_points.records().len() ==> !in_merged(
                applied,
                (#[trigger] new_c.stop_points.records()[k]).stop_area_id@,
            ),
        forall|k: int|
            0 <= k < new_c.ticket_use_restrictions.records().len() ==> !in_merged(
                applied,
                (#[trigger] new_c.ticket_use_restrictions.records()[k]).use_origin@,
            ) && !in_merged(applied, new_c.ticket_use_restrictions.records()[k].use_destination@),
        forall|k: int, m: int|
            0 <= k < new_c.stop_points.records().len() && 0 <= m < applied.len() && old_c.stop_points.records()[k].stop_area_id@
                == (#[trigger] applied[m]).merged@ ==> (
            #[trigger] new_c.stop_points.records()[k]).stop_area_id@ == applied[m].master@,
{
    broadcast use vstd::seq_lib::group_filter_ensures;

    // The sanitizer leaves stop areas, stop points and restrictions as the
    // rewrites made them.
    assert(new_c.stop_areas == mid.stop_areas);
    assert(new_c.stop_points == mid.stop_points);
    assert(new_c.ticket_use_restrictions == mid.ticket_use_restrictions);
    let psa = |sa: StopArea| !in_merged(applied, sa.sid());
    assert forall|k: int|
        0 <= k < new_c.stop_areas.records().len() implies !in_merged(
        applied,
        (#[trigger] new_c.stop_areas.records()[k]).sid(),
    ) by {
        assert(psa(old_c.stop_areas.records().filter(psa)[k]));
    }
    assert forall|k: int|
        0 <= k < new_c.stop_points.records().len() implies !in_merged(
        applied,
        (#[trigger] new_c.stop_points.records()[k]).stop_area_id@,
    ) by {
        let old_id = old_c.stop_points.records()[k].stop_area_id@;
        lemma_map_id_not_merged(applied, old_id);
    }
    assert forall|k: int|
        0 <= k < new_c.ticket_use_restrictions.records().len() implies !in_merged(
        applied,
        (#[trigger] new_c.ticket_use_restrictions.records()[k]).use_origin@,
    ) && !in_merged(applied, new_c.ticket_use_restrictions.records()[k].use_destination@) by {
        lemma_map_id_not_merged(applied, old_c.ticket_use_restrictions.records()[k].use_origin@);
        lemma_map_id_not_merged(
            applied,
            old_c.ticket_use_restrictions.records()[k].use_destination@,
        );
    }
    assert forall|k: int, m: int|
        0 <= k < new_c.stop_points.records().len() && 0 <= m < applied.len() && old_c.stop_points.records()[k].stop_area_id@
            == (#[trigger] applied[m]).merged@ implies (
    #[trigger] new_c.stop_points.records()[k]).stop_area_id@ == applied[m].master@ by {
        let old_id = old_c.stop_points.records()[k].stop_area_id@;
        assert(in_merged(applied, old_id));
        let w = choose|w: int| 0 <= w < applied.len() && (#[trigger] applied[w]).merged@ == old_id;
        if w != m {
            assert(applied[w].merged@ != applied[m].merged@);
        }
    }
}

/// The result of mapping an identifier is never itself merged away.
proof fn lemma_map_id_not_merged(applied: Seq<MergePair>, id: Seq<char>)
    requires
        applied_ok(applied),
    ensures
        !in_merged(applied, map_id(applied, id)),
{
    if in_merged(applied, id) {
        let k = choose|k: int| 0 <= k < applied.len() && (#[trigger] applied[k]).merged@ == id;
        assert(!in_merged(applied, applied[k].master@));
    }
}

/// Every rule target before position `(j, t)` in rule order has been
/// classified against the three lists.
pub open spec fn classified_upto(
    rules: Seq<MergeRule>,
    sas: Seq<StopArea>,
    maxd: u64,
    applied: Seq<MergePair>,
    skipped: Seq<MergePair>,
    unmatched: Seq<String>,
    j: int,
    t: int,
) -> bool {
    forall|j2: int, t2: int|
        #![trigger target_outcome(rules, sas, maxd, applied, skipped, unmatched, j2, t2)]
        0 <= j2 < rules.len() && 0 <= t2 < rules[j2].to_merge_ids@.len() && (j2 < j || (j2 == j
            && t2 < t)) ==> target_outcome(rules, sas, maxd, applied, skipped, unmatched, j2, t2)
}

/// The lists may only grow, keeping what they held.
pub open spec fn lists_extend(
    a1: Seq<MergePair>,
    s1: Seq<MergePair>,
    u1: Seq<String>,
    a2: Seq<MergePair>,
    s2: Seq<MergePair>,
    u2: Seq<String>,
) -> bool {
    &&& a1.len() <= a2.len() && (forall|k: int| 0 <= k < a1.len() ==> a2[k] == a1[k])
    &&& s1.len() <= s2.len() && (forall|k: int| 0 <= k < s1.len() ==> s2[k] == s1[k])
    &&& u1.len() <= u2.len() && (forall|k: int| 0 <= k < u1.len() ==> u2[k] == u1[k])
}

/// Classification so far survives growing the lists.
proof fn lemma_classified_extend(
    rules: Seq<MergeRule>,
    sas: Seq<StopArea>,
    maxd: u64,
    a1: Seq<MergePair>,
    s1: Seq<MergePair>,
    u1: Seq<String>,
    a2: Seq<MergePair>,
    s2: Seq<MergePair>,
    u2: Seq<String>,
    j: int,
    t: int,
)
    requires
        classified_upto(rules, sas, maxd, a1, s1, u1, j, t),
        lists_extend(a1, s1, u1, a2, s2, u2),
        applied_ok(a2),
    ensures
        classified_upto(rules, sas, maxd, a2, s2, u2, j, t),
{
    assert forall|j2: int, t2: int|
        #![trigger target_outcome(rules, sas, maxd, a2, s2, u2, j2, t2)]
        0 <= j2 < rules.len() && 0 <= t2 < rules[j2].to_merge_ids@.len() && (j2 < j || (j2 == j
            && t2 < t)) implies target_outcome(rules, sas, maxd, a2, s2, u2, j2, t2) by {
        assert(target_outcome(rules, sas, maxd, a1, s1, u1, j2, t2));
        lemma_outcome_extend(rules, sas, maxd, a1, s1, u1, a2, s2, u2, j2, t2);
    }
}

/// One more target classified moves the frontier one step.
proof fn lemma_classified_step(
    rules: Seq<MergeRule>,
    sas: Seq<StopArea>,
    maxd: u64,
    applied: Seq<MergePair>,
    skipped: Seq<MergePair>,
    unmatched: Seq<String>,
    j: int,
    t: int,
)
    requires
        0 <= j < rules.len(),
        0 <= t < rules[j].to_merge_ids@.len(),
        classified_upto(rules, sas, maxd, applied, skipped, unmatched, j, t),
        target_outcome(rules, sas, maxd, applied, skipped, unmatched, j, t),
    ensures
        classified_upto(rules, sas, maxd, applied, skipped, unmatched, j, t + 1),
{
    assert forall|j2: int, t2: int|
        #![trigger target_outcome(rules, sas, maxd, applied, skipped, unmatched, j2, t2)]
        0 <= j2 < rules.len() && 0 <= t2 < rules[j2].to_merge_ids@.len() && (j2 < j || (j2 == j
            && t2 < t + 1)) implies target_outcome(
        rules,
        sas,
        maxd,
        applied,
        skipped,
        unmatched,
        j2,
        t2,
    ) by {
        if !(j2 == j && t2 == t) {
            assert(target_outcome(rules, sas, maxd, applied, skipped, unmatched, j2, t2));
        }
    }
}

/// A whole rule classified moves the frontier to the next rule; a rule
/// whose master is unmatched counts whole once the master is reported.
proof fn lemma_classified_rule(
    rules: Seq<MergeRule>,
    sas: Seq<StopArea>,
    maxd: u64,
    applied: Seq<MergePair>,
    skipped: Seq<MergePair>,
    unmatched: Seq<String>,
    j: int,
    t: int,
)
    requires
        0 <= j < rules.len(),
        t >= rules[j].to_merge_ids@.len(),
        classified_upto(rules, sas, maxd, applied, skipped, unmatched, j, t),
    ensures
        classified_upto(rules, sas, maxd, applied, skipped, unmatched, j + 1, 0),
{
    assert forall|j2: int, t2: int|
        #![trigger target_outcome(rules, sas, maxd, applied, skipped, unmatched, j2, t2)]
        0 <= j2 < rules.len() && 0 <= t2 < rules[j2].to_merge_ids@.len() && (j2 < j + 1) implies target_outcome(
        rules,
        sas,
        maxd,
        applied,
        skipped,
        unmatched,
        j2,
        t2,
    ) by {
        assert(target_outcome(rules, sas, maxd, applied, skipped, unmatched, j2, t2));
    }
}

/// A rule whose master is not in the model is classified whole once the
/// master is reported unmatched.
proof fn lemma_classified_unmatched_master(
    rules: Seq<MergeRule>,
    sas: Seq<StopArea>,
    maxd: u64,
    applied: Seq<MergePair>,
    skipped: Seq<MergePair>,
    unmatched: Seq<String>,
    j: int,
)
    requires
        0 <= j < rules.len(),
        classified_upto(rules, sas, maxd, applied, skipped, unmatched, j, 0),
        !crate::transform::has_record_with_id(sas, rules[j].master_id@),
        str_in(unmatched, rules[j].master_id@),
    ensures
        classified_upto(rules, sas, maxd, applied, skipped, unmatched, j + 1, 0),
{
    assert forall|j2: int, t2: int|
        #![trigger target_outcome(rules, sas, maxd, applied, skipped, unmatched, j2, t2)]
        0 <= j2 < rules.len() && 0 <= t2 < rules[j2].to_merge_ids@.len() && (j2 < j + 1) implies target_outcome(
        rules,
        sas,
        maxd,
        applied,
        skipped,
        unmatched,
        j2,
        t2,
    ) by {
        if j2 != j {
            assert(target_outcome(rules, sas, maxd, applied, skipped, unmatched, j2, t2));
        }
    }
}

/// Merges stop areas by the given rules: validates the rule set, skips
/// pairs lying further apart than `max_distance` meters, rewrites every
/// reference to a merged stop area to its master, removes the merged
/// areas, and re-runs the sanitizer; returns the new stores and a report
/// of what was applied, skipped or unmatched. Fails exactly on a rule
/// conflict, and no partial model is returned.
#[verifier::rlimit(100)]
#[verifier::spinoff_prover]
pub fn merge_stop_areas(c: Collections, rules: &Vec<MergeRule>, max_distance: u64) -> (r: Result<
    (Collections, MergeReport),
    Error,
>)
    requires
        c.wf(),
        forall|k: int|
            0 <= k < c.stop_areas.records().len()
                ==> (#[trigger] c.stop_areas.records()[k]).coord.on_globe(),
    ensures
        match r {
            Ok((c2, report)) => {
                &&& rules_ok(rules@)
                &&& applied_ok(report.applied@)
                &&& applied_sound(rules@, c.stop_areas.records(), report.applied@)
                &&& merge_classified(
                    rules@,
                    c.stop_areas.records(),
                    max_distance,
                    report.applied@,
                    report.skipped_too_far@,
                    report.unmatched@,
                )
                &&& exists|mid: Collections|
                    #![trigger merged_from(c, mid, report.applied@)]
                    merged_from(c, mid, report.applied@) && sanitized_from(mid, c2)
                &&& c2.wf()
            },
            Err(e) => !rules_ok(rules@) && names_conflict(rules@, e),
        },
{
    match check_rules(rules) {
        Ok(()) => (),
        Err(e) => {
            return Err(e);
        },
    }
    let ghost sas = c.stop_areas.records();
    let n_rules = rules.len();
    let mut applied: Vec<MergePair> = Vec::new();
    let mut skipped: Vec<MergePair> = Vec::new();
    let mut unmatched: Vec<String> = Vec::new();
    let mut j: usize = 0;
    while j < n_rules
        invariant
            n_rules == rules@.len(),
            j <= n_rules,
            c.wf(),
            rules_ok(rules@),
            sas == c.stop_areas.records(),
            forall|k: int| 0 <= k < sas.len() ==> (#[trigger] sas[k]).coord.on_globe(),
            applied_ok(applied@),
            applied_sound(rules@, sas, applied@),
            classified_upto(rules@, sas, max_distance, applied@, skipped@, unmatched@, j as int, 0),
        decreases n_rules - j,
    {
        let master = &rules[j].master_id;
        let master_idx = c.stop_areas.get_idx(master);
        match master_idx {
            None => {
                let ghost a0 = applied@;
                let ghost s0 = skipped@;
                let ghost u0 = unmatched@;
                unmatched.push(master.clone());
                proof {
                    assert(unmatched@[u0.len() as int]@ == master@);
                    assert(str_in(unmatched@, master@));
                    lemma_classified_extend(
                        rules@, sas, max_distance, a0, s0, u0,
                        applied@, skipped@, unmatched@, j as int, 0,
                    );
                    lemma_classified_unmatched_master(
                        rules@, sas, max_distance, applied@, skipped@, unmatched@, j as int,
                    );
                }
            },
            Some(mi) => {
                let master_coord = c.stop_areas.get_by_idx(mi).coord;
                let m = rules[j].to_merge_ids.len();
                let mut t: usize = 0;
                while t < m
                    invariant
                        n_rules == rules@.len(),
                        j < n_rules,
                        m == rules@[j as int].to_merge_ids@.len(),
                        t <= m,
                        c.wf(),
                        rules_ok(rules@),
                        sas == c.stop_areas.records(),
                        forall|k: int| 0 <= k < sas.len() ==> (#[trigger] sas[k]).coord.on_globe(),
                        *master == rules@[j as int].master_id,
                        mi < sas.len() && sas[mi as int].sid() == master@,
                        master_coord == sas[mi as int].coord,
                        applied_ok(applied@),
                        applied_sound(rules@, sas, applied@),
                        classified_upto(
                            rules@, sas, max_distance, applied@, skipped@, unmatched@,
                            j as int, t as int,
                        ),
                    decreases m - t,
                {
                    let target = &rules[j].to_merge_ids[t];
                    let ghost a0 = applied@;
                    let ghost s0 = skipped@;
                    let ghost u0 = unmatched@;
                    match c.stop_areas.get_idx(target) {
                        None => {
                            unmatched.push(target.clone());
                            proof {
                                assert(unmatched@[u0.len() as int]@ == target@);
                                assert(str_in(unmatched@, target@));
                            }
                        },
                        Some(ti) => {
                            if ids_equal(master, target) {
                                // A stop area grouped under itself is left alone.
                            } else {
                                let target_coord = c.stop_areas.get_by_idx(ti).coord;
                                proof {
                                    // The unique positions carry the looked-up coordinates.
                                    assert(sa_coord(sas, master@) == master_coord) by {
                                        let w = choose|w: int|
                                            0 <= w < sas.len() && (#[trigger] sas[w]).sid()
                                                == master@;
                                        if w != mi {
                                            assert(sas[w].sid() != sas[mi as int].sid());
                                        }
                                    }
                                    assert(sa_coord(sas, target@) == target_coord) by {
                                        let w = choose|w: int|
                                            0 <= w < sas.len() && (#[trigger] sas[w]).sid()
                                                == target@;
                                        if w != ti {
                                            assert(sas[w].sid() != sas[ti as int].sid());
                                        }
                                    }
                                }
                                if !within_distance(master_coord, target_coord, max_distance) {
                                    skipped.push(
                                        MergePair { master: master.clone(), merged: target.clone() },
                                    );
                                    proof {
                                        assert(skipped@[s0.len() as int].master@ == master@);
                                        assert(skipped@[s0.len() as int].merged@ == target@);
                                        assert(pair_in(skipped@, master@, target@));
                                    }
                                } else {
                                    let already = map_lookup(&applied, target);
                                    match already {
                                        Some(_) => {
                                            proof {
                                                lemma_duplicate_target_same_master(
                                                    rules@, sas, applied@, j as int, t as int,
                                                );
                                            }
                                        },
                                        None => {
                                            applied.push(
                                                MergePair {
                                                    master: master.clone(),
                                                    merged: target.clone(),
                                                },
                                            );
                                            proof {
                                                assert(applied@[a0.len() as int].master@
                                                    == master@);
                                                assert(applied@[a0.len() as int].merged@
                                                    == target@);
                                                lemma_push_keeps_applied_ok(
                                                    rules@, sas, a0, applied@, j as int, t as int,
                                                );
                                                assert(in_merged(applied@, target@));
                                                assert(map_id(applied@, target@) == master@) by {
                                                    let w2 = choose|w2: int|
                                                        0 <= w2 < applied@.len() && (
                                                        #[trigger] applied@[w2]).merged@
                                                            == target@;
                                                    if w2 != a0.len() {
                                                        assert(a0[w2].merged@ == target@);
                                                        assert(in_merged(a0, target@));
                                                        assert(false);
                                                    }
                                                }
                                            }
                                        },
                                    }
                                }
                            }
                        },
                    }
                    proof {
                        lemma_classified_extend(
                            rules@, sas, max_distance, a0, s0, u0,
                            applied@, skipped@, unmatched@, j as int, t as int,
                        );
                        lemma_classified_step(
                            rules@, sas, max_distance, applied@, skipped@, unmatched@,
                            j as int, t as int,
                        );
                    }
                    t = t + 1;
                }
                proof {
                    lemma_classified_rule(
                        rules@, sas, max_distance, applied@, skipped@, unmatched@,
                        j as int, m as int,
                    );
                }
            },
        }
        j = j + 1;
    }
    // Apply the mapping everywhere, drop the merged stop areas, and close
    // the model again.
    let ghost av = applied@;
    let mut c = c;
    let ghost old_c = c;
    // Stop points: remap the stop-area reference.
    let mut sps = c.stop_points.take();
    let ghost all_sps = sps@;
    let mut new_sps: Vec<StopPoint> = Vec::new();
    while sps.len() > 0
        invariant
            applied_ok(av),
            av == applied@,
            all_sps == all_sps.subrange(0, all_sps.len() - sps@.len()) + sps@,
            sps@.len() <= all_sps.len(),
            new_sps@.len() == all_sps.len() - sps@.len(),
            forall|k: int|
                0 <= k < new_sps@.len() ==> {
                    let sp = #[trigger] new_sps@[k];
                    &&& sp.sid() == all_sps[k].sid()
                    &&& sp.name == all_sps[k].name
                    &&& sp.coord == all_sps[k].coord
                    &&& sp.stop_area_id@ == map_id(av, all_sps[k].stop_area_id@)
                },
        decreases sps@.len(),
    {
        let ghost before = all_sps.len() - sps@.len();
        let sp = sps.remove(0);
        proof {
            assert(all_sps[before] == sp);
        }
        let new_sa = match map_lookup(&applied, &sp.stop_area_id) {
            Some(m) => m.clone(),
            None => sp.stop_area_id,
        };
        new_sps.push(StopPoint { id: sp.id, name: sp.name, stop_area_id: new_sa, coord: sp.coord });
    }
    proof {
        assert(all_sps.subrange(0, all_sps.len() as int) =~= all_sps);
        assert forall|i: int, k: int|
            0 <= i < k < new_sps@.len() implies new_sps@[i].sid() != new_sps@[k].sid() by {
            assert(all_sps[i].sid() != all_sps[k].sid());
        }
    }
    c.stop_points = CollectionWithId::from_vec_unique(new_sps);
    // Stop areas: drop the merged ones.
    let ghost psa = |sa: StopArea| !in_merged(av, sa.sid());
    let mut sas_v = c.stop_areas.take();
    let ghost all_sas = sas_v@;
    let mut new_sas: Vec<StopArea> = Vec::new();
    while sas_v.len() > 0
        invariant
            applied_ok(av),
            av == applied@,
            all_sas == all_sas.subrange(0, all_sas.len() - sas_v@.len()) + sas_v@,
            sas_v@.len() <= all_sas.len(),
            all_sas.subrange(0, all_sas.len() - sas_v@.len()).filter(psa) == new_sas@,
            psa == (|sa: StopArea| !in_merged(av, sa.sid())),
        decreases sas_v@.len(),
    {
        let ghost done = all_sas.subrange(0, all_sas.len() - sas_v@.len());
        let sa = sas_v.remove(0);
        proof {
            let done2 = all_sas.subrange(0, all_sas.len() - sas_v@.len());
            assert(done2 =~= done.push(sa));
            assert(done2.drop_last() =~= done);
            reveal(Seq::filter);
        }
        let keep = map_lookup(&applied, &sa.id).is_none();
        proof {
            assert(keep == psa(sa));
        }
        if keep {
            new_sas.push(sa);
        }
    }
    proof {
        assert(all_sas.subrange(0, all_sas.len() as int) =~= all_sas);
        crate::transform::lemma_filter_keeps_unique(all_sas, psa);
    }
    c.stop_areas = CollectionWithId::from_vec_unique(new_sas);
    // Origin-destination restrictions: remap both ends.
    let mut trs = c.ticket_use_restrictions.take();
    let ghost all_trs = trs@;
    let mut new_trs: Vec<TicketUseRestriction> = Vec::new();
    while trs.len() > 0
        invariant
            applied_ok(av),
            av == applied@,
            all_trs == all_trs.subrange(0, all_trs.len() - trs@.len()) + trs@,
            trs@.len() <= all_trs.len(),
            new_trs@.len() == all_trs.len() - trs@.len(),
            forall|k: int|
                0 <= k < new_trs@.len() ==> {
                    let tr = #[trigger] new_trs@[k];
                    &&& tr.ticket_use_id == all_trs[k].ticket_use_id
                    &&& tr.restriction_type == all_trs[k].restriction_type
                    &&& tr.use_origin@ == map_id(av, all_trs[k].use_origin@)
                    &&& tr.use_destination@ == map_id(av, all_trs[k].use_destination@)
                },
        decreases trs@.len(),
    {
        let ghost before = all_trs.len() - trs@.len();
        let tr = trs.remove(0);
        proof {
            assert(all_trs[before] == tr);
        }
        let new_origin = match map_lookup(&applied, &tr.use_origin) {
            Some(m) => m.clone(),
            None => tr.use_origin,
        };
        let new_destination = match map_lookup(&applied, &tr.use_destination) {
            Some(m) => m.clone(),
            None => tr.use_destination,
        };
        new_trs.push(
            TicketUseRestriction {
                ticket_use_id: tr.ticket_use_id,
                restriction_type: tr.restriction_type,
                use_origin: new_origin,
                use_destination: new_destination,
            },
        );
    }
    proof {
        assert(all_trs.subrange(0, all_trs.len() as int) =~= all_trs);
    }
    c.ticket_use_restrictions = crate::collection::Collection::new(new_trs);
    let ghost mid_c = c;
    proof {
        assert(merged_from(old_c, mid_c, av));
    }
    match c.sanitize() {
        Ok(()) => (),
        Err(_) => (),
    }
    let report = MergeReport { applied, skipped_too_far: skipped, unmatched };
    Ok((c, report))
}

/// A target already merged away went to this very rule's master: with a
/// conflict-free rule set it cannot have come from another rule.
proof fn lemma_duplicate_target_same_master(
    rules: Seq<MergeRule>,
    sas: Seq<StopArea>,
    applied: Seq<MergePair>,
    j: int,
    t: int,
)
    requires
        rules_ok(rules),
        applied_ok(applied),
        applied_sound(rules, sas, applied),
        0 <= j < rules.len(),
        0 <= t < rules[j].to_merge_ids@.len(),
        in_merged(applied, rules[j].to_merge_ids@[t]@),
    ensures
        map_id(applied, rules[j].to_merge_ids@[t]@) == rules[j].master_id@,
{
    let target = rules[j].to_merge_ids@[t]@;
    let w = choose|w: int| 0 <= w < applied.len() && (#[trigger] applied[w]).merged@ == target;
    let j2 = choose|j2: int|
        0 <= j2 < rules.len() && (#[trigger] rules[j2]).master_id@ == applied[w].master@
            && rule_lists(rules[j2], applied[w].merged@);
    if j2 != j {
        let tt = choose|tt: int|
            0 <= tt < rules[j2].to_merge_ids@.len() && (#[trigger] rules[j2].to_merge_ids@[tt])@
                == target;
        assert(rules_conflict_at(rules, j2, j, t));
        assert(false);
    }
    let w2 = choose|w2: int| 0 <= w2 < applied.len() && (#[trigger] applied[w2]).merged@ == target;
    if w2 != w {
        assert(applied[w2].merged@ != applied[w].merged@);
    }
}

/// Pushing a fresh, conflict-checked pair keeps the applied list sound:
/// each stop area is merged away once, and no master is merged away.
proof fn lemma_push_keeps_applied_ok(
    rules: Seq<MergeRule>,
    sas: Seq<StopArea>,
    a0: Seq<MergePair>,
    av: Seq<MergePair>,
    j: int,
    t: int,
)
    requires
        rules_ok(rules),
        applied_ok(a0),
        applied_sound(rules, sas, a0),
        0 <= j < rules.len(),
        0 <= t < rules[j].to_merge_ids@.len(),
        av.len() == a0.len() + 1,
        forall|k: int| 0 <= k < a0.len() ==> av[k] == a0[k],
        av[a0.len() as int].master@ == rules[j].master_id@,
        av[a0.len() as int].merged@ == rules[j].to_merge_ids@[t]@,
        rules[j].master_id@ != rules[j].to_merge_ids@[t]@,
        !in_merged(a0, rules[j].to_merge_ids@[t]@),
        crate::transform::has_record_with_id(sas, rules[j].master_id@),
        crate::transform::has_record_with_id(sas, rules[j].to_merge_ids@[t]@),
    ensures
        applied_ok(av),
        applied_sound(rules, sas, av),
{
    let master = rules[j].master_id@;
    let target = rules[j].to_merge_ids@[t]@;
    let n0 = a0.len() as int;
    assert forall|k1: int, k2: int|
        0 <= k1 < k2 < av.len() implies (#[trigger] av[k1]).merged@ != (
    #[trigger] av[k2]).merged@ by {
        if k2 == n0 {
            if av[k1].merged@ == target {
                assert(a0[k1].merged@ == target);
                assert(in_merged(a0, target));
            }
        }
    }
    assert forall|k: int| 0 <= k < av.len() implies !in_merged(av, (#[trigger] av[k]).master@) by {
        if in_merged(av, av[k].master@) {
            let w = choose|w: int| 0 <= w < av.len() && (#[trigger] av[w]).merged@ == av[k].master@;
            if k < n0 && w < n0 {
                assert(a0[w].merged@ == a0[k].master@);
                assert(in_merged(a0, a0[k].master@));
                assert(false);
            } else if k < n0 && w == n0 {
                // target == a0[k].master: rule j merges away another rule's
                // master, or its own, which validation and the self check
                // rule out.
                let j2 = choose|j2: int|
                    0 <= j2 < rules.len() && (#[trigger] rules[j2]).master_id@ == a0[k].master@
                        && rule_lists(rules[j2], a0[k].merged@);
                if j2 == j {
                    assert(a0[k].master@ == master);
                    assert(master == target);
                    assert(false);
                } else {
                    let tt = choose|tt: int|
                        0 <= tt < rules[j2].to_merge_ids@.len() && (
                        #[trigger] rules[j2].to_merge_ids@[tt])@ == a0[k].merged@;
                    assert(rules_conflict_at(rules, j2, j, t));
                    assert(false);
                }
            } else if k == n0 && w < n0 {
                // The new master is merged away by an earlier pair: that
                // pair's rule lists this rule's master, a conflict.
                assert(a0[w].merged@ == master);
                let j2 = choose|j2: int|
                    0 <= j2 < rules.len() && (#[trigger] rules[j2]).master_id@ == a0[w].master@
                        && rule_lists(rules[j2], a0[w].merged@);
                if j2 == j {
                    assert(a0[w].master@ == master);
                    assert(in_merged(a0, a0[w].master@));
                    assert(false);
                } else {
                    let tt = choose|tt: int|
                        0 <= tt < rules[j2].to_merge_ids@.len() && (
                        #[trigger] rules[j2].to_merge_ids@[tt])@ == master;
                    assert(rules_conflict_at(rules, j2, j, t) || rules_conflict_at(
                        rules,
                        j,
                        j2,
                        tt,
                    ));
                    assert(false);
                }
            } else {
                // k == w == n0: the pair would merge its own master away.
                assert(master == target);
                assert(false);
            }
        }
    }
    assert forall|k: int|
        0 <= k < av.len() implies {
        let p = #[trigger] av[k];
        &&& crate::transform::has_record_with_id(sas, p.master@)
        &&& crate::transform::has_record_with_id(sas, p.merged@)
        &&& p.master@ != p.merged@
        &&& exists|j2: int|
            0 <= j2 < rules.len() && (#[trigger] rules[j2]).master_id@ == p.master@ && rule_lists(
                rules[j2],
                p.merged@,
            )
    } by {
        if k == n0 {
            assert(rules[j].to_merge_ids@[t]@ == target);
            assert(rule_lists(rules[j], target));
            assert(rules[j].master_id@ == av[k].master@ && rule_lists(rules[j], av[k].merged@));
        }
    }
}


} // verus!
