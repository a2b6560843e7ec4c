//! The fixed relation schema: which record kinds are connected by a
//! declared relation, and the unique simple path between any two kinds.
//!
//! The declared relations form a tree around the vehicle journey, so the
//! path between two kinds is found by walking both kinds up toward the
//! vehicle journey and joining the walks at their first common kind.

use vstd::prelude::*;

verus! {

/// The record kinds that take part in correspondence queries.
#[derive(PartialEq, Eq, Structural, Clone, Copy, Debug)]
pub enum ObjectKind {
    /// Data providers.
    Contributor,
    /// Delivered data sets.
    Dataset,
    /// Authority networks.
    Network,
    /// Commercial modes.
    CommercialMode,
    /// Commercial lines.
    Line,
    /// Routes of lines.
    Route,
    /// Vehicle journeys.
    VehicleJourney,
    /// Physical modes.
    PhysicalMode,
    /// Operating companies.
    Company,
    /// Service calendars.
    Calendar,
    /// Stop areas.
    StopArea,
    /// Stop points.
    StopPoint,
}

/// The declared relations, each a directed edge between two kinds.
#[derive(PartialEq, Eq, Structural, Clone, Copy, Debug)]
pub enum RelationKind {
    /// Contributor to its datasets.
    ContributorDataset,
    /// Dataset to its vehicle journeys.
    DatasetVehicleJourney,
    /// Network to its lines.
    NetworkLine,
    /// Commercial mode to its lines.
    CommercialModeLine,
    /// Line to its routes.
    LineRoute,
    /// Route to its vehicle journeys.
    RouteVehicleJourney,
    /// Physical mode to its vehicle journeys.
    PhysicalModeVehicleJourney,
    /// Company to its vehicle journeys.
    CompanyVehicleJourney,
    /// Calendar to its vehicle journeys.
    CalendarVehicleJourney,
    /// Stop area to its stop points.
    StopAreaStopPoint,
    /// Stop point to the vehicle journeys serving it.
    StopPointVehicleJourney,
}

/// One step of a correspondence path: a declared relation, walked either
/// from source to target or backward.
#[derive(PartialEq, Eq, Structural, Clone, Copy, Debug)]
pub struct Hop {
    /// The relation stepped over.
    pub rel: RelationKind,
    /// Whether the step goes from the relation's source to its target.
    pub forward: bool,
}

/// The source kind of a declared relation.
pub open spec fn rel_source(rk: RelationKind) -> ObjectKind {
    match rk {
        RelationKind::ContributorDataset => ObjectKind::Contributor,
        RelationKind::DatasetVehicleJourney => ObjectKind::Dataset,
        RelationKind::NetworkLine => ObjectKind::Network,
        RelationKind::CommercialModeLine => ObjectKind::CommercialMode,
        RelationKind::LineRoute => ObjectKind::Line,
        RelationKind::RouteVehicleJourney => ObjectKind::Route,
        RelationKind::PhysicalModeVehicleJourney => ObjectKind::PhysicalMode,
        RelationKind::CompanyVehicleJourney => ObjectKind::Company,
        RelationKind::CalendarVehicleJourney => ObjectKind::Calendar,
        RelationKind::StopAreaStopPoint => ObjectKind::StopArea,
        RelationKind::StopPointVehicleJourney => ObjectKind::StopPoint,
    }
}

/// The target kind of a declared relation.
pub open spec fn rel_target(rk: RelationKind) -> ObjectKind {
    match rk {
        RelationKind::ContributorDataset => ObjectKind::Dataset,
        RelationKind::DatasetVehicleJourney => ObjectKind::VehicleJourney,
        RelationKind::NetworkLine => ObjectKind::Line,
        RelationKind::CommercialModeLine => ObjectKind::Line,
        RelationKind::LineRoute => ObjectKind::Route,
        RelationKind::RouteVehicleJourney => ObjectKind::VehicleJourney,
        RelationKind::PhysicalModeVehicleJourney => ObjectKind::VehicleJourney,
        RelationKind::CompanyVehicleJourney => ObjectKind::VehicleJourney,
        RelationKind::CalendarVehicleJourney => ObjectKind::VehicleJourney,
        RelationKind::StopAreaStopPoint => ObjectKind::StopPoint,
        RelationKind::StopPointVehicleJourney => ObjectKind::VehicleJourney,
    }
}

/// The kind a hop starts from.
pub open spec fn hop_from(h: Hop) -> ObjectKind {
    if h.forward {
        rel_source(h.rel)
    } else {
        rel_target(h.rel)
    }
}

/// The kind a hop arrives at.
pub open spec fn hop_to(h: Hop) -> ObjectKind {
    if h.forward {
        rel_target(h.rel)
    } else {
        rel_source(h.rel)
    }
}

/// The same hop, walked the other way.
pub open spec fn flip(h: Hop) -> Hop {
    Hop { rel: h.rel, forward: !h.forward }
}

/// Whether the hops step from `a` to `b` without a gap.
pub open spec fn is_chain(p: Seq<Hop>, a: ObjectKind, b: ObjectKind) -> bool {
    &&& (p.len() == 0 ==> a == b)
    &&& (p.len() > 0 ==> hop_from(p[0]) == a && hop_to(p[p.len() - 1]) == b)
    &&& forall|i: int| 0 <= i < p.len() - 1 ==> hop_to(#[trigger] p[i]) == hop_from(p[i + 1])
}

/// How many hops a kind is away from the vehicle journey.
pub open spec fn depth(k: ObjectKind) -> nat {
    match k {
        ObjectKind::VehicleJourney => 0,
        ObjectKind::Route => 1,
        ObjectKind::PhysicalMode => 1,
        ObjectKind::Company => 1,
        ObjectKind::Dataset => 1,
        ObjectKind::Calendar => 1,
        ObjectKind::StopPoint => 1,
        ObjectKind::Line => 2,
        ObjectKind::Contributor => 2,
        ObjectKind::StopArea => 2,
        ObjectKind::Network => 3,
        ObjectKind::CommercialMode => 3,
    }
}

/// The hop from a kind toward the vehicle journey; meaningless for the
/// vehicle journey itself, which is the root.
pub open spec fn parent_hop(k: ObjectKind) -> Hop {
    match k {
        ObjectKind::Contributor => Hop { rel: RelationKind::ContributorDataset, forward: true },
        ObjectKind::Dataset => Hop { rel: RelationKind::DatasetVehicleJourney, forward: true },
        ObjectKind::Network => Hop { rel: RelationKind::NetworkLine, forward: true },
        ObjectKind::CommercialMode => Hop { rel: RelationKind::CommercialModeLine, forward: true },
        ObjectKind::Line => Hop { rel: RelationKind::LineRoute, forward: true },
        ObjectKind::Route => Hop { rel: RelationKind::RouteVehicleJourney, forward: true },
        ObjectKind::PhysicalMode => Hop {
            rel: RelationKind::PhysicalModeVehicleJourney,
            forward: true,
        },
        ObjectKind::Company => Hop { rel: RelationKind::CompanyVehicleJourney, forward: true },
        ObjectKind::Calendar => Hop { rel: RelationKind::CalendarVehicleJourney, forward: true },
        ObjectKind::StopArea => Hop { rel: RelationKind::StopAreaStopPoint, forward: true },
        ObjectKind::StopPoint => Hop { rel: RelationKind::StopPointVehicleJourney, forward: true },
        ObjectKind::VehicleJourney => Hop {
            rel: RelationKind::RouteVehicleJourney,
            forward: true,
        },
    }
}

/// The kind one step closer to the vehicle journey.
pub open spec fn parent_kind(k: ObjectKind) -> ObjectKind {
    hop_to(parent_hop(k))
}

/// The kinds met walking from `k` up to the vehicle journey, `k` first.
pub open spec fn up_kinds(k: ObjectKind) -> Seq<ObjectKind>
    decreases depth(k),
{
    if k == ObjectKind::VehicleJourney {
        seq![k]
    } else {
        seq![k] + up_kinds(parent_kind(k))
    }
}

/// The hops walking from `k` up to the ancestor `l`; walking stops at the
/// root even if `l` is never met.
pub open spec fn up_hops(k: ObjectKind, l: ObjectKind) -> Seq<Hop>
    decreases depth(k),
{
    if k == l || k == ObjectKind::VehicleJourney {
        Seq::empty()
    } else {
        seq![parent_hop(k)] + up_hops(parent_kind(k), l)
    }
}

/// The first kind on the way up from `a` that also lies on the way up
/// from `b`: the join point of the two walks.
pub open spec fn meet(a: ObjectKind, b: ObjectKind) -> ObjectKind
    decreases depth(a),
{
    if a == ObjectKind::VehicleJourney {
        a
    } else if up_kinds(b).contains(a) {
        a
    } else {
        meet(parent_kind(a), b)
    }
}

/// The unique simple path of declared relations from `a` to `b`: up from
/// `a` to the join point, then down to `b`.
pub open spec fn spec_path(a: ObjectKind, b: ObjectKind) -> Seq<Hop> {
    up_hops(a, meet(a, b)) + up_hops(b, meet(a, b)).reverse().map_values(|h: Hop| flip(h))
}

/// The join point lies on both walks up.
pub proof fn lemma_meet_on_both(a: ObjectKind, b: ObjectKind)
    ensures
        up_kinds(a).contains(meet(a, b)),
        up_kinds(b).contains(meet(a, b)),
    decreases depth(a),
{
    lemma_up_kinds_root(b);
    if a == ObjectKind::VehicleJourney {
        lemma_up_kinds_head(a);
    } else if up_kinds(b).contains(a) {
        lemma_up_kinds_head(a);
    } else {
        lemma_meet_on_both(parent_kind(a), b);
        lemma_up_kinds_tail(a, meet(parent_kind(a), b));
    }
}

/// Every walk up starts at its own kind.
pub proof fn lemma_up_kinds_head(k: ObjectKind)
    ensures
        up_kinds(k).contains(k),
{
    assert(up_kinds(k)[0] == k);
}

/// Every walk up ends at the vehicle journey.
pub proof fn lemma_up_kinds_root(k: ObjectKind)
    ensures
        up_kinds(k).contains(ObjectKind::VehicleJourney),
    decreases depth(k),
{
    if k == ObjectKind::VehicleJourney {
        assert(up_kinds(k)[0] == k);
    } else {
        lemma_up_kinds_root(parent_kind(k));
        let tail = up_kinds(parent_kind(k));
        let i = choose|i: int| 0 <= i < tail.len() && tail[i] == ObjectKind::VehicleJourney;
        assert(up_kinds(k)[i + 1] == ObjectKind::VehicleJourney);
    }
}

/// What the parent's walk holds, the kind's walk holds too.
pub proof fn lemma_up_kinds_tail(k: ObjectKind, x: ObjectKind)
    requires
        k != ObjectKind::VehicleJourney,
        up_kinds(parent_kind(k)).contains(x),
    ensures
        up_kinds(k).contains(x),
{
    let tail = up_kinds(parent_kind(k));
    let i = choose|i: int| 0 <= i < tail.len() && tail[i] == x;
    assert(up_kinds(k)[i + 1] == x);
}

/// The walk up to an ancestor on the way is a chain from the kind to it.
#[verifier::rlimit(100)]
#[verifier::spinoff_prover]
pub proof fn lemma_up_hops_chain(k: ObjectKind, l: ObjectKind)
    requires
        up_kinds(k).contains(l),
    ensures
        is_chain(up_hops(k, l), k, l),
    decreases depth(k),
{
    if k == l || k == ObjectKind::VehicleJourney {
        if k != l {
            // The only kind on the root's walk is the root itself.
            assert(up_kinds(k).len() == 1);
            assert(up_kinds(k)[0] == k);
            let i = choose|i: int| 0 <= i < up_kinds(k).len() && up_kinds(k)[i] == l;
            assert(false);
        }
    } else {
        assert(up_kinds(parent_kind(k)).contains(l)) by {
            let i = choose|i: int| 0 <= i < up_kinds(k).len() && up_kinds(k)[i] == l;
            assert(i > 0);
            assert(up_kinds(parent_kind(k))[i - 1] == l);
        }
        lemma_up_hops_chain(parent_kind(k), l);
        let tail = up_hops(parent_kind(k), l);
        let whole = up_hops(k, l);
        assert(whole == seq![parent_hop(k)] + tail);
        assert(whole[0] == parent_hop(k));
        assert(hop_from(whole[0]) == k);
        assert forall|i: int| 0 <= i < whole.len() - 1 implies hop_to(#[trigger] whole[i])
            == hop_from(whole[i + 1]) by {
            if i == 0 {
                if tail.len() > 0 {
                    assert(whole[1] == tail[0]);
                }
            } else {
                assert(whole[i] == tail[i - 1]);
                assert(whole[i + 1] == tail[i]);
            }
        }
        if tail.len() > 0 {
            assert(whole[whole.len() - 1] == tail[tail.len() - 1]);
        } else {
            assert(parent_kind(k) == l);
        }
    }
}

/// Reversing a chain and flipping each hop walks it backward.
#[verifier::rlimit(100)]
#[verifier::spinoff_prover]
pub proof fn lemma_chain_reverse(p: Seq<Hop>, a: ObjectKind, b: ObjectKind)
    requires
        is_chain(p, a, b),
    ensures
        is_chain(p.reverse().map_values(|h: Hop| flip(h)), b, a),
{
    let q = p.reverse().map_values(|h: Hop| flip(h));
    assert(q.len() == p.len());
    assert forall|i: int| 0 <= i < q.len() implies q[i] == flip(p[p.len() - 1 - i]) by {}
    if p.len() > 0 {
        assert(hop_from(q[0]) == hop_to(p[p.len() - 1]));
        assert(hop_to(q[q.len() - 1]) == hop_from(p[0]));
        assert forall|i: int| 0 <= i < q.len() - 1 implies hop_to(#[trigger] q[i]) == hop_from(
            q[i + 1],
        ) by {
            let j = p.len() - 1 - i;
            assert(hop_to(p[j - 1]) == hop_from(p[j]));
        }
    }
}

/// Two chains that meet in the middle join into one.
#[verifier::rlimit(100)]
#[verifier::spinoff_prover]
pub proof fn lemma_chain_concat(p1: Seq<Hop>, p2: Seq<Hop>, a: ObjectKind, m: ObjectKind, b: ObjectKind)
    requires
        is_chain(p1, a, m),
        is_chain(p2, m, b),
    ensures
        is_chain(p1 + p2, a, b),
{
    let w = p1 + p2;
    assert forall|i: int| 0 <= i < w.len() - 1 implies hop_to(#[trigger] w[i]) == hop_from(
        w[i + 1],
    ) by {
        if i < p1.len() - 1 {
            assert(w[i] == p1[i] && w[i + 1] == p1[i + 1]);
        } else if i == p1.len() - 1 {
            assert(w[i] == p1[i]);
            assert(w[i + 1] == p2[0]);
            assert(hop_to(p1[p1.len() - 1]) == m);
        } else {
            assert(w[i] == p2[i - p1.len()] && w[i + 1] == p2[i + 1 - p1.len()]);
        }
    }
    if w.len() > 0 {
        if p1.len() > 0 {
            assert(w[0] == p1[0]);
        } else {
            assert(w[0] == p2[0]);
        }
        if p2.len() > 0 {
            assert(w[w.len() - 1] == p2[p2.len() - 1]);
        } else {
            assert(w[w.len() - 1] == p1[p1.len() - 1]);
        }
    }
}

/// The resolved path steps from `a` to `b` without a gap.
#[verifier::rlimit(100)]
#[verifier::spinoff_prover]
pub proof fn lemma_spec_path_chain(a: ObjectKind, b: ObjectKind)
    ensures
        is_chain(spec_path(a, b), a, b),
{
    let l = meet(a, b);
    lemma_meet_on_both(a, b);
    lemma_up_hops_chain(a, l);
    lemma_up_hops_chain(b, l);
    lemma_chain_reverse(up_hops(b, l), b, l);
    lemma_chain_concat(
        up_hops(a, l),
        up_hops(b, l).reverse().map_values(|h: Hop| flip(h)),
        a,
        l,
        b,
    );
}

impl ObjectKind {
    /// The hop from this kind toward the vehicle journey.
    pub fn parent_hop_x(self) -> (h: Hop)
        ensures
            h == parent_hop(self),
    {
        match self {
            ObjectKind::Contributor => Hop { rel: RelationKind::ContributorDataset, forward: true },
            ObjectKind::Dataset => Hop {
                rel: RelationKind::DatasetVehicleJourney,
                forward: true,
            },
            ObjectKind::Network => Hop { rel: RelationKind::NetworkLine, forward: true },
            ObjectKind::CommercialMode => Hop {
                rel: RelationKind::CommercialModeLine,
                forward: true,
            },
            ObjectKind::Line => Hop { rel: RelationKind::LineRoute, forward: true },
            ObjectKind::Route => Hop { rel: RelationKind::RouteVehicleJourney, forward: true },
            ObjectKind::PhysicalMode => Hop {
                rel: RelationKind::PhysicalModeVehicleJourney,
                forward: true,
            },
            ObjectKind::Company => Hop { rel: RelationKind::CompanyVehicleJourney, forward: true },
            ObjectKind::Calendar => Hop {
                rel: RelationKind::CalendarVehicleJourney,
                forward: true,
            },
            ObjectKind::StopArea => Hop { rel: RelationKind::StopAreaStopPoint, forward: true },
            ObjectKind::StopPoint => Hop {
                rel: RelationKind::StopPointVehicleJourney,
                forward: true,
            },
            ObjectKind::VehicleJourney => Hop {
                rel: RelationKind::RouteVehicleJourney,
                forward: true,
            },
        }
    }

    /// The kind one step closer to the vehicle journey.
    pub fn parent_kind_x(self) -> (k: ObjectKind)
        ensures
            k == parent_kind(self),
    {
        let h = self.parent_hop_x();
        if h.forward {
            rel_target_x(h.rel)
        } else {
            rel_source_x(h.rel)
        }
    }

    /// Whether this kind lies on the walk up from `k`.
    pub fn on_up_walk(self, k: ObjectKind) -> (r: bool)
        ensures
            r == up_kinds(k).contains(self),
        decreases depth(k),
    {
        if k == self {
            proof {
                lemma_up_kinds_head(k);
            }
            true
        } else if k == ObjectKind::VehicleJourney {
            proof {
                if up_kinds(k).contains(self) {
                    let i = choose|i: int| 0 <= i < up_kinds(k).len() && up_kinds(k)[i] == self;
                }
            }
            false
        } else {
            let r = self.on_up_walk(k.parent_kind_x());
            proof {
                let tail = up_kinds(parent_kind(k));
                if tail.contains(self) {
                    lemma_up_kinds_tail(k, self);
                }
                if up_kinds(k).contains(self) {
                    let i = choose|i: int| 0 <= i < up_kinds(k).len() && up_kinds(k)[i] == self;
                    assert(i > 0);
                    assert(tail[i - 1] == self);
                }
            }
            r
        }
    }

    /// The join point of the walks up from this kind and from `b`.
    pub fn meet_x(self, b: ObjectKind) -> (r: ObjectKind)
        ensures
            r == meet(self, b),
        decreases depth(self),
    {
        if self == ObjectKind::VehicleJourney {
            self
        } else if self.on_up_walk(b) {
            self
        } else {
            self.parent_kind_x().meet_x(b)
        }
    }
}

/// The source kind of a relation.
pub fn rel_source_x(rk: RelationKind) -> (k: ObjectKind)
    ensures
        k == rel_source(rk),
{
    match rk {
        RelationKind::ContributorDataset => ObjectKind::Contributor,
        RelationKind::DatasetVehicleJourney => ObjectKind::Dataset,
        RelationKind::NetworkLine => ObjectKind::Network,
        RelationKind::CommercialModeLine => ObjectKind::CommercialMode,
        RelationKind::LineRoute => ObjectKind::Line,
        RelationKind::RouteVehicleJourney => ObjectKind::Route,
        RelationKind::PhysicalModeVehicleJourney => ObjectKind::PhysicalMode,
        RelationKind::CompanyVehicleJourney => ObjectKind::Company,
        RelationKind::CalendarVehicleJourney => ObjectKind::Calendar,
        RelationKind::StopAreaStopPoint => ObjectKind::StopArea,
        RelationKind::StopPointVehicleJourney => ObjectKind::StopPoint,
    }
}

/// The target kind of a relation.
pub fn rel_target_x(rk: RelationKind) -> (k: ObjectKind)
    ensures
        k == rel_target(rk),
{
    match rk {
        RelationKind::ContributorDataset => ObjectKind::Dataset,
        RelationKind::DatasetVehicleJourney => ObjectKind::VehicleJourney,
        RelationKind::NetworkLine => ObjectKind::Line,
        RelationKind::CommercialModeLine => ObjectKind::Line,
        RelationKind::LineRoute => ObjectKind::Route,
        RelationKind::RouteVehicleJourney => ObjectKind::VehicleJourney,
        RelationKind::PhysicalModeVehicleJourney => ObjectKind::VehicleJourney,
        RelationKind::CompanyVehicleJourney => ObjectKind::VehicleJourney,
        RelationKind::CalendarVehicleJourney => ObjectKind::VehicleJourney,
        RelationKind::StopAreaStopPoint => ObjectKind::StopPoint,
        RelationKind::StopPointVehicleJourney => ObjectKind::VehicleJourney,
    }
}

/// The hops from `k` up to the ancestor `l`.
fn up_hops_x(k: ObjectKind, l: ObjectKind) -> (r: Vec<Hop>)
    ensures
        r@ == up_hops(k, l),
    decreases depth(k),
{
    if k == l || k == ObjectKind::VehicleJourney {
        proof {
            assert(up_hops(k, l) =~= Seq::<Hop>::empty());
        }
        Vec::new()
    } else {
        let mut out: Vec<Hop> = Vec::new();
        out.push(k.parent_hop_x());
        let mut rest = up_hops_x(k.parent_kind_x(), l);
        out.append(&mut rest);
        proof {
            assert(out@ =~= seq![parent_hop(k)] + up_hops(parent_kind(k), l));
        }
        out
    }
}

/// Resolves the unique simple path of declared relations from `a` to `b`.
pub fn resolve_path(a: ObjectKind, b: ObjectKind) -> (r: Vec<Hop>)
    ensures
        r@ == spec_path(a, b),
        is_chain(r@, a, b),
{
    let l = a.meet_x(b);
    let mut up = up_hops_x(a, l);
    let down_up = up_hops_x(b, l);
    let n = down_up.len();
    let mut k: usize = n;
    while k > 0
        invariant
            n == down_up@.len(),
            k <= n,
            up@ == up_hops(a, l) + down_up@.subrange(k as int, n as int).reverse().map_values(
                |h: Hop| flip(h),
            ),
        decreases k,
    {
        k = k - 1;
        let h = down_up[k];
        up.push(Hop { rel: h.rel, forward: !h.forward });
        proof {
            let before = down_up@.subrange(k as int + 1, n as int).reverse().map_values(
                |h: Hop| flip(h),
            );
            let after = down_up@.subrange(k as int, n as int).reverse().map_values(
                |h: Hop| flip(h),
            );
            assert(after =~= before.push(flip(down_up@[k as int]))) by {
                let sub = down_up@.subrange(k as int, n as int);
                assert(after.len() == before.len() + 1);
                assert forall|i: int| 0 <= i < after.len() implies after[i] == before.push(
                    flip(down_up@[k as int]),
                )[i] by {
                    assert(after[i] == flip(sub.reverse()[i]));
                    assert(sub.reverse()[i] == sub[sub.len() - 1 - i]);
                    if i < before.len() {
                        let sub1 = down_up@.subrange(k as int + 1, n as int);
                        assert(before[i] == flip(sub1[sub1.len() - 1 - i]));
                        assert(sub1[sub1.len() - 1 - i] == down_up@[n - 1 - i]);
                        assert(sub[sub.len() - 1 - i] == down_up@[n - 1 - i]);
                    } else {
                        assert(sub[0] == down_up@[k as int]);
                    }
                }
            }
            assert(up@ =~= up_hops(a, l) + after);
        }
    }
    proof {
        assert(down_up@.subrange(0, n as int) =~= down_up@);
        assert(up@ == spec_path(a, b));
        lemma_spec_path_chain(a, b);
    }
    up
}

/// The schema path from stop areas to vehicle journeys passes through
/// stop points: it is the two shorter paths laid end to end, so
/// correspondence queries compose along it.
pub proof fn lemma_path_splits_at_stop_point()
    ensures
        spec_path(ObjectKind::StopArea, ObjectKind::VehicleJourney) == spec_path(
            ObjectKind::StopArea,
            ObjectKind::StopPoint,
        ) + spec_path(ObjectKind::StopPoint, ObjectKind::VehicleJourney),
{
    let sa = ObjectKind::StopArea;
    let sp = ObjectKind::StopPoint;
    let vj = ObjectKind::VehicleJourney;
    assert(up_kinds(vj) =~= seq![vj]);
    assert(up_kinds(sp) =~= seq![sp] + up_kinds(vj));
    assert(!up_kinds(vj).contains(sa)) by {
        if up_kinds(vj).contains(sa) {
            let i = choose|i: int| 0 <= i < up_kinds(vj).len() && up_kinds(vj)[i] == sa;
        }
    }
    assert(!up_kinds(vj).contains(sp)) by {
        if up_kinds(vj).contains(sp) {
            let i = choose|i: int| 0 <= i < up_kinds(vj).len() && up_kinds(vj)[i] == sp;
        }
    }
    assert(parent_kind(sa) == sp);
    assert(parent_kind(sp) == vj);
    assert(meet(vj, vj) == vj);
    assert(meet(sp, vj) == vj);
    assert(meet(sa, vj) == vj);
    assert(!up_kinds(sp).contains(sa)) by {
        if up_kinds(sp).contains(sa) {
            let i = choose|i: int| 0 <= i < up_kinds(sp).len() && up_kinds(sp)[i] == sa;
            assert(up_kinds(sp)[0] == sp && up_kinds(sp)[1] == vj);
        }
    }
    assert(up_kinds(sp).contains(sp)) by {
        assert(up_kinds(sp)[0] == sp);
    }
    assert(meet(sp, sp) == sp);
    assert(meet(sa, sp) == sp);
    assert(up_hops(vj, vj) =~= Seq::<Hop>::empty());
    assert(up_hops(sp, vj) =~= seq![parent_hop(sp)]) by {
        assert(up_hops(sp, vj) == seq![parent_hop(sp)] + up_hops(vj, vj));
    }
    assert(up_hops(sa, vj) =~= seq![parent_hop(sa), parent_hop(sp)]) by {
        assert(up_hops(sa, vj) == seq![parent_hop(sa)] + up_hops(sp, vj));
    }
    assert(up_hops(sp, sp) =~= Seq::<Hop>::empty());
    assert(up_hops(sa, sp) =~= seq![parent_hop(sa)]) by {
        assert(up_hops(sa, sp) == seq![parent_hop(sa)] + up_hops(sp, sp));
    }
    assert(Seq::<Hop>::empty().reverse() =~= Seq::<Hop>::empty());
    assert(Seq::<Hop>::empty().map_values(|h: Hop| flip(h)) =~= Seq::<Hop>::empty());
    assert(spec_path(sa, vj) =~= seq![parent_hop(sa), parent_hop(sp)]);
    assert(spec_path(sa, sp) =~= seq![parent_hop(sa)]);
    assert(spec_path(sp, vj) =~= seq![parent_hop(sp)]);
    assert(spec_path(sa, vj) =~= spec_path(sa, sp) + spec_path(sp, vj));
}

} // verus!
