//! The aggregated model: every per-kind store behind one facade, the
//! relation graph derived from the records' foreign keys, and the
//! correspondence queries over it.

use vstd::prelude::*;

use crate::collection::{Collection, CollectionWithId, WithId};
use crate::error::Error;
use crate::idxset::{below, strictly_sorted, lemma_sorted_set_unique};
use crate::objects::{
    Calendar, CommercialMode, Comment, Company, Contributor, Dataset, Equipment, Frequency,
    Geometry, Line, Network, PhysicalMode, Route, StopArea, StopPoint, StopTime, Ticket,
    TicketPrice, TicketUse, TicketUsePerimeter, TicketUseRestriction, Transfer, VehicleJourney,
};
use crate::relations::{image, Relation};
use crate::schema::{
    hop_from, hop_to, is_chain, rel_source, rel_target, resolve_path, spec_path, Hop, ObjectKind,
    RelationKind,
};

verus! {

broadcast use vstd::set::group_set_axioms;

/// Every per-kind store of one model, under construction or already
/// validated.
pub struct Collections {
    /// Data providers.
    pub contributors: CollectionWithId<Contributor>,
    /// Delivered data sets.
    pub datasets: CollectionWithId<Dataset>,
    /// Authority networks.
    pub networks: CollectionWithId<Network>,
    /// Commercial modes.
    pub commercial_modes: CollectionWithId<CommercialMode>,
    /// Physical modes.
    pub physical_modes: CollectionWithId<PhysicalMode>,
    /// Operating companies.
    pub companies: CollectionWithId<Company>,
    /// Commercial lines.
    pub lines: CollectionWithId<Line>,
    /// Routes of lines.
    pub routes: CollectionWithId<Route>,
    /// Vehicle journeys, each owning its stop times.
    pub vehicle_journeys: CollectionWithId<VehicleJourney>,
    /// Stop areas.
    pub stop_areas: CollectionWithId<StopArea>,
    /// Stop points.
    pub stop_points: CollectionWithId<StopPoint>,
    /// Service calendars.
    pub calendars: CollectionWithId<Calendar>,
    /// Free-text notes.
    pub comments: CollectionWithId<Comment>,
    /// Accessibility equipment.
    pub equipments: CollectionWithId<Equipment>,
    /// Drawn shapes.
    pub geometries: CollectionWithId<Geometry>,
    /// Fare products.
    pub tickets: CollectionWithId<Ticket>,
    /// Fare product uses.
    pub ticket_uses: CollectionWithId<TicketUse>,
    /// Walkable connections.
    pub transfers: Collection<Transfer>,
    /// Repeating service patterns.
    pub frequencies: Collection<Frequency>,
    /// Fare prices.
    pub ticket_prices: Collection<TicketPrice>,
    /// Fare perimeters.
    pub ticket_use_perimeters: Collection<TicketUsePerimeter>,
    /// Fare origin-destination restrictions.
    pub ticket_use_restrictions: Collection<TicketUseRestriction>,
}

impl Collections {
    /// Every identifier-bearing store has unique identifiers.
    pub open spec fn wf(&self) -> bool {
        &&& self.contributors.wf()
        &&& self.datasets.wf()
        &&& self.networks.wf()
        &&& self.commercial_modes.wf()
        &&& self.physical_modes.wf()
        &&& self.companies.wf()
        &&& self.lines.wf()
        &&& self.routes.wf()
        &&& self.vehicle_journeys.wf()
        &&& self.stop_areas.wf()
        &&& self.stop_points.wf()
        &&& self.calendars.wf()
        &&& self.comments.wf()
        &&& self.equipments.wf()
        &&& self.geometries.wf()
        &&& self.tickets.wf()
        &&& self.ticket_uses.wf()
    }

    /// A model with every store empty.
    pub fn empty() -> (r: Collections)
        ensures
            r.wf(),
            r.contributors.records().len() == 0,
            r.datasets.records().len() == 0,
            r.networks.records().len() == 0,
            r.commercial_modes.records().len() == 0,
            r.physical_modes.records().len() == 0,
            r.companies.records().len() == 0,
            r.lines.records().len() == 0,
            r.routes.records().len() == 0,
            r.vehicle_journeys.records().len() == 0,
            r.stop_areas.records().len() == 0,
            r.stop_points.records().len() == 0,
            r.calendars.records().len() == 0,
            r.comments.records().len() == 0,
            r.equipments.records().len() == 0,
            r.geometries.records().len() == 0,
            r.tickets.records().len() == 0,
            r.ticket_uses.records().len() == 0,
            r.transfers.records().len() == 0,
            r.frequencies.records().len() == 0,
            r.ticket_prices.records().len() == 0,
            r.ticket_use_perimeters.records().len() == 0,
            r.ticket_use_restrictions.records().len() == 0,
    {
        Collections {
            contributors: CollectionWithId::empty(),
            datasets: CollectionWithId::empty(),
            networks: CollectionWithId::empty(),
            commercial_modes: CollectionWithId::empty(),
            physical_modes: CollectionWithId::empty(),
            companies: CollectionWithId::empty(),
            lines: CollectionWithId::empty(),
            routes: CollectionWithId::empty(),
            vehicle_journeys: CollectionWithId::empty(),
            stop_areas: CollectionWithId::empty(),
            stop_points: CollectionWithId::empty(),
            calendars: CollectionWithId::empty(),
            comments: CollectionWithId::empty(),
            equipments: CollectionWithId::empty(),
            geometries: CollectionWithId::empty(),
            tickets: CollectionWithId::empty(),
            ticket_uses: CollectionWithId::empty(),
            transfers: Collection::empty(),
            frequencies: Collection::empty(),
            ticket_prices: Collection::empty(),
            ticket_use_perimeters: Collection::empty(),
            ticket_use_restrictions: Collection::empty(),
        }
    }

    /// Whether every mandatory foreign key of every record resolves to an
    /// existing identifier of the target kind.
    pub open spec fn fks_resolved(&self) -> bool {
        &&& forall|k: int|
            0 <= k < self.datasets.records().len() ==> self.contributors.contains_id(
                (#[trigger] self.datasets.records()[k]).contributor_id@,
            )
        &&& forall|k: int|
            0 <= k < self.lines.records().len() ==> self.networks.contains_id(
                (#[trigger] self.lines.records()[k]).network_id@,
            ) && self.commercial_modes.contains_id(self.lines.records()[k].commercial_mode_id@)
        &&& forall|k: int|
            0 <= k < self.routes.records().len() ==> self.lines.contains_id(
                (#[trigger] self.routes.records()[k]).line_id@,
            )
        &&& forall|k: int|
            0 <= k < self.vehicle_journeys.records().len() ==> {
                let v = #[trigger] self.vehicle_journeys.records()[k];
                &&& self.routes.contains_id(v.route_id@)
                &&& self.physical_modes.contains_id(v.physical_mode_id@)
                &&& self.companies.contains_id(v.company_id@)
                &&& self.datasets.contains_id(v.dataset_id@)
                &&& self.calendars.contains_id(v.service_id@)
                &&& forall|t: int|
                    0 <= t < v.stop_times@.len() ==> self.stop_points.contains_id(
                        (#[trigger] v.stop_times@[t]).stop_point_id@,
                    )
            }
        &&& forall|k: int|
            0 <= k < self.stop_points.records().len() ==> self.stop_areas.contains_id(
                (#[trigger] self.stop_points.records()[k]).stop_area_id@,
            )
    }
}

/// Resolves a list of foreign keys against a target store; the result
/// holds, for each key, the position of the record carrying it. Fails on
/// the first key that resolves to nothing, naming the owner record.
fn resolve_fks<T: WithId>(
    store: &CollectionWithId<T>,
    fks: &Vec<String>,
    owner_kind: &str,
    owner_ids: &Vec<String>,
    field: &str,
) -> (r: Result<Vec<usize>, Error>)
    requires
        store.wf(),
        fks@.len() == owner_ids@.len(),
    ensures
        match r {
            Ok(v) => {
                &&& v@.len() == fks@.len()
                &&& forall|k: int|
                    0 <= k < v@.len() ==> (#[trigger] v@[k]) < store.records().len()
                        && store.records()[v@[k] as int].sid() == fks@[k]@
            },
            Err(e) => {
                &&& exists|k: int|
                    0 <= k < fks@.len() && !store.contains_id((#[trigger] fks@[k])@)
                &&& (e matches Error::DanglingReference { kind, id, field: f } && kind@
                    == owner_kind@ && f@ == field@ && exists|k: int|
                    0 <= k < fks@.len() && !store.contains_id((#[trigger] fks@[k])@) && id@
                        == owner_ids@[k]@)
            },
        },
{
    let n = fks.len();
    let mut out: Vec<usize> = Vec::new();
    for k in 0..n
        invariant
            n == fks@.len() == owner_ids@.len(),
            store.wf(),
            out@.len() == k,
            forall|i: int|
                0 <= i < k ==> (#[trigger] out@[i]) < store.records().len()
                    && store.records()[out@[i] as int].sid() == fks@[i]@,
    {
        match store.get_idx(&fks[k]) {
            Some(i) => {
                out.push(i);
            },
            None => {
                return Err(
                    Error::DanglingReference {
                        kind: owner_kind.to_owned(),
                        id: owner_ids[k].clone(),
                        field: field.to_owned(),
                    },
                );
            },
        }
    }
    Ok(out)
}

/// Builds the relation between a source store and the records of a target
/// kind, from the target records' foreign keys: source `i` and target `j`
/// are related exactly when target `j` names source `i`.
fn relation_from_fks<S: WithId>(
    src: &CollectionWithId<S>,
    fks: &Vec<String>,
    owner_kind: &str,
    owner_ids: &Vec<String>,
    field: &str,
) -> (r: Result<Relation, Error>)
    requires
        src.wf(),
        fks@.len() == owner_ids@.len(),
    ensures
        match r {
            Ok(rel) => {
                &&& rel.wf()
                &&& rel.n_src() == src.records().len()
                &&& rel.n_tgt() == fks@.len()
                &&& forall|i: usize, j: usize|
                    #![trigger rel.connects(i, j)]
                    i < rel.n_src() && j < rel.n_tgt() ==> (rel.connects(i, j)
                        <==> src.records()[i as int].sid() == fks@[j as int]@)
                &&& forall|j: int| 0 <= j < fks@.len() ==> src.contains_id((#[trigger] fks@[j])@)
            },
            Err(e) => {
                &&& exists|k: int|
                    0 <= k < fks@.len() && !src.contains_id((#[trigger] fks@[k])@)
                &&& e is DanglingReference
            },
        },
{
    let src_of = match resolve_fks(src, fks, owner_kind, owner_ids, field) {
        Ok(v) => v,
        Err(e) => {
            return Err(e);
        },
    };
    let n = src_of.len();
    let mut pairs: Vec<(usize, usize)> = Vec::new();
    for k in 0..n
        invariant
            n == src_of@.len() == fks@.len(),
            src.wf(),
            forall|i: int|
                0 <= i < n ==> (#[trigger] src_of@[i]) < src.records().len()
                    && src.records()[src_of@[i] as int].sid() == fks@[i]@,
            pairs@.len() == k,
            forall|i: int| 0 <= i < k ==> (#[trigger] pairs@[i]) == (src_of@[i], i as usize),
    {
        pairs.push((src_of[k], k));
    }
    let n_src = src.len();
    let rel = Relation::from_pairs(n_src, n, &pairs);
    proof {
        assert forall|i: usize, j: usize|
            #![trigger rel.connects(i, j)]
            i < rel.n_src() && j < rel.n_tgt() implies (rel.connects(i, j)
            <==> src.records()[i as int].sid() == fks@[j as int]@) by {
            if rel.connects(i, j) {
                let k = choose|k: int| 0 <= k < pairs@.len() && pairs@[k] == (i, j);
                assert(pairs@[k] == (src_of@[k], k as usize));
                assert(k as usize == j && src_of@[j as int] == i);
            }
            if src.records()[i as int].sid() == fks@[j as int]@ {
                // Identifiers are unique, so `i` is the resolved position.
                assert(src.records()[src_of@[j as int] as int].sid() == fks@[j as int]@);
                assert(i as int == src_of@[j as int] as int);
                assert(pairs@[j as int] == (i, j));
                assert(pairs@.contains((i, j)));
            }
        }
        assert forall|j: int| 0 <= j < fks@.len() implies src.contains_id(
            (#[trigger] fks@[j])@,
        ) by {
            assert(src.records()[src_of@[j] as int].sid() == fks@[j]@);
        }
    }
    Ok(rel)
}

/// The identifiers of every record of a store, in order.
fn ids_of<T: WithId>(c: &CollectionWithId<T>) -> (r: Vec<String>)
    ensures
        r@.len() == c.records().len(),
        forall|k: int| 0 <= k < r@.len() ==> (#[trigger] r@[k])@ == c.records()[k].sid(),
{
    let n = c.len();
    let mut out: Vec<String> = Vec::new();
    for k in 0..n
        invariant
            n == c.records().len(),
            out@.len() == k,
            forall|i: int| 0 <= i < k ==> (#[trigger] out@[i])@ == c.records()[i].sid(),
    {
        out.push(c.get_by_idx(k).id().clone());
    }
    out
}

/// Whether a vehicle journey serves the stop point with this identifier.
pub open spec fn vj_serves(v: VehicleJourney, sid: Seq<char>) -> bool {
    exists|t: int| 0 <= t < v.stop_times@.len() && (#[trigger] v.stop_times@[t]).stop_point_id@ == sid
}

/// The relation between stop points and the vehicle journeys serving
/// them, derived from the journeys' stop times.
fn build_stop_point_vj(
    sps: &CollectionWithId<StopPoint>,
    vjs: &CollectionWithId<VehicleJourney>,
) -> (r: Result<Relation, Error>)
    requires
        sps.wf(),
    ensures
        match r {
            Ok(rel) => {
                &&& rel.wf()
                &&& rel.n_src() == sps.records().len()
                &&& rel.n_tgt() == vjs.records().len()
                &&& forall|i: usize, j: usize|
                    #![trigger rel.connects(i, j)]
                    i < rel.n_src() && j < rel.n_tgt() ==> (rel.connects(i, j) <==> vj_serves(
                        vjs.records()[j as int],
                        sps.records()[i as int].sid(),
                    ))
                &&& forall|j: int, t: int|
                    0 <= j < vjs.records().len() && 0 <= t
                        < (#[trigger] vjs.records()[j]).stop_times@.len() ==> sps.contains_id(
                        (#[trigger] vjs.records()[j].stop_times@[t]).stop_point_id@,
                    )
            },
            Err(e) => {
                &&& exists|j: int, t: int|
                    0 <= j < vjs.records().len() && 0 <= t
                        < (#[trigger] vjs.records()[j]).stop_times@.len() && !sps.contains_id(
                        (#[trigger] vjs.records()[j].stop_times@[t]).stop_point_id@,
                    )
                &&& e is DanglingReference
            },
        },
{
    let n_vj = vjs.len();
    let n_sp = sps.len();
    let mut pairs: Vec<(usize, usize)> = Vec::new();
    let mut j: usize = 0;
    while j < n_vj
        invariant
            n_vj == vjs.records().len(),
            n_sp == sps.records().len(),
            j <= n_vj,
            sps.wf(),
            forall|k: int|
                0 <= k < pairs@.len() ==> (#[trigger] pairs@[k]).0 < n_sp && pairs@[k].1 < n_vj,
            forall|i: usize, jj: usize|
                #![trigger pairs@.contains((i, jj))]
                i < n_sp && jj < n_vj ==> (pairs@.contains((i, jj)) <==> jj < j && vj_serves(
                    vjs.records()[jj as int],
                    sps.records()[i as int].sid(),
                )),
            forall|jj: int, t: int|
                0 <= jj < j && 0 <= t < (#[trigger] vjs.records()[jj]).stop_times@.len()
                    ==> sps.contains_id(
                    (#[trigger] vjs.records()[jj].stop_times@[t]).stop_point_id@,
                ),
        decreases n_vj - j,
    {
        let v = vjs.get_by_idx(j);
        let n_st = v.stop_times.len();
        let mut t: usize = 0;
        while t < n_st
            invariant
                n_vj == vjs.records().len(),
                n_sp == sps.records().len(),
                j < n_vj,
                t <= n_st,
                sps.wf(),
                *v == vjs.records()[j as int],
                n_st == v.stop_times@.len(),
                forall|k: int|
                    0 <= k < pairs@.len() ==> (#[trigger] pairs@[k]).0 < n_sp && pairs@[k].1 < n_vj,
                forall|i: usize, jj: usize|
                    #![trigger pairs@.contains((i, jj))]
                    i < n_sp && jj < n_vj && jj != j ==> (pairs@.contains((i, jj)) <==> jj < j
                        && vj_serves(vjs.records()[jj as int], sps.records()[i as int].sid())),
                forall|i: usize|
                    #![trigger pairs@.contains((i, j))]
                    i < n_sp ==> (pairs@.contains((i, j)) <==> exists|tt: int|
                        0 <= tt < t && (#[trigger] v.stop_times@[tt]).stop_point_id@
                            == sps.records()[i as int].sid()),
                forall|jj: int, tt: int|
                    0 <= jj < j && 0 <= tt < (#[trigger] vjs.records()[jj]).stop_times@.len()
                        ==> sps.contains_id(
                        (#[trigger] vjs.records()[jj].stop_times@[tt]).stop_point_id@,
                    ),
                forall|tt: int|
                    0 <= tt < t ==> sps.contains_id(
                        (#[trigger] v.stop_times@[tt]).stop_point_id@,
                    ),
            decreases n_st - t,
        {
            match sps.get_idx(&v.stop_times[t].stop_point_id) {
                Some(i) => {
                    let ghost prev = pairs@;
                    pairs.push((i, j));
                    proof {
                        assert forall|ii: usize, jj: usize|
                            #![trigger pairs@.contains((ii, jj))]
                            ii < n_sp && jj < n_vj implies (pairs@.contains((ii, jj)) <==> (
                        prev.contains((ii, jj)) || (ii == i && jj == j))) by {
                            crate::relations::lemma_push_contains(prev, (i, j), (ii, jj));
                        }
                    }
                },
                None => {
                    return Err(
                        Error::DanglingReference {
                            kind: "vehicle_journey".to_owned(),
                            id: v.id().clone(),
                            field: "stop_point_id".to_owned(),
                        },
                    );
                },
            }
            t = t + 1;
        }
        j = j + 1;
    }
    let rel = Relation::from_pairs(n_sp, n_vj, &pairs);
    Ok(rel)
}

/// The model: every store plus the relation graph derived from the
/// records' foreign keys at construction.
pub struct Model {
    collections: Collections,
    rel_contributor_dataset: Relation,
    rel_dataset_vj: Relation,
    rel_network_line: Relation,
    rel_commercial_mode_line: Relation,
    rel_line_route: Relation,
    rel_route_vj: Relation,
    rel_physical_mode_vj: Relation,
    rel_company_vj: Relation,
    rel_calendar_vj: Relation,
    rel_stop_area_stop_point: Relation,
    rel_stop_point_vj: Relation,
}

/// What it means for handles `i` and `j` to be related under one declared
/// relation: the target record's foreign key names the source record, or,
/// between stop points and journeys, some stop time serves the point.
pub open spec fn connects_meaning(c: Collections, rk: RelationKind, i: usize, j: usize) -> bool {
    match rk {
        RelationKind::ContributorDataset => c.datasets.records()[j as int].contributor_id@
            == c.contributors.records()[i as int].sid(),
        RelationKind::DatasetVehicleJourney => c.vehicle_journeys.records()[j as int].dataset_id@
            == c.datasets.records()[i as int].sid(),
        RelationKind::NetworkLine => c.lines.records()[j as int].network_id@
            == c.networks.records()[i as int].sid(),
        RelationKind::CommercialModeLine => c.lines.records()[j as int].commercial_mode_id@
            == c.commercial_modes.records()[i as int].sid(),
        RelationKind::LineRoute => c.routes.records()[j as int].line_id@
            == c.lines.records()[i as int].sid(),
        RelationKind::RouteVehicleJourney => c.vehicle_journeys.records()[j as int].route_id@
            == c.routes.records()[i as int].sid(),
        RelationKind::PhysicalModeVehicleJourney => c.vehicle_journeys.records()[
            j as int
        ].physical_mode_id@ == c.physical_modes.records()[i as int].sid(),
        RelationKind::CompanyVehicleJourney => c.vehicle_journeys.records()[j as int].company_id@
            == c.companies.records()[i as int].sid(),
        RelationKind::CalendarVehicleJourney => c.vehicle_journeys.records()[j as int].service_id@
            == c.calendars.records()[i as int].sid(),
        RelationKind::StopAreaStopPoint => c.stop_points.records()[j as int].stop_area_id@
            == c.stop_areas.records()[i as int].sid(),
        RelationKind::StopPointVehicleJourney => vj_serves(
            c.vehicle_journeys.records()[j as int],
            c.stop_points.records()[i as int].sid(),
        ),
    }
}

impl Model {
    /// The stores the model was built from.
    pub closed spec fn cols(&self) -> Collections {
        self.collections
    }

    /// The adjacency built for one declared relation.
    pub closed spec fn rel_of(&self, rk: RelationKind) -> Relation {
        match rk {
            RelationKind::ContributorDataset => self.rel_contributor_dataset,
            RelationKind::DatasetVehicleJourney => self.rel_dataset_vj,
            RelationKind::NetworkLine => self.rel_network_line,
            RelationKind::CommercialModeLine => self.rel_commercial_mode_line,
            RelationKind::LineRoute => self.rel_line_route,
            RelationKind::RouteVehicleJourney => self.rel_route_vj,
            RelationKind::PhysicalModeVehicleJourney => self.rel_physical_mode_vj,
            RelationKind::CompanyVehicleJourney => self.rel_company_vj,
            RelationKind::CalendarVehicleJourney => self.rel_calendar_vj,
            RelationKind::StopAreaStopPoint => self.rel_stop_area_stop_point,
            RelationKind::StopPointVehicleJourney => self.rel_stop_point_vj,
        }
    }

    /// How many records the model holds of one kind.
    pub open spec fn kind_count(&self, k: ObjectKind) -> int {
        match k {
            ObjectKind::Contributor => self.cols().contributors.records().len() as int,
            ObjectKind::Dataset => self.cols().datasets.records().len() as int,
            ObjectKind::Network => self.cols().networks.records().len() as int,
            ObjectKind::CommercialMode => self.cols().commercial_modes.records().len() as int,
            ObjectKind::Line => self.cols().lines.records().len() as int,
            ObjectKind::Route => self.cols().routes.records().len() as int,
            ObjectKind::VehicleJourney => self.cols().vehicle_journeys.records().len() as int,
            ObjectKind::PhysicalMode => self.cols().physical_modes.records().len() as int,
            ObjectKind::Company => self.cols().companies.records().len() as int,
            ObjectKind::Calendar => self.cols().calendars.records().len() as int,
            ObjectKind::StopArea => self.cols().stop_areas.records().len() as int,
            ObjectKind::StopPoint => self.cols().stop_points.records().len() as int,
        }
    }

    /// The stores are well formed, every foreign key resolves, and each
    /// relation's adjacency matches the foreign keys exactly.
    pub open spec fn wf(&self) -> bool {
        &&& self.cols().wf()
        &&& self.cols().fks_resolved()
        &&& forall|rk: RelationKind|
            {
                &&& (#[trigger] self.rel_of(rk)).wf()
                &&& self.rel_of(rk).n_src() == self.kind_count(rel_source(rk))
                &&& self.rel_of(rk).n_tgt() == self.kind_count(rel_target(rk))
            }
        &&& forall|rk: RelationKind, i: usize, j: usize|
            i < self.kind_count(rel_source(rk)) && j < self.kind_count(rel_target(rk)) ==> ((
            #[trigger] self.rel_of(rk).connects(i, j)) <==> connects_meaning(self.cols(), rk, i, j))
    }

    /// A read-only view of the stores.
    pub fn collections(&self) -> (r: &Collections)
        ensures
            *r == self.cols(),
    {
        &self.collections
    }

    /// Takes the stores back out of the model.
    pub fn into_collections(self) -> (r: Collections)
        ensures
            r == self.cols(),
    {
        self.collections
    }

    /// Builds a model over fully populated stores: derives every declared
    /// relation from the records' foreign keys, and fails exactly when
    /// some mandatory foreign key resolves to nothing.
    pub fn new(c: Collections) -> (r: Result<Model, Error>)
        requires
            c.wf(),
        ensures
            match r {
                Ok(m) => m.cols() == c && m.wf(),
                Err(e) => !c.fks_resolved() && e is DanglingReference,
            },
    {
        let ids_datasets = ids_of(&c.datasets);
        let ids_lines = ids_of(&c.lines);
        let ids_routes = ids_of(&c.routes);
        let ids_vjs = ids_of(&c.vehicle_journeys);
        let ids_sps = ids_of(&c.stop_points);
        let fks_cd = fks_dataset_contributor(&c.datasets);
        let rel_contributor_dataset = match relation_from_fks(
            &c.contributors,
            &fks_cd,
            "dataset",
            &ids_datasets,
            "contributor_id",
        ) {
            Ok(r) => r,
            Err(e) => {
                return Err(e);
            },
        };
        let fks_dvj = fks_vj_dataset(&c.vehicle_journeys);
        let rel_dataset_vj = match relation_from_fks(
            &c.datasets,
            &fks_dvj,
            "vehicle_journey",
            &ids_vjs,
            "dataset_id",
        ) {
            Ok(r) => r,
            Err(e) => {
                return Err(e);
            },
        };
        let fks_nl = fks_line_network(&c.lines);
        let rel_network_line = match relation_from_fks(
            &c.networks,
            &fks_nl,
            "line",
            &ids_lines,
            "network_id",
        ) {
            Ok(r) => r,
            Err(e) => {
                return Err(e);
            },
        };
        let fks_cml = fks_line_commercial_mode(&c.lines);
        let rel_commercial_mode_line = match relation_from_fks(
            &c.commercial_modes,
            &fks_cml,
            "line",
            &ids_lines,
            "commercial_mode_id",
        ) {
            Ok(r) => r,
            Err(e) => {
                return Err(e);
            },
        };
        let fks_lr = fks_route_line(&c.routes);
        let rel_line_route = match relation_from_fks(
            &c.lines,
            &fks_lr,
            "route",
            &ids_routes,
            "line_id",
        ) {
            Ok(r) => r,
            Err(e) => {
                return Err(e);
            },
        };
        let fks_rvj = fks_vj_route(&c.vehicle_journeys);
        let rel_route_vj = match relation_from_fks(
            &c.routes,
            &fks_rvj,
            "vehicle_journey",
            &ids_vjs,
            "route_id",
        ) {
            Ok(r) => r,
            Err(e) => {
                return Err(e);
            },
        };
        let fks_pmvj = fks_vj_physical_mode(&c.vehicle_journeys);
        let rel_physical_mode_vj = match relation_from_fks(
            &c.physical_modes,
            &fks_pmvj,
            "vehicle_journey",
            &ids_vjs,
            "physical_mode_id",
        ) {
            Ok(r) => r,
            Err(e) => {
                return Err(e);
            },
        };
        let fks_cvj = fks_vj_company(&c.vehicle_journeys);
        let rel_company_vj = match relation_from_fks(
            &c.companies,
            &fks_cvj,
            "vehicle_journey",
            &ids_vjs,
            "company_id",
        ) {
            Ok(r) => r,
            Err(e) => {
                return Err(e);
            },
        };
        let fks_calvj = fks_vj_calendar(&c.vehicle_journeys);
        let rel_calendar_vj = match relation_from_fks(
            &c.calendars,
            &fks_calvj,
            "vehicle_journey",
            &ids_vjs,
            "service_id",
        ) {
            Ok(r) => r,
            Err(e) => {
                return Err(e);
            },
        };
        let fks_spsa = fks_stop_point_stop_area(&c.stop_points);
        let rel_stop_area_stop_point = match relation_from_fks(
            &c.stop_areas,
            &fks_spsa,
            "stop_point",
            &ids_sps,
            "stop_area_id",
        ) {
            Ok(r) => r,
            Err(e) => {
                return Err(e);
            },
        };
        let rel_stop_point_vj = match build_stop_point_vj(&c.stop_points, &c.vehicle_journeys) {
            Ok(r) => r,
            Err(e) => {
                return Err(e);
            },
        };
        let m = Model {
            collections: c,
            rel_contributor_dataset,
            rel_dataset_vj,
            rel_network_line,
            rel_commercial_mode_line,
            rel_line_route,
            rel_route_vj,
            rel_physical_mode_vj,
            rel_company_vj,
            rel_calendar_vj,
            rel_stop_area_stop_point,
            rel_stop_point_vj,
        };
        proof {
            assert forall|rk: RelationKind|
                {
                    &&& (#[trigger] m.rel_of(rk)).wf()
                    &&& m.rel_of(rk).n_src() == m.kind_count(rel_source(rk))
                    &&& m.rel_of(rk).n_tgt() == m.kind_count(rel_target(rk))
                } by {
                match rk {
                    RelationKind::ContributorDataset => {},
                    RelationKind::DatasetVehicleJourney => {},
                    RelationKind::NetworkLine => {},
                    RelationKind::CommercialModeLine => {},
                    RelationKind::LineRoute => {},
                    RelationKind::RouteVehicleJourney => {},
                    RelationKind::PhysicalModeVehicleJourney => {},
                    RelationKind::CompanyVehicleJourney => {},
                    RelationKind::CalendarVehicleJourney => {},
                    RelationKind::StopAreaStopPoint => {},
                    RelationKind::StopPointVehicleJourney => {},
                }
            }
            assert forall|rk: RelationKind, i: usize, j: usize|
                i < m.kind_count(rel_source(rk)) && j < m.kind_count(rel_target(rk)) implies ((
            #[trigger] m.rel_of(rk).connects(i, j)) <==> connects_meaning(m.cols(), rk, i, j)) by {
                match rk {
                    RelationKind::ContributorDataset => {},
                    RelationKind::DatasetVehicleJourney => {},
                    RelationKind::NetworkLine => {},
                    RelationKind::CommercialModeLine => {},
                    RelationKind::LineRoute => {},
                    RelationKind::RouteVehicleJourney => {},
                    RelationKind::PhysicalModeVehicleJourney => {},
                    RelationKind::CompanyVehicleJourney => {},
                    RelationKind::CalendarVehicleJourney => {},
                    RelationKind::StopAreaStopPoint => {},
                    RelationKind::StopPointVehicleJourney => {},
                }
            }
            assert forall|k: int|
                0 <= k < c.datasets.records().len() implies c.contributors.contains_id(
                (#[trigger] c.datasets.records()[k]).contributor_id@,
            ) by {
                assert(c.contributors.contains_id(fks_cd@[k]@));
            }
            assert forall|k: int|
                0 <= k < c.lines.records().len() implies c.networks.contains_id(
                (#[trigger] c.lines.records()[k]).network_id@,
            ) && c.commercial_modes.contains_id(c.lines.records()[k].commercial_mode_id@) by {
                assert(c.networks.contains_id(fks_nl@[k]@));
                assert(c.commercial_modes.contains_id(fks_cml@[k]@));
            }
            assert forall|k: int|
                0 <= k < c.routes.records().len() implies c.lines.contains_id(
                (#[trigger] c.routes.records()[k]).line_id@,
            ) by {
                assert(c.lines.contains_id(fks_lr@[k]@));
            }
            assert forall|k: int|
                0 <= k < c.vehicle_journeys.records().len() implies {
                let v = #[trigger] c.vehicle_journeys.records()[k];
                &&& c.routes.contains_id(v.route_id@)
                &&& c.physical_modes.contains_id(v.physical_mode_id@)
                &&& c.companies.contains_id(v.company_id@)
                &&& c.datasets.contains_id(v.dataset_id@)
                &&& c.calendars.contains_id(v.service_id@)
            } by {
                assert(c.routes.contains_id(fks_rvj@[k]@));
                assert(c.physical_modes.contains_id(fks_pmvj@[k]@));
                assert(c.companies.contains_id(fks_cvj@[k]@));
                assert(c.datasets.contains_id(fks_dvj@[k]@));
                assert(c.calendars.contains_id(fks_calvj@[k]@));
            }
            assert forall|k: int|
                0 <= k < c.stop_points.records().len() implies c.stop_areas.contains_id(
                (#[trigger] c.stop_points.records()[k]).stop_area_id@,
            ) by {
                assert(c.stop_areas.contains_id(fks_spsa@[k]@));
            }
            assert(c.fks_resolved());
        }
        Ok(m)
    }
}

/// The `contributor_id` of every record of the datasets store, in order.
fn fks_dataset_contributor(c: &CollectionWithId<Dataset>) -> (r: Vec<String>)
    ensures
        r@.len() == c.records().len(),
        forall|k: int| 0 <= k < r@.len() ==> (#[trigger] r@[k])@ == c.records()[k].contributor_id@,
{
    let n = c.len();
    let mut out: Vec<String> = Vec::new();
    for k in 0..n
        invariant
            n == c.records().len(),
            out@.len() == k,
            forall|i: int| 0 <= i < k ==> (#[trigger] out@[i])@ == c.records()[i].contributor_id@,
    {
        out.push(c.get_by_idx(k).contributor_id.clone());
    }
    out
}

/// The `network_id` of every record of the lines store, in order.
fn fks_line_network(c: &CollectionWithId<Line>) -> (r: Vec<String>)
    ensures
        r@.len() == c.records().len(),
        forall|k: int| 0 <= k < r@.len() ==> (#[trigger] r@[k])@ == c.records()[k].network_id@,
{
    let n = c.len();
    let mut out: Vec<String> = Vec::new();
    for k in 0..n
        invariant
            n == c.records().len(),
            out@.len() == k,
            forall|i: int| 0 <= i < k ==> (#[trigger] out@[i])@ == c.records()[i].network_id@,
    {
        out.push(c.get_by_idx(k).network_id.clone());
    }
    out
}

/// The `commercial_mode_id` of every record of the lines store, in order.
fn fks_line_commercial_mode(c: &CollectionWithId<Line>) -> (r: Vec<String>)
    ensures
        r@.len() == c.records().len(),
        forall|k: int| 0 <= k < r@.len() ==> (#[trigger] r@[k])@ == c.records()[k].commercial_mode_id@,
{
    let n = c.len();
    let mut out: Vec<String> = Vec::new();
    for k in 0..n
        invariant
            n == c.records().len(),
            out@.len() == k,
            forall|i: int| 0 <= i < k ==> (#[trigger] out@[i])@ == c.records()[i].commercial_mode_id@,
    {
        out.push(c.get_by_idx(k).commercial_mode_id.clone());
    }
    out
}

/// The `line_id` of every record of the routes store, in order.
fn fks_route_line(c: &CollectionWithId<Route>) -> (r: Vec<String>)
    ensures
        r@.len() == c.records().len(),
        forall|k: int| 0 <= k < r@.len() ==> (#[trigger] r@[k])@ == c.records()[k].line_id@,
{
    let n = c.len();
    let mut out: Vec<String> = Vec::new();
    for k in 0..n
        invariant
            n == c.records().len(),
            out@.len() == k,
            forall|i: int| 0 <= i < k ==> (#[trigger] out@[i])@ == c.records()[i].line_id@,
    {
        out.push(c.get_by_idx(k).line_id.clone());
    }
    out
}

/// The `route_id` of every record of the vehicle journeys store, in order.
fn fks_vj_route(c: &CollectionWithId<VehicleJourney>) -> (r: Vec<String>)
    ensures
        r@.len() == c.records().len(),
        forall|k: int| 0 <= k < r@.len() ==> (#[trigger] r@[k])@ == c.records()[k].route_id@,
{
    let n = c.len();
    let mut out: Vec<String> = Vec::new();
    for k in 0..n
        invariant
            n == c.records().len(),
            out@.len() == k,
            forall|i: int| 0 <= i < k ==> (#[trigger] out@[i])@ == c.records()[i].route_id@,
    {
        out.push(c.get_by_idx(k).route_id.clone());
    }
    out
}

/// The `physical_mode_id` of every record of the vehicle journeys store, in order.
fn fks_vj_physical_mode(c: &CollectionWithId<VehicleJourney>) -> (r: Vec<String>)
    ensures
        r@.len() == c.records().len(),
        forall|k: int| 0 <= k < r@.len() ==> (#[trigger] r@[k])@ == c.records()[k].physical_mode_id@,
{
    let n = c.len();
    let mut out: Vec<String> = Vec::new();
    for k in 0..n
        invariant
            n == c.records().len(),
            out@.len() == k,
            forall|i: int| 0 <= i < k ==> (#[trigger] out@[i])@ == c.records()[i].physical_mode_id@,
    {
        out.push(c.get_by_idx(k).physical_mode_id.clone());
    }
    out
}

/// The `company_id` of every record of the vehicle journeys store, in order.
fn fks_vj_company(c: &CollectionWithId<VehicleJourney>) -> (r: Vec<String>)
    ensures
        r@.len() == c.records().len(),
        forall|k: int| 0 <= k < r@.len() ==> (#[trigger] r@[k])@ == c.records()[k].company_id@,
{
    let n = c.len();
    let mut out: Vec<String> = Vec::new();
    for k in 0..n
        invariant
            n == c.records().len(),
            out@.len() == k,
            forall|i: int| 0 <= i < k ==> (#[trigger] out@[i])@ == c.records()[i].company_id@,
    {
        out.push(c.get_by_idx(k).company_id.clone());
    }
    out
}

/// The `dataset_id` of every record of the vehicle journeys store, in order.
fn fks_vj_dataset(c: &CollectionWithId<VehicleJourney>) -> (r: Vec<String>)
    ensures
        r@.len() == c.records().len(),
        forall|k: int| 0 <= k < r@.len() ==> (#[trigger] r@[k])@ == c.records()[k].dataset_id@,
{
    let n = c.len();
    let mut out: Vec<String> = Vec::new();
    for k in 0..n
        invariant
            n == c.records().len(),
            out@.len() == k,
            forall|i: int| 0 <= i < k ==> (#[trigger] out@[i])@ == c.records()[i].dataset_id@,
    {
        out.push(c.get_by_idx(k).dataset_id.clone());
    }
    out
}

/// The `service_id` of every record of the vehicle journeys store, in order.
fn fks_vj_calendar(c: &CollectionWithId<VehicleJourney>) -> (r: Vec<String>)
    ensures
        r@.len() == c.records().len(),
        forall|k: int| 0 <= k < r@.len() ==> (#[trigger] r@[k])@ == c.records()[k].service_id@,
{
    let n = c.len();
    let mut out: Vec<String> = Vec::new();
    for k in 0..n
        invariant
            n == c.records().len(),
            out@.len() == k,
            forall|i: int| 0 <= i < k ==> (#[trigger] out@[i])@ == c.records()[i].service_id@,
    {
        out.push(c.get_by_idx(k).service_id.clone());
    }
    out
}

/// The `stop_area_id` of every record of the stop points store, in order.
fn fks_stop_point_stop_area(c: &CollectionWithId<StopPoint>) -> (r: Vec<String>)
    ensures
        r@.len() == c.records().len(),
        forall|k: int| 0 <= k < r@.len() ==> (#[trigger] r@[k])@ == c.records()[k].stop_area_id@,
{
    let n = c.len();
    let mut out: Vec<String> = Vec::new();
    for k in 0..n
        invariant
            n == c.records().len(),
            out@.len() == k,
            forall|i: int| 0 <= i < k ==> (#[trigger] out@[i])@ == c.records()[i].stop_area_id@,
    {
        out.push(c.get_by_idx(k).stop_area_id.clone());
    }
    out
}

impl Model {
    /// One step of a correspondence walk: the handles related to some
    /// handle of `s`, over one relation, in the hop's direction.
    pub open spec fn hop_image(&self, s: Set<usize>, h: Hop) -> Set<usize> {
        if h.forward {
            image(self.rel_of(h.rel).fwd(), s)
        } else {
            image(self.rel_of(h.rel).rev(), s)
        }
    }

    /// A correspondence walk: the handle set carried over each hop of the
    /// path in turn.
    pub open spec fn walk(&self, s: Set<usize>, p: Seq<Hop>) -> Set<usize>
        decreases p.len(),
    {
        if p.len() == 0 {
            s
        } else {
            self.walk(self.hop_image(s, p[0]), p.drop_first())
        }
    }

    /// The adjacency built for one declared relation.
    fn rel_of_x(&self, rk: RelationKind) -> (r: &Relation)
        ensures
            *r == self.rel_of(rk),
    {
        match rk {
            RelationKind::ContributorDataset => &self.rel_contributor_dataset,
            RelationKind::DatasetVehicleJourney => &self.rel_dataset_vj,
            RelationKind::NetworkLine => &self.rel_network_line,
            RelationKind::CommercialModeLine => &self.rel_commercial_mode_line,
            RelationKind::LineRoute => &self.rel_line_route,
            RelationKind::RouteVehicleJourney => &self.rel_route_vj,
            RelationKind::PhysicalModeVehicleJourney => &self.rel_physical_mode_vj,
            RelationKind::CompanyVehicleJourney => &self.rel_company_vj,
            RelationKind::CalendarVehicleJourney => &self.rel_calendar_vj,
            RelationKind::StopAreaStopPoint => &self.rel_stop_area_stop_point,
            RelationKind::StopPointVehicleJourney => &self.rel_stop_point_vj,
        }
    }

    /// Projects a handle set of kind `from` into the corresponding handle
    /// set of kind `to`, walking the unique schema path hop by hop; the
    /// result is deduplicated, with no ordering promised beyond the
    /// canonical sorted order of the positions.
    #[verifier::rlimit(100)]
    #[verifier::spinoff_prover]
    pub fn corresponding(&self, from: ObjectKind, set: &Vec<usize>, to: ObjectKind) -> (r: Vec<
        usize,
    >)
        requires
            self.wf(),
            strictly_sorted(set@),
            below(set@, self.kind_count(from)),
        ensures
            strictly_sorted(r@),
            below(r@, self.kind_count(to)),
            r@.to_set() == self.walk(set@.to_set(), spec_path(from, to)),
    {
        let path = resolve_path(from, to);
        let mut cur = copy_handles(set);
        let n = path.len();
        let mut k: usize = 0;
        while k < n
            invariant
                self.wf(),
                n == path@.len(),
                k <= n,
                path@ == spec_path(from, to),
                is_chain(path@, from, to),
                strictly_sorted(cur@),
                below(cur@, self.kind_count(kind_at(path@, from, k as int))),
                cur@.to_set() == self.walk(set@.to_set(), path@.subrange(0, k as int)),
            decreases n - k,
        {
            let h = path[k];
            proof {
                assert(hop_from(path@[k as int]) == kind_at(path@, from, k as int)) by {
                    if k > 0 {
                        assert(hop_to(path@[k as int - 1]) == hop_from(path@[k as int]));
                    }
                }
            }
            let rel = self.rel_of_x(h.rel);
            let next = if h.forward {
                rel.targets_of(&cur)
            } else {
                rel.sources_of(&cur)
            };
            proof {
                self.lemma_walk_snoc(set@.to_set(), path@, k as int);
                assert(kind_at(path@, from, k as int + 1) == hop_to(path@[k as int]));
            }
            cur = next;
            k = k + 1;
        }
        proof {
            assert(path@.subrange(0, n as int) =~= path@);
            if n > 0 {
                assert(kind_at(path@, from, n as int) == to);
            }
        }
        cur
    }

    /// Walking a path one hop further applies that hop's image to the
    /// walk so far.
    pub proof fn lemma_walk_snoc(&self, s: Set<usize>, p: Seq<Hop>, k: int)
        requires
            0 <= k < p.len(),
        ensures
            self.walk(s, p.subrange(0, k + 1)) == self.hop_image(
                self.walk(s, p.subrange(0, k)),
                p[k],
            ),
    {
        let p1 = p.subrange(0, k);
        let single = seq![p[k]];
        assert(p.subrange(0, k + 1) =~= p1 + single);
        self.lemma_walk_concat(s, p1, single);
        let w1 = self.walk(s, p1);
        assert(single[0] == p[k]);
        assert(single.drop_first() =~= Seq::<Hop>::empty());
        assert(self.walk(w1, single) == self.walk(self.hop_image(w1, single[0]), single.drop_first()));
        assert(self.walk(self.hop_image(w1, p[k]), Seq::<Hop>::empty()) == self.hop_image(w1, p[k]));
    }

    /// Path composition: walking a concatenated path equals walking the
    /// first part, then the second, from the intermediate handle set.
    pub proof fn lemma_walk_concat(&self, s: Set<usize>, p1: Seq<Hop>, p2: Seq<Hop>)
        ensures
            self.walk(s, p1 + p2) == self.walk(self.walk(s, p1), p2),
        decreases p1.len(),
    {
        if p1.len() == 0 {
            assert(p1 + p2 =~= p2);
        } else {
            assert((p1 + p2).drop_first() =~= p1.drop_first() + p2);
            assert((p1 + p2)[0] == p1[0]);
            self.lemma_walk_concat(self.hop_image(s, p1[0]), p1.drop_first(), p2);
        }
    }

    /// Correspondence via an intermediate kind: wherever the schema path
    /// from `a` to `c` passes through `b`, projecting to `b` and on to
    /// `c` equals projecting to `c` directly.
    pub proof fn lemma_corresponding_composes(
        &self,
        s: Set<usize>,
        a: ObjectKind,
        b: ObjectKind,
        c: ObjectKind,
    )
        requires
            spec_path(a, c) == spec_path(a, b) + spec_path(b, c),
        ensures
            self.walk(s, spec_path(a, c)) == self.walk(
                self.walk(s, spec_path(a, b)),
                spec_path(b, c),
            ),
    {
        self.lemma_walk_concat(s, spec_path(a, b), spec_path(b, c));
    }
}

/// The kind reached after the first `k` hops of a path.
pub open spec fn kind_at(p: Seq<Hop>, from: ObjectKind, k: int) -> ObjectKind {
    if k == 0 {
        from
    } else {
        hop_to(p[k - 1])
    }
}

/// Copies a vector of handles.
fn copy_handles(v: &Vec<usize>) -> (r: Vec<usize>)
    ensures
        r@ == v@,
{
    let n = v.len();
    let mut out: Vec<usize> = Vec::new();
    for k in 0..n
        invariant
            n == v@.len(),
            out@ == v@.subrange(0, k as int),
    {
        out.push(v[k]);
        proof {
            assert(out@ =~= v@.subrange(0, k + 1));
        }
    }
    proof {
        assert(v@.subrange(0, n as int) =~= v@);
    }
    out
}

/// A correspondence query is deterministic and free of duplicates: any
/// two sorted results over one handle set are one sequence, and no handle
/// repeats in it.
pub proof fn lemma_corresponding_deterministic(r1: Seq<usize>, r2: Seq<usize>)
    requires
        strictly_sorted(r1),
        strictly_sorted(r2),
        r1.to_set() == r2.to_set(),
    ensures
        r1 == r2,
        forall|i: int, j: int| 0 <= i < j < r1.len() ==> r1[i] != r1[j],
{
    lemma_sorted_set_unique(r1, r2);
}

} // verus!
