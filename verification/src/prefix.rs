//! Identifier prefixing: every identifier and every foreign key of the
//! prefixed kinds gets `prefix + ":"` prepended, so that several datasets
//! can share one model without identifier collisions. Physical modes keep
//! their normalized identifiers.

use vstd::prelude::*;

use crate::collection::{Collection, CollectionWithId, WithId};
use crate::error::Error;
use crate::model::Collections;
use crate::objects::{
    Calendar, CommercialMode, Comment, Company, Contributor, Dataset, Equipment, Line, Network,
    Route, StopArea, StopPoint, StopTime, Transfer, VehicleJourney, prefixed,
};

verus! {

/// Prefixed identifiers of distinct strings stay distinct.
proof fn lemma_prefix_keeps_distinct(p: Seq<char>, a: Seq<char>, b: Seq<char>)
    requires
        a != b,
    ensures
        p + a != p + b,
{
    if p + a == p + b {
        assert(a =~= (p + a).subrange(p.len() as int, (p + a).len() as int));
        assert(b =~= (p + b).subrange(p.len() as int, (p + b).len() as int));
    }
}

/// Prefixes every identifier-like field of the contributors store.
fn prefix_contributors(c: &mut CollectionWithId<Contributor>, pc: &str)
    requires
        old(c).wf(),
    ensures
        final(c).wf(),
        prefixed_contributors(old(c).records(), final(c).records(), pc@),
{
    let mut olds = c.take();
    let ghost all = olds@;
    let mut news: Vec<Contributor> = Vec::new();
    while olds.len() > 0
        invariant
            news@.len() == all.len() - olds@.len(),
            all == all.subrange(0, all.len() - olds@.len()) + olds@,
            olds@.len() <= all.len(),
            forall|i: int, j: int| 0 <= i < j < all.len() ==> all[i].sid() != all[j].sid(),
            prefixed_contributors(all.subrange(0, all.len() - olds@.len()), news@, pc@),
        decreases olds@.len(),
    {
        let ghost before = all.len() - olds@.len();
        let rec = olds.remove(0);
        proof {
            assert(all[before] == rec);
        }
        news.push(Contributor {
            id: prefixed(pc, &rec.id),
            name: rec.name,
        });
        proof {
            assert(all.subrange(0, all.len() - olds@.len()) =~= all.subrange(0, before).push(rec));
        }
    }
    proof {
        assert(all.subrange(0, all.len() as int) =~= all);
        assert forall|i: int, j: int|
            0 <= i < j < news@.len() implies news@[i].sid() != news@[j].sid() by {
            lemma_prefix_keeps_distinct(pc@, all[i].sid(), all[j].sid());
        }
    }
    *c = CollectionWithId::from_vec_unique(news);
}

/// How prefixing relates the contributors records before and after.
pub open spec fn prefixed_contributors(olds: Seq<Contributor>, news: Seq<Contributor>, pc: Seq<char>) -> bool {
    &&& news.len() == olds.len()
    &&& forall|k: int|
        0 <= k < news.len() ==> {
            let r = #[trigger] news[k];
            &&& r.id@ == pc + olds[k].id@
                    &&& r.name == olds[k].name
        }
}

/// Prefixes every identifier-like field of the datasets store.
fn prefix_datasets(c: &mut CollectionWithId<Dataset>, pc: &str)
    requires
        old(c).wf(),
    ensures
        final(c).wf(),
        prefixed_datasets(old(c).records(), final(c).records(), pc@),
{
    let mut olds = c.take();
    let ghost all = olds@;
    let mut news: Vec<Dataset> = Vec::new();
    while olds.len() > 0
        invariant
            news@.len() == all.len() - olds@.len(),
            all == all.subrange(0, all.len() - olds@.len()) + olds@,
            olds@.len() <= all.len(),
            forall|i: int, j: int| 0 <= i < j < all.len() ==> all[i].sid() != all[j].sid(),
            prefixed_datasets(all.subrange(0, all.len() - olds@.len()), news@, pc@),
        decreases olds@.len(),
    {
        let ghost before = all.len() - olds@.len();
        let rec = olds.remove(0);
        proof {
            assert(all[before] == rec);
        }
        news.push(Dataset {
            id: prefixed(pc, &rec.id),
            contributor_id: prefixed(pc, &rec.contributor_id),
            start_date: rec.start_date,
            end_date: rec.end_date,
        });
        proof {
            assert(all.subrange(0, all.len() - olds@.len()) =~= all.subrange(0, before).push(rec));
        }
    }
    proof {
        assert(all.subrange(0, all.len() as int) =~= all);
        assert forall|i: int, j: int|
            0 <= i < j < news@.len() implies news@[i].sid() != news@[j].sid() by {
            lemma_prefix_keeps_distinct(pc@, all[i].sid(), all[j].sid());
        }
    }
    *c = CollectionWithId::from_vec_unique(news);
}

/// How prefixing relates the datasets records before and after.
pub open spec fn prefixed_datasets(olds: Seq<Dataset>, news: Seq<Dataset>, pc: Seq<char>) -> bool {
    &&& news.len() == olds.len()
    &&& forall|k: int|
        0 <= k < news.len() ==> {
            let r = #[trigger] news[k];
            &&& r.id@ == pc + olds[k].id@
                    &&& r.contributor_id@ == pc + olds[k].contributor_id@
                    &&& r.start_date == olds[k].start_date
                    &&& r.end_date == olds[k].end_date
        }
}

/// Prefixes every identifier-like field of the networks store.
fn prefix_networks(c: &mut CollectionWithId<Network>, pc: &str)
    requires
        old(c).wf(),
    ensures
        final(c).wf(),
        prefixed_networks(old(c).records(), final(c).records(), pc@),
{
    let mut olds = c.take();
    let ghost all = olds@;
    let mut news: Vec<Network> = Vec::new();
    while olds.len() > 0
        invariant
            news@.len() == all.len() - olds@.len(),
            all == all.subrange(0, all.len() - olds@.len()) + olds@,
            olds@.len() <= all.len(),
            forall|i: int, j: int| 0 <= i < j < all.len() ==> all[i].sid() != all[j].sid(),
            prefixed_networks(all.subrange(0, all.len() - olds@.len()), news@, pc@),
        decreases olds@.len(),
    {
        let ghost before = all.len() - olds@.len();
        let rec = olds.remove(0);
        proof {
            assert(all[before] == rec);
        }
        news.push(Network {
            id: prefixed(pc, &rec.id),
            name: rec.name,
        });
        proof {
            assert(all.subrange(0, all.len() - olds@.len()) =~= all.subrange(0, before).push(rec));
        }
    }
    proof {
        assert(all.subrange(0, all.len() as int) =~= all);
        assert forall|i: int, j: int|
            0 <= i < j < news@.len() implies news@[i].sid() != news@[j].sid() by {
            lemma_prefix_keeps_distinct(pc@, all[i].sid(), all[j].sid());
        }
    }
    *c = CollectionWithId::from_vec_unique(news);
}

/// How prefixing relates the networks records before and after.
pub open spec fn prefixed_networks(olds: Seq<Network>, news: Seq<Network>, pc: Seq<char>) -> bool {
    &&& news.len() == olds.len()
    &&& forall|k: int|
        0 <= k < news.len() ==> {
            let r = #[trigger] news[k];
            &&& r.id@ == pc + olds[k].id@
                    &&& r.name == olds[k].name
        }
}

/// Prefixes every identifier-like field of the commercial_modes store.
fn prefix_commercial_modes(c: &mut CollectionWithId<CommercialMode>, pc: &str)
    requires
        old(c).wf(),
    ensures
        final(c).wf(),
        prefixed_commercial_modes(old(c).records(), final(c).records(), pc@),
{
    let mut olds = c.take();
    let ghost all = olds@;
    let mut news: Vec<CommercialMode> = Vec::new();
    while olds.len() > 0
        invariant
            news@.len() == all.len() - olds@.len(),
            all == all.subrange(0, all.len() - olds@.len()) + olds@,
            olds@.len() <= all.len(),
            forall|i: int, j: int| 0 <= i < j < all.len() ==> all[i].sid() != all[j].sid(),
            prefixed_commercial_modes(all.subrange(0, all.len() - olds@.len()), news@, pc@),
        decreases olds@.len(),
    {
        let ghost before = all.len() - olds@.len();
        let rec = olds.remove(0);
        proof {
            assert(all[before] == rec);
        }
        news.push(CommercialMode {
            id: prefixed(pc, &rec.id),
            name: rec.name,
        });
        proof {
            assert(all.subrange(0, all.len() - olds@.len()) =~= all.subrange(0, before).push(rec));
        }
    }
    proof {
        assert(all.subrange(0, all.len() as int) =~= all);
        assert forall|i: int, j: int|
            0 <= i < j < news@.len() implies news@[i].sid() != news@[j].sid() by {
            lemma_prefix_keeps_distinct(pc@, all[i].sid(), all[j].sid());
        }
    }
    *c = CollectionWithId::from_vec_unique(news);
}

/// How prefixing relates the commercial_modes records before and after.
pub open spec fn prefixed_commercial_modes(olds: Seq<CommercialMode>, news: Seq<CommercialMode>, pc: Seq<char>) -> bool {
    &&& news.len() == olds.len()
    &&& forall|k: int|
        0 <= k < news.len() ==> {
            let r = #[trigger] news[k];
            &&& r.id@ == pc + olds[k].id@
                    &&& r.name == olds[k].name
        }
}

/// Prefixes every identifier-like field of the companies store.
fn prefix_companies(c: &mut CollectionWithId<Company>, pc: &str)
    requires
        old(c).wf(),
    ensures
        final(c).wf(),
        prefixed_companies(old(c).records(), final(c).records(), pc@),
{
    let mut olds = c.take();
    let ghost all = olds@;
    let mut news: Vec<Company> = Vec::new();
    while olds.len() > 0
        invariant
            news@.len() == all.len() - olds@.len(),
            all == all.subrange(0, all.len() - olds@.len()) + olds@,
            olds@.len() <= all.len(),
            forall|i: int, j: int| 0 <= i < j < all.len() ==> all[i].sid() != all[j].sid(),
            prefixed_companies(all.subrange(0, all.len() - olds@.len()), news@, pc@),
        decreases olds@.len(),
    {
        let ghost before = all.len() - olds@.len();
        let rec = olds.remove(0);
        proof {
            assert(all[before] == rec);
        }
        news.push(Company {
            id: prefixed(pc, &rec.id),
            name: rec.name,
        });
        proof {
            assert(all.subrange(0, all.len() - olds@.len()) =~= all.subrange(0, before).push(rec));
        }
    }
    proof {
        assert(all.subrange(0, all.len() as int) =~= all);
        assert forall|i: int, j: int|
            0 <= i < j < news@.len() implies news@[i].sid() != news@[j].sid() by {
            lemma_prefix_keeps_distinct(pc@, all[i].sid(), all[j].sid());
        }
    }
    *c = CollectionWithId::from_vec_unique(news);
}

/// How prefixing relates the companies records before and after.
pub open spec fn prefixed_companies(olds: Seq<Company>, news: Seq<Company>, pc: Seq<char>) -> bool {
    &&& news.len() == olds.len()
    &&& forall|k: int|
        0 <= k < news.len() ==> {
            let r = #[trigger] news[k];
            &&& r.id@ == pc + olds[k].id@
                    &&& r.name == olds[k].name
        }
}

/// Prefixes every identifier-like field of the lines store.
fn prefix_lines(c: &mut CollectionWithId<Line>, pc: &str)
    requires
        old(c).wf(),
    ensures
        final(c).wf(),
        prefixed_lines(old(c).records(), final(c).records(), pc@),
{
    let mut olds = c.take();
    let ghost all = olds@;
    let mut news: Vec<Line> = Vec::new();
    while olds.len() > 0
        invariant
            news@.len() == all.len() - olds@.len(),
            all == all.subrange(0, all.len() - olds@.len()) + olds@,
            olds@.len() <= all.len(),
            forall|i: int, j: int| 0 <= i < j < all.len() ==> all[i].sid() != all[j].sid(),
            prefixed_lines(all.subrange(0, all.len() - olds@.len()), news@, pc@),
        decreases olds@.len(),
    {
        let ghost before = all.len() - olds@.len();
        let rec = olds.remove(0);
        proof {
            assert(all[before] == rec);
        }
        news.push(Line {
            id: prefixed(pc, &rec.id),
            network_id: prefixed(pc, &rec.network_id),
            commercial_mode_id: prefixed(pc, &rec.commercial_mode_id),
            name: rec.name,
        });
        proof {
            assert(all.subrange(0, all.len() - olds@.len()) =~= all.subrange(0, before).push(rec));
        }
    }
    proof {
        assert(all.subrange(0, all.len() as int) =~= all);
        assert forall|i: int, j: int|
            0 <= i < j < news@.len() implies news@[i].sid() != news@[j].sid() by {
            lemma_prefix_keeps_distinct(pc@, all[i].sid(), all[j].sid());
        }
    }
    *c = CollectionWithId::from_vec_unique(news);
}

/// How prefixing relates the lines records before and after.
pub open spec fn prefixed_lines(olds: Seq<Line>, news: Seq<Line>, pc: Seq<char>) -> bool {
    &&& news.len() == olds.len()
    &&& forall|k: int|
        0 <= k < news.len() ==> {
            let r = #[trigger] news[k];
            &&& r.id@ == pc + olds[k].id@
                    &&& r.network_id@ == pc + olds[k].network_id@
                    &&& r.commercial_mode_id@ == pc + olds[k].commercial_mode_id@
                    &&& r.name == olds[k].name
        }
}

/// Prefixes every identifier-like field of the routes store.
fn prefix_routes(c: &mut CollectionWithId<Route>, pc: &str)
    requires
        old(c).wf(),
    ensures
        final(c).wf(),
        prefixed_routes(old(c).records(), final(c).records(), pc@),
{
    let mut olds = c.take();
    let ghost all = olds@;
    let mut news: Vec<Route> = Vec::new();
    while olds.len() > 0
        invariant
            news@.len() == all.len() - olds@.len(),
            all == all.subrange(0, all.len() - olds@.len()) + olds@,
            olds@.len() <= all.len(),
            forall|i: int, j: int| 0 <= i < j < all.len() ==> all[i].sid() != all[j].sid(),
            prefixed_routes(all.subrange(0, all.len() - olds@.len()), news@, pc@),
        decreases olds@.len(),
    {
        let ghost before = all.len() - olds@.len();
        let rec = olds.remove(0);
        proof {
            assert(all[before] == rec);
        }
        news.push(Route {
            id: prefixed(pc, &rec.id),
            line_id: prefixed(pc, &rec.line_id),
            name: rec.name,
        });
        proof {
            assert(all.subrange(0, all.len() - olds@.len()) =~= all.subrange(0, before).push(rec));
        }
    }
    proof {
        assert(all.subrange(0, all.len() as int) =~= all);
        assert forall|i: int, j: int|
            0 <= i < j < news@.len() implies news@[i].sid() != news@[j].sid() by {
            lemma_prefix_keeps_distinct(pc@, all[i].sid(), all[j].sid());
        }
    }
    *c = CollectionWithId::from_vec_unique(news);
}

/// How prefixing relates the routes records before and after.
pub open spec fn prefixed_routes(olds: Seq<Route>, news: Seq<Route>, pc: Seq<char>) -> bool {
    &&& news.len() == olds.len()
    &&& forall|k: int|
        0 <= k < news.len() ==> {
            let r = #[trigger] news[k];
            &&& r.id@ == pc + olds[k].id@
                    &&& r.line_id@ == pc + olds[k].line_id@
                    &&& r.name == olds[k].name
        }
}

/// Prefixes every identifier-like field of the stop_areas store.
fn prefix_stop_areas(c: &mut CollectionWithId<StopArea>, pc: &str)
    requires
        old(c).wf(),
    ensures
        final(c).wf(),
        prefixed_stop_areas(old(c).records(), final(c).records(), pc@),
{
    let mut olds = c.take();
    let ghost all = olds@;
    let mut news: Vec<StopArea> = Vec::new();
    while olds.len() > 0
        invariant
            news@.len() == all.len() - olds@.len(),
            all == all.subrange(0, all.len() - olds@.len()) + olds@,
            olds@.len() <= all.len(),
            forall|i: int, j: int| 0 <= i < j < all.len() ==> all[i].sid() != all[j].sid(),
            prefixed_stop_areas(all.subrange(0, all.len() - olds@.len()), news@, pc@),
        decreases olds@.len(),
    {
        let ghost before = all.len() - olds@.len();
        let rec = olds.remove(0);
        proof {
            assert(all[before] == rec);
        }
        news.push(StopArea {
            id: prefixed(pc, &rec.id),
            name: rec.name,
            coord: rec.coord,
        });
        proof {
            assert(all.subrange(0, all.len() - olds@.len()) =~= all.subrange(0, before).push(rec));
        }
    }
    proof {
        assert(all.subrange(0, all.len() as int) =~= all);
        assert forall|i: int, j: int|
            0 <= i < j < news@.len() implies news@[i].sid() != news@[j].sid() by {
            lemma_prefix_keeps_distinct(pc@, all[i].sid(), all[j].sid());
        }
    }
    *c = CollectionWithId::from_vec_unique(news);
}

/// How prefixing relates the stop_areas records before and after.
pub open spec fn prefixed_stop_areas(olds: Seq<StopArea>, news: Seq<StopArea>, pc: Seq<char>) -> bool {
    &&& news.len() == olds.len()
    &&& forall|k: int|
        0 <= k < news.len() ==> {
            let r = #[trigger] news[k];
            &&& r.id@ == pc + olds[k].id@
                    &&& r.name == olds[k].name
                    &&& r.coord == olds[k].coord
        }
}

/// Prefixes every identifier-like field of the stop_points store.
fn prefix_stop_points(c: &mut CollectionWithId<StopPoint>, pc: &str)
    requires
        old(c).wf(),
    ensures
        final(c).wf(),
        prefixed_stop_points(old(c).records(), final(c).records(), pc@),
{
    let mut olds = c.take();
    let ghost all = olds@;
    let mut news: Vec<StopPoint> = Vec::new();
    while olds.len() > 0
        invariant
            news@.len() == all.len() - olds@.len(),
            all == all.subrange(0, all.len() - olds@.len()) + olds@,
            olds@.len() <= all.len(),
            forall|i: int, j: int| 0 <= i < j < all.len() ==> all[i].sid() != all[j].sid(),
            prefixed_stop_points(all.subrange(0, all.len() - olds@.len()), news@, pc@),
        decreases olds@.len(),
    {
        let ghost before = all.len() - olds@.len();
        let rec = olds.remove(0);
        proof {
            assert(all[before] == rec);
        }
        news.push(StopPoint {
            id: prefixed(pc, &rec.id),
            stop_area_id: prefixed(pc, &rec.stop_area_id),
            name: rec.name,
            coord: rec.coord,
        });
        proof {
            assert(all.subrange(0, all.len() - olds@.len()) =~= all.subrange(0, before).push(rec));
        }
    }
    proof {
        assert(all.subrange(0, all.len() as int) =~= all);
        assert forall|i: int, j: int|
            0 <= i < j < news@.len() implies news@[i].sid() != news@[j].sid() by {
            lemma_prefix_keeps_distinct(pc@, all[i].sid(), all[j].sid());
        }
    }
    *c = CollectionWithId::from_vec_unique(news);
}

/// How prefixing relates the stop_points records before and after.
pub open spec fn prefixed_stop_points(olds: Seq<StopPoint>, news: Seq<StopPoint>, pc: Seq<char>) -> bool {
    &&& news.len() == olds.len()
    &&& forall|k: int|
        0 <= k < news.len() ==> {
            let r = #[trigger] news[k];
            &&& r.id@ == pc + olds[k].id@
                    &&& r.stop_area_id@ == pc + olds[k].stop_area_id@
                    &&& r.name == olds[k].name
                    &&& r.coord == olds[k].coord
        }
}

/// Prefixes every identifier-like field of the calendars store.
fn prefix_calendars(c: &mut CollectionWithId<Calendar>, pc: &str)
    requires
        old(c).wf(),
    ensures
        final(c).wf(),
        prefixed_calendars(old(c).records(), final(c).records(), pc@),
{
    let mut olds = c.take();
    let ghost all = olds@;
    let mut news: Vec<Calendar> = Vec::new();
    while olds.len() > 0
        invariant
            news@.len() == all.len() - olds@.len(),
            all == all.subrange(0, all.len() - olds@.len()) + olds@,
            olds@.len() <= all.len(),
            forall|i: int, j: int| 0 <= i < j < all.len() ==> all[i].sid() != all[j].sid(),
            prefixed_calendars(all.subrange(0, all.len() - olds@.len()), news@, pc@),
        decreases olds@.len(),
    {
        let ghost before = all.len() - olds@.len();
        let rec = olds.remove(0);
        proof {
            assert(all[before] == rec);
        }
        news.push(Calendar {
            id: prefixed(pc, &rec.id),
            dates: rec.dates,
        });
        proof {
            assert(all.subrange(0, all.len() - olds@.len()) =~= all.subrange(0, before).push(rec));
        }
    }
    proof {
        assert(all.subrange(0, all.len() as int) =~= all);
        assert forall|i: int, j: int|
            0 <= i < j < news@.len() implies news@[i].sid() != news@[j].sid() by {
            lemma_prefix_keeps_distinct(pc@, all[i].sid(), all[j].sid());
        }
    }
    *c = CollectionWithId::from_vec_unique(news);
}

/// How prefixing relates the calendars records before and after.
pub open spec fn prefixed_calendars(olds: Seq<Calendar>, news: Seq<Calendar>, pc: Seq<char>) -> bool {
    &&& news.len() == olds.len()
    &&& forall|k: int|
        0 <= k < news.len() ==> {
            let r = #[trigger] news[k];
            &&& r.id@ == pc + olds[k].id@
                    &&& r.dates == olds[k].dates
        }
}

/// Prefixes every identifier-like field of the comments store.
fn prefix_comments(c: &mut CollectionWithId<Comment>, pc: &str)
    requires
        old(c).wf(),
    ensures
        final(c).wf(),
        prefixed_comments(old(c).records(), final(c).records(), pc@),
{
    let mut olds = c.take();
    let ghost all = olds@;
    let mut news: Vec<Comment> = Vec::new();
    while olds.len() > 0
        invariant
            news@.len() == all.len() - olds@.len(),
            all == all.subrange(0, all.len() - olds@.len()) + olds@,
            olds@.len() <= all.len(),
            forall|i: int, j: int| 0 <= i < j < all.len() ==> all[i].sid() != all[j].sid(),
            prefixed_comments(all.subrange(0, all.len() - olds@.len()), news@, pc@),
        decreases olds@.len(),
    {
        let ghost before = all.len() - olds@.len();
        let rec = olds.remove(0);
        proof {
            assert(all[before] == rec);
        }
        news.push(Comment {
            id: prefixed(pc, &rec.id),
            name: rec.name,
            comment_type: rec.comment_type,
        });
        proof {
            assert(all.subrange(0, all.len() - olds@.len()) =~= all.subrange(0, before).push(rec));
        }
    }
    proof {
        assert(all.subrange(0, all.len() as int) =~= all);
        assert forall|i: int, j: int|
            0 <= i < j < news@.len() implies news@[i].sid() != news@[j].sid() by {
            lemma_prefix_keeps_distinct(pc@, all[i].sid(), all[j].sid());
        }
    }
    *c = CollectionWithId::from_vec_unique(news);
}

/// How prefixing relates the comments records before and after.
pub open spec fn prefixed_comments(olds: Seq<Comment>, news: Seq<Comment>, pc: Seq<char>) -> bool {
    &&& news.len() == olds.len()
    &&& forall|k: int|
        0 <= k < news.len() ==> {
            let r = #[trigger] news[k];
            &&& r.id@ == pc + olds[k].id@
                    &&& r.name == olds[k].name
                    &&& r.comment_type == olds[k].comment_type
        }
}

/// Prefixes every identifier-like field of the equipments store.
fn prefix_equipments(c: &mut CollectionWithId<Equipment>, pc: &str)
    requires
        old(c).wf(),
    ensures
        final(c).wf(),
        prefixed_equipments(old(c).records(), final(c).records(), pc@),
{
    let mut olds = c.take();
    let ghost all = olds@;
    let mut news: Vec<Equipment> = Vec::new();
    while olds.len() > 0
        invariant
            news@.len() == all.len() - olds@.len(),
            all == all.subrange(0, all.len() - olds@.len()) + olds@,
            olds@.len() <= all.len(),
            forall|i: int, j: int| 0 <= i < j < all.len() ==> all[i].sid() != all[j].sid(),
            prefixed_equipments(all.subrange(0, all.len() - olds@.len()), news@, pc@),
        decreases olds@.len(),
    {
        let ghost before = all.len() - olds@.len();
        let rec = olds.remove(0);
        proof {
            assert(all[before] == rec);
        }
        news.push(Equipment {
            id: prefixed(pc, &rec.id),

        });
        proof {
            assert(all.subrange(0, all.len() - olds@.len()) =~= all.subrange(0, before).push(rec));
        }
    }
    proof {
        assert(all.subrange(0, all.len() as int) =~= all);
        assert forall|i: int, j: int|
            0 <= i < j < news@.len() implies news@[i].sid() != news@[j].sid() by {
            lemma_prefix_keeps_distinct(pc@, all[i].sid(), all[j].sid());
        }
    }
    *c = CollectionWithId::from_vec_unique(news);
}

/// How prefixing relates the equipments records before and after.
pub open spec fn prefixed_equipments(olds: Seq<Equipment>, news: Seq<Equipment>, pc: Seq<char>) -> bool {
    &&& news.len() == olds.len()
    &&& forall|k: int|
        0 <= k < news.len() ==> {
            let r = #[trigger] news[k];
            &&& r.id@ == pc + olds[k].id@

        }
}

/// How prefixing relates the vehicle journeys before and after: the
/// identifier and every foreign key but the physical mode prefixed, and
/// each stop time's stop point reference prefixed in place.
pub open spec fn prefixed_vehicle_journeys(olds: Seq<VehicleJourney>, news: Seq<VehicleJourney>, pc: Seq<char>) -> bool {
    &&& news.len() == olds.len()
    &&& forall|k: int|
        0 <= k < news.len() ==> {
            let r = #[trigger] news[k];
            &&& r.id@ == pc + olds[k].id@
            &&& r.route_id@ == pc + olds[k].route_id@
            &&& r.dataset_id@ == pc + olds[k].dataset_id@
            &&& r.service_id@ == pc + olds[k].service_id@
            &&& r.company_id@ == pc + olds[k].company_id@
            &&& r.physical_mode_id == olds[k].physical_mode_id
            &&& r.stop_times@.len() == olds[k].stop_times@.len()
            &&& forall|s: int|
                0 <= s < r.stop_times@.len() ==> {
                    let st = #[trigger] r.stop_times@[s];
                    &&& st.stop_point_id@ == pc + olds[k].stop_times@[s].stop_point_id@
                    &&& st.sequence == olds[k].stop_times@[s].sequence
                    &&& st.arrival_time == olds[k].stop_times@[s].arrival_time
                    &&& st.departure_time == olds[k].stop_times@[s].departure_time
                }
        }
}

/// Prefixes the vehicle journeys, their foreign keys and their stop
/// times; the physical mode keeps its normalized identifier.
fn prefix_vehicle_journeys(c: &mut CollectionWithId<VehicleJourney>, pc: &str)
    requires
        old(c).wf(),
    ensures
        final(c).wf(),
        prefixed_vehicle_journeys(old(c).records(), final(c).records(), pc@),
{
    let mut olds = c.take();
    let ghost all = olds@;
    let mut news: Vec<VehicleJourney> = Vec::new();
    while olds.len() > 0
        invariant
            news@.len() == all.len() - olds@.len(),
            all == all.subrange(0, all.len() - olds@.len()) + olds@,
            olds@.len() <= all.len(),
            forall|i: int, j: int| 0 <= i < j < all.len() ==> all[i].sid() != all[j].sid(),
            prefixed_vehicle_journeys(all.subrange(0, all.len() - olds@.len()), news@, pc@),
        decreases olds@.len(),
    {
        let ghost before = all.len() - olds@.len();
        let rec = olds.remove(0);
        proof {
            assert(all[before] == rec);
        }
        let mut sts = rec.stop_times;
        let ghost all_sts = sts@;
        let mut new_sts: Vec<StopTime> = Vec::new();
        while sts.len() > 0
            invariant
                new_sts@.len() == all_sts.len() - sts@.len(),
                all_sts == all_sts.subrange(0, all_sts.len() - sts@.len()) + sts@,
                sts@.len() <= all_sts.len(),
                forall|s: int|
                    0 <= s < new_sts@.len() ==> {
                        let st = #[trigger] new_sts@[s];
                        &&& st.stop_point_id@ == pc@ + all_sts[s].stop_point_id@
                        &&& st.sequence == all_sts[s].sequence
                        &&& st.arrival_time == all_sts[s].arrival_time
                        &&& st.departure_time == all_sts[s].departure_time
                    },
            decreases sts@.len(),
        {
            let ghost sbefore = all_sts.len() - sts@.len();
            let st = sts.remove(0);
            proof {
                assert(all_sts[sbefore] == st);
            }
            new_sts.push(
                StopTime {
                    stop_point_id: prefixed(pc, &st.stop_point_id),
                    sequence: st.sequence,
                    arrival_time: st.arrival_time,
                    departure_time: st.departure_time,
                },
            );
        }
        proof {
            assert(all_sts.subrange(0, all_sts.len() as int) =~= all_sts);
        }
        news.push(
            VehicleJourney {
                id: prefixed(pc, &rec.id),
                route_id: prefixed(pc, &rec.route_id),
                physical_mode_id: rec.physical_mode_id,
                dataset_id: prefixed(pc, &rec.dataset_id),
                service_id: prefixed(pc, &rec.service_id),
                company_id: prefixed(pc, &rec.company_id),
                stop_times: new_sts,
            },
        );
        proof {
            assert(all.subrange(0, all.len() - olds@.len()) =~= all.subrange(0, before).push(rec));
        }
    }
    proof {
        assert(all.subrange(0, all.len() as int) =~= all);
        assert forall|i: int, j: int|
            0 <= i < j < news@.len() implies news@[i].sid() != news@[j].sid() by {
            lemma_prefix_keeps_distinct(pc@, all[i].sid(), all[j].sid());
        }
    }
    *c = CollectionWithId::from_vec_unique(news);
}

/// How prefixing relates the transfers before and after: both stop point
/// references prefixed.
pub open spec fn prefixed_transfers(olds: Seq<Transfer>, news: Seq<Transfer>, pc: Seq<char>) -> bool {
    &&& news.len() == olds.len()
    &&& forall|k: int|
        0 <= k < news.len() ==> {
            let r = #[trigger] news[k];
            &&& r.from_stop_id@ == pc + olds[k].from_stop_id@
            &&& r.to_stop_id@ == pc + olds[k].to_stop_id@
            &&& r.min_transfer_time == olds[k].min_transfer_time
        }
}

/// Prefixes the stop point references of every transfer.
fn prefix_transfers(c: &mut Collection<Transfer>, pc: &str)
    ensures
        prefixed_transfers(old(c).records(), final(c).records(), pc@),
{
    let mut olds = c.take();
    let ghost all = olds@;
    let mut news: Vec<Transfer> = Vec::new();
    while olds.len() > 0
        invariant
            news@.len() == all.len() - olds@.len(),
            all == all.subrange(0, all.len() - olds@.len()) + olds@,
            olds@.len() <= all.len(),
            prefixed_transfers(all.subrange(0, all.len() - olds@.len()), news@, pc@),
        decreases olds@.len(),
    {
        let ghost before = all.len() - olds@.len();
        let rec = olds.remove(0);
        proof {
            assert(all[before] == rec);
        }
        news.push(
            Transfer {
                from_stop_id: prefixed(pc, &rec.from_stop_id),
                to_stop_id: prefixed(pc, &rec.to_stop_id),
                min_transfer_time: rec.min_transfer_time,
            },
        );
        proof {
            assert(all.subrange(0, all.len() - olds@.len()) =~= all.subrange(0, before).push(rec));
        }
    }
    proof {
        assert(all.subrange(0, all.len() as int) =~= all);
    }
    *c = Collection::new(news);
}

/// How one prefixing pass relates the stores before and after: every
/// identifier-bearing kind but the physical modes prefixed consistently
/// with its foreign keys, and the fare stores untouched.
pub open spec fn prefixed_from(old_c: Collections, new_c: Collections, pc: Seq<char>) -> bool {
    &&& prefixed_contributors(old_c.contributors.records(), new_c.contributors.records(), pc)
    &&& prefixed_datasets(old_c.datasets.records(), new_c.datasets.records(), pc)
    &&& prefixed_networks(old_c.networks.records(), new_c.networks.records(), pc)
    &&& prefixed_commercial_modes(
        old_c.commercial_modes.records(),
        new_c.commercial_modes.records(),
        pc,
    )
    &&& prefixed_companies(old_c.companies.records(), new_c.companies.records(), pc)
    &&& prefixed_lines(old_c.lines.records(), new_c.lines.records(), pc)
    &&& prefixed_routes(old_c.routes.records(), new_c.routes.records(), pc)
    &&& prefixed_stop_areas(old_c.stop_areas.records(), new_c.stop_areas.records(), pc)
    &&& prefixed_stop_points(old_c.stop_points.records(), new_c.stop_points.records(), pc)
    &&& prefixed_calendars(old_c.calendars.records(), new_c.calendars.records(), pc)
    &&& prefixed_comments(old_c.comments.records(), new_c.comments.records(), pc)
    &&& prefixed_equipments(old_c.equipments.records(), new_c.equipments.records(), pc)
    &&& prefixed_vehicle_journeys(
        old_c.vehicle_journeys.records(),
        new_c.vehicle_journeys.records(),
        pc,
    )
    &&& prefixed_transfers(old_c.transfers.records(), new_c.transfers.records(), pc)
    &&& new_c.physical_modes == old_c.physical_modes
    &&& new_c.geometries == old_c.geometries
    &&& new_c.tickets == old_c.tickets
    &&& new_c.ticket_uses == old_c.ticket_uses
    &&& new_c.ticket_prices == old_c.ticket_prices
    &&& new_c.ticket_use_perimeters == old_c.ticket_use_perimeters
    &&& new_c.ticket_use_restrictions == old_c.ticket_use_restrictions
}

/// Namespaces a whole model: prepends `prefix + ":"` to every identifier
/// and every matching foreign key of the identifier-bearing kinds, so
/// that foreign keys keep resolving; physical modes, whose identifiers
/// are a fixed vocabulary, are left alone.
pub fn add_prefix(prefix: String, collections: &mut Collections) -> (r: Result<(), Error>)
    requires
        old(collections).wf(),
    ensures
        r is Ok,
        final(collections).wf(),
        prefixed_from(*old(collections), *final(collections), prefix@ + ":"@),
{
    let pc = prefix.concat(":");
    prefix_contributors(&mut collections.contributors, pc.as_str());
    prefix_datasets(&mut collections.datasets, pc.as_str());
    prefix_networks(&mut collections.networks, pc.as_str());
    prefix_commercial_modes(&mut collections.commercial_modes, pc.as_str());
    prefix_companies(&mut collections.companies, pc.as_str());
    prefix_lines(&mut collections.lines, pc.as_str());
    prefix_routes(&mut collections.routes, pc.as_str());
    prefix_stop_areas(&mut collections.stop_areas, pc.as_str());
    prefix_stop_points(&mut collections.stop_points, pc.as_str());
    prefix_calendars(&mut collections.calendars, pc.as_str());
    prefix_comments(&mut collections.comments, pc.as_str());
    prefix_equipments(&mut collections.equipments, pc.as_str());
    prefix_vehicle_journeys(&mut collections.vehicle_journeys, pc.as_str());
    prefix_transfers(&mut collections.transfers, pc.as_str());
    Ok(())
}

} // verus!
