//! The integrity-restoring and restricting transformations: the sanitizer
//! that drops records with dangling optional references, the
//! validity-period restrictor, and the helpers that read and set a
//! dataset's validity period.

use vstd::prelude::*;

use crate::collection::{CollectionWithId, WithId};
use crate::error::Error;
use crate::model::Collections;
use crate::objects::{spec_date_le, Calendar, Dataset, Date, Frequency, Transfer, ValidityPeriod, VehicleJourney};

verus! {

broadcast use vstd::seq_lib::group_filter_ensures;

/// Whether some record of the sequence carries this identifier.
pub open spec fn has_record_with_id<T: WithId>(s: Seq<T>, id: Seq<char>) -> bool {
    exists|i: int| 0 <= i < s.len() && (#[trigger] s[i]).sid() == id
}

/// The sanitizer's keep-rule for a vehicle journey: its calendar exists.
pub open spec fn vj_kept(cals: Seq<Calendar>, v: VehicleJourney) -> bool {
    has_record_with_id(cals, v.service_id@)
}

/// The sanitizer's keep-rule for a frequency: its vehicle journey exists.
pub open spec fn freq_kept(vjs: Seq<VehicleJourney>, f: Frequency) -> bool {
    has_record_with_id(vjs, f.vehicle_journey_id@)
}

/// The sanitizer's keep-rule for a transfer: both stop points exist.
pub open spec fn transfer_kept(sps: Seq<crate::objects::StopPoint>, t: Transfer) -> bool {
    has_record_with_id(sps, t.from_stop_id@) && has_record_with_id(sps, t.to_stop_id@)
}

/// Every element of a filtered sequence occurs in the original.
pub proof fn lemma_filter_elems<T>(s: Seq<T>, p: spec_fn(T) -> bool)
    ensures
        forall|k: int|
            0 <= k < s.filter(p).len() ==> s.contains(#[trigger] s.filter(p)[k]),
    decreases s.len(),
{
    reveal(Seq::filter);
    if s.len() > 0 {
        lemma_filter_elems(s.drop_last(), p);
        let f = s.filter(p);
        let fd = s.drop_last().filter(p);
        assert forall|k: int| 0 <= k < f.len() implies s.contains(#[trigger] f[k]) by {
            if k < fd.len() {
                assert(fd[k] == f[k]);
                assert(s.drop_last().contains(fd[k]));
                let i = choose|i: int| 0 <= i < s.drop_last().len() && s.drop_last()[i] == fd[k];
                assert(s[i] == f[k]);
            } else {
                assert(f[k] == s.last());
                assert(s[s.len() - 1] == s.last());
            }
        }
    }
}

/// Filtering keeps the identifiers distinct.
pub proof fn lemma_filter_keeps_unique<T: WithId>(s: Seq<T>, p: spec_fn(T) -> bool)
    requires
        forall|i: int, j: int| 0 <= i < j < s.len() ==> s[i].sid() != s[j].sid(),
    ensures
        forall|i: int, j: int|
            0 <= i < j < s.filter(p).len() ==> s.filter(p)[i].sid() != s.filter(p)[j].sid(),
    decreases s.len(),
{
    reveal(Seq::filter);
    if s.len() > 0 {
        lemma_filter_keeps_unique(s.drop_last(), p);
        lemma_filter_elems(s.drop_last(), p);
        let f = s.filter(p);
        let fd = s.drop_last().filter(p);
        assert forall|i: int, j: int|
            0 <= i < j < f.len() implies f[i].sid() != f[j].sid() by {
            if j < fd.len() {
                assert(fd[i] == f[i] && fd[j] == f[j]);
            } else if p(s.last()) {
                assert(f[j] == s.last());
                assert(fd[i] == f[i]);
                assert(s.drop_last().contains(fd[i]));
                let w = choose|w: int|
                    0 <= w < s.drop_last().len() && s.drop_last()[w] == fd[i];
                assert(s[w].sid() != s[s.len() - 1].sid());
            }
        }
    }
}

/// Filtering what already satisfies the rule changes nothing.
proof fn lemma_filter_all_kept<T>(s: Seq<T>, p: spec_fn(T) -> bool)
    requires
        forall|k: int| 0 <= k < s.len() ==> p(#[trigger] s[k]),
    ensures
        s.filter(p) == s,
    decreases s.len(),
{
    reveal(Seq::filter);
    if s.len() > 0 {
        assert(p(s[s.len() - 1]));
        lemma_filter_all_kept(s.drop_last(), p);
        assert(s.filter(p) =~= s);
    } else {
        assert(s.filter(p) =~= s);
    }
}

/// Filtering twice by one rule is filtering once.
pub proof fn lemma_filter_idempotent<T>(s: Seq<T>, p: spec_fn(T) -> bool)
    ensures
        s.filter(p).filter(p) == s.filter(p),
{
    lemma_filter_all_kept(s.filter(p), p);
}

impl Collections {
    /// The single integrity-restoring pass: drops every vehicle journey
    /// whose calendar is gone, then every frequency whose vehicle journey
    /// is gone, then every transfer touching a missing stop point. Run
    /// after a transformation, it leaves the model referentially closed
    /// again; defects in mandatory keys are the constructor's to refuse.
    pub fn sanitize(&mut self) -> (r: Result<(), Error>)
        requires
            old(self).wf(),
        ensures
            r is Ok,
            final(self).wf(),
            sanitized_from(*old(self), *final(self)),
    {
        // Vehicle journeys against the calendars.
        let ghost cals = self.calendars.records();
        let mut vjs = self.vehicle_journeys.take();
        let ghost all_vjs = vjs@;
        let mut kept_vjs: Vec<VehicleJourney> = Vec::new();
        let ghost pvj = |v: VehicleJourney| vj_kept(cals, v);
        while vjs.len() > 0
            invariant
                self.calendars.records() == cals,
                self.calendars.wf(),
                all_vjs == all_vjs.subrange(0, all_vjs.len() - vjs@.len()) + vjs@,
                all_vjs.subrange(0, all_vjs.len() - vjs@.len()).filter(pvj) == kept_vjs@,
                vjs@.len() <= all_vjs.len(),
                pvj == (|v: VehicleJourney| vj_kept(cals, v)),
            decreases vjs@.len(),
        {
            let ghost done = all_vjs.subrange(0, all_vjs.len() - vjs@.len());
            let v = vjs.remove(0);
            proof {
                let done2 = all_vjs.subrange(0, all_vjs.len() - vjs@.len());
                assert(done2 =~= done.push(v));
                assert(done2.drop_last() =~= done);
                reveal(Seq::filter);
            }
            let keep = self.calendars.get_idx(&v.service_id).is_some();
            proof {
                assert(keep == pvj(v));
            }
            if keep {
                kept_vjs.push(v);
            }
        }
        proof {
            assert(all_vjs.subrange(0, all_vjs.len() as int) =~= all_vjs);
            lemma_filter_keeps_unique(all_vjs, pvj);
        }
        self.vehicle_journeys = CollectionWithId::from_vec_unique(kept_vjs);

        // Frequencies against the remaining vehicle journeys.
        let ghost new_vjs = self.vehicle_journeys.records();
        let mut freqs = self.frequencies.take();
        let ghost all_freqs = freqs@;
        let mut kept_freqs: Vec<Frequency> = Vec::new();
        let ghost pfr = |f: Frequency| freq_kept(new_vjs, f);
        while freqs.len() > 0
            invariant
                self.vehicle_journeys.records() == new_vjs,
                self.vehicle_journeys.wf(),
                all_freqs == all_freqs.subrange(0, all_freqs.len() - freqs@.len()) + freqs@,
                all_freqs.subrange(0, all_freqs.len() - freqs@.len()).filter(pfr) == kept_freqs@,
                freqs@.len() <= all_freqs.len(),
                pfr == (|f: Frequency| freq_kept(new_vjs, f)),
            decreases freqs@.len(),
        {
            let ghost done = all_freqs.subrange(0, all_freqs.len() - freqs@.len());
            let f = freqs.remove(0);
            proof {
                let done2 = all_freqs.subrange(0, all_freqs.len() - freqs@.len());
                assert(done2 =~= done.push(f));
                assert(done2.drop_last() =~= done);
                reveal(Seq::filter);
            }
            let keep = self.vehicle_journeys.get_idx(&f.vehicle_journey_id).is_some();
            proof {
                assert(keep == pfr(f));
            }
            if keep {
                kept_freqs.push(f);
            }
        }
        proof {
            assert(all_freqs.subrange(0, all_freqs.len() as int) =~= all_freqs);
        }
        self.frequencies = crate::collection::Collection::new(kept_freqs);

        // Transfers against the stop points.
        let ghost sps = self.stop_points.records();
        let mut trs = self.transfers.take();
        let ghost all_trs = trs@;
        let mut kept_trs: Vec<Transfer> = Vec::new();
        let ghost ptr = |t: Transfer| transfer_kept(sps, t);
        while trs.len() > 0
            invariant
                self.stop_points.records() == sps,
                self.stop_points.wf(),
                all_trs == all_trs.subrange(0, all_trs.len() - trs@.len()) + trs@,
                all_trs.subrange(0, all_trs.len() - trs@.len()).filter(ptr) == kept_trs@,
                trs@.len() <= all_trs.len(),
                ptr == (|t: Transfer| transfer_kept(sps, t)),
            decreases trs@.len(),
        {
            let ghost done = all_trs.subrange(0, all_trs.len() - trs@.len());
            let t = trs.remove(0);
            proof {
                let done2 = all_trs.subrange(0, all_trs.len() - trs@.len());
                assert(done2 =~= done.push(t));
                assert(done2.drop_last() =~= done);
                reveal(Seq::filter);
            }
            let keep_from = self.stop_points.get_idx(&t.from_stop_id).is_some();
            let keep_to = self.stop_points.get_idx(&t.to_stop_id).is_some();
            proof {
                assert((keep_from && keep_to) == ptr(t));
            }
            if keep_from && keep_to {
                kept_trs.push(t);
            }
        }
        proof {
            assert(all_trs.subrange(0, all_trs.len() as int) =~= all_trs);
        }
        self.transfers = crate::collection::Collection::new(kept_trs);
        Ok(())
    }
}

/// How one sanitizer pass relates the stores before and after: vehicle
/// journeys filtered against the old calendars, frequencies against the
/// remaining journeys, transfers against the stop points, everything else
/// untouched.
pub open spec fn sanitized_from(old_c: Collections, new_c: Collections) -> bool {
    &&& new_c.vehicle_journeys.records() == old_c.vehicle_journeys.records().filter(
        |v: VehicleJourney| vj_kept(old_c.calendars.records(), v),
    )
    &&& new_c.frequencies.records() == old_c.frequencies.records().filter(
        |f: Frequency| freq_kept(new_c.vehicle_journeys.records(), f),
    )
    &&& new_c.transfers.records() == old_c.transfers.records().filter(
        |t: Transfer| transfer_kept(old_c.stop_points.records(), t),
    )
    &&& new_c.contributors == old_c.contributors
    &&& new_c.datasets == old_c.datasets
    &&& new_c.networks == old_c.networks
    &&& new_c.commercial_modes == old_c.commercial_modes
    &&& new_c.physical_modes == old_c.physical_modes
    &&& new_c.companies == old_c.companies
    &&& new_c.lines == old_c.lines
    &&& new_c.routes == old_c.routes
    &&& new_c.stop_areas == old_c.stop_areas
    &&& new_c.stop_points == old_c.stop_points
    &&& new_c.calendars == old_c.calendars
    &&& new_c.comments == old_c.comments
    &&& new_c.equipments == old_c.equipments
    &&& new_c.geometries == old_c.geometries
    &&& new_c.tickets == old_c.tickets
    &&& new_c.ticket_uses == old_c.ticket_uses
    &&& new_c.ticket_prices == old_c.ticket_prices
    &&& new_c.ticket_use_perimeters == old_c.ticket_use_perimeters
    &&& new_c.ticket_use_restrictions == old_c.ticket_use_restrictions
}

/// The sanitizer is idempotent: a second pass over its own output leaves
/// every store's record sequence as it was.
pub proof fn lemma_sanitize_idempotent(c0: Collections, c1: Collections, c2: Collections)
    requires
        sanitized_from(c0, c1),
        sanitized_from(c1, c2),
    ensures
        c2.vehicle_journeys.records() == c1.vehicle_journeys.records(),
        c2.frequencies.records() == c1.frequencies.records(),
        c2.transfers.records() == c1.transfers.records(),
        c2.contributors == c1.contributors,
        c2.datasets == c1.datasets,
        c2.networks == c1.networks,
        c2.commercial_modes == c1.commercial_modes,
        c2.physical_modes == c1.physical_modes,
        c2.companies == c1.companies,
        c2.lines == c1.lines,
        c2.routes == c1.routes,
        c2.stop_areas == c1.stop_areas,
        c2.stop_points == c1.stop_points,
        c2.calendars == c1.calendars,
        c2.comments == c1.comments,
        c2.equipments == c1.equipments,
        c2.geometries == c1.geometries,
        c2.tickets == c1.tickets,
        c2.ticket_uses == c1.ticket_uses,
        c2.ticket_prices == c1.ticket_prices,
        c2.ticket_use_perimeters == c1.ticket_use_perimeters,
        c2.ticket_use_restrictions == c1.ticket_use_restrictions,
{
    let pvj = |v: VehicleJourney| vj_kept(c1.calendars.records(), v);
    lemma_filter_idempotent(c0.vehicle_journeys.records(), pvj);
    let pfr = |f: Frequency| freq_kept(c2.vehicle_journeys.records(), f);
    lemma_filter_idempotent(c0.frequencies.records(), pfr);
    let ptr = |t: Transfer| transfer_kept(c1.stop_points.records(), t);
    lemma_filter_idempotent(c0.transfers.records(), ptr);
}

/// The in-window rule for one date.
pub open spec fn date_in(start: Date, end: Date, d: Date) -> bool {
    spec_date_le(start, d) && spec_date_le(d, end)
}

/// The calendars after the window was applied but before empty ones were
/// dropped: same identifiers in order, each date-set filtered to the
/// window.
pub open spec fn restricted_mid(olds: Seq<Calendar>, mid: Seq<Calendar>, start: Date, end: Date) -> bool {
    &&& mid.len() == olds.len()
    &&& forall|k: int|
        0 <= k < mid.len() ==> (#[trigger] mid[k]).sid() == olds[k].sid() && mid[k].dates@
            == olds[k].dates@.filter(|d: Date| date_in(start, end, d))
}

/// How a validity-period restriction relates the stores before and after:
/// every calendar's date-set intersected with the window, calendars left
/// empty removed, everything else untouched.
pub open spec fn restricted_from(old_c: Collections, new_c: Collections, start: Date, end: Date) -> bool {
    &&& exists|mid: Seq<Calendar>|
        #![trigger restricted_mid(old_c.calendars.records(), mid, start, end)]
        restricted_mid(old_c.calendars.records(), mid, start, end)
            && new_c.calendars.records() == mid.filter(|cal: Calendar| cal.dates@.len() > 0)
    &&& new_c.contributors == old_c.contributors
    &&& new_c.datasets == old_c.datasets
    &&& new_c.networks == old_c.networks
    &&& new_c.commercial_modes == old_c.commercial_modes
    &&& new_c.physical_modes == old_c.physical_modes
    &&& new_c.companies == old_c.companies
    &&& new_c.lines == old_c.lines
    &&& new_c.routes == old_c.routes
    &&& new_c.vehicle_journeys == old_c.vehicle_journeys
    &&& new_c.stop_areas == old_c.stop_areas
    &&& new_c.stop_points == old_c.stop_points
    &&& new_c.comments == old_c.comments
    &&& new_c.equipments == old_c.equipments
    &&& new_c.geometries == old_c.geometries
    &&& new_c.tickets == old_c.tickets
    &&& new_c.ticket_uses == old_c.ticket_uses
    &&& new_c.transfers == old_c.transfers
    &&& new_c.frequencies == old_c.frequencies
    &&& new_c.ticket_prices == old_c.ticket_prices
    &&& new_c.ticket_use_perimeters == old_c.ticket_use_perimeters
    &&& new_c.ticket_use_restrictions == old_c.ticket_use_restrictions
}

impl Collections {
    /// Intersects every calendar's date-set with the closed window and
    /// removes the calendars left empty; fails exactly when the window
    /// ends before it starts, and the stores are then untouched. Run the
    /// sanitizer afterward to drop the journeys of removed calendars.
    pub fn restrict_period(&mut self, start: Date, end: Date) -> (r: Result<(), Error>)
        requires
            old(self).wf(),
        ensures
            final(self).wf(),
            match r {
                Ok(()) => spec_date_le(start, end) && restricted_from(
                    *old(self),
                    *final(self),
                    start,
                    end,
                ),
                Err(e) => {
                    &&& !spec_date_le(start, end)
                    &&& e is InvalidPeriod
                    &&& *final(self) == *old(self)
                },
            },
    {
        if !start.le(&end) {
            return Err(Error::InvalidPeriod);
        }
        let ghost pd = |d: Date| date_in(start, end, d);
        let mut cals = self.calendars.take();
        let ghost all = cals@;
        let mut mids: Vec<Calendar> = Vec::new();
        while cals.len() > 0
            invariant
                mids@.len() == all.len() - cals@.len(),
                all == all.subrange(0, all.len() - cals@.len()) + cals@,
                cals@.len() <= all.len(),
                forall|k: int|
                    0 <= k < mids@.len() ==> (#[trigger] mids@[k]).sid() == all[k].sid()
                        && mids@[k].dates@ == all[k].dates@.filter(pd),
                pd == (|d: Date| date_in(start, end, d)),
            decreases cals@.len(),
        {
            let ghost before = all.len() - cals@.len();
            let c = cals.remove(0);
            proof {
                assert(all[before] == c);
            }
            let nd = c.dates.len();
            let mut dates: Vec<Date> = Vec::new();
            let mut t: usize = 0;
            while t < nd
                invariant
                    nd == c.dates@.len(),
                    t <= nd,
                    dates@ == c.dates@.subrange(0, t as int).filter(pd),
                    pd == (|d: Date| date_in(start, end, d)),
                decreases nd - t,
            {
                let d = c.dates[t];
                proof {
                    assert(c.dates@.subrange(0, t + 1) =~= c.dates@.subrange(0, t as int).push(d));
                    assert(c.dates@.subrange(0, t + 1).drop_last() =~= c.dates@.subrange(
                        0,
                        t as int,
                    ));
                    reveal(Seq::filter);
                }
                if d.within(&start, &end) {
                    dates.push(d);
                }
                t = t + 1;
            }
            proof {
                assert(c.dates@.subrange(0, nd as int) =~= c.dates@);
            }
            mids.push(Calendar { id: c.id, dates });
        }
        proof {
            assert(all.subrange(0, all.len() as int) =~= all);
        }
        // Drop the calendars whose date-set the window emptied.
        let ghost mid_seq = mids@;
        let ghost pk = |cal: Calendar| cal.dates@.len() > 0;
        let mut kept: Vec<Calendar> = Vec::new();
        while mids.len() > 0
            invariant
                mid_seq == mid_seq.subrange(0, mid_seq.len() - mids@.len()) + mids@,
                mids@.len() <= mid_seq.len(),
                mid_seq.subrange(0, mid_seq.len() - mids@.len()).filter(pk) == kept@,
                pk == (|cal: Calendar| cal.dates@.len() > 0),
            decreases mids@.len(),
        {
            let ghost done = mid_seq.subrange(0, mid_seq.len() - mids@.len());
            let c = mids.remove(0);
            proof {
                let done2 = mid_seq.subrange(0, mid_seq.len() - mids@.len());
                assert(done2 =~= done.push(c));
                assert(done2.drop_last() =~= done);
                reveal(Seq::filter);
            }
            if c.dates.len() > 0 {
                kept.push(c);
            }
        }
        proof {
            assert(mid_seq.subrange(0, mid_seq.len() as int) =~= mid_seq);
            assert forall|i: int, j: int|
                0 <= i < j < mid_seq.len() implies mid_seq[i].sid() != mid_seq[j].sid() by {
                assert(all[i].sid() != all[j].sid());
            }
            lemma_filter_keeps_unique(mid_seq, pk);
        }
        self.calendars = CollectionWithId::from_vec_unique(kept);
        proof {
            assert(restricted_mid(all, mid_seq, start, end));
        }
        Ok(())
    }
}

/// After a restriction, every remaining calendar is nonempty and every
/// remaining date lies inside the window.
pub proof fn lemma_restriction_bounds(old_c: Collections, new_c: Collections, start: Date, end: Date)
    requires
        restricted_from(old_c, new_c, start, end),
    ensures
        forall|k: int|
            0 <= k < new_c.calendars.records().len() ==> {
                let cal = #[trigger] new_c.calendars.records()[k];
                cal.dates@.len() > 0 && forall|t: int|
                    0 <= t < cal.dates@.len() ==> date_in(start, end, #[trigger] cal.dates@[t])
            },
{
    let olds = old_c.calendars.records();
    let mid = choose|mid: Seq<Calendar>|
        #![trigger restricted_mid(olds, mid, start, end)]
        restricted_mid(olds, mid, start, end) && new_c.calendars.records() == mid.filter(
            |cal: Calendar| cal.dates@.len() > 0,
        );
    let pk = |cal: Calendar| cal.dates@.len() > 0;
    lemma_filter_elems(mid, pk);
    assert forall|k: int|
        0 <= k < new_c.calendars.records().len() implies {
        let cal = #[trigger] new_c.calendars.records()[k];
        cal.dates@.len() > 0 && forall|t: int|
            0 <= t < cal.dates@.len() ==> date_in(start, end, #[trigger] cal.dates@[t])
    } by {
        let cal = new_c.calendars.records()[k];
        assert(pk(mid.filter(pk)[k]));
        assert(mid.contains(cal));
        let w = choose|w: int| 0 <= w < mid.len() && mid[w] == cal;
        assert(cal.dates@ == olds[w].dates@.filter(|d: Date| date_in(start, end, d)));
        assert forall|t: int|
            0 <= t < cal.dates@.len() implies date_in(start, end, #[trigger] cal.dates@[t]) by {
            assert((|d: Date| date_in(start, end, d))(cal.dates@[t]));
        }
    }
}

/// After a restriction followed by one sanitizer pass, every remaining
/// vehicle journey references a remaining calendar.
pub proof fn lemma_restricted_journeys_reference_calendars(
    c0: Collections,
    c1: Collections,
    c2: Collections,
    start: Date,
    end: Date,
)
    requires
        restricted_from(c0, c1, start, end),
        sanitized_from(c1, c2),
    ensures
        forall|k: int|
            0 <= k < c2.vehicle_journeys.records().len() ==> has_record_with_id(
                c2.calendars.records(),
                (#[trigger] c2.vehicle_journeys.records()[k]).service_id@,
            ),
{
    let pvj = |v: VehicleJourney| vj_kept(c1.calendars.records(), v);
    assert forall|k: int|
        0 <= k < c2.vehicle_journeys.records().len() implies has_record_with_id(
        c2.calendars.records(),
        (#[trigger] c2.vehicle_journeys.records()[k]).service_id@,
    ) by {
        assert(pvj(c1.vehicle_journeys.records().filter(pvj)[k]));
    }
}

/// Whether every calendar of the sequence has an empty date-set.
pub open spec fn all_calendars_empty(cals: Seq<Calendar>) -> bool {
    forall|k: int| 0 <= k < cals.len() ==> (#[trigger] cals[k]).dates@.len() == 0
}

/// Whether the period is tight around the calendars' dates: both bounds
/// are dates of some calendar, and every date lies between them.
pub open spec fn is_validity_period(cals: Seq<Calendar>, vp: ValidityPeriod) -> bool {
    &&& exists|k: int, t: int|
        #![trigger cals[k].dates@[t]]
        0 <= k < cals.len() && 0 <= t < cals[k].dates@.len() && cals[k].dates@[t] == vp.start_date
    &&& exists|k: int, t: int|
        #![trigger cals[k].dates@[t]]
        0 <= k < cals.len() && 0 <= t < cals[k].dates@.len() && cals[k].dates@[t] == vp.end_date
    &&& forall|k: int, t: int|
        #![trigger cals[k].dates@[t]]
        0 <= k < cals.len() && 0 <= t < cals[k].dates@.len() ==> spec_date_le(
            vp.start_date,
            cals[k].dates@[t],
        ) && spec_date_le(cals[k].dates@[t], vp.end_date)
}

/// The tight validity period spanned by all dates of all calendars, or
/// nothing when no calendar has a date.
pub fn get_validity_period(calendars: &CollectionWithId<Calendar>) -> (r: Option<ValidityPeriod>)
    ensures
        match r {
            Some(vp) => is_validity_period(calendars.records(), vp),
            None => all_calendars_empty(calendars.records()),
        },
{
    let cals = calendars.values();
    let n = cals.len();
    let mut best: Option<ValidityPeriod> = None;
    let mut k: usize = 0;
    while k < n
        invariant
            n == calendars.records().len(),
            k <= n,
            cals@ == calendars.records(),
            match best {
                Some(vp) => is_validity_period(calendars.records().subrange(0, k as int), vp),
                None => all_calendars_empty(calendars.records().subrange(0, k as int)),
            },
        decreases n - k,
    {
        let ghost prefix = calendars.records().subrange(0, k as int);
        let ghost prefix2 = calendars.records().subrange(0, k as int + 1);
        let cal = &cals[k];
        let nd = cal.dates.len();
        let mut t: usize = 0;
        while t < nd
            invariant
                n == calendars.records().len(),
                k < n,
                t <= nd,
                cals@ == calendars.records(),
                *cal == calendars.records()[k as int],
                nd == cal.dates@.len(),
                prefix == calendars.records().subrange(0, k as int),
                match best {
                    Some(vp) => {
                        &&& (exists|kk: int, tt: int|
                            #![trigger prefix[kk].dates@[tt]]
                            0 <= kk < prefix.len() && 0 <= tt < prefix[kk].dates@.len()
                                && prefix[kk].dates@[tt] == vp.start_date) || (exists|tt: int|
                            0 <= tt < t && cal.dates@[tt] == vp.start_date)
                        &&& (exists|kk: int, tt: int|
                            #![trigger prefix[kk].dates@[tt]]
                            0 <= kk < prefix.len() && 0 <= tt < prefix[kk].dates@.len()
                                && prefix[kk].dates@[tt] == vp.end_date) || (exists|tt: int|
                            0 <= tt < t && cal.dates@[tt] == vp.end_date)
                        &&& forall|kk: int, tt: int|
                            #![trigger prefix[kk].dates@[tt]]
                            0 <= kk < prefix.len() && 0 <= tt < prefix[kk].dates@.len()
                                ==> spec_date_le(vp.start_date, prefix[kk].dates@[tt])
                                && spec_date_le(prefix[kk].dates@[tt], vp.end_date)
                        &&& forall|tt: int|
                            0 <= tt < t ==> spec_date_le(vp.start_date, #[trigger] cal.dates@[tt])
                                && spec_date_le(cal.dates@[tt], vp.end_date)
                    },
                    None => all_calendars_empty(prefix) && t == 0 && nd == 0 || all_calendars_empty(
                        prefix,
                    ) && t == 0,
                },
            decreases nd - t,
        {
            let d = cal.dates[t];
            best = match best {
                None => Some(ValidityPeriod { start_date: d, end_date: d }),
                Some(vp) => {
                    let s = if d.le(&vp.start_date) {
                        d
                    } else {
                        vp.start_date
                    };
                    let e = if vp.end_date.le(&d) {
                        d
                    } else {
                        vp.end_date
                    };
                    Some(ValidityPeriod { start_date: s, end_date: e })
                },
            };
            t = t + 1;
        }
        proof {
            assert(prefix2.drop_last() =~= prefix);
            assert(prefix2[k as int] == calendars.records()[k as int]);
            assert forall|kk: int|
                0 <= kk < prefix2.len() && kk != k implies prefix2[kk] == prefix[kk] by {}
        }
        k = k + 1;
    }
    proof {
        assert(calendars.records().subrange(0, n as int) =~= calendars.records());
    }
    best
}

/// Stamps the validity period spanned by the calendars onto every
/// dataset; when no calendar has a date, the datasets are untouched.
pub fn set_dataset_validity_period(
    datasets: &mut CollectionWithId<Dataset>,
    calendars: &CollectionWithId<Calendar>,
) -> (r: Result<(), Error>)
    requires
        old(datasets).wf(),
    ensures
        r is Ok,
        final(datasets).wf(),
        all_calendars_empty(calendars.records()) ==> *final(datasets) == *old(datasets),
        !all_calendars_empty(calendars.records()) ==> exists|vp: ValidityPeriod|
            #![trigger is_validity_period(calendars.records(), vp)]
            is_validity_period(calendars.records(), vp) && datasets_stamped(
                old(datasets).records(),
                final(datasets).records(),
                vp,
            ),
{
    let vp = match get_validity_period(calendars) {
        Some(vp) => vp,
        None => {
            return Ok(());
        },
    };
    proof {
        // A tight period implies some calendar holds a date.
        let (k, t) = choose|k: int, t: int|
            #![trigger calendars.records()[k].dates@[t]]
            0 <= k < calendars.records().len() && 0 <= t < calendars.records()[k].dates@.len()
                && calendars.records()[k].dates@[t] == vp.start_date;
        assert(!all_calendars_empty(calendars.records()));
    }
    let mut olds = datasets.take();
    let ghost all = olds@;
    let mut news: Vec<Dataset> = Vec::new();
    while olds.len() > 0
        invariant
            news@.len() == all.len() - olds@.len(),
            all == all.subrange(0, all.len() - olds@.len()) + olds@,
            olds@.len() <= all.len(),
            forall|i: int, j: int| 0 <= i < j < all.len() ==> all[i].sid() != all[j].sid(),
            forall|k: int|
                0 <= k < news@.len() ==> {
                    let d = #[trigger] news@[k];
                    &&& d.sid() == all[k].sid()
                    &&& d.contributor_id == all[k].contributor_id
                    &&& d.start_date == vp.start_date
                    &&& d.end_date == vp.end_date
                },
        decreases olds@.len(),
    {
        let ghost before = all.len() - olds@.len();
        let d = olds.remove(0);
        proof {
            assert(all[before] == d);
        }
        news.push(
            Dataset {
                id: d.id,
                contributor_id: d.contributor_id,
                start_date: vp.start_date,
                end_date: vp.end_date,
            },
        );
    }
    proof {
        assert(all.subrange(0, all.len() as int) =~= all);
        assert forall|i: int, j: int|
            0 <= i < j < news@.len() implies news@[i].sid() != news@[j].sid() by {
            assert(all[i].sid() != all[j].sid());
        }
    }
    *datasets = CollectionWithId::from_vec_unique(news);
    proof {
        assert(is_validity_period(calendars.records(), vp));
        assert(datasets_stamped(all, final(datasets).records(), vp));
    }
    Ok(())
}

/// How stamping a validity period relates the datasets before and after:
/// same records in order, the period fields replaced.
pub open spec fn datasets_stamped(olds: Seq<Dataset>, news: Seq<Dataset>, vp: ValidityPeriod) -> bool {
    &&& news.len() == olds.len()
    &&& forall|k: int|
        0 <= k < news.len() ==> {
            let d = #[trigger] news[k];
            &&& d.sid() == olds[k].sid()
            &&& d.contributor_id == olds[k].contributor_id
            &&& d.start_date == vp.start_date
            &&& d.end_date == vp.end_date
        }
}

} // verus!
