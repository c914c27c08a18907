//! Whether tables that come from outside keep the rules.
use vstd::prelude::*;

use crate::text::same;
use crate::workbench::clock::{end_of, end_or_forever, intervals_overlap, overlaps};
use crate::workbench::db::{
    batches_ok, batchrow_views, candidates_ok, candrow_views, eventrow_views, events_ok,
    evidence_ok, evidencerow_views, has_batch, has_event, has_job, has_obs, has_station, is_kind,
    is_shape, is_state, jobrow_views, jobs_ok, knows_batch, knows_event, knows_job, knows_station,
    linkrow_views, links_ok, observations_ok, obsrow_views, segments_ok, stationrow_views,
    stations_ok, xcorrrow_views, xcorrs_ok, BatchRow, CandRow, Db, EventRow, EvidenceRow, JobRow,
    LinkRow, ObsRow, StationRow, XcorrRow,
};
use crate::workbench::models::{clocksegment_views, ClockSegment};

verus! {

fn knows_obs(rows: &Vec<ObsRow>, k: i64) -> (r: bool)
    ensures
        r == has_obs(obsrow_views(rows@), k as int),
{
    let ghost views = obsrow_views(rows@);
    let mut i: usize = 0;
    while i < rows.len()
        invariant
            i <= rows@.len(),
            views == obsrow_views(rows@),
            forall|j: int| 0 <= j < i ==> (#[trigger] views[j]).obs_id != k as int,
        decreases rows@.len() - i,
    {
        assert(views[i as int] == rows@[i as int]@);
        if rows[i].obs_id == k {
            return true;
        }
        i += 1;
    }
    false
}

fn stations_hold(rows: &Vec<StationRow>) -> (r: bool)
    ensures
        r == stations_ok(stationrow_views(rows@)),
{
    let ghost all = stationrow_views(rows@);
    let mut i: usize = 0;
    while i < rows.len()
        invariant
            i <= rows@.len(),
            all == stationrow_views(rows@),
            forall|a: int, b: int|
                0 <= a < b < i ==>
                    (#[trigger] all[a]).station.station_id != (
                        #[trigger] all[b]).station.station_id,
            forall|a: int|
                0 <= a < i ==> (#[trigger] all[a]).station.x.finite() && all[a].station.y.finite(),
        decreases rows@.len() - i,
    {
        let x = &rows[i];
        assert(all[i as int] == rows@[i as int]@);
        if !(x.station.x.is_finite() && x.station.y.is_finite()) {
            return false;
        }
        let mut k: usize = 0;
        while k < i
            invariant
                k <= i < rows@.len(),
                all == stationrow_views(rows@),
                x == &rows@[i as int],
                all[i as int] == rows@[i as int]@,
                forall|a: int|
                    0 <= a < k ==>
                        (#[trigger] all[a]).station.station_id != all[i as int].station.station_id,
            decreases i - k,
        {
            let y = &rows[k];
            assert(all[k as int] == rows@[k as int]@);
            if same(y.station.station_id.as_str(), x.station.station_id.as_str()) {
                return false;
            }
            k += 1;
        }
        i += 1;
    }
    true
}

fn segments_hold(rows: &Vec<ClockSegment>, last: i64, stations: &Vec<StationRow>) -> (r: bool)
    ensures
        r == segments_ok(clocksegment_views(rows@), last as int, stationrow_views(stations@)),
{
    let ghost all = clocksegment_views(rows@);
    if !(0 <= last) {
        return false;
    }
    let mut i: usize = 0;
    while i < rows.len()
        invariant
            i <= rows@.len(),
            all == clocksegment_views(rows@),
            0 <= last,
            forall|a: int, b: int|
                0 <= a < b < i ==> (#[trigger] all[a]).seg_id < (#[trigger] all[b]).seg_id
                    && (all[a].station_id == all[b].station_id ==>
                        !intervals_overlap(all[a].start_s, end_of(all[a].end_s), all[b].start_s,
                            end_of(all[b].end_s))),
            forall|a: int|
                0 <= a < i ==> {
                    &&& 1 <= (#[trigger] all[a]).seg_id <= last
                    &&& all[a].start_s.finite()
                    &&& all[a].end_s matches Some(e) ==> e.finite() && all[a].start_s.below(e)
                    &&& has_station(stationrow_views(stations@), all[a].station_id)
                },
        decreases rows@.len() - i,
    {
        let x = &rows[i];
        assert(all[i as int] == rows@[i as int]@);
        if !(1 <= x.seg_id && x.seg_id <= last && x.start_s.is_finite() && match x.end_s {
            Some(e) => e.is_finite() && x.start_s.is_below(e),
            None => true,
        } && knows_station(stations, x.station_id.as_str())) {
            return false;
        }
        let mut k: usize = 0;
        while k < i
            invariant
                k <= i < rows@.len(),
                all == clocksegment_views(rows@),
                x == &rows@[i as int],
                all[i as int] == rows@[i as int]@,
                forall|a: int|
                    0 <= a < k ==> (#[trigger] all[a]).seg_id < all[i as int].seg_id
                        && (all[a].station_id == all[i as int].station_id ==>
                            !intervals_overlap(all[a].start_s, end_of(all[a].end_s),
                                all[i as int].start_s, end_of(all[i as int].end_s))),
            decreases i - k,
        {
            let y = &rows[k];
            assert(all[k as int] == rows@[k as int]@);
            if !(y.seg_id < x.seg_id
                && !(same(y.station_id.as_str(), x.station_id.as_str())
                    && overlaps(y.start_s, end_or_forever(y.end_s), x.start_s,
                        end_or_forever(x.end_s)))) {
                return false;
            }
            k += 1;
        }
        i += 1;
    }
    true
}

fn batches_hold(rows: &Vec<BatchRow>) -> (r: bool)
    ensures
        r == batches_ok(batchrow_views(rows@)),
{
    let ghost all = batchrow_views(rows@);
    let mut i: usize = 0;
    while i < rows.len()
        invariant
            i <= rows@.len(),
            all == batchrow_views(rows@),
            forall|a: int, b: int|
                0 <= a < b < i ==>
                    (#[trigger] all[a]).fingerprint != (#[trigger] all[b]).fingerprint,
        decreases rows@.len() - i,
    {
        let x = &rows[i];
        assert(all[i as int] == rows@[i as int]@);
        let mut k: usize = 0;
        while k < i
            invariant
                k <= i < rows@.len(),
                all == batchrow_views(rows@),
                x == &rows@[i as int],
                all[i as int] == rows@[i as int]@,
                forall|a: int|
                    0 <= a < k ==> (#[trigger] all[a]).fingerprint != all[i as int].fingerprint,
            decreases i - k,
        {
            let y = &rows[k];
            assert(all[k as int] == rows@[k as int]@);
            if same(y.fingerprint.as_str(), x.fingerprint.as_str()) {
                return false;
            }
            k += 1;
        }
        i += 1;
    }
    true
}

fn observations_hold(
    rows: &Vec<ObsRow>,
    last: i64,
    batches: &Vec<BatchRow>,
    stations: &Vec<StationRow>,
) -> (r: bool)
    ensures
        r == observations_ok(
            obsrow_views(rows@),
            last as int,
            batchrow_views(batches@),
            stationrow_views(stations@),
        ),
{
    let ghost all = obsrow_views(rows@);
    if !(0 <= last) {
        return false;
    }
    let mut i: usize = 0;
    while i < rows.len()
        invariant
            i <= rows@.len(),
            all == obsrow_views(rows@),
            0 <= last,
            forall|a: int, b: int|
                0 <= a < b < i ==> (#[trigger] all[a]).obs_id < (#[trigger] all[b]).obs_id,
            forall|a: int|
                0 <= a < i ==> {
                    &&& 1 <= (#[trigger] all[a]).obs_id <= last
                    &&& has_batch(batchrow_views(batches@), all[a].batch_fp)
                    &&& has_station(stationrow_views(stations@), all[a].station_id)
                    &&& all[a].local_onset_s.finite()
                },
        decreases rows@.len() - i,
    {
        let x = &rows[i];
        assert(all[i as int] == rows@[i as int]@);
        if !(1 <= x.obs_id
            && x.obs_id <= last
            && knows_batch(batches, x.batch_fp.as_str())
            && knows_station(stations, x.station_id.as_str())
            && x.local_onset_s.is_finite()) {
            return false;
        }
        let mut k: usize = 0;
        while k < i
            invariant
                k <= i < rows@.len(),
                all == obsrow_views(rows@),
                x == &rows@[i as int],
                all[i as int] == rows@[i as int]@,
                forall|a: int|
                    0 <= a < k ==> (#[trigger] all[a]).obs_id < all[i as int].obs_id,
            decreases i - k,
        {
            let y = &rows[k];
            assert(all[k as int] == rows@[k as int]@);
            if !(y.obs_id < x.obs_id) {
                return false;
            }
            k += 1;
        }
        i += 1;
    }
    true
}

fn xcorrs_hold(rows: &Vec<XcorrRow>, last: i64, obs: &Vec<ObsRow>) -> (r: bool)
    ensures
        r == xcorrs_ok(xcorrrow_views(rows@), last as int, obsrow_views(obs@)),
{
    let ghost all = xcorrrow_views(rows@);
    if !(0 <= last) {
        return false;
    }
    let mut i: usize = 0;
    while i < rows.len()
        invariant
            i <= rows@.len(),
            all == xcorrrow_views(rows@),
            0 <= last,
            forall|a: int, b: int|
                0 <= a < b < i ==> (#[trigger] all[a]).xc_id < (#[trigger] all[b]).xc_id,
            forall|a: int|
                0 <= a < i ==> {
                    &&& 1 <= (#[trigger] all[a]).xc_id <= last
                    &&& all[a].obs_a != all[a].obs_b
                    &&& has_obs(obsrow_views(obs@), all[a].obs_a)
                    &&& has_obs(obsrow_views(obs@), all[a].obs_b)
                },
        decreases rows@.len() - i,
    {
        let x = &rows[i];
        assert(all[i as int] == rows@[i as int]@);
        if !(1 <= x.xc_id
            && x.xc_id <= last
            && x.obs_a != x.obs_b
            && knows_obs(obs, x.obs_a)
            && knows_obs(obs, x.obs_b)) {
            return false;
        }
        let mut k: usize = 0;
        while k < i
            invariant
                k <= i < rows@.len(),
                all == xcorrrow_views(rows@),
                x == &rows@[i as int],
                all[i as int] == rows@[i as int]@,
                forall|a: int|
                    0 <= a < k ==> (#[trigger] all[a]).xc_id < all[i as int].xc_id,
            decreases i - k,
        {
            let y = &rows[k];
            assert(all[k as int] == rows@[k as int]@);
            if !(y.xc_id < x.xc_id) {
                return false;
            }
            k += 1;
        }
        i += 1;
    }
    true
}

fn events_hold(rows: &Vec<EventRow>) -> (r: bool)
    ensures
        r == events_ok(eventrow_views(rows@)),
{
    let ghost all = eventrow_views(rows@);
    let mut i: usize = 0;
    while i < rows.len()
        invariant
            i <= rows@.len(),
            all == eventrow_views(rows@),
            forall|a: int, b: int|
                0 <= a < b < i ==>
                    (#[trigger] all[a]).header.event_id != (#[trigger] all[b]).header.event_id,
            forall|a: int|
                0 <= a < i ==> (#[trigger] all[a]).header.t_start.finite()
                    && all[a].header.t_end.finite()
                    && all[a].header.t_start.below(all[a].header.t_end),
        decreases rows@.len() - i,
    {
        let x = &rows[i];
        assert(all[i as int] == rows@[i as int]@);
        if !(x.header.t_start.is_finite()
            && x.header.t_end.is_finite()
            && x.header.t_start.is_below(x.header.t_end)) {
            return false;
        }
        let mut k: usize = 0;
        while k < i
            invariant
                k <= i < rows@.len(),
                all == eventrow_views(rows@),
                x == &rows@[i as int],
                all[i as int] == rows@[i as int]@,
                forall|a: int|
                    0 <= a < k ==>
                        (#[trigger] all[a]).header.event_id != all[i as int].header.event_id,
            decreases i - k,
        {
            let y = &rows[k];
            assert(all[k as int] == rows@[k as int]@);
            if same(y.header.event_id.as_str(), x.header.event_id.as_str()) {
                return false;
            }
            k += 1;
        }
        i += 1;
    }
    true
}

fn links_hold(rows: &Vec<LinkRow>, events: &Vec<EventRow>, obs: &Vec<ObsRow>) -> (r: bool)
    ensures
        r == links_ok(linkrow_views(rows@), eventrow_views(events@), obsrow_views(obs@)),
{
    let ghost all = linkrow_views(rows@);
    let mut i: usize = 0;
    while i < rows.len()
        invariant
            i <= rows@.len(),
            all == linkrow_views(rows@),
            forall|a: int, b: int|
                0 <= a < b < i ==>
                    !((#[trigger] all[a]).event_id == (#[trigger] all[b]).event_id
                        && all[a].obs_id == all[b].obs_id),
            forall|a: int|
                0 <= a < i ==> has_event(eventrow_views(events@), (#[trigger] all[a]).event_id)
                    && has_obs(obsrow_views(obs@), all[a].obs_id),
        decreases rows@.len() - i,
    {
        let x = &rows[i];
        assert(all[i as int] == rows@[i as int]@);
        if !(knows_event(events, x.event_id.as_str()) && knows_obs(obs, x.obs_id)) {
            return false;
        }
        let mut k: usize = 0;
        while k < i
            invariant
                k <= i < rows@.len(),
                all == linkrow_views(rows@),
                x == &rows@[i as int],
                all[i as int] == rows@[i as int]@,
                forall|a: int|
                    0 <= a < k ==>
                        !((#[trigger] all[a]).event_id == all[i as int].event_id
                            && all[a].obs_id == all[i as int].obs_id),
            decreases i - k,
        {
            let y = &rows[k];
            assert(all[k as int] == rows@[k as int]@);
            if !(!(y.obs_id == x.obs_id && same(y.event_id.as_str(), x.event_id.as_str()))) {
                return false;
            }
            k += 1;
        }
        i += 1;
    }
    true
}

fn evidence_holds(rows: &Vec<EvidenceRow>, events: &Vec<EventRow>) -> (r: bool)
    ensures
        r == evidence_ok(evidencerow_views(rows@), eventrow_views(events@)),
{
    let ghost all = evidencerow_views(rows@);
    let mut i: usize = 0;
    while i < rows.len()
        invariant
            i <= rows@.len(),
            all == evidencerow_views(rows@),
            forall|a: int, b: int|
                0 <= a < b < i ==> (#[trigger] all[a]).content_id != (#[trigger] all[b]).content_id,
            forall|a: int|
                0 <= a < i ==> has_event(eventrow_views(events@), (#[trigger] all[a]).event_id)
                    && is_kind(all[a].kind),
        decreases rows@.len() - i,
    {
        let x = &rows[i];
        assert(all[i as int] == rows@[i as int]@);
        if !(knows_event(events, x.event_id.as_str())
            && (same(x.kind.as_str(), "exclude_peak") || same(x.kind.as_str(), "lock_clock")
                || same(x.kind.as_str(), "keep_pair"))) {
            return false;
        }
        let mut k: usize = 0;
        while k < i
            invariant
                k <= i < rows@.len(),
                all == evidencerow_views(rows@),
                x == &rows@[i as int],
                all[i as int] == rows@[i as int]@,
                forall|a: int|
                    0 <= a < k ==> (#[trigger] all[a]).content_id != all[i as int].content_id,
            decreases i - k,
        {
            let y = &rows[k];
            assert(all[k as int] == rows@[k as int]@);
            if same(y.content_id.as_str(), x.content_id.as_str()) {
                return false;
            }
            k += 1;
        }
        i += 1;
    }
    true
}

fn jobs_hold(rows: &Vec<JobRow>, events: &Vec<EventRow>) -> (r: bool)
    ensures
        r == jobs_ok(jobrow_views(rows@), eventrow_views(events@)),
{
    let ghost all = jobrow_views(rows@);
    let mut i: usize = 0;
    while i < rows.len()
        invariant
            i <= rows@.len(),
            all == jobrow_views(rows@),
            forall|a: int, b: int|
                0 <= a < b < i ==>
                    (#[trigger] all[a]).fingerprint != (#[trigger] all[b]).fingerprint,
            forall|a: int|
                0 <= a < i ==> has_event(eventrow_views(events@), (#[trigger] all[a]).event_id)
                    && is_state(all[a].state),
        decreases rows@.len() - i,
    {
        let x = &rows[i];
        assert(all[i as int] == rows@[i as int]@);
        if !(knows_event(events, x.event_id.as_str())
            && (same(x.state.as_str(), "created") || same(x.state.as_str(), "running")
                || same(x.state.as_str(), "done") || same(x.state.as_str(), "failed"))) {
            return false;
        }
        let mut k: usize = 0;
        while k < i
            invariant
                k <= i < rows@.len(),
                all == jobrow_views(rows@),
                x == &rows@[i as int],
                all[i as int] == rows@[i as int]@,
                forall|a: int|
                    0 <= a < k ==> (#[trigger] all[a]).fingerprint != all[i as int].fingerprint,
            decreases i - k,
        {
            let y = &rows[k];
            assert(all[k as int] == rows@[k as int]@);
            if same(y.fingerprint.as_str(), x.fingerprint.as_str()) {
                return false;
            }
            k += 1;
        }
        i += 1;
    }
    true
}

fn candidates_hold(rows: &Vec<CandRow>, last: i64, jobs: &Vec<JobRow>) -> (r: bool)
    ensures
        r == candidates_ok(candrow_views(rows@), last as int, jobrow_views(jobs@)),
{
    let ghost all = candrow_views(rows@);
    if !(0 <= last) {
        return false;
    }
    let mut i: usize = 0;
    while i < rows.len()
        invariant
            i <= rows@.len(),
            all == candrow_views(rows@),
            0 <= last,
            forall|a: int, b: int|
                0 <= a < b < i ==> (#[trigger] all[a]).cand_id < (#[trigger] all[b]).cand_id
                    && !(all[a].job_fp == all[b].job_fp
                        && all[a].rank_in_job == all[b].rank_in_job),
            forall|a: int|
                0 <= a < i ==> 1 <= (#[trigger] all[a]).cand_id <= last
                    && has_job(jobrow_views(jobs@), all[a].job_fp)
                    && is_shape(all[a].kind, all[a].status)
                    && !(all[a].region is Array),
        decreases rows@.len() - i,
    {
        let x = &rows[i];
        assert(all[i as int] == rows@[i as int]@);
        if !(1 <= x.cand_id && x.cand_id <= last && knows_job(jobs, x.job_fp.as_str()) && (same(
            x.kind.as_str(),
            "point",
        ) || same(x.kind.as_str(), "region")) && (same(x.status.as_str(), "determined") || same(
            x.status.as_str(),
            "underdetermined",
        )) && x.region.as_items().is_none()) {
            return false;
        }
        let mut k: usize = 0;
        while k < i
            invariant
                k <= i < rows@.len(),
                all == candrow_views(rows@),
                x == &rows@[i as int],
                all[i as int] == rows@[i as int]@,
                forall|a: int|
                    0 <= a < k ==> (#[trigger] all[a]).cand_id < all[i as int].cand_id
                        && !(all[a].job_fp == all[i as int].job_fp
                            && all[a].rank_in_job == all[i as int].rank_in_job),
            decreases i - k,
        {
            let y = &rows[k];
            assert(all[k as int] == rows@[k as int]@);
            if !(y.cand_id < x.cand_id
                && !(y.rank_in_job == x.rank_in_job
                    && same(y.job_fp.as_str(), x.job_fp.as_str()))) {
                return false;
            }
            k += 1;
        }
        i += 1;
    }
    true
}

impl Db {
    /// Whether the tables keep the rules: to be asked of tables that were read
    /// from outside before they are worked on.
    pub fn is_valid(&self) -> (r: bool)
        ensures
            r == self@.valid(),
    {
        stations_hold(&self.stations) && segments_hold(
            &self.segments,
            self.last_segment,
            &self.stations,
        ) && batches_hold(&self.batches) && observations_hold(
            &self.observations,
            self.last_obs,
            &self.batches,
            &self.stations,
        ) && xcorrs_hold(&self.xcorrs, self.last_xcorr, &self.observations) && events_hold(
            &self.events,
        ) && links_hold(&self.links, &self.events, &self.observations) && evidence_holds(
            &self.evidence,
            &self.events,
        ) && jobs_hold(&self.jobs, &self.events) && candidates_hold(
            &self.candidates,
            self.last_candidate,
            &self.jobs,
        )
    }
}

} // verus!
