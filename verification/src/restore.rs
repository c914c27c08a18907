//! Whether tables that come from outside keep the rules.
use vstd::prelude::*;

use crate::model::{
    candidate_views, evidencerow_views, observationrow_views, station_views, Candidate,
    ClockSegment, EvidenceRow, ObservationRow, Station,
};
use crate::store::{
    batches_ok, batchrow_views, candidates_ok, eventrow_views, events_ok, evidence_ok, is_status,
    jobrecord_views, jobs_ok, knows_batch, knows_event, knows_job, knows_observation, knows_segment,
    knows_station, lagrecord_views, lags_ok, observations_ok, segment_views, segments_ok,
    stations_ok, BatchRow, EventRow, JobRecord, LagRecord, Store,
};
use crate::text::same;

verus! {

fn has_station(rows: &Vec<Station>, k: &str) -> (r: bool)
    ensures
        r == knows_station(station_views(rows@), k@),
{
    let ghost views = station_views(rows@);
    let mut i: usize = 0;
    while i < rows.len()
        invariant
            i <= rows@.len(),
            views == station_views(rows@),
            forall|j: int| 0 <= j < i ==> (#[trigger] views[j]).station_id != k@,
        decreases rows@.len() - i,
    {
        assert(views[i as int] == rows@[i as int]@);
        if same(rows[i].station_id.as_str(), k) {
            return true;
        }
        i += 1;
    }
    false
}

fn has_event(rows: &Vec<EventRow>, k: &str) -> (r: bool)
    ensures
        r == knows_event(eventrow_views(rows@), k@),
{
    let ghost views = eventrow_views(rows@);
    let mut i: usize = 0;
    while i < rows.len()
        invariant
            i <= rows@.len(),
            views == eventrow_views(rows@),
            forall|j: int| 0 <= j < i ==> (#[trigger] views[j]).event_id != k@,
        decreases rows@.len() - i,
    {
        assert(views[i as int] == rows@[i as int]@);
        if same(rows[i].event_id.as_str(), k) {
            return true;
        }
        i += 1;
    }
    false
}

fn has_batch(rows: &Vec<BatchRow>, k: &str) -> (r: bool)
    ensures
        r == knows_batch(batchrow_views(rows@), k@),
{
    let ghost views = batchrow_views(rows@);
    let mut i: usize = 0;
    while i < rows.len()
        invariant
            i <= rows@.len(),
            views == batchrow_views(rows@),
            forall|j: int| 0 <= j < i ==> (#[trigger] views[j]).batch_uid != k@,
        decreases rows@.len() - i,
    {
        assert(views[i as int] == rows@[i as int]@);
        if same(rows[i].batch_uid.as_str(), k) {
            return true;
        }
        i += 1;
    }
    false
}

fn has_observation(rows: &Vec<ObservationRow>, k: &str) -> (r: bool)
    ensures
        r == knows_observation(observationrow_views(rows@), k@),
{
    let ghost views = observationrow_views(rows@);
    let mut i: usize = 0;
    while i < rows.len()
        invariant
            i <= rows@.len(),
            views == observationrow_views(rows@),
            forall|j: int| 0 <= j < i ==> (#[trigger] views[j]).obs_uid != k@,
        decreases rows@.len() - i,
    {
        assert(views[i as int] == rows@[i as int]@);
        if same(rows[i].obs_uid.as_str(), k) {
            return true;
        }
        i += 1;
    }
    false
}

fn has_job(rows: &Vec<JobRecord>, k: i64) -> (r: bool)
    ensures
        r == knows_job(jobrecord_views(rows@), k as int),
{
    let ghost views = jobrecord_views(rows@);
    let mut i: usize = 0;
    while i < rows.len()
        invariant
            i <= rows@.len(),
            views == jobrecord_views(rows@),
            forall|j: int| 0 <= j < i ==> (#[trigger] views[j]).job.job_id != k as int,
        decreases rows@.len() - i,
    {
        assert(views[i as int] == rows@[i as int]@);
        if rows[i].job.job_id == k {
            return true;
        }
        i += 1;
    }
    false
}

fn has_segment(rows: &Vec<(ClockSegment, i64)>, k: i64) -> (r: bool)
    ensures
        r == knows_segment(segment_views(rows@), k as int),
{
    let ghost views = segment_views(rows@);
    let mut i: usize = 0;
    while i < rows.len()
        invariant
            i <= rows@.len(),
            views == segment_views(rows@),
            forall|j: int| 0 <= j < i ==> (#[trigger] views[j]).1 != k as int,
        decreases rows@.len() - i,
    {
        assert(views[i as int] == (rows@[i as int].0@, rows@[i as int].1 as int));
        if rows[i].1 == k {
            return true;
        }
        i += 1;
    }
    false
}

fn stations_hold(rows: &Vec<Station>) -> (r: bool)
    ensures
        r == stations_ok(station_views(rows@)),
{
    let ghost all = station_views(rows@);
    let mut i: usize = 0;
    while i < rows.len()
        invariant
            i <= rows@.len(),
            all == station_views(rows@),
            forall|a: int, b: int|
                0 <= a < b < i ==> (#[trigger] all[a]).station_id != (#[trigger] all[b]).station_id,
            forall|a: int|
                0 <= a < i ==> !(#[trigger] all[a]).x.nan() && !all[a].y.nan(),
        decreases rows@.len() - i,
    {
        let x = &rows[i];
        assert(all[i as int] == rows@[i as int]@);
        if !(!x.x.is_nan() && !x.y.is_nan()) {
            return false;
        }
        let mut k: usize = 0;
        while k < i
            invariant
                k <= i < rows@.len(),
                all == station_views(rows@),
                x == &rows@[i as int],
                all[i as int] == rows@[i as int]@,
                forall|a: int|
                    0 <= a < k ==> (#[trigger] all[a]).station_id != all[i as int].station_id,
            decreases i - k,
        {
            let y = &rows[k];
            assert(all[k as int] == rows@[k as int]@);
            if same(y.station_id.as_str(), x.station_id.as_str()) {
                return false;
            }
            k += 1;
        }
        i += 1;
    }
    true
}

fn segments_hold(rows: &Vec<(ClockSegment, i64)>, last: i64, stations: &Vec<Station>) -> (r: bool)
    ensures
        r == segments_ok(segment_views(rows@), last as int, station_views(stations@)),
{
    let ghost all = segment_views(rows@);
    if !(0 <= last) {
        return false;
    }
    let mut i: usize = 0;
    while i < rows.len()
        invariant
            i <= rows@.len(),
            all == segment_views(rows@),
            0 <= last,
            forall|a: int, b: int|
                0 <= a < b < i ==> (#[trigger] all[a]).1 != (#[trigger] all[b]).1
                    && !(all[a].0.station_id == all[b].0.station_id
                        && all[a].0.t_start.same_number(all[b].0.t_start)),
            forall|a: int|
                0 <= a < i ==> {
                    &&& 1 <= (#[trigger] all[a]).1 <= last
                    &&& !all[a].0.t_start.nan() && !all[a].0.offset_sec.nan()
                    &&& all[a].0.t_end matches Some(e) ==> !e.nan()
                    &&& knows_station(station_views(stations@), all[a].0.station_id)
                },
        decreases rows@.len() - i,
    {
        let x = &rows[i];
        assert(all[i as int] == (rows@[i as int].0@, rows@[i as int].1 as int));
        if !(1 <= x.1 && x.1 <= last && !x.0.t_start.is_nan() && !x.0.offset_sec.is_nan()
            && match x.0.t_end {
            Some(e) => !e.is_nan(),
            None => true,
        } && has_station(stations, x.0.station_id.as_str())) {
            return false;
        }
        let mut k: usize = 0;
        while k < i
            invariant
                k <= i < rows@.len(),
                all == segment_views(rows@),
                x == &rows@[i as int],
                all[i as int] == (rows@[i as int].0@, rows@[i as int].1 as int),
                forall|a: int|
                    0 <= a < k ==> (#[trigger] all[a]).1 != all[i as int].1
                        && !(all[a].0.station_id == all[i as int].0.station_id
                            && all[a].0.t_start.same_number(all[i as int].0.t_start)),
            decreases i - k,
        {
            let y = &rows[k];
            assert(all[k as int] == (rows@[k as int].0@, rows@[k as int].1 as int));
            if !(y.1 != x.1
                && !(same(y.0.station_id.as_str(), x.0.station_id.as_str())
                    && y.0.t_start.is_same_number(x.0.t_start))) {
                return false;
            }
            k += 1;
        }
        i += 1;
    }
    true
}

fn events_hold(rows: &Vec<EventRow>) -> (r: bool)
    ensures
        r == events_ok(eventrow_views(rows@)),
{
    let ghost all = eventrow_views(rows@);
    let mut i: usize = 0;
    while i < rows.len()
        invariant
            i <= rows@.len(),
            all == eventrow_views(rows@),
            forall|a: int, b: int|
                0 <= a < b < i ==> (#[trigger] all[a]).event_id != (#[trigger] all[b]).event_id,
        decreases rows@.len() - i,
    {
        let x = &rows[i];
        assert(all[i as int] == rows@[i as int]@);
        let mut k: usize = 0;
        while k < i
            invariant
                k <= i < rows@.len(),
                all == eventrow_views(rows@),
                x == &rows@[i as int],
                all[i as int] == rows@[i as int]@,
                forall|a: int|
                    0 <= a < k ==> (#[trigger] all[a]).event_id != all[i as int].event_id,
            decreases i - k,
        {
            let y = &rows[k];
            assert(all[k as int] == rows@[k as int]@);
            if same(y.event_id.as_str(), x.event_id.as_str()) {
                return false;
            }
            k += 1;
        }
        i += 1;
    }
    true
}

fn batches_hold(rows: &Vec<BatchRow>, events: &Vec<EventRow>) -> (r: bool)
    ensures
        r == batches_ok(batchrow_views(rows@), eventrow_views(events@)),
{
    let ghost all = batchrow_views(rows@);
    let mut i: usize = 0;
    while i < rows.len()
        invariant
            i <= rows@.len(),
            all == batchrow_views(rows@),
            forall|a: int, b: int|
                0 <= a < b < i ==> (#[trigger] all[a]).batch_uid != (#[trigger] all[b]).batch_uid,
            forall|a: int|
                0 <= a < i ==> knows_event(eventrow_views(events@), (#[trigger] all[a]).event_id)
                    && all[a].duplicate_count >= 0,
        decreases rows@.len() - i,
    {
        let x = &rows[i];
        assert(all[i as int] == rows@[i as int]@);
        if !(has_event(events, x.event_id.as_str()) && x.duplicate_count >= 0) {
            return false;
        }
        let mut k: usize = 0;
        while k < i
            invariant
                k <= i < rows@.len(),
                all == batchrow_views(rows@),
                x == &rows@[i as int],
                all[i as int] == rows@[i as int]@,
                forall|a: int|
                    0 <= a < k ==> (#[trigger] all[a]).batch_uid != all[i as int].batch_uid,
            decreases i - k,
        {
            let y = &rows[k];
            assert(all[k as int] == rows@[k as int]@);
            if same(y.batch_uid.as_str(), x.batch_uid.as_str()) {
                return false;
            }
            k += 1;
        }
        i += 1;
    }
    true
}

fn observations_hold(
    rows: &Vec<ObservationRow>,
    batches: &Vec<BatchRow>,
    events: &Vec<EventRow>,
    stations: &Vec<Station>,
    segments: &Vec<(ClockSegment, i64)>,
) -> (r: bool)
    ensures
        r == observations_ok(
            observationrow_views(rows@),
            batchrow_views(batches@),
            eventrow_views(events@),
            station_views(stations@),
            segment_views(segments@),
        ),
{
    let ghost all = observationrow_views(rows@);
    let mut i: usize = 0;
    while i < rows.len()
        invariant
            i <= rows@.len(),
            all == observationrow_views(rows@),
            forall|a: int, b: int|
                0 <= a < b < i ==> (#[trigger] all[a]).obs_uid != (#[trigger] all[b]).obs_uid,
            forall|a: int|
                0 <= a < i ==> {
                    let o = (#[trigger] all[a]);
                    &&& knows_batch(batchrow_views(batches@), o.batch_uid)
                    &&& knows_event(eventrow_views(events@), o.event_id)
                    &&& knows_station(station_views(stations@), o.station_id)
                    &&& !o.local_onset_sec.nan()
                    &&& o.clock_locked == (o.clock_segment_id is Some)
                    &&& o.clock_segment_id matches Some(id) ==> knows_segment(
                        segment_views(segments@),
                        id as int,
                    )
                    &&& o.duplicate_of matches Some(d) ==> knows_observation(all, d)
                },
        decreases rows@.len() - i,
    {
        let x = &rows[i];
        assert(all[i as int] == rows@[i as int]@);
        if !(has_batch(batches, x.batch_uid.as_str()) && has_event(events, x.event_id.as_str())
            && has_station(
            stations,
            x.station_id.as_str(),
        ) && !x.local_onset_sec.is_nan() && x.clock_locked == x.clock_segment_id.is_some()
            && match x.clock_segment_id {
            Some(id) => has_segment(segments, id),
            None => true,
        } && match &x.duplicate_of {
            Some(d) => has_observation(rows, d.as_str()),
            None => true,
        }) {
            return false;
        }
        let mut k: usize = 0;
        while k < i
            invariant
                k <= i < rows@.len(),
                all == observationrow_views(rows@),
                x == &rows@[i as int],
                all[i as int] == rows@[i as int]@,
                forall|a: int|
                    0 <= a < k ==> (#[trigger] all[a]).obs_uid != all[i as int].obs_uid,
            decreases i - k,
        {
            let y = &rows[k];
            assert(all[k as int] == rows@[k as int]@);
            if same(y.obs_uid.as_str(), x.obs_uid.as_str()) {
                return false;
            }
            k += 1;
        }
        i += 1;
    }
    true
}

fn lags_hold(
    rows: &Vec<LagRecord>,
    obs: &Vec<ObservationRow>,
    events: &Vec<EventRow>,
    stations: &Vec<Station>,
) -> (r: bool)
    ensures
        r == lags_ok(
            lagrecord_views(rows@),
            observationrow_views(obs@),
            eventrow_views(events@),
            station_views(stations@),
        ),
{
    let ghost all = lagrecord_views(rows@);
    let mut i: usize = 0;
    while i < rows.len()
        invariant
            i <= rows@.len(),
            all == lagrecord_views(rows@),
            forall|a: int, b: int|
                0 <= a < b < i ==>
                    (#[trigger] all[a]).lag.lag_uid != (#[trigger] all[b]).lag.lag_uid,
            forall|a: int|
                0 <= a < i ==> {
                    let l = (#[trigger] all[a]);
                    &&& knows_observation(observationrow_views(obs@), l.lag.obs_uid)
                    &&& knows_event(eventrow_views(events@), l.event_id)
                    &&& knows_station(station_views(stations@), l.lag.station_id)
                    &&& knows_station(station_views(stations@), l.lag.peer_id)
                },
        decreases rows@.len() - i,
    {
        let x = &rows[i];
        assert(all[i as int] == rows@[i as int]@);
        if !(has_observation(obs, x.lag.obs_uid.as_str())
            && has_event(events, x.event_id.as_str())
            && has_station(stations, x.lag.station_id.as_str())
            && has_station(stations, x.lag.peer_id.as_str())) {
            return false;
        }
        let mut k: usize = 0;
        while k < i
            invariant
                k <= i < rows@.len(),
                all == lagrecord_views(rows@),
                x == &rows@[i as int],
                all[i as int] == rows@[i as int]@,
                forall|a: int|
                    0 <= a < k ==> (#[trigger] all[a]).lag.lag_uid != all[i as int].lag.lag_uid,
            decreases i - k,
        {
            let y = &rows[k];
            assert(all[k as int] == rows@[k as int]@);
            if same(y.lag.lag_uid.as_str(), x.lag.lag_uid.as_str()) {
                return false;
            }
            k += 1;
        }
        i += 1;
    }
    true
}

fn evidence_holds(rows: &Vec<EvidenceRow>, events: &Vec<EventRow>) -> (r: bool)
    ensures
        r == evidence_ok(evidencerow_views(rows@), eventrow_views(events@)),
{
    let ghost all = evidencerow_views(rows@);
    let mut i: usize = 0;
    while i < rows.len()
        invariant
            i <= rows@.len(),
            all == evidencerow_views(rows@),
            forall|a: int, b: int|
                0 <= a < b < i ==>
                    (#[trigger] all[a]).evidence_id != (#[trigger] all[b]).evidence_id,
            forall|a: int|
                0 <= a < i ==> knows_event(eventrow_views(events@), (#[trigger] all[a]).event_id),
        decreases rows@.len() - i,
    {
        let x = &rows[i];
        assert(all[i as int] == rows@[i as int]@);
        if !(has_event(events, x.event_id.as_str())) {
            return false;
        }
        let mut k: usize = 0;
        while k < i
            invariant
                k <= i < rows@.len(),
                all == evidencerow_views(rows@),
                x == &rows@[i as int],
                all[i as int] == rows@[i as int]@,
                forall|a: int|
                    0 <= a < k ==> (#[trigger] all[a]).evidence_id != all[i as int].evidence_id,
            decreases i - k,
        {
            let y = &rows[k];
            assert(all[k as int] == rows@[k as int]@);
            if same(y.evidence_id.as_str(), x.evidence_id.as_str()) {
                return false;
            }
            k += 1;
        }
        i += 1;
    }
    true
}

fn jobs_hold(rows: &Vec<JobRecord>, last: i64, events: &Vec<EventRow>) -> (r: bool)
    ensures
        r == jobs_ok(jobrecord_views(rows@), last as int, eventrow_views(events@)),
{
    let ghost all = jobrecord_views(rows@);
    if !(0 <= last) {
        return false;
    }
    let mut i: usize = 0;
    while i < rows.len()
        invariant
            i <= rows@.len(),
            all == jobrecord_views(rows@),
            0 <= last,
            forall|a: int, b: int|
                0 <= a < b < i ==> (#[trigger] all[a]).job.job_id < (#[trigger] all[b]).job.job_id,
            forall|a: int|
                0 <= a < i ==> {
                    &&& 1 <= (#[trigger] all[a]).job.job_id <= last
                    &&& knows_event(eventrow_views(events@), all[a].job.event_id)
                    &&& is_status(all[a].job.status)
                },
        decreases rows@.len() - i,
    {
        let x = &rows[i];
        assert(all[i as int] == rows@[i as int]@);
        if !(1 <= x.job.job_id && x.job.job_id <= last
            && has_event(events, x.job.event_id.as_str()) && (same(
            x.job.status.as_str(),
            "pending",
        ) || same(x.job.status.as_str(), "running") || same(x.job.status.as_str(), "completed")
            || same(x.job.status.as_str(), "failed"))) {
            return false;
        }
        let mut k: usize = 0;
        while k < i
            invariant
                k <= i < rows@.len(),
                all == jobrecord_views(rows@),
                x == &rows@[i as int],
                all[i as int] == rows@[i as int]@,
                forall|a: int|
                    0 <= a < k ==> (#[trigger] all[a]).job.job_id < all[i as int].job.job_id,
            decreases i - k,
        {
            let y = &rows[k];
            assert(all[k as int] == rows@[k as int]@);
            if !(y.job.job_id < x.job.job_id) {
                return false;
            }
            k += 1;
        }
        i += 1;
    }
    true
}

fn candidates_hold(rows: &Vec<Candidate>, jobs: &Vec<JobRecord>) -> (r: bool)
    ensures
        r == candidates_ok(candidate_views(rows@), jobrecord_views(jobs@)),
{
    let ghost all = candidate_views(rows@);
    let mut i: usize = 0;
    while i < rows.len()
        invariant
            i <= rows@.len(),
            all == candidate_views(rows@),
            forall|a: int, b: int|
                0 <= a < b < i ==>
                    (#[trigger] all[a]).candidate_id != (#[trigger] all[b]).candidate_id,
            forall|a: int|
                0 <= a < i ==> knows_job(jobrecord_views(jobs@), (#[trigger] all[a]).job_id)
                    && !all[a].score.nan(),
        decreases rows@.len() - i,
    {
        let x = &rows[i];
        assert(all[i as int] == rows@[i as int]@);
        if !(has_job(jobs, x.job_id) && !x.score.is_nan()) {
            return false;
        }
        let mut k: usize = 0;
        while k < i
            invariant
                k <= i < rows@.len(),
                all == candidate_views(rows@),
                x == &rows@[i as int],
                all[i as int] == rows@[i as int]@,
                forall|a: int|
                    0 <= a < k ==> (#[trigger] all[a]).candidate_id != all[i as int].candidate_id,
            decreases i - k,
        {
            let y = &rows[k];
            assert(all[k as int] == rows@[k as int]@);
            if same(y.candidate_id.as_str(), x.candidate_id.as_str()) {
                return false;
            }
            k += 1;
        }
        i += 1;
    }
    true
}

impl Store {
    /// Whether the tables keep the rules: to be asked of tables that were read
    /// from outside before they are worked on.
    pub fn is_valid(&self) -> (r: bool)
        ensures
            r == self@.valid(),
    {
        stations_hold(&self.stations) && segments_hold(
            &self.segments,
            self.last_segment,
            &self.stations,
        ) && events_hold(&self.events) && batches_hold(&self.batches, &self.events)
            && observations_hold(
            &self.observations,
            &self.batches,
            &self.events,
            &self.stations,
            &self.segments,
        ) && lags_hold(&self.lags, &self.observations, &self.events, &self.stations)
            && evidence_holds(&self.evidence, &self.events) && jobs_hold(
            &self.jobs,
            self.last_job,
            &self.events,
        ) && candidates_hold(&self.candidates, &self.jobs)
    }
}

} // verus!
