//! The tables of the survey and the rules that hold in them.
use vstd::prelude::*;

use crate::double::Double;
use crate::model::{
    candidate_views, copy_option, evidencerow_views, observationrow_views, opt_text, station_views,
    Candidate, CandidateView, ClockSegment, ClockSegmentView, EvidenceRow, EvidenceRowView, JobSaid,
    JobView, LagRow, LagRowView, ObservationRow, ObservationRowView, SiteBounds, Station,
    StationView,
};

verus! {

/// An event as it is kept.
#[derive(Debug)]
pub struct EventRow {
    pub event_id: String,
    pub label: String,
    pub window_start: Double,
    pub window_end: Double,
    pub sound_speed_mps: Double,
    pub bounds: SiteBounds,
}

/// What a [`EventRow`] says.
#[verifier::ext_equal]
pub ghost struct EventRowView {
    pub event_id: Seq<char>,
    pub label: Seq<char>,
    pub window_start: Double,
    pub window_end: Double,
    pub sound_speed_mps: Double,
    pub bounds: SiteBounds,
}

impl View for EventRow {
    type V = EventRowView;

    open spec fn view(&self) -> EventRowView {
        EventRowView {
            event_id: self.event_id@,
            label: self.label@,
            window_start: self.window_start,
            window_end: self.window_end,
            sound_speed_mps: self.sound_speed_mps,
            bounds: self.bounds,
        }
    }
}

impl EventRow {
    /// A second value that says the same.
    pub fn copy(&self) -> (r: EventRow)
        ensures
            r@ == self@,
    {
        EventRow {
            event_id: self.event_id.clone(),
            label: self.label.clone(),
            window_start: self.window_start,
            window_end: self.window_end,
            sound_speed_mps: self.sound_speed_mps,
            bounds: self.bounds,
        }
    }
}

/// What a list of events says.
pub open spec fn eventrow_views(s: Seq<EventRow>) -> Seq<EventRowView> {
    s.map_values(|v: EventRow| v@)
}

pub fn copy_eventrows(list: &Vec<EventRow>) -> (r: Vec<EventRow>)
    ensures
        eventrow_views(r@) == eventrow_views(list@),
{
    let mut out: Vec<EventRow> = Vec::new();
    let mut i: usize = 0;
    while i < list.len()
        invariant
            i <= list@.len(),
            out@.len() == i,
            forall|j: int| 0 <= j < i ==> (#[trigger] out@[j])@ == list@[j]@,
        decreases list@.len() - i,
    {
        out.push(list[i].copy());
        i += 1;
    }
    assert(eventrow_views(out@) =~= eventrow_views(list@));
    out
}

/// A batch that has come in, and how often it came again.
#[derive(Debug)]
pub struct BatchRow {
    pub batch_uid: String,
    pub event_id: String,
    pub payload_fingerprint: String,
    pub received_at: String,
    pub duplicate_count: i64,
}

/// What a [`BatchRow`] says.
#[verifier::ext_equal]
pub ghost struct BatchRowView {
    pub batch_uid: Seq<char>,
    pub event_id: Seq<char>,
    pub payload_fingerprint: Seq<char>,
    pub received_at: Seq<char>,
    pub duplicate_count: int,
}

impl View for BatchRow {
    type V = BatchRowView;

    open spec fn view(&self) -> BatchRowView {
        BatchRowView {
            batch_uid: self.batch_uid@,
            event_id: self.event_id@,
            payload_fingerprint: self.payload_fingerprint@,
            received_at: self.received_at@,
            duplicate_count: self.duplicate_count as int,
        }
    }
}

impl BatchRow {
    /// A second value that says the same.
    pub fn copy(&self) -> (r: BatchRow)
        ensures
            r@ == self@,
    {
        BatchRow {
            batch_uid: self.batch_uid.clone(),
            event_id: self.event_id.clone(),
            payload_fingerprint: self.payload_fingerprint.clone(),
            received_at: self.received_at.clone(),
            duplicate_count: self.duplicate_count,
        }
    }
}

/// What a list of batches says.
pub open spec fn batchrow_views(s: Seq<BatchRow>) -> Seq<BatchRowView> {
    s.map_values(|v: BatchRow| v@)
}

pub fn copy_batchrows(list: &Vec<BatchRow>) -> (r: Vec<BatchRow>)
    ensures
        batchrow_views(r@) == batchrow_views(list@),
{
    let mut out: Vec<BatchRow> = Vec::new();
    let mut i: usize = 0;
    while i < list.len()
        invariant
            i <= list@.len(),
            out@.len() == i,
            forall|j: int| 0 <= j < i ==> (#[trigger] out@[j])@ == list@[j]@,
        decreases list@.len() - i,
    {
        out.push(list[i].copy());
        i += 1;
    }
    assert(batchrow_views(out@) =~= batchrow_views(list@));
    out
}

/// A delay with the event it belongs to.
#[derive(Debug)]
pub struct LagRecord {
    pub event_id: String,
    pub lag: LagRow,
}

/// What a [`LagRecord`] says.
#[verifier::ext_equal]
pub ghost struct LagRecordView {
    pub event_id: Seq<char>,
    pub lag: LagRowView,
}

impl View for LagRecord {
    type V = LagRecordView;

    open spec fn view(&self) -> LagRecordView {
        LagRecordView {
            event_id: self.event_id@,
            lag: self.lag@,
        }
    }
}

impl LagRecord {
    /// A second value that says the same.
    pub fn copy(&self) -> (r: LagRecord)
        ensures
            r@ == self@,
    {
        LagRecord {
            event_id: self.event_id.clone(),
            lag: self.lag.copy(),
        }
    }
}

/// What a list of delays with their events says.
pub open spec fn lagrecord_views(s: Seq<LagRecord>) -> Seq<LagRecordView> {
    s.map_values(|v: LagRecord| v@)
}

pub fn copy_lagrecords(list: &Vec<LagRecord>) -> (r: Vec<LagRecord>)
    ensures
        lagrecord_views(r@) == lagrecord_views(list@),
{
    let mut out: Vec<LagRecord> = Vec::new();
    let mut i: usize = 0;
    while i < list.len()
        invariant
            i <= list@.len(),
            out@.len() == i,
            forall|j: int| 0 <= j < i ==> (#[trigger] out@[j])@ == list@[j]@,
        decreases list@.len() - i,
    {
        out.push(list[i].copy());
        i += 1;
    }
    assert(lagrecord_views(out@) =~= lagrecord_views(list@));
    out
}

/// A job with the time at which it ended.
#[derive(Debug)]
pub struct JobRecord {
    pub job: JobView,
    pub finished_at: Option<String>,
}

/// What a [`JobRecord`] says.
#[verifier::ext_equal]
pub ghost struct JobRecordView {
    pub job: JobSaid,
    pub finished_at: Option<Seq<char>>,
}

impl View for JobRecord {
    type V = JobRecordView;

    open spec fn view(&self) -> JobRecordView {
        JobRecordView {
            job: self.job@,
            finished_at: opt_text(self.finished_at),
        }
    }
}

impl JobRecord {
    /// A second value that says the same.
    pub fn copy(&self) -> (r: JobRecord)
        ensures
            r@ == self@,
    {
        JobRecord {
            job: self.job.copy(),
            finished_at: copy_option(&self.finished_at),
        }
    }
}

/// What a list of jobs says.
pub open spec fn jobrecord_views(s: Seq<JobRecord>) -> Seq<JobRecordView> {
    s.map_values(|v: JobRecord| v@)
}

/// What a list of clock segments with their numbers says.
pub open spec fn segment_views(s: Seq<(ClockSegment, i64)>) -> Seq<(ClockSegmentView, int)> {
    s.map_values(|p: (ClockSegment, i64)| (p.0@, p.1 as int))
}

/// The tables.
///
/// Segments and jobs are numbered in the order in which they are entered; a
/// number that was given out once is not given out again.
#[derive(Debug)]
pub struct Store {
    pub stations: Vec<Station>,
    pub segments: Vec<(ClockSegment, i64)>,
    pub last_segment: i64,
    pub events: Vec<EventRow>,
    pub batches: Vec<BatchRow>,
    pub observations: Vec<ObservationRow>,
    pub lags: Vec<LagRecord>,
    pub evidence: Vec<EvidenceRow>,
    pub jobs: Vec<JobRecord>,
    pub last_job: i64,
    pub candidates: Vec<Candidate>,
}

/// What the tables say.
#[verifier::ext_equal]
pub ghost struct StoreView {
    pub stations: Seq<StationView>,
    pub segments: Seq<(ClockSegmentView, int)>,
    pub last_segment: int,
    pub events: Seq<EventRowView>,
    pub batches: Seq<BatchRowView>,
    pub observations: Seq<ObservationRowView>,
    pub lags: Seq<LagRecordView>,
    pub evidence: Seq<EvidenceRowView>,
    pub jobs: Seq<JobRecordView>,
    pub last_job: int,
    pub candidates: Seq<CandidateView>,
}

impl View for Store {
    type V = StoreView;

    open spec fn view(&self) -> StoreView {
        StoreView {
            stations: station_views(self.stations@),
            segments: segment_views(self.segments@),
            last_segment: self.last_segment as int,
            events: eventrow_views(self.events@),
            batches: batchrow_views(self.batches@),
            observations: observationrow_views(self.observations@),
            lags: lagrecord_views(self.lags@),
            evidence: evidencerow_views(self.evidence@),
            jobs: jobrecord_views(self.jobs@),
            last_job: self.last_job as int,
            candidates: candidate_views(self.candidates@),
        }
    }
}

/// Why a table refuses a change.
#[derive(Clone, Copy, Debug, PartialEq, Eq, Structural)]
pub enum Fault {
    /// A row refers to one that is not there.
    ForeignKey,
    /// A key is taken.
    TakenBatch,
    TakenEvidence,
    TakenCandidate,
    /// A number that must be there is none.
    StationX,
    StationY,
    SegmentStart,
    SegmentOffset,
    EventStart,
    EventEnd,
    EventSpeed,
    EventMinX,
    EventMinY,
    EventMaxX,
    EventMaxY,
    ObservationOnset,
    ObservationBand,
    ObservationSnr,
    CandidateScore,
    /// There are no numbers left to give out.
    Full,
}

impl Fault {
    /// How a fault is reported.
    pub open spec fn text(self) -> Seq<char> {
        match self {
            Fault::ForeignKey => "FOREIGN KEY constraint failed"@,
            Fault::TakenBatch => "UNIQUE constraint failed: batches.batch_uid"@,
            Fault::TakenEvidence => "UNIQUE constraint failed: evidence.evidence_id"@,
            Fault::TakenCandidate => "UNIQUE constraint failed: candidates.candidate_id"@,
            Fault::StationX => "NOT NULL constraint failed: stations.x"@,
            Fault::StationY => "NOT NULL constraint failed: stations.y"@,
            Fault::SegmentStart => "NOT NULL constraint failed: clock_segments.t_start"@,
            Fault::SegmentOffset => "NOT NULL constraint failed: clock_segments.offset_sec"@,
            Fault::EventStart => "NOT NULL constraint failed: events.window_start"@,
            Fault::EventEnd => "NOT NULL constraint failed: events.window_end"@,
            Fault::EventSpeed => "NOT NULL constraint failed: events.sound_speed_mps"@,
            Fault::EventMinX => "NOT NULL constraint failed: events.bounds_min_x"@,
            Fault::EventMinY => "NOT NULL constraint failed: events.bounds_min_y"@,
            Fault::EventMaxX => "NOT NULL constraint failed: events.bounds_max_x"@,
            Fault::EventMaxY => "NOT NULL constraint failed: events.bounds_max_y"@,
            Fault::ObservationOnset => "NOT NULL constraint failed: observations.local_onset_sec"@,
            Fault::ObservationBand => "NOT NULL constraint failed: observations.peak_band_hz"@,
            Fault::ObservationSnr => "NOT NULL constraint failed: observations.snr_db"@,
            Fault::CandidateScore => "NOT NULL constraint failed: candidates.score"@,
            Fault::Full => "database or disk is full"@,
        }
    }

    pub fn message(self) -> (r: String)
        ensures
            r@ == self.text(),
    {
        match self {
            Fault::ForeignKey => "FOREIGN KEY constraint failed".to_owned(),
            Fault::TakenBatch => "UNIQUE constraint failed: batches.batch_uid".to_owned(),
            Fault::TakenEvidence => "UNIQUE constraint failed: evidence.evidence_id".to_owned(),
            Fault::TakenCandidate => "UNIQUE constraint failed: candidates.candidate_id".to_owned(),
            Fault::StationX => "NOT NULL constraint failed: stations.x".to_owned(),
            Fault::StationY => "NOT NULL constraint failed: stations.y".to_owned(),
            Fault::SegmentStart => "NOT NULL constraint failed: clock_segments.t_start".to_owned(),
            Fault::SegmentOffset =>
                "NOT NULL constraint failed: clock_segments.offset_sec".to_owned(),
            Fault::EventStart => "NOT NULL constraint failed: events.window_start".to_owned(),
            Fault::EventEnd => "NOT NULL constraint failed: events.window_end".to_owned(),
            Fault::EventSpeed => "NOT NULL constraint failed: events.sound_speed_mps".to_owned(),
            Fault::EventMinX => "NOT NULL constraint failed: events.bounds_min_x".to_owned(),
            Fault::EventMinY => "NOT NULL constraint failed: events.bounds_min_y".to_owned(),
            Fault::EventMaxX => "NOT NULL constraint failed: events.bounds_max_x".to_owned(),
            Fault::EventMaxY => "NOT NULL constraint failed: events.bounds_max_y".to_owned(),
            Fault::ObservationOnset =>
                "NOT NULL constraint failed: observations.local_onset_sec".to_owned(),
            Fault::ObservationBand =>
                "NOT NULL constraint failed: observations.peak_band_hz".to_owned(),
            Fault::ObservationSnr => "NOT NULL constraint failed: observations.snr_db".to_owned(),
            Fault::CandidateScore => "NOT NULL constraint failed: candidates.score".to_owned(),
            Fault::Full => "database or disk is full".to_owned(),
        }
    }
}

// ---------- Which keys are known ----------

/// There is a station of this name.
pub open spec fn knows_station(stations: Seq<StationView>, id: Seq<char>) -> bool {
    exists|i: int| 0 <= i < stations.len() && (#[trigger] stations[i]).station_id == id
}

/// There is an event of this name.
pub open spec fn knows_event(events: Seq<EventRowView>, id: Seq<char>) -> bool {
    exists|i: int| 0 <= i < events.len() && (#[trigger] events[i]).event_id == id
}

/// There is a batch of this name.
pub open spec fn knows_batch(batches: Seq<BatchRowView>, uid: Seq<char>) -> bool {
    exists|i: int| 0 <= i < batches.len() && (#[trigger] batches[i]).batch_uid == uid
}

/// There is an observation of this name.
pub open spec fn knows_observation(obs: Seq<ObservationRowView>, uid: Seq<char>) -> bool {
    exists|i: int| 0 <= i < obs.len() && (#[trigger] obs[i]).obs_uid == uid
}

/// There is a delay of this name.
pub open spec fn knows_lag(lags: Seq<LagRecordView>, uid: Seq<char>) -> bool {
    exists|i: int| 0 <= i < lags.len() && (#[trigger] lags[i]).lag.lag_uid == uid
}

/// There is evidence of this number.
pub open spec fn knows_evidence(evidence: Seq<EvidenceRowView>, id: Seq<char>) -> bool {
    exists|i: int| 0 <= i < evidence.len() && (#[trigger] evidence[i]).evidence_id == id
}

/// There is a clock segment of this number.
pub open spec fn knows_segment(segments: Seq<(ClockSegmentView, int)>, id: int) -> bool {
    exists|i: int| 0 <= i < segments.len() && (#[trigger] segments[i]).1 == id
}

/// There is a job of this number.
pub open spec fn knows_job(jobs: Seq<JobRecordView>, id: int) -> bool {
    exists|i: int| 0 <= i < jobs.len() && (#[trigger] jobs[i]).job.job_id == id
}

/// There is a candidate of this number.
pub open spec fn knows_candidate(candidates: Seq<CandidateView>, id: Seq<char>) -> bool {
    exists|i: int| 0 <= i < candidates.len() && (#[trigger] candidates[i]).candidate_id == id
}

// ---------- The rules ----------

/// The rules of the stations: each name once, and a place.
pub open spec fn stations_ok(s: Seq<StationView>) -> bool {
    &&& forall|i: int, j: int|
        0 <= i < j < s.len() ==> (#[trigger] s[i]).station_id != (#[trigger] s[j]).station_id
    &&& forall|i: int| 0 <= i < s.len() ==> !(#[trigger] s[i]).x.nan() && !s[i].y.nan()
}

/// The rules of the clock segments: each number once and in use, a start that no
/// other segment of the station has, and a known station.
pub open spec fn segments_ok(
    s: Seq<(ClockSegmentView, int)>,
    last: int,
    stations: Seq<StationView>,
) -> bool {
    &&& 0 <= last
    &&& forall|i: int, j: int|
        0 <= i < j < s.len() ==> (#[trigger] s[i]).1 != (#[trigger] s[j]).1 && !(
        s[i].0.station_id == s[j].0.station_id && s[i].0.t_start.same_number(s[j].0.t_start))
    &&& forall|i: int|
        0 <= i < s.len() ==> {
            &&& 1 <= (#[trigger] s[i]).1 <= last
            &&& !s[i].0.t_start.nan() && !s[i].0.offset_sec.nan()
            &&& s[i].0.t_end matches Some(e) ==> !e.nan()
            &&& knows_station(stations, s[i].0.station_id)
        }
}

/// The rules of the events: each name once.
pub open spec fn events_ok(s: Seq<EventRowView>) -> bool {
    forall|i: int, j: int|
        0 <= i < j < s.len() ==> (#[trigger] s[i]).event_id != (#[trigger] s[j]).event_id
}

/// The rules of the batches: each name once, and a known event.
pub open spec fn batches_ok(s: Seq<BatchRowView>, events: Seq<EventRowView>) -> bool {
    &&& forall|i: int, j: int|
        0 <= i < j < s.len() ==> (#[trigger] s[i]).batch_uid != (#[trigger] s[j]).batch_uid
    &&& forall|i: int|
        0 <= i < s.len() ==> knows_event(events, (#[trigger] s[i]).event_id)
            && s[i].duplicate_count >= 0
}

/// The rules of the observations: each name once, an onset, and all that is referred
/// to is known.
pub open spec fn observations_ok(
    s: Seq<ObservationRowView>,
    batches: Seq<BatchRowView>,
    events: Seq<EventRowView>,
    stations: Seq<StationView>,
    segments: Seq<(ClockSegmentView, int)>,
) -> bool {
    &&& forall|i: int, j: int|
        0 <= i < j < s.len() ==> (#[trigger] s[i]).obs_uid != (#[trigger] s[j]).obs_uid
    &&& forall|i: int|
        0 <= i < s.len() ==> {
            let o = #[trigger] s[i];
            &&& knows_batch(batches, o.batch_uid)
            &&& knows_event(events, o.event_id)
            &&& knows_station(stations, o.station_id)
            &&& !o.local_onset_sec.nan()
            &&& o.clock_locked == (o.clock_segment_id is Some)
            &&& o.clock_segment_id matches Some(id) ==> knows_segment(segments, id as int)
            &&& o.duplicate_of matches Some(d) ==> knows_observation(s, d)
        }
}

/// The rules of the delays: each name once, and all that is referred to is known.
pub open spec fn lags_ok(
    s: Seq<LagRecordView>,
    obs: Seq<ObservationRowView>,
    events: Seq<EventRowView>,
    stations: Seq<StationView>,
) -> bool {
    &&& forall|i: int, j: int|
        0 <= i < j < s.len() ==> (#[trigger] s[i]).lag.lag_uid != (#[trigger] s[j]).lag.lag_uid
    &&& forall|i: int|
        0 <= i < s.len() ==> {
            let l = #[trigger] s[i];
            &&& knows_observation(obs, l.lag.obs_uid)
            &&& knows_event(events, l.event_id)
            &&& knows_station(stations, l.lag.station_id)
            &&& knows_station(stations, l.lag.peer_id)
        }
}

/// The rules of the evidence: each number once, and a known event.
pub open spec fn evidence_ok(s: Seq<EvidenceRowView>, events: Seq<EventRowView>) -> bool {
    &&& forall|i: int, j: int|
        0 <= i < j < s.len() ==> (#[trigger] s[i]).evidence_id != (#[trigger] s[j]).evidence_id
    &&& forall|i: int| 0 <= i < s.len() ==> knows_event(events, (#[trigger] s[i]).event_id)
}

/// The states that a job can be in.
pub open spec fn is_status(s: Seq<char>) -> bool {
    s == "pending"@ || s == "running"@ || s == "completed"@ || s == "failed"@
}

/// The rules of the jobs: ascending numbers in use, a known event and a status.
pub open spec fn jobs_ok(s: Seq<JobRecordView>, last: int, events: Seq<EventRowView>) -> bool {
    &&& 0 <= last
    &&& forall|i: int, j: int|
        0 <= i < j < s.len() ==> (#[trigger] s[i]).job.job_id < (#[trigger] s[j]).job.job_id
    &&& forall|i: int|
        0 <= i < s.len() ==> {
            &&& 1 <= (#[trigger] s[i]).job.job_id <= last
            &&& knows_event(events, s[i].job.event_id)
            &&& is_status(s[i].job.status)
        }
}

/// The rules of the candidates: each number once, a known job and a score.
pub open spec fn candidates_ok(s: Seq<CandidateView>, jobs: Seq<JobRecordView>) -> bool {
    &&& forall|i: int, j: int|
        0 <= i < j < s.len() ==> (#[trigger] s[i]).candidate_id != (#[trigger] s[j]).candidate_id
    &&& forall|i: int|
        0 <= i < s.len() ==> knows_job(jobs, (#[trigger] s[i]).job_id) && !s[i].score.nan()
}

impl StoreView {
    /// The rules that hold in the tables: keys are unique, every reference
    /// leads to a row, numbers are numbers, and what was given out is counted.
    pub open spec fn valid(self) -> bool {
        &&& stations_ok(self.stations)
        &&& segments_ok(self.segments, self.last_segment, self.stations)
        &&& events_ok(self.events)
        &&& batches_ok(self.batches, self.events)
        &&& observations_ok(
            self.observations,
            self.batches,
            self.events,
            self.stations,
            self.segments,
        )
        &&& lags_ok(self.lags, self.observations, self.events, self.stations)
        &&& evidence_ok(self.evidence, self.events)
        &&& jobs_ok(self.jobs, self.last_job, self.events)
        &&& candidates_ok(self.candidates, self.jobs)
    }
}

impl Store {
    /// Empty tables.
    pub fn new() -> (r: Store)
        ensures
            r@.valid(),
            r@.stations.len() == 0,
            r@.segments.len() == 0,
            r@.last_segment == 0,
            r@.events.len() == 0,
            r@.batches.len() == 0,
            r@.observations.len() == 0,
            r@.lags.len() == 0,
            r@.evidence.len() == 0,
            r@.jobs.len() == 0,
            r@.last_job == 0,
            r@.candidates.len() == 0,
    {
        Store {
            stations: Vec::new(),
            segments: Vec::new(),
            last_segment: 0,
            events: Vec::new(),
            batches: Vec::new(),
            observations: Vec::new(),
            lags: Vec::new(),
            evidence: Vec::new(),
            jobs: Vec::new(),
            last_job: 0,
            candidates: Vec::new(),
        }
    }
}

} // verus!
