//! The tables of the workbench.
//!
//! Nothing here changes an observation or an older candidate: what the analyst
//! decides is appended, and every solve writes candidates of its own.
use vstd::prelude::*;

use crate::double::Double;
use crate::json::{Json, JsonView};
use crate::model::{copy_option, opt_text};
use crate::order::{filter_of_push, picked_items_keep_their_order, picked_positions};
use crate::text::same;
use crate::workbench::clock::{apart, end_of, intervals_overlap};
use crate::workbench::models::{
    clocksegment_views, copy_residualrows, residualrow_views, ClockSegment, ClockSegmentView,
    EventHeader, EventHeaderView, ResidualRow, ResidualRowView, Station, StationView,
};

verus! {

/// A station with the time at which it was entered.
#[derive(Debug)]
pub struct StationRow {
    pub station: Station,
    pub created_at: Double,
}

/// What a [`StationRow`] says.
#[verifier::ext_equal]
pub ghost struct StationRowView {
    pub station: StationView,
    pub created_at: Double,
}

impl View for StationRow {
    type V = StationRowView;

    open spec fn view(&self) -> StationRowView {
        StationRowView {
            station: self.station@,
            created_at: self.created_at,
        }
    }
}

impl StationRow {
    /// A second value that says the same.
    pub fn copy(&self) -> (r: StationRow)
        ensures
            r@ == self@,
    {
        StationRow {
            station: self.station.copy(),
            created_at: self.created_at,
        }
    }
}

/// What the table of stations says.
pub open spec fn stationrow_views(s: Seq<StationRow>) -> Seq<StationRowView> {
    s.map_values(|v: StationRow| v@)
}

/// A batch that was taken in.
#[derive(Debug)]
pub struct BatchRow {
    pub fingerprint: String,
    pub received_at: Double,
    pub payload_json: String,
}

/// What a [`BatchRow`] says.
#[verifier::ext_equal]
pub ghost struct BatchRowView {
    pub fingerprint: Seq<char>,
    pub received_at: Double,
    pub payload_json: Seq<char>,
}

impl View for BatchRow {
    type V = BatchRowView;

    open spec fn view(&self) -> BatchRowView {
        BatchRowView {
            fingerprint: self.fingerprint@,
            received_at: self.received_at,
            payload_json: self.payload_json@,
        }
    }
}

impl BatchRow {
    /// A second value that says the same.
    pub fn copy(&self) -> (r: BatchRow)
        ensures
            r@ == self@,
    {
        BatchRow {
            fingerprint: self.fingerprint.clone(),
            received_at: self.received_at,
            payload_json: self.payload_json.clone(),
        }
    }
}

/// What the table of batches says.
pub open spec fn batchrow_views(s: Seq<BatchRow>) -> Seq<BatchRowView> {
    s.map_values(|v: BatchRow| v@)
}

pub fn copy_batchrows(list: &Vec<BatchRow>) -> (r: Vec<BatchRow>)
    ensures
        batchrow_views(r@) == batchrow_views(list@),
{
    let mut out: Vec<BatchRow> = Vec::new();
    let mut i: usize = 0;
    while i < list.len()
        invariant
            i <= list@.len(),
            out@.len() == i,
            forall|j: int| 0 <= j < i ==> (#[trigger] out@[j])@ == list@[j]@,
        decreases list@.len() - i,
    {
        out.push(list[i].copy());
        i += 1;
    }
    assert(batchrow_views(out@) =~= batchrow_views(list@));
    out
}

/// An observation.
#[derive(Debug)]
pub struct ObsRow {
    pub obs_id: i64,
    pub batch_fp: String,
    pub station_id: String,
    pub event_ref: Option<String>,
    pub t_device: Double,
    pub local_onset_s: Double,
    pub peak_band_hz: Double,
    pub snr_db: Double,
    pub created_seq: i64,
}

/// What a [`ObsRow`] says.
#[verifier::ext_equal]
pub ghost struct ObsRowView {
    pub obs_id: int,
    pub batch_fp: Seq<char>,
    pub station_id: Seq<char>,
    pub event_ref: Option<Seq<char>>,
    pub t_device: Double,
    pub local_onset_s: Double,
    pub peak_band_hz: Double,
    pub snr_db: Double,
    pub created_seq: int,
}

impl View for ObsRow {
    type V = ObsRowView;

    open spec fn view(&self) -> ObsRowView {
        ObsRowView {
            obs_id: self.obs_id as int,
            batch_fp: self.batch_fp@,
            station_id: self.station_id@,
            event_ref: opt_text(self.event_ref),
            t_device: self.t_device,
            local_onset_s: self.local_onset_s,
            peak_band_hz: self.peak_band_hz,
            snr_db: self.snr_db,
            created_seq: self.created_seq as int,
        }
    }
}

impl ObsRow {
    /// A second value that says the same.
    pub fn copy(&self) -> (r: ObsRow)
        ensures
            r@ == self@,
    {
        ObsRow {
            obs_id: self.obs_id,
            batch_fp: self.batch_fp.clone(),
            station_id: self.station_id.clone(),
            event_ref: copy_option(&self.event_ref),
            t_device: self.t_device,
            local_onset_s: self.local_onset_s,
            peak_band_hz: self.peak_band_hz,
            snr_db: self.snr_db,
            created_seq: self.created_seq,
        }
    }
}

/// What the table of observations says.
pub open spec fn obsrow_views(s: Seq<ObsRow>) -> Seq<ObsRowView> {
    s.map_values(|v: ObsRow| v@)
}

/// A delay between two observations. The peak 0 is the direct one.
#[derive(Debug)]
pub struct XcorrRow {
    pub xc_id: i64,
    pub obs_a: i64,
    pub obs_b: i64,
    pub delay_s: Double,
    pub sigma_s: Double,
    pub peak_index: i64,
    pub multipath: bool,
}

/// What a [`XcorrRow`] says.
#[verifier::ext_equal]
pub ghost struct XcorrRowView {
    pub xc_id: int,
    pub obs_a: int,
    pub obs_b: int,
    pub delay_s: Double,
    pub sigma_s: Double,
    pub peak_index: int,
    pub multipath: bool,
}

impl View for XcorrRow {
    type V = XcorrRowView;

    open spec fn view(&self) -> XcorrRowView {
        XcorrRowView {
            xc_id: self.xc_id as int,
            obs_a: self.obs_a as int,
            obs_b: self.obs_b as int,
            delay_s: self.delay_s,
            sigma_s: self.sigma_s,
            peak_index: self.peak_index as int,
            multipath: self.multipath,
        }
    }
}

impl XcorrRow {
    /// A second value that says the same.
    pub fn copy(&self) -> (r: XcorrRow)
        ensures
            r@ == self@,
    {
        XcorrRow {
            xc_id: self.xc_id,
            obs_a: self.obs_a,
            obs_b: self.obs_b,
            delay_s: self.delay_s,
            sigma_s: self.sigma_s,
            peak_index: self.peak_index,
            multipath: self.multipath,
        }
    }
}

/// What the table of delays says.
pub open spec fn xcorrrow_views(s: Seq<XcorrRow>) -> Seq<XcorrRowView> {
    s.map_values(|v: XcorrRow| v@)
}

/// An event with the time at which it was entered.
#[derive(Debug)]
pub struct EventRow {
    pub header: EventHeader,
    pub created_at: Double,
}

/// What a [`EventRow`] says.
#[verifier::ext_equal]
pub ghost struct EventRowView {
    pub header: EventHeaderView,
    pub created_at: Double,
}

impl View for EventRow {
    type V = EventRowView;

    open spec fn view(&self) -> EventRowView {
        EventRowView {
            header: self.header@,
            created_at: self.created_at,
        }
    }
}

impl EventRow {
    /// A second value that says the same.
    pub fn copy(&self) -> (r: EventRow)
        ensures
            r@ == self@,
    {
        EventRow {
            header: self.header.copy(),
            created_at: self.created_at,
        }
    }
}

/// What the table of events says.
pub open spec fn eventrow_views(s: Seq<EventRow>) -> Seq<EventRowView> {
    s.map_values(|v: EventRow| v@)
}

pub fn copy_eventrows(list: &Vec<EventRow>) -> (r: Vec<EventRow>)
    ensures
        eventrow_views(r@) == eventrow_views(list@),
{
    let mut out: Vec<EventRow> = Vec::new();
    let mut i: usize = 0;
    while i < list.len()
        invariant
            i <= list@.len(),
            out@.len() == i,
            forall|j: int| 0 <= j < i ==> (#[trigger] out@[j])@ == list@[j]@,
        decreases list@.len() - i,
    {
        out.push(list[i].copy());
        i += 1;
    }
    assert(eventrow_views(out@) =~= eventrow_views(list@));
    out
}

/// An observation that belongs to an event.
#[derive(Debug)]
pub struct LinkRow {
    pub event_id: String,
    pub obs_id: i64,
}

/// What a [`LinkRow`] says.
#[verifier::ext_equal]
pub ghost struct LinkRowView {
    pub event_id: Seq<char>,
    pub obs_id: int,
}

impl View for LinkRow {
    type V = LinkRowView;

    open spec fn view(&self) -> LinkRowView {
        LinkRowView {
            event_id: self.event_id@,
            obs_id: self.obs_id as int,
        }
    }
}

impl LinkRow {
    /// A second value that says the same.
    pub fn copy(&self) -> (r: LinkRow)
        ensures
            r@ == self@,
    {
        LinkRow {
            event_id: self.event_id.clone(),
            obs_id: self.obs_id,
        }
    }
}

/// What the table of links says.
pub open spec fn linkrow_views(s: Seq<LinkRow>) -> Seq<LinkRowView> {
    s.map_values(|v: LinkRow| v@)
}

/// A judgement of the analyst. Its number is a fingerprint of its contents.
#[derive(Debug)]
pub struct EvidenceRow {
    pub content_id: String,
    pub event_id: String,
    pub kind: String,
    pub payload: Json,
    pub created_at: Double,
}

/// What a [`EvidenceRow`] says.
#[verifier::ext_equal]
pub ghost struct EvidenceRowView {
    pub content_id: Seq<char>,
    pub event_id: Seq<char>,
    pub kind: Seq<char>,
    pub payload: JsonView,
    pub created_at: Double,
}

impl View for EvidenceRow {
    type V = EvidenceRowView;

    open spec fn view(&self) -> EvidenceRowView {
        EvidenceRowView {
            content_id: self.content_id@,
            event_id: self.event_id@,
            kind: self.kind@,
            payload: self.payload@,
            created_at: self.created_at,
        }
    }
}

impl EvidenceRow {
    /// A second value that says the same.
    pub fn copy(&self) -> (r: EvidenceRow)
        ensures
            r@ == self@,
    {
        EvidenceRow {
            content_id: self.content_id.clone(),
            event_id: self.event_id.clone(),
            kind: self.kind.clone(),
            payload: self.payload.copy(),
            created_at: self.created_at,
        }
    }
}

/// What the table of evidence says.
pub open spec fn evidencerow_views(s: Seq<EvidenceRow>) -> Seq<EvidenceRowView> {
    s.map_values(|v: EvidenceRow| v@)
}

pub fn copy_evidencerows(list: &Vec<EvidenceRow>) -> (r: Vec<EvidenceRow>)
    ensures
        evidencerow_views(r@) == evidencerow_views(list@),
{
    let mut out: Vec<EvidenceRow> = Vec::new();
    let mut i: usize = 0;
    while i < list.len()
        invariant
            i <= list@.len(),
            out@.len() == i,
            forall|j: int| 0 <= j < i ==> (#[trigger] out@[j])@ == list@[j]@,
        decreases list@.len() - i,
    {
        out.push(list[i].copy());
        i += 1;
    }
    assert(evidencerow_views(out@) =~= evidencerow_views(list@));
    out
}

/// A job: `created`, `running`, then `done` or `failed`.
#[derive(Debug)]
pub struct JobRow {
    pub fingerprint: String,
    pub event_id: String,
    pub state: String,
    pub created_at: Double,
    pub started_at: Option<Double>,
    pub finished_at: Option<Double>,
    pub error: String,
    pub worker: String,
}

/// What a [`JobRow`] says.
#[verifier::ext_equal]
pub ghost struct JobRowView {
    pub fingerprint: Seq<char>,
    pub event_id: Seq<char>,
    pub state: Seq<char>,
    pub created_at: Double,
    pub started_at: Option<Double>,
    pub finished_at: Option<Double>,
    pub error: Seq<char>,
    pub worker: Seq<char>,
}

impl View for JobRow {
    type V = JobRowView;

    open spec fn view(&self) -> JobRowView {
        JobRowView {
            fingerprint: self.fingerprint@,
            event_id: self.event_id@,
            state: self.state@,
            created_at: self.created_at,
            started_at: self.started_at,
            finished_at: self.finished_at,
            error: self.error@,
            worker: self.worker@,
        }
    }
}

impl JobRow {
    /// A second value that says the same.
    pub fn copy(&self) -> (r: JobRow)
        ensures
            r@ == self@,
    {
        JobRow {
            fingerprint: self.fingerprint.clone(),
            event_id: self.event_id.clone(),
            state: self.state.clone(),
            created_at: self.created_at,
            started_at: self.started_at,
            finished_at: self.finished_at,
            error: self.error.clone(),
            worker: self.worker.clone(),
        }
    }
}

/// What the table of jobs says.
pub open spec fn jobrow_views(s: Seq<JobRow>) -> Seq<JobRowView> {
    s.map_values(|v: JobRow| v@)
}

/// A candidate as it is kept.
#[derive(Debug)]
pub struct CandRow {
    pub cand_id: i64,
    pub job_fp: String,
    pub event_id: String,
    pub rank_in_job: i64,
    pub cand_key: String,
    pub kind: String,
    pub status: String,
    pub reason: String,
    pub x: Option<Double>,
    pub y: Option<Double>,
    pub region: Json,
    pub metrics: Json,
    pub residuals: Vec<ResidualRow>,
}

/// What a [`CandRow`] says.
#[verifier::ext_equal]
pub ghost struct CandRowView {
    pub cand_id: int,
    pub job_fp: Seq<char>,
    pub event_id: Seq<char>,
    pub rank_in_job: int,
    pub cand_key: Seq<char>,
    pub kind: Seq<char>,
    pub status: Seq<char>,
    pub reason: Seq<char>,
    pub x: Option<Double>,
    pub y: Option<Double>,
    pub region: JsonView,
    pub metrics: JsonView,
    pub residuals: Seq<ResidualRowView>,
}

impl View for CandRow {
    type V = CandRowView;

    open spec fn view(&self) -> CandRowView {
        CandRowView {
            cand_id: self.cand_id as int,
            job_fp: self.job_fp@,
            event_id: self.event_id@,
            rank_in_job: self.rank_in_job as int,
            cand_key: self.cand_key@,
            kind: self.kind@,
            status: self.status@,
            reason: self.reason@,
            x: self.x,
            y: self.y,
            region: self.region@,
            metrics: self.metrics@,
            residuals: residualrow_views(self.residuals@),
        }
    }
}

impl CandRow {
    /// A second value that says the same.
    pub fn copy(&self) -> (r: CandRow)
        ensures
            r@ == self@,
    {
        CandRow {
            cand_id: self.cand_id,
            job_fp: self.job_fp.clone(),
            event_id: self.event_id.clone(),
            rank_in_job: self.rank_in_job,
            cand_key: self.cand_key.clone(),
            kind: self.kind.clone(),
            status: self.status.clone(),
            reason: self.reason.clone(),
            x: self.x,
            y: self.y,
            region: self.region.copy(),
            metrics: self.metrics.copy(),
            residuals: copy_residualrows(&self.residuals),
        }
    }
}

/// What the table of candidates says.
pub open spec fn candrow_views(s: Seq<CandRow>) -> Seq<CandRowView> {
    s.map_values(|v: CandRow| v@)
}

/// The tables. What is numbered is numbered in the order in which it is
/// entered, and no number is given out twice.
#[derive(Debug)]
pub struct Db {
    pub stations: Vec<StationRow>,
    pub segments: Vec<ClockSegment>,
    pub batches: Vec<BatchRow>,
    pub observations: Vec<ObsRow>,
    pub xcorrs: Vec<XcorrRow>,
    pub events: Vec<EventRow>,
    pub links: Vec<LinkRow>,
    pub evidence: Vec<EvidenceRow>,
    pub jobs: Vec<JobRow>,
    pub candidates: Vec<CandRow>,
    pub last_segment: i64,
    pub last_obs: i64,
    pub last_xcorr: i64,
    pub last_candidate: i64,
}

/// What the tables say.
#[verifier::ext_equal]
pub ghost struct DbView {
    pub stations: Seq<StationRowView>,
    pub segments: Seq<ClockSegmentView>,
    pub batches: Seq<BatchRowView>,
    pub observations: Seq<ObsRowView>,
    pub xcorrs: Seq<XcorrRowView>,
    pub events: Seq<EventRowView>,
    pub links: Seq<LinkRowView>,
    pub evidence: Seq<EvidenceRowView>,
    pub jobs: Seq<JobRowView>,
    pub candidates: Seq<CandRowView>,
    pub last_segment: int,
    pub last_obs: int,
    pub last_xcorr: int,
    pub last_candidate: int,
}

impl View for Db {
    type V = DbView;

    open spec fn view(&self) -> DbView {
        DbView {
            stations: stationrow_views(self.stations@),
            segments: clocksegment_views(self.segments@),
            batches: batchrow_views(self.batches@),
            observations: obsrow_views(self.observations@),
            xcorrs: xcorrrow_views(self.xcorrs@),
            events: eventrow_views(self.events@),
            links: linkrow_views(self.links@),
            evidence: evidencerow_views(self.evidence@),
            jobs: jobrow_views(self.jobs@),
            candidates: candrow_views(self.candidates@),
            last_segment: self.last_segment as int,
            last_obs: self.last_obs as int,
            last_xcorr: self.last_xcorr as int,
            last_candidate: self.last_candidate as int,
        }
    }
}

// ---------- Which keys are known ----------

/// There is a station of this name.
pub open spec fn has_station(s: Seq<StationRowView>, k: Seq<char>) -> bool {
    exists|i: int| 0 <= i < s.len() && (#[trigger] s[i]).station.station_id == k
}

/// There is a batch of this fingerprint.
pub open spec fn has_batch(s: Seq<BatchRowView>, k: Seq<char>) -> bool {
    exists|i: int| 0 <= i < s.len() && (#[trigger] s[i]).fingerprint == k
}

/// There is an observation of this number.
pub open spec fn has_obs(s: Seq<ObsRowView>, k: int) -> bool {
    exists|i: int| 0 <= i < s.len() && (#[trigger] s[i]).obs_id == k
}

/// There is an event of this name.
pub open spec fn has_event(s: Seq<EventRowView>, k: Seq<char>) -> bool {
    exists|i: int| 0 <= i < s.len() && (#[trigger] s[i]).header.event_id == k
}

/// There is a judgement of this number.
pub open spec fn has_evidence(s: Seq<EvidenceRowView>, k: Seq<char>) -> bool {
    exists|i: int| 0 <= i < s.len() && (#[trigger] s[i]).content_id == k
}

/// There is a job of this fingerprint.
pub open spec fn has_job(s: Seq<JobRowView>, k: Seq<char>) -> bool {
    exists|i: int| 0 <= i < s.len() && (#[trigger] s[i]).fingerprint == k
}

/// An event is linked to an observation.
pub open spec fn has_link(s: Seq<LinkRowView>, event_id: Seq<char>, obs_id: int) -> bool {
    exists|i: int|
        0 <= i < s.len() && (#[trigger] s[i]).event_id == event_id && s[i].obs_id == obs_id
}

pub(crate) fn knows_station(rows: &Vec<StationRow>, k: &str) -> (r: bool)
    ensures
        r == has_station(stationrow_views(rows@), k@),
{
    let ghost views = stationrow_views(rows@);
    let mut i: usize = 0;
    while i < rows.len()
        invariant
            i <= rows@.len(),
            views == stationrow_views(rows@),
            forall|j: int| 0 <= j < i ==> (#[trigger] views[j]).station.station_id != k@,
        decreases rows@.len() - i,
    {
        assert(views[i as int] == rows@[i as int]@);
        if same(rows[i].station.station_id.as_str(), k) {
            return true;
        }
        i += 1;
    }
    false
}

pub(crate) fn knows_batch(rows: &Vec<BatchRow>, k: &str) -> (r: bool)
    ensures
        r == has_batch(batchrow_views(rows@), k@),
{
    let ghost views = batchrow_views(rows@);
    let mut i: usize = 0;
    while i < rows.len()
        invariant
            i <= rows@.len(),
            views == batchrow_views(rows@),
            forall|j: int| 0 <= j < i ==> (#[trigger] views[j]).fingerprint != k@,
        decreases rows@.len() - i,
    {
        assert(views[i as int] == rows@[i as int]@);
        if same(rows[i].fingerprint.as_str(), k) {
            return true;
        }
        i += 1;
    }
    false
}

pub(crate) fn knows_event(rows: &Vec<EventRow>, k: &str) -> (r: bool)
    ensures
        r == has_event(eventrow_views(rows@), k@),
{
    let ghost views = eventrow_views(rows@);
    let mut i: usize = 0;
    while i < rows.len()
        invariant
            i <= rows@.len(),
            views == eventrow_views(rows@),
            forall|j: int| 0 <= j < i ==> (#[trigger] views[j]).header.event_id != k@,
        decreases rows@.len() - i,
    {
        assert(views[i as int] == rows@[i as int]@);
        if same(rows[i].header.event_id.as_str(), k) {
            return true;
        }
        i += 1;
    }
    false
}

pub(crate) fn knows_evidence(rows: &Vec<EvidenceRow>, k: &str) -> (r: bool)
    ensures
        r == has_evidence(evidencerow_views(rows@), k@),
{
    let ghost views = evidencerow_views(rows@);
    let mut i: usize = 0;
    while i < rows.len()
        invariant
            i <= rows@.len(),
            views == evidencerow_views(rows@),
            forall|j: int| 0 <= j < i ==> (#[trigger] views[j]).content_id != k@,
        decreases rows@.len() - i,
    {
        assert(views[i as int] == rows@[i as int]@);
        if same(rows[i].content_id.as_str(), k) {
            return true;
        }
        i += 1;
    }
    false
}

pub(crate) fn knows_job(rows: &Vec<JobRow>, k: &str) -> (r: bool)
    ensures
        r == has_job(jobrow_views(rows@), k@),
{
    let ghost views = jobrow_views(rows@);
    let mut i: usize = 0;
    while i < rows.len()
        invariant
            i <= rows@.len(),
            views == jobrow_views(rows@),
            forall|j: int| 0 <= j < i ==> (#[trigger] views[j]).fingerprint != k@,
        decreases rows@.len() - i,
    {
        assert(views[i as int] == rows@[i as int]@);
        if same(rows[i].fingerprint.as_str(), k) {
            return true;
        }
        i += 1;
    }
    false
}

pub(crate) fn knows_link(rows: &Vec<LinkRow>, event_id: &str, obs_id: i64) -> (r: bool)
    ensures
        r == has_link(linkrow_views(rows@), event_id@, obs_id as int),
{
    let ghost views = linkrow_views(rows@);
    let mut i: usize = 0;
    while i < rows.len()
        invariant
            i <= rows@.len(),
            views == linkrow_views(rows@),
            forall|j: int|
                0 <= j < i ==> !((#[trigger] views[j]).event_id == event_id@ && views[j].obs_id
                    == obs_id),
        decreases rows@.len() - i,
    {
        assert(views[i as int] == rows@[i as int]@);
        if rows[i].obs_id == obs_id && same(rows[i].event_id.as_str(), event_id) {
            return true;
        }
        i += 1;
    }
    false
}

// ---------- The rules ----------

/// The rules of the stations: each name once, and a place.
pub open spec fn stations_ok(s: Seq<StationRowView>) -> bool {
    &&& forall|i: int, j: int|
        0 <= i < j < s.len() ==> (#[trigger] s[i]).station.station_id != (
        #[trigger] s[j]).station.station_id
    &&& forall|i: int|
        0 <= i < s.len() ==> (#[trigger] s[i]).station.x.finite() && s[i].station.y.finite()
}

/// The rules of the clock segments: ascending numbers in use, an interval that
/// overlaps no other of the station, and a known station.
pub open spec fn segments_ok(
    s: Seq<ClockSegmentView>,
    last: int,
    stations: Seq<StationRowView>,
) -> bool {
    &&& 0 <= last
    &&& apart(s)
    &&& forall|i: int, j: int|
        0 <= i < j < s.len() ==> (#[trigger] s[i]).seg_id < (#[trigger] s[j]).seg_id
    &&& forall|i: int|
        0 <= i < s.len() ==> {
            &&& 1 <= (#[trigger] s[i]).seg_id <= last
            &&& s[i].start_s.finite()
            &&& s[i].end_s matches Some(e) ==> e.finite() && s[i].start_s.below(e)
            &&& has_station(stations, s[i].station_id)
        }
}

/// The rules of the batches: each fingerprint once.
pub open spec fn batches_ok(s: Seq<BatchRowView>) -> bool {
    forall|i: int, j: int|
        0 <= i < j < s.len() ==> (#[trigger] s[i]).fingerprint != (#[trigger] s[j]).fingerprint
}

/// The rules of the observations: ascending numbers in use, a known batch and
/// station, and an onset.
pub open spec fn observations_ok(
    s: Seq<ObsRowView>,
    last: int,
    batches: Seq<BatchRowView>,
    stations: Seq<StationRowView>,
) -> bool {
    &&& 0 <= last
    &&& forall|i: int, j: int|
        0 <= i < j < s.len() ==> (#[trigger] s[i]).obs_id < (#[trigger] s[j]).obs_id
    &&& forall|i: int|
        0 <= i < s.len() ==> {
            &&& 1 <= (#[trigger] s[i]).obs_id <= last
            &&& has_batch(batches, s[i].batch_fp)
            &&& has_station(stations, s[i].station_id)
            &&& s[i].local_onset_s.finite()
        }
}

/// The rules of the delays: ascending numbers in use, between two known
/// observations.
pub open spec fn xcorrs_ok(s: Seq<XcorrRowView>, last: int, obs: Seq<ObsRowView>) -> bool {
    &&& 0 <= last
    &&& forall|i: int, j: int|
        0 <= i < j < s.len() ==> (#[trigger] s[i]).xc_id < (#[trigger] s[j]).xc_id
    &&& forall|i: int|
        0 <= i < s.len() ==> {
            &&& 1 <= (#[trigger] s[i]).xc_id <= last
            &&& s[i].obs_a != s[i].obs_b
            &&& has_obs(obs, s[i].obs_a)
            &&& has_obs(obs, s[i].obs_b)
        }
}

/// The rules of the events: each name once, and an interval.
pub open spec fn events_ok(s: Seq<EventRowView>) -> bool {
    &&& forall|i: int, j: int|
        0 <= i < j < s.len() ==> (#[trigger] s[i]).header.event_id != (
        #[trigger] s[j]).header.event_id
    &&& forall|i: int|
        0 <= i < s.len() ==> (#[trigger] s[i]).header.t_start.finite()
            && s[i].header.t_end.finite() && s[i].header.t_start.below(s[i].header.t_end)
}

/// The rules of the links: each once, between what is known.
pub open spec fn links_ok(
    s: Seq<LinkRowView>,
    events: Seq<EventRowView>,
    obs: Seq<ObsRowView>,
) -> bool {
    &&& forall|i: int, j: int|
        0 <= i < j < s.len() ==> !((#[trigger] s[i]).event_id == (#[trigger] s[j]).event_id
            && s[i].obs_id == s[j].obs_id)
    &&& forall|i: int|
        0 <= i < s.len() ==> has_event(events, (#[trigger] s[i]).event_id) && has_obs(
            obs,
            s[i].obs_id,
        )
}

/// The kinds of judgements.
pub open spec fn is_kind(kind: Seq<char>) -> bool {
    kind == "exclude_peak"@ || kind == "lock_clock"@ || kind == "keep_pair"@
}

/// The rules of the judgements: each number once, a known event and a kind.
pub open spec fn evidence_ok(s: Seq<EvidenceRowView>, events: Seq<EventRowView>) -> bool {
    &&& forall|i: int, j: int|
        0 <= i < j < s.len() ==> (#[trigger] s[i]).content_id != (#[trigger] s[j]).content_id
    &&& forall|i: int|
        0 <= i < s.len() ==> has_event(events, (#[trigger] s[i]).event_id) && is_kind(s[i].kind)
}

/// The states that a job can be in.
pub open spec fn is_state(s: Seq<char>) -> bool {
    s == "created"@ || s == "running"@ || s == "done"@ || s == "failed"@
}

/// The rules of the jobs: each fingerprint once, a known event and a state.
pub open spec fn jobs_ok(s: Seq<JobRowView>, events: Seq<EventRowView>) -> bool {
    &&& forall|i: int, j: int|
        0 <= i < j < s.len() ==> (#[trigger] s[i]).fingerprint != (#[trigger] s[j]).fingerprint
    &&& forall|i: int|
        0 <= i < s.len() ==> has_event(events, (#[trigger] s[i]).event_id) && is_state(s[i].state)
}

/// A candidate is a point or a region, determined or not.
pub open spec fn is_shape(kind: Seq<char>, status: Seq<char>) -> bool {
    (kind == "point"@ || kind == "region"@) && (status == "determined"@ || status
        == "underdetermined"@)
}

/// The rules of the candidates: ascending numbers in use, a known job, each rank
/// once in it, and a shape.
pub open spec fn candidates_ok(s: Seq<CandRowView>, last: int, jobs: Seq<JobRowView>) -> bool {
    &&& 0 <= last
    &&& forall|i: int, j: int|
        0 <= i < j < s.len() ==> (#[trigger] s[i]).cand_id < (#[trigger] s[j]).cand_id
    &&& forall|i: int, j: int|
        0 <= i < j < s.len() ==> !((#[trigger] s[i]).job_fp == (#[trigger] s[j]).job_fp
            && s[i].rank_in_job == s[j].rank_in_job)
    &&& forall|i: int|
        0 <= i < s.len() ==> 1 <= (#[trigger] s[i]).cand_id <= last && has_job(jobs, s[i].job_fp)
            && is_shape(s[i].kind, s[i].status) && !(s[i].region is Array)
}

impl DbView {
    /// The rules that hold in the tables.
    pub open spec fn valid(self) -> bool {
        &&& stations_ok(self.stations)
        &&& segments_ok(self.segments, self.last_segment, self.stations)
        &&& batches_ok(self.batches)
        &&& observations_ok(self.observations, self.last_obs, self.batches, self.stations)
        &&& xcorrs_ok(self.xcorrs, self.last_xcorr, self.observations)
        &&& events_ok(self.events)
        &&& links_ok(self.links, self.events, self.observations)
        &&& evidence_ok(self.evidence, self.events)
        &&& jobs_ok(self.jobs, self.events)
        &&& candidates_ok(self.candidates, self.last_candidate, self.jobs)
    }
}

/// A job with this fingerprint is in a state.
pub open spec fn job_in_state(jobs: Seq<JobRowView>, fp: Seq<char>, state: Seq<char>) -> bool {
    exists|i: int| 0 <= i < jobs.len() && (#[trigger] jobs[i]).fingerprint == fp
        && jobs[i].state == state
}

/// A job that is to be tried again.
pub open spec fn to_be_retried(j: JobRowView) -> JobRowView {
    if j.state == "running"@ {
        JobRowView { state: "created"@, started_at: None, worker: ""@, ..j }
    } else {
        j
    }
}

/// The jobs that a crash left running.
pub open spec fn running(j: JobRowView) -> bool {
    j.state == "running"@
}

/// The tables after recovery from a crash.
pub open spec fn recovered(v: DbView) -> DbView {
    DbView {
        candidates: v.candidates.filter(
            |c: CandRowView| !job_in_state(v.jobs, c.job_fp, "running"@),
        ),
        jobs: v.jobs.map_values(|j: JobRowView| to_be_retried(j)),
        ..v
    }
}

pub(crate) fn is_in_state(jobs: &Vec<JobRow>, fp: &str, state: &str) -> (r: bool)
    ensures
        r == job_in_state(jobrow_views(jobs@), fp@, state@),
{
    let ghost views = jobrow_views(jobs@);
    let mut i: usize = 0;
    while i < jobs.len()
        invariant
            i <= jobs@.len(),
            views == jobrow_views(jobs@),
            forall|k: int|
                0 <= k < i ==> !((#[trigger] views[k]).fingerprint == fp@ && views[k].state
                    == state@),
        decreases jobs@.len() - i,
    {
        assert(views[i as int] == jobs@[i as int]@);
        if same(jobs[i].fingerprint.as_str(), fp) && same(jobs[i].state.as_str(), state) {
            return true;
        }
        i += 1;
    }
    false
}

/// Fewer candidates keep the rules.
pub proof fn fewer_candidates_are_ok(
    s: Seq<CandRowView>,
    last: int,
    jobs: Seq<JobRowView>,
    pick: spec_fn(CandRowView) -> bool,
)
    requires
        candidates_ok(s, last, jobs),
    ensures
        candidates_ok(s.filter(pick), last, jobs),
{
    picked_items_keep_their_order(s, pick);
    let p = picked_positions(s, pick);
    let f = s.filter(pick);
    assert forall|i: int, j: int| 0 <= i < j < f.len() implies (#[trigger] f[i]).cand_id < (
    #[trigger] f[j]).cand_id by {
        assert(p[i] < p[j]);
        assert(f[i] == s[p[i]] && f[j] == s[p[j]]);
    }
    assert forall|i: int, j: int| 0 <= i < j < f.len() implies !((#[trigger] f[i]).job_fp == (
    #[trigger] f[j]).job_fp && f[i].rank_in_job == f[j].rank_in_job) by {
        assert(p[i] < p[j]);
        assert(f[i] == s[p[i]] && f[j] == s[p[j]]);
    }
    assert forall|i: int| 0 <= i < f.len() implies 1 <= (#[trigger] f[i]).cand_id <= last
        && has_job(
        jobs,
        f[i].job_fp,
    ) && is_shape(f[i].kind, f[i].status) && !(f[i].region is Array) by {
        assert(f[i] == s[p[i]]);
    }
}

/// Fewer clock segments keep the rules.
pub proof fn clock_rows_stay_ok(
    s: Seq<ClockSegmentView>,
    last: int,
    stations: Seq<StationRowView>,
    pick: spec_fn(ClockSegmentView) -> bool,
)
    requires
        segments_ok(s, last, stations),
    ensures
        segments_ok(s.filter(pick), last, stations),
{
    picked_items_keep_their_order(s, pick);
    let p = picked_positions(s, pick);
    let f = s.filter(pick);
    assert forall|i: int, j: int| 0 <= i < j < f.len() implies (#[trigger] f[i]).seg_id < (
    #[trigger] f[j]).seg_id by {
        assert(p[i] < p[j]);
        assert(f[i] == s[p[i]] && f[j] == s[p[j]]);
    }
    assert forall|i: int, j: int|
        0 <= i < j < f.len() && (#[trigger] f[i]).station_id == (
        #[trigger] f[j]).station_id implies !intervals_overlap(
        f[i].start_s,
        end_of(f[i].end_s),
        f[j].start_s,
        end_of(f[j].end_s),
    ) by {
        assert(p[i] < p[j]);
        assert(f[i] == s[p[i]] && f[j] == s[p[j]]);
    }
    assert forall|i: int| 0 <= i < f.len() implies {
        &&& 1 <= (#[trigger] f[i]).seg_id <= last
        &&& f[i].start_s.finite()
        &&& f[i].end_s matches Some(e) ==> e.finite() && f[i].start_s.below(e)
        &&& has_station(stations, f[i].station_id)
    } by {
        assert(f[i] == s[p[i]]);
    }
}

/// Jobs that differ at most in their progress keep the rules.
pub proof fn progressed_jobs_are_ok(
    a: Seq<JobRowView>,
    b: Seq<JobRowView>,
    events: Seq<EventRowView>,
)
    requires
        jobs_ok(a, events),
        a.len() == b.len(),
        forall|i: int|
            0 <= i < a.len() ==> (#[trigger] b[i]).fingerprint == a[i].fingerprint && b[i].event_id
                == a[i].event_id && is_state(b[i].state),
    ensures
        jobs_ok(b, events),
        forall|fp: Seq<char>| has_job(a, fp) <==> has_job(b, fp),
{
    assert forall|fp: Seq<char>| has_job(a, fp) implies has_job(b, fp) by {
        let k = choose|k: int| 0 <= k < a.len() && (#[trigger] a[k]).fingerprint == fp;
        assert(b[k].fingerprint == fp);
    }
    assert forall|fp: Seq<char>| has_job(b, fp) implies has_job(a, fp) by {
        let k = choose|k: int| 0 <= k < b.len() && (#[trigger] b[k]).fingerprint == fp;
        assert(a[k].fingerprint == fp);
    }
    assert forall|i: int, j: int| 0 <= i < j < b.len() implies (#[trigger] b[i]).fingerprint != (
    #[trigger] b[j]).fingerprint by {
        assert(a[i].fingerprint != a[j].fingerprint);
    }
    assert forall|i: int| 0 <= i < b.len() implies has_event(events, (#[trigger] b[i]).event_id)
        && is_state(b[i].state) by {
        assert(has_event(events, a[i].event_id));
    }
}

impl Db {
    /// Empty tables.
    pub fn open_memory() -> (r: Db)
        ensures
            r@.valid(),
            r@.stations.len() == 0,
            r@.segments.len() == 0,
            r@.batches.len() == 0,
            r@.observations.len() == 0,
            r@.xcorrs.len() == 0,
            r@.events.len() == 0,
            r@.links.len() == 0,
            r@.evidence.len() == 0,
            r@.jobs.len() == 0,
            r@.candidates.len() == 0,
            r@.last_segment == 0,
            r@.last_obs == 0,
            r@.last_xcorr == 0,
            r@.last_candidate == 0,
    {
        Db {
            stations: Vec::new(),
            segments: Vec::new(),
            batches: Vec::new(),
            observations: Vec::new(),
            xcorrs: Vec::new(),
            events: Vec::new(),
            links: Vec::new(),
            evidence: Vec::new(),
            jobs: Vec::new(),
            candidates: Vec::new(),
            last_segment: 0,
            last_obs: 0,
            last_xcorr: 0,
            last_candidate: 0,
        }
    }

    /// Recovers from a crash: jobs that were running are to be tried again, and
    /// the candidates that they had written are removed. Returns how many jobs
    /// that were.
    pub fn recover_pending_jobs(&mut self) -> (r: usize)
        requires
            old(self)@.valid(),
        ensures
            final(self)@.valid(),
            final(self)@ == recovered(old(self)@),
            r == old(self)@.jobs.filter(|j: JobRowView| running(j)).len(),
    {
        let ghost v = self@;
        let ghost keep = |c: CandRowView| !job_in_state(v.jobs, c.job_fp, "running"@);
        let ghost go = |j: JobRowView| running(j);
        let mut kept: Vec<CandRow> = Vec::new();
        let mut i: usize = 0;
        proof {
            reveal(Seq::filter);
            assert(v.candidates.take(0) =~= Seq::empty());
            assert(candrow_views(kept@) =~= Seq::empty());
        }
        while i < self.candidates.len()
            invariant
                i <= self.candidates@.len(),
                v == self@,
                keep == (|c: CandRowView| !job_in_state(v.jobs, c.job_fp, "running"@)),
                candrow_views(kept@) == v.candidates.take(i as int).filter(keep),
            decreases self.candidates@.len() - i,
        {
            let c = &self.candidates[i];
            let ghost before = candrow_views(kept@);
            assert(v.candidates.take(i + 1) =~= v.candidates.take(i as int).push(c@));
            proof {
                filter_of_push(v.candidates.take(i as int), c@, keep);
            }
            if !is_in_state(&self.jobs, c.job_fp.as_str(), "running") {
                assert(keep(c@));
                kept.push(c.copy());
                assert(candrow_views(kept@) =~= before.push(c@));
            } else {
                assert(!keep(c@));
            }
            i += 1;
        }
        assert(v.candidates.take(i as int) =~= v.candidates);
        self.candidates = kept;
        let ghost want = v.jobs.map_values(|j: JobRowView| to_be_retried(j));
        let ghost w = self@;
        let mut n: usize = 0;
        let mut k: usize = 0;
        proof {
            reveal(Seq::filter);
            assert(v.jobs.take(0) =~= Seq::empty());
        }
        while k < self.jobs.len()
            invariant
                k <= self.jobs@.len(),
                n <= k,
                self.jobs@.len() == v.jobs.len(),
                w == (DbView { candidates: v.candidates.filter(keep), ..v }),
                self@ == (DbView { jobs: self@.jobs, ..w }),
                want == v.jobs.map_values(|j: JobRowView| to_be_retried(j)),
                go == (|j: JobRowView| running(j)),
                self@.jobs =~= want.take(k as int) + v.jobs.skip(k as int),
                n == v.jobs.take(k as int).filter(go).len(),
            decreases self.jobs@.len() - k,
        {
            let ghost now = self@.jobs;
            assert(now[k as int] == self.jobs@[k as int]@);
            assert(now[k as int] == v.jobs[k as int]);
            assert(v.jobs.take(k + 1) =~= v.jobs.take(k as int).push(v.jobs[k as int]));
            proof {
                filter_of_push(v.jobs.take(k as int), v.jobs[k as int], go);
            }
            if same(self.jobs[k].state.as_str(), "running") {
                assert(go(v.jobs[k as int]));
                let mut j = self.jobs[k].copy();
                j.state = "created".to_owned();
                j.started_at = None;
                j.worker = "".to_owned();
                let ghost jv = j@;
                self.jobs.set(k, j);
                assert(self@.jobs =~= now.update(k as int, jv));
                n += 1;
            } else {
                assert(!go(v.jobs[k as int]));
            }
            assert(self@.jobs =~= want.take(k + 1) + v.jobs.skip(k + 1));
            k += 1;
        }
        assert(v.jobs.take(k as int) =~= v.jobs);
        assert(self@.jobs =~= want);
        proof {
            progressed_jobs_are_ok(v.jobs, want, v.events);
            fewer_candidates_are_ok(v.candidates, v.last_candidate, v.jobs, keep);
        }
        n
    }
}

} // verus!
