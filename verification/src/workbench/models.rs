//! The records of the workbench. Distances are in metres, times and delays in
//! seconds.
use vstd::prelude::*;

use crate::double::Double;
use crate::figures::Pt;
use crate::json::{Json, JsonView};
use crate::model::{copy_option, copy_points, opt_text};

verus! {

/// A station.
#[derive(Debug)]
pub struct Station {
    pub station_id: String,
    pub name: String,
    pub x: Double,
    pub y: Double,
}

/// What a [`Station`] says.
#[verifier::ext_equal]
pub ghost struct StationView {
    pub station_id: Seq<char>,
    pub name: Seq<char>,
    pub x: Double,
    pub y: Double,
}

impl View for Station {
    type V = StationView;

    open spec fn view(&self) -> StationView {
        StationView {
            station_id: self.station_id@,
            name: self.name@,
            x: self.x,
            y: self.y,
        }
    }
}

impl Station {
    /// A second value that says the same.
    pub fn copy(&self) -> (r: Station)
        ensures
            r@ == self@,
    {
        Station {
            station_id: self.station_id.clone(),
            name: self.name.clone(),
            x: self.x,
            y: self.y,
        }
    }
}

/// What a list of stations says.
pub open spec fn station_views(s: Seq<Station>) -> Seq<StationView> {
    s.map_values(|v: Station| v@)
}

pub fn copy_stations(list: &Vec<Station>) -> (r: Vec<Station>)
    ensures
        station_views(r@) == station_views(list@),
{
    let mut out: Vec<Station> = Vec::new();
    let mut i: usize = 0;
    while i < list.len()
        invariant
            i <= list@.len(),
            out@.len() == i,
            forall|j: int| 0 <= j < i ==> (#[trigger] out@[j])@ == list@[j]@,
        decreases list@.len() - i,
    {
        out.push(list[i].copy());
        i += 1;
    }
    assert(station_views(out@) =~= station_views(list@));
    out
}

/// A stretch `[start_s, end_s)` in which the clock of a station runs at a known
/// offset; without `end_s` it has no end.
#[derive(Debug)]
pub struct ClockSegment {
    pub seg_id: i64,
    pub station_id: String,
    pub start_s: Double,
    pub end_s: Option<Double>,
    pub offset_s: Double,
    pub sigma_s: Double,
    pub note: String,
}

/// What a [`ClockSegment`] says.
#[verifier::ext_equal]
pub ghost struct ClockSegmentView {
    pub seg_id: int,
    pub station_id: Seq<char>,
    pub start_s: Double,
    pub end_s: Option<Double>,
    pub offset_s: Double,
    pub sigma_s: Double,
    pub note: Seq<char>,
}

impl View for ClockSegment {
    type V = ClockSegmentView;

    open spec fn view(&self) -> ClockSegmentView {
        ClockSegmentView {
            seg_id: self.seg_id as int,
            station_id: self.station_id@,
            start_s: self.start_s,
            end_s: self.end_s,
            offset_s: self.offset_s,
            sigma_s: self.sigma_s,
            note: self.note@,
        }
    }
}

impl ClockSegment {
    /// A second value that says the same.
    pub fn copy(&self) -> (r: ClockSegment)
        ensures
            r@ == self@,
    {
        ClockSegment {
            seg_id: self.seg_id,
            station_id: self.station_id.clone(),
            start_s: self.start_s,
            end_s: self.end_s,
            offset_s: self.offset_s,
            sigma_s: self.sigma_s,
            note: self.note.clone(),
        }
    }
}

/// What a list of segments says.
pub open spec fn clocksegment_views(s: Seq<ClockSegment>) -> Seq<ClockSegmentView> {
    s.map_values(|v: ClockSegment| v@)
}

pub fn copy_clocksegments(list: &Vec<ClockSegment>) -> (r: Vec<ClockSegment>)
    ensures
        clocksegment_views(r@) == clocksegment_views(list@),
{
    let mut out: Vec<ClockSegment> = Vec::new();
    let mut i: usize = 0;
    while i < list.len()
        invariant
            i <= list@.len(),
            out@.len() == i,
            forall|j: int| 0 <= j < i ==> (#[trigger] out@[j])@ == list@[j]@,
        decreases list@.len() - i,
    {
        out.push(list[i].copy());
        i += 1;
    }
    assert(clocksegment_views(out@) =~= clocksegment_views(list@));
    out
}

/// An observation as it is shown.
#[derive(Debug)]
pub struct Observation {
    pub obs_id: i64,
    pub batch_fp: String,
    pub station_id: String,
    pub t_device: Double,
    pub local_onset_s: Double,
    pub peak_band_hz: Double,
    pub snr_db: Double,
    pub multipath: bool,
    pub excluded: bool,
}

/// What a [`Observation`] says.
#[verifier::ext_equal]
pub ghost struct ObservationView {
    pub obs_id: int,
    pub batch_fp: Seq<char>,
    pub station_id: Seq<char>,
    pub t_device: Double,
    pub local_onset_s: Double,
    pub peak_band_hz: Double,
    pub snr_db: Double,
    pub multipath: bool,
    pub excluded: bool,
}

impl View for Observation {
    type V = ObservationView;

    open spec fn view(&self) -> ObservationView {
        ObservationView {
            obs_id: self.obs_id as int,
            batch_fp: self.batch_fp@,
            station_id: self.station_id@,
            t_device: self.t_device,
            local_onset_s: self.local_onset_s,
            peak_band_hz: self.peak_band_hz,
            snr_db: self.snr_db,
            multipath: self.multipath,
            excluded: self.excluded,
        }
    }
}

impl Observation {
    /// A second value that says the same.
    pub fn copy(&self) -> (r: Observation)
        ensures
            r@ == self@,
    {
        Observation {
            obs_id: self.obs_id,
            batch_fp: self.batch_fp.clone(),
            station_id: self.station_id.clone(),
            t_device: self.t_device,
            local_onset_s: self.local_onset_s,
            peak_band_hz: self.peak_band_hz,
            snr_db: self.snr_db,
            multipath: self.multipath,
            excluded: self.excluded,
        }
    }
}

/// A delay between two observations as it is shown.
#[derive(Debug)]
pub struct Xcorr {
    pub xc_id: i64,
    pub obs_a: i64,
    pub obs_b: i64,
    pub station_a: String,
    pub station_b: String,
    pub delay_s: Double,
    pub sigma_s: Double,
    pub peak_index: i64,
    pub multipath: bool,
    pub excluded: bool,
}

/// What a [`Xcorr`] says.
#[verifier::ext_equal]
pub ghost struct XcorrView {
    pub xc_id: int,
    pub obs_a: int,
    pub obs_b: int,
    pub station_a: Seq<char>,
    pub station_b: Seq<char>,
    pub delay_s: Double,
    pub sigma_s: Double,
    pub peak_index: int,
    pub multipath: bool,
    pub excluded: bool,
}

impl View for Xcorr {
    type V = XcorrView;

    open spec fn view(&self) -> XcorrView {
        XcorrView {
            xc_id: self.xc_id as int,
            obs_a: self.obs_a as int,
            obs_b: self.obs_b as int,
            station_a: self.station_a@,
            station_b: self.station_b@,
            delay_s: self.delay_s,
            sigma_s: self.sigma_s,
            peak_index: self.peak_index as int,
            multipath: self.multipath,
            excluded: self.excluded,
        }
    }
}

impl Xcorr {
    /// A second value that says the same.
    pub fn copy(&self) -> (r: Xcorr)
        ensures
            r@ == self@,
    {
        Xcorr {
            xc_id: self.xc_id,
            obs_a: self.obs_a,
            obs_b: self.obs_b,
            station_a: self.station_a.clone(),
            station_b: self.station_b.clone(),
            delay_s: self.delay_s,
            sigma_s: self.sigma_s,
            peak_index: self.peak_index,
            multipath: self.multipath,
            excluded: self.excluded,
        }
    }
}

/// An event.
#[derive(Debug)]
pub struct EventHeader {
    pub event_id: String,
    pub title: String,
    pub t_start: Double,
    pub t_end: Double,
    pub sound_speed: Double,
    pub coordinate_unit: String,
    pub time_unit: String,
}

/// What a [`EventHeader`] says.
#[verifier::ext_equal]
pub ghost struct EventHeaderView {
    pub event_id: Seq<char>,
    pub title: Seq<char>,
    pub t_start: Double,
    pub t_end: Double,
    pub sound_speed: Double,
    pub coordinate_unit: Seq<char>,
    pub time_unit: Seq<char>,
}

impl View for EventHeader {
    type V = EventHeaderView;

    open spec fn view(&self) -> EventHeaderView {
        EventHeaderView {
            event_id: self.event_id@,
            title: self.title@,
            t_start: self.t_start,
            t_end: self.t_end,
            sound_speed: self.sound_speed,
            coordinate_unit: self.coordinate_unit@,
            time_unit: self.time_unit@,
        }
    }
}

impl EventHeader {
    /// A second value that says the same.
    pub fn copy(&self) -> (r: EventHeader)
        ensures
            r@ == self@,
    {
        EventHeader {
            event_id: self.event_id.clone(),
            title: self.title.clone(),
            t_start: self.t_start,
            t_end: self.t_end,
            sound_speed: self.sound_speed,
            coordinate_unit: self.coordinate_unit.clone(),
            time_unit: self.time_unit.clone(),
        }
    }
}

/// What a list of events says.
pub open spec fn eventheader_views(s: Seq<EventHeader>) -> Seq<EventHeaderView> {
    s.map_values(|v: EventHeader| v@)
}

/// How an edge fits a candidate.
#[derive(Debug)]
pub struct ResidualRow {
    pub edge: String,
    pub kind: String,
    pub station_a: String,
    pub station_b: String,
    pub measured_s: Double,
    pub predicted_s: Double,
    pub residual_s: Double,
    pub sigma_s: Double,
    pub n_sigma: Double,
    pub multipath: bool,
    pub excluded: bool,
}

/// What a [`ResidualRow`] says.
#[verifier::ext_equal]
pub ghost struct ResidualRowView {
    pub edge: Seq<char>,
    pub kind: Seq<char>,
    pub station_a: Seq<char>,
    pub station_b: Seq<char>,
    pub measured_s: Double,
    pub predicted_s: Double,
    pub residual_s: Double,
    pub sigma_s: Double,
    pub n_sigma: Double,
    pub multipath: bool,
    pub excluded: bool,
}

impl View for ResidualRow {
    type V = ResidualRowView;

    open spec fn view(&self) -> ResidualRowView {
        ResidualRowView {
            edge: self.edge@,
            kind: self.kind@,
            station_a: self.station_a@,
            station_b: self.station_b@,
            measured_s: self.measured_s,
            predicted_s: self.predicted_s,
            residual_s: self.residual_s,
            sigma_s: self.sigma_s,
            n_sigma: self.n_sigma,
            multipath: self.multipath,
            excluded: self.excluded,
        }
    }
}

impl ResidualRow {
    /// A second value that says the same.
    pub fn copy(&self) -> (r: ResidualRow)
        ensures
            r@ == self@,
    {
        ResidualRow {
            edge: self.edge.clone(),
            kind: self.kind.clone(),
            station_a: self.station_a.clone(),
            station_b: self.station_b.clone(),
            measured_s: self.measured_s,
            predicted_s: self.predicted_s,
            residual_s: self.residual_s,
            sigma_s: self.sigma_s,
            n_sigma: self.n_sigma,
            multipath: self.multipath,
            excluded: self.excluded,
        }
    }
}

/// What a list of residuals says.
pub open spec fn residualrow_views(s: Seq<ResidualRow>) -> Seq<ResidualRowView> {
    s.map_values(|v: ResidualRow| v@)
}

pub fn copy_residualrows(list: &Vec<ResidualRow>) -> (r: Vec<ResidualRow>)
    ensures
        residualrow_views(r@) == residualrow_views(list@),
{
    let mut out: Vec<ResidualRow> = Vec::new();
    let mut i: usize = 0;
    while i < list.len()
        invariant
            i <= list@.len(),
            out@.len() == i,
            forall|j: int| 0 <= j < i ==> (#[trigger] out@[j])@ == list@[j]@,
        decreases list@.len() - i,
    {
        out.push(list[i].copy());
        i += 1;
    }
    assert(residualrow_views(out@) =~= residualrow_views(list@));
    out
}

/// A region as it is shown.
#[derive(Debug)]
pub struct Region {
    pub shape: String,
    pub coordinates: Vec<Pt>,
    pub source: String,
}

/// What a [`Region`] says.
#[verifier::ext_equal]
pub ghost struct RegionView {
    pub shape: Seq<char>,
    pub coordinates: Seq<Pt>,
    pub source: Seq<char>,
}

impl View for Region {
    type V = RegionView;

    open spec fn view(&self) -> RegionView {
        RegionView {
            shape: self.shape@,
            coordinates: self.coordinates@,
            source: self.source@,
        }
    }
}

impl Region {
    /// A second value that says the same.
    pub fn copy(&self) -> (r: Region)
        ensures
            r@ == self@,
    {
        Region {
            shape: self.shape.clone(),
            coordinates: copy_points(&self.coordinates),
            source: self.source.clone(),
        }
    }
}

/// A candidate as it is shown.
#[derive(Debug)]
pub struct Candidate {
    pub cand_id: i64,
    pub cand_key: String,
    pub job_fp: String,
    pub rank_in_job: i64,
    pub kind: String,
    pub status: String,
    pub reason: String,
    pub x: Option<Double>,
    pub y: Option<Double>,
    pub region: Option<Region>,
    pub metrics: Json,
    pub residuals: Vec<ResidualRow>,
    pub kept: bool,
}

/// What a [`Candidate`] says.
#[verifier::ext_equal]
pub ghost struct CandidateView {
    pub cand_id: int,
    pub cand_key: Seq<char>,
    pub job_fp: Seq<char>,
    pub rank_in_job: int,
    pub kind: Seq<char>,
    pub status: Seq<char>,
    pub reason: Seq<char>,
    pub x: Option<Double>,
    pub y: Option<Double>,
    pub region: Option<RegionView>,
    pub metrics: JsonView,
    pub residuals: Seq<ResidualRowView>,
    pub kept: bool,
}

impl View for Candidate {
    type V = CandidateView;

    open spec fn view(&self) -> CandidateView {
        CandidateView {
            cand_id: self.cand_id as int,
            cand_key: self.cand_key@,
            job_fp: self.job_fp@,
            rank_in_job: self.rank_in_job as int,
            kind: self.kind@,
            status: self.status@,
            reason: self.reason@,
            x: self.x,
            y: self.y,
            region: match self.region {
                Some(v) => Some(v@),
                None => None,
            },
            metrics: self.metrics@,
            residuals: residualrow_views(self.residuals@),
            kept: self.kept,
        }
    }
}

impl Candidate {
    /// A second value that says the same.
    pub fn copy(&self) -> (r: Candidate)
        ensures
            r@ == self@,
    {
        Candidate {
            cand_id: self.cand_id,
            cand_key: self.cand_key.clone(),
            job_fp: self.job_fp.clone(),
            rank_in_job: self.rank_in_job,
            kind: self.kind.clone(),
            status: self.status.clone(),
            reason: self.reason.clone(),
            x: self.x,
            y: self.y,
            region: match &self.region {
                Some(v) => Some(v.copy()),
                None => None,
            },
            metrics: self.metrics.copy(),
            residuals: copy_residualrows(&self.residuals),
            kept: self.kept,
        }
    }
}

/// What a list of candidates says.
pub open spec fn candidate_views(s: Seq<Candidate>) -> Seq<CandidateView> {
    s.map_values(|v: Candidate| v@)
}

pub fn copy_candidates(list: &Vec<Candidate>) -> (r: Vec<Candidate>)
    ensures
        candidate_views(r@) == candidate_views(list@),
{
    let mut out: Vec<Candidate> = Vec::new();
    let mut i: usize = 0;
    while i < list.len()
        invariant
            i <= list@.len(),
            out@.len() == i,
            forall|j: int| 0 <= j < i ==> (#[trigger] out@[j])@ == list@[j]@,
        decreases list@.len() - i,
    {
        out.push(list[i].copy());
        i += 1;
    }
    assert(candidate_views(out@) =~= candidate_views(list@));
    out
}

/// A request for a station.
#[derive(Debug)]
pub struct CreateStationReq {
    pub station_id: String,
    pub name: String,
    pub x: Double,
    pub y: Double,
}

/// What a [`CreateStationReq`] says.
#[verifier::ext_equal]
pub ghost struct CreateStationReqView {
    pub station_id: Seq<char>,
    pub name: Seq<char>,
    pub x: Double,
    pub y: Double,
}

impl View for CreateStationReq {
    type V = CreateStationReqView;

    open spec fn view(&self) -> CreateStationReqView {
        CreateStationReqView {
            station_id: self.station_id@,
            name: self.name@,
            x: self.x,
            y: self.y,
        }
    }
}

impl CreateStationReq {
    /// A second value that says the same.
    pub fn copy(&self) -> (r: CreateStationReq)
        ensures
            r@ == self@,
    {
        CreateStationReq {
            station_id: self.station_id.clone(),
            name: self.name.clone(),
            x: self.x,
            y: self.y,
        }
    }
}

/// A request for a clock segment.
#[derive(Debug)]
pub struct ClockSegmentReq {
    pub station_id: String,
    pub start_s: Double,
    pub end_s: Option<Double>,
    pub offset_s: Double,
    pub sigma_s: Double,
    pub note: String,
}

/// What a [`ClockSegmentReq`] says.
#[verifier::ext_equal]
pub ghost struct ClockSegmentReqView {
    pub station_id: Seq<char>,
    pub start_s: Double,
    pub end_s: Option<Double>,
    pub offset_s: Double,
    pub sigma_s: Double,
    pub note: Seq<char>,
}

impl View for ClockSegmentReq {
    type V = ClockSegmentReqView;

    open spec fn view(&self) -> ClockSegmentReqView {
        ClockSegmentReqView {
            station_id: self.station_id@,
            start_s: self.start_s,
            end_s: self.end_s,
            offset_s: self.offset_s,
            sigma_s: self.sigma_s,
            note: self.note@,
        }
    }
}

impl ClockSegmentReq {
    /// A second value that says the same.
    pub fn copy(&self) -> (r: ClockSegmentReq)
        ensures
            r@ == self@,
    {
        ClockSegmentReq {
            station_id: self.station_id.clone(),
            start_s: self.start_s,
            end_s: self.end_s,
            offset_s: self.offset_s,
            sigma_s: self.sigma_s,
            note: self.note.clone(),
        }
    }
}

/// A request for an event.
#[derive(Debug)]
pub struct CreateEventReq {
    pub event_id: String,
    pub title: String,
    pub t_start: Double,
    pub t_end: Double,
    pub sound_speed: Double,
}

/// What a [`CreateEventReq`] says.
#[verifier::ext_equal]
pub ghost struct CreateEventReqView {
    pub event_id: Seq<char>,
    pub title: Seq<char>,
    pub t_start: Double,
    pub t_end: Double,
    pub sound_speed: Double,
}

impl View for CreateEventReq {
    type V = CreateEventReqView;

    open spec fn view(&self) -> CreateEventReqView {
        CreateEventReqView {
            event_id: self.event_id@,
            title: self.title@,
            t_start: self.t_start,
            t_end: self.t_end,
            sound_speed: self.sound_speed,
        }
    }
}

impl CreateEventReq {
    /// A second value that says the same.
    pub fn copy(&self) -> (r: CreateEventReq)
        ensures
            r@ == self@,
    {
        CreateEventReq {
            event_id: self.event_id.clone(),
            title: self.title.clone(),
            t_start: self.t_start,
            t_end: self.t_end,
            sound_speed: self.sound_speed,
        }
    }
}

/// A cross-correlation delay to another observation of the same batch.
#[derive(Debug)]
pub struct IngestXcorr {
    pub obs_index: usize,
    pub delay_s: Double,
    pub sigma_s: Double,
    pub peak_index: i64,
    pub multipath: bool,
}

/// What a [`IngestXcorr`] says.
#[verifier::ext_equal]
pub ghost struct IngestXcorrView {
    pub obs_index: int,
    pub delay_s: Double,
    pub sigma_s: Double,
    pub peak_index: int,
    pub multipath: bool,
}

impl View for IngestXcorr {
    type V = IngestXcorrView;

    open spec fn view(&self) -> IngestXcorrView {
        IngestXcorrView {
            obs_index: self.obs_index as int,
            delay_s: self.delay_s,
            sigma_s: self.sigma_s,
            peak_index: self.peak_index as int,
            multipath: self.multipath,
        }
    }
}

impl IngestXcorr {
    /// A second value that says the same.
    pub fn copy(&self) -> (r: IngestXcorr)
        ensures
            r@ == self@,
    {
        IngestXcorr {
            obs_index: self.obs_index,
            delay_s: self.delay_s,
            sigma_s: self.sigma_s,
            peak_index: self.peak_index,
            multipath: self.multipath,
        }
    }
}

/// What a list of delays says.
pub open spec fn ingestxcorr_views(s: Seq<IngestXcorr>) -> Seq<IngestXcorrView> {
    s.map_values(|v: IngestXcorr| v@)
}

pub fn copy_ingestxcorrs(list: &Vec<IngestXcorr>) -> (r: Vec<IngestXcorr>)
    ensures
        ingestxcorr_views(r@) == ingestxcorr_views(list@),
{
    let mut out: Vec<IngestXcorr> = Vec::new();
    let mut i: usize = 0;
    while i < list.len()
        invariant
            i <= list@.len(),
            out@.len() == i,
            forall|j: int| 0 <= j < i ==> (#[trigger] out@[j])@ == list@[j]@,
        decreases list@.len() - i,
    {
        out.push(list[i].copy());
        i += 1;
    }
    assert(ingestxcorr_views(out@) =~= ingestxcorr_views(list@));
    out
}

/// An observation as it is reported.
#[derive(Debug)]
pub struct IngestObs {
    pub station_id: String,
    pub event_ref: Option<String>,
    pub t_device: Double,
    pub local_onset_s: Double,
    pub peak_band_hz: Double,
    pub snr_db: Double,
    pub xcorr: Vec<IngestXcorr>,
}

/// What a [`IngestObs`] says.
#[verifier::ext_equal]
pub ghost struct IngestObsView {
    pub station_id: Seq<char>,
    pub event_ref: Option<Seq<char>>,
    pub t_device: Double,
    pub local_onset_s: Double,
    pub peak_band_hz: Double,
    pub snr_db: Double,
    pub xcorr: Seq<IngestXcorrView>,
}

impl View for IngestObs {
    type V = IngestObsView;

    open spec fn view(&self) -> IngestObsView {
        IngestObsView {
            station_id: self.station_id@,
            event_ref: opt_text(self.event_ref),
            t_device: self.t_device,
            local_onset_s: self.local_onset_s,
            peak_band_hz: self.peak_band_hz,
            snr_db: self.snr_db,
            xcorr: ingestxcorr_views(self.xcorr@),
        }
    }
}

impl IngestObs {
    /// A second value that says the same.
    pub fn copy(&self) -> (r: IngestObs)
        ensures
            r@ == self@,
    {
        IngestObs {
            station_id: self.station_id.clone(),
            event_ref: copy_option(&self.event_ref),
            t_device: self.t_device,
            local_onset_s: self.local_onset_s,
            peak_band_hz: self.peak_band_hz,
            snr_db: self.snr_db,
            xcorr: copy_ingestxcorrs(&self.xcorr),
        }
    }
}

/// What a list of reported observations says.
pub open spec fn ingestobs_views(s: Seq<IngestObs>) -> Seq<IngestObsView> {
    s.map_values(|v: IngestObs| v@)
}

pub fn copy_ingestobss(list: &Vec<IngestObs>) -> (r: Vec<IngestObs>)
    ensures
        ingestobs_views(r@) == ingestobs_views(list@),
{
    let mut out: Vec<IngestObs> = Vec::new();
    let mut i: usize = 0;
    while i < list.len()
        invariant
            i <= list@.len(),
            out@.len() == i,
            forall|j: int| 0 <= j < i ==> (#[trigger] out@[j])@ == list@[j]@,
        decreases list@.len() - i,
    {
        out.push(list[i].copy());
        i += 1;
    }
    assert(ingestobs_views(out@) =~= ingestobs_views(list@));
    out
}

/// A batch as it is sent.
#[derive(Debug)]
pub struct IngestReq {
    pub fingerprint: Option<String>,
    pub received_at: Option<Double>,
    pub observations: Vec<IngestObs>,
}

/// What a [`IngestReq`] says.
#[verifier::ext_equal]
pub ghost struct IngestReqView {
    pub fingerprint: Option<Seq<char>>,
    pub received_at: Option<Double>,
    pub observations: Seq<IngestObsView>,
}

impl View for IngestReq {
    type V = IngestReqView;

    open spec fn view(&self) -> IngestReqView {
        IngestReqView {
            fingerprint: opt_text(self.fingerprint),
            received_at: self.received_at,
            observations: ingestobs_views(self.observations@),
        }
    }
}

impl IngestReq {
    /// A second value that says the same.
    pub fn copy(&self) -> (r: IngestReq)
        ensures
            r@ == self@,
    {
        IngestReq {
            fingerprint: copy_option(&self.fingerprint),
            received_at: self.received_at,
            observations: copy_ingestobss(&self.observations),
        }
    }
}

/// A judgement of the analyst.
#[derive(Debug)]
pub struct EvidenceReq {
    pub kind: String,
    pub payload: Json,
}

/// What a [`EvidenceReq`] says.
#[verifier::ext_equal]
pub ghost struct EvidenceReqView {
    pub kind: Seq<char>,
    pub payload: JsonView,
}

impl View for EvidenceReq {
    type V = EvidenceReqView;

    open spec fn view(&self) -> EvidenceReqView {
        EvidenceReqView {
            kind: self.kind@,
            payload: self.payload@,
        }
    }
}

impl EvidenceReq {
    /// A second value that says the same.
    pub fn copy(&self) -> (r: EvidenceReq)
        ensures
            r@ == self@,
    {
        EvidenceReq {
            kind: self.kind.clone(),
            payload: self.payload.copy(),
        }
    }
}

/// 0.002 s: the uncertainty of an offset or a delay where none is given.
pub const DEFAULT_SIGMA: u64 = 0x3f60_624d_d2f1_a9fc;

/// 343 m/s: the speed of sound where none is given.
pub const DEFAULT_SPEED: u64 = 0x4075_7000_0000_0000;

} // verus!
