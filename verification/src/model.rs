//! The records that the survey keeps and exchanges.
//!
//! Coordinates are in metres, times, delays and clock offsets in seconds, the
//! speed of sound in metres per second, frequencies in hertz. Every interval is
//! half open: `[start, end)`.
use vstd::prelude::*;

use crate::double::Double;
use crate::figures::Pt;
use crate::json::{Json, JsonView};

verus! {

/// What an optional text says.
pub open spec fn opt_text(o: Option<String>) -> Option<Seq<char>> {
    match o {
        Some(s) => Some(s@),
        None => None,
    }
}

pub fn copy_option(o: &Option<String>) -> (r: Option<String>)
    ensures
        r == *o,
{
    match o {
        Some(s) => Some(s.clone()),
        None => None,
    }
}

pub fn copy_points(list: &Vec<Pt>) -> (r: Vec<Pt>)
    ensures
        r@ == list@,
{
    let mut out: Vec<Pt> = Vec::new();
    let mut i: usize = 0;
    while i < list.len()
        invariant
            i <= list@.len(),
            out@ =~= list@.take(i as int),
        decreases list@.len() - i,
    {
        out.push(list[i]);
        i += 1;
    }
    out
}

/// The rectangle of the site.
#[derive(Clone, Copy, Debug, PartialEq, Eq, Structural)]
pub struct SiteBounds {
    pub min_x: Double,
    pub min_y: Double,
    pub max_x: Double,
    pub max_y: Double,
}

/// A recorder: one microphone or an array of fixed shape.
#[derive(Debug)]
pub struct Station {
    pub station_id: String,
    pub x: Double,
    pub y: Double,
    pub label: String,
}

/// What a [`Station`] says.
#[verifier::ext_equal]
pub ghost struct StationView {
    pub station_id: Seq<char>,
    pub x: Double,
    pub y: Double,
    pub label: Seq<char>,
}

impl View for Station {
    type V = StationView;

    open spec fn view(&self) -> StationView {
        StationView {
            station_id: self.station_id@,
            x: self.x,
            y: self.y,
            label: self.label@,
        }
    }
}

impl Station {
    /// A second value that says the same.
    pub fn copy(&self) -> (r: Station)
        ensures
            r@ == self@,
    {
        Station {
            station_id: self.station_id.clone(),
            x: self.x,
            y: self.y,
            label: self.label.clone(),
        }
    }
}

/// What a list of stations says.
pub open spec fn station_views(s: Seq<Station>) -> Seq<StationView> {
    s.map_values(|v: Station| v@)
}

pub fn copy_stations(list: &Vec<Station>) -> (r: Vec<Station>)
    ensures
        station_views(r@) == station_views(list@),
{
    let mut out: Vec<Station> = Vec::new();
    let mut i: usize = 0;
    while i < list.len()
        invariant
            i <= list@.len(),
            out@.len() == i,
            forall|j: int| 0 <= j < i ==> (#[trigger] out@[j])@ == list@[j]@,
        decreases list@.len() - i,
    {
        out.push(list[i].copy());
        i += 1;
    }
    assert(station_views(out@) =~= station_views(list@));
    out
}

/// A stretch in which a local clock runs at a fixed offset: the local reading is
/// the site time plus `offset_sec`.
///
/// It covers `[t_start, t_end)`; without `t_end` it has no end.
#[derive(Debug)]
pub struct ClockSegment {
    pub station_id: String,
    pub t_start: Double,
    pub t_end: Option<Double>,
    pub offset_sec: Double,
    pub source: String,
}

/// What a [`ClockSegment`] says.
#[verifier::ext_equal]
pub ghost struct ClockSegmentView {
    pub station_id: Seq<char>,
    pub t_start: Double,
    pub t_end: Option<Double>,
    pub offset_sec: Double,
    pub source: Seq<char>,
}

impl View for ClockSegment {
    type V = ClockSegmentView;

    open spec fn view(&self) -> ClockSegmentView {
        ClockSegmentView {
            station_id: self.station_id@,
            t_start: self.t_start,
            t_end: self.t_end,
            offset_sec: self.offset_sec,
            source: self.source@,
        }
    }
}

impl ClockSegment {
    /// A second value that says the same.
    pub fn copy(&self) -> (r: ClockSegment)
        ensures
            r@ == self@,
    {
        ClockSegment {
            station_id: self.station_id.clone(),
            t_start: self.t_start,
            t_end: self.t_end,
            offset_sec: self.offset_sec,
            source: self.source.clone(),
        }
    }
}

/// A correlation delay as it is reported. A positive `lag_sec` says that the
/// sound reached this station later than `peer_id`.
#[derive(Debug)]
pub struct LagInput {
    pub peer_id: String,
    pub lag_sec: Double,
    pub peak_band_hz: Double,
    pub snr_db: Double,
    pub hint: String,
    pub lag_uid: Option<String>,
}

/// What a [`LagInput`] says.
#[verifier::ext_equal]
pub ghost struct LagInputView {
    pub peer_id: Seq<char>,
    pub lag_sec: Double,
    pub peak_band_hz: Double,
    pub snr_db: Double,
    pub hint: Seq<char>,
    pub lag_uid: Option<Seq<char>>,
}

impl View for LagInput {
    type V = LagInputView;

    open spec fn view(&self) -> LagInputView {
        LagInputView {
            peer_id: self.peer_id@,
            lag_sec: self.lag_sec,
            peak_band_hz: self.peak_band_hz,
            snr_db: self.snr_db,
            hint: self.hint@,
            lag_uid: opt_text(self.lag_uid),
        }
    }
}

impl LagInput {
    /// A second value that says the same.
    pub fn copy(&self) -> (r: LagInput)
        ensures
            r@ == self@,
    {
        LagInput {
            peer_id: self.peer_id.clone(),
            lag_sec: self.lag_sec,
            peak_band_hz: self.peak_band_hz,
            snr_db: self.snr_db,
            hint: self.hint.clone(),
            lag_uid: copy_option(&self.lag_uid),
        }
    }
}

/// What a list of reported delays says.
pub open spec fn laginput_views(s: Seq<LagInput>) -> Seq<LagInputView> {
    s.map_values(|v: LagInput| v@)
}

pub fn copy_laginputs(list: &Vec<LagInput>) -> (r: Vec<LagInput>)
    ensures
        laginput_views(r@) == laginput_views(list@),
{
    let mut out: Vec<LagInput> = Vec::new();
    let mut i: usize = 0;
    while i < list.len()
        invariant
            i <= list@.len(),
            out@.len() == i,
            forall|j: int| 0 <= j < i ==> (#[trigger] out@[j])@ == list@[j]@,
        decreases list@.len() - i,
    {
        out.push(list[i].copy());
        i += 1;
    }
    assert(laginput_views(out@) =~= laginput_views(list@));
    out
}

/// An observation as it is reported.
#[derive(Debug)]
pub struct ObservationInput {
    pub obs_uid: String,
    pub station_id: String,
    /// The reading of the local clock.
    pub local_onset_sec: Double,
    pub peak_band_hz: Double,
    pub snr_db: Double,
    pub lags: Vec<LagInput>,
}

/// What a [`ObservationInput`] says.
#[verifier::ext_equal]
pub ghost struct ObservationInputView {
    pub obs_uid: Seq<char>,
    pub station_id: Seq<char>,
    pub local_onset_sec: Double,
    pub peak_band_hz: Double,
    pub snr_db: Double,
    pub lags: Seq<LagInputView>,
}

impl View for ObservationInput {
    type V = ObservationInputView;

    open spec fn view(&self) -> ObservationInputView {
        ObservationInputView {
            obs_uid: self.obs_uid@,
            station_id: self.station_id@,
            local_onset_sec: self.local_onset_sec,
            peak_band_hz: self.peak_band_hz,
            snr_db: self.snr_db,
            lags: laginput_views(self.lags@),
        }
    }
}

impl ObservationInput {
    /// A second value that says the same.
    pub fn copy(&self) -> (r: ObservationInput)
        ensures
            r@ == self@,
    {
        ObservationInput {
            obs_uid: self.obs_uid.clone(),
            station_id: self.station_id.clone(),
            local_onset_sec: self.local_onset_sec,
            peak_band_hz: self.peak_band_hz,
            snr_db: self.snr_db,
            lags: copy_laginputs(&self.lags),
        }
    }
}

/// What a list of reported observations says.
pub open spec fn observationinput_views(s: Seq<ObservationInput>) -> Seq<ObservationInputView> {
    s.map_values(|v: ObservationInput| v@)
}

pub fn copy_observationinputs(list: &Vec<ObservationInput>) -> (r: Vec<ObservationInput>)
    ensures
        observationinput_views(r@) == observationinput_views(list@),
{
    let mut out: Vec<ObservationInput> = Vec::new();
    let mut i: usize = 0;
    while i < list.len()
        invariant
            i <= list@.len(),
            out@.len() == i,
            forall|j: int| 0 <= j < i ==> (#[trigger] out@[j])@ == list@[j]@,
        decreases list@.len() - i,
    {
        out.push(list[i].copy());
        i += 1;
    }
    assert(observationinput_views(out@) =~= observationinput_views(list@));
    out
}

/// A batch of observations. A batch counts once, however often it is sent.
#[derive(Debug)]
pub struct BatchInput {
    pub batch_uid: String,
    pub event_id: String,
    pub observations: Vec<ObservationInput>,
}

/// What a [`BatchInput`] says.
#[verifier::ext_equal]
pub ghost struct BatchInputView {
    pub batch_uid: Seq<char>,
    pub event_id: Seq<char>,
    pub observations: Seq<ObservationInputView>,
}

impl View for BatchInput {
    type V = BatchInputView;

    open spec fn view(&self) -> BatchInputView {
        BatchInputView {
            batch_uid: self.batch_uid@,
            event_id: self.event_id@,
            observations: observationinput_views(self.observations@),
        }
    }
}

impl BatchInput {
    /// A second value that says the same.
    pub fn copy(&self) -> (r: BatchInput)
        ensures
            r@ == self@,
    {
        BatchInput {
            batch_uid: self.batch_uid.clone(),
            event_id: self.event_id.clone(),
            observations: copy_observationinputs(&self.observations),
        }
    }
}

/// An event as it is entered.
#[derive(Debug)]
pub struct EventInput {
    pub event_id: String,
    pub label: String,
    /// The window is `[window_start, window_end)`.
    pub window_start: Double,
    pub window_end: Double,
    pub sound_speed_mps: Double,
    pub site_bounds: SiteBounds,
}

/// What a [`EventInput`] says.
#[verifier::ext_equal]
pub ghost struct EventInputView {
    pub event_id: Seq<char>,
    pub label: Seq<char>,
    pub window_start: Double,
    pub window_end: Double,
    pub sound_speed_mps: Double,
    pub site_bounds: SiteBounds,
}

impl View for EventInput {
    type V = EventInputView;

    open spec fn view(&self) -> EventInputView {
        EventInputView {
            event_id: self.event_id@,
            label: self.label@,
            window_start: self.window_start,
            window_end: self.window_end,
            sound_speed_mps: self.sound_speed_mps,
            site_bounds: self.site_bounds,
        }
    }
}

impl EventInput {
    /// A second value that says the same.
    pub fn copy(&self) -> (r: EventInput)
        ensures
            r@ == self@,
    {
        EventInput {
            event_id: self.event_id.clone(),
            label: self.label.clone(),
            window_start: self.window_start,
            window_end: self.window_end,
            sound_speed_mps: self.sound_speed_mps,
            site_bounds: self.site_bounds,
        }
    }
}

/// An observation as it is kept, with the time corrected by the clock model.
#[derive(Debug)]
pub struct ObservationRow {
    pub obs_uid: String,
    pub batch_uid: String,
    pub event_id: String,
    pub station_id: String,
    pub local_onset_sec: Double,
    pub corrected_onset_sec: Option<Double>,
    pub clock_locked: bool,
    pub clock_segment_id: Option<i64>,
    pub peak_band_hz: Double,
    pub snr_db: Double,
    pub duplicate_of: Option<String>,
}

/// What a [`ObservationRow`] says.
#[verifier::ext_equal]
pub ghost struct ObservationRowView {
    pub obs_uid: Seq<char>,
    pub batch_uid: Seq<char>,
    pub event_id: Seq<char>,
    pub station_id: Seq<char>,
    pub local_onset_sec: Double,
    pub corrected_onset_sec: Option<Double>,
    pub clock_locked: bool,
    pub clock_segment_id: Option<i64>,
    pub peak_band_hz: Double,
    pub snr_db: Double,
    pub duplicate_of: Option<Seq<char>>,
}

impl View for ObservationRow {
    type V = ObservationRowView;

    open spec fn view(&self) -> ObservationRowView {
        ObservationRowView {
            obs_uid: self.obs_uid@,
            batch_uid: self.batch_uid@,
            event_id: self.event_id@,
            station_id: self.station_id@,
            local_onset_sec: self.local_onset_sec,
            corrected_onset_sec: self.corrected_onset_sec,
            clock_locked: self.clock_locked,
            clock_segment_id: self.clock_segment_id,
            peak_band_hz: self.peak_band_hz,
            snr_db: self.snr_db,
            duplicate_of: opt_text(self.duplicate_of),
        }
    }
}

impl ObservationRow {
    /// A second value that says the same.
    pub fn copy(&self) -> (r: ObservationRow)
        ensures
            r@ == self@,
    {
        ObservationRow {
            obs_uid: self.obs_uid.clone(),
            batch_uid: self.batch_uid.clone(),
            event_id: self.event_id.clone(),
            station_id: self.station_id.clone(),
            local_onset_sec: self.local_onset_sec,
            corrected_onset_sec: self.corrected_onset_sec,
            clock_locked: self.clock_locked,
            clock_segment_id: self.clock_segment_id,
            peak_band_hz: self.peak_band_hz,
            snr_db: self.snr_db,
            duplicate_of: copy_option(&self.duplicate_of),
        }
    }
}

/// What a list of observations says.
pub open spec fn observationrow_views(s: Seq<ObservationRow>) -> Seq<ObservationRowView> {
    s.map_values(|v: ObservationRow| v@)
}

pub fn copy_observationrows(list: &Vec<ObservationRow>) -> (r: Vec<ObservationRow>)
    ensures
        observationrow_views(r@) == observationrow_views(list@),
{
    let mut out: Vec<ObservationRow> = Vec::new();
    let mut i: usize = 0;
    while i < list.len()
        invariant
            i <= list@.len(),
            out@.len() == i,
            forall|j: int| 0 <= j < i ==> (#[trigger] out@[j])@ == list@[j]@,
        decreases list@.len() - i,
    {
        out.push(list[i].copy());
        i += 1;
    }
    assert(observationrow_views(out@) =~= observationrow_views(list@));
    out
}

/// A correlation delay as it is kept.
#[derive(Debug)]
pub struct LagRow {
    pub lag_uid: String,
    pub obs_uid: String,
    pub station_id: String,
    pub peer_id: String,
    pub lag_sec: Double,
    pub peak_band_hz: Double,
    pub snr_db: Double,
    pub hint: String,
}

/// What a [`LagRow`] says.
#[verifier::ext_equal]
pub ghost struct LagRowView {
    pub lag_uid: Seq<char>,
    pub obs_uid: Seq<char>,
    pub station_id: Seq<char>,
    pub peer_id: Seq<char>,
    pub lag_sec: Double,
    pub peak_band_hz: Double,
    pub snr_db: Double,
    pub hint: Seq<char>,
}

impl View for LagRow {
    type V = LagRowView;

    open spec fn view(&self) -> LagRowView {
        LagRowView {
            lag_uid: self.lag_uid@,
            obs_uid: self.obs_uid@,
            station_id: self.station_id@,
            peer_id: self.peer_id@,
            lag_sec: self.lag_sec,
            peak_band_hz: self.peak_band_hz,
            snr_db: self.snr_db,
            hint: self.hint@,
        }
    }
}

impl LagRow {
    /// A second value that says the same.
    pub fn copy(&self) -> (r: LagRow)
        ensures
            r@ == self@,
    {
        LagRow {
            lag_uid: self.lag_uid.clone(),
            obs_uid: self.obs_uid.clone(),
            station_id: self.station_id.clone(),
            peer_id: self.peer_id.clone(),
            lag_sec: self.lag_sec,
            peak_band_hz: self.peak_band_hz,
            snr_db: self.snr_db,
            hint: self.hint.clone(),
        }
    }
}

/// What a list of delays says.
pub open spec fn lagrow_views(s: Seq<LagRow>) -> Seq<LagRowView> {
    s.map_values(|v: LagRow| v@)
}

/// A judgement of the engineer. Evidence is appended and never changed.
#[derive(Debug)]
pub struct EvidenceRow {
    pub evidence_id: String,
    pub event_id: String,
    pub kind: String,
    pub payload: Json,
    pub basis: String,
    pub created_at: String,
    pub superseded_by: Option<String>,
    pub active: bool,
}

/// What a [`EvidenceRow`] says.
#[verifier::ext_equal]
pub ghost struct EvidenceRowView {
    pub evidence_id: Seq<char>,
    pub event_id: Seq<char>,
    pub kind: Seq<char>,
    pub payload: JsonView,
    pub basis: Seq<char>,
    pub created_at: Seq<char>,
    pub superseded_by: Option<Seq<char>>,
    pub active: bool,
}

impl View for EvidenceRow {
    type V = EvidenceRowView;

    open spec fn view(&self) -> EvidenceRowView {
        EvidenceRowView {
            evidence_id: self.evidence_id@,
            event_id: self.event_id@,
            kind: self.kind@,
            payload: self.payload@,
            basis: self.basis@,
            created_at: self.created_at@,
            superseded_by: opt_text(self.superseded_by),
            active: self.active,
        }
    }
}

impl EvidenceRow {
    /// A second value that says the same.
    pub fn copy(&self) -> (r: EvidenceRow)
        ensures
            r@ == self@,
    {
        EvidenceRow {
            evidence_id: self.evidence_id.clone(),
            event_id: self.event_id.clone(),
            kind: self.kind.clone(),
            payload: self.payload.copy(),
            basis: self.basis.clone(),
            created_at: self.created_at.clone(),
            superseded_by: copy_option(&self.superseded_by),
            active: self.active,
        }
    }
}

/// What a list of evidence says.
pub open spec fn evidencerow_views(s: Seq<EvidenceRow>) -> Seq<EvidenceRowView> {
    s.map_values(|v: EvidenceRow| v@)
}

pub fn copy_evidencerows(list: &Vec<EvidenceRow>) -> (r: Vec<EvidenceRow>)
    ensures
        evidencerow_views(r@) == evidencerow_views(list@),
{
    let mut out: Vec<EvidenceRow> = Vec::new();
    let mut i: usize = 0;
    while i < list.len()
        invariant
            i <= list@.len(),
            out@.len() == i,
            forall|j: int| 0 <= j < i ==> (#[trigger] out@[j])@ == list@[j]@,
        decreases list@.len() - i,
    {
        out.push(list[i].copy());
        i += 1;
    }
    assert(evidencerow_views(out@) =~= evidencerow_views(list@));
    out
}

/// How a measurement fits a candidate.
#[derive(Debug)]
pub struct CandidateResidual {
    pub kind: String,
    pub lag_uid: Option<String>,
    pub station_id: String,
    pub peer_id: Option<String>,
    pub measured_sec: Double,
    pub predicted_sec: Option<Double>,
    pub residual_sec: Option<Double>,
    pub weight: Double,
    pub used: bool,
    pub excluded_reason: Option<String>,
}

/// What a [`CandidateResidual`] says.
#[verifier::ext_equal]
pub ghost struct CandidateResidualView {
    pub kind: Seq<char>,
    pub lag_uid: Option<Seq<char>>,
    pub station_id: Seq<char>,
    pub peer_id: Option<Seq<char>>,
    pub measured_sec: Double,
    pub predicted_sec: Option<Double>,
    pub residual_sec: Option<Double>,
    pub weight: Double,
    pub used: bool,
    pub excluded_reason: Option<Seq<char>>,
}

impl View for CandidateResidual {
    type V = CandidateResidualView;

    open spec fn view(&self) -> CandidateResidualView {
        CandidateResidualView {
            kind: self.kind@,
            lag_uid: opt_text(self.lag_uid),
            station_id: self.station_id@,
            peer_id: opt_text(self.peer_id),
            measured_sec: self.measured_sec,
            predicted_sec: self.predicted_sec,
            residual_sec: self.residual_sec,
            weight: self.weight,
            used: self.used,
            excluded_reason: opt_text(self.excluded_reason),
        }
    }
}

impl CandidateResidual {
    /// A second value that says the same.
    pub fn copy(&self) -> (r: CandidateResidual)
        ensures
            r@ == self@,
    {
        CandidateResidual {
            kind: self.kind.clone(),
            lag_uid: copy_option(&self.lag_uid),
            station_id: self.station_id.clone(),
            peer_id: copy_option(&self.peer_id),
            measured_sec: self.measured_sec,
            predicted_sec: self.predicted_sec,
            residual_sec: self.residual_sec,
            weight: self.weight,
            used: self.used,
            excluded_reason: copy_option(&self.excluded_reason),
        }
    }
}

/// What a list of residuals says.
pub open spec fn candidateresidual_views(s: Seq<CandidateResidual>) -> Seq<CandidateResidualView> {
    s.map_values(|v: CandidateResidual| v@)
}

pub fn copy_candidateresiduals(list: &Vec<CandidateResidual>) -> (r: Vec<CandidateResidual>)
    ensures
        candidateresidual_views(r@) == candidateresidual_views(list@),
{
    let mut out: Vec<CandidateResidual> = Vec::new();
    let mut i: usize = 0;
    while i < list.len()
        invariant
            i <= list@.len(),
            out@.len() == i,
            forall|j: int| 0 <= j < i ==> (#[trigger] out@[j])@ == list@[j]@,
        decreases list@.len() - i,
    {
        out.push(list[i].copy());
        i += 1;
    }
    assert(candidateresidual_views(out@) =~= candidateresidual_views(list@));
    out
}

/// A curve on which the source lies.
#[derive(Debug)]
pub struct Curve {
    pub kind: String,
    pub focus_a: Pt,
    pub focus_b: Pt,
    pub difference_m: Double,
    pub points: Vec<Pt>,
}

/// What a [`Curve`] says.
#[verifier::ext_equal]
pub ghost struct CurveView {
    pub kind: Seq<char>,
    pub focus_a: Pt,
    pub focus_b: Pt,
    pub difference_m: Double,
    pub points: Seq<Pt>,
}

impl View for Curve {
    type V = CurveView;

    open spec fn view(&self) -> CurveView {
        CurveView {
            kind: self.kind@,
            focus_a: self.focus_a,
            focus_b: self.focus_b,
            difference_m: self.difference_m,
            points: self.points@,
        }
    }
}

impl Curve {
    /// A second value that says the same.
    pub fn copy(&self) -> (r: Curve)
        ensures
            r@ == self@,
    {
        Curve {
            kind: self.kind.clone(),
            focus_a: self.focus_a,
            focus_b: self.focus_b,
            difference_m: self.difference_m,
            points: copy_points(&self.points),
        }
    }
}

/// A region in which the source lies.
#[derive(Debug)]
pub struct Region {
    pub kind: String,
    pub center: Pt,
    pub semi_axes: Pt,
    pub angle_rad: Double,
    pub polygon: Vec<Pt>,
}

/// What a [`Region`] says.
#[verifier::ext_equal]
pub ghost struct RegionView {
    pub kind: Seq<char>,
    pub center: Pt,
    pub semi_axes: Pt,
    pub angle_rad: Double,
    pub polygon: Seq<Pt>,
}

impl View for Region {
    type V = RegionView;

    open spec fn view(&self) -> RegionView {
        RegionView {
            kind: self.kind@,
            center: self.center,
            semi_axes: self.semi_axes,
            angle_rad: self.angle_rad,
            polygon: self.polygon@,
        }
    }
}

impl Region {
    /// A second value that says the same.
    pub fn copy(&self) -> (r: Region)
        ensures
            r@ == self@,
    {
        Region {
            kind: self.kind.clone(),
            center: self.center,
            semi_axes: self.semi_axes,
            angle_rad: self.angle_rad,
            polygon: copy_points(&self.polygon),
        }
    }
}

/// A position that the measurements allow: a point, a curve or a region.
#[derive(Debug)]
pub struct Candidate {
    pub candidate_id: String,
    pub job_id: i64,
    pub rank: i64,
    pub kind: String,
    pub point: Option<Pt>,
    pub curve: Option<Curve>,
    pub region: Option<Region>,
    pub rms_sec: Option<Double>,
    pub underdetermined: String,
    pub score: Double,
    pub signature: String,
    pub residuals: Vec<CandidateResidual>,
}

/// What a [`Candidate`] says.
#[verifier::ext_equal]
pub ghost struct CandidateView {
    pub candidate_id: Seq<char>,
    pub job_id: int,
    pub rank: int,
    pub kind: Seq<char>,
    pub point: Option<Pt>,
    pub curve: Option<CurveView>,
    pub region: Option<RegionView>,
    pub rms_sec: Option<Double>,
    pub underdetermined: Seq<char>,
    pub score: Double,
    pub signature: Seq<char>,
    pub residuals: Seq<CandidateResidualView>,
}

impl View for Candidate {
    type V = CandidateView;

    open spec fn view(&self) -> CandidateView {
        CandidateView {
            candidate_id: self.candidate_id@,
            job_id: self.job_id as int,
            rank: self.rank as int,
            kind: self.kind@,
            point: self.point,
            curve: match self.curve {
                Some(v) => Some(v@),
                None => None,
            },
            region: match self.region {
                Some(v) => Some(v@),
                None => None,
            },
            rms_sec: self.rms_sec,
            underdetermined: self.underdetermined@,
            score: self.score,
            signature: self.signature@,
            residuals: candidateresidual_views(self.residuals@),
        }
    }
}

impl Candidate {
    /// A second value that says the same.
    pub fn copy(&self) -> (r: Candidate)
        ensures
            r@ == self@,
    {
        Candidate {
            candidate_id: self.candidate_id.clone(),
            job_id: self.job_id,
            rank: self.rank,
            kind: self.kind.clone(),
            point: self.point,
            curve: match &self.curve {
                Some(v) => Some(v.copy()),
                None => None,
            },
            region: match &self.region {
                Some(v) => Some(v.copy()),
                None => None,
            },
            rms_sec: self.rms_sec,
            underdetermined: self.underdetermined.clone(),
            score: self.score,
            signature: self.signature.clone(),
            residuals: copy_candidateresiduals(&self.residuals),
        }
    }
}

/// What a list of candidates says.
pub open spec fn candidate_views(s: Seq<Candidate>) -> Seq<CandidateView> {
    s.map_values(|v: Candidate| v@)
}

pub fn copy_candidates(list: &Vec<Candidate>) -> (r: Vec<Candidate>)
    ensures
        candidate_views(r@) == candidate_views(list@),
{
    let mut out: Vec<Candidate> = Vec::new();
    let mut i: usize = 0;
    while i < list.len()
        invariant
            i <= list@.len(),
            out@.len() == i,
            forall|j: int| 0 <= j < i ==> (#[trigger] out@[j])@ == list@[j]@,
        decreases list@.len() - i,
    {
        out.push(list[i].copy());
        i += 1;
    }
    assert(candidate_views(out@) =~= candidate_views(list@));
    out
}

/// A solve job.
#[derive(Debug)]
pub struct JobView {
    pub job_id: i64,
    pub event_id: String,
    pub status: String,
    pub fingerprint: String,
    pub error: Option<String>,
    pub created_at: String,
}

/// What a [`JobView`] says.
#[verifier::ext_equal]
pub ghost struct JobSaid {
    pub job_id: int,
    pub event_id: Seq<char>,
    pub status: Seq<char>,
    pub fingerprint: Seq<char>,
    pub error: Option<Seq<char>>,
    pub created_at: Seq<char>,
}

impl View for JobView {
    type V = JobSaid;

    open spec fn view(&self) -> JobSaid {
        JobSaid {
            job_id: self.job_id as int,
            event_id: self.event_id@,
            status: self.status@,
            fingerprint: self.fingerprint@,
            error: opt_text(self.error),
            created_at: self.created_at@,
        }
    }
}

impl JobView {
    /// A second value that says the same.
    pub fn copy(&self) -> (r: JobView)
        ensures
            r@ == self@,
    {
        JobView {
            job_id: self.job_id,
            event_id: self.event_id.clone(),
            status: self.status.clone(),
            fingerprint: self.fingerprint.clone(),
            error: copy_option(&self.error),
            created_at: self.created_at.clone(),
        }
    }
}

} // verus!
