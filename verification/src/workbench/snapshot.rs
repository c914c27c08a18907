//! What a solve goes by: a picture of the observations, the clocks and the
//! judgements of one event.
use vstd::prelude::*;

use crate::double::Double;
use crate::json::{Json, JsonView};
use crate::workbench::models::{
    clocksegment_views, copy_clocksegments, copy_residualrows, residualrow_views, ClockSegment,
    ClockSegmentView, ResidualRow, ResidualRowView,
};

verus! {

/// A station and where it stands.
#[derive(Debug)]
pub struct StationInfo {
    pub station_id: String,
    pub x: Double,
    pub y: Double,
}

/// What a [`StationInfo`] says.
#[verifier::ext_equal]
pub ghost struct StationInfoView {
    pub station_id: Seq<char>,
    pub x: Double,
    pub y: Double,
}

impl View for StationInfo {
    type V = StationInfoView;

    open spec fn view(&self) -> StationInfoView {
        StationInfoView {
            station_id: self.station_id@,
            x: self.x,
            y: self.y,
        }
    }
}

impl StationInfo {
    /// A second value that says the same.
    pub fn copy(&self) -> (r: StationInfo)
        ensures
            r@ == self@,
    {
        StationInfo {
            station_id: self.station_id.clone(),
            x: self.x,
            y: self.y,
        }
    }
}

/// What a list of stations says.
pub open spec fn stationinfo_views(s: Seq<StationInfo>) -> Seq<StationInfoView> {
    s.map_values(|v: StationInfo| v@)
}

pub fn copy_stationinfos(list: &Vec<StationInfo>) -> (r: Vec<StationInfo>)
    ensures
        stationinfo_views(r@) == stationinfo_views(list@),
{
    let mut out: Vec<StationInfo> = Vec::new();
    let mut i: usize = 0;
    while i < list.len()
        invariant
            i <= list@.len(),
            out@.len() == i,
            forall|j: int| 0 <= j < i ==> (#[trigger] out@[j])@ == list@[j]@,
        decreases list@.len() - i,
    {
        out.push(list[i].copy());
        i += 1;
    }
    assert(stationinfo_views(out@) =~= stationinfo_views(list@));
    out
}

/// A measured difference between the arrivals at two stations.
#[derive(Debug)]
pub struct EdgeObs {
    pub station_a: String,
    pub station_b: String,
    /// The arrival at `b` minus the arrival at `a`.
    pub delay_s: Double,
    pub sigma_s: Double,
    pub multipath: bool,
    pub xc_id: Option<i64>,
    pub peak_index: i64,
    /// `xcorr` or `onset`.
    pub origin: String,
}

/// What a [`EdgeObs`] says.
#[verifier::ext_equal]
pub ghost struct EdgeObsView {
    pub station_a: Seq<char>,
    pub station_b: Seq<char>,
    pub delay_s: Double,
    pub sigma_s: Double,
    pub multipath: bool,
    pub xc_id: Option<i64>,
    pub peak_index: int,
    pub origin: Seq<char>,
}

impl View for EdgeObs {
    type V = EdgeObsView;

    open spec fn view(&self) -> EdgeObsView {
        EdgeObsView {
            station_a: self.station_a@,
            station_b: self.station_b@,
            delay_s: self.delay_s,
            sigma_s: self.sigma_s,
            multipath: self.multipath,
            xc_id: self.xc_id,
            peak_index: self.peak_index as int,
            origin: self.origin@,
        }
    }
}

impl EdgeObs {
    /// A second value that says the same.
    pub fn copy(&self) -> (r: EdgeObs)
        ensures
            r@ == self@,
    {
        EdgeObs {
            station_a: self.station_a.clone(),
            station_b: self.station_b.clone(),
            delay_s: self.delay_s,
            sigma_s: self.sigma_s,
            multipath: self.multipath,
            xc_id: self.xc_id,
            peak_index: self.peak_index,
            origin: self.origin.clone(),
        }
    }
}

/// What a list of differences says.
pub open spec fn edgeobs_views(s: Seq<EdgeObs>) -> Seq<EdgeObsView> {
    s.map_values(|v: EdgeObs| v@)
}

pub fn copy_edgeobss(list: &Vec<EdgeObs>) -> (r: Vec<EdgeObs>)
    ensures
        edgeobs_views(r@) == edgeobs_views(list@),
{
    let mut out: Vec<EdgeObs> = Vec::new();
    let mut i: usize = 0;
    while i < list.len()
        invariant
            i <= list@.len(),
            out@.len() == i,
            forall|j: int| 0 <= j < i ==> (#[trigger] out@[j])@ == list@[j]@,
        decreases list@.len() - i,
    {
        out.push(list[i].copy());
        i += 1;
    }
    assert(edgeobs_views(out@) =~= edgeobs_views(list@));
    out
}

/// The clock segments of a station.
#[derive(Debug)]
pub struct StationClock {
    pub station_id: String,
    pub segments: Vec<ClockSegment>,
}

/// What a [`StationClock`] says.
#[verifier::ext_equal]
pub ghost struct StationClockView {
    pub station_id: Seq<char>,
    pub segments: Seq<ClockSegmentView>,
}

impl View for StationClock {
    type V = StationClockView;

    open spec fn view(&self) -> StationClockView {
        StationClockView {
            station_id: self.station_id@,
            segments: clocksegment_views(self.segments@),
        }
    }
}

impl StationClock {
    /// A second value that says the same.
    pub fn copy(&self) -> (r: StationClock)
        ensures
            r@ == self@,
    {
        StationClock {
            station_id: self.station_id.clone(),
            segments: copy_clocksegments(&self.segments),
        }
    }
}

/// What a list of clocks says.
pub open spec fn stationclock_views(s: Seq<StationClock>) -> Seq<StationClockView> {
    s.map_values(|v: StationClock| v@)
}

pub fn copy_stationclocks(list: &Vec<StationClock>) -> (r: Vec<StationClock>)
    ensures
        stationclock_views(r@) == stationclock_views(list@),
{
    let mut out: Vec<StationClock> = Vec::new();
    let mut i: usize = 0;
    while i < list.len()
        invariant
            i <= list@.len(),
            out@.len() == i,
            forall|j: int| 0 <= j < i ==> (#[trigger] out@[j])@ == list@[j]@,
        decreases list@.len() - i,
    {
        out.push(list[i].copy());
        i += 1;
    }
    assert(stationclock_views(out@) =~= stationclock_views(list@));
    out
}

/// A peak that the analyst has excluded.
#[derive(Debug)]
pub struct ExcludedPeak {
    pub station_a: String,
    pub station_b: String,
    pub peak_index: i64,
}

/// What a [`ExcludedPeak`] says.
#[verifier::ext_equal]
pub ghost struct ExcludedPeakView {
    pub station_a: Seq<char>,
    pub station_b: Seq<char>,
    pub peak_index: int,
}

impl View for ExcludedPeak {
    type V = ExcludedPeakView;

    open spec fn view(&self) -> ExcludedPeakView {
        ExcludedPeakView {
            station_a: self.station_a@,
            station_b: self.station_b@,
            peak_index: self.peak_index as int,
        }
    }
}

impl ExcludedPeak {
    /// A second value that says the same.
    pub fn copy(&self) -> (r: ExcludedPeak)
        ensures
            r@ == self@,
    {
        ExcludedPeak {
            station_a: self.station_a.clone(),
            station_b: self.station_b.clone(),
            peak_index: self.peak_index,
        }
    }
}

/// What a list of excluded peaks says.
pub open spec fn excludedpeak_views(s: Seq<ExcludedPeak>) -> Seq<ExcludedPeakView> {
    s.map_values(|v: ExcludedPeak| v@)
}

pub fn copy_excludedpeaks(list: &Vec<ExcludedPeak>) -> (r: Vec<ExcludedPeak>)
    ensures
        excludedpeak_views(r@) == excludedpeak_views(list@),
{
    let mut out: Vec<ExcludedPeak> = Vec::new();
    let mut i: usize = 0;
    while i < list.len()
        invariant
            i <= list@.len(),
            out@.len() == i,
            forall|j: int| 0 <= j < i ==> (#[trigger] out@[j])@ == list@[j]@,
        decreases list@.len() - i,
    {
        out.push(list[i].copy());
        i += 1;
    }
    assert(excludedpeak_views(out@) =~= excludedpeak_views(list@));
    out
}

/// An offset that the analyst has locked.
#[derive(Debug)]
pub struct Lock {
    pub station_id: String,
    pub offset_s: Double,
    pub sigma_s: Double,
}

/// What a [`Lock`] says.
#[verifier::ext_equal]
pub ghost struct LockView {
    pub station_id: Seq<char>,
    pub offset_s: Double,
    pub sigma_s: Double,
}

impl View for Lock {
    type V = LockView;

    open spec fn view(&self) -> LockView {
        LockView {
            station_id: self.station_id@,
            offset_s: self.offset_s,
            sigma_s: self.sigma_s,
        }
    }
}

impl Lock {
    /// A second value that says the same.
    pub fn copy(&self) -> (r: Lock)
        ensures
            r@ == self@,
    {
        Lock {
            station_id: self.station_id.clone(),
            offset_s: self.offset_s,
            sigma_s: self.sigma_s,
        }
    }
}

/// What a list of locked offsets says.
pub open spec fn lock_views(s: Seq<Lock>) -> Seq<LockView> {
    s.map_values(|v: Lock| v@)
}

pub fn copy_locks(list: &Vec<Lock>) -> (r: Vec<Lock>)
    ensures
        lock_views(r@) == lock_views(list@),
{
    let mut out: Vec<Lock> = Vec::new();
    let mut i: usize = 0;
    while i < list.len()
        invariant
            i <= list@.len(),
            out@.len() == i,
            forall|j: int| 0 <= j < i ==> (#[trigger] out@[j])@ == list@[j]@,
        decreases list@.len() - i,
    {
        out.push(list[i].copy());
        i += 1;
    }
    assert(lock_views(out@) =~= lock_views(list@));
    out
}

/// Two candidates that the analyst keeps as inseparable.
#[derive(Debug)]
pub struct KeptPair {
    pub a: String,
    pub b: String,
}

/// What a [`KeptPair`] says.
#[verifier::ext_equal]
pub ghost struct KeptPairView {
    pub a: Seq<char>,
    pub b: Seq<char>,
}

impl View for KeptPair {
    type V = KeptPairView;

    open spec fn view(&self) -> KeptPairView {
        KeptPairView {
            a: self.a@,
            b: self.b@,
        }
    }
}

impl KeptPair {
    /// A second value that says the same.
    pub fn copy(&self) -> (r: KeptPair)
        ensures
            r@ == self@,
    {
        KeptPair {
            a: self.a.clone(),
            b: self.b.clone(),
        }
    }
}

/// What a list of kept pairs says.
pub open spec fn keptpair_views(s: Seq<KeptPair>) -> Seq<KeptPairView> {
    s.map_values(|v: KeptPair| v@)
}

pub fn copy_keptpairs(list: &Vec<KeptPair>) -> (r: Vec<KeptPair>)
    ensures
        keptpair_views(r@) == keptpair_views(list@),
{
    let mut out: Vec<KeptPair> = Vec::new();
    let mut i: usize = 0;
    while i < list.len()
        invariant
            i <= list@.len(),
            out@.len() == i,
            forall|j: int| 0 <= j < i ==> (#[trigger] out@[j])@ == list@[j]@,
        decreases list@.len() - i,
    {
        out.push(list[i].copy());
        i += 1;
    }
    assert(keptpair_views(out@) =~= keptpair_views(list@));
    out
}

/// What a solve goes by.
#[derive(Debug)]
pub struct Snapshot {
    pub event_id: String,
    pub t_mid: Double,
    pub sound_speed: Double,
    pub observable_radius: Double,
    pub stations: Vec<StationInfo>,
    pub segments: Vec<StationClock>,
    pub edges: Vec<EdgeObs>,
    pub exclude_edges: Vec<ExcludedPeak>,
    pub locks: Vec<Lock>,
    pub kept_pairs: Vec<KeptPair>,
}

/// What a [`Snapshot`] says.
#[verifier::ext_equal]
pub ghost struct SnapshotView {
    pub event_id: Seq<char>,
    pub t_mid: Double,
    pub sound_speed: Double,
    pub observable_radius: Double,
    pub stations: Seq<StationInfoView>,
    pub segments: Seq<StationClockView>,
    pub edges: Seq<EdgeObsView>,
    pub exclude_edges: Seq<ExcludedPeakView>,
    pub locks: Seq<LockView>,
    pub kept_pairs: Seq<KeptPairView>,
}

impl View for Snapshot {
    type V = SnapshotView;

    open spec fn view(&self) -> SnapshotView {
        SnapshotView {
            event_id: self.event_id@,
            t_mid: self.t_mid,
            sound_speed: self.sound_speed,
            observable_radius: self.observable_radius,
            stations: stationinfo_views(self.stations@),
            segments: stationclock_views(self.segments@),
            edges: edgeobs_views(self.edges@),
            exclude_edges: excludedpeak_views(self.exclude_edges@),
            locks: lock_views(self.locks@),
            kept_pairs: keptpair_views(self.kept_pairs@),
        }
    }
}

impl Snapshot {
    /// A second value that says the same.
    pub fn copy(&self) -> (r: Snapshot)
        ensures
            r@ == self@,
    {
        Snapshot {
            event_id: self.event_id.clone(),
            t_mid: self.t_mid,
            sound_speed: self.sound_speed,
            observable_radius: self.observable_radius,
            stations: copy_stationinfos(&self.stations),
            segments: copy_stationclocks(&self.segments),
            edges: copy_edgeobss(&self.edges),
            exclude_edges: copy_excludedpeaks(&self.exclude_edges),
            locks: copy_locks(&self.locks),
            kept_pairs: copy_keptpairs(&self.kept_pairs),
        }
    }
}

/// A candidate that a solve puts out.
#[derive(Debug)]
pub struct CandidateOut {
    pub kind: String,
    pub status: String,
    pub reason: String,
    pub x: Option<Double>,
    pub y: Option<Double>,
    pub region: Option<Json>,
    pub metrics: Json,
    pub residuals: Vec<ResidualRow>,
    pub cand_key: String,
}

/// What a [`CandidateOut`] says.
#[verifier::ext_equal]
pub ghost struct CandidateOutView {
    pub kind: Seq<char>,
    pub status: Seq<char>,
    pub reason: Seq<char>,
    pub x: Option<Double>,
    pub y: Option<Double>,
    pub region: Option<JsonView>,
    pub metrics: JsonView,
    pub residuals: Seq<ResidualRowView>,
    pub cand_key: Seq<char>,
}

impl View for CandidateOut {
    type V = CandidateOutView;

    open spec fn view(&self) -> CandidateOutView {
        CandidateOutView {
            kind: self.kind@,
            status: self.status@,
            reason: self.reason@,
            x: self.x,
            y: self.y,
            region: match self.region {
                Some(v) => Some(v@),
                None => None,
            },
            metrics: self.metrics@,
            residuals: residualrow_views(self.residuals@),
            cand_key: self.cand_key@,
        }
    }
}

impl CandidateOut {
    /// A second value that says the same.
    pub fn copy(&self) -> (r: CandidateOut)
        ensures
            r@ == self@,
    {
        CandidateOut {
            kind: self.kind.clone(),
            status: self.status.clone(),
            reason: self.reason.clone(),
            x: self.x,
            y: self.y,
            region: match &self.region {
                Some(v) => Some(v.copy()),
                None => None,
            },
            metrics: self.metrics.copy(),
            residuals: copy_residualrows(&self.residuals),
            cand_key: self.cand_key.clone(),
        }
    }
}

/// What a list of candidates says.
pub open spec fn candidateout_views(s: Seq<CandidateOut>) -> Seq<CandidateOutView> {
    s.map_values(|v: CandidateOut| v@)
}

} // verus!
