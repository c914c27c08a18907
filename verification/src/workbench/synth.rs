//! Synthetic data with three events to review: an impact with a reflection, two
//! mirror images, and a clock that is not known.
//!
//! The numbers that take arithmetic on doubles come from the numeric side; the
//! random bits that they start from come from [`Rng`].
use vstd::prelude::*;
use vstd::string::*;

use crate::canon::Decimals;
use crate::double::Double;
use crate::json::{array, json_views, Json, JsonView, Members};
use crate::order::filter_of_push;
use crate::text::same;
use crate::workbench::clock::{add_segment, entry_objection, segment_row};
use crate::workbench::db::{clock_rows_stay_ok, Db, DbView};
use crate::workbench::ingest::{ingest, ingest_objection, with_batch};
use crate::workbench::models::{
    clocksegment_views, ingestobs_views, ingestxcorr_views, ClockSegment, ClockSegmentReq,
    ClockSegmentReqView, ClockSegmentView, CreateEventReq, CreateEventReqView, CreateStationReq,
    CreateStationReqView, IngestObs, IngestObsView, IngestReq, IngestReqView, IngestXcorr,
    IngestXcorrView,
};
use crate::workbench::picture::event_row;
use crate::workbench::service::{
    create_event, create_station, event_objection, link_window, new_event, new_links,
    station_objection, with_station,
};

verus! {

/// 343 m/s.
pub const SOUND_SPEED: u64 = 0x4075_7000_0000_0000;

/// 0.
pub const ZERO: u64 = 0x0000_0000_0000_0000;

/// 40.
pub const M40: u64 = 0x4044_0000_0000_0000;

/// 120.
pub const M120: u64 = 0x405e_0000_0000_0000;

/// -40.
pub const MINUS_40: u64 = 0xc044_0000_0000_0000;

/// 60.
pub const M60: u64 = 0x404e_0000_0000_0000;

/// 40.5 s.
pub const S40_5: u64 = 0x4044_4000_0000_0000;

/// 120.5 s.
pub const S120_5: u64 = 0x405e_2000_0000_0000;

/// 0.0012 s.
pub const IMPACT_SIGMA: u64 = 0x3f53_a92a_3055_3261;

/// 1280 Hz.
pub const TWIN_BAND: u64 = 0x4094_0000_0000_0000;

/// 19.1 dB.
pub const TWIN_SNR: u64 = 0x4033_1999_9999_999a;

/// 0.001 s.
pub const DELAY_SIGMA: u64 = 0x3f50_624d_d2f1_a9fc;

/// 900 Hz.
pub const MIRROR_BAND: u64 = 0x408c_2000_0000_0000;

/// 15 dB.
pub const MIRROR_SNR: u64 = 0x402e_0000_0000_0000;

/// 1100 Hz.
pub const DRIFT_BAND: u64 = 0x4091_3000_0000_0000;

/// 14 dB.
pub const DRIFT_SNR: u64 = 0x402c_0000_0000_0000;

/// 1 700 000 000 s.
pub const RECEIVED_AT: u64 = 0x41d9_54fc_4000_0000;

/// 0.0015 s.
pub const SEGMENT_SIGMA: u64 = 0x3f58_9374_bc6a_7efa;

// ---------- Random bits ----------

/// A generator of random bits.
#[derive(Clone, Copy, Debug, PartialEq, Eq, Structural)]
pub struct Rng {
    pub state: u64,
}

/// The state that the synthetic data starts from.
pub const SEED: u64 = 0x5eed_1116_0001;

/// The state that follows a state.
pub open spec fn shuffled(x: u64) -> u64 {
    let a = x ^ (x << 13u64);
    let b = a ^ (a >> 7u64);
    b ^ (b << 17u64)
}

impl Rng {
    pub fn new() -> (r: Rng)
        ensures
            r.state == SEED,
    {
        Rng { state: SEED }
    }

    /// The next 53 bits: taken as a fraction of 2^53 they are a number from 0 up
    /// to 1.
    pub fn next(&mut self) -> (r: u64)
        ensures
            final(self).state == shuffled(old(self).state),
            r == final(self).state >> 11u64,
            r < 0x20_0000_0000_0000,
    {
        let x: u64 = self.state;
        let a: u64 = x ^ (x << 13u64);
        let b: u64 = a ^ (a >> 7u64);
        let c: u64 = b ^ (b << 17u64);
        self.state = c;
        let r: u64 = c >> 11u64;
        assert(r < 0x20_0000_0000_0000) by (bit_vector)
            requires
                r == c >> 11u64,
        ;
        r
    }
}

/// A state other than zero is followed by a state other than zero: the generator
/// does not run dry.
pub proof fn the_generator_does_not_run_dry(x: u64)
    requires
        x != 0,
    ensures
        shuffled(x) != 0,
{
    let a = x ^ (x << 13u64);
    let b = a ^ (a >> 7u64);
    let c = b ^ (b << 17u64);
    assert(a != 0) by (bit_vector)
        requires
            x != 0u64,
            a == x ^ (x << 13u64),
    ;
    assert(b != 0) by (bit_vector)
        requires
            a != 0u64,
            b == a ^ (a >> 7u64),
    ;
    assert(c != 0) by (bit_vector)
        requires
            b != 0u64,
            c == b ^ (b << 17u64),
    ;
}

// ---------- What is entered ----------

/// The numbers of the synthetic data.
#[derive(Clone, Copy, Debug)]
pub struct SynthNumbers {
    /// Offsets of the clocks of stations A to F before 60 s.
    pub before: [Double; 6],
    /// The same from 60 s on.
    pub after: [Double; 6],
    /// Of stations A, B, D and E.
    pub impact_onsets: [Double; 4],
    pub impact_bands: [Double; 4],
    pub impact_snrs: [Double; 4],
    /// The delay of the reflection between A and D.
    pub reflected: Double,
    /// Between A, B, D and E, pair by pair.
    pub impact_delays: [Double; 6],
    /// Of stations A, F and B.
    pub mirror_onsets: [Double; 3],
    pub mirror_delays: [Double; 3],
    /// Of stations A, C, D and E.
    pub drift_onsets: [Double; 4],
    /// A to C, D and E; C to D; D to E.
    pub drift_delays: [Double; 5],
}

/// A step in which data is entered.
#[derive(Debug)]
pub enum Step {
    Station(CreateStationReq),
    Segment(ClockSegmentReq),
    Event(CreateEventReq),
    Batch(IngestReq),
    Link(String),
    /// The segments of a station that start at a time or later are removed.
    Forget(String, Double),
}

/// What a [`Step`] says.
pub ghost enum StepView {
    Station(CreateStationReqView),
    Segment(ClockSegmentReqView),
    Event(CreateEventReqView),
    Batch(IngestReqView),
    Link(Seq<char>),
    Forget(Seq<char>, Double),
}

impl View for Step {
    type V = StepView;

    open spec fn view(&self) -> StepView {
        match self {
            Step::Station(r) => StepView::Station(r@),
            Step::Segment(r) => StepView::Segment(r@),
            Step::Event(r) => StepView::Event(r@),
            Step::Batch(r) => StepView::Batch(r@),
            Step::Link(e) => StepView::Link(e@),
            Step::Forget(s, t) => StepView::Forget(s@, *t),
        }
    }
}

/// What a list of steps says.
pub open spec fn step_views(s: Seq<Step>) -> Seq<StepView> {
    s.map_values(|x: Step| x@)
}

pub open spec fn station_req(
    id: Seq<char>,
    name: Seq<char>,
    x: Double,
    y: Double,
) -> CreateStationReqView {
    CreateStationReqView { station_id: id, name, x, y }
}

fn make_station(id: &str, name: &str, x: Double, y: Double) -> (r: CreateStationReq)
    ensures
        r@ == station_req(id@, name@, x, y),
{
    CreateStationReq { station_id: id.to_owned(), name: name.to_owned(), x, y }
}

pub open spec fn segment_req(
    id: Seq<char>,
    start: Double,
    end: Option<Double>,
    offset: Double,
) -> ClockSegmentReqView {
    ClockSegmentReqView {
        station_id: id,
        start_s: start,
        end_s: end,
        offset_s: offset,
        sigma_s: Double { bits: SEGMENT_SIGMA },
        note: "synthetic"@,
    }
}

fn make_segment(
    id: &str,
    start: Double,
    end: Option<Double>,
    offset: Double,
) -> (r: ClockSegmentReq)
    ensures
        r@ == segment_req(id@, start, end, offset),
{
    ClockSegmentReq {
        station_id: id.to_owned(),
        start_s: start,
        end_s: end,
        offset_s: offset,
        sigma_s: Double { bits: SEGMENT_SIGMA },
        note: "synthetic".to_owned(),
    }
}

pub open spec fn event_req(
    id: Seq<char>,
    title: Seq<char>,
    t0: Double,
    t1: Double,
) -> CreateEventReqView {
    CreateEventReqView {
        event_id: id,
        title,
        t_start: t0,
        t_end: t1,
        sound_speed: Double { bits: SOUND_SPEED },
    }
}

fn make_event(id: &str, title: &str, t0: Double, t1: Double) -> (r: CreateEventReq)
    ensures
        r@ == event_req(id@, title@, t0, t1),
{
    CreateEventReq {
        event_id: id.to_owned(),
        title: title.to_owned(),
        t_start: t0,
        t_end: t1,
        sound_speed: Double { bits: SOUND_SPEED },
    }
}

pub open spec fn batch_req(fp: Seq<char>, obs: Seq<IngestObsView>) -> IngestReqView {
    IngestReqView {
        fingerprint: Some(fp),
        received_at: Some(Double { bits: RECEIVED_AT }),
        observations: obs,
    }
}

fn make_batch(fp: &str, obs: Vec<IngestObs>) -> (r: IngestReq)
    ensures
        r@ == batch_req(fp@, ingestobs_views(obs@)),
{
    IngestReq {
        fingerprint: Some(fp.to_owned()),
        received_at: Some(Double { bits: RECEIVED_AT }),
        observations: obs,
    }
}

pub open spec fn link(to: int, delay: Double, sigma: Double, multipath: bool) -> IngestXcorrView {
    IngestXcorrView { obs_index: to, delay_s: delay, sigma_s: sigma, peak_index: 0, multipath }
}

fn make_link(to: usize, delay: Double, sigma: Double, multipath: bool) -> (r: IngestXcorr)
    ensures
        r@ == link(to as int, delay, sigma, multipath),
{
    IngestXcorr { obs_index: to, delay_s: delay, sigma_s: sigma, peak_index: 0, multipath }
}

pub open spec fn obs(
    station: Seq<char>,
    event: Seq<char>,
    onset: Double,
    band: Double,
    snr: Double,
    links: Seq<IngestXcorrView>,
) -> IngestObsView {
    IngestObsView {
        station_id: station,
        event_ref: Some(event),
        t_device: onset,
        local_onset_s: onset,
        peak_band_hz: band,
        snr_db: snr,
        xcorr: links,
    }
}

fn make_obs(
    station: &str,
    event: &str,
    onset: Double,
    band: Double,
    snr: Double,
    links: Vec<IngestXcorr>,
) -> (r: IngestObs)
    ensures
        r@ == obs(station@, event@, onset, band, snr, ingestxcorr_views(links@)),
{
    IngestObs {
        station_id: station.to_owned(),
        event_ref: Some(event.to_owned()),
        t_device: onset,
        local_onset_s: onset,
        peak_band_hz: band,
        snr_db: snr,
        xcorr: links,
    }
}

/// The report of the impact. Station C is silent, station B reports twice, and a
/// reflection between A and D passes for a direct peak.
pub open spec fn impact_rows(n: SynthNumbers) -> Seq<IngestObsView> {
    seq![
        obs("A"@, "EVT-IMPACT"@, n.impact_onsets@[0], n.impact_bands@[0], n.impact_snrs@[0],
            seq![link(2, n.reflected, Double { bits: IMPACT_SIGMA }, true),
                link(1, n.impact_delays@[0], Double { bits: IMPACT_SIGMA }, false), link(2,
                    n.impact_delays@[1], Double { bits: IMPACT_SIGMA }, false), link(
                        3, n.impact_delays@[2], Double { bits: IMPACT_SIGMA }, false)]),
        obs("B"@, "EVT-IMPACT"@, n.impact_onsets@[1], n.impact_bands@[1], n.impact_snrs@[1],
            seq![link(2, n.impact_delays@[3], Double { bits: IMPACT_SIGMA }, false),
                link(3, n.impact_delays@[4], Double { bits: IMPACT_SIGMA }, false)]),
        obs("D"@, "EVT-IMPACT"@, n.impact_onsets@[2], n.impact_bands@[2], n.impact_snrs@[2],
            seq![link(3, n.impact_delays@[5], Double { bits: IMPACT_SIGMA }, false)]),
        obs("E"@, "EVT-IMPACT"@, n.impact_onsets@[3], n.impact_bands@[3], n.impact_snrs@[3],
            Seq::<IngestXcorrView>::empty()),
        obs("B"@, "EVT-IMPACT"@, n.impact_onsets@[1], Double { bits: TWIN_BAND },
            Double { bits: TWIN_SNR }, Seq::<IngestXcorrView>::empty()),
    ]
}

fn make_impact_rows(n: &SynthNumbers) -> (r: Vec<IngestObs>)
    ensures
        ingestobs_views(r@) == impact_rows(*n),
{
    let mut out: Vec<IngestObs> = Vec::new();
    let ghost want = impact_rows(*n);
    let mut links: Vec<IngestXcorr> = Vec::new();
    links.push(make_link(2, n.reflected, Double { bits: IMPACT_SIGMA }, true));
    links.push(make_link(1, n.impact_delays[0], Double { bits: IMPACT_SIGMA }, false));
    links.push(make_link(2, n.impact_delays[1], Double { bits: IMPACT_SIGMA }, false));
    links.push(make_link(3, n.impact_delays[2], Double { bits: IMPACT_SIGMA }, false));
    let o = make_obs("A", "EVT-IMPACT", n.impact_onsets[0], n.impact_bands[0], n.impact_snrs[0],
        links);
    assert(o@.xcorr =~= want[0].xcorr);
    out.push(o);
    let mut links: Vec<IngestXcorr> = Vec::new();
    links.push(make_link(2, n.impact_delays[3], Double { bits: IMPACT_SIGMA }, false));
    links.push(make_link(3, n.impact_delays[4], Double { bits: IMPACT_SIGMA }, false));
    let o = make_obs("B", "EVT-IMPACT", n.impact_onsets[1], n.impact_bands[1], n.impact_snrs[1],
        links);
    assert(o@.xcorr =~= want[1].xcorr);
    out.push(o);
    let mut links: Vec<IngestXcorr> = Vec::new();
    links.push(make_link(3, n.impact_delays[5], Double { bits: IMPACT_SIGMA }, false));
    let o = make_obs("D", "EVT-IMPACT", n.impact_onsets[2], n.impact_bands[2], n.impact_snrs[2],
        links);
    assert(o@.xcorr =~= want[2].xcorr);
    out.push(o);
    let mut links: Vec<IngestXcorr> = Vec::new();
    let o = make_obs("E", "EVT-IMPACT", n.impact_onsets[3], n.impact_bands[3], n.impact_snrs[3],
        links);
    assert(o@.xcorr =~= want[3].xcorr);
    out.push(o);
    let mut links: Vec<IngestXcorr> = Vec::new();
    let o = make_obs("B", "EVT-IMPACT", n.impact_onsets[1], Double { bits: TWIN_BAND },
        Double { bits: TWIN_SNR }, links);
    assert(o@.xcorr =~= want[4].xcorr);
    out.push(o);
    assert(ingestobs_views(out@) =~= want);
    out
}

/// The report of three stations in a line, which leaves two mirror images.
pub open spec fn mirror_rows(n: SynthNumbers) -> Seq<IngestObsView> {
    seq![
        obs("A"@, "EVT-MIRROR"@, n.mirror_onsets@[0], Double { bits: MIRROR_BAND },
            Double { bits: MIRROR_SNR }, seq![link(1, n.mirror_delays@[0],
                Double { bits: DELAY_SIGMA }, false), link(
                    2, n.mirror_delays@[1], Double { bits: DELAY_SIGMA }, false)]),
        obs("F"@, "EVT-MIRROR"@, n.mirror_onsets@[1], Double { bits: MIRROR_BAND },
            Double { bits: MIRROR_SNR }, seq![link(2, n.mirror_delays@[2],
                Double { bits: DELAY_SIGMA }, false)]),
        obs("B"@, "EVT-MIRROR"@, n.mirror_onsets@[2], Double { bits: MIRROR_BAND },
            Double { bits: MIRROR_SNR }, Seq::<IngestXcorrView>::empty()),
    ]
}

fn make_mirror_rows(n: &SynthNumbers) -> (r: Vec<IngestObs>)
    ensures
        ingestobs_views(r@) == mirror_rows(*n),
{
    let mut out: Vec<IngestObs> = Vec::new();
    let ghost want = mirror_rows(*n);
    let mut links: Vec<IngestXcorr> = Vec::new();
    links.push(make_link(1, n.mirror_delays[0], Double { bits: DELAY_SIGMA }, false));
    links.push(make_link(2, n.mirror_delays[1], Double { bits: DELAY_SIGMA }, false));
    let o = make_obs("A", "EVT-MIRROR", n.mirror_onsets[0], Double { bits: MIRROR_BAND },
        Double { bits: MIRROR_SNR }, links);
    assert(o@.xcorr =~= want[0].xcorr);
    out.push(o);
    let mut links: Vec<IngestXcorr> = Vec::new();
    links.push(make_link(2, n.mirror_delays[2], Double { bits: DELAY_SIGMA }, false));
    let o = make_obs("F", "EVT-MIRROR", n.mirror_onsets[1], Double { bits: MIRROR_BAND },
        Double { bits: MIRROR_SNR }, links);
    assert(o@.xcorr =~= want[1].xcorr);
    out.push(o);
    let mut links: Vec<IngestXcorr> = Vec::new();
    let o = make_obs("B", "EVT-MIRROR", n.mirror_onsets[2], Double { bits: MIRROR_BAND },
        Double { bits: MIRROR_SNR }, links);
    assert(o@.xcorr =~= want[2].xcorr);
    out.push(o);
    assert(ingestobs_views(out@) =~= want);
    out
}

/// The report of four stations, of which the clock of D is not known.
pub open spec fn drift_rows(n: SynthNumbers) -> Seq<IngestObsView> {
    seq![
        obs("A"@, "EVT-DRIFT"@, n.drift_onsets@[0], Double { bits: DRIFT_BAND },
            Double { bits: DRIFT_SNR }, seq![link(1, n.drift_delays@[0],
                Double { bits: DELAY_SIGMA }, false), link(
                    2, n.drift_delays@[1], Double { bits: DELAY_SIGMA }, false), link(
                        3, n.drift_delays@[2], Double { bits: DELAY_SIGMA }, false)]),
        obs("C"@, "EVT-DRIFT"@, n.drift_onsets@[1], Double { bits: DRIFT_BAND },
            Double { bits: DRIFT_SNR }, seq![link(2, n.drift_delays@[3],
                Double { bits: DELAY_SIGMA }, false)]),
        obs("D"@, "EVT-DRIFT"@, n.drift_onsets@[2], Double { bits: DRIFT_BAND },
            Double { bits: DRIFT_SNR }, seq![link(3, n.drift_delays@[4],
                Double { bits: DELAY_SIGMA }, false)]),
        obs("E"@, "EVT-DRIFT"@, n.drift_onsets@[3], Double { bits: DRIFT_BAND },
            Double { bits: DRIFT_SNR }, Seq::<IngestXcorrView>::empty()),
    ]
}

fn make_drift_rows(n: &SynthNumbers) -> (r: Vec<IngestObs>)
    ensures
        ingestobs_views(r@) == drift_rows(*n),
{
    let mut out: Vec<IngestObs> = Vec::new();
    let ghost want = drift_rows(*n);
    let mut links: Vec<IngestXcorr> = Vec::new();
    links.push(make_link(1, n.drift_delays[0], Double { bits: DELAY_SIGMA }, false));
    links.push(make_link(2, n.drift_delays[1], Double { bits: DELAY_SIGMA }, false));
    links.push(make_link(3, n.drift_delays[2], Double { bits: DELAY_SIGMA }, false));
    let o = make_obs("A", "EVT-DRIFT", n.drift_onsets[0], Double { bits: DRIFT_BAND },
        Double { bits: DRIFT_SNR }, links);
    assert(o@.xcorr =~= want[0].xcorr);
    out.push(o);
    let mut links: Vec<IngestXcorr> = Vec::new();
    links.push(make_link(2, n.drift_delays[3], Double { bits: DELAY_SIGMA }, false));
    let o = make_obs("C", "EVT-DRIFT", n.drift_onsets[1], Double { bits: DRIFT_BAND },
        Double { bits: DRIFT_SNR }, links);
    assert(o@.xcorr =~= want[1].xcorr);
    out.push(o);
    let mut links: Vec<IngestXcorr> = Vec::new();
    links.push(make_link(3, n.drift_delays[4], Double { bits: DELAY_SIGMA }, false));
    let o = make_obs("D", "EVT-DRIFT", n.drift_onsets[2], Double { bits: DRIFT_BAND },
        Double { bits: DRIFT_SNR }, links);
    assert(o@.xcorr =~= want[2].xcorr);
    out.push(o);
    let mut links: Vec<IngestXcorr> = Vec::new();
    let o = make_obs("E", "EVT-DRIFT", n.drift_onsets[3], Double { bits: DRIFT_BAND },
        Double { bits: DRIFT_SNR }, links);
    assert(o@.xcorr =~= want[3].xcorr);
    out.push(o);
    assert(ingestobs_views(out@) =~= want);
    out
}

/// The steps in which the synthetic data is entered.
pub open spec fn plan(n: SynthNumbers) -> Seq<StepView> {
    seq![
        StepView::Station(
            station_req("A"@, "north-west mast"@, Double { bits: ZERO }, Double { bits: M40 })),
        StepView::Station(
            station_req("B"@, "north-east mast"@, Double { bits: M120 }, Double { bits: M40 })),
        StepView::Station(
            station_req("C"@, "south-west mast"@, Double { bits: ZERO },
                Double { bits: MINUS_40 })),
        StepView::Station(
            station_req("D"@, "south-east mast"@, Double { bits: M120 },
                Double { bits: MINUS_40 })),
        StepView::Station(
            station_req("E"@, "centre mast"@, Double { bits: M60 }, Double { bits: ZERO })),
        StepView::Station(
            station_req("F"@, "north-centre mast"@, Double { bits: M60 }, Double { bits: M40 })),
        StepView::Segment(
            segment_req("A"@, Double { bits: ZERO }, Some(Double { bits: M60 }), n.before@[0])),
        StepView::Segment(segment_req("A"@, Double { bits: M60 }, None, n.after@[0])),
        StepView::Segment(
            segment_req("B"@, Double { bits: ZERO }, Some(Double { bits: M60 }), n.before@[1])),
        StepView::Segment(segment_req("B"@, Double { bits: M60 }, None, n.after@[1])),
        StepView::Segment(
            segment_req("C"@, Double { bits: ZERO }, Some(Double { bits: M60 }), n.before@[2])),
        StepView::Segment(segment_req("C"@, Double { bits: M60 }, None, n.after@[2])),
        StepView::Segment(
            segment_req("D"@, Double { bits: ZERO }, Some(Double { bits: M60 }), n.before@[3])),
        StepView::Segment(segment_req("D"@, Double { bits: M60 }, None, n.after@[3])),
        StepView::Segment(
            segment_req("E"@, Double { bits: ZERO }, Some(Double { bits: M60 }), n.before@[4])),
        StepView::Segment(segment_req("E"@, Double { bits: M60 }, None, n.after@[4])),
        StepView::Segment(
            segment_req("F"@, Double { bits: ZERO }, Some(Double { bits: M60 }), n.before@[5])),
        StepView::Segment(segment_req("F"@, Double { bits: M60 }, None, n.after@[5])),
        StepView::Event(
            event_req("EVT-IMPACT"@, "Metal impact, north aisle"@, Double { bits: M40 },
                Double { bits: S40_5 })),
        StepView::Batch(batch_req("batch-impact-001"@, impact_rows(n))),
        StepView::Link("EVT-IMPACT"@),
        StepView::Event(
            event_req("EVT-MIRROR"@, "Two-collinear-baseline ambiguity"@, Double { bits: M40 },
                Double { bits: S40_5 })),
        StepView::Batch(batch_req("batch-mirror-001"@, mirror_rows(n))),
        StepView::Link("EVT-MIRROR"@),
        StepView::Event(
            event_req("EVT-DRIFT"@, "Uncalibrated collector segment"@, Double { bits: M120 },
                Double { bits: S120_5 })),
        StepView::Forget("D"@, Double { bits: M60 }),
        StepView::Batch(batch_req("batch-drift-001"@, drift_rows(n))),
        StepView::Link("EVT-DRIFT"@),
    ]
}

fn make_plan(n: &SynthNumbers) -> (r: Vec<Step>)
    ensures
        step_views(r@) == plan(*n),
{
    let mut out: Vec<Step> = Vec::new();
    out.push(
        Step::Station(
            make_station("A", "north-west mast", Double { bits: ZERO }, Double { bits: M40 })));
    out.push(
        Step::Station(
            make_station("B", "north-east mast", Double { bits: M120 }, Double { bits: M40 })));
    out.push(
        Step::Station(
            make_station("C", "south-west mast", Double { bits: ZERO },
                Double { bits: MINUS_40 })));
    out.push(
        Step::Station(
            make_station("D", "south-east mast", Double { bits: M120 },
                Double { bits: MINUS_40 })));
    out.push(
        Step::Station(
            make_station("E", "centre mast", Double { bits: M60 }, Double { bits: ZERO })));
    out.push(
        Step::Station(
            make_station("F", "north-centre mast", Double { bits: M60 }, Double { bits: M40 })));
    out.push(
        Step::Segment(
            make_segment("A", Double { bits: ZERO }, Some(Double { bits: M60 }), n.before[0])));
    out.push(Step::Segment(make_segment("A", Double { bits: M60 }, None, n.after[0])));
    out.push(
        Step::Segment(
            make_segment("B", Double { bits: ZERO }, Some(Double { bits: M60 }), n.before[1])));
    out.push(Step::Segment(make_segment("B", Double { bits: M60 }, None, n.after[1])));
    out.push(
        Step::Segment(
            make_segment("C", Double { bits: ZERO }, Some(Double { bits: M60 }), n.before[2])));
    out.push(Step::Segment(make_segment("C", Double { bits: M60 }, None, n.after[2])));
    out.push(
        Step::Segment(
            make_segment("D", Double { bits: ZERO }, Some(Double { bits: M60 }), n.before[3])));
    out.push(Step::Segment(make_segment("D", Double { bits: M60 }, None, n.after[3])));
    out.push(
        Step::Segment(
            make_segment("E", Double { bits: ZERO }, Some(Double { bits: M60 }), n.before[4])));
    out.push(Step::Segment(make_segment("E", Double { bits: M60 }, None, n.after[4])));
    out.push(
        Step::Segment(
            make_segment("F", Double { bits: ZERO }, Some(Double { bits: M60 }), n.before[5])));
    out.push(Step::Segment(make_segment("F", Double { bits: M60 }, None, n.after[5])));
    out.push(
        Step::Event(
            make_event("EVT-IMPACT", "Metal impact, north aisle", Double { bits: M40 },
                Double { bits: S40_5 })));
    out.push(Step::Batch(make_batch("batch-impact-001", make_impact_rows(n))));
    out.push(Step::Link("EVT-IMPACT".to_owned()));
    out.push(
        Step::Event(
            make_event("EVT-MIRROR", "Two-collinear-baseline ambiguity", Double { bits: M40 },
                Double { bits: S40_5 })));
    out.push(Step::Batch(make_batch("batch-mirror-001", make_mirror_rows(n))));
    out.push(Step::Link("EVT-MIRROR".to_owned()));
    out.push(
        Step::Event(
            make_event("EVT-DRIFT", "Uncalibrated collector segment", Double { bits: M120 },
                Double { bits: S120_5 })));
    out.push(Step::Forget("D".to_owned(), Double { bits: M60 }));
    out.push(Step::Batch(make_batch("batch-drift-001", make_drift_rows(n))));
    out.push(Step::Link("EVT-DRIFT".to_owned()));
    assert(step_views(out@) =~= plan(*n));
    out
}

// ---------- Taking the steps ----------

/// The segments that stay when those of a station from a time on are removed.
pub open spec fn remembered(id: Seq<char>, from: Double) -> spec_fn(ClockSegmentView) -> bool {
    |s: ClockSegmentView| !(s.station_id == id && from.up_to(s.start_s))
}

/// What a step comes to: the tables after it, or why it cannot be taken.
pub open spec fn step_taken(v: DbView, s: StepView, now: Double, d: Decimals) -> Result<
    DbView,
    Seq<char>,
> {
    match s {
        StepView::Station(r) => match station_objection(r) {
            Some(m) => Err(m),
            None => Ok(with_station(v, r, now)),
        },
        StepView::Segment(r) => match entry_objection(v, r, d) {
            Some(m) => Err(m),
            None => Ok(
                DbView {
                    segments: v.segments.push(segment_row(r, v.last_segment + 1)),
                    last_segment: v.last_segment + 1,
                    ..v
                },
            ),
        },
        StepView::Event(r) => match event_objection(v, r, now) {
            Some(m) => Err(m),
            None => Ok(DbView { events: v.events.push(new_event(r, now)), ..v }),
        },
        StepView::Batch(r) => match ingest_objection(v, r, now, d) {
            Some(m) => Err(m),
            None => Ok(with_batch(v, r, now, d)),
        },
        StepView::Link(e) => if event_row(v.events, e) is None {
            Err("Query returned no rows"@)
        } else {
            Ok(DbView { links: v.links + new_links(v, e), ..v })
        },
        StepView::Forget(id, from) => Ok(
            DbView { segments: v.segments.filter(remembered(id, from)), ..v },
        ),
    }
}

/// What the first `n` steps come to; after the first that cannot be taken none
/// is.
pub open spec fn steps_taken(v: DbView, steps: Seq<StepView>, n: int, now: Double, d: Decimals) -> (
    DbView,
    Option<Seq<char>>,
)
    decreases n,
{
    if n <= 0 {
        (v, None)
    } else {
        let (w, stop) = steps_taken(v, steps, n - 1, now, d);
        if stop is Some {
            (w, stop)
        } else {
            match step_taken(w, steps[n - 1], now, d) {
                Ok(u) => (u, None),
                Err(m) => (w, Some(m)),
            }
        }
    }
}

proof fn stopped_steps(v: DbView, steps: Seq<StepView>, n: int, m: int, now: Double, d: Decimals)
    requires
        0 <= n <= m,
        steps_taken(v, steps, n, now, d).1 is Some,
    ensures
        steps_taken(v, steps, m, now, d) == steps_taken(v, steps, n, now, d),
    decreases m,
{
    if n < m {
        stopped_steps(v, steps, n, m - 1, now, d);
    }
}

fn forget(db: &mut Db, id: &str, from: Double)
    requires
        old(db)@.valid(),
    ensures
        final(db)@.valid(),
        final(db)@ == (DbView {
            segments: old(db)@.segments.filter(remembered(id@, from)),
            ..old(db)@
        }),
{
    let ghost v = db@;
    let ghost all = clocksegment_views(db.segments@);
    let ghost pick = remembered(id@, from);
    let mut out: Vec<ClockSegment> = Vec::new();
    let mut i: usize = 0;
    proof {
        reveal(Seq::filter);
        assert(all.take(0) =~= Seq::empty());
    }
    assert(clocksegment_views(out@) =~= all.take(0).filter(pick));
    while i < db.segments.len()
        invariant
            i <= db.segments@.len(),
            v == db@,
            all == clocksegment_views(db.segments@),
            pick == remembered(id@, from),
            clocksegment_views(out@) == all.take(i as int).filter(pick),
        decreases db.segments@.len() - i,
    {
        let x = &db.segments[i];
        let ghost before = clocksegment_views(out@);
        assert(all.take(i + 1) =~= all.take(i as int).push(x@));
        proof {
            filter_of_push(all.take(i as int), x@, pick);
        }
        if !(same(x.station_id.as_str(), id) && from.is_up_to(x.start_s)) {
            assert(pick(x@));
            out.push(x.copy());
            assert(clocksegment_views(out@) =~= before.push(x@));
        } else {
            assert(!pick(x@));
        }
        i += 1;
    }
    assert(all.take(i as int) =~= all);
    proof {
        clock_rows_stay_ok(v.segments, v.last_segment, v.stations, pick);
    }
    db.segments = out;
}

fn take_step(db: &mut Db, s: &Step, now: Double, d: &Decimals) -> (r: Result<(), String>)
    requires
        old(db)@.valid(),
    ensures
        final(db)@.valid(),
        match step_taken(old(db)@, s@, now, *d) {
            Ok(w) => r is Ok && final(db)@ == w,
            Err(m) => r matches Err(e) && e@ == m && final(db)@ == old(db)@,
        },
{
    match s {
        Step::Station(q) => create_station(db, q, now),
        Step::Segment(q) => match add_segment(db, q, d) {
            Ok(_) => Ok(()),
            Err(m) => Err(m),
        },
        Step::Event(q) => create_event(db, q, now),
        Step::Batch(q) => match ingest(db, q, now, d) {
            Ok(_) => Ok(()),
            Err(m) => Err(m),
        },
        Step::Link(e) => match link_window(db, e.as_str()) {
            Ok(_) => Ok(()),
            Err(m) => Err(m),
        },
        Step::Forget(id, from) => {
            forget(db, id.as_str(), *from);
            Ok(())
        },
    }
}

/// What is answered when the data is there.
pub open spec fn answer_json() -> JsonView {
    JsonView::Object(
        seq![
            ("generated"@, JsonView::Bool(true)),
            (
                "events"@,
                JsonView::Array(
                    seq![
                        JsonView::Text("EVT-IMPACT"@),
                        JsonView::Text("EVT-MIRROR"@),
                        JsonView::Text("EVT-DRIFT"@),
                    ],
                ),
            ),
        ],
    )
}

/// Enters the synthetic data. It belongs into tables without it: where a step
/// cannot be taken, the reason comes back and the steps before it stay taken.
pub fn generate(
    db: &mut Db,
    n: &SynthNumbers,
    now: Double,
    d: &Decimals,
) -> (r: Result<Json, String>)
    requires
        old(db)@.valid(),
    ensures
        final(db)@.valid(),
        ({
            let end = steps_taken(old(db)@, plan(*n), plan(*n).len() as int, now, *d);
            final(db)@ == end.0 && match end.1 {
                Some(m) => r matches Err(e) && e@ == m,
                None => r matches Ok(v) && v@ == answer_json(),
            }
        }),
{
    let ghost v = db@;
    let steps = make_plan(n);
    let ghost sv = step_views(steps@);
    let mut i: usize = 0;
    while i < steps.len()
        invariant
            i <= steps@.len(),
            v == old(db)@,
            sv == step_views(steps@),
            sv == plan(*n),
            db@.valid(),
            steps_taken(v, sv, i as int, now, *d) == (db@, None::<Seq<char>>),
        decreases steps@.len() - i,
    {
        assert(sv[i as int] == steps@[i as int]@);
        match take_step(db, &steps[i], now, d) {
            Ok(_) => {},
            Err(m) => {
                proof {
                    stopped_steps(v, sv, i + 1, sv.len() as int, now, *d);
                }
                return Err(m);
            },
        }
        i += 1;
    }
    let mut names: Vec<Json> = Vec::new();
    names.push(Json::Text("EVT-IMPACT".to_owned()));
    names.push(Json::Text("EVT-MIRROR".to_owned()));
    names.push(Json::Text("EVT-DRIFT".to_owned()));
    assert(json_views(names@) =~= answer_json()->Object_0[1].1->Array_0);
    let mut m = Members::new();
    m.put("generated", Json::Bool(true));
    m.put("events", array(names));
    let answer = m.object();
    assert(answer@->Object_0 =~= answer_json()->Object_0);
    Ok(answer)
}

} // verus!
