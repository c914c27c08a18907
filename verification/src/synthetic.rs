//! Data that does not come from the field: the demonstration site and the
//! small cases that the clocks and the solver are tried on.
//!
//! What follows from the geometry, onsets and delays, is worked out on the
//! numeric side and handed in.
use vstd::prelude::*;

use crate::clocks::bare_views;
use crate::double::Double;
use crate::model::{
    laginput_views, observationinput_views, station_views, BatchInput, BatchInputView, ClockSegment,
    ClockSegmentView, EventInput, EventInputView, LagInput, LagInputView, ObservationInput,
    ObservationInputView, SiteBounds, Station, StationView,
};
use crate::store::segment_views;

verus! {

/// 343 m/s.
pub const SOUND_SPEED: u64 = 0x4075_7000_0000_0000;

/// Data to fill the tables with.
#[derive(Debug)]
pub struct SeedData {
    pub stations: Vec<Station>,
    pub events: Vec<EventInput>,
    pub clocks: Vec<ClockSegment>,
    pub batches: Vec<BatchInput>,
}

/// What [`SeedData`] says.
#[verifier::ext_equal]
pub ghost struct SeedDataView {
    pub stations: Seq<StationView>,
    pub events: Seq<EventInputView>,
    pub clocks: Seq<ClockSegmentView>,
    pub batches: Seq<BatchInputView>,
}

impl View for SeedData {
    type V = SeedDataView;

    open spec fn view(&self) -> SeedDataView {
        SeedDataView {
            stations: station_views(self.stations@),
            events: self.events@.map_values(|e: EventInput| e@),
            clocks: bare_views(self.clocks@),
            batches: self.batches@.map_values(|b: BatchInput| b@),
        }
    }
}

/// -10
pub const V_NEG_10: u64 = 0xc024_0000_0000_0000;

/// -5
pub const V_NEG_5: u64 = 0xc014_0000_0000_0000;

/// -0.01
pub const V_NEG_0_01: u64 = 0xbf84_7ae1_47ae_147b;

/// -0.006
pub const V_NEG_0_006: u64 = 0xbf78_9374_bc6a_7efa;

/// -0.004
pub const V_NEG_0_004: u64 = 0xbf70_624d_d2f1_a9fc;

/// 0
pub const V_0: u64 = 0x0000_0000_0000_0000;

/// 0.002
pub const V_0_002: u64 = 0x3f60_624d_d2f1_a9fc;

/// 0.005
pub const V_0_005: u64 = 0x3f74_7ae1_47ae_147b;

/// 0.01
pub const V_0_01: u64 = 0x3f84_7ae1_47ae_147b;

/// 0.011
pub const V_0_011: u64 = 0x3f86_872b_020c_49ba;

/// 0.012
pub const V_0_012: u64 = 0x3f88_9374_bc6a_7efa;

/// 0.02
pub const V_0_02: u64 = 0x3f94_7ae1_47ae_147b;

/// 0.04
pub const V_0_04: u64 = 0x3fa4_7ae1_47ae_147b;

/// 0.05
pub const V_0_05: u64 = 0x3fa9_9999_9999_999a;

/// 0.055
pub const V_0_055: u64 = 0x3fac_28f5_c28f_5c29;

/// 0.07
pub const V_0_07: u64 = 0x3fb1_eb85_1eb8_51ec;

/// 1
pub const V_1: u64 = 0x3ff0_0000_0000_0000;

/// 4
pub const V_4: u64 = 0x4010_0000_0000_0000;

/// 6
pub const V_6: u64 = 0x4018_0000_0000_0000;

/// 9
pub const V_9: u64 = 0x4022_0000_0000_0000;

/// 10
pub const V_10: u64 = 0x4024_0000_0000_0000;

/// 12
pub const V_12: u64 = 0x4028_0000_0000_0000;

/// 14
pub const V_14: u64 = 0x402c_0000_0000_0000;

/// 15
pub const V_15: u64 = 0x402e_0000_0000_0000;

/// 16
pub const V_16: u64 = 0x4030_0000_0000_0000;

/// 25
pub const V_25: u64 = 0x4039_0000_0000_0000;

/// 30
pub const V_30: u64 = 0x403e_0000_0000_0000;

/// 35
pub const V_35: u64 = 0x4041_8000_0000_0000;

/// 40
pub const V_40: u64 = 0x4044_0000_0000_0000;

/// 50
pub const V_50: u64 = 0x4049_0000_0000_0000;

/// 100
pub const V_100: u64 = 0x4059_0000_0000_0000;

/// 500
pub const V_500: u64 = 0x407f_4000_0000_0000;

/// 500.2
pub const V_500_2: u64 = 0x407f_4333_3333_3333;

/// 500.6
pub const V_500_6: u64 = 0x407f_4999_9999_999a;

/// 900
pub const V_900: u64 = 0x408c_2000_0000_0000;

/// 1000
pub const V_1000: u64 = 0x408f_4000_0000_0000;

/// 1000.3
pub const V_1000_3: u64 = 0x408f_4266_6666_6666;

/// 1000.6
pub const V_1000_6: u64 = 0x408f_44cc_cccc_cccd;

/// 1200
pub const V_1200: u64 = 0x4092_c000_0000_0000;

/// 1500
pub const V_1500: u64 = 0x4097_7000_0000_0000;

/// 1800
pub const V_1800: u64 = 0x409c_2000_0000_0000;

/// 1999
pub const V_1999: u64 = 0x409f_3c00_0000_0000;

/// 2000
pub const V_2000: u64 = 0x409f_4000_0000_0000;

/// 2000.3
pub const V_2000_3: u64 = 0x409f_4133_3333_3333;

/// 2000.6
pub const V_2000_6: u64 = 0x409f_4266_6666_6666;

/// 2400
pub const V_2400: u64 = 0x40a2_c000_0000_0000;

/// 2500
pub const V_2500: u64 = 0x40a3_8800_0000_0000;

/// 2999
pub const V_2999: u64 = 0x40a7_6e00_0000_0000;

/// 3000
pub const V_3000: u64 = 0x40a7_7000_0000_0000;

/// 3000.6
pub const V_3000_6: u64 = 0x40a7_7133_3333_3333;

// ---------- Records ----------

pub open spec fn station_said(
    id: Seq<char>,
    x: Double,
    y: Double,
    label: Seq<char>,
) -> StationView {
    StationView { station_id: id, x, y, label }
}

fn station(id: &str, x: Double, y: Double, label: &str) -> (r: Station)
    ensures
        r@ == station_said(id@, x, y, label@),
{
    Station { station_id: id.to_owned(), x, y, label: label.to_owned() }
}

pub open spec fn segment_said(
    id: Seq<char>,
    t_start: Double,
    t_end: Option<Double>,
    offset_sec: Double,
    source: Seq<char>,
) -> ClockSegmentView {
    ClockSegmentView { station_id: id, t_start, t_end, offset_sec, source }
}

fn segment(
    id: &str,
    t_start: Double,
    t_end: Option<Double>,
    offset_sec: Double,
    source: &str,
) -> (r: ClockSegment)
    ensures
        r@ == segment_said(id@, t_start, t_end, offset_sec, source@),
{
    ClockSegment {
        station_id: id.to_owned(),
        t_start,
        t_end,
        offset_sec,
        source: source.to_owned(),
    }
}

pub open spec fn event_said(
    id: Seq<char>,
    label: Seq<char>,
    window_start: Double,
    window_end: Double,
    site_bounds: SiteBounds,
) -> EventInputView {
    EventInputView {
        event_id: id,
        label,
        window_start,
        window_end,
        sound_speed_mps: Double { bits: SOUND_SPEED },
        site_bounds,
    }
}

fn event(
    id: &str,
    label: &str,
    window_start: Double,
    window_end: Double,
    site_bounds: SiteBounds,
) -> (r: EventInput)
    ensures
        r@ == event_said(id@, label@, window_start, window_end, site_bounds),
{
    EventInput {
        event_id: id.to_owned(),
        label: label.to_owned(),
        window_start,
        window_end,
        sound_speed_mps: Double { bits: SOUND_SPEED },
        site_bounds,
    }
}

pub open spec fn observation_said(
    uid: Seq<char>,
    station_id: Seq<char>,
    onset: Double,
    band: Double,
    snr: Double,
    lags: Seq<LagInputView>,
) -> ObservationInputView {
    ObservationInputView {
        obs_uid: uid,
        station_id,
        local_onset_sec: onset,
        peak_band_hz: band,
        snr_db: snr,
        lags,
    }
}

fn observation(
    uid: &str,
    station_id: &str,
    onset: Double,
    band: Double,
    snr: Double,
    lags: Vec<LagInput>,
) -> (r: ObservationInput)
    ensures
        r@ == observation_said(uid@, station_id@, onset, band, snr, laginput_views(lags@)),
{
    ObservationInput {
        obs_uid: uid.to_owned(),
        station_id: station_id.to_owned(),
        local_onset_sec: onset,
        peak_band_hz: band,
        snr_db: snr,
        lags,
    }
}

pub open spec fn lag_said(
    peer: Seq<char>,
    lag_sec: Double,
    band: Double,
    snr: Double,
    hint: Seq<char>,
    uid: Seq<char>,
) -> LagInputView {
    LagInputView {
        peer_id: peer,
        lag_sec,
        peak_band_hz: band,
        snr_db: snr,
        hint,
        lag_uid: Some(uid),
    }
}

fn lag(
    peer: &str,
    lag_sec: Double,
    band: Double,
    snr: Double,
    hint: &str,
    uid: &str,
) -> (r: LagInput)
    ensures
        r@ == lag_said(peer@, lag_sec, band, snr, hint@, uid@),
{
    LagInput {
        peer_id: peer.to_owned(),
        lag_sec,
        peak_band_hz: band,
        snr_db: snr,
        hint: hint.to_owned(),
        lag_uid: Some(uid.to_owned()),
    }
}

fn batch(uid: &str, event_id: &str, observations: Vec<ObservationInput>) -> (r: BatchInput)
    ensures
        r@ == (BatchInputView {
            batch_uid: uid@,
            event_id: event_id@,
            observations: observationinput_views(observations@),
        }),
{
    BatchInput { batch_uid: uid.to_owned(), event_id: event_id.to_owned(), observations }
}

/// Two segments of one station that touch at 100 s.
pub open spec fn boundary_case() -> Seq<(ClockSegmentView, int)> {
    seq![
        (
            segment_said(
                "S1"@,
                Double { bits: V_0 },
                Some(Double { bits: V_100 }),
                Double { bits: V_0_01 },
                "fixture"@,
            ),
            1,
        ),
        (segment_said("S1"@, Double { bits: V_100 }, None, Double { bits: V_0_02 }, "fixture"@), 2),
    ]
}

/// Makes two segments of one station that touch at 100 s.
pub fn clock_boundary_case() -> (r: Vec<(ClockSegment, i64)>)
    ensures
        segment_views(r@) == boundary_case(),
{
    let mut r: Vec<(ClockSegment, i64)> = Vec::new();
    r.push(
        (
            segment(
                "S1",
                Double { bits: V_0 },
                Some(Double { bits: V_100 }),
                Double { bits: V_0_01 },
                "fixture",
            ),
            1,
        ),
    );
    r.push((segment("S1", Double { bits: V_100 }, None, Double { bits: V_0_02 }, "fixture"), 2));
    assert(segment_views(r@) =~= boundary_case());
    r
}

/// One station with one observation.
pub open spec fn minimal_case() -> SeedDataView {
    SeedDataView {
        stations: seq![
            station_said("S1"@, Double { bits: V_0 }, Double { bits: V_0 }, "a"@),
        ],
        events: seq![
            event_said(
                "EV"@,
                "min"@,
                Double { bits: V_0 },
                Double { bits: V_10 },
                SiteBounds {
                    min_x: Double { bits: V_NEG_5 },
                    min_y: Double { bits: V_NEG_5 },
                    max_x: Double { bits: V_35 },
                    max_y: Double { bits: V_30 },
                },
            ),
        ],
        clocks: seq![
            segment_said("S1"@, Double { bits: V_0 }, None, Double { bits: V_0 }, "fixture"@),
        ],
        batches: seq![
            BatchInputView {
                batch_uid: "BM"@,
                event_id: "EV"@,
                observations: seq![
                    observation_said(
                        "obs:min"@,
                        "S1"@,
                        Double { bits: V_1 },
                        Double { bits: V_1000 },
                        Double { bits: V_10 },
                        Seq::empty(),
                    ),
                ],
            },
        ],
    }
}

/// Makes one station with one observation.
pub fn synthetic_build_minimal() -> (r: SeedData)
    ensures
        r@ == minimal_case(),
{
    let mut stations: Vec<Station> = Vec::new();
    stations.push(station("S1", Double { bits: V_0 }, Double { bits: V_0 }, "a"));
    let mut clocks: Vec<ClockSegment> = Vec::new();
    clocks.push(segment("S1", Double { bits: V_0 }, None, Double { bits: V_0 }, "fixture"));
    let mut events: Vec<EventInput> = Vec::new();
    events.push(
        event(
            "EV",
            "min",
            Double { bits: V_0 },
            Double { bits: V_10 },
            SiteBounds {
                min_x: Double { bits: V_NEG_5 },
                min_y: Double { bits: V_NEG_5 },
                max_x: Double { bits: V_35 },
                max_y: Double { bits: V_30 },
            },
        ),
    );
    let mut batches: Vec<BatchInput> = Vec::new();
    let mut obs0: Vec<ObservationInput> = Vec::new();
    let lags0_0: Vec<LagInput> = Vec::new();
    assert(laginput_views(lags0_0@) =~= Seq::empty());
    obs0.push(
        observation(
            "obs:min",
            "S1",
            Double { bits: V_1 },
            Double { bits: V_1000 },
            Double { bits: V_10 },
            lags0_0,
        ),
    );
    assert(observationinput_views(obs0@) =~= minimal_case().batches[0].observations);
    batches.push(batch("BM", "EV", obs0));
    let r = SeedData { stations, events, clocks, batches };
    assert(r@.stations =~= minimal_case().stations);
    assert(r@.events =~= minimal_case().events);
    assert(r@.clocks =~= minimal_case().clocks);
    assert(r@.batches =~= minimal_case().batches);
    r
}

/// Three stations that fix a source at (14, 10), with the onsets that it gives at
/// their clocks.
pub open spec fn three_station_case(onsets: Seq<Double>) -> SeedDataView {
    SeedDataView {
        stations: seq![
            station_said("S1"@, Double { bits: V_0 }, Double { bits: V_0 }, "a"@),
            station_said("S2"@, Double { bits: V_30 }, Double { bits: V_0 }, "b"@),
            station_said("S3"@, Double { bits: V_15 }, Double { bits: V_25 }, "c"@),
        ],
        events: seq![
            event_said(
                "EV"@,
                "fixture"@,
                Double { bits: V_500 },
                Double { bits: V_500_6 },
                SiteBounds {
                    min_x: Double { bits: V_NEG_5 },
                    min_y: Double { bits: V_NEG_5 },
                    max_x: Double { bits: V_35 },
                    max_y: Double { bits: V_30 },
                },
            ),
        ],
        clocks: seq![
            segment_said(
                "S1"@,
                Double { bits: V_0 },
                Some(Double { bits: V_500_2 }),
                Double { bits: V_0_011 },
                "fixture"@,
            ),
            segment_said(
                "S1"@,
                Double { bits: V_500_2 },
                None,
                Double { bits: V_0_011 },
                "fixture"@,
            ),
            segment_said(
                "S2"@,
                Double { bits: V_0 },
                Some(Double { bits: V_500_2 }),
                Double { bits: V_NEG_0_006 },
                "fixture"@,
            ),
            segment_said(
                "S2"@,
                Double { bits: V_500_2 },
                None,
                Double { bits: V_NEG_0_006 },
                "fixture"@,
            ),
            segment_said(
                "S3"@,
                Double { bits: V_0 },
                Some(Double { bits: V_500_2 }),
                Double { bits: V_0_002 },
                "fixture"@,
            ),
            segment_said(
                "S3"@,
                Double { bits: V_500_2 },
                None,
                Double { bits: V_0_002 },
                "fixture"@,
            ),
        ],
        batches: seq![
            BatchInputView {
                batch_uid: "B"@,
                event_id: "EV"@,
                observations: seq![
                    observation_said(
                        "obs:S1"@,
                        "S1"@,
                        onsets[0],
                        Double { bits: V_1200 },
                        Double { bits: V_14 },
                        Seq::empty(),
                    ),
                    observation_said(
                        "obs:S2"@,
                        "S2"@,
                        onsets[1],
                        Double { bits: V_1200 },
                        Double { bits: V_14 },
                        Seq::empty(),
                    ),
                    observation_said(
                        "obs:S3"@,
                        "S3"@,
                        onsets[2],
                        Double { bits: V_1200 },
                        Double { bits: V_14 },
                        Seq::empty(),
                    ),
                ],
            },
        ],
    }
}

/// Makes the three stations. The clocks have segments, and none of them is locked.
pub fn synthetic_three_station_case(onsets: &Vec<Double>) -> (r: SeedData)
    requires
        onsets@.len() == 3,
    ensures
        r@ == three_station_case(onsets@),
{
    let mut stations: Vec<Station> = Vec::new();
    stations.push(station("S1", Double { bits: V_0 }, Double { bits: V_0 }, "a"));
    stations.push(station("S2", Double { bits: V_30 }, Double { bits: V_0 }, "b"));
    stations.push(station("S3", Double { bits: V_15 }, Double { bits: V_25 }, "c"));
    let mut clocks: Vec<ClockSegment> = Vec::new();
    clocks.push(
        segment(
            "S1",
            Double { bits: V_0 },
            Some(Double { bits: V_500_2 }),
            Double { bits: V_0_011 },
            "fixture",
        ),
    );
    clocks.push(segment("S1", Double { bits: V_500_2 }, None, Double { bits: V_0_011 }, "fixture"));
    clocks.push(
        segment(
            "S2",
            Double { bits: V_0 },
            Some(Double { bits: V_500_2 }),
            Double { bits: V_NEG_0_006 },
            "fixture",
        ),
    );
    clocks.push(
        segment("S2", Double { bits: V_500_2 }, None, Double { bits: V_NEG_0_006 }, "fixture"),
    );
    clocks.push(
        segment(
            "S3",
            Double { bits: V_0 },
            Some(Double { bits: V_500_2 }),
            Double { bits: V_0_002 },
            "fixture",
        ),
    );
    clocks.push(segment("S3", Double { bits: V_500_2 }, None, Double { bits: V_0_002 }, "fixture"));
    let mut events: Vec<EventInput> = Vec::new();
    events.push(
        event(
            "EV",
            "fixture",
            Double { bits: V_500 },
            Double { bits: V_500_6 },
            SiteBounds {
                min_x: Double { bits: V_NEG_5 },
                min_y: Double { bits: V_NEG_5 },
                max_x: Double { bits: V_35 },
                max_y: Double { bits: V_30 },
            },
        ),
    );
    let mut batches: Vec<BatchInput> = Vec::new();
    let mut obs0: Vec<ObservationInput> = Vec::new();
    let lags0_0: Vec<LagInput> = Vec::new();
    assert(laginput_views(lags0_0@) =~= Seq::empty());
    obs0.push(
        observation(
            "obs:S1",
            "S1",
            onsets[0],
            Double { bits: V_1200 },
            Double { bits: V_14 },
            lags0_0,
        ),
    );
    let lags0_1: Vec<LagInput> = Vec::new();
    assert(laginput_views(lags0_1@) =~= Seq::empty());
    obs0.push(
        observation(
            "obs:S2",
            "S2",
            onsets[1],
            Double { bits: V_1200 },
            Double { bits: V_14 },
            lags0_1,
        ),
    );
    let lags0_2: Vec<LagInput> = Vec::new();
    assert(laginput_views(lags0_2@) =~= Seq::empty());
    obs0.push(
        observation(
            "obs:S3",
            "S3",
            onsets[2],
            Double { bits: V_1200 },
            Double { bits: V_14 },
            lags0_2,
        ),
    );
    assert(observationinput_views(obs0@) =~= three_station_case(onsets@).batches[0].observations);
    batches.push(batch("B", "EV", obs0));
    let r = SeedData { stations, events, clocks, batches };
    assert(r@.stations =~= three_station_case(onsets@).stations);
    assert(r@.events =~= three_station_case(onsets@).events);
    assert(r@.clocks =~= three_station_case(onsets@).clocks);
    assert(r@.batches =~= three_station_case(onsets@).batches);
    r
}

/// The demonstration site: an event with a reflection, one that too few stations
/// heard, and one with a delay that sound cannot cover.
pub open spec fn demonstration(onsets: Seq<Double>, delays: Seq<Double>) -> SeedDataView {
    SeedDataView {
        stations: seq![
            station_said("S1"@, Double { bits: V_0 }, Double { bits: V_0 }, "阵列-西北"@),
            station_said("S2"@, Double { bits: V_40 }, Double { bits: V_0 }, "阵列-东北"@),
            station_said("S3"@, Double { bits: V_0 }, Double { bits: V_30 }, "阵列-西南"@),
            station_said("S4"@, Double { bits: V_40 }, Double { bits: V_30 }, "阵列-东南"@),
        ],
        events: seq![
            event_said(
                "EV-A"@,
                "压缩机异响（含墙面反射）"@,
                Double { bits: V_1000 },
                Double { bits: V_1000_6 },
                SiteBounds {
                    min_x: Double { bits: V_NEG_10 },
                    min_y: Double { bits: V_NEG_10 },
                    max_x: Double { bits: V_50 },
                    max_y: Double { bits: V_40 },
                },
            ),
            event_said(
                "EV-B"@,
                "管道泄漏（仅两台上报）"@,
                Double { bits: V_2000 },
                Double { bits: V_2000_6 },
                SiteBounds {
                    min_x: Double { bits: V_NEG_10 },
                    min_y: Double { bits: V_NEG_10 },
                    max_x: Double { bits: V_50 },
                    max_y: Double { bits: V_40 },
                },
            ),
            event_said(
                "EV-C"@,
                "异常特征包（超光速延迟）"@,
                Double { bits: V_3000 },
                Double { bits: V_3000_6 },
                SiteBounds {
                    min_x: Double { bits: V_NEG_10 },
                    min_y: Double { bits: V_NEG_10 },
                    max_x: Double { bits: V_50 },
                    max_y: Double { bits: V_40 },
                },
            ),
        ],
        clocks: seq![
            segment_said(
                "S1"@,
                Double { bits: V_0 },
                Some(Double { bits: V_1000_3 }),
                Double { bits: V_0_02 },
                "synthetic"@,
            ),
            segment_said(
                "S1"@,
                Double { bits: V_1000_3 },
                Some(Double { bits: V_1500 }),
                Double { bits: V_0_07 },
                "synthetic"@,
            ),
            segment_said(
                "S2"@,
                Double { bits: V_0 },
                Some(Double { bits: V_1000_3 }),
                Double { bits: V_NEG_0_01 },
                "synthetic"@,
            ),
            segment_said(
                "S2"@,
                Double { bits: V_1000_3 },
                Some(Double { bits: V_1500 }),
                Double { bits: V_0_04 },
                "synthetic"@,
            ),
            segment_said(
                "S3"@,
                Double { bits: V_0 },
                Some(Double { bits: V_1000_3 }),
                Double { bits: V_0 },
                "synthetic"@,
            ),
            segment_said(
                "S3"@,
                Double { bits: V_1000_3 },
                Some(Double { bits: V_1500 }),
                Double { bits: V_0_05 },
                "synthetic"@,
            ),
            segment_said(
                "S4"@,
                Double { bits: V_0 },
                Some(Double { bits: V_1000_3 }),
                Double { bits: V_0_005 },
                "synthetic"@,
            ),
            segment_said(
                "S4"@,
                Double { bits: V_1000_3 },
                Some(Double { bits: V_1500 }),
                Double { bits: V_0_055 },
                "synthetic"@,
            ),
            segment_said(
                "S1"@,
                Double { bits: V_1999 },
                Some(Double { bits: V_2000_3 }),
                Double { bits: V_0_012 },
                "synthetic"@,
            ),
            segment_said(
                "S1"@,
                Double { bits: V_2000_3 },
                Some(Double { bits: V_2500 }),
                Double { bits: V_0_012 },
                "synthetic"@,
            ),
            segment_said(
                "S3"@,
                Double { bits: V_1999 },
                Some(Double { bits: V_2000_3 }),
                Double { bits: V_NEG_0_004 },
                "synthetic"@,
            ),
            segment_said(
                "S3"@,
                Double { bits: V_2000_3 },
                Some(Double { bits: V_2500 }),
                Double { bits: V_NEG_0_004 },
                "synthetic"@,
            ),
            segment_said("S1"@, Double { bits: V_2999 }, None, Double { bits: V_0 }, "synthetic"@),
            segment_said("S2"@, Double { bits: V_2999 }, None, Double { bits: V_0 }, "synthetic"@),
            segment_said("S3"@, Double { bits: V_2999 }, None, Double { bits: V_0 }, "synthetic"@),
            segment_said("S4"@, Double { bits: V_2999 }, None, Double { bits: V_0 }, "synthetic"@),
        ],
        batches: seq![
            BatchInputView {
                batch_uid: "B-A"@,
                event_id: "EV-A"@,
                observations: seq![
                    observation_said(
                        "obs:B-A:S1"@,
                        "S1"@,
                        onsets[0],
                        Double { bits: V_1800 },
                        Double { bits: V_15 },
                        seq![
                            lag_said(
                                "S2"@,
                                delays[0],
                                Double { bits: V_1800 },
                                Double { bits: V_16 },
                                "direct"@,
                                "lag:B-A:0:0"@,
                            ),
                            lag_said(
                                "S2"@,
                                delays[1],
                                Double { bits: V_1800 },
                                Double { bits: V_9 },
                                "reflection"@,
                                "lag:B-A:0:1"@,
                            ),
                        ],
                    ),
                    observation_said(
                        "obs:B-A:S2"@,
                        "S2"@,
                        onsets[1],
                        Double { bits: V_1800 },
                        Double { bits: V_15 },
                        seq![
                            lag_said(
                                "S2"@,
                                delays[2],
                                Double { bits: V_1800 },
                                Double { bits: V_16 },
                                "direct"@,
                                "lag:B-A:1:0"@,
                            ),
                        ],
                    ),
                    observation_said(
                        "obs:B-A:S3"@,
                        "S3"@,
                        onsets[2],
                        Double { bits: V_1800 },
                        Double { bits: V_15 },
                        seq![
                            lag_said(
                                "S2"@,
                                delays[3],
                                Double { bits: V_1800 },
                                Double { bits: V_16 },
                                "direct"@,
                                "lag:B-A:2:0"@,
                            ),
                        ],
                    ),
                    observation_said(
                        "obs:B-A:S4"@,
                        "S4"@,
                        onsets[3],
                        Double { bits: V_1800 },
                        Double { bits: V_15 },
                        Seq::empty(),
                    ),
                    observation_said(
                        "obs:B-A:S1"@,
                        "S1"@,
                        onsets[0],
                        Double { bits: V_1800 },
                        Double { bits: V_15 },
                        seq![
                            lag_said(
                                "S2"@,
                                delays[0],
                                Double { bits: V_1800 },
                                Double { bits: V_16 },
                                "direct"@,
                                "lag:B-A:0:0"@,
                            ),
                            lag_said(
                                "S2"@,
                                delays[1],
                                Double { bits: V_1800 },
                                Double { bits: V_9 },
                                "reflection"@,
                                "lag:B-A:0:1"@,
                            ),
                        ],
                    ),
                ],
            },
            BatchInputView {
                batch_uid: "B-B"@,
                event_id: "EV-B"@,
                observations: seq![
                    observation_said(
                        "obs:B-B:S1"@,
                        "S1"@,
                        onsets[4],
                        Double { bits: V_900 },
                        Double { bits: V_6 },
                        Seq::empty(),
                    ),
                    observation_said(
                        "obs:B-B:S3"@,
                        "S3"@,
                        onsets[5],
                        Double { bits: V_900 },
                        Double { bits: V_6 },
                        Seq::empty(),
                    ),
                ],
            },
            BatchInputView {
                batch_uid: "B-C"@,
                event_id: "EV-C"@,
                observations: seq![
                    observation_said(
                        "obs:B-C:S1"@,
                        "S1"@,
                        onsets[6],
                        Double { bits: V_2400 },
                        Double { bits: V_12 },
                        seq![
                            lag_said(
                                "S2"@,
                                delays[4],
                                Double { bits: V_2400 },
                                Double { bits: V_4 },
                                "direct"@,
                                "lag:B-C:0:0"@,
                            ),
                        ],
                    ),
                    observation_said(
                        "obs:B-C:S2"@,
                        "S2"@,
                        onsets[7],
                        Double { bits: V_2400 },
                        Double { bits: V_12 },
                        Seq::empty(),
                    ),
                    observation_said(
                        "obs:B-C:S3"@,
                        "S3"@,
                        onsets[8],
                        Double { bits: V_2400 },
                        Double { bits: V_12 },
                        Seq::empty(),
                    ),
                    observation_said(
                        "obs:B-C:S4"@,
                        "S4"@,
                        onsets[9],
                        Double { bits: V_2400 },
                        Double { bits: V_12 },
                        Seq::empty(),
                    ),
                ],
            },
        ],
    }
}

/// Makes the demonstration site. `onsets` holds the onsets of the three events in
/// the order of their observations, `delays` the delays of the first event from
/// S1 (direct and reflected), S2 and S3, and the one of the last event.
pub fn build(onsets: &Vec<Double>, delays: &Vec<Double>) -> (r: SeedData)
    requires
        onsets@.len() == 10,
        delays@.len() == 5,
    ensures
        r@ == demonstration(onsets@, delays@),
{
    let mut stations: Vec<Station> = Vec::new();
    stations.push(station("S1", Double { bits: V_0 }, Double { bits: V_0 }, "阵列-西北"));
    stations.push(station("S2", Double { bits: V_40 }, Double { bits: V_0 }, "阵列-东北"));
    stations.push(station("S3", Double { bits: V_0 }, Double { bits: V_30 }, "阵列-西南"));
    stations.push(station("S4", Double { bits: V_40 }, Double { bits: V_30 }, "阵列-东南"));
    let mut clocks: Vec<ClockSegment> = Vec::new();
    clocks.push(
        segment(
            "S1",
            Double { bits: V_0 },
            Some(Double { bits: V_1000_3 }),
            Double { bits: V_0_02 },
            "synthetic",
        ),
    );
    clocks.push(
        segment(
            "S1",
            Double { bits: V_1000_3 },
            Some(Double { bits: V_1500 }),
            Double { bits: V_0_07 },
            "synthetic",
        ),
    );
    clocks.push(
        segment(
            "S2",
            Double { bits: V_0 },
            Some(Double { bits: V_1000_3 }),
            Double { bits: V_NEG_0_01 },
            "synthetic",
        ),
    );
    clocks.push(
        segment(
            "S2",
            Double { bits: V_1000_3 },
            Some(Double { bits: V_1500 }),
            Double { bits: V_0_04 },
            "synthetic",
        ),
    );
    clocks.push(
        segment(
            "S3",
            Double { bits: V_0 },
            Some(Double { bits: V_1000_3 }),
            Double { bits: V_0 },
            "synthetic",
        ),
    );
    clocks.push(
        segment(
            "S3",
            Double { bits: V_1000_3 },
            Some(Double { bits: V_1500 }),
            Double { bits: V_0_05 },
            "synthetic",
        ),
    );
    clocks.push(
        segment(
            "S4",
            Double { bits: V_0 },
            Some(Double { bits: V_1000_3 }),
            Double { bits: V_0_005 },
            "synthetic",
        ),
    );
    clocks.push(
        segment(
            "S4",
            Double { bits: V_1000_3 },
            Some(Double { bits: V_1500 }),
            Double { bits: V_0_055 },
            "synthetic",
        ),
    );
    clocks.push(
        segment(
            "S1",
            Double { bits: V_1999 },
            Some(Double { bits: V_2000_3 }),
            Double { bits: V_0_012 },
            "synthetic",
        ),
    );
    clocks.push(
        segment(
            "S1",
            Double { bits: V_2000_3 },
            Some(Double { bits: V_2500 }),
            Double { bits: V_0_012 },
            "synthetic",
        ),
    );
    clocks.push(
        segment(
            "S3",
            Double { bits: V_1999 },
            Some(Double { bits: V_2000_3 }),
            Double { bits: V_NEG_0_004 },
            "synthetic",
        ),
    );
    clocks.push(
        segment(
            "S3",
            Double { bits: V_2000_3 },
            Some(Double { bits: V_2500 }),
            Double { bits: V_NEG_0_004 },
            "synthetic",
        ),
    );
    clocks.push(segment("S1", Double { bits: V_2999 }, None, Double { bits: V_0 }, "synthetic"));
    clocks.push(segment("S2", Double { bits: V_2999 }, None, Double { bits: V_0 }, "synthetic"));
    clocks.push(segment("S3", Double { bits: V_2999 }, None, Double { bits: V_0 }, "synthetic"));
    clocks.push(segment("S4", Double { bits: V_2999 }, None, Double { bits: V_0 }, "synthetic"));
    let mut events: Vec<EventInput> = Vec::new();
    events.push(
        event(
            "EV-A",
            "压缩机异响（含墙面反射）",
            Double { bits: V_1000 },
            Double { bits: V_1000_6 },
            SiteBounds {
                min_x: Double { bits: V_NEG_10 },
                min_y: Double { bits: V_NEG_10 },
                max_x: Double { bits: V_50 },
                max_y: Double { bits: V_40 },
            },
        ),
    );
    events.push(
        event(
            "EV-B",
            "管道泄漏（仅两台上报）",
            Double { bits: V_2000 },
            Double { bits: V_2000_6 },
            SiteBounds {
                min_x: Double { bits: V_NEG_10 },
                min_y: Double { bits: V_NEG_10 },
                max_x: Double { bits: V_50 },
                max_y: Double { bits: V_40 },
            },
        ),
    );
    events.push(
        event(
            "EV-C",
            "异常特征包（超光速延迟）",
            Double { bits: V_3000 },
            Double { bits: V_3000_6 },
            SiteBounds {
                min_x: Double { bits: V_NEG_10 },
                min_y: Double { bits: V_NEG_10 },
                max_x: Double { bits: V_50 },
                max_y: Double { bits: V_40 },
            },
        ),
    );
    let mut batches: Vec<BatchInput> = Vec::new();
    let mut obs0: Vec<ObservationInput> = Vec::new();
    let mut lags0_0: Vec<LagInput> = Vec::new();
    lags0_0.push(
        lag(
            "S2",
            delays[0],
            Double { bits: V_1800 },
            Double { bits: V_16 },
            "direct",
            "lag:B-A:0:0",
        ),
    );
    lags0_0.push(
        lag(
            "S2",
            delays[1],
            Double { bits: V_1800 },
            Double { bits: V_9 },
            "reflection",
            "lag:B-A:0:1",
        ),
    );
    assert(
        laginput_views(lags0_0@) =~= seq![
            lag_said(
                "S2"@,
                delays[0],
                Double { bits: V_1800 },
                Double { bits: V_16 },
                "direct"@,
                "lag:B-A:0:0"@,
            ),
            lag_said(
                "S2"@,
                delays[1],
                Double { bits: V_1800 },
                Double { bits: V_9 },
                "reflection"@,
                "lag:B-A:0:1"@,
            ),
        ]
    );
    obs0.push(
        observation(
            "obs:B-A:S1",
            "S1",
            onsets[0],
            Double { bits: V_1800 },
            Double { bits: V_15 },
            lags0_0,
        ),
    );
    let mut lags0_1: Vec<LagInput> = Vec::new();
    lags0_1.push(
        lag(
            "S2",
            delays[2],
            Double { bits: V_1800 },
            Double { bits: V_16 },
            "direct",
            "lag:B-A:1:0",
        ),
    );
    assert(
        laginput_views(lags0_1@) =~= seq![
            lag_said(
                "S2"@,
                delays[2],
                Double { bits: V_1800 },
                Double { bits: V_16 },
                "direct"@,
                "lag:B-A:1:0"@,
            ),
        ]
    );
    obs0.push(
        observation(
            "obs:B-A:S2",
            "S2",
            onsets[1],
            Double { bits: V_1800 },
            Double { bits: V_15 },
            lags0_1,
        ),
    );
    let mut lags0_2: Vec<LagInput> = Vec::new();
    lags0_2.push(
        lag(
            "S2",
            delays[3],
            Double { bits: V_1800 },
            Double { bits: V_16 },
            "direct",
            "lag:B-A:2:0",
        ),
    );
    assert(
        laginput_views(lags0_2@) =~= seq![
            lag_said(
                "S2"@,
                delays[3],
                Double { bits: V_1800 },
                Double { bits: V_16 },
                "direct"@,
                "lag:B-A:2:0"@,
            ),
        ]
    );
    obs0.push(
        observation(
            "obs:B-A:S3",
            "S3",
            onsets[2],
            Double { bits: V_1800 },
            Double { bits: V_15 },
            lags0_2,
        ),
    );
    let lags0_3: Vec<LagInput> = Vec::new();
    assert(laginput_views(lags0_3@) =~= Seq::empty());
    obs0.push(
        observation(
            "obs:B-A:S4",
            "S4",
            onsets[3],
            Double { bits: V_1800 },
            Double { bits: V_15 },
            lags0_3,
        ),
    );
    let mut lags0_4: Vec<LagInput> = Vec::new();
    lags0_4.push(
        lag(
            "S2",
            delays[0],
            Double { bits: V_1800 },
            Double { bits: V_16 },
            "direct",
            "lag:B-A:0:0",
        ),
    );
    lags0_4.push(
        lag(
            "S2",
            delays[1],
            Double { bits: V_1800 },
            Double { bits: V_9 },
            "reflection",
            "lag:B-A:0:1",
        ),
    );
    assert(
        laginput_views(lags0_4@) =~= seq![
            lag_said(
                "S2"@,
                delays[0],
                Double { bits: V_1800 },
                Double { bits: V_16 },
                "direct"@,
                "lag:B-A:0:0"@,
            ),
            lag_said(
                "S2"@,
                delays[1],
                Double { bits: V_1800 },
                Double { bits: V_9 },
                "reflection"@,
                "lag:B-A:0:1"@,
            ),
        ]
    );
    obs0.push(
        observation(
            "obs:B-A:S1",
            "S1",
            onsets[0],
            Double { bits: V_1800 },
            Double { bits: V_15 },
            lags0_4,
        ),
    );
    assert(
        observationinput_views(obs0@) =~= demonstration(onsets@, delays@).batches[0].observations
    );
    batches.push(batch("B-A", "EV-A", obs0));
    let mut obs1: Vec<ObservationInput> = Vec::new();
    let lags1_0: Vec<LagInput> = Vec::new();
    assert(laginput_views(lags1_0@) =~= Seq::empty());
    obs1.push(
        observation(
            "obs:B-B:S1",
            "S1",
            onsets[4],
            Double { bits: V_900 },
            Double { bits: V_6 },
            lags1_0,
        ),
    );
    let lags1_1: Vec<LagInput> = Vec::new();
    assert(laginput_views(lags1_1@) =~= Seq::empty());
    obs1.push(
        observation(
            "obs:B-B:S3",
            "S3",
            onsets[5],
            Double { bits: V_900 },
            Double { bits: V_6 },
            lags1_1,
        ),
    );
    assert(
        observationinput_views(obs1@) =~= demonstration(onsets@, delays@).batches[1].observations
    );
    batches.push(batch("B-B", "EV-B", obs1));
    let mut obs2: Vec<ObservationInput> = Vec::new();
    let mut lags2_0: Vec<LagInput> = Vec::new();
    lags2_0.push(
        lag(
            "S2",
            delays[4],
            Double { bits: V_2400 },
            Double { bits: V_4 },
            "direct",
            "lag:B-C:0:0",
        ),
    );
    assert(
        laginput_views(lags2_0@) =~= seq![
            lag_said(
                "S2"@,
                delays[4],
                Double { bits: V_2400 },
                Double { bits: V_4 },
                "direct"@,
                "lag:B-C:0:0"@,
            ),
        ]
    );
    obs2.push(
        observation(
            "obs:B-C:S1",
            "S1",
            onsets[6],
            Double { bits: V_2400 },
            Double { bits: V_12 },
            lags2_0,
        ),
    );
    let lags2_1: Vec<LagInput> = Vec::new();
    assert(laginput_views(lags2_1@) =~= Seq::empty());
    obs2.push(
        observation(
            "obs:B-C:S2",
            "S2",
            onsets[7],
            Double { bits: V_2400 },
            Double { bits: V_12 },
            lags2_1,
        ),
    );
    let lags2_2: Vec<LagInput> = Vec::new();
    assert(laginput_views(lags2_2@) =~= Seq::empty());
    obs2.push(
        observation(
            "obs:B-C:S3",
            "S3",
            onsets[8],
            Double { bits: V_2400 },
            Double { bits: V_12 },
            lags2_2,
        ),
    );
    let lags2_3: Vec<LagInput> = Vec::new();
    assert(laginput_views(lags2_3@) =~= Seq::empty());
    obs2.push(
        observation(
            "obs:B-C:S4",
            "S4",
            onsets[9],
            Double { bits: V_2400 },
            Double { bits: V_12 },
            lags2_3,
        ),
    );
    assert(
        observationinput_views(obs2@) =~= demonstration(onsets@, delays@).batches[2].observations
    );
    batches.push(batch("B-C", "EV-C", obs2));
    let r = SeedData { stations, events, clocks, batches };
    assert(r@.stations =~= demonstration(onsets@, delays@).stations);
    assert(r@.events =~= demonstration(onsets@, delays@).events);
    assert(r@.clocks =~= demonstration(onsets@, delays@).clocks);
    assert(r@.batches =~= demonstration(onsets@, delays@).batches);
    r
}

} // verus!
