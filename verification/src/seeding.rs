//! Entering seed data into the tables of the survey.
use vstd::prelude::*;

use crate::clocks::bare_views;
use crate::canon::{canonical_text, Decimals, Quoting};
use crate::db::{
    create_event, event_fault, event_row, insert_clock_segment, segment_fault, station_fault,
    upsert_station, with_event, with_segment, with_station,
};
use crate::figures::Differences;
use crate::ingest::{ingest_batch, intake, taken_in};
use crate::json::{array, json_views, Json, JsonView, Members};
use crate::model::{
    laginput_views, observationinput_views, station_views, BatchInput, BatchInputView, ClockSegment,
    ClockSegmentView, EventInput, EventInputView, LagInput, LagInputView, ObservationInput,
    ObservationInputView, Station, StationView,
};
use crate::store::{knows_batch, Fault, Store, StoreView};
use crate::synthetic::{SeedData, SeedDataView};

verus! {

// ---------- A batch as it is sent ----------

pub open spec fn text_or_null(t: Option<Seq<char>>) -> JsonView {
    match t {
        Some(s) => JsonView::Text(s),
        None => JsonView::Null,
    }
}

fn text_value(t: &Option<String>) -> (r: Json)
    ensures
        r@ == text_or_null(crate::model::opt_text(*t)),
{
    match t {
        Some(s) => Json::Text(s.clone()),
        None => Json::Null,
    }
}

/// A delay as it is sent.
pub open spec fn lag_json(x: LagInputView) -> JsonView {
    JsonView::Object(
        seq![
            ("peer_id"@, JsonView::Text(x.peer_id)),
            ("lag_sec"@, JsonView::Float(x.lag_sec)),
            ("peak_band_hz"@, JsonView::Float(x.peak_band_hz)),
            ("snr_db"@, JsonView::Float(x.snr_db)),
            ("hint"@, JsonView::Text(x.hint)),
            ("lag_uid"@, text_or_null(x.lag_uid)),
        ],
    )
}

fn lag_value(x: &LagInput) -> (r: Json)
    ensures
        r@ == lag_json(x@),
{
    let mut m = Members::new();
    m.put("peer_id", Json::Text(x.peer_id.clone()));
    m.put("lag_sec", Json::Float(x.lag_sec));
    m.put("peak_band_hz", Json::Float(x.peak_band_hz));
    m.put("snr_db", Json::Float(x.snr_db));
    m.put("hint", Json::Text(x.hint.clone()));
    m.put("lag_uid", text_value(&x.lag_uid));
    let r = m.object();
    assert(r@->Object_0 =~= lag_json(x@)->Object_0);
    r
}

fn lag_values(list: &Vec<LagInput>) -> (r: Json)
    ensures
        r@ == JsonView::Array(laginput_views(list@).map_values(|x: LagInputView| lag_json(x))),
{
    let ghost all = laginput_views(list@);
    let mut out: Vec<Json> = Vec::new();
    let mut i: usize = 0;
    while i < list.len()
        invariant
            i <= list@.len(),
            all == laginput_views(list@),
            out@.len() == i,
            forall|k: int| 0 <= k < i ==> (#[trigger] out@[k])@ == lag_json(all[k]),
        decreases list@.len() - i,
    {
        assert(all[i as int] == list@[i as int]@);
        out.push(lag_value(&list[i]));
        i += 1;
    }
    assert(json_views(out@) =~= all.map_values(|x: LagInputView| lag_json(x)));
    array(out)
}

/// An observation as it is sent.
pub open spec fn observation_json(x: ObservationInputView) -> JsonView {
    JsonView::Object(
        seq![
            ("obs_uid"@, JsonView::Text(x.obs_uid)),
            ("station_id"@, JsonView::Text(x.station_id)),
            ("local_onset_sec"@, JsonView::Float(x.local_onset_sec)),
            ("peak_band_hz"@, JsonView::Float(x.peak_band_hz)),
            ("snr_db"@, JsonView::Float(x.snr_db)),
            ("lags"@, JsonView::Array(x.lags.map_values(|l: LagInputView| lag_json(l)))),
        ],
    )
}

fn observation_value(x: &ObservationInput) -> (r: Json)
    ensures
        r@ == observation_json(x@),
{
    let lags = lag_values(&x.lags);
    assert(lags@->Array_0 =~= x@.lags.map_values(|l: LagInputView| lag_json(l)));
    let mut m = Members::new();
    m.put("obs_uid", Json::Text(x.obs_uid.clone()));
    m.put("station_id", Json::Text(x.station_id.clone()));
    m.put("local_onset_sec", Json::Float(x.local_onset_sec));
    m.put("peak_band_hz", Json::Float(x.peak_band_hz));
    m.put("snr_db", Json::Float(x.snr_db));
    m.put("lags", lags);
    let r = m.object();
    assert(r@->Object_0 =~= observation_json(x@)->Object_0);
    r
}

fn observation_values(list: &Vec<ObservationInput>) -> (r: Json)
    ensures
        r@ == JsonView::Array(
            observationinput_views(list@).map_values(
                |x: ObservationInputView| observation_json(x))),
{
    let ghost all = observationinput_views(list@);
    let mut out: Vec<Json> = Vec::new();
    let mut i: usize = 0;
    while i < list.len()
        invariant
            i <= list@.len(),
            all == observationinput_views(list@),
            out@.len() == i,
            forall|k: int| 0 <= k < i ==> (#[trigger] out@[k])@ == observation_json(all[k]),
        decreases list@.len() - i,
    {
        assert(all[i as int] == list@[i as int]@);
        out.push(observation_value(&list[i]));
        i += 1;
    }
    assert(json_views(out@) =~= all.map_values(|x: ObservationInputView| observation_json(x)));
    array(out)
}

/// A batch as it is sent.
pub open spec fn batch_json(x: BatchInputView) -> JsonView {
    JsonView::Object(
        seq![
            ("batch_uid"@, JsonView::Text(x.batch_uid)),
            ("event_id"@, JsonView::Text(x.event_id)),
            ("observations"@,
                JsonView::Array(
                    x.observations.map_values(|v: ObservationInputView| observation_json(v)))),
        ],
    )
}

/// Makes the document of a batch as it is sent.
pub fn batch_value(x: &BatchInput) -> (r: Json)
    ensures
        r@ == batch_json(x@),
{
    let observations = observation_values(&x.observations);
    assert(observations@->Array_0 =~= x@.observations.map_values(
        |v: ObservationInputView| observation_json(v),
    ));
    let mut m = Members::new();
    m.put("batch_uid", Json::Text(x.batch_uid.clone()));
    m.put("event_id", Json::Text(x.event_id.clone()));
    m.put("observations", observations);
    let r = m.object();
    assert(r@->Object_0 =~= batch_json(x@)->Object_0);
    r
}

/// What a list of events says.
pub open spec fn event_inputs(s: Seq<EventInput>) -> Seq<EventInputView> {
    s.map_values(|e: EventInput| e@)
}

/// What a list of batches says.
pub open spec fn batch_inputs(s: Seq<BatchInput>) -> Seq<BatchInputView> {
    s.map_values(|b: BatchInput| b@)
}

// ---------- One after the other ----------

/// The tables with the first `n` stations, or as far as it went and why no
/// farther.
pub open spec fn stations_entered(
    v: StoreView,
    list: Seq<StationView>,
    n: int,
) -> Result<StoreView, (StoreView, Fault)>
    decreases n,
{
    if n <= 0 {
        Ok(v)
    } else {
        match stations_entered(v, list, n - 1) {
            Ok(w) => match station_fault(list[n - 1]) {
                Some(f) => Err((w, f)),
                None => Ok(StoreView { stations: with_station(w.stations, list[n - 1]), ..w }),
            },
            Err(e) => Err(e),
        }
    }
}

proof fn stations_entered_stop(v: StoreView, list: Seq<StationView>, n: int, m: int)
    requires
        0 <= n <= m,
        stations_entered(v, list, n) is Err,
    ensures
        stations_entered(v, list, m) == stations_entered(v, list, n),
    decreases m,
{
    if n < m {
        stations_entered_stop(v, list, n, m - 1);
    }
}

/// The tables with the first `n` clock segments.
pub open spec fn segments_entered(
    v: StoreView,
    list: Seq<ClockSegmentView>,
    n: int,
) -> Result<StoreView, (StoreView, Fault)>
    decreases n,
{
    if n <= 0 {
        Ok(v)
    } else {
        match segments_entered(v, list, n - 1) {
            Ok(w) => match segment_fault(w, list[n - 1]) {
                Some(f) => Err((w, f)),
                None => Ok(
                    StoreView {
                        segments: with_segment(w.segments, w.last_segment + 1, list[n - 1]),
                        last_segment: w.last_segment + 1,
                        ..w
                    },
                ),
            },
            Err(e) => Err(e),
        }
    }
}

proof fn segments_entered_stop(v: StoreView, list: Seq<ClockSegmentView>, n: int, m: int)
    requires
        0 <= n <= m,
        segments_entered(v, list, n) is Err,
    ensures
        segments_entered(v, list, m) == segments_entered(v, list, n),
    decreases m,
{
    if n < m {
        segments_entered_stop(v, list, n, m - 1);
    }
}

/// The tables with the first `n` events.
pub open spec fn events_entered(
    v: StoreView,
    list: Seq<EventInputView>,
    n: int,
) -> Result<StoreView, (StoreView, Fault)>
    decreases n,
{
    if n <= 0 {
        Ok(v)
    } else {
        match events_entered(v, list, n - 1) {
            Ok(w) => match event_fault(list[n - 1]) {
                Some(f) => Err((w, f)),
                None => Ok(
                    StoreView { events: with_event(w.events, event_row(list[n - 1])), ..w },
                ),
            },
            Err(e) => Err(e),
        }
    }
}

proof fn events_entered_stop(v: StoreView, list: Seq<EventInputView>, n: int, m: int)
    requires
        0 <= n <= m,
        events_entered(v, list, n) is Err,
    ensures
        events_entered(v, list, m) == events_entered(v, list, n),
    decreases m,
{
    if n < m {
        events_entered_stop(v, list, n, m - 1);
    }
}

/// Why a batch is not taken in.
pub open spec fn batch_fault(v: StoreView, b: BatchInputView, minus: Differences) -> Option<Fault> {
    if knows_batch(v.batches, b.batch_uid) {
        None
    } else {
        match intake(v, b, minus) {
            Ok(_) => None,
            Err(f) => Some(f),
        }
    }
}

/// The tables with the first `n` batches.
pub open spec fn batches_entered(
    v: StoreView,
    list: Seq<BatchInputView>,
    n: int,
    d: Decimals,
    minus: Differences,
    at: Seq<char>,
) -> Result<StoreView, (StoreView, Fault)>
    decreases n,
{
    if n <= 0 {
        Ok(v)
    } else {
        match batches_entered(v, list, n - 1, d, minus, at) {
            Ok(w) => match batch_fault(w, list[n - 1], minus) {
                Some(f) => Err((w, f)),
                None => Ok(
                    taken_in(
                        w,
                        list[n - 1],
                        canonical_text(batch_json(list[n - 1]), d, Quoting::Full),
                        at,
                        minus,
                    ),
                ),
            },
            Err(e) => Err(e),
        }
    }
}

proof fn batches_entered_stop(
    v: StoreView,
    list: Seq<BatchInputView>,
    n: int,
    m: int,
    d: Decimals,
    minus: Differences,
    at: Seq<char>,
)
    requires
        0 <= n <= m,
        batches_entered(v, list, n, d, minus, at) is Err,
    ensures
        batches_entered(v, list, m, d, minus, at) == batches_entered(v, list, n, d, minus, at),
    decreases m,
{
    if n < m {
        batches_entered_stop(v, list, n, m - 1, d, minus, at);
    }
}

fn enter_stations(store: &mut Store, list: &Vec<Station>) -> (r: Result<(), Fault>)
    requires
        old(store)@.valid(),
    ensures
        final(store)@.valid(),
        match stations_entered(old(store)@, station_views(list@), list@.len() as int) {
            Ok(w) => r is Ok && final(store)@ == w,
            Err(e) => r == Err::<(), Fault>(e.1) && final(store)@ == e.0,
        },
{
    let ghost v = store@;
    let ghost all = station_views(list@);
    let mut i: usize = 0;
    while i < list.len()
        invariant
            i <= list@.len(),
            v == old(store)@,
            store@.valid(),
            all == station_views(list@),
            stations_entered(v, all, i as int) == Ok::<StoreView, (StoreView, Fault)>(store@),
        decreases list@.len() - i,
    {
        assert(all[i as int] == list@[i as int]@);
        let ghost before = store@;
        match upsert_station(store, &list[i]) {
            Ok(_) => {},
            Err(f) => {
                proof {
                    stations_entered_stop(v, all, i + 1, all.len() as int);
                }
                return Err(f);
            },
        }
        i += 1;
    }
    Ok(())
}

fn enter_segments(store: &mut Store, list: &Vec<ClockSegment>) -> (r: Result<(), Fault>)
    requires
        old(store)@.valid(),
    ensures
        final(store)@.valid(),
        match segments_entered(old(store)@, bare_views(list@), list@.len() as int) {
            Ok(w) => r is Ok && final(store)@ == w,
            Err(e) => r == Err::<(), Fault>(e.1) && final(store)@ == e.0,
        },
{
    let ghost v = store@;
    let ghost all = bare_views(list@);
    let mut i: usize = 0;
    while i < list.len()
        invariant
            i <= list@.len(),
            v == old(store)@,
            store@.valid(),
            all == bare_views(list@),
            segments_entered(v, all, i as int) == Ok::<StoreView, (StoreView, Fault)>(store@),
        decreases list@.len() - i,
    {
        assert(all[i as int] == list@[i as int]@);
        let ghost before = store@;
        match insert_clock_segment(store, &list[i]) {
            Ok(_) => {},
            Err(f) => {
                proof {
                    segments_entered_stop(v, all, i + 1, all.len() as int);
                }
                return Err(f);
            },
        }
        i += 1;
    }
    Ok(())
}

fn enter_events(store: &mut Store, list: &Vec<EventInput>) -> (r: Result<(), Fault>)
    requires
        old(store)@.valid(),
    ensures
        final(store)@.valid(),
        match events_entered(old(store)@, event_inputs(list@), list@.len() as int) {
            Ok(w) => r is Ok && final(store)@ == w,
            Err(e) => r == Err::<(), Fault>(e.1) && final(store)@ == e.0,
        },
{
    let ghost v = store@;
    let ghost all = event_inputs(list@);
    let mut i: usize = 0;
    while i < list.len()
        invariant
            i <= list@.len(),
            v == old(store)@,
            store@.valid(),
            all == event_inputs(list@),
            events_entered(v, all, i as int) == Ok::<StoreView, (StoreView, Fault)>(store@),
        decreases list@.len() - i,
    {
        assert(all[i as int] == list@[i as int]@);
        let ghost before = store@;
        match create_event(store, &list[i]) {
            Ok(_) => {},
            Err(f) => {
                proof {
                    events_entered_stop(v, all, i + 1, all.len() as int);
                }
                return Err(f);
            },
        }
        i += 1;
    }
    Ok(())
}

fn enter_batches(
    store: &mut Store,
    list: &Vec<BatchInput>,
    d: &Decimals,
    minus: &Differences,
    at: &str,
) -> (r: Result<(), Fault>)
    requires
        old(store)@.valid(),
    ensures
        final(store)@.valid(),
        match batches_entered(old(store)@, batch_inputs(list@), list@.len() as int, *d, *minus,
            at@) {
            Ok(w) => r is Ok && final(store)@ == w,
            Err(e) => r == Err::<(), Fault>(e.1) && final(store)@ == e.0,
        },
{
    let ghost v = store@;
    let ghost all = batch_inputs(list@);
    let mut i: usize = 0;
    while i < list.len()
        invariant
            i <= list@.len(),
            v == old(store)@,
            store@.valid(),
            all == batch_inputs(list@),
            batches_entered(v, all, i as int, *d, *minus, at@)
                == Ok::<StoreView, (StoreView, Fault)>(store@),
        decreases list@.len() - i,
    {
        assert(all[i as int] == list@[i as int]@);
        let ghost before = store@;
        let raw = batch_value(&list[i]);
        match ingest_batch(store, &list[i], &raw, d, minus, at) {
            Ok(_) => {},
            Err(f) => {
                proof {
                    batches_entered_stop(v, all, i + 1, all.len() as int, *d, *minus, at@);
                }
                return Err(f);
            },
        }
        i += 1;
    }
    Ok(())
}

/// The tables with seed data: stations, clock segments, events and batches, in
/// this order, or as far as it went and why no farther.
pub open spec fn seeded(
    v: StoreView,
    data: SeedDataView,
    d: Decimals,
    minus: Differences,
    at: Seq<char>,
) -> Result<StoreView, (StoreView, Fault)> {
    match stations_entered(v, data.stations, data.stations.len() as int) {
        Err(e) => Err(e),
        Ok(a) => match segments_entered(a, data.clocks, data.clocks.len() as int) {
            Err(e) => Err(e),
            Ok(b) => match events_entered(b, data.events, data.events.len() as int) {
                Err(e) => Err(e),
                Ok(c) => batches_entered(c, data.batches, data.batches.len() as int, d, minus, at),
            },
        },
    }
}

/// Enters seed data.
pub fn seed_database(
    store: &mut Store,
    data: &SeedData,
    d: &Decimals,
    minus: &Differences,
    at: &str,
) -> (r: Result<(), Fault>)
    requires
        old(store)@.valid(),
    ensures
        final(store)@.valid(),
        match seeded(old(store)@, data@, *d, *minus, at@) {
            Ok(w) => r is Ok && final(store)@ == w,
            Err(e) => r == Err::<(), Fault>(e.1) && final(store)@ == e.0,
        },
{
    assert(event_inputs(data.events@) =~= data@.events);
    assert(batch_inputs(data.batches@) =~= data@.batches);
    match enter_stations(store, &data.stations) {
        Ok(_) => {},
        Err(f) => {
            return Err(f);
        },
    }
    match enter_segments(store, &data.clocks) {
        Ok(_) => {},
        Err(f) => {
            return Err(f);
        },
    }
    match enter_events(store, &data.events) {
        Ok(_) => {},
        Err(f) => {
            return Err(f);
        },
    }
    enter_batches(store, &data.batches, d, minus, at)
}

} // verus!
