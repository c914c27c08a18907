//! What can be done with the tables: entering, listing, correcting, and the
//! life of a solve job.
use vstd::prelude::*;
use vstd::string::*;

use crate::double::Double;
pub use crate::canon::canonical_fingerprint;
pub use crate::clocks::{clock_segments_at, validate_clock_partition};
pub use crate::ingest::{ingest_batch, IngestResult};
pub use crate::jobs::{
    append_evidence, claim_next_job, complete_job, enqueue_job, fail_job, latest_completed_job,
    list_candidates, list_evidence, list_jobs, list_lags, list_observations,
};
use crate::clocks::{active_at, holds_at};
use crate::figures::Differences;
use crate::model::{
    station_views, ClockSegment, ClockSegmentView, EventInput, EventInputView, ObservationRow,
    ObservationRowView, Station, StationView,
};
use crate::order::{picked_items_keep_their_order, picked_positions, sort, Sortable};
use crate::rows::{events_listed, segments_listed, sorted_rows_are_listed, stations_listed};
use crate::store::{
    eventrow_views, knows_batch, knows_event, knows_observation, knows_segment, knows_station,
    segment_views, segments_ok, EventRow, EventRowView, Fault, Store, StoreView,
};
use crate::text::same;

verus! {

pub const SCHEMA_VERSION: i64 = 1;

// ---------- Stations ----------

/// The stations with the one that `s` names replaced, or with `s` added.
pub open spec fn with_station(stations: Seq<StationView>, s: StationView) -> Seq<StationView> {
    if knows_station(stations, s.station_id) {
        stations.map_values(
            |r: StationView|
                if r.station_id == s.station_id {
                    s
                } else {
                    r
                },
        )
    } else {
        stations.push(s)
    }
}

pub(crate) fn find_station(stations: &Vec<Station>, id: &str) -> (r: Option<usize>)
    ensures
        match r {
            Some(i) => i < stations@.len() && stations@[i as int].station_id@ == id@
                && knows_station(station_views(stations@), id@),
            None => !knows_station(station_views(stations@), id@),
        },
{
    let ghost views = station_views(stations@);
    let mut i: usize = 0;
    while i < stations.len()
        invariant
            i <= stations@.len(),
            views == station_views(stations@),
            forall|j: int| 0 <= j < i ==> (#[trigger] views[j]).station_id != id@,
        decreases stations@.len() - i,
    {
        assert(views[i as int] == stations@[i as int]@);
        if same(stations[i].station_id.as_str(), id) {
            return Some(i);
        }
        i += 1;
    }
    None
}

/// Why a station is refused.
pub open spec fn station_fault(s: StationView) -> Option<Fault> {
    if s.x.nan() {
        Some(Fault::StationX)
    } else if s.y.nan() {
        Some(Fault::StationY)
    } else {
        None
    }
}

/// Enters a station, in place of one with the same identifier.
pub fn upsert_station(store: &mut Store, s: &Station) -> (r: Result<(), Fault>)
    requires
        old(store)@.valid(),
    ensures
        final(store)@.valid(),
        match station_fault(s@) {
            Some(f) => r == Err::<(), Fault>(f) && final(store)@ == old(store)@,
            None => r is Ok && final(store)@ == (StoreView {
                stations: with_station(old(store)@.stations, s@),
                ..old(store)@
            }),
        },
{
    if s.x.is_nan() {
        return Err(Fault::StationX);
    }
    if s.y.is_nan() {
        return Err(Fault::StationY);
    }
    let ghost before = store@;
    match find_station(&store.stations, s.station_id.as_str()) {
        Some(i) => {
            store.stations.set(i, s.copy());
            proof {
                let now = store@.stations;
                assert(before.stations[i as int].station_id == s@.station_id);
                assert forall|k: int| 0 <= k < before.stations.len() && k != i implies (
                #[trigger] before.stations[k]).station_id != s@.station_id by {
                    if k < i {
                        assert(before.stations[k].station_id
                            != before.stations[i as int].station_id);
                    } else {
                        assert(before.stations[i as int].station_id
                            != before.stations[k].station_id);
                    }
                }
                assert(now =~= with_station(before.stations, s@));
            }
        },
        None => {
            store.stations.push(s.copy());
            assert(store@.stations =~= with_station(before.stations, s@));
        },
    }
    proof {
        let now = store@.stations;
        assert forall|id: Seq<char>| knows_station(before.stations, id) implies knows_station(
            now,
            id,
        ) by {
            let k = choose|k: int|
                0 <= k < before.stations.len() && (#[trigger] before.stations[k]).station_id == id;
            assert(now[k].station_id == id);
        }
    }
    Ok(())
}

/// Lists the stations.
pub fn list_stations(store: &Store) -> (r: Vec<Station>)
    requires
        store@.valid(),
    ensures
        stations_listed(store@.stations, station_views(r@)),
{
    let list = crate::model::copy_stations(&store.stations);
    let ghost given = list@;
    let sorted = sort(list);
    proof {
        assert forall|i: int, j: int| 0 <= i < j < given.len() implies (#[trigger] given[i]).key()
            != (#[trigger] given[j]).key() by {
            assert(station_views(given)[i] == given[i]@ && station_views(given)[j] == given[j]@);
        }
        sorted_rows_are_listed(
            given,
            sorted@,
            |s: Station| s@,
            |s: StationView| (s.station_id, 0, ""@, ""@),
        );
    }
    sorted
}

/// Where a station stands.
pub fn station_position(store: &Store, id: &str) -> (r: Option<(Double, Double)>)
    requires
        store@.valid(),
    ensures
        match r {
            Some(p) => exists|i: int|
                0 <= i < store@.stations.len() && (#[trigger] store@.stations[i]).station_id == id@
                    && store@.stations[i].x == p.0 && store@.stations[i].y == p.1,
            None => !knows_station(store@.stations, id@),
        },
{
    match find_station(&store.stations, id) {
        Some(i) => {
            assert(store@.stations[i as int] == store.stations@[i as int]@);
            Some((store.stations[i].x, store.stations[i].y))
        },
        None => None,
    }
}

// ---------- Events ----------

/// An event as it is kept.
pub open spec fn event_row(e: EventInputView) -> EventRowView {
    EventRowView {
        event_id: e.event_id,
        label: e.label,
        window_start: e.window_start,
        window_end: e.window_end,
        sound_speed_mps: e.sound_speed_mps,
        bounds: e.site_bounds,
    }
}

/// The events with the one that `e` names replaced, or with `e` added.
pub open spec fn with_event(events: Seq<EventRowView>, e: EventRowView) -> Seq<EventRowView> {
    if knows_event(events, e.event_id) {
        events.map_values(
            |r: EventRowView|
                if r.event_id == e.event_id {
                    e
                } else {
                    r
                },
        )
    } else {
        events.push(e)
    }
}

/// Why an event is refused.
pub open spec fn event_fault(e: EventInputView) -> Option<Fault> {
    if e.window_start.nan() {
        Some(Fault::EventStart)
    } else if e.window_end.nan() {
        Some(Fault::EventEnd)
    } else if e.sound_speed_mps.nan() {
        Some(Fault::EventSpeed)
    } else if e.site_bounds.min_x.nan() {
        Some(Fault::EventMinX)
    } else if e.site_bounds.min_y.nan() {
        Some(Fault::EventMinY)
    } else if e.site_bounds.max_x.nan() {
        Some(Fault::EventMaxX)
    } else if e.site_bounds.max_y.nan() {
        Some(Fault::EventMaxY)
    } else {
        None
    }
}

pub(crate) fn find_event(events: &Vec<EventRow>, id: &str) -> (r: Option<usize>)
    ensures
        match r {
            Some(i) => i < events@.len() && events@[i as int].event_id@ == id@ && knows_event(
                eventrow_views(events@),
                id@,
            ),
            None => !knows_event(eventrow_views(events@), id@),
        },
{
    let ghost views = eventrow_views(events@);
    let mut i: usize = 0;
    while i < events.len()
        invariant
            i <= events@.len(),
            views == eventrow_views(events@),
            forall|j: int| 0 <= j < i ==> (#[trigger] views[j]).event_id != id@,
        decreases events@.len() - i,
    {
        assert(views[i as int] == events@[i as int]@);
        if same(events[i].event_id.as_str(), id) {
            return Some(i);
        }
        i += 1;
    }
    None
}

fn refuse_event(e: &EventInput) -> (r: Option<Fault>)
    ensures
        r == event_fault(e@),
{
    if e.window_start.is_nan() {
        Some(Fault::EventStart)
    } else if e.window_end.is_nan() {
        Some(Fault::EventEnd)
    } else if e.sound_speed_mps.is_nan() {
        Some(Fault::EventSpeed)
    } else if e.site_bounds.min_x.is_nan() {
        Some(Fault::EventMinX)
    } else if e.site_bounds.min_y.is_nan() {
        Some(Fault::EventMinY)
    } else if e.site_bounds.max_x.is_nan() {
        Some(Fault::EventMaxX)
    } else if e.site_bounds.max_y.is_nan() {
        Some(Fault::EventMaxY)
    } else {
        None
    }
}

/// Enters an event, in place of one with the same identifier.
pub fn create_event(store: &mut Store, e: &EventInput) -> (r: Result<(), Fault>)
    requires
        old(store)@.valid(),
    ensures
        final(store)@.valid(),
        match event_fault(e@) {
            Some(f) => r == Err::<(), Fault>(f) && final(store)@ == old(store)@,
            None => r is Ok && final(store)@ == (StoreView {
                events: with_event(old(store)@.events, event_row(e@)),
                ..old(store)@
            }),
        },
{
    match refuse_event(e) {
        Some(f) => {
            return Err(f);
        },
        None => {},
    }
    let ghost before = store@;
    let row = EventRow {
        event_id: e.event_id.clone(),
        label: e.label.clone(),
        window_start: e.window_start,
        window_end: e.window_end,
        sound_speed_mps: e.sound_speed_mps,
        bounds: e.site_bounds,
    };
    match find_event(&store.events, e.event_id.as_str()) {
        Some(i) => {
            store.events.set(i, row);
            proof {
                assert(before.events[i as int].event_id == e@.event_id);
                assert forall|k: int| 0 <= k < before.events.len() && k != i implies (
                #[trigger] before.events[k]).event_id != e@.event_id by {
                    if k < i {
                        assert(before.events[k].event_id != before.events[i as int].event_id);
                    } else {
                        assert(before.events[i as int].event_id != before.events[k].event_id);
                    }
                }
                assert(store@.events =~= with_event(before.events, event_row(e@)));
            }
        },
        None => {
            store.events.push(row);
            assert(store@.events =~= with_event(before.events, event_row(e@)));
        },
    }
    proof {
        let now = store@.events;
        assert forall|id: Seq<char>| knows_event(before.events, id) implies knows_event(
            now,
            id,
        ) by {
            let k = choose|k: int|
                0 <= k < before.events.len() && (#[trigger] before.events[k]).event_id == id;
            assert(now[k].event_id == id);
        }
    }
    Ok(())
}

/// Lists the events.
pub fn list_events(store: &Store) -> (r: Vec<EventRow>)
    requires
        store@.valid(),
    ensures
        events_listed(store@.events, eventrow_views(r@)),
{
    let list = crate::store::copy_eventrows(&store.events);
    let ghost given = list@;
    let sorted = sort(list);
    proof {
        assert forall|i: int, j: int| 0 <= i < j < given.len() implies (#[trigger] given[i]).key()
            != (#[trigger] given[j]).key() by {
            assert(eventrow_views(given)[i] == given[i]@ && eventrow_views(given)[j] == given[j]@);
        }
        sorted_rows_are_listed(
            given,
            sorted@,
            |e: EventRow| e@,
            |e: EventRowView| (e.event_id, 0, ""@, ""@),
        );
    }
    sorted
}

/// The event with an identifier.
pub fn get_event(store: &Store, event_id: &str) -> (r: Option<EventRow>)
    requires
        store@.valid(),
    ensures
        match r {
            Some(e) => e@.event_id == event_id@ && store@.events.contains(e@),
            None => !knows_event(store@.events, event_id@),
        },
{
    match find_event(&store.events, event_id) {
        Some(i) => {
            assert(store@.events[i as int] == store.events@[i as int]@);
            Some(store.events[i].copy())
        },
        None => None,
    }
}

// ---------- Clock segments ----------

/// A number as a column holds it: what is no number is held as nothing.
pub open spec fn held(o: Option<Double>) -> Option<Double> {
    match o {
        Some(f) => if f.nan() {
            None
        } else {
            Some(f)
        },
        None => None,
    }
}

pub fn hold(o: Option<Double>) -> (r: Option<Double>)
    ensures
        r == held(o),
{
    match o {
        Some(f) => if f.is_nan() {
            None
        } else {
            Some(f)
        },
        None => None,
    }
}

/// A segment of the same station begins at the same time.
pub open spec fn same_slot(a: ClockSegmentView, b: ClockSegmentView) -> bool {
    a.station_id == b.station_id && a.t_start.same_number(b.t_start)
}

/// Some segment has the slot of `c`.
pub open spec fn slot_taken(segments: Seq<(ClockSegmentView, int)>, c: ClockSegmentView) -> bool {
    exists|i: int| 0 <= i < segments.len() && same_slot((#[trigger] segments[i]).0, c)
}

/// Why a segment is refused.
pub open spec fn segment_fault(v: StoreView, c: ClockSegmentView) -> Option<Fault> {
    if v.last_segment == i64::MAX {
        Some(Fault::Full)
    } else if c.t_start.nan() {
        Some(Fault::SegmentStart)
    } else if c.offset_sec.nan() {
        Some(Fault::SegmentOffset)
    } else if !slot_taken(v.segments, c) && !knows_station(v.stations, c.station_id) {
        Some(Fault::ForeignKey)
    } else {
        None
    }
}

/// The segments with `c` in its slot: the end, offset and source of the one
/// that begins there are replaced, or `c` is added under a new number.
pub open spec fn with_segment(
    segments: Seq<(ClockSegmentView, int)>,
    number: int,
    c: ClockSegmentView,
) -> Seq<(ClockSegmentView, int)> {
    if slot_taken(segments, c) {
        segments.map_values(
            |s: (ClockSegmentView, int)|
                if same_slot(s.0, c) {
                    (
                        ClockSegmentView {
                            t_end: held(c.t_end),
                            offset_sec: c.offset_sec,
                            source: c.source,
                            ..s.0
                        },
                        s.1,
                    )
                } else {
                    s
                },
        )
    } else {
        segments.push((ClockSegmentView { t_end: held(c.t_end), ..c }, number))
    }
}

fn find_slot(segments: &Vec<(ClockSegment, i64)>, c: &ClockSegment) -> (r: Option<usize>)
    ensures
        match r {
            Some(i) => i < segments@.len() && same_slot(segments@[i as int].0@, c@) && slot_taken(
                segment_views(segments@),
                c@,
            ),
            None => !slot_taken(segment_views(segments@), c@),
        },
{
    let ghost views = segment_views(segments@);
    let mut i: usize = 0;
    while i < segments.len()
        invariant
            i <= segments@.len(),
            views == segment_views(segments@),
            forall|j: int| 0 <= j < i ==> !same_slot((#[trigger] views[j]).0, c@),
        decreases segments@.len() - i,
    {
        assert(views[i as int].0 == segments@[i as int].0@);
        if same(segments[i].0.station_id.as_str(), c.station_id.as_str())
            && segments[i].0.t_start.is_same_number(c.t_start) {
            return Some(i);
        }
        i += 1;
    }
    None
}

/// Enters a clock segment and returns its number. Where a segment of the
/// station begins at the same time, that one is changed and keeps its number.
pub fn insert_clock_segment(store: &mut Store, c: &ClockSegment) -> (r: Result<i64, Fault>)
    requires
        old(store)@.valid(),
    ensures
        final(store)@.valid(),
        match segment_fault(old(store)@, c@) {
            Some(f) => r == Err::<i64, Fault>(f) && final(store)@ == old(store)@,
            None => {
                &&& final(store)@ == (StoreView {
                    segments: with_segment(
                        old(store)@.segments,
                        old(store)@.last_segment + 1,
                        c@,
                    ),
                    last_segment: old(store)@.last_segment + 1,
                    ..old(store)@
                })
                &&& r is Ok
                &&& exists|i: int|
                    0 <= i < final(store)@.segments.len() && (
                    #[trigger] final(store)@.segments[i]).1 == r->Ok_0 && same_slot(
                        final(store)@.segments[i].0,
                        c@,
                    )
            },
        },
{
    if store.last_segment == i64::MAX {
        return Err(Fault::Full);
    }
    if c.t_start.is_nan() {
        return Err(Fault::SegmentStart);
    }
    if c.offset_sec.is_nan() {
        return Err(Fault::SegmentOffset);
    }
    let ghost before = store@;
    let number: i64 = store.last_segment + 1;
    let id: i64;
    match find_slot(&store.segments, c) {
        Some(i) => {
            id = store.segments[i].1;
            let kept = ClockSegment {
                station_id: store.segments[i].0.station_id.clone(),
                t_start: store.segments[i].0.t_start,
                t_end: hold(c.t_end),
                offset_sec: c.offset_sec,
                source: c.source.clone(),
            };
            store.segments.set(i, (kept, id));
            store.last_segment = number;
            proof {
                let now = store@.segments;
                assert(same_slot(before.segments[i as int].0, c@));
                assert forall|k: int| 0 <= k < before.segments.len() && k != i implies !same_slot(
                    (#[trigger] before.segments[k]).0,
                    c@,
                ) by {
                    let a = before.segments[k].0;
                    let b = before.segments[i as int].0;
                    if same_slot(a, c@) {
                        assert(a.t_start.same_number(b.t_start) && b.t_start.same_number(
                            a.t_start,
                        ));
                        if k < i {
                            assert(before.segments[k].1 != before.segments[i as int].1);
                        } else {
                            assert(before.segments[i as int].1 != before.segments[k].1);
                        }
                    }
                }
                assert(now =~= with_segment(before.segments, number as int, c@));
                assert(now[i as int].1 == id && same_slot(now[i as int].0, c@));
                assert forall|x: int| knows_segment(before.segments, x) implies knows_segment(
                    now,
                    x,
                ) by {
                    let k = choose|k: int|
                        0 <= k < before.segments.len() && (#[trigger] before.segments[k]).1 == x;
                    assert(now[k].1 == x);
                }
                assert(segments_ok(now, number as int, before.stations)) by {
                    assert forall|a: int, b: int| 0 <= a < b < now.len() implies (
                    #[trigger] now[a]).1 != (#[trigger] now[b]).1 && !(now[a].0.station_id
                        == now[b].0.station_id && now[a].0.t_start.same_number(
                        now[b].0.t_start,
                    )) by {
                        assert(before.segments[a].1 != before.segments[b].1);
                    }
                    assert forall|k: int| 0 <= k < now.len() implies {
                        &&& 1 <= (#[trigger] now[k]).1 <= number
                        &&& !now[k].0.t_start.nan() && !now[k].0.offset_sec.nan()
                        &&& now[k].0.t_end matches Some(e) ==> !e.nan()
                        &&& knows_station(before.stations, now[k].0.station_id)
                    } by {
                        assert(1 <= before.segments[k].1);
                    }
                }
            }
        },
        None => {
            if find_station(&store.stations, c.station_id.as_str()).is_none() {
                return Err(Fault::ForeignKey);
            }
            id = number;
            let added = ClockSegment {
                station_id: c.station_id.clone(),
                t_start: c.t_start,
                t_end: hold(c.t_end),
                offset_sec: c.offset_sec,
                source: c.source.clone(),
            };
            store.segments.push((added, id));
            store.last_segment = number;
            proof {
                let now = store@.segments;
                let n = before.segments.len() as int;
                assert(now =~= with_segment(before.segments, number as int, c@));
                assert(now[n].1 == id && same_slot(now[n].0, c@));
                assert forall|x: int| knows_segment(before.segments, x) implies knows_segment(
                    now,
                    x,
                ) by {
                    let k = choose|k: int|
                        0 <= k < before.segments.len() && (#[trigger] before.segments[k]).1 == x;
                    assert(now[k].1 == x);
                }
                assert(segments_ok(now, number as int, before.stations)) by {
                    assert forall|a: int, b: int| 0 <= a < b < now.len() implies (
                    #[trigger] now[a]).1 != (#[trigger] now[b]).1 && !(now[a].0.station_id
                        == now[b].0.station_id && now[a].0.t_start.same_number(
                        now[b].0.t_start,
                    )) by {
                        assert(now[a] == before.segments[a]);
                        if b < n {
                            assert(before.segments[a].1 != before.segments[b].1);
                        } else {
                            assert(!same_slot(before.segments[a].0, c@));
                            assert(1 <= before.segments[a].1 <= before.last_segment);
                        }
                    }
                    assert forall|k: int| 0 <= k < now.len() implies {
                        &&& 1 <= (#[trigger] now[k]).1 <= number
                        &&& !now[k].0.t_start.nan() && !now[k].0.offset_sec.nan()
                        &&& now[k].0.t_end matches Some(e) ==> !e.nan()
                        &&& knows_station(before.stations, now[k].0.station_id)
                    } by {
                        if k < n {
                            assert(now[k] == before.segments[k]);
                        }
                    }
                }
            }
        },
    }
    Ok(id)
}

pub fn copy_segments(list: &Vec<(ClockSegment, i64)>) -> (r: Vec<(ClockSegment, i64)>)
    ensures
        segment_views(r@) == segment_views(list@),
{
    let mut out: Vec<(ClockSegment, i64)> = Vec::new();
    let mut i: usize = 0;
    while i < list.len()
        invariant
            i <= list@.len(),
            segment_views(out@) =~= segment_views(list@).take(i as int),
        decreases list@.len() - i,
    {
        let ghost before = segment_views(out@);
        out.push((list[i].0.copy(), list[i].1));
        assert(segment_views(out@) =~= before.push(segment_views(list@)[i as int]));
        i += 1;
    }
    assert(segment_views(list@).take(i as int) =~= segment_views(list@));
    out
}

/// Lists the clock segments.
pub fn list_clock_segments(store: &Store) -> (r: Vec<(ClockSegment, i64)>)
    requires
        store@.valid(),
    ensures
        segments_listed(store@.segments, segment_views(r@)),
{
    let list = copy_segments(&store.segments);
    let ghost given = list@;
    let sorted = sort(list);
    proof {
        let views = segment_views(given);
        assert forall|i: int, j: int| 0 <= i < j < given.len() implies (#[trigger] given[i]).key()
            != (#[trigger] given[j]).key() by {
            assert(views[i].0 == given[i].0@ && views[j].0 == given[j].0@);
            assert(views[i].1 != views[j].1);
            assert(1 <= views[i].1 && 1 <= views[j].1);
        }
        sorted_rows_are_listed(
            given,
            sorted@,
            |s: (ClockSegment, i64)| (s.0@, s.1 as int),
            |s: (ClockSegmentView, int)| (s.0.station_id, s.0.t_start.rank(), ""@, ""@),
        );
    }
    sorted
}

// ---------- Corrected onsets ----------

/// An observation with its onset corrected by the one segment that holds at
/// it. Where none holds, or more than one, the clock counts as unlocked.
pub open spec fn corrected(
    o: ObservationRowView,
    segments: Seq<(ClockSegmentView, int)>,
    minus: Differences,
) -> ObservationRowView {
    let hits = active_at(segments, o.station_id, o.local_onset_sec);
    if hits.len() == 1 {
        ObservationRowView {
            corrected_onset_sec: held(
                Some(minus.difference(o.local_onset_sec, hits[0].0.offset_sec)),
            ),
            clock_segment_id: Some(hits[0].1 as i64),
            clock_locked: true,
            ..o
        }
    } else {
        ObservationRowView {
            corrected_onset_sec: None,
            clock_segment_id: None,
            clock_locked: false,
            ..o
        }
    }
}

/// The observations, corrected.
pub open spec fn all_corrected(
    obs: Seq<ObservationRowView>,
    segments: Seq<(ClockSegmentView, int)>,
    minus: Differences,
) -> Seq<ObservationRowView> {
    obs.map_values(|o: ObservationRowView| corrected(o, segments, minus))
}

fn correct(o: &mut ObservationRow, segments: &Vec<(ClockSegment, i64)>, minus: &Differences)
    ensures
        final(o)@ == corrected(old(o)@, segment_views(segments@), *minus),
{
    let hits = clock_segments_at(segments, o.station_id.as_str(), o.local_onset_sec);
    let ghost views = segment_views(hits@);
    assert(views.len() == hits@.len());
    if hits.len() == 1 {
        assert(views[0] == (hits@[0].0@, hits@[0].1 as int));
        o.corrected_onset_sec = hold(
            Some(minus.minus(o.local_onset_sec, hits[0].0.offset_sec)),
        );
        o.clock_segment_id = Some(hits[0].1);
        o.clock_locked = true;
    } else {
        o.corrected_onset_sec = None;
        o.clock_segment_id = None;
        o.clock_locked = false;
    }
}

proof fn correction_keeps_the_rules(v: StoreView, minus: Differences)
    requires
        v.valid(),
        forall|i: int| 0 <= i < v.segments.len() ==> (#[trigger] v.segments[i]).1 <= i64::MAX,
    ensures
        (StoreView {
            observations: all_corrected(v.observations, v.segments, minus),
            ..v
        }).valid(),
{
    let now = all_corrected(v.observations, v.segments, minus);
    assert forall|uid: Seq<char>| knows_observation(v.observations, uid) implies knows_observation(
        now,
        uid,
    ) by {
        let k = choose|k: int|
            0 <= k < v.observations.len() && (#[trigger] v.observations[k]).obs_uid == uid;
        assert(now[k].obs_uid == uid);
    }
    assert forall|i: int, j: int| 0 <= i < j < now.len() implies (#[trigger] now[i]).obs_uid != (
    #[trigger] now[j]).obs_uid by {
        assert(v.observations[i].obs_uid != v.observations[j].obs_uid);
    }
    assert forall|i: int| 0 <= i < now.len() implies {
        let o = #[trigger] now[i];
        &&& knows_batch(v.batches, o.batch_uid)
        &&& knows_event(v.events, o.event_id)
        &&& knows_station(v.stations, o.station_id)
        &&& !o.local_onset_sec.nan()
        &&& o.clock_locked == (o.clock_segment_id is Some)
        &&& o.clock_segment_id matches Some(id) ==> knows_segment(v.segments, id as int)
        &&& o.duplicate_of matches Some(d) ==> knows_observation(now, d)
    } by {
        let o = v.observations[i];
        let pick = |s: (ClockSegmentView, int)|
            s.0.station_id == o.station_id && holds_at(s.0, o.local_onset_sec);
        let hits = active_at(v.segments, o.station_id, o.local_onset_sec);
        picked_items_keep_their_order(v.segments, pick);
        if hits.len() == 1 {
            let p = picked_positions(v.segments, pick)[0];
            assert(hits[0] == v.segments[p]);
            assert(1 <= v.segments[p].1 <= v.last_segment);
            assert(v.segments[p].1 <= i64::MAX);
        }
    }
}

/// Corrects the onsets by the clock segments. Only what is derived is written;
/// what was reported stays as it is.
pub fn apply_clock_corrections(store: &mut Store, minus: &Differences)
    requires
        old(store)@.valid(),
    ensures
        final(store)@.valid(),
        final(store)@ == (StoreView {
            observations: all_corrected(
                old(store)@.observations,
                old(store)@.segments,
                *minus,
            ),
            ..old(store)@
        }),
{
    let ghost before = store@;
    let ghost want = all_corrected(before.observations, before.segments, *minus);
    let mut i: usize = 0;
    while i < store.observations.len()
        invariant
            i <= store.observations@.len(),
            store.observations@.len() == before.observations.len(),
            want == all_corrected(before.observations, before.segments, *minus),
            store@ == (StoreView { observations: store@.observations, ..before }),
            store@.observations =~= want.take(i as int) + before.observations.skip(i as int),
        decreases store.observations@.len() - i,
    {
        let ghost now = store@.observations;
        assert(now[i as int] == store.observations@[i as int]@);
        assert(now[i as int] == before.observations[i as int]);
        let mut o = store.observations[i].copy();
        correct(&mut o, &store.segments, minus);
        let ghost v = o@;
        store.observations.set(i, o);
        assert(store@.observations =~= now.update(i as int, v));
        assert(store@.observations =~= want.take(i + 1) + before.observations.skip(i + 1));
        i += 1;
    }
    assert(store@.observations =~= want);
    proof {
        assert forall|k: int| 0 <= k < before.segments.len() implies (
        #[trigger] before.segments[k]).1 <= i64::MAX by {
            assert(1 <= before.segments[k].1 <= before.last_segment);
        }
        correction_keeps_the_rules(before, *minus);
    }
}

/// Correcting leaves all that was reported as it is, and correcting twice is
/// correcting once.
pub proof fn corrections_touch_only_what_is_derived(
    o: ObservationRowView,
    segments: Seq<(ClockSegmentView, int)>,
    minus: Differences,
)
    ensures
        ({
            let c = corrected(o, segments, minus);
            &&& c.obs_uid == o.obs_uid
            &&& c.batch_uid == o.batch_uid
            &&& c.event_id == o.event_id
            &&& c.station_id == o.station_id
            &&& c.local_onset_sec == o.local_onset_sec
            &&& c.peak_band_hz == o.peak_band_hz
            &&& c.snr_db == o.snr_db
            &&& c.duplicate_of == o.duplicate_of
            &&& corrected(c, segments, minus) == c
        }),
{
}

} // verus!
