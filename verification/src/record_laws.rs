//! What the tables say after something is entered, and what they no longer say.
use vstd::prelude::*;

use crate::clocks::active_at;
use crate::db::{
    corrected, event_row, same_slot, slot_taken, with_event, with_segment, with_station,
};
use crate::digest::fingerprint;
use crate::double::Double;
use crate::figures::Differences;
use crate::ingest::{entered, intake, is_twin, lags_entered, taken_in, twin_is_the_first, twin_of};
use crate::jobs::{
    claimed, completed, ended, enqueued, job_for, new_evidence, next_waiting, recovered, written,
};
use crate::json::JsonView;
use crate::model::{
    BatchInputView, CandidateView, ClockSegmentView, EventInputView, ObservationInputView,
    ObservationRowView, StationView,
};
use crate::order::{picked_items_keep_their_order, picked_positions};
use crate::store::{
    knows_batch, knows_event, knows_observation, knows_station, EventRowView, JobRecordView,
    LagRecordView, StoreView,
};
use crate::text::{decimal_text, text_lt};

verus! {

// ---------- Stations, events and clock segments ----------

/// A station is read as it was entered last: its place and its label are those
/// of the entry, and no other station changes.
pub proof fn a_station_is_read_as_entered(stations: Seq<StationView>, s: StationView)
    ensures
        ({
            let now = with_station(stations, s);
            &&& exists|i: int| 0 <= i < now.len() && (#[trigger] now[i]).station_id == s.station_id
            &&& forall|i: int|
                0 <= i < now.len() && (#[trigger] now[i]).station_id == s.station_id ==> now[i].x
                    == s.x && now[i].y == s.y && now[i].label == s.label
            &&& forall|i: int|
                0 <= i < stations.len() && (#[trigger] stations[i]).station_id != s.station_id
                    ==> now[i] == stations[i]
            &&& knows_station(stations, s.station_id) ==> now.len() == stations.len()
            &&& !knows_station(stations, s.station_id) ==> now.len() == stations.len() + 1
        }),
{
    let now = with_station(stations, s);
    if knows_station(stations, s.station_id) {
        let i = choose|i: int|
            0 <= i < stations.len() && (#[trigger] stations[i]).station_id == s.station_id;
        assert(now[i].station_id == s.station_id);
    } else {
        assert(now[stations.len() as int].station_id == s.station_id);
        assert forall|i: int|
            0 <= i < now.len() && (#[trigger] now[i]).station_id == s.station_id implies now[i].x
            == s.x && now[i].y == s.y && now[i].label == s.label by {
            if i < stations.len() {
                assert(stations[i].station_id == s.station_id);
            }
        }
    }
}

/// An event is read as it was entered last: its label, its window, its speed of
/// sound and its bounds are those of the entry, and no other event changes.
pub proof fn an_event_is_read_as_entered(events: Seq<EventRowView>, e: EventInputView)
    ensures
        ({
            let now = with_event(events, event_row(e));
            &&& exists|i: int| 0 <= i < now.len() && (#[trigger] now[i]).event_id == e.event_id
            &&& forall|i: int|
                0 <= i < now.len() && (#[trigger] now[i]).event_id == e.event_id ==> {
                    &&& now[i].label == e.label
                    &&& now[i].window_start == e.window_start
                    &&& now[i].window_end == e.window_end
                    &&& now[i].sound_speed_mps == e.sound_speed_mps
                    &&& now[i].bounds.min_x == e.site_bounds.min_x
                    &&& now[i].bounds.min_y == e.site_bounds.min_y
                    &&& now[i].bounds.max_x == e.site_bounds.max_x
                    &&& now[i].bounds.max_y == e.site_bounds.max_y
                }
            &&& forall|i: int|
                0 <= i < events.len() && (#[trigger] events[i]).event_id != e.event_id ==> now[i]
                    == events[i]
            &&& knows_event(events, e.event_id) ==> now.len() == events.len()
            &&& !knows_event(events, e.event_id) ==> now.len() == events.len() + 1
        }),
{
    let r = event_row(e);
    let now = with_event(events, r);
    if knows_event(events, e.event_id) {
        let i = choose|i: int|
            0 <= i < events.len() && (#[trigger] events[i]).event_id == e.event_id;
        assert(now[i].event_id == e.event_id);
    } else {
        assert(now[events.len() as int].event_id == e.event_id);
        assert forall|i: int|
            0 <= i < now.len() && (#[trigger] now[i]).event_id == e.event_id implies now[i]
            == r by {
            if i < events.len() {
                assert(events[i].event_id == e.event_id);
            }
        }
    }
}

/// Two segments of one station begin at the same time.
pub open spec fn begin_together(a: ClockSegmentView, b: ClockSegmentView) -> bool {
    a.station_id == b.station_id && a.t_start.same_number(b.t_start)
}

/// A clock segment is read as it was entered last: the one of its station that
/// begins at its time has its end, its offset and its source and keeps its
/// number; where there is none, it comes in under the new number. No other
/// segment changes.
pub proof fn a_segment_is_read_as_entered(
    segments: Seq<(ClockSegmentView, int)>,
    number: int,
    c: ClockSegmentView,
)
    requires
        !c.t_start.nan(),
    ensures
        ({
            let now = with_segment(segments, number, c);
            let known = exists|i: int|
                0 <= i < segments.len() && begin_together((#[trigger] segments[i]).0, c);
            &&& exists|i: int| 0 <= i < now.len() && begin_together((#[trigger] now[i]).0, c)
            &&& forall|i: int|
                0 <= i < now.len() && begin_together((#[trigger] now[i]).0, c) ==> {
                    &&& now[i].0.offset_sec == c.offset_sec
                    &&& now[i].0.source == c.source
                    &&& c.t_end is Some && !c.t_end->0.nan() ==> now[i].0.t_end == c.t_end
                    &&& !(c.t_end is Some && !c.t_end->0.nan()) ==> now[i].0.t_end is None
                    &&& i < segments.len() ==> now[i].1 == segments[i].1
                    &&& i >= segments.len() ==> now[i].1 == number && now[i].0.t_start == c.t_start
                }
            &&& forall|i: int|
                0 <= i < segments.len() && !begin_together((#[trigger] segments[i]).0, c) ==> now[i]
                    == segments[i]
            &&& known ==> now.len() == segments.len()
            &&& !known ==> now.len() == segments.len() + 1
        }),
{
    let now = with_segment(segments, number, c);
    if slot_taken(segments, c) {
        let i = choose|i: int| 0 <= i < segments.len() && same_slot((#[trigger] segments[i]).0, c);
        assert(begin_together(segments[i].0, c));
        assert(begin_together(now[i].0, c));
        assert forall|i: int|
            0 <= i < now.len() && begin_together((#[trigger] now[i]).0, c) implies same_slot(
            segments[i].0,
            c,
        ) by {
            if !same_slot(segments[i].0, c) {
                assert(now[i] == segments[i]);
            }
        }
        assert forall|i: int|
            0 <= i < segments.len() && !begin_together((#[trigger] segments[i]).0, c) implies now[i]
            == segments[i] by {
            assert(!same_slot(segments[i].0, c));
        }
    } else {
        assert(begin_together(now[segments.len() as int].0, c));
        assert forall|i: int| 0 <= i < segments.len() implies !begin_together(
            (#[trigger] segments[i]).0,
            c,
        ) by {
            assert(!same_slot(segments[i].0, c));
        }
        assert forall|i: int|
            0 <= i < now.len() && begin_together((#[trigger] now[i]).0, c) implies i
            == segments.len() by {
            if i < segments.len() {
                assert(now[i] == segments[i]);
                assert(!begin_together(segments[i].0, c));
            }
        }
    }
}

// ---------- Corrections ----------

/// Segment `k` times an observation: it is one of the observation's station, it
/// has begun at the onset and has not ended.
pub open spec fn times(
    segments: Seq<(ClockSegmentView, int)>,
    k: int,
    o: ObservationRowView,
) -> bool {
    &&& 0 <= k < segments.len()
    &&& segments[k].0.station_id == o.station_id
    &&& segments[k].0.t_start.below(o.local_onset_sec) || segments[k].0.t_start.same_number(
        o.local_onset_sec,
    )
    &&& segments[k].0.t_end is Some ==> o.local_onset_sec.below(segments[k].0.t_end->0)
}

proof fn what_times_an_onset(
    o: ObservationRowView,
    segments: Seq<(ClockSegmentView, int)>,
) -> (p: Seq<int>)
    ensures
        p.len() == active_at(segments, o.station_id, o.local_onset_sec).len(),
        forall|m: int|
            0 <= m < p.len() ==> times(segments, #[trigger] p[m], o) && active_at(
                segments,
                o.station_id,
                o.local_onset_sec,
            )[m] == segments[p[m]],
        forall|m: int, n: int| 0 <= m < n < p.len() ==> #[trigger] p[m] < #[trigger] p[n],
        p == picked_positions(
            segments,
            |s: (ClockSegmentView, int)|
                s.0.station_id == o.station_id && crate::clocks::holds_at(s.0, o.local_onset_sec),
        ),
{
    let pick = |s: (ClockSegmentView, int)|
        s.0.station_id == o.station_id && crate::clocks::holds_at(s.0, o.local_onset_sec);
    let hits = active_at(segments, o.station_id, o.local_onset_sec);
    picked_items_keep_their_order(segments, pick);
    let p = picked_positions(segments, pick);
    assert forall|m: int| 0 <= m < p.len() implies times(segments, #[trigger] p[m], o) && hits[m]
        == segments[p[m]] by {
        assert(pick(hits[m]));
    }
    p
}

proof fn what_times_is_found(
    o: ObservationRowView,
    segments: Seq<(ClockSegmentView, int)>,
    k: int,
) -> (m: int)
    requires
        times(segments, k, o),
    ensures
        0 <= m < active_at(segments, o.station_id, o.local_onset_sec).len(),
        picked_positions(
            segments,
            |s: (ClockSegmentView, int)|
                s.0.station_id == o.station_id && crate::clocks::holds_at(s.0, o.local_onset_sec),
        )[m] == k,
{
    let pick = |s: (ClockSegmentView, int)|
        s.0.station_id == o.station_id && crate::clocks::holds_at(s.0, o.local_onset_sec);
    assert(pick(segments[k]));
    every_picked_position_is_listed(segments, pick, k);
    picked_items_keep_their_order(segments, pick);
    choose|m: int|
        0 <= m < picked_positions(segments, pick).len() && #[trigger] picked_positions(
            segments,
            pick,
        )[m] == k
}

/// An onset that one segment times, and no other, is corrected by it: to the
/// reading less the offset of the segment, whose number it keeps.
pub proof fn an_onset_is_corrected_by_what_times_it(
    o: ObservationRowView,
    segments: Seq<(ClockSegmentView, int)>,
    minus: Differences,
    k: int,
)
    requires
        times(segments, k, o),
        forall|j: int| #[trigger] times(segments, j, o) ==> j == k,
    ensures
        ({
            let c = corrected(o, segments, minus);
            let t = minus.difference(o.local_onset_sec, segments[k].0.offset_sec);
            &&& !t.nan() ==> c.corrected_onset_sec == Some(t)
            &&& t.nan() ==> c.corrected_onset_sec is None
            &&& c.clock_segment_id == Some(segments[k].1 as i64)
            &&& c.clock_locked
        }),
{
    let p = what_times_an_onset(o, segments);
    let m = what_times_is_found(o, segments, k);
    if p.len() > 1 {
        assert(times(segments, p[0], o) && times(segments, p[1], o));
        assert(p[0] < p[1]);
    }
    assert(times(segments, p[0], o));
}

/// An onset that no segment times is not corrected.
pub proof fn an_onset_without_a_segment_is_not_corrected(
    o: ObservationRowView,
    segments: Seq<(ClockSegmentView, int)>,
    minus: Differences,
)
    requires
        forall|k: int| !#[trigger] times(segments, k, o),
    ensures
        ({
            let c = corrected(o, segments, minus);
            c.corrected_onset_sec is None && c.clock_segment_id is None && !c.clock_locked
        }),
{
    let p = what_times_an_onset(o, segments);
    if p.len() > 0 {
        assert(times(segments, p[0], o));
    }
}

/// An onset that two segments time is not corrected.
pub proof fn an_onset_with_two_segments_is_not_corrected(
    o: ObservationRowView,
    segments: Seq<(ClockSegmentView, int)>,
    minus: Differences,
    j: int,
    k: int,
)
    requires
        times(segments, j, o),
        times(segments, k, o),
        j != k,
    ensures
        ({
            let c = corrected(o, segments, minus);
            c.corrected_onset_sec is None && c.clock_segment_id is None && !c.clock_locked
        }),
{
    let m = what_times_is_found(o, segments, j);
    let n = what_times_is_found(o, segments, k);
}

proof fn every_picked_position_is_listed<A>(s: Seq<A>, pick: spec_fn(A) -> bool, k: int)
    requires
        0 <= k < s.len(),
        pick(s[k]),
    ensures
        exists|m: int| 0 <= m < picked_positions(s, pick).len() && #[trigger] picked_positions(
            s,
            pick,
        )[m] == k,
    decreases s.len(),
{
    let p = picked_positions(s, pick);
    if k == s.len() - 1 {
        assert(p[p.len() - 1] == k);
    } else {
        every_picked_position_is_listed(s.drop_last(), pick, k);
        let q = picked_positions(s.drop_last(), pick);
        let m = choose|m: int| 0 <= m < q.len() && #[trigger] q[m] == k;
        assert(p[m] == k);
    }
}

// ---------- Batches ----------

/// A row of the observations says what report `b` of a batch says.
pub open spec fn is_report(r: ObservationRowView, batch: BatchInputView, b: int) -> bool {
    &&& 0 <= b < batch.observations.len()
    &&& r.obs_uid == batch.observations[b].obs_uid
    &&& r.batch_uid == batch.batch_uid
    &&& r.event_id == batch.event_id
    &&& r.station_id == batch.observations[b].station_id
    &&& r.local_onset_sec == batch.observations[b].local_onset_sec
    &&& r.peak_band_hz == batch.observations[b].peak_band_hz
    &&& r.snr_db == batch.observations[b].snr_db
}

/// Row `j` has the onset of the later row `m`: both belong to one event and one
/// station, and less than 5 microseconds lie between them.
pub open spec fn is_same_onset(
    obs: Seq<ObservationRowView>,
    j: int,
    m: int,
    minus: Differences,
) -> bool {
    &&& 0 <= j < m < obs.len()
    &&& obs[j].event_id == obs[m].event_id
    &&& obs[j].station_id == obs[m].station_id
    &&& minus.difference(obs[j].local_onset_sec, obs[m].local_onset_sec).size().below(
        Double { bits: 0x3ed4_f8b5_88e3_68f1 },
    )
}

/// The first `n` reports of a batch name an observation twice.
pub open spec fn is_named_twice(batch: BatchInputView, uid: Seq<char>, n: int) -> bool {
    exists|b: int, c: int|
        0 <= b < c < n && (#[trigger] batch.observations[b]).obs_uid == uid && (
        #[trigger] batch.observations[c]).obs_uid == uid
}

/// Row `m` is marked as a duplicate of the row with the smallest name among the
/// earlier ones that have its onset; of itself, where the batch names it again;
/// and of nothing, where there is neither.
pub open spec fn is_marked_rightly(
    obs: Seq<ObservationRowView>,
    m: int,
    batch: BatchInputView,
    n: int,
    minus: Differences,
) -> bool {
    match obs[m].duplicate_of {
        None => (forall|j: int| !#[trigger] is_same_onset(obs, j, m, minus)) && !is_named_twice(
            batch,
            obs[m].obs_uid,
            n,
        ),
        Some(u) => {
            ||| (exists|j: int| #[trigger]
                is_same_onset(obs, j, m, minus) && obs[j].obs_uid == u) && (forall|j: int|
             #[trigger] is_same_onset(obs, j, m, minus) ==> !text_lt(obs[j].obs_uid, u))
            ||| u == obs[m].obs_uid && is_named_twice(batch, u, n) && (forall|j: int|
                !#[trigger] is_same_onset(obs, j, m, minus))
        },
    }
}

/// Two rows say the same but for what they are duplicates of.
pub open spec fn same_but_for_the_mark(a: ObservationRowView, b: ObservationRowView) -> bool {
    &&& a.obs_uid == b.obs_uid
    &&& a.batch_uid == b.batch_uid
    &&& a.event_id == b.event_id
    &&& a.station_id == b.station_id
    &&& a.local_onset_sec == b.local_onset_sec
    &&& a.peak_band_hz == b.peak_band_hz
    &&& a.snr_db == b.snr_db
}

/// The first `n` reports of a batch name an observation.
pub open spec fn is_named(batch: BatchInputView, uid: Seq<char>, n: int) -> bool {
    exists|b: int| 0 <= b < n && (#[trigger] batch.observations[b]).obs_uid == uid
}

spec fn reports_are_in(
    v: StoreView,
    batch: BatchInputView,
    minus: Differences,
    n: int,
    obs: Seq<ObservationRowView>,
) -> bool {
    let k = v.observations.len() as int;
    &&& obs.len() >= k
    &&& forall|m: int| 0 <= m < k ==> same_but_for_the_mark(#[trigger] obs[m], v.observations[m])
    &&& forall|m: int|
        0 <= m < k ==> (#[trigger] obs[m]).duplicate_of == if v.observations[m].duplicate_of is None
            && is_named(batch, v.observations[m].obs_uid, n) {
            Some(v.observations[m].obs_uid)
        } else {
            v.observations[m].duplicate_of
        }
    &&& forall|m: int| k <= m < obs.len() ==> was_reported(#[trigger] obs[m], batch, n)
    &&& forall|m: int| k <= m < obs.len() ==> #[trigger] is_marked_rightly(obs, m, batch, n, minus)
    &&& forall|b: int|
        0 <= b < n ==> knows_observation(obs, (#[trigger] batch.observations[b]).obs_uid)
    &&& forall|m: int, l: int|
        k <= m < obs.len() && 0 <= l < m ==> (#[trigger] obs[l]).obs_uid != (
        #[trigger] obs[m]).obs_uid
}

/// A row says what one of the first `n` reports of a batch says.
pub open spec fn was_reported(r: ObservationRowView, batch: BatchInputView, n: int) -> bool {
    exists|b: int| 0 <= b < n && #[trigger] is_report(r, batch, b)
}

proof fn marks_of_a_known_one(
    v: StoreView,
    batch: BatchInputView,
    minus: Differences,
    n: int,
    before: Seq<ObservationRowView>,
    after: Seq<ObservationRowView>,
)
    requires
        0 < n <= batch.observations.len(),
        reports_are_in(v, batch, minus, n - 1, before),
        knows_observation(before, batch.observations[n - 1].obs_uid),
        after == crate::ingest::reported_again(before, batch.observations[n - 1].obs_uid),
    ensures
        reports_are_in(v, batch, minus, n, after),
{
    let k = v.observations.len() as int;
    let uid = batch.observations[n - 1].obs_uid;
    assert forall|m: int| 0 <= m < after.len() implies same_but_for_the_mark(
        #[trigger] after[m],
        before[m],
    ) by {}
    assert forall|j: int, m: int|
        is_same_onset(before, j, m, minus) == #[trigger] is_same_onset(after, j, m, minus) by {
        if 0 <= j < m < after.len() {
            assert(same_but_for_the_mark(after[j], before[j]));
            assert(same_but_for_the_mark(after[m], before[m]));
        }
    }
    assert forall|u: Seq<char>| #[trigger] is_named(batch, u, n) == (is_named(batch, u, n - 1) || u
        == uid) by {
        if is_named(batch, u, n) {
            let b = choose|b: int| 0 <= b < n && (#[trigger] batch.observations[b]).obs_uid == u;
            assert(batch.observations[b].obs_uid == u);
        }
        if is_named(batch, u, n - 1) {
            let b = choose|b: int|
                0 <= b < n - 1 && (#[trigger] batch.observations[b]).obs_uid == u;
            assert(batch.observations[b].obs_uid == u);
        }
        assert(batch.observations[n - 1].obs_uid == uid);
    }
    assert forall|m: int| 0 <= m < k implies (#[trigger] after[m]).duplicate_of == if
        v.observations[m].duplicate_of is None && is_named(batch, v.observations[m].obs_uid, n) {
        Some(v.observations[m].obs_uid)
    } else {
        v.observations[m].duplicate_of
    } by {
        assert(same_but_for_the_mark(before[m], v.observations[m]));
    }
    assert forall|m: int| k <= m < after.len() implies was_reported(
        #[trigger] after[m],
        batch,
        n,
    ) by {
        assert(was_reported(before[m], batch, n - 1));
        let b = choose|b: int| 0 <= b < n - 1 && #[trigger] is_report(before[m], batch, b);
        assert(is_report(after[m], batch, b));
    }
    assert forall|m: int| k <= m < after.len() implies #[trigger] is_marked_rightly(
        after,
        m,
        batch,
        n,
        minus,
    ) by {
        assert(is_marked_rightly(before, m, batch, n - 1, minus));
        assert(was_reported(before[m], batch, n - 1));
        let b = choose|b: int| 0 <= b < n - 1 && #[trigger] is_report(before[m], batch, b);
        assert(batch.observations[b].obs_uid == before[m].obs_uid);
        assert(batch.observations[n - 1].obs_uid == uid);
        naming_goes_on(batch, before[m].obs_uid, n, b);
        if before[m].duplicate_of is Some {
            let u = before[m].duplicate_of->0;
            if exists|j: int| #[trigger] is_same_onset(before, j, m, minus) && before[j].obs_uid
                == u {
                let j = choose|j: int| #[trigger]
                    is_same_onset(before, j, m, minus) && before[j].obs_uid == u;
                assert(is_same_onset(after, j, m, minus) && after[j].obs_uid == u);
            }
            assert forall|j: int| #[trigger] is_same_onset(after, j, m, minus) implies after[j].obs_uid
                == before[j].obs_uid && is_same_onset(before, j, m, minus) by {}
        } else {
            assert forall|j: int| !#[trigger] is_same_onset(after, j, m, minus) by {
                assert(!is_same_onset(before, j, m, minus));
            }
        }
    }
    assert forall|b: int| 0 <= b < n implies knows_observation(
        after,
        (#[trigger] batch.observations[b]).obs_uid,
    ) by {
        assert(knows_observation(before, batch.observations[b].obs_uid));
        let m = choose|m: int|
            0 <= m < before.len() && (#[trigger] before[m]).obs_uid
                == batch.observations[b].obs_uid;
        assert(after[m].obs_uid == batch.observations[b].obs_uid);
    }
}

proof fn naming_goes_on(batch: BatchInputView, uid: Seq<char>, n: int, b: int)
    requires
        0 < n <= batch.observations.len(),
        0 <= b < n - 1,
        batch.observations[b].obs_uid == uid,
    ensures
        is_named_twice(batch, uid, n) == (is_named_twice(batch, uid, n - 1)
            || batch.observations[n - 1].obs_uid == uid),
{
    if is_named_twice(batch, uid, n) && !is_named_twice(batch, uid, n - 1) {
        let (x, y) = choose|x: int, y: int|
            0 <= x < y < n && (#[trigger] batch.observations[x]).obs_uid == uid && (
            #[trigger] batch.observations[y]).obs_uid == uid;
        if y < n - 1 {
            assert(is_named_twice(batch, uid, n - 1));
        }
    }
    if is_named_twice(batch, uid, n - 1) {
        let (x, y) = choose|x: int, y: int|
            0 <= x < y < n - 1 && (#[trigger] batch.observations[x]).obs_uid == uid && (
            #[trigger] batch.observations[y]).obs_uid == uid;
        assert(batch.observations[x].obs_uid == uid && batch.observations[y].obs_uid == uid);
    }
}

proof fn marks_of_a_new_one(
    v: StoreView,
    batch: BatchInputView,
    minus: Differences,
    n: int,
    before: Seq<ObservationRowView>,
)
    requires
        0 < n <= batch.observations.len(),
        reports_are_in(v, batch, minus, n - 1, before),
        !knows_observation(before, batch.observations[n - 1].obs_uid),
    ensures
        reports_are_in(
            v,
            batch,
            minus,
            n,
            before.push(
                crate::ingest::observation_row(
                    batch,
                    batch.observations[n - 1],
                    twin_of(before, batch.event_id, batch.observations[n - 1], minus),
                ),
            ),
        ),
{
    let k = v.observations.len() as int;
    let o = batch.observations[n - 1];
    let uid = o.obs_uid;
    let twin = twin_of(before, batch.event_id, o, minus);
    let row = crate::ingest::observation_row(batch, o, twin);
    let after = before.push(row);
    let last = before.len() as int;
    assert forall|j: int, m: int| m < last implies is_same_onset(before, j, m, minus)
        == #[trigger] is_same_onset(after, j, m, minus) by {}
    assert forall|u: Seq<char>| u != uid implies #[trigger] is_named(batch, u, n) == is_named(
        batch,
        u,
        n - 1,
    ) by {
        if is_named(batch, u, n) {
            let b = choose|b: int| 0 <= b < n && (#[trigger] batch.observations[b]).obs_uid == u;
            assert(batch.observations[b].obs_uid == u);
        }
        if is_named(batch, u, n - 1) {
            let b = choose|b: int|
                0 <= b < n - 1 && (#[trigger] batch.observations[b]).obs_uid == u;
            assert(batch.observations[b].obs_uid == u);
        }
    }
    assert forall|m: int| 0 <= m < last implies (#[trigger] before[m]).obs_uid != uid by {}
    assert forall|m: int| 0 <= m < k implies (#[trigger] after[m]).duplicate_of == if
        v.observations[m].duplicate_of is None && is_named(batch, v.observations[m].obs_uid, n) {
        Some(v.observations[m].obs_uid)
    } else {
        v.observations[m].duplicate_of
    } by {
        assert(after[m] == before[m]);
        assert(same_but_for_the_mark(before[m], v.observations[m]));
    }
    assert forall|m: int| k <= m < after.len() implies was_reported(
        #[trigger] after[m],
        batch,
        n,
    ) by {
        if m < last {
            assert(was_reported(before[m], batch, n - 1));
            let b = choose|b: int| 0 <= b < n - 1 && #[trigger] is_report(before[m], batch, b);
            assert(is_report(after[m], batch, b));
        } else {
            assert(is_report(after[m], batch, n - 1));
        }
    }
    assert forall|m: int| k <= m < after.len() implies #[trigger] is_marked_rightly(
        after,
        m,
        batch,
        n,
        minus,
    ) by {
        if m < last {
            assert(is_marked_rightly(before, m, batch, n - 1, minus));
            assert(was_reported(before[m], batch, n - 1));
            let b = choose|b: int| 0 <= b < n - 1 && #[trigger] is_report(before[m], batch, b);
            naming_goes_on(batch, before[m].obs_uid, n, b);
            assert(after[m] == before[m]);
            if before[m].duplicate_of is Some {
                let u = before[m].duplicate_of->0;
                if exists|j: int| #[trigger] is_same_onset(before, j, m, minus) && before[j].obs_uid
                    == u {
                    let j = choose|j: int| #[trigger]
                        is_same_onset(before, j, m, minus) && before[j].obs_uid == u;
                    assert(is_same_onset(after, j, m, minus) && after[j].obs_uid == u);
                }
                assert forall|j: int| #[trigger] is_same_onset(after, j, m, minus) implies
                    after[j].obs_uid == before[j].obs_uid && is_same_onset(before, j, m, minus) by {}
            } else {
                assert forall|j: int| !#[trigger] is_same_onset(after, j, m, minus) by {
                    assert(!is_same_onset(before, j, m, minus));
                }
            }
        } else {
            twin_is_the_first(before, batch.event_id, o, minus);
            assert(!is_named_twice(batch, uid, n)) by {
                if is_named_twice(batch, uid, n) {
                    let (x, y) = choose|x: int, y: int|
                        0 <= x < y < n && (#[trigger] batch.observations[x]).obs_uid == uid && (
                        #[trigger] batch.observations[y]).obs_uid == uid;
                    assert(knows_observation(before, batch.observations[x].obs_uid));
                }
            }
            assert forall|j: int| 0 <= j < last implies #[trigger] is_same_onset(
                after,
                j,
                last,
                minus,
            ) == is_twin(before[j], batch.event_id, o, minus) by {
                assert(after[j] == before[j]);
            }
            match twin {
                Some(u) => {
                    let j = choose|j: int|
                        0 <= j < before.len() && is_twin(
                            #[trigger] before[j],
                            batch.event_id,
                            o,
                            minus,
                        ) && before[j].obs_uid == u;
                    assert(is_same_onset(after, j, m, minus) && after[j].obs_uid == u);
                    assert forall|j: int| #[trigger] is_same_onset(after, j, m, minus) implies
                        !text_lt(after[j].obs_uid, u) by {
                        assert(is_twin(before[j], batch.event_id, o, minus));
                    }
                },
                None => {
                    assert forall|j: int| !#[trigger] is_same_onset(after, j, m, minus) by {
                        if is_same_onset(after, j, m, minus) {
                            assert(is_twin(before[j], batch.event_id, o, minus));
                        }
                    }
                },
            }
        }
    }
    assert forall|b: int| 0 <= b < n implies knows_observation(
        after,
        (#[trigger] batch.observations[b]).obs_uid,
    ) by {
        if b < n - 1 {
            assert(knows_observation(before, batch.observations[b].obs_uid));
            let m = choose|m: int|
                0 <= m < before.len() && (#[trigger] before[m]).obs_uid
                    == batch.observations[b].obs_uid;
            assert(after[m].obs_uid == batch.observations[b].obs_uid);
        } else {
            assert(after[last].obs_uid == uid);
        }
    }
}

proof fn reports_come_in(v: StoreView, batch: BatchInputView, minus: Differences, n: int)
    requires
        0 <= n <= batch.observations.len(),
        entered(v, batch, minus, n) is Ok,
    ensures
        reports_are_in(v, batch, minus, n, entered(v, batch, minus, n)->Ok_0.observations),
        entered(v, batch, minus, n)->Ok_0.added == entered(
            v,
            batch,
            minus,
            n,
        )->Ok_0.observations.len() - v.observations.len(),
    decreases n,
{
    if n > 0 {
        reports_come_in(v, batch, minus, n - 1);
        let t = entered(v, batch, minus, n - 1)->Ok_0;
        let uid = batch.observations[n - 1].obs_uid;
        if knows_observation(t.observations, uid) {
            marks_of_a_known_one(
                v,
                batch,
                minus,
                n,
                t.observations,
                crate::ingest::reported_again(t.observations, uid),
            );
        } else {
            marks_of_a_new_one(v, batch, minus, n, t.observations);
        }
    } else {
        assert forall|m: int| 0 <= m < v.observations.len() implies !is_named(
            batch,
            (#[trigger] v.observations[m]).obs_uid,
            0,
        ) by {}
    }
}

/// A batch that is taken in reports observations: every new row says what one of
/// its reports says, with its onset, band and strength as they were reported;
/// every report has a row; and what has the onset of an earlier row is marked
/// as its duplicate. Rows that were there stay, marked as their own duplicates
/// where the batch names them again.
pub proof fn reports_are_read_as_they_came(
    v: StoreView,
    batch: BatchInputView,
    payload: Seq<char>,
    received_at: Seq<char>,
    minus: Differences,
    m: int,
)
    requires
        !knows_batch(v.batches, batch.batch_uid),
        intake(v, batch, minus) is Ok,
        0 <= m < taken_in(v, batch, payload, received_at, minus).observations.len(),
    ensures
        ({
            let w = taken_in(v, batch, payload, received_at, minus);
            let n = batch.observations.len() as int;
            let k = v.observations.len() as int;
            &&& w.observations.len() == k + intake(v, batch, minus)->Ok_0.added
            &&& m >= k ==> was_reported(w.observations[m], batch, n)
            &&& m >= k ==> is_marked_rightly(w.observations, m, batch, n, minus)
            &&& m < k ==> same_but_for_the_mark(w.observations[m], v.observations[m])
            &&& m < k && v.observations[m].duplicate_of is None && is_named(
                batch,
                v.observations[m].obs_uid,
                n,
            ) ==> w.observations[m].duplicate_of == Some(v.observations[m].obs_uid)
            &&& m < k && !(v.observations[m].duplicate_of is None && is_named(
                batch,
                v.observations[m].obs_uid,
                n,
            )) ==> w.observations[m].duplicate_of == v.observations[m].duplicate_of
            &&& forall|b: int|
                0 <= b < n ==> knows_observation(
                    w.observations,
                    (#[trigger] batch.observations[b]).obs_uid,
                )
        }),
{
    let n = batch.observations.len() as int;
    let k = v.observations.len() as int;
    let w = taken_in(v, batch, payload, received_at, minus);
    reports_come_in(v, batch, minus, n);
    let t = entered(v, batch, minus, n)->Ok_0;
    let before = t.observations;
    let after = w.observations;
    assert forall|j: int| 0 <= j < after.len() implies same_but_for_the_mark(
        #[trigger] after[j],
        before[j],
    ) && after[j].duplicate_of == before[j].duplicate_of by {
        assert(after[j] == corrected(before[j], v.segments, minus));
    }
    assert forall|j: int, l: int|
        is_same_onset(before, j, l, minus) == #[trigger] is_same_onset(after, j, l, minus) by {
        if 0 <= j < l < after.len() {
            assert(same_but_for_the_mark(after[j], before[j]));
            assert(same_but_for_the_mark(after[l], before[l]));
        }
    }
    assert(same_but_for_the_mark(after[m], before[m]));
    if m >= k {
        assert(was_reported(before[m], batch, n));
        let b = choose|b: int| 0 <= b < n && #[trigger] is_report(before[m], batch, b);
        assert(is_report(after[m], batch, b));
        assert(is_marked_rightly(before, m, batch, n, minus));
        if before[m].duplicate_of is Some {
            let u = before[m].duplicate_of->0;
            if exists|j: int| #[trigger] is_same_onset(before, j, m, minus) && before[j].obs_uid
                == u {
                let j = choose|j: int| #[trigger]
                    is_same_onset(before, j, m, minus) && before[j].obs_uid == u;
                assert(same_but_for_the_mark(after[j], before[j]));
                assert(is_same_onset(after, j, m, minus) && after[j].obs_uid == u);
            }
            assert forall|j: int| #[trigger] is_same_onset(after, j, m, minus) implies
                after[j].obs_uid == before[j].obs_uid && is_same_onset(before, j, m, minus) by {
                assert(same_but_for_the_mark(after[j], before[j]));
            }
        } else {
            assert forall|j: int| !#[trigger] is_same_onset(after, j, m, minus) by {
                assert(!is_same_onset(before, j, m, minus));
            }
        }
    } else {
        assert(same_but_for_the_mark(before[m], v.observations[m]));
    }
    assert forall|b: int| 0 <= b < n implies knows_observation(
        after,
        (#[trigger] batch.observations[b]).obs_uid,
    ) by {
        assert(knows_observation(before, batch.observations[b].obs_uid));
        let j = choose|j: int|
            0 <= j < before.len() && (#[trigger] before[j]).obs_uid
                == batch.observations[b].obs_uid;
        assert(same_but_for_the_mark(after[j], before[j]));
        assert(after[j].obs_uid == batch.observations[b].obs_uid);
    }
}

/// What a batch has brought is corrected by the clock segments as they are.
pub proof fn reports_are_corrected(
    v: StoreView,
    batch: BatchInputView,
    payload: Seq<char>,
    received_at: Seq<char>,
    minus: Differences,
    m: int,
    k: int,
)
    requires
        !knows_batch(v.batches, batch.batch_uid),
        intake(v, batch, minus) is Ok,
        0 <= m < taken_in(v, batch, payload, received_at, minus).observations.len(),
        times(v.segments, k, taken_in(v, batch, payload, received_at, minus).observations[m]),
        forall|j: int| #[trigger]
            times(v.segments, j, taken_in(v, batch, payload, received_at, minus).observations[m])
                ==> j == k,
    ensures
        ({
            let o = taken_in(v, batch, payload, received_at, minus).observations[m];
            let t = minus.difference(o.local_onset_sec, v.segments[k].0.offset_sec);
            &&& !t.nan() ==> o.corrected_onset_sec == Some(t)
            &&& o.clock_segment_id == Some(v.segments[k].1 as i64)
            &&& o.clock_locked
        }),
{
    let w = taken_in(v, batch, payload, received_at, minus);
    let before = entered(v, batch, minus, batch.observations.len() as int)->Ok_0.observations;
    let o = before[m];
    assert(w.observations[m] == corrected(o, v.segments, minus));
    assert forall|j: int| #[trigger] times(v.segments, j, o) implies j == k by {
        assert(times(v.segments, j, w.observations[m]));
    }
    assert(times(v.segments, k, o));
    an_onset_is_corrected_by_what_times_it(o, v.segments, minus, k);
}

// ---------- Delays of a batch ----------

/// A row of the delays says what delay `j` of report `b` of a batch says. A
/// delay without a name has one made of the batch, the report, its number and
/// the peer.
pub open spec fn is_reported_delay(
    r: LagRecordView,
    batch: BatchInputView,
    b: int,
    j: int,
) -> bool {
    let o = batch.observations[b];
    let l = o.lags[j];
    &&& 0 <= b < batch.observations.len()
    &&& 0 <= j < o.lags.len()
    &&& r.event_id == batch.event_id
    &&& l.lag_uid is Some ==> r.lag.lag_uid == l.lag_uid->0
    &&& l.lag_uid is None ==> r.lag.lag_uid == "lag:"@ + batch.batch_uid + ":"@ + o.obs_uid + ":"@
        + decimal_text(j as nat) + ":"@ + l.peer_id
    &&& r.lag.obs_uid == o.obs_uid
    &&& r.lag.station_id == o.station_id
    &&& r.lag.peer_id == l.peer_id
    &&& r.lag.lag_sec == l.lag_sec
    &&& r.lag.peak_band_hz == l.peak_band_hz
    &&& r.lag.snr_db == l.snr_db
    &&& r.lag.hint == l.hint
    &&& !l.lag_sec.nan() && !l.peak_band_hz.nan() && !l.snr_db.nan()
}

/// A row of the delays says what a delay of one of the first `n` reports says.
pub open spec fn comes_with_a_report(r: LagRecordView, batch: BatchInputView, n: int) -> bool {
    exists|b: int, j: int| 0 <= b < n && #[trigger] is_reported_delay(r, batch, b, j)
}

proof fn delays_of_a_report(
    lags: Seq<LagRecordView>,
    stations: Seq<StationView>,
    batch: BatchInputView,
    idx: int,
    n: int,
)
    requires
        0 <= idx < batch.observations.len(),
        0 <= n <= batch.observations[idx].lags.len(),
        lags_entered(lags, stations, batch, idx, n) is Ok,
    ensures
        ({
            let now = lags_entered(lags, stations, batch, idx, n)->Ok_0;
            &&& now.len() >= lags.len()
            &&& forall|m: int| 0 <= m < lags.len() ==> #[trigger] now[m] == lags[m]
            &&& forall|m: int|
                lags.len() <= m < now.len() ==> comes_with_a_report(
                    #[trigger] now[m],
                    batch,
                    idx + 1,
                )
        }),
    decreases n,
{
    if n > 0 {
        delays_of_a_report(lags, stations, batch, idx, n - 1);
        let before = lags_entered(lags, stations, batch, idx, n - 1)->Ok_0;
        let now = lags_entered(lags, stations, batch, idx, n)->Ok_0;
        if now.len() > before.len() {
            assert(is_reported_delay(now[before.len() as int], batch, idx, n - 1));
            assert forall|m: int| lags.len() <= m < now.len() implies comes_with_a_report(
                #[trigger] now[m],
                batch,
                idx + 1,
            ) by {
                if m < before.len() {
                    assert(now[m] == before[m]);
                }
            }
        }
    }
}

proof fn delays_come_in(v: StoreView, batch: BatchInputView, minus: Differences, n: int)
    requires
        0 <= n <= batch.observations.len(),
        entered(v, batch, minus, n) is Ok,
    ensures
        ({
            let now = entered(v, batch, minus, n)->Ok_0.lags;
            &&& now.len() >= v.lags.len()
            &&& forall|m: int| 0 <= m < v.lags.len() ==> #[trigger] now[m] == v.lags[m]
            &&& forall|m: int|
                v.lags.len() <= m < now.len() ==> comes_with_a_report(#[trigger] now[m], batch, n)
        }),
    decreases n,
{
    if n > 0 {
        delays_come_in(v, batch, minus, n - 1);
        let t = entered(v, batch, minus, n - 1)->Ok_0;
        let now = entered(v, batch, minus, n)->Ok_0.lags;
        let o = batch.observations[n - 1];
        if !knows_observation(t.observations, o.obs_uid) {
            delays_of_a_report(t.lags, v.stations, batch, n - 1, o.lags.len() as int);
        }
        assert forall|m: int| v.lags.len() <= m < now.len() implies comes_with_a_report(
            #[trigger] now[m],
            batch,
            n,
        ) by {
            if m < t.lags.len() {
                assert(now[m] == t.lags[m]);
                assert(comes_with_a_report(t.lags[m], batch, n - 1));
                let (b, j) = choose|b: int, j: int|
                    0 <= b < n - 1 && #[trigger] is_reported_delay(t.lags[m], batch, b, j);
                assert(is_reported_delay(now[m], batch, b, j));
            }
        }
    }
}

/// A batch that is taken in brings delays: every new row says what a delay of
/// one of its reports says, from the station of the report to the peer of the
/// delay, and the rows that were there stay as they are.
pub proof fn delays_are_read_as_they_came(
    v: StoreView,
    batch: BatchInputView,
    payload: Seq<char>,
    received_at: Seq<char>,
    minus: Differences,
    m: int,
)
    requires
        !knows_batch(v.batches, batch.batch_uid),
        intake(v, batch, minus) is Ok,
        0 <= m < taken_in(v, batch, payload, received_at, minus).lags.len(),
    ensures
        ({
            let w = taken_in(v, batch, payload, received_at, minus);
            &&& w.lags.len() >= v.lags.len()
            &&& m < v.lags.len() ==> w.lags[m] == v.lags[m]
            &&& m >= v.lags.len() ==> comes_with_a_report(
                w.lags[m],
                batch,
                batch.observations.len() as int,
            )
        }),
{
    delays_come_in(v, batch, minus, batch.observations.len() as int);
}

/// A batch is noted with its name, its event, the fingerprint of its text and
/// the time, and every further time it comes it is counted and nothing else
/// changes.
pub proof fn batches_are_noted_and_counted(
    v: StoreView,
    batch: BatchInputView,
    payload: Seq<char>,
    received_at: Seq<char>,
    minus: Differences,
)
    ensures
        ({
            let w = taken_in(v, batch, payload, received_at, minus);
            let known = knows_batch(v.batches, batch.batch_uid);
            &&& known ==> w.batches.len() == v.batches.len() && forall|i: int|
                #![trigger w.batches[i]]
                0 <= i < v.batches.len() ==> {
                    &&& w.batches[i].batch_uid == v.batches[i].batch_uid
                    &&& w.batches[i].event_id == v.batches[i].event_id
                    &&& w.batches[i].payload_fingerprint == v.batches[i].payload_fingerprint
                    &&& w.batches[i].received_at == v.batches[i].received_at
                    &&& w.batches[i].duplicate_count == v.batches[i].duplicate_count + if
                        v.batches[i].batch_uid == batch.batch_uid && v.batches[i].duplicate_count
                        < i64::MAX {
                        1int
                    } else {
                        0int
                    }
                }
            &&& known ==> w.observations == v.observations && w.lags == v.lags
            &&& !known && intake(v, batch, minus) is Ok ==> {
                &&& w.batches.len() == v.batches.len() + 1
                &&& w.batches.last().batch_uid == batch.batch_uid
                &&& w.batches.last().event_id == batch.event_id
                &&& w.batches.last().payload_fingerprint == fingerprint(
                    vstd::utf8::encode_utf8(payload),
                )
                &&& w.batches.last().received_at == received_at
                &&& w.batches.last().duplicate_count == 0
                &&& forall|i: int| 0 <= i < v.batches.len() ==> #[trigger] w.batches[i]
                    == v.batches[i]
            }
            &&& !known && intake(v, batch, minus) is Err ==> w == v
            &&& w.stations == v.stations
            &&& w.segments == v.segments
            &&& w.events == v.events
            &&& w.evidence == v.evidence
            &&& w.jobs == v.jobs
            &&& w.candidates == v.candidates
        }),
{
}

/// A batch of an event that is not known changes nothing.
pub proof fn batches_of_unknown_events_are_refused(
    v: StoreView,
    batch: BatchInputView,
    payload: Seq<char>,
    received_at: Seq<char>,
    minus: Differences,
)
    requires
        !knows_batch(v.batches, batch.batch_uid),
        !knows_event(v.events, batch.event_id),
    ensures
        taken_in(v, batch, payload, received_at, minus) == v,
{
}

/// A report has all its numbers, a station that is known, and peers that are
/// known.
pub open spec fn is_in_order(v: StoreView, o: ObservationInputView) -> bool {
    &&& !o.local_onset_sec.nan() && !o.peak_band_hz.nan() && !o.snr_db.nan()
    &&& knows_station(v.stations, o.station_id)
    &&& forall|j: int|
        0 <= j < o.lags.len() ==> knows_station(v.stations, (#[trigger] o.lags[j]).peer_id)
}

proof fn delays_in_order_come_in(
    lags: Seq<LagRecordView>,
    v: StoreView,
    batch: BatchInputView,
    idx: int,
    n: int,
)
    requires
        0 <= idx < batch.observations.len(),
        0 <= n <= batch.observations[idx].lags.len(),
        is_in_order(v, batch.observations[idx]),
    ensures
        lags_entered(lags, v.stations, batch, idx, n) is Ok,
    decreases n,
{
    if n > 0 {
        delays_in_order_come_in(lags, v, batch, idx, n - 1);
        assert(knows_station(v.stations, batch.observations[idx].lags[n - 1].peer_id));
    }
}

proof fn reports_in_order_come_in(v: StoreView, batch: BatchInputView, minus: Differences, n: int)
    requires
        0 <= n <= batch.observations.len(),
        forall|b: int|
            0 <= b < batch.observations.len() ==> is_in_order(
                v,
                #[trigger] batch.observations[b],
            ),
    ensures
        entered(v, batch, minus, n) is Ok,
    decreases n,
{
    if n > 0 {
        reports_in_order_come_in(v, batch, minus, n - 1);
        let t = entered(v, batch, minus, n - 1)->Ok_0;
        let o = batch.observations[n - 1];
        assert(is_in_order(v, o));
        delays_in_order_come_in(t.lags, v, batch, n - 1, o.lags.len() as int);
    }
}

/// A batch of a known event whose reports are all in order is not refused.
pub proof fn batches_in_order_come_in(v: StoreView, batch: BatchInputView, minus: Differences)
    requires
        knows_event(v.events, batch.event_id),
        forall|b: int|
            0 <= b < batch.observations.len() ==> is_in_order(
                v,
                #[trigger] batch.observations[b],
            ),
    ensures
        intake(v, batch, minus) is Ok,
{
    reports_in_order_come_in(v, batch, minus, batch.observations.len() as int);
}

/// A batch whose first report is new and lacks a number, or comes from a station
/// that is not known, is refused.
pub proof fn a_first_report_out_of_order_is_refused(
    v: StoreView,
    batch: BatchInputView,
    minus: Differences,
)
    requires
        batch.observations.len() > 0,
        !knows_observation(v.observations, batch.observations[0].obs_uid),
        batch.observations[0].local_onset_sec.nan() || batch.observations[0].peak_band_hz.nan()
            || batch.observations[0].snr_db.nan() || !knows_station(
            v.stations,
            batch.observations[0].station_id,
        ),
    ensures
        intake(v, batch, minus) is Err,
{
    assert(entered(v, batch, minus, 0) is Ok);
    assert(entered(v, batch, minus, 1) is Err);
    refusals_stay(v, batch, minus, 1, batch.observations.len() as int);
}

proof fn refusals_stay(v: StoreView, batch: BatchInputView, minus: Differences, m: int, n: int)
    requires
        0 <= m <= n,
        entered(v, batch, minus, m) is Err,
    ensures
        entered(v, batch, minus, n) is Err,
    decreases n - m,
{
    if m < n {
        refusals_stay(v, batch, minus, m, n - 1);
    }
}

// ---------- Jobs ----------

proof fn the_states_are_four()
    ensures
        "pending"@ != "running"@,
        "pending"@ != "completed"@,
        "pending"@ != "failed"@,
        "running"@ != "completed"@,
        "running"@ != "failed"@,
        "completed"@ != "failed"@,
{
    reveal_strlit("pending");
    reveal_strlit("running");
    reveal_strlit("completed");
    reveal_strlit("failed");
    assert("pending"@[0] == 'p');
    assert("running"@[0] == 'r');
    assert("completed"@[0] == 'c');
    assert("failed"@[0] == 'f');
}

/// Two rows of jobs have the same number, event, fingerprint and time of entry.
pub open spec fn same_task(a: JobRecordView, b: JobRecordView) -> bool {
    &&& a.job.job_id == b.job.job_id
    &&& a.job.event_id == b.job.event_id
    &&& a.job.fingerprint == b.job.fingerprint
    &&& a.job.created_at == b.job.created_at
}

/// A task that no job has, or only jobs that have failed, gets a new job: it
/// waits, has the next number, and holds what it was asked with.
pub proof fn a_new_task_waits(
    v: StoreView,
    event_id: Seq<char>,
    fingerprint: Seq<char>,
    created_at: Seq<char>,
)
    requires
        v.last_job < i64::MAX,
        knows_event(v.events, event_id),
        forall|i: int|
            0 <= i < v.jobs.len() && (#[trigger] v.jobs[i]).job.event_id == event_id
                && v.jobs[i].job.fingerprint == fingerprint ==> v.jobs[i].job.status == "failed"@,
    ensures
        ({
            let w = enqueued(v, event_id, fingerprint, created_at);
            let j = w.jobs.last();
            &&& w.jobs.len() == v.jobs.len() + 1
            &&& w.last_job == v.last_job + 1
            &&& j.job.job_id == v.last_job + 1
            &&& j.job.event_id == event_id
            &&& j.job.status == "pending"@
            &&& j.job.fingerprint == fingerprint
            &&& j.job.error is None
            &&& j.job.created_at == created_at
            &&& j.finished_at is None
            &&& forall|i: int| 0 <= i < v.jobs.len() ==> #[trigger] w.jobs[i] == v.jobs[i]
        }),
{
    the_states_are_four();
    nothing_has_the_task(v.jobs, event_id, fingerprint);
}

proof fn nothing_has_the_task(
    jobs: Seq<JobRecordView>,
    event_id: Seq<char>,
    fingerprint: Seq<char>,
)
    requires
        forall|i: int|
            0 <= i < jobs.len() && (#[trigger] jobs[i]).job.event_id == event_id
                && jobs[i].job.fingerprint == fingerprint ==> jobs[i].job.status == "failed"@,
    ensures
        crate::jobs::last_picked(
            jobs,
            |j: JobRecordView| crate::jobs::does(j, event_id, fingerprint),
        ) is None,
    decreases jobs.len(),
{
    the_states_are_four();
    if jobs.len() > 0 {
        assert(jobs[jobs.len() - 1] == jobs.last());
        nothing_has_the_task(jobs.drop_last(), event_id, fingerprint);
    }
}

/// A task that a job has which has not failed gets no other job.
pub proof fn a_task_that_is_under_way_gets_no_job(
    v: StoreView,
    event_id: Seq<char>,
    fingerprint: Seq<char>,
    created_at: Seq<char>,
    i: int,
)
    requires
        0 <= i < v.jobs.len(),
        v.jobs[i].job.event_id == event_id,
        v.jobs[i].job.fingerprint == fingerprint,
        v.jobs[i].job.status == "pending"@ || v.jobs[i].job.status == "running"@
            || v.jobs[i].job.status == "completed"@,
    ensures
        enqueued(v, event_id, fingerprint, created_at) == v,
        job_for(v, event_id, fingerprint) is Some,
{
    something_has_the_task(v.jobs, event_id, fingerprint, i);
}

proof fn something_has_the_task(
    jobs: Seq<JobRecordView>,
    event_id: Seq<char>,
    fingerprint: Seq<char>,
    i: int,
)
    requires
        0 <= i < jobs.len(),
        jobs[i].job.event_id == event_id,
        jobs[i].job.fingerprint == fingerprint,
        jobs[i].job.status == "pending"@ || jobs[i].job.status == "running"@ || jobs[i].job.status
            == "completed"@,
    ensures
        crate::jobs::last_picked(
            jobs,
            |j: JobRecordView| crate::jobs::does(j, event_id, fingerprint),
        ) is Some,
    decreases jobs.len(),
{
    if i < jobs.len() - 1 {
        something_has_the_task(jobs.drop_last(), event_id, fingerprint, i);
    }
}

/// When the next job is claimed, the first that waits or had been left running
/// runs; every other one that had been left running waits again, with a note
/// of it; no job changes its task; and nothing but jobs and candidates changes.
pub proof fn the_first_that_waits_is_claimed(v: StoreView, k: int)
    requires
        forall|i: int, j: int|
            0 <= i < j < v.jobs.len() ==> (#[trigger] v.jobs[i]).job.job_id != (
            #[trigger] v.jobs[j]).job.job_id,
        0 <= k < v.jobs.len(),
        v.jobs[k].job.status == "pending"@ || v.jobs[k].job.status == "running"@,
        forall|i: int|
            0 <= i < k ==> (#[trigger] v.jobs[i]).job.status != "pending"@ && v.jobs[i].job.status
                != "running"@,
    ensures
        ({
            let w = claimed(v);
            &&& w.jobs.len() == v.jobs.len()
            &&& w.jobs[k].job.status == "running"@
            &&& w.jobs[k].job.error is None
            &&& forall|i: int|
                #![trigger w.jobs[i]]
                0 <= i < v.jobs.len() ==> same_task(w.jobs[i], v.jobs[i]) && w.jobs[i].finished_at
                    == v.jobs[i].finished_at
            &&& forall|i: int|
                #![trigger w.jobs[i]]
                0 <= i < v.jobs.len() && i != k && v.jobs[i].job.status == "running"@
                    ==> w.jobs[i].job.status == "pending"@ && w.jobs[i].job.error == Some(
                    "recovered after crash"@,
                )
            &&& forall|i: int|
                #![trigger w.jobs[i]]
                0 <= i < v.jobs.len() && i != k && v.jobs[i].job.status != "running"@ ==> w.jobs[i]
                    == v.jobs[i]
            &&& w == (StoreView { jobs: w.jobs, candidates: w.candidates, ..v })
        }),
{
    the_states_are_four();
    let jobs = recovered(v.jobs);
    assert forall|i: int| 0 <= i < k implies (#[trigger] jobs[i]).job.status != "pending"@ by {
        assert(v.jobs[i].job.status != "pending"@);
    }
    assert(jobs[k].job.status == "pending"@);
    first_waiting_is(jobs, k);
    let w = claimed(v);
    assert forall|i: int| 0 <= i < v.jobs.len() && i != k implies (
    #[trigger] jobs[i]).job.job_id != jobs[k].job.job_id by {
        if i < k {
            assert(v.jobs[i].job.job_id != v.jobs[k].job.job_id);
        } else {
            assert(v.jobs[k].job.job_id != v.jobs[i].job.job_id);
        }
    }
}

proof fn first_waiting_is(jobs: Seq<JobRecordView>, k: int)
    requires
        0 <= k < jobs.len(),
        jobs[k].job.status == "pending"@,
        forall|i: int| 0 <= i < k ==> (#[trigger] jobs[i]).job.status != "pending"@,
    ensures
        next_waiting(jobs) == Some(jobs[k].job.job_id),
    decreases jobs.len(),
{
    if k > 0 {
        let rest = jobs.drop_first();
        assert(rest[k - 1] == jobs[k]);
        assert forall|i: int| 0 <= i < k - 1 implies (#[trigger] rest[i]).job.status
            != "pending"@ by {
            assert(rest[i] == jobs[i + 1]);
        }
        assert(jobs[0].job.status != "pending"@);
        first_waiting_is(rest, k - 1);
    }
}

/// A job that ends has the state and the error that it ended with and the time,
/// keeps its task, and no other job changes.
pub proof fn a_job_ends_once(
    jobs: Seq<JobRecordView>,
    id: int,
    status: Seq<char>,
    error: Option<Seq<char>>,
    finished_at: Seq<char>,
    i: int,
)
    requires
        0 <= i < jobs.len(),
    ensures
        ({
            let now = ended(jobs, id, status, error, finished_at);
            &&& now.len() == jobs.len()
            &&& same_task(now[i], jobs[i])
            &&& jobs[i].job.job_id == id ==> now[i].job.status == status && now[i].job.error
                == error && now[i].finished_at == Some(finished_at)
            &&& jobs[i].job.job_id != id ==> now[i] == jobs[i]
        }),
{
}

/// A job whose candidates are all written is completed, without an error and
/// with the time; every other job stays as it is, and so do all other tables.
pub proof fn a_job_is_completed_with_its_candidates(
    v: StoreView,
    job_id: int,
    list: Seq<CandidateView>,
    finished_at: Seq<char>,
    i: int,
)
    requires
        0 <= i < v.jobs.len(),
        written(v, list, job_id, list.len() as int) is Ok,
    ensures
        ({
            let w = completed(v, job_id, list, finished_at);
            &&& w.jobs.len() == v.jobs.len()
            &&& same_task(w.jobs[i], v.jobs[i])
            &&& v.jobs[i].job.job_id == job_id ==> w.jobs[i].job.status == "completed"@
                && w.jobs[i].job.error is None && w.jobs[i].finished_at == Some(finished_at)
            &&& v.jobs[i].job.job_id != job_id ==> w.jobs[i] == v.jobs[i]
            &&& w == (StoreView { jobs: w.jobs, candidates: w.candidates, ..v })
        }),
{
}

// ---------- Evidence ----------

/// Evidence that is appended says what it was given with, is active, and is
/// superseded by nothing.
pub proof fn evidence_says_what_it_was_given_with(
    v: StoreView,
    event_id: Seq<char>,
    kind: Seq<char>,
    payload: JsonView,
    basis: Seq<char>,
    created_at: Seq<char>,
)
    ensures
        ({
            let e = new_evidence(v, event_id, kind, payload, basis, created_at);
            &&& e.event_id == event_id
            &&& e.kind == kind
            &&& e.payload == payload
            &&& e.basis == basis
            &&& e.created_at == created_at
            &&& e.active
            &&& e.superseded_by is None
        }),
{
}

} // verus!
