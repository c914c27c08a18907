//! What the fingerprint of a picture is taken of tells pictures apart.
use vstd::prelude::*;

use crate::canon::{canonical_text, Decimals, Quoting};
use crate::canon_laws::{
    comma_free, keys_agree, keys_differ, one_other_item_shows, one_other_member_shows,
    other_members_without_commas_show, other_texts_are_other_bytes,
    other_texts_are_quoted_differently, quoting_brings_no_comma,
};
use crate::double::Double;
use crate::store_laws::padded_text_reads_back;
use crate::text::{decimal_text, signed_text};
use crate::workbench::jobs::{
    clock_items, edge_json, lock_json, segment_json, snapshot_json, station_json,
};
use crate::workbench::laws::hashed;
use crate::workbench::models::ClockSegmentView;
use crate::workbench::snapshot::{
    EdgeObsView, LockView, SnapshotView, StationClockView, StationInfoView,
};

verus! {

proof fn snapshot_keys_differ(s: SnapshotView)
    ensures
        keys_differ(snapshot_json(s)->Object_0),
{
    reveal_strlit("event");
    reveal_strlit("t_mid");
    reveal_strlit("sound_speed");
    reveal_strlit("radius");
    reveal_strlit("stations");
    reveal_strlit("segments");
    reveal_strlit("edges");
    reveal_strlit("excluded");
    reveal_strlit("locked");
    reveal_strlit("kept_pairs");
    assert("event"@.len() == 5 && "t_mid"@.len() == 5 && "edges"@.len() == 5);
    assert("event"@[0] == 'e' && "t_mid"@[0] == 't' && "edges"@[0] == 'e');
    assert("event"@[1] == 'v' && "edges"@[1] == 'd');
    assert("radius"@.len() == 6 && "locked"@.len() == 6);
    assert("radius"@[0] == 'r' && "locked"@[0] == 'l');
    assert("stations"@.len() == 8 && "segments"@.len() == 8 && "excluded"@.len() == 8);
    assert("stations"@[0] == 's' && "segments"@[0] == 's' && "excluded"@[0] == 'e');
    assert("stations"@[1] == 't' && "segments"@[1] == 'e');
    assert("sound_speed"@.len() == 11 && "kept_pairs"@.len() == 10);
}

proof fn another_part_shows(s: SnapshotView, t: SnapshotView, m: int, d: Decimals)
    requires
        0 <= m < 10,
        forall|i: int|
            0 <= i < 10 && i != m ==> #[trigger] snapshot_json(s)->Object_0[i]
                == snapshot_json(t)->Object_0[i],
        canonical_text(snapshot_json(s)->Object_0[m].1, d, Quoting::Plain) != canonical_text(
            snapshot_json(t)->Object_0[m].1,
            d,
            Quoting::Plain,
        ),
    ensures
        hashed(s, d) != hashed(t, d),
{
    let x = snapshot_json(s)->Object_0;
    let y = snapshot_json(t)->Object_0;
    snapshot_keys_differ(s);
    assert(keys_agree(x, y));
    one_other_member_shows(x, y, m, d, Quoting::Plain);
    other_texts_are_other_bytes(
        canonical_text(snapshot_json(s), d, Quoting::Plain),
        canonical_text(snapshot_json(t), d, Quoting::Plain),
    );
}

/// Two pictures that differ in the middle of the window, in the speed of sound
/// or in the radius alone, so that it is written differently, are hashed
/// differently.
pub proof fn the_numbers_of_a_picture_show(s: SnapshotView, t: SnapshotView, d: Decimals)
    requires
        t == (SnapshotView {
            t_mid: t.t_mid,
            sound_speed: t.sound_speed,
            observable_radius: t.observable_radius,
            ..s
        }),
        ({
            ||| d.written(s.t_mid) != d.written(t.t_mid) && s.sound_speed == t.sound_speed
                && s.observable_radius == t.observable_radius
            ||| s.t_mid == t.t_mid && d.written(s.sound_speed) != d.written(t.sound_speed)
                && s.observable_radius == t.observable_radius
            ||| s.t_mid == t.t_mid && s.sound_speed == t.sound_speed && d.written(
                s.observable_radius,
            ) != d.written(t.observable_radius)
        }),
    ensures
        hashed(s, d) != hashed(t, d),
{
    if d.written(s.t_mid) != d.written(t.t_mid) {
        another_part_shows(s, t, 1, d);
    } else if d.written(s.sound_speed) != d.written(t.sound_speed) {
        another_part_shows(s, t, 2, d);
    } else {
        another_part_shows(s, t, 3, d);
    }
}

/// Two pictures of events with different names are hashed differently.
pub proof fn the_event_of_a_picture_shows(s: SnapshotView, t: SnapshotView, d: Decimals)
    requires
        t == (SnapshotView { event_id: t.event_id, ..s }),
        s.event_id != t.event_id,
    ensures
        hashed(s, d) != hashed(t, d),
{
    other_texts_are_quoted_differently(s.event_id, t.event_id, Quoting::Plain);
    another_part_shows(s, t, 0, d);
}

/// Two pictures that agree in all but one station, which has another name or
/// another place so that it is written differently, are hashed differently.
pub proof fn a_station_of_a_picture_shows(
    s: SnapshotView,
    t: SnapshotView,
    k: int,
    d: Decimals,
)
    requires
        0 <= k < s.stations.len(),
        t == (SnapshotView { stations: s.stations.update(k, t.stations[k]), ..s }),
        ({
            let a = s.stations[k];
            let b = t.stations[k];
            ||| a.station_id != b.station_id && a.x == b.x && a.y == b.y
            ||| a.station_id == b.station_id && comma_free(d.written(a.x)) && comma_free(
                d.written(a.y),
            ) && comma_free(d.written(b.x)) && comma_free(d.written(b.y)) && (d.written(a.x)
                != d.written(b.x) || d.written(a.y) != d.written(b.y))
            ||| a.station_id == b.station_id && d.written(a.x) != d.written(b.x) && a.y == b.y
            ||| a.station_id == b.station_id && a.x == b.x && d.written(a.y) != d.written(b.y)
        }),
    ensures
        hashed(s, d) != hashed(t, d),
{
    let a = s.stations[k];
    let b = t.stations[k];
    let x = station_json(a)->Object_0;
    let y = station_json(b)->Object_0;
    reveal_strlit("id");
    reveal_strlit("x");
    reveal_strlit("y");
    assert("id"@.len() == 2 && "x"@[0] == 'x' && "y"@[0] == 'y');
    quoting_brings_no_comma("x"@, Quoting::Plain);
    quoting_brings_no_comma("y"@, Quoting::Plain);
    assert(keys_differ(x));
    assert(keys_agree(x, y));
    if a.station_id != b.station_id {
        other_texts_are_quoted_differently(a.station_id, b.station_id, Quoting::Plain);
        one_other_member_shows(x, y, 0, d, Quoting::Plain);
    } else {
        let m: int = if d.written(a.x) != d.written(b.x) {
            1
        } else {
            2
        };
        if a.x == b.x || a.y == b.y {
            one_other_member_shows(x, y, m, d, Quoting::Plain);
        } else {
            other_members_without_commas_show(x, y, m, d, Quoting::Plain);
        }
    }
    let f = |v: StationInfoView| station_json(v);
    one_other_item_shows(
        s.stations.map_values(f),
        t.stations.map_values(f),
        k,
        d,
        Quoting::Plain,
    );
    another_part_shows(s, t, 4, d);
}

proof fn other_numbers_are_written_differently(m: int, n: int)
    requires
        m != n,
    ensures
        signed_text(m) != signed_text(n),
{
    let a: nat = if m < 0 {
        (-m) as nat
    } else {
        m as nat
    };
    let b: nat = if n < 0 {
        (-n) as nat
    } else {
        n as nat
    };
    padded_text_reads_back(a, 0);
    padded_text_reads_back(b, 0);
    decimals_begin_with_a_digit(a);
    decimals_begin_with_a_digit(b);
    if signed_text(m) == signed_text(n) {
        if m < 0 && n < 0 {
            assert(signed_text(m).drop_first() =~= decimal_text(a));
            assert(signed_text(n).drop_first() =~= decimal_text(b));
        } else if m < 0 {
            assert(signed_text(m)[0] == '-');
        } else if n < 0 {
            assert(signed_text(n)[0] == '-');
        }
    }
}

proof fn decimals_begin_with_a_digit(n: nat)
    ensures
        decimal_text(n).len() > 0,
        decimal_text(n)[0] != '-',
    decreases n,
{
    if n >= 10 {
        decimals_begin_with_a_digit(n / 10);
    }
}

/// Two edges differ in exactly one of what is hashed of them: a station, the
/// delay, the uncertainty, the number of the peak, whether it may be a
/// reflected path, or where it comes from.
pub open spec fn edges_differ_in_one(e: EdgeObsView, f: EdgeObsView, d: Decimals) -> bool {
    ||| f == (EdgeObsView { station_a: f.station_a, ..e }) && e.station_a != f.station_a
    ||| f == (EdgeObsView { station_b: f.station_b, ..e }) && e.station_b != f.station_b
    ||| f == (EdgeObsView { delay_s: f.delay_s, ..e }) && d.written(e.delay_s) != d.written(
        f.delay_s,
    )
    ||| f == (EdgeObsView { sigma_s: f.sigma_s, ..e }) && d.written(e.sigma_s) != d.written(
        f.sigma_s,
    )
    ||| f == (EdgeObsView { peak_index: f.peak_index, ..e }) && e.peak_index != f.peak_index
    ||| f == (EdgeObsView { multipath: f.multipath, ..e }) && e.multipath != f.multipath
    ||| f == (EdgeObsView { origin: f.origin, ..e }) && e.origin != f.origin
}

/// Two pictures that agree in all but one of what is hashed of one edge are
/// hashed differently.
pub proof fn an_edge_of_a_picture_shows(s: SnapshotView, t: SnapshotView, k: int, d: Decimals)
    requires
        0 <= k < s.edges.len(),
        t == (SnapshotView { edges: s.edges.update(k, t.edges[k]), ..s }),
        edges_differ_in_one(s.edges[k], t.edges[k], d),
    ensures
        hashed(s, d) != hashed(t, d),
{
    let e = s.edges[k];
    let g = t.edges[k];
    let x = edge_json(e)->Object_0;
    let y = edge_json(g)->Object_0;
    reveal_strlit("a");
    reveal_strlit("b");
    reveal_strlit("delay");
    reveal_strlit("sigma");
    reveal_strlit("peak");
    reveal_strlit("mp");
    reveal_strlit("origin");
    reveal_strlit("xc");
    reveal_strlit("true");
    reveal_strlit("false");
    assert("a"@[0] == 'a' && "b"@[0] == 'b' && "a"@.len() == 1 && "b"@.len() == 1);
    assert("delay"@.len() == 5 && "sigma"@.len() == 5 && "delay"@[0] == 'd' && "sigma"@[0] == 's');
    assert("peak"@.len() == 4 && "mp"@.len() == 2 && "xc"@.len() == 2 && "origin"@.len() == 6);
    assert("mp"@[0] == 'm' && "xc"@[0] == 'x');
    assert("true"@.len() == 4 && "false"@.len() == 5);
    assert(keys_differ(x));
    assert(keys_agree(x, y));
    if e.station_a != g.station_a {
        other_texts_are_quoted_differently(e.station_a, g.station_a, Quoting::Plain);
        one_other_member_shows(x, y, 0, d, Quoting::Plain);
    } else if e.station_b != g.station_b {
        other_texts_are_quoted_differently(e.station_b, g.station_b, Quoting::Plain);
        one_other_member_shows(x, y, 1, d, Quoting::Plain);
    } else if d.written(e.delay_s) != d.written(g.delay_s) {
        one_other_member_shows(x, y, 2, d, Quoting::Plain);
    } else if d.written(e.sigma_s) != d.written(g.sigma_s) {
        one_other_member_shows(x, y, 3, d, Quoting::Plain);
    } else if e.peak_index != g.peak_index {
        other_numbers_are_written_differently(e.peak_index, g.peak_index);
        one_other_member_shows(x, y, 4, d, Quoting::Plain);
    } else if e.multipath != g.multipath {
        one_other_member_shows(x, y, 5, d, Quoting::Plain);
    } else {
        other_texts_are_quoted_differently(e.origin, g.origin, Quoting::Plain);
        one_other_member_shows(x, y, 6, d, Quoting::Plain);
    }
    let f = |v: EdgeObsView| edge_json(v);
    one_other_item_shows(s.edges.map_values(f), t.edges.map_values(f), k, d, Quoting::Plain);
    another_part_shows(s, t, 6, d);
}

/// Two pictures that agree in all but the offset or the uncertainty of one lock,
/// or the station that it is of, are hashed differently.
pub proof fn a_lock_of_a_picture_shows(s: SnapshotView, t: SnapshotView, k: int, d: Decimals)
    requires
        0 <= k < s.locks.len(),
        t == (SnapshotView { locks: s.locks.update(k, t.locks[k]), ..s }),
        ({
            let a = s.locks[k];
            let b = t.locks[k];
            ||| b == (LockView { station_id: b.station_id, ..a }) && a.station_id != b.station_id
            ||| b == (LockView { offset_s: b.offset_s, ..a }) && d.written(a.offset_s)
                != d.written(b.offset_s)
            ||| b == (LockView { sigma_s: b.sigma_s, ..a }) && d.written(a.sigma_s) != d.written(
                b.sigma_s,
            )
        }),
    ensures
        hashed(s, d) != hashed(t, d),
{
    let a = s.locks[k];
    let b = t.locks[k];
    let x = lock_json(a)->Object_0;
    let y = lock_json(b)->Object_0;
    reveal_strlit("station");
    reveal_strlit("offset");
    reveal_strlit("sigma");
    assert("station"@.len() == 7 && "offset"@.len() == 6 && "sigma"@.len() == 5);
    assert(keys_differ(x));
    assert(keys_agree(x, y));
    if a.station_id != b.station_id {
        other_texts_are_quoted_differently(a.station_id, b.station_id, Quoting::Plain);
        one_other_member_shows(x, y, 0, d, Quoting::Plain);
    } else if d.written(a.offset_s) != d.written(b.offset_s) {
        one_other_member_shows(x, y, 1, d, Quoting::Plain);
    } else {
        one_other_member_shows(x, y, 2, d, Quoting::Plain);
    }
    let f = |v: LockView| lock_json(v);
    one_other_item_shows(s.locks.map_values(f), t.locks.map_values(f), k, d, Quoting::Plain);
    another_part_shows(s, t, 8, d);
}

/// How a number that need not be there is written.
pub open spec fn number_text(o: Option<Double>, d: Decimals) -> Seq<char> {
    match o {
        Some(f) => d.written(f),
        None => "null"@,
    }
}

/// Two clock segments differ in exactly one of what is hashed of them: the
/// start, the end, the offset or the uncertainty.
pub open spec fn segments_differ_in_one(
    a: ClockSegmentView,
    b: ClockSegmentView,
    d: Decimals,
) -> bool {
    ||| b == (ClockSegmentView { start_s: b.start_s, ..a }) && d.written(a.start_s) != d.written(
        b.start_s,
    )
    ||| b == (ClockSegmentView { end_s: b.end_s, ..a }) && number_text(a.end_s, d) != number_text(
        b.end_s,
        d,
    )
    ||| b == (ClockSegmentView { offset_s: b.offset_s, ..a }) && d.written(a.offset_s)
        != d.written(b.offset_s)
    ||| b == (ClockSegmentView { sigma_s: b.sigma_s, ..a }) && d.written(a.sigma_s) != d.written(
        b.sigma_s,
    )
}

proof fn another_segment_is_another_item(
    a: Seq<StationClockView>,
    b: Seq<StationClockView>,
    k: int,
    m: int,
    d: Decimals,
) -> (at: int)
    requires
        a.len() == b.len(),
        0 <= k < a.len(),
        forall|i: int| 0 <= i < a.len() && i != k ==> #[trigger] a[i] == b[i],
        a[k].station_id == b[k].station_id,
        0 <= m < a[k].segments.len(),
        b[k].segments == a[k].segments.update(m, b[k].segments[m]),
    ensures
        clock_items(a).len() == clock_items(b).len(),
        0 <= at < clock_items(a).len(),
        forall|i: int|
            0 <= i < clock_items(a).len() && i != at ==> #[trigger] clock_items(a)[i]
                == clock_items(b)[i],
        clock_items(a)[at] == segment_json(a[k].station_id, a[k].segments[m]),
        clock_items(b)[at] == segment_json(b[k].station_id, b[k].segments[m]),
    decreases a.len(),
{
    let n = a.len() - 1;
    let ra = a.drop_last();
    let rb = b.drop_last();
    let pa = clock_items(ra);
    let pb = clock_items(rb);
    let la = a[n].segments.map_values(|s: ClockSegmentView| segment_json(a[n].station_id, s));
    let lb = b[n].segments.map_values(|s: ClockSegmentView| segment_json(b[n].station_id, s));
    assert(clock_items(a) == pa + la);
    assert(clock_items(b) == pb + lb);
    if k < n {
        assert forall|i: int| 0 <= i < ra.len() && i != k implies #[trigger] ra[i] == rb[i] by {
            assert(a[i] == b[i]);
        }
        let at = another_segment_is_another_item(ra, rb, k, m, d);
        assert(a[n] == b[n]);
        assert(la =~= lb);
        assert forall|i: int| 0 <= i < (pa + la).len() && i != at implies #[trigger] (pa + la)[i]
            == (pb + lb)[i] by {
            if i < pa.len() {
                assert(pa[i] == pb[i]);
            }
        }
        at
    } else {
        assert(ra =~= rb) by {
            assert forall|i: int| 0 <= i < ra.len() implies ra[i] == rb[i] by {
                assert(a[i] == b[i]);
            }
        }
        let at = pa.len() + m;
        assert forall|i: int| 0 <= i < (pa + la).len() && i != at implies #[trigger] (pa + la)[i]
            == (pb + lb)[i] by {
            if i >= pa.len() {
                let j = i - pa.len();
                assert(a[n].segments[j] == b[n].segments[j]);
            }
        }
        at
    }
}

/// Two pictures that agree in all but one of what is hashed of one clock segment
/// are hashed differently.
pub proof fn a_segment_of_a_picture_shows(
    s: SnapshotView,
    t: SnapshotView,
    k: int,
    m: int,
    d: Decimals,
)
    requires
        0 <= k < s.segments.len(),
        t == (SnapshotView { segments: s.segments.update(k, t.segments[k]), ..s }),
        t.segments[k].station_id == s.segments[k].station_id,
        0 <= m < s.segments[k].segments.len(),
        t.segments[k].segments == s.segments[k].segments.update(m, t.segments[k].segments[m]),
        segments_differ_in_one(s.segments[k].segments[m], t.segments[k].segments[m], d),
    ensures
        hashed(s, d) != hashed(t, d),
{
    let id = s.segments[k].station_id;
    let a = s.segments[k].segments[m];
    let b = t.segments[k].segments[m];
    let x = segment_json(id, a)->Object_0;
    let y = segment_json(id, b)->Object_0;
    reveal_strlit("station");
    reveal_strlit("start");
    reveal_strlit("end");
    reveal_strlit("offset");
    reveal_strlit("sigma");
    assert("station"@.len() == 7 && "start"@.len() == 5 && "end"@.len() == 3);
    assert("offset"@.len() == 6 && "sigma"@.len() == 5);
    assert("start"@[1] == 't' && "sigma"@[1] == 'i');
    assert(keys_differ(x));
    assert(keys_agree(x, y));
    if d.written(a.start_s) != d.written(b.start_s) {
        one_other_member_shows(x, y, 1, d, Quoting::Plain);
    } else if number_text(a.end_s, d) != number_text(b.end_s, d) {
        one_other_member_shows(x, y, 2, d, Quoting::Plain);
    } else if d.written(a.offset_s) != d.written(b.offset_s) {
        one_other_member_shows(x, y, 3, d, Quoting::Plain);
    } else {
        one_other_member_shows(x, y, 4, d, Quoting::Plain);
    }
    let at = another_segment_is_another_item(s.segments, t.segments, k, m, d);
    one_other_item_shows(
        clock_items(s.segments),
        clock_items(t.segments),
        at,
        d,
        Quoting::Plain,
    );
    another_part_shows(s, t, 5, d);
}

} // verus!
