//! What the fingerprint of a solver's input is taken of tells inputs apart.
use vstd::prelude::*;
use vstd::utf8::encode_utf8;

use crate::canon::{canonical_text, quoted_text, Decimals, Quoting};
use crate::canon_laws::{
    comma_free, keys_agree, keys_differ, one_other_item_shows, one_other_member_shows,
    other_items_without_commas_show, other_members_without_commas_show,
    other_texts_are_other_bytes, other_texts_are_quoted_differently, quoting_brings_no_comma,
};
use crate::double::Double;
use crate::model::{
    evidencerow_views, lagrow_views, observationrow_views, opt_text, station_views, ClockSegment,
    EvidenceRow, LagRow, ObservationRow, SiteBounds, Station,
};
use crate::solver::{
    bounds_json, evidence_json, id_order, id_order_is_in_range, input_json, lag_json,
    observation_json, segment_ids, segment_json, segments_json, slot_for, station_json,
    SolverEvent, SolverInput,
};
use crate::store::segment_views;

verus! {

/// What the fingerprint of an input is taken of.
pub open spec fn hashed(input: SolverInput, d: Decimals) -> Seq<u8> {
    encode_utf8(canonical_text(input_json(input), d, Quoting::Full))
}

/// How a number that need not be there is written.
pub open spec fn number_text(o: Option<Double>, d: Decimals) -> Seq<char> {
    match o {
        Some(f) => d.written(f),
        None => "null"@,
    }
}

/// Two events have the same name, speed of sound and bounds.
pub open spec fn events_agree(a: SolverEvent, b: SolverEvent) -> bool {
    &&& a.event_id@ == b.event_id@
    &&& a.sound_speed_mps == b.sound_speed_mps
    &&& a.bounds == b.bounds
}

proof fn input_keys_differ(a: SolverInput)
    ensures
        keys_differ(input_json(a)->Object_0),
{
    reveal_strlit("solver_version");
    reveal_strlit("event_id");
    reveal_strlit("sound_speed_mps");
    reveal_strlit("bounds");
    reveal_strlit("stations");
    reveal_strlit("clock_segments");
    reveal_strlit("observations");
    reveal_strlit("lags");
    reveal_strlit("evidence");
    assert("solver_version"@[0] == 's' && "clock_segments"@[0] == 'c');
    assert("event_id"@[0] == 'e' && "stations"@[0] == 's' && "evidence"@[0] == 'e');
    assert("event_id"@[2] == 'e' && "evidence"@[2] == 'i');
    assert("solver_version"@.len() == 14 && "clock_segments"@.len() == 14);
    assert("event_id"@.len() == 8 && "stations"@.len() == 8 && "evidence"@.len() == 8);
    assert("sound_speed_mps"@.len() == 15 && "bounds"@.len() == 6);
    assert("observations"@.len() == 12 && "lags"@.len() == 4);
}

proof fn another_part_shows(a: SolverInput, b: SolverInput, m: int, d: Decimals)
    requires
        0 <= m < 9,
        forall|i: int|
            0 <= i < 9 && i != m ==> #[trigger] input_json(a)->Object_0[i]
                == input_json(b)->Object_0[i],
        canonical_text(input_json(a)->Object_0[m].1, d, Quoting::Full) != canonical_text(
            input_json(b)->Object_0[m].1,
            d,
            Quoting::Full,
        ),
    ensures
        hashed(a, d) != hashed(b, d),
{
    let x = input_json(a)->Object_0;
    let y = input_json(b)->Object_0;
    input_keys_differ(a);
    assert(keys_agree(x, y));
    one_other_member_shows(x, y, m, d, Quoting::Full);
    other_texts_are_other_bytes(
        canonical_text(input_json(a), d, Quoting::Full),
        canonical_text(input_json(b), d, Quoting::Full),
    );
}

proof fn stations_alike(a: Seq<Station>, b: Seq<Station>)
    requires
        station_views(a) == station_views(b),
    ensures
        a.map_values(|s: Station| station_json(s)) == b.map_values(|s: Station| station_json(s)),
{
    let f = |s: Station| station_json(s);
    assert(station_views(a).len() == a.len() && station_views(b).len() == b.len());
    assert forall|i: int| 0 <= i < a.len() implies a.map_values(f)[i] == b.map_values(f)[i] by {
        assert(station_views(a)[i] == a[i]@ && station_views(b)[i] == b[i]@);
    }
    assert(a.map_values(f) =~= b.map_values(f));
}

proof fn segments_alike(a: Seq<(ClockSegment, i64)>, b: Seq<(ClockSegment, i64)>)
    requires
        segment_views(a) == segment_views(b),
    ensures
        segments_json(a) == segments_json(b),
{
    assert(segment_views(a).len() == a.len() && segment_views(b).len() == b.len());
    assert forall|i: int| 0 <= i < a.len() implies segment_json(#[trigger] a[i]) == segment_json(
        b[i],
    ) && a[i].1 == b[i].1 by {
        assert(segment_views(a)[i] == (a[i].0@, a[i].1 as int));
        assert(segment_views(b)[i] == (b[i].0@, b[i].1 as int));
        assert(a[i].0@ == b[i].0@);
    }
    assert(segment_ids(a) =~= segment_ids(b));
    let order = id_order(segment_ids(a), a.len() as int);
    id_order_is_in_range(segment_ids(a), a.len() as int);
    let f = |i: int| segment_json(a[i]);
    let g = |i: int| segment_json(b[i]);
    assert forall|k: int| 0 <= k < order.len() implies order.map_values(f)[k] == order.map_values(
        g,
    )[k] by {
        assert(0 <= order[k] < a.len());
        assert(segment_json(a[order[k]]) == segment_json(b[order[k]]));
    }
    assert(order.map_values(f) =~= order.map_values(g));
}

proof fn observations_alike(a: Seq<ObservationRow>, b: Seq<ObservationRow>)
    requires
        observationrow_views(a) == observationrow_views(b),
    ensures
        a.map_values(|o: ObservationRow| observation_json(o)) == b.map_values(
            |o: ObservationRow| observation_json(o),
        ),
{
    let f = |o: ObservationRow| observation_json(o);
    assert(observationrow_views(a).len() == a.len() && observationrow_views(b).len() == b.len());
    assert forall|i: int| 0 <= i < a.len() implies a.map_values(f)[i] == b.map_values(f)[i] by {
        assert(observationrow_views(a)[i] == a[i]@ && observationrow_views(b)[i] == b[i]@);
    }
    assert(a.map_values(f) =~= b.map_values(f));
}

proof fn delays_alike(a: Seq<LagRow>, b: Seq<LagRow>)
    requires
        lagrow_views(a) == lagrow_views(b),
    ensures
        a.map_values(|l: LagRow| lag_json(l)) == b.map_values(|l: LagRow| lag_json(l)),
{
    let f = |l: LagRow| lag_json(l);
    assert(lagrow_views(a).len() == a.len() && lagrow_views(b).len() == b.len());
    assert forall|i: int| 0 <= i < a.len() implies a.map_values(f)[i] == b.map_values(f)[i] by {
        assert(lagrow_views(a)[i] == a[i]@ && lagrow_views(b)[i] == b[i]@);
    }
    assert(a.map_values(f) =~= b.map_values(f));
}

proof fn evidence_alike(a: Seq<EvidenceRow>, b: Seq<EvidenceRow>)
    requires
        evidencerow_views(a) == evidencerow_views(b),
    ensures
        a.map_values(|e: EvidenceRow| evidence_json(e)) == b.map_values(
            |e: EvidenceRow| evidence_json(e),
        ),
{
    let f = |e: EvidenceRow| evidence_json(e);
    assert(evidencerow_views(a).len() == a.len() && evidencerow_views(b).len() == b.len());
    assert forall|i: int| 0 <= i < a.len() implies a.map_values(f)[i] == b.map_values(f)[i] by {
        assert(evidencerow_views(a)[i] == a[i]@ && evidencerow_views(b)[i] == b[i]@);
    }
    assert(a.map_values(f) =~= b.map_values(f));
}

// ---------- The event ----------

/// Two inputs agree in all that is listed: the stations, the clock segments, the
/// observations, the delays and the evidence.
pub open spec fn lists_agree(a: SolverInput, b: SolverInput) -> bool {
    &&& station_views(a.stations@) == station_views(b.stations@)
    &&& segment_views(a.clock_segments@) == segment_views(b.clock_segments@)
    &&& observationrow_views(a.observations@) == observationrow_views(b.observations@)
    &&& lagrow_views(a.lags@) == lagrow_views(b.lags@)
    &&& evidencerow_views(a.evidence@) == evidencerow_views(b.evidence@)
}

proof fn lists_are_alike(a: SolverInput, b: SolverInput)
    requires
        lists_agree(a, b),
    ensures
        forall|i: int|
            4 <= i < 9 ==> #[trigger] input_json(a)->Object_0[i] == input_json(b)->Object_0[i],
{
    stations_alike(a.stations@, b.stations@);
    segments_alike(a.clock_segments@, b.clock_segments@);
    observations_alike(a.observations@, b.observations@);
    delays_alike(a.lags@, b.lags@);
    evidence_alike(a.evidence@, b.evidence@);
}

/// Two inputs that differ in the speed of sound, so that it is written
/// differently, are hashed differently.
pub proof fn the_speed_of_sound_shows(a: SolverInput, b: SolverInput, d: Decimals)
    requires
        lists_agree(a, b),
        a.event.event_id@ == b.event.event_id@,
        a.event.bounds == b.event.bounds,
        d.written(a.event.sound_speed_mps) != d.written(b.event.sound_speed_mps),
    ensures
        hashed(a, d) != hashed(b, d),
{
    lists_are_alike(a, b);
    another_part_shows(a, b, 2, d);
}

/// Two inputs that differ in the name of the event are hashed differently.
pub proof fn the_name_of_the_event_shows(a: SolverInput, b: SolverInput, d: Decimals)
    requires
        lists_agree(a, b),
        a.event.event_id@ != b.event.event_id@,
        a.event.bounds == b.event.bounds,
        a.event.sound_speed_mps == b.event.sound_speed_mps,
    ensures
        hashed(a, d) != hashed(b, d),
{
    lists_are_alike(a, b);
    other_texts_are_quoted_differently(
        a.event.event_id@,
        b.event.event_id@,
        Quoting::Full,
    );
    another_part_shows(a, b, 1, d);
}

/// The bounds of a site are written without commas.
pub open spec fn bounds_are_plain(b: SiteBounds, d: Decimals) -> bool {
    &&& comma_free(d.written(b.min_x))
    &&& comma_free(d.written(b.min_y))
    &&& comma_free(d.written(b.max_x))
    &&& comma_free(d.written(b.max_y))
}

/// Two inputs that differ in the bounds of the site, so that one of the four is
/// written differently, are hashed differently.
pub proof fn the_bounds_show(a: SolverInput, b: SolverInput, d: Decimals)
    requires
        lists_agree(a, b),
        a.event.event_id@ == b.event.event_id@,
        a.event.sound_speed_mps == b.event.sound_speed_mps,
        bounds_are_plain(a.event.bounds, d),
        bounds_are_plain(b.event.bounds, d),
        d.written(a.event.bounds.min_x) != d.written(b.event.bounds.min_x) || d.written(
            a.event.bounds.min_y,
        ) != d.written(b.event.bounds.min_y) || d.written(a.event.bounds.max_x) != d.written(
            b.event.bounds.max_x,
        ) || d.written(a.event.bounds.max_y) != d.written(b.event.bounds.max_y),
    ensures
        hashed(a, d) != hashed(b, d),
{
    lists_are_alike(a, b);
    let x = bounds_json(a.event.bounds)->Array_0;
    let y = bounds_json(b.event.bounds)->Array_0;
    let k: int = if d.written(a.event.bounds.min_x) != d.written(b.event.bounds.min_x) {
        0
    } else if d.written(a.event.bounds.min_y) != d.written(b.event.bounds.min_y) {
        1
    } else if d.written(a.event.bounds.max_x) != d.written(b.event.bounds.max_x) {
        2
    } else {
        3
    };
    other_items_without_commas_show(x, y, k, d, Quoting::Full);
    another_part_shows(a, b, 3, d);
}

// ---------- Stations ----------

/// Two inputs agree in all but the stations, of which they have as many, and in
/// all of these but number `k`.
pub open spec fn agree_but_for_a_station(a: SolverInput, b: SolverInput, k: int) -> bool {
    &&& events_agree(a.event, b.event)
    &&& segment_views(a.clock_segments@) == segment_views(b.clock_segments@)
    &&& observationrow_views(a.observations@) == observationrow_views(b.observations@)
    &&& lagrow_views(a.lags@) == lagrow_views(b.lags@)
    &&& evidencerow_views(a.evidence@) == evidencerow_views(b.evidence@)
    &&& a.stations@.len() == b.stations@.len()
    &&& 0 <= k < a.stations@.len()
    &&& forall|i: int|
        0 <= i < a.stations@.len() && i != k ==> (#[trigger] a.stations@[i])@ == b.stations@[i]@
}

proof fn station_keys(s: Station)
    ensures
        keys_differ(station_json(s)->Object_0),
        comma_free(quoted_text("x"@, Quoting::Full)),
        comma_free(quoted_text("y"@, Quoting::Full)),
{
    reveal_strlit("station_id");
    reveal_strlit("x");
    reveal_strlit("y");
    reveal_strlit("label");
    assert("x"@[0] == 'x' && "y"@[0] == 'y');
    assert("station_id"@.len() == 10 && "label"@.len() == 5);
    quoting_brings_no_comma("x"@, Quoting::Full);
    quoting_brings_no_comma("y"@, Quoting::Full);
}

proof fn another_station_shows(a: SolverInput, b: SolverInput, k: int, d: Decimals)
    requires
        agree_but_for_a_station(a, b, k),
        canonical_text(station_json(a.stations@[k]), d, Quoting::Full) != canonical_text(
            station_json(b.stations@[k]),
            d,
            Quoting::Full,
        ),
    ensures
        hashed(a, d) != hashed(b, d),
{
    segments_alike(a.clock_segments@, b.clock_segments@);
    observations_alike(a.observations@, b.observations@);
    delays_alike(a.lags@, b.lags@);
    evidence_alike(a.evidence@, b.evidence@);
    let f = |s: Station| station_json(s);
    let x = a.stations@.map_values(f);
    let y = b.stations@.map_values(f);
    assert forall|i: int| 0 <= i < x.len() && i != k implies #[trigger] x[i] == y[i] by {
        assert(a.stations@[i]@ == b.stations@[i]@);
    }
    one_other_item_shows(x, y, k, d, Quoting::Full);
    another_part_shows(a, b, 4, d);
}

/// Two inputs that agree in all but the coordinates of one station, so that one
/// of the two is written differently, are hashed differently.
pub proof fn the_place_of_a_station_shows(a: SolverInput, b: SolverInput, k: int, d: Decimals)
    requires
        agree_but_for_a_station(a, b, k),
        a.stations@[k].station_id@ == b.stations@[k].station_id@,
        a.stations@[k].label@ == b.stations@[k].label@,
        comma_free(d.written(a.stations@[k].x)),
        comma_free(d.written(a.stations@[k].y)),
        comma_free(d.written(b.stations@[k].x)),
        comma_free(d.written(b.stations@[k].y)),
        d.written(a.stations@[k].x) != d.written(b.stations@[k].x) || d.written(a.stations@[k].y)
            != d.written(b.stations@[k].y),
    ensures
        hashed(a, d) != hashed(b, d),
{
    let s = a.stations@[k];
    let t = b.stations@[k];
    let x = station_json(s)->Object_0;
    let y = station_json(t)->Object_0;
    station_keys(s);
    assert(keys_agree(x, y));
    let m: int = if d.written(s.x) != d.written(t.x) {
        1
    } else {
        2
    };
    other_members_without_commas_show(x, y, m, d, Quoting::Full);
    another_station_shows(a, b, k, d);
}

/// Two inputs that agree in all but one coordinate of one station, however it is
/// written, are hashed differently as soon as it is written differently.
pub proof fn one_coordinate_of_a_station_shows(
    a: SolverInput,
    b: SolverInput,
    k: int,
    d: Decimals,
)
    requires
        agree_but_for_a_station(a, b, k),
        a.stations@[k].station_id@ == b.stations@[k].station_id@,
        a.stations@[k].label@ == b.stations@[k].label@,
        (d.written(a.stations@[k].x) != d.written(b.stations@[k].x) && a.stations@[k].y
            == b.stations@[k].y) || (a.stations@[k].x == b.stations@[k].x && d.written(
            a.stations@[k].y,
        ) != d.written(b.stations@[k].y)),
    ensures
        hashed(a, d) != hashed(b, d),
{
    let s = a.stations@[k];
    let t = b.stations@[k];
    let x = station_json(s)->Object_0;
    let y = station_json(t)->Object_0;
    station_keys(s);
    assert(keys_agree(x, y));
    let m: int = if d.written(s.x) != d.written(t.x) {
        1
    } else {
        2
    };
    one_other_member_shows(x, y, m, d, Quoting::Full);
    another_station_shows(a, b, k, d);
}

/// Two inputs that agree in all but the name or the label of one station are
/// hashed differently.
pub proof fn the_name_of_a_station_shows(a: SolverInput, b: SolverInput, k: int, d: Decimals)
    requires
        agree_but_for_a_station(a, b, k),
        a.stations@[k].x == b.stations@[k].x,
        a.stations@[k].y == b.stations@[k].y,
        (a.stations@[k].station_id@ != b.stations@[k].station_id@ && a.stations@[k].label@
            == b.stations@[k].label@) || (a.stations@[k].station_id@ == b.stations@[k].station_id@
            && a.stations@[k].label@ != b.stations@[k].label@),
    ensures
        hashed(a, d) != hashed(b, d),
{
    let s = a.stations@[k];
    let t = b.stations@[k];
    let x = station_json(s)->Object_0;
    let y = station_json(t)->Object_0;
    station_keys(s);
    assert(keys_agree(x, y));
    if s.station_id@ != t.station_id@ {
        other_texts_are_quoted_differently(s.station_id@, t.station_id@, Quoting::Full);
        one_other_member_shows(x, y, 0, d, Quoting::Full);
    } else {
        other_texts_are_quoted_differently(s.label@, t.label@, Quoting::Full);
        one_other_member_shows(x, y, 3, d, Quoting::Full);
    }
    another_station_shows(a, b, k, d);
}

// ---------- Clock segments ----------

/// Two inputs agree in all but the clock segments, of which they have as many
/// with the same numbers, and in all of these but number `k`.
pub open spec fn agree_but_for_a_segment(a: SolverInput, b: SolverInput, k: int) -> bool {
    &&& events_agree(a.event, b.event)
    &&& station_views(a.stations@) == station_views(b.stations@)
    &&& observationrow_views(a.observations@) == observationrow_views(b.observations@)
    &&& lagrow_views(a.lags@) == lagrow_views(b.lags@)
    &&& evidencerow_views(a.evidence@) == evidencerow_views(b.evidence@)
    &&& a.clock_segments@.len() == b.clock_segments@.len()
    &&& 0 <= k < a.clock_segments@.len()
    &&& forall|i: int|
        0 <= i < a.clock_segments@.len() && i != k ==> (#[trigger] a.clock_segments@[i]).0@
            == b.clock_segments@[i].0@
    &&& forall|i: int|
        0 <= i < a.clock_segments@.len() ==> (#[trigger] a.clock_segments@[i]).1
            == b.clock_segments@[i].1
}

proof fn every_position_is_listed_once(ids: Seq<i64>, n: int)
    requires
        0 <= n <= ids.len(),
    ensures
        forall|k: int| 0 <= k < n ==> #[trigger] id_order(ids, n).contains(k),
        forall|i: int, j: int|
            0 <= i < j < id_order(ids, n).len() ==> #[trigger] id_order(ids, n)[i]
                != #[trigger] id_order(ids, n)[j],
    decreases n,
{
    id_order_is_in_range(ids, n);
    if n > 0 {
        every_position_is_listed_once(ids, n - 1);
        id_order_is_in_range(ids, n - 1);
        let before = id_order(ids, n - 1);
        let at = slot_for(ids, before, ids[n - 1]);
        let now = id_order(ids, n);
        a_slot_is_in_range(ids, before, ids[n - 1]);
        assert(now == before.insert(at, n - 1));
        assert forall|k: int| 0 <= k < n implies #[trigger] now.contains(k) by {
            if k == n - 1 {
                assert(now[at] == k);
            } else {
                assert(before.contains(k));
                let i = choose|i: int| 0 <= i < before.len() && before[i] == k;
                if i < at {
                    assert(now[i] == k);
                } else {
                    assert(now[i + 1] == k);
                }
            }
        }
        assert forall|i: int, j: int| 0 <= i < j < now.len() implies #[trigger] now[i]
            != #[trigger] now[j] by {
            let p = if i < at {
                i
            } else {
                i - 1
            };
            let q = if j < at {
                j
            } else {
                j - 1
            };
            if i != at {
                assert(now[i] == before[p]);
            }
            if j != at {
                assert(now[j] == before[q]);
            }
        }
    }
}

proof fn a_slot_is_in_range(ids: Seq<i64>, order: Seq<int>, id: i64)
    ensures
        0 <= slot_for(ids, order, id) <= order.len(),
    decreases order.len(),
{
    if order.len() > 0 && ids[order[0]] <= id {
        a_slot_is_in_range(ids, order.drop_first(), id);
    }
}

proof fn segment_keys(s: (ClockSegment, i64))
    ensures
        keys_differ(segment_json(s)->Object_0),
        comma_free(quoted_text("start"@, Quoting::Full)),
        comma_free(quoted_text("end"@, Quoting::Full)),
        comma_free(quoted_text("offset"@, Quoting::Full)),
{
    reveal_strlit("id");
    reveal_strlit("station");
    reveal_strlit("start");
    reveal_strlit("end");
    reveal_strlit("offset");
    assert("id"@.len() == 2 && "station"@.len() == 7 && "start"@.len() == 5);
    assert("end"@.len() == 3 && "offset"@.len() == 6);
    quoting_brings_no_comma("start"@, Quoting::Full);
    quoting_brings_no_comma("end"@, Quoting::Full);
    quoting_brings_no_comma("offset"@, Quoting::Full);
}

proof fn another_segment_shows(a: SolverInput, b: SolverInput, k: int, d: Decimals)
    requires
        agree_but_for_a_segment(a, b, k),
        canonical_text(segment_json(a.clock_segments@[k]), d, Quoting::Full) != canonical_text(
            segment_json(b.clock_segments@[k]),
            d,
            Quoting::Full,
        ),
    ensures
        hashed(a, d) != hashed(b, d),
{
    stations_alike(a.stations@, b.stations@);
    observations_alike(a.observations@, b.observations@);
    delays_alike(a.lags@, b.lags@);
    evidence_alike(a.evidence@, b.evidence@);
    let p = a.clock_segments@;
    let q = b.clock_segments@;
    let n = p.len() as int;
    assert(segment_ids(p) =~= segment_ids(q));
    let order = id_order(segment_ids(p), n);
    id_order_is_in_range(segment_ids(p), n);
    every_position_is_listed_once(segment_ids(p), n);
    assert(order.contains(k));
    let at = choose|at: int| 0 <= at < order.len() && order[at] == k;
    let x = segments_json(p)->Array_0;
    let y = segments_json(q)->Array_0;
    assert forall|i: int| 0 <= i < x.len() && i != at implies #[trigger] x[i] == y[i] by {
        if i < at {
            assert(order[i] != order[at]);
        } else {
            assert(order[at] != order[i]);
        }
        assert(0 <= order[i] < n);
        assert(p[order[i]].0@ == q[order[i]].0@);
        assert(p[order[i]].1 == q[order[i]].1);
    }
    one_other_item_shows(x, y, at, d, Quoting::Full);
    another_part_shows(a, b, 5, d);
}

/// Two inputs that agree in all but the start, the end and the offset of one
/// clock segment, so that one of the three is written differently, are hashed
/// differently.
pub proof fn the_times_of_a_segment_show(a: SolverInput, b: SolverInput, k: int, d: Decimals)
    requires
        agree_but_for_a_segment(a, b, k),
        a.clock_segments@[k].0.station_id@ == b.clock_segments@[k].0.station_id@,
        comma_free(d.written(a.clock_segments@[k].0.t_start)),
        comma_free(d.written(b.clock_segments@[k].0.t_start)),
        comma_free(number_text(a.clock_segments@[k].0.t_end, d)),
        comma_free(number_text(b.clock_segments@[k].0.t_end, d)),
        comma_free(d.written(a.clock_segments@[k].0.offset_sec)),
        comma_free(d.written(b.clock_segments@[k].0.offset_sec)),
        d.written(a.clock_segments@[k].0.t_start) != d.written(b.clock_segments@[k].0.t_start)
            || number_text(a.clock_segments@[k].0.t_end, d) != number_text(
            b.clock_segments@[k].0.t_end,
            d,
        ) || d.written(a.clock_segments@[k].0.offset_sec) != d.written(
            b.clock_segments@[k].0.offset_sec,
        ),
    ensures
        hashed(a, d) != hashed(b, d),
{
    let s = a.clock_segments@[k];
    let t = b.clock_segments@[k];
    let x = segment_json(s)->Object_0;
    let y = segment_json(t)->Object_0;
    segment_keys(s);
    assert(s.1 == t.1);
    assert(keys_agree(x, y));
    let m: int = if d.written(s.0.t_start) != d.written(t.0.t_start) {
        2
    } else if number_text(s.0.t_end, d) != number_text(t.0.t_end, d) {
        3
    } else {
        4
    };
    other_members_without_commas_show(x, y, m, d, Quoting::Full);
    another_segment_shows(a, b, k, d);
}

/// Two inputs that agree in all but the station of one clock segment are hashed
/// differently.
pub proof fn the_station_of_a_segment_shows(a: SolverInput, b: SolverInput, k: int, d: Decimals)
    requires
        agree_but_for_a_segment(a, b, k),
        a.clock_segments@[k].0.station_id@ != b.clock_segments@[k].0.station_id@,
        a.clock_segments@[k].0.t_start == b.clock_segments@[k].0.t_start,
        a.clock_segments@[k].0.t_end == b.clock_segments@[k].0.t_end,
        a.clock_segments@[k].0.offset_sec == b.clock_segments@[k].0.offset_sec,
    ensures
        hashed(a, d) != hashed(b, d),
{
    let s = a.clock_segments@[k];
    let t = b.clock_segments@[k];
    let x = segment_json(s)->Object_0;
    let y = segment_json(t)->Object_0;
    segment_keys(s);
    assert(s.1 == t.1);
    assert(keys_agree(x, y));
    other_texts_are_quoted_differently(s.0.station_id@, t.0.station_id@, Quoting::Full);
    one_other_member_shows(x, y, 1, d, Quoting::Full);
    another_segment_shows(a, b, k, d);
}

// ---------- Observations ----------

/// Two inputs agree in all but the observations, of which they have as many, and
/// in all of these but number `k`.
pub open spec fn agree_but_for_an_observation(a: SolverInput, b: SolverInput, k: int) -> bool {
    &&& events_agree(a.event, b.event)
    &&& station_views(a.stations@) == station_views(b.stations@)
    &&& segment_views(a.clock_segments@) == segment_views(b.clock_segments@)
    &&& lagrow_views(a.lags@) == lagrow_views(b.lags@)
    &&& evidencerow_views(a.evidence@) == evidencerow_views(b.evidence@)
    &&& a.observations@.len() == b.observations@.len()
    &&& 0 <= k < a.observations@.len()
    &&& forall|i: int|
        0 <= i < a.observations@.len() && i != k ==> (#[trigger] a.observations@[i])@
            == b.observations@[i]@
}

/// Two observations differ in exactly one of what is hashed of them: the name,
/// the station, the onset as it was read or as it is corrected, or what it is a
/// duplicate of.
pub open spec fn observations_differ_in_one(
    o: ObservationRow,
    p: ObservationRow,
    d: Decimals,
) -> bool {
    let uid = o.obs_uid@ == p.obs_uid@;
    let station = o.station_id@ == p.station_id@;
    let local = o.local_onset_sec == p.local_onset_sec;
    let corrected = o.corrected_onset_sec == p.corrected_onset_sec;
    let original = opt_text(o.duplicate_of) == opt_text(p.duplicate_of);
    ||| !uid && station && local && corrected && original
    ||| uid && !station && local && corrected && original
    ||| uid && station && d.written(o.local_onset_sec) != d.written(p.local_onset_sec) && corrected
        && original
    ||| uid && station && local && number_text(o.corrected_onset_sec, d) != number_text(
        p.corrected_onset_sec,
        d,
    ) && original
    ||| uid && station && local && corrected && !original
}

/// Two inputs that agree in all but one of what is hashed of one observation are
/// hashed differently.
pub proof fn what_an_observation_says_shows(a: SolverInput, b: SolverInput, k: int, d: Decimals)
    requires
        agree_but_for_an_observation(a, b, k),
        observations_differ_in_one(a.observations@[k], b.observations@[k], d),
    ensures
        hashed(a, d) != hashed(b, d),
{
    stations_alike(a.stations@, b.stations@);
    segments_alike(a.clock_segments@, b.clock_segments@);
    delays_alike(a.lags@, b.lags@);
    evidence_alike(a.evidence@, b.evidence@);
    let o = a.observations@[k];
    let p = b.observations@[k];
    let x = observation_json(o)->Object_0;
    let y = observation_json(p)->Object_0;
    reveal_strlit("uid");
    reveal_strlit("station");
    reveal_strlit("local");
    reveal_strlit("corrected");
    reveal_strlit("duplicate_of");
    assert("uid"@.len() == 3 && "station"@.len() == 7 && "local"@.len() == 5);
    assert("corrected"@.len() == 9 && "duplicate_of"@.len() == 12);
    assert(keys_differ(x));
    assert(keys_agree(x, y));
    if o.obs_uid@ != p.obs_uid@ {
        other_texts_are_quoted_differently(o.obs_uid@, p.obs_uid@, Quoting::Full);
        one_other_member_shows(x, y, 0, d, Quoting::Full);
    } else if o.station_id@ != p.station_id@ {
        other_texts_are_quoted_differently(o.station_id@, p.station_id@, Quoting::Full);
        one_other_member_shows(x, y, 1, d, Quoting::Full);
    } else if d.written(o.local_onset_sec) != d.written(p.local_onset_sec) {
        one_other_member_shows(x, y, 2, d, Quoting::Full);
    } else if number_text(o.corrected_onset_sec, d) != number_text(p.corrected_onset_sec, d) {
        one_other_member_shows(x, y, 3, d, Quoting::Full);
    } else {
        optional_texts_are_written_differently(
            opt_text(o.duplicate_of),
            opt_text(p.duplicate_of),
            d,
        );
        one_other_member_shows(x, y, 4, d, Quoting::Full);
    }
    let f = |o: ObservationRow| observation_json(o);
    let s = a.observations@.map_values(f);
    let t = b.observations@.map_values(f);
    assert forall|i: int| 0 <= i < s.len() && i != k implies #[trigger] s[i] == t[i] by {
        assert(a.observations@[i]@ == b.observations@[i]@);
    }
    one_other_item_shows(s, t, k, d, Quoting::Full);
    another_part_shows(a, b, 6, d);
}

proof fn optional_texts_are_written_differently(
    s: Option<Seq<char>>,
    t: Option<Seq<char>>,
    d: Decimals,
)
    requires
        s != t,
    ensures
        canonical_text(crate::solver::opt_json_text(s), d, Quoting::Full) != canonical_text(
            crate::solver::opt_json_text(t),
            d,
            Quoting::Full,
        ),
{
    reveal_strlit("null");
    assert("null"@[0] == 'n');
    if s is Some {
        assert(quoted_text(s->0, Quoting::Full)[0] == '"');
    }
    if t is Some {
        assert(quoted_text(t->0, Quoting::Full)[0] == '"');
    }
    if s is Some && t is Some {
        other_texts_are_quoted_differently(s->0, t->0, Quoting::Full);
    }
}

// ---------- Delays ----------

/// Two inputs agree in all but the delays, of which they have as many, and in
/// all of these but number `k`.
pub open spec fn agree_but_for_a_delay(a: SolverInput, b: SolverInput, k: int) -> bool {
    &&& events_agree(a.event, b.event)
    &&& station_views(a.stations@) == station_views(b.stations@)
    &&& segment_views(a.clock_segments@) == segment_views(b.clock_segments@)
    &&& observationrow_views(a.observations@) == observationrow_views(b.observations@)
    &&& evidencerow_views(a.evidence@) == evidencerow_views(b.evidence@)
    &&& a.lags@.len() == b.lags@.len()
    &&& 0 <= k < a.lags@.len()
    &&& forall|i: int| 0 <= i < a.lags@.len() && i != k ==> (#[trigger] a.lags@[i])@ == b.lags@[i]@
}

/// Two delays differ in exactly one of what is hashed of them: the name, the
/// station, the peer, the delay, the hint or the strength.
pub open spec fn delays_differ_in_one(l: LagRow, m: LagRow, d: Decimals) -> bool {
    let uid = l.lag_uid@ == m.lag_uid@;
    let station = l.station_id@ == m.station_id@;
    let peer = l.peer_id@ == m.peer_id@;
    let lag = l.lag_sec == m.lag_sec;
    let hint = l.hint@ == m.hint@;
    let snr = l.snr_db == m.snr_db;
    ||| !uid && station && peer && lag && hint && snr
    ||| uid && !station && peer && lag && hint && snr
    ||| uid && station && !peer && lag && hint && snr
    ||| uid && station && peer && d.written(l.lag_sec) != d.written(m.lag_sec) && hint && snr
    ||| uid && station && peer && lag && !hint && snr
    ||| uid && station && peer && lag && hint && d.written(l.snr_db) != d.written(m.snr_db)
}

/// Two inputs that agree in all but one of what is hashed of one delay are
/// hashed differently.
pub proof fn what_a_delay_says_shows(a: SolverInput, b: SolverInput, k: int, d: Decimals)
    requires
        agree_but_for_a_delay(a, b, k),
        delays_differ_in_one(a.lags@[k], b.lags@[k], d),
    ensures
        hashed(a, d) != hashed(b, d),
{
    stations_alike(a.stations@, b.stations@);
    segments_alike(a.clock_segments@, b.clock_segments@);
    observations_alike(a.observations@, b.observations@);
    evidence_alike(a.evidence@, b.evidence@);
    let l = a.lags@[k];
    let m = b.lags@[k];
    let x = lag_json(l)->Object_0;
    let y = lag_json(m)->Object_0;
    reveal_strlit("uid");
    reveal_strlit("station");
    reveal_strlit("peer");
    reveal_strlit("lag");
    reveal_strlit("hint");
    reveal_strlit("snr");
    assert("uid"@.len() == 3 && "lag"@.len() == 3 && "snr"@.len() == 3);
    assert("uid"@[0] == 'u' && "lag"@[0] == 'l' && "snr"@[0] == 's');
    assert("peer"@.len() == 4 && "hint"@.len() == 4 && "station"@.len() == 7);
    assert("peer"@[0] == 'p' && "hint"@[0] == 'h');
    assert(keys_differ(x));
    assert(keys_agree(x, y));
    if l.lag_uid@ != m.lag_uid@ {
        other_texts_are_quoted_differently(l.lag_uid@, m.lag_uid@, Quoting::Full);
        one_other_member_shows(x, y, 0, d, Quoting::Full);
    } else if l.station_id@ != m.station_id@ {
        other_texts_are_quoted_differently(l.station_id@, m.station_id@, Quoting::Full);
        one_other_member_shows(x, y, 1, d, Quoting::Full);
    } else if l.peer_id@ != m.peer_id@ {
        other_texts_are_quoted_differently(l.peer_id@, m.peer_id@, Quoting::Full);
        one_other_member_shows(x, y, 2, d, Quoting::Full);
    } else if d.written(l.lag_sec) != d.written(m.lag_sec) {
        one_other_member_shows(x, y, 3, d, Quoting::Full);
    } else if l.hint@ != m.hint@ {
        other_texts_are_quoted_differently(l.hint@, m.hint@, Quoting::Full);
        one_other_member_shows(x, y, 4, d, Quoting::Full);
    } else {
        one_other_member_shows(x, y, 5, d, Quoting::Full);
    }
    let f = |l: LagRow| lag_json(l);
    let s = a.lags@.map_values(f);
    let t = b.lags@.map_values(f);
    assert forall|i: int| 0 <= i < s.len() && i != k implies #[trigger] s[i] == t[i] by {
        assert(a.lags@[i]@ == b.lags@[i]@);
    }
    one_other_item_shows(s, t, k, d, Quoting::Full);
    another_part_shows(a, b, 7, d);
}

// ---------- Evidence ----------

/// Two inputs agree in all but the evidence, of which they have as many pieces,
/// and in all of these but number `k`.
pub open spec fn agree_but_for_a_piece_of_evidence(
    a: SolverInput,
    b: SolverInput,
    k: int,
) -> bool {
    &&& events_agree(a.event, b.event)
    &&& station_views(a.stations@) == station_views(b.stations@)
    &&& segment_views(a.clock_segments@) == segment_views(b.clock_segments@)
    &&& observationrow_views(a.observations@) == observationrow_views(b.observations@)
    &&& lagrow_views(a.lags@) == lagrow_views(b.lags@)
    &&& a.evidence@.len() == b.evidence@.len()
    &&& 0 <= k < a.evidence@.len()
    &&& forall|i: int|
        0 <= i < a.evidence@.len() && i != k ==> (#[trigger] a.evidence@[i])@ == b.evidence@[i]@
}

/// Two pieces of evidence differ in exactly one of what is hashed of them: the
/// name, the kind or the payload.
pub open spec fn evidence_differs_in_one(e: EvidenceRow, f: EvidenceRow, d: Decimals) -> bool {
    let id = e.evidence_id@ == f.evidence_id@;
    let kind = e.kind@ == f.kind@;
    let payload = e.payload@ == f.payload@;
    ||| !id && kind && payload
    ||| id && !kind && payload
    ||| id && kind && canonical_text(e.payload@, d, Quoting::Full) != canonical_text(
        f.payload@,
        d,
        Quoting::Full,
    )
}

/// Two inputs that agree in all but one of what is hashed of one piece of
/// evidence are hashed differently.
pub proof fn what_evidence_says_shows(a: SolverInput, b: SolverInput, k: int, d: Decimals)
    requires
        agree_but_for_a_piece_of_evidence(a, b, k),
        evidence_differs_in_one(a.evidence@[k], b.evidence@[k], d),
    ensures
        hashed(a, d) != hashed(b, d),
{
    stations_alike(a.stations@, b.stations@);
    segments_alike(a.clock_segments@, b.clock_segments@);
    observations_alike(a.observations@, b.observations@);
    delays_alike(a.lags@, b.lags@);
    let e = a.evidence@[k];
    let g = b.evidence@[k];
    let x = evidence_json(e)->Object_0;
    let y = evidence_json(g)->Object_0;
    reveal_strlit("id");
    reveal_strlit("kind");
    reveal_strlit("payload");
    assert("id"@.len() == 2 && "kind"@.len() == 4 && "payload"@.len() == 7);
    assert(keys_differ(x));
    assert(keys_agree(x, y));
    if e.evidence_id@ != g.evidence_id@ {
        other_texts_are_quoted_differently(e.evidence_id@, g.evidence_id@, Quoting::Full);
        one_other_member_shows(x, y, 0, d, Quoting::Full);
    } else if e.kind@ != g.kind@ {
        other_texts_are_quoted_differently(e.kind@, g.kind@, Quoting::Full);
        one_other_member_shows(x, y, 1, d, Quoting::Full);
    } else {
        one_other_member_shows(x, y, 2, d, Quoting::Full);
    }
    let f = |e: EvidenceRow| evidence_json(e);
    let s = a.evidence@.map_values(f);
    let t = b.evidence@.map_values(f);
    assert forall|i: int| 0 <= i < s.len() && i != k implies #[trigger] s[i] == t[i] by {
        assert(a.evidence@[i]@ == b.evidence@[i]@);
    }
    one_other_item_shows(s, t, k, d, Quoting::Full);
    another_part_shows(a, b, 8, d);
}

} // verus!
