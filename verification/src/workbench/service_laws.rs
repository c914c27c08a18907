//! What holds of stations and events as they are entered and listed, of the
//! observations that belong to an event, and of the small linear systems.
use vstd::prelude::*;

use crate::arrange::{arranged, numbers_lt, picked_rows_are_arranged, place_lt};
use crate::double::Double;
use crate::text::{blank, text_lt};
use crate::workbench::db::{has_link, DbView, ObsRowView};
use crate::workbench::edges::EdgeView;
use crate::workbench::linalg::{free_axis_of, largest, pivot_of, spokes_of, Pivot, Spoke};
use crate::workbench::models::{
    CreateEventReqView, CreateStationReqView, EventHeaderView, StationView,
};
use crate::workbench::picture::{by_station, event_row};
use crate::workbench::service::{
    belongs, by_start_and_id, event_objection, events_listed, every_event, every_station,
    new_event, new_links, station_objection, stations_listed, unlinked, usual_model, with_station,
};

verus! {

// ---------- Stations ----------

/// A station is entered with its key, its name and its place, and comes last; one
/// whose key is known is not entered again.
pub proof fn a_station_is_read_as_entered(v: DbView, req: CreateStationReqView, now: Double)
    requires
        !now.nan(),
    ensures
        ({
            let w = with_station(v, req, now);
            let known = exists|i: int|
                0 <= i < v.stations.len() && (#[trigger] v.stations[i]).station.station_id
                    == req.station_id;
            &&& known ==> w == v
            &&& !known ==> w.stations.len() == v.stations.len() + 1
            &&& !known ==> w.stations.drop_last() == v.stations
            &&& !known ==> w.stations.last().station.station_id == req.station_id
            &&& !known ==> w.stations.last().station.name == req.name
            &&& !known ==> w.stations.last().station.x == req.x
            &&& !known ==> w.stations.last().station.y == req.y
            &&& !known ==> w.stations.last().created_at == now
            &&& w.events == v.events
            &&& w.observations == v.observations
            &&& w.links == v.links
            &&& w.jobs == v.jobs
        }),
{
}

/// A station is refused exactly when its key is blank or its place is not finite.
pub proof fn stations_need_a_key_and_a_place(req: CreateStationReqView)
    ensures
        station_objection(req) is None <==> !blank(req.station_id) && req.x.finite()
            && req.y.finite(),
{
}

/// It is one of the stations.
pub open spec fn is_station(v: DbView, s: StationView) -> bool {
    exists|i: int| 0 <= i < v.stations.len() && (#[trigger] v.stations[i]).station == s
}

/// Every station is listed, with its name and its place, and nothing else is; they
/// stand in the order of their keys.
pub proof fn all_stations_are_listed(v: DbView)
    requires
        forall|i: int, j: int|
            0 <= i < j < v.stations.len() ==> (#[trigger] v.stations[i]).station.station_id != (
            #[trigger] v.stations[j]).station.station_id,
    ensures
        forall|i: int|
            0 <= i < v.stations.len() ==> stations_listed(v).contains(
                (#[trigger] v.stations[i]).station,
            ),
        forall|k: int|
            0 <= k < stations_listed(v).len() ==> is_station(v, #[trigger] stations_listed(v)[k]),
        forall|j: int, k: int|
            0 <= j < k < stations_listed(v).len() ==> text_lt(
                (#[trigger] stations_listed(v)[j]).station_id,
                (#[trigger] stations_listed(v)[k]).station_id,
            ),
{
    let all = v.stations;
    let pick = every_station();
    let place = by_station();
    assert forall|i: int, j: int|
        0 <= i < j < all.len() && pick(#[trigger] all[i]) && pick(#[trigger] all[j]) implies place(
        all[i],
    ) != place(all[j]) by {
        assert(all[i].station.station_id != all[j].station.station_id);
    }
    picked_rows_are_arranged(all, pick, place);
    let r = arranged(all.filter(pick), place);
    let s = stations_listed(v);
    assert(s.len() == r.len());
    assert forall|i: int| 0 <= i < all.len() implies s.contains((#[trigger] all[i]).station) by {
        assert(all.contains(all[i]) && pick(all[i]));
        assert(r.contains(all[i]));
        let k = choose|k: int| 0 <= k < r.len() && r[k] == all[i];
        assert(s[k] == all[i].station);
    }
    assert forall|k: int| 0 <= k < s.len() implies is_station(v, #[trigger] s[k]) by {
        assert(r.contains(r[k]));
        let i = choose|i: int| 0 <= i < all.len() && all[i] == r[k];
        assert(all[i].station == s[k]);
    }
    assert forall|j: int, k: int| 0 <= j < k < s.len() implies text_lt(
        (#[trigger] s[j]).station_id,
        (#[trigger] s[k]).station_id,
    ) by {
        assert(place_lt(place(r[j]), place(r[k])));
        assert(!numbers_lt(Seq::<int>::empty(), Seq::<int>::empty()));
        assert(!text_lt(Seq::<char>::empty(), Seq::<char>::empty()));
    }
}

// ---------- Events ----------

/// An event is entered with its name, its title, its window and its speed of sound,
/// in metres and seconds.
pub proof fn an_event_is_read_as_entered(req: CreateEventReqView, now: Double)
    ensures
        ({
            let e = new_event(req, now);
            &&& e.header.event_id == req.event_id
            &&& e.header.title == req.title
            &&& e.header.t_start == req.t_start
            &&& e.header.t_end == req.t_end
            &&& e.header.sound_speed == req.sound_speed
            &&& e.header.coordinate_unit == "m"@
            &&& e.header.time_unit == "s"@
            &&& e.created_at == now
        }),
{
}

/// An event is taken exactly when it has a name that is not taken, a window that is
/// finite and ends after it starts, a speed of sound that is finite and more than
/// fifty and less than two thousand, and a time at which it is entered.
pub proof fn events_need_a_name_a_window_and_a_speed(
    v: DbView,
    req: CreateEventReqView,
    now: Double,
)
    ensures
        event_objection(v, req, now) is None <==> {
            &&& !blank(req.event_id)
            &&& req.t_start.finite()
            &&& req.t_end.finite()
            &&& req.t_start.below(req.t_end)
            &&& req.sound_speed.finite()
            &&& (Double { bits: 0x4049_0000_0000_0000 }).below(req.sound_speed)
            &&& req.sound_speed.below(Double { bits: 0x409f_4000_0000_0000 })
            &&& !now.nan()
            &&& forall|i: int|
                0 <= i < v.events.len() ==> (#[trigger] v.events[i]).header.event_id
                    != req.event_id
        },
{
    assert(usual_model().radius_ok());
}

/// It is one of the events.
pub open spec fn is_event(v: DbView, e: EventHeaderView) -> bool {
    exists|i: int| 0 <= i < v.events.len() && (#[trigger] v.events[i]).header == e
}

/// Every event is listed, and nothing else is; they stand in the order of their
/// starts, and those of one start in the order of their names.
pub proof fn all_events_are_listed(v: DbView)
    requires
        forall|i: int, j: int|
            0 <= i < j < v.events.len() ==> (#[trigger] v.events[i]).header.event_id != (
            #[trigger] v.events[j]).header.event_id,
    ensures
        forall|i: int|
            0 <= i < v.events.len() ==> events_listed(v).contains((#[trigger] v.events[i]).header),
        forall|k: int|
            0 <= k < events_listed(v).len() ==> is_event(v, #[trigger] events_listed(v)[k]),
        forall|j: int, k: int|
            0 <= j < k < events_listed(v).len() ==> (
            #[trigger] events_listed(v)[j]).t_start.rank() < (
            #[trigger] events_listed(v)[k]).t_start.rank() || (events_listed(v)[j].t_start.rank()
                == events_listed(v)[k].t_start.rank() && text_lt(
                events_listed(v)[j].event_id,
                events_listed(v)[k].event_id,
            )),
{
    let all = v.events;
    let pick = every_event();
    let place = by_start_and_id();
    assert forall|i: int, j: int|
        0 <= i < j < all.len() && pick(#[trigger] all[i]) && pick(#[trigger] all[j]) implies place(
        all[i],
    ) != place(all[j]) by {
        assert(all[i].header.event_id != all[j].header.event_id);
    }
    picked_rows_are_arranged(all, pick, place);
    let r = arranged(all.filter(pick), place);
    let s = events_listed(v);
    assert(s.len() == r.len());
    assert forall|i: int| 0 <= i < all.len() implies s.contains((#[trigger] all[i]).header) by {
        assert(all.contains(all[i]) && pick(all[i]));
        assert(r.contains(all[i]));
        let k = choose|k: int| 0 <= k < r.len() && r[k] == all[i];
        assert(s[k] == all[i].header);
    }
    assert forall|k: int| 0 <= k < s.len() implies is_event(v, #[trigger] s[k]) by {
        assert(r.contains(r[k]));
        let i = choose|i: int| 0 <= i < all.len() && all[i] == r[k];
        assert(all[i].header == s[k]);
    }
    assert forall|j: int, k: int| 0 <= j < k < s.len() implies (#[trigger] s[j]).t_start.rank() < (
    #[trigger] s[k]).t_start.rank() || (s[j].t_start.rank() == s[k].t_start.rank() && text_lt(
        s[j].event_id,
        s[k].event_id,
    )) by {
        assert(place_lt(place(r[j]), place(r[k])));
        let a = s[j].t_start.rank();
        let b = s[k].t_start.rank();
        assert(seq![a][0] == a && seq![b][0] == b);
        assert(a == b ==> seq![a] == seq![b]);
        assert(!numbers_lt(Seq::<int>::empty(), Seq::<int>::empty()));
        assert(!text_lt(Seq::<char>::empty(), Seq::<char>::empty()));
    }
}

// ---------- What belongs to an event ----------

/// An observation that names an event belongs to that one, whenever it was made,
/// and to no other.
pub proof fn what_names_an_event_belongs_to_it(
    o: ObsRowView,
    event_id: Seq<char>,
    t0: Double,
    t1: Double,
)
    requires
        o.event_ref is Some,
    ensures
        belongs(o, event_id, t0, t1) <==> o.event_ref->0 == event_id,
{
}

/// Of two windows that adjoin, an observation that names no event and falls into
/// their union belongs to exactly one: at the join to the later.
pub proof fn adjoining_windows_share_nothing(
    o: ObsRowView,
    a: Seq<char>,
    b: Seq<char>,
    t0: Double,
    t1: Double,
    t2: Double,
)
    requires
        o.event_ref is None,
        t0.below(t1),
        t1.below(t2),
        !o.local_onset_s.nan(),
    ensures
        !(belongs(o, a, t0, t1) && belongs(o, b, t1, t2)),
        belongs(o, a, t0, t2) <==> belongs(o, a, t0, t1) || belongs(o, b, t1, t2),
        o.local_onset_s.same_number(t1) ==> belongs(o, b, t1, t2),
        o.local_onset_s.same_number(t0) ==> belongs(o, a, t0, t1),
        o.local_onset_s.same_number(t2) ==> !belongs(o, b, t1, t2),
{
}

/// A new link of an event is to an observation that belongs to it and was not
/// linked before.
pub proof fn what_is_linked_belongs(v: DbView, event_id: Seq<char>, k: int)
    requires
        event_row(v.events, event_id) is Some,
        0 <= k < new_links(v, event_id).len(),
    ensures
        ({
            let h = event_row(v.events, event_id)->0.header;
            let l = new_links(v, event_id)[k];
            &&& l.event_id == event_id
            &&& !has_link(v.links, event_id, l.obs_id)
            &&& exists|i: int|
                0 <= i < v.observations.len() && (#[trigger] v.observations[i]).obs_id == l.obs_id
                    && belongs(v.observations[i], event_id, h.t_start, h.t_end)
        }),
{
    let h = event_row(v.events, event_id)->0.header;
    let pick = unlinked(v, event_id, h.t_start, h.t_end);
    let f = v.observations.filter(pick);
    v.observations.lemma_filter_pred(pick, k);
    assert(f.contains(f[k]));
    v.observations.lemma_filter_contains_rev(pick, f[k]);
    let i = choose|i: int| 0 <= i < v.observations.len() && v.observations[i] == f[k];
    assert(v.observations[i].obs_id == new_links(v, event_id)[k].obs_id);
}

// ---------- Small linear systems ----------

/// The largest of a column from a row on is one of those rows, none from there on
/// is larger in size, and each before it is smaller.
pub proof fn the_largest_is_largest(column: Seq<Double>, from: int, n: int, k: int)
    requires
        0 <= from < n <= column.len(),
        from <= k < n,
        forall|i: int| from <= i < n ==> !(#[trigger] column[i]).nan(),
    ensures
        from <= largest(column, from, n) < n,
        !column[largest(column, from, n)].size().below(column[k].size()),
        k < largest(column, from, n) ==> column[k].size().below(
            column[largest(column, from, n)].size(),
        ),
    decreases n,
{
    if n > from + 1 {
        let m = n - 1;
        let b = largest(column, from, m);
        if k < m {
            the_largest_is_largest(column, from, m, k);
        } else {
            the_largest_is_largest(column, from, m, from);
        }
        assert(!column[b].nan() && !column[m].nan() && !column[k].nan());
    } else {
        assert(!column[from].nan());
    }
}

/// A column is passed over exactly when none of its rows from the rank on is larger
/// than the tolerance; else the row that is taken is such a one, and none is
/// larger.
pub proof fn a_pivot_is_the_largest_above_the_tolerance(
    column: Seq<Double>,
    rank: int,
    tol: Double,
    k: int,
)
    requires
        column.len() == 3,
        0 <= rank <= k < 3,
        !tol.nan(),
        forall|i: int| rank <= i < 3 ==> !(#[trigger] column[i]).nan(),
    ensures
        pivot_of(column, rank, tol) == Pivot::Pass ==> column[k].size().up_to(tol),
        pivot_of(column, rank, tol) matches Pivot::Take(row) ==> {
            &&& rank <= row < 3
            &&& tol.below(column[row as int].size())
            &&& column[k].size().up_to(column[row as int].size())
        },
{
    the_largest_is_largest(column, rank, 3, k);
    assert(!column[largest(column, rank, 3)].nan() && !column[k].nan());
}

/// The free axis of a row is one on which the row is smallest.
pub proof fn the_free_axis_is_the_smallest(row: Seq<Double>, k: int)
    requires
        row.len() == 3,
        0 <= k < 3,
        !row[0].nan(),
        !row[1].nan(),
        !row[2].nan(),
    ensures
        0 <= free_axis_of(row) < 3,
        row[free_axis_of(row)].size().up_to(row[k].size()),
{
}

/// A spoke is an edge that ends at the reference: its other end is the other one,
/// and it leads outward exactly when it starts at the reference.
pub open spec fn is_spoke(edges: Seq<EdgeView>, reference: int, n: int, s: Spoke) -> bool {
    &&& 0 <= s.edge < n
    &&& s.outward ==> edges[s.edge as int].a == reference && edges[s.edge as int].b == s.other
    &&& !s.outward ==> edges[s.edge as int].b == reference && edges[s.edge as int].a == s.other
}

/// Every spoke is an edge at the reference.
pub proof fn spokes_are_edges_at_the_reference(
    edges: Seq<EdgeView>,
    reference: int,
    n: int,
    k: int,
)
    requires
        0 <= n <= edges.len() <= usize::MAX,
        forall|i: int|
            0 <= i < edges.len() ==> 0 <= (#[trigger] edges[i]).a <= usize::MAX && 0 <= edges[i].b
                <= usize::MAX,
        0 <= k < spokes_of(edges, reference, n).len(),
    ensures
        is_spoke(edges, reference, n, spokes_of(edges, reference, n)[k]),
    decreases n,
{
    if n > 0 {
        let m = n - 1;
        let before = spokes_of(edges, reference, m);
        assert(0 <= edges[m].a <= usize::MAX);
        if k < before.len() {
            spokes_are_edges_at_the_reference(edges, reference, m, k);
        }
    }
}

/// Every edge at the reference is a spoke.
pub proof fn every_edge_at_the_reference_is_a_spoke(
    edges: Seq<EdgeView>,
    reference: int,
    n: int,
    i: int,
)
    requires
        0 <= i < n <= edges.len() <= usize::MAX,
        edges[i].a == reference || edges[i].b == reference,
    ensures
        exists|k: int|
            0 <= k < spokes_of(edges, reference, n).len() && (#[trigger] spokes_of(
                edges,
                reference,
                n,
            )[k]).edge == i,
    decreases n,
{
    let m = n - 1;
    let before = spokes_of(edges, reference, m);
    let s = spokes_of(edges, reference, n);
    if i < m {
        every_edge_at_the_reference_is_a_spoke(edges, reference, m, i);
        let k = choose|k: int| 0 <= k < before.len() && (#[trigger] before[k]).edge == i;
        assert(s[k] == before[k]);
    } else {
        assert(s[s.len() - 1].edge == i);
    }
}

} // verus!
