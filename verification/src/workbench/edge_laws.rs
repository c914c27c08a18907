//! What a solve takes from a picture: the edges, their directions, and the clocks
//! they are corrected by.
use vstd::prelude::*;

use crate::arrange::{numbers_lt, place_lt};
use crate::workbench::edges::{
    active_edges, all_edges, both_placed, by_pair, chosen, each_pair_counts_once, edge_at,
    is_chosen, left_out, leg_of, lock_for, offset_for, peak_listed, place_of, same_pair,
    segments_for, some_edge_takes_part, takes_part, Corrected, EdgeView,
};
use crate::workbench::snapshot::{
    EdgeObsView, ExcludedPeakView, LockView, SnapshotView, StationClockView, StationInfoView,
};

verus! {

// ---------- Which edges count ----------

/// An excluded peak is this one of an edge, whichever of the two stations it
/// names first.
pub open spec fn names_the_peak(p: ExcludedPeakView, e: EdgeObsView) -> bool {
    &&& p.peak_index == e.peak_index
    &&& (p.station_a == e.station_a && p.station_b == e.station_b) || (p.station_a == e.station_b
        && p.station_b == e.station_a)
}

/// An edge is left out if and only if an excluded peak is its own, in whichever
/// direction, or it is not a first peak.
pub proof fn edges_are_left_out_by_their_peaks(snap: SnapshotView, e: EdgeObsView)
    ensures
        left_out(snap, e) <==> e.peak_index > 0 || exists|k: int|
            0 <= k < snap.exclude_edges.len() && names_the_peak(
                #[trigger] snap.exclude_edges[k],
                e,
            ),
{
    let list = snap.exclude_edges;
    if peak_listed(list, e.station_a, e.station_b, e.peak_index) {
        let k = choose|k: int|
            0 <= k < list.len() && (#[trigger] list[k]).station_a == e.station_a
                && list[k].station_b == e.station_b && list[k].peak_index == e.peak_index;
        assert(names_the_peak(snap.exclude_edges[k], e));
    }
    if peak_listed(list, e.station_b, e.station_a, e.peak_index) {
        let k = choose|k: int|
            0 <= k < list.len() && (#[trigger] list[k]).station_a == e.station_b
                && list[k].station_b == e.station_a && list[k].peak_index == e.peak_index;
        assert(names_the_peak(snap.exclude_edges[k], e));
    }
}

/// Station `i` of a picture is the last with a name.
pub open spec fn is_last_of_its_name(s: Seq<StationInfoView>, id: Seq<char>, i: int) -> bool {
    &&& 0 <= i < s.len()
    &&& s[i].station_id == id
    &&& forall|j: int| i < j < s.len() ==> (#[trigger] s[j]).station_id != id
}

proof fn places_are_last(s: Seq<StationInfoView>, id: Seq<char>)
    ensures
        place_of(s, id) is Some ==> is_last_of_its_name(s, id, place_of(s, id)->0),
        place_of(s, id) is None ==> forall|i: int|
            0 <= i < s.len() ==> (#[trigger] s[i]).station_id != id,
    decreases s.len(),
{
    if s.len() > 0 {
        let rest = s.drop_last();
        let n = s.len() - 1;
        places_are_last(rest, id);
        if s[n].station_id != id {
            if place_of(rest, id) is Some {
                let i = place_of(rest, id)->0;
                assert(rest[i] == s[i]);
                assert forall|j: int| i < j < s.len() implies (#[trigger] s[j]).station_id != id by {
                    if j < n {
                        assert(rest[j] == s[j]);
                    }
                }
            } else {
                assert forall|i: int| 0 <= i < s.len() implies (
                #[trigger] s[i]).station_id != id by {
                    if i < n {
                        assert(rest[i] == s[i]);
                    }
                }
            }
        }
    }
}

/// An edge of a solve is edge `i` of the picture between its two stations, with
/// the delay worked out for it: as it is where the first station of the picture's
/// edge stands first, and turned round where it stands second.
pub open spec fn is_edge_of(
    snap: SnapshotView,
    c: Seq<Corrected>,
    i: int,
    e: EdgeView,
) -> bool {
    let o = snap.edges[i];
    &&& 0 <= i < snap.edges.len()
    &&& 0 <= i < c.len()
    &&& e.a <= e.b
    &&& {
        ||| is_last_of_its_name(snap.stations, o.station_a, e.a) && is_last_of_its_name(
            snap.stations,
            o.station_b,
            e.b,
        ) && e.delay == c[i].delay
        ||| is_last_of_its_name(snap.stations, o.station_a, e.b) && is_last_of_its_name(
            snap.stations,
            o.station_b,
            e.a,
        ) && e.a < e.b && e.delay == c[i].delay.opposite()
    }
    &&& e.sigma == c[i].sigma
    &&& e.suspect == o.multipath
    &&& e.origin_idx == i
    &&& o.peak_index <= 0
    &&& forall|k: int|
        0 <= k < snap.exclude_edges.len() ==> !names_the_peak(#[trigger] snap.exclude_edges[k], o)
}

/// Every edge of a solve is one of the picture, in the direction of its stations
/// and neither excluded nor a later peak; no two edges have the same two
/// stations.
pub proof fn edges_of_a_solve_are_those_of_the_picture(
    snap: SnapshotView,
    c: Seq<Corrected>,
    k: int,
)
    requires
        c.len() == snap.edges.len(),
        0 <= k < active_edges(snap, c).len(),
    ensures
        is_edge_of(snap, c, active_edges(snap, c)[k].origin_idx, active_edges(snap, c)[k]),
        forall|l: int|
            0 <= l < active_edges(snap, c).len() && l != k ==> (#[trigger] active_edges(
                snap,
                c,
            )[l]).a != active_edges(snap, c)[k].a || active_edges(snap, c)[l].b != active_edges(
                snap,
                c,
            )[k].b,
        forall|l: int|
            k < l < active_edges(snap, c).len() ==> active_edges(snap, c)[k].a < (
            #[trigger] active_edges(snap, c)[l]).a || (active_edges(snap, c)[k].a == active_edges(
                snap,
                c,
            )[l].a && active_edges(snap, c)[k].b < active_edges(snap, c)[l].b),
{
    let r = active_edges(snap, c);
    some_edge_takes_part(snap, c);
    each_pair_counts_once(snap, c, r);
    let i = r[k].origin_idx;
    assert(chosen(snap, c, i) && r[k] == edge_at(snap, c, i));
    let o = snap.edges[i];
    places_are_last(snap.stations, o.station_a);
    places_are_last(snap.stations, o.station_b);
    edges_are_left_out_by_their_peaks(snap, o);
    assert forall|l: int| 0 <= l < r.len() && l != k implies (#[trigger] r[l]).a != r[k].a
        || r[l].b != r[k].b by {
        if l < k {
            assert(!same_pair(r[l], r[k]));
        } else {
            assert(!same_pair(r[k], r[l]));
        }
    }
    assert forall|l: int| k < l < r.len() implies r[k].a < (#[trigger] r[l]).a || (r[k].a == r[l].a
        && r[k].b < r[l].b) by {
        let place = by_pair();
        assert(place_lt(place(r[k]), place(r[l])));
        two_numbers_decide(r[k].a, r[k].b, r[l].a, r[l].b);
    }
}

proof fn two_numbers_decide(a: int, b: int, x: int, y: int)
    ensures
        numbers_lt(seq![a, b], seq![x, y]) ==> a < x || (a == x && b < y),
        seq![a, b] == seq![x, y] ==> a == x && b == y,
{
    reveal_with_fuel(numbers_lt, 3);
    let p = seq![a, b];
    let q = seq![x, y];
    assert(p[0] == a && p[1] == b && q[0] == x && q[1] == y);
    assert(p.drop_first() =~= seq![b]);
    assert(q.drop_first() =~= seq![y]);
    assert(seq![b].drop_first() =~= Seq::<int>::empty());
    assert(seq![y].drop_first() =~= Seq::<int>::empty());
}

/// Every edge of the picture that is not left out, between stations of the
/// picture, is represented in the solve: by an edge between the same two
/// stations, that of the first edge of the picture between them that is not left
/// out.
pub proof fn no_pair_of_stations_is_forgotten(snap: SnapshotView, c: Seq<Corrected>, i: int)
    requires
        0 <= i < snap.edges.len(),
        !left_out(snap, snap.edges[i]),
        both_placed(snap, snap.edges[i]),
    ensures
        exists|k: int|
            0 <= k < active_edges(snap, c).len() && (#[trigger] active_edges(snap, c)[k]).a
                == edge_at(snap, c, i).a && active_edges(snap, c)[k].b == edge_at(snap, c, i).b
                && active_edges(snap, c)[k].origin_idx <= i,
    decreases i,
{
    if chosen(snap, c, i) {
        some_edge_takes_part(snap, c);
        let all = all_edges(snap, c);
        let pick = is_chosen(snap, c);
        let f = all.filter(pick);
        let r = active_edges(snap, c);
        assert(all[i] == edge_at(snap, c, i));
        assert(edge_at(snap, c, i).origin_idx == i);
        all.lemma_filter_contains(pick, i);
        crate::arrange::arrangement_holds_the_same(f, r, all[i]);
        let k = choose|k: int| 0 <= k < r.len() && r[k] == all[i];
        assert(active_edges(snap, c)[k].a == edge_at(snap, c, i).a);
    } else {
        let j = choose|j: int|
            0 <= j < i && takes_part(snap, j) && same_pair(
                #[trigger] edge_at(snap, c, j),
                edge_at(snap, c, i),
            );
        no_pair_of_stations_is_forgotten(snap, c, j);
        let k = choose|k: int|
            0 <= k < active_edges(snap, c).len() && (#[trigger] active_edges(snap, c)[k]).a
                == edge_at(snap, c, j).a && active_edges(snap, c)[k].b == edge_at(snap, c, j).b
                && active_edges(snap, c)[k].origin_idx <= j;
        assert(active_edges(snap, c)[k].a == edge_at(snap, c, i).a);
    }
}

// ---------- By what they are corrected ----------

proof fn segments_of_a_station(clocks: Seq<StationClockView>, id: Seq<char>, k: int)
    requires
        0 <= k < clocks.len(),
        clocks[k].station_id == id,
        forall|j: int| 0 <= j < k ==> (#[trigger] clocks[j]).station_id != id,
    ensures
        segments_for(clocks, id) == clocks[k].segments,
    decreases clocks.len(),
{
    if k > 0 {
        let rest = clocks.drop_first();
        assert(clocks[0].station_id != id);
        assert(rest[k - 1] == clocks[k]);
        assert forall|j: int| 0 <= j < k - 1 implies (#[trigger] rest[j]).station_id != id by {
            assert(rest[j] == clocks[j + 1]);
        }
        segments_of_a_station(rest, id, k - 1);
    }
}

proof fn lock_of_a_station(locks: Seq<LockView>, id: Seq<char>, k: int)
    requires
        0 <= k < locks.len(),
        locks[k].station_id == id,
        forall|j: int| 0 <= j < k ==> (#[trigger] locks[j]).station_id != id,
    ensures
        lock_for(locks, id) == Some((locks[k].offset_s, locks[k].sigma_s)),
    decreases locks.len(),
{
    if k > 0 {
        let rest = locks.drop_first();
        assert(locks[0].station_id != id);
        assert(rest[k - 1] == locks[k]);
        assert forall|j: int| 0 <= j < k - 1 implies (#[trigger] rest[j]).station_id != id by {
            assert(rest[j] == locks[j + 1]);
        }
        lock_of_a_station(rest, id, k - 1);
    }
}

proof fn no_lock_of_a_station(locks: Seq<LockView>, id: Seq<char>)
    requires
        forall|j: int| 0 <= j < locks.len() ==> (#[trigger] locks[j]).station_id != id,
    ensures
        lock_for(locks, id) is None,
    decreases locks.len(),
{
    if locks.len() > 0 {
        let rest = locks.drop_first();
        assert(locks[0].station_id != id);
        assert forall|j: int| 0 <= j < rest.len() implies (#[trigger] rest[j]).station_id != id by {
            assert(rest[j] == locks[j + 1]);
        }
        no_lock_of_a_station(rest, id);
    }
}

/// A station whose clock is locked has the offset of the first lock with its
/// name.
pub proof fn a_locked_station_has_the_offset_of_its_lock(
    snap: SnapshotView,
    id: Seq<char>,
    k: int,
)
    requires
        0 <= k < snap.locks.len(),
        snap.locks[k].station_id == id,
        forall|j: int| 0 <= j < k ==> (#[trigger] snap.locks[j]).station_id != id,
    ensures
        offset_for(snap, id).offset_s == snap.locks[k].offset_s,
        offset_for(snap, id).sigma_s == snap.locks[k].sigma_s,
        offset_for(snap, id).locked,
        !offset_for(snap, id).unknown,
{
    lock_of_a_station(snap.locks, id, k);
}

/// A station whose clock is not locked has the offset of its first segment that
/// holds in the middle of the event.
pub proof fn an_unlocked_station_has_the_offset_of_its_segment(
    snap: SnapshotView,
    id: Seq<char>,
    k: int,
    m: int,
)
    requires
        forall|j: int| 0 <= j < snap.locks.len() ==> (#[trigger] snap.locks[j]).station_id != id,
        0 <= k < snap.segments.len(),
        snap.segments[k].station_id == id,
        forall|j: int| 0 <= j < k ==> (#[trigger] snap.segments[j]).station_id != id,
        0 <= m < snap.segments[k].segments.len(),
        crate::workbench::table_laws::holds(snap.segments[k].segments[m], snap.t_mid),
        forall|j: int|
            0 <= j < m ==> !crate::workbench::table_laws::holds(
                #[trigger] snap.segments[k].segments[j],
                snap.t_mid,
            ),
    ensures
        offset_for(snap, id).offset_s == snap.segments[k].segments[m].offset_s,
        offset_for(snap, id).sigma_s == snap.segments[k].segments[m].sigma_s,
        !offset_for(snap, id).locked,
        !offset_for(snap, id).unknown,
{
    no_lock_of_a_station(snap.locks, id);
    segments_of_a_station(snap.segments, id, k);
    let segs = snap.segments[k].segments;
    assert forall|j: int| 0 <= j < m implies !crate::workbench::table_laws::holds(
        #[trigger] segs[j],
        snap.t_mid,
    ) by {
        assert(!crate::workbench::table_laws::holds(snap.segments[k].segments[j], snap.t_mid));
    }
    crate::workbench::table_laws::without_a_lock_the_segment_that_holds_counts(
        segs,
        snap.t_mid,
        m,
    );
}

/// What is worked out for an edge is worked out from its delay and uncertainty
/// and from the clocks of its two stations, the first with the first.
pub proof fn a_leg_has_the_clocks_of_its_stations(snap: SnapshotView, e: EdgeObsView)
    ensures
        ({
            let l = leg_of(snap, e);
            &&& l.delay_s == e.delay_s
            &&& l.sigma_s == e.sigma_s
            &&& l.offset_a == offset_for(snap, e.station_a).offset_s
            &&& l.sigma_a == offset_for(snap, e.station_a).sigma_s
            &&& l.offset_b == offset_for(snap, e.station_b).offset_s
            &&& l.sigma_b == offset_for(snap, e.station_b).sigma_s
        }),
{
}

} // verus!
