//! The edges that a solve goes by.
//!
//! An edge is a difference of arrivals between two stations, corrected by what
//! is known of their clocks. Excluded and reflected peaks take no part, and each
//! pair of stations counts once.
use vstd::prelude::*;

use crate::arrange::{
    arrange, arranged, arrangement_holds_the_same, is_arrangement, no_number, picked_rows_differ,
    rows_are_arranged, rows_of, said, whole, PlaceView, Placed,
};
use crate::double::Double;
use crate::figures::NO_RESULT;
use crate::order::{filter_of_push, picked_items_keep_their_order, picked_positions};
use crate::text::same;
use crate::workbench::clock::{effective_offset, offset_at, EffectiveOffset};
use crate::workbench::models::{clocksegment_views, ClockSegment, ClockSegmentView};
use crate::workbench::snapshot::{
    excludedpeak_views, lock_views, stationclock_views, stationinfo_views, EdgeObs, EdgeObsView,
    ExcludedPeak, ExcludedPeakView, Lock, LockView, Snapshot, SnapshotView, StationClockView,
    StationInfo, StationInfoView,
};

verus! {

// ---------- Clocks ----------

/// The segments of a station among clocks.
pub open spec fn segments_for(clocks: Seq<StationClockView>, id: Seq<char>) -> Seq<ClockSegmentView>
    decreases clocks.len(),
{
    if clocks.len() == 0 {
        Seq::empty()
    } else if clocks[0].station_id == id {
        clocks[0].segments
    } else {
        segments_for(clocks.drop_first(), id)
    }
}

/// What is locked for a station.
pub open spec fn lock_for(locks: Seq<LockView>, id: Seq<char>) -> Option<(Double, Double)>
    decreases locks.len(),
{
    if locks.len() == 0 {
        None
    } else if locks[0].station_id == id {
        Some((locks[0].offset_s, locks[0].sigma_s))
    } else {
        lock_for(locks.drop_first(), id)
    }
}

/// What is known of the clock of a station in the middle of the event.
pub open spec fn offset_for(snap: SnapshotView, id: Seq<char>) -> EffectiveOffset {
    offset_at(segments_for(snap.segments, id), lock_for(snap.locks, id), snap.t_mid)
}

fn find_lock(locks: &Vec<Lock>, id: &str) -> (r: Option<(Double, Double)>)
    ensures
        r == lock_for(lock_views(locks@), id@),
{
    let ghost all = lock_views(locks@);
    let mut i: usize = 0;
    assert(all.skip(0) =~= all);
    while i < locks.len()
        invariant
            i <= locks@.len(),
            all == lock_views(locks@),
            lock_for(all, id@) == lock_for(all.skip(i as int), id@),
        decreases locks@.len() - i,
    {
        assert(all.skip(i as int)[0] == locks@[i as int]@);
        if same(locks[i].station_id.as_str(), id) {
            return Some((locks[i].offset_s, locks[i].sigma_s));
        }
        assert(all.skip(i as int).drop_first() =~= all.skip(i + 1));
        i += 1;
    }
    None
}

/// What is known of the clock of a station.
pub fn offset_of(snap: &Snapshot, id: &str) -> (r: EffectiveOffset)
    ensures
        r == offset_for(snap@, id@),
{
    let lock = find_lock(&snap.locks, id);
    let ghost all = stationclock_views(snap.segments@);
    let mut i: usize = 0;
    assert(all.skip(0) =~= all);
    while i < snap.segments.len()
        invariant
            i <= snap.segments@.len(),
            all == stationclock_views(snap.segments@),
            lock == lock_for(snap@.locks, id@),
            segments_for(all, id@) == segments_for(all.skip(i as int), id@),
        decreases snap.segments@.len() - i,
    {
        assert(all.skip(i as int)[0] == snap.segments@[i as int]@);
        if same(snap.segments[i].station_id.as_str(), id) {
            return effective_offset(&snap.segments[i].segments, lock, snap.t_mid);
        }
        assert(all.skip(i as int).drop_first() =~= all.skip(i + 1));
        i += 1;
    }
    let none: Vec<ClockSegment> = Vec::new();
    assert(clocksegment_views(none@) =~= Seq::empty());
    effective_offset(&none, lock, snap.t_mid)
}

/// What is known of the clock of each station, in the order of the stations.
pub fn offsets(snap: &Snapshot) -> (r: Vec<EffectiveOffset>)
    ensures
        r@.len() == snap@.stations.len(),
        forall|i: int|
            0 <= i < r@.len() ==> #[trigger] r@[i] == offset_for(
                snap@,
                snap@.stations[i].station_id,
            ),
{
    let mut out: Vec<EffectiveOffset> = Vec::new();
    let mut i: usize = 0;
    while i < snap.stations.len()
        invariant
            i <= snap.stations@.len(),
            out@.len() == i,
            forall|k: int|
                0 <= k < i ==> #[trigger] out@[k] == offset_for(
                    snap@,
                    snap@.stations[k].station_id,
                ),
        decreases snap.stations@.len() - i,
    {
        assert(snap@.stations[i as int] == snap.stations@[i as int]@);
        out.push(offset_of(snap, snap.stations[i].station_id.as_str()));
        i += 1;
    }
    out
}

// ---------- Raw edges ----------

/// Where a station stands in the list: the last place, if it is listed more
/// than once.
pub open spec fn place_of(stations: Seq<StationInfoView>, id: Seq<char>) -> Option<int>
    decreases stations.len(),
{
    if stations.len() == 0 {
        None
    } else if stations.last().station_id == id {
        Some(stations.len() - 1)
    } else {
        place_of(stations.drop_last(), id)
    }
}

/// The place of a station that is found lies in the list.
pub proof fn places_are_in_the_list(stations: Seq<StationInfoView>, id: Seq<char>)
    ensures
        place_of(stations, id) matches Some(i) ==> 0 <= i < stations.len() && stations[i].station_id
            == id,
    decreases stations.len(),
{
    if stations.len() > 0 && stations.last().station_id != id {
        places_are_in_the_list(stations.drop_last(), id);
    }
}

fn find_place(stations: &Vec<StationInfo>, id: &str) -> (r: Option<usize>)
    ensures
        match r {
            Some(i) => i < stations@.len() && place_of(stationinfo_views(stations@), id@) == Some(
                i as int,
            ),
            None => place_of(stationinfo_views(stations@), id@) is None,
        },
{
    let ghost all = stationinfo_views(stations@);
    let mut i: usize = stations.len();
    assert(all.take(i as int) =~= all);
    while i > 0
        invariant
            i <= stations@.len(),
            all == stationinfo_views(stations@),
            place_of(all, id@) == place_of(all.take(i as int), id@),
        decreases i,
    {
        assert(all.take(i as int).last() == stations@[i - 1]@);
        if same(stations[i - 1].station_id.as_str(), id) {
            return Some(i - 1);
        }
        assert(all.take(i as int).drop_last() =~= all.take(i - 1));
        i -= 1;
    }
    None
}

/// A peak is on the list of excluded ones.
pub open spec fn peak_listed(
    list: Seq<ExcludedPeakView>,
    a: Seq<char>,
    b: Seq<char>,
    peak: int,
) -> bool {
    exists|k: int|
        0 <= k < list.len() && (#[trigger] list[k]).station_a == a && list[k].station_b == b
            && list[k].peak_index == peak
}

fn is_listed(list: &Vec<ExcludedPeak>, a: &str, b: &str, peak: i64) -> (r: bool)
    ensures
        r == peak_listed(excludedpeak_views(list@), a@, b@, peak as int),
{
    let ghost all = excludedpeak_views(list@);
    let mut i: usize = 0;
    while i < list.len()
        invariant
            i <= list@.len(),
            all == excludedpeak_views(list@),
            forall|k: int|
                0 <= k < i ==> !((#[trigger] all[k]).station_a == a@ && all[k].station_b == b@
                    && all[k].peak_index == peak),
        decreases list@.len() - i,
    {
        assert(all[i as int] == list@[i as int]@);
        if list[i].peak_index == peak && same(list[i].station_a.as_str(), a) && same(
            list[i].station_b.as_str(),
            b,
        ) {
            return true;
        }
        i += 1;
    }
    false
}

/// An edge is excluded by the analyst, in either direction, or its peak is a
/// reflected one.
pub open spec fn left_out(snap: SnapshotView, e: EdgeObsView) -> bool {
    peak_listed(snap.exclude_edges, e.station_a, e.station_b, e.peak_index) || peak_listed(
        snap.exclude_edges,
        e.station_b,
        e.station_a,
        e.peak_index,
    ) || e.peak_index > 0
}

/// Whether an edge is left out of a solve.
pub fn is_left_out(snap: &Snapshot, e: &EdgeObs) -> (r: bool)
    ensures
        r == left_out(snap@, e@),
{
    is_listed(
        &snap.exclude_edges,
        e.station_a.as_str(),
        e.station_b.as_str(),
        e.peak_index,
    ) || is_listed(
        &snap.exclude_edges,
        e.station_b.as_str(),
        e.station_a.as_str(),
        e.peak_index,
    ) || e.peak_index > 0
}

/// Both stations of an edge are known.
pub open spec fn both_placed(snap: SnapshotView, e: EdgeObsView) -> bool {
    place_of(snap.stations, e.station_a) is Some && place_of(snap.stations, e.station_b) is Some
}

/// The numbers that an edge is corrected by: its delay with the offset at `a`
/// added and the offset at `b` taken off, and the three uncertainties.
#[derive(Clone, Copy, Debug, PartialEq, Eq, Structural)]
pub struct Leg {
    pub delay_s: Double,
    pub sigma_s: Double,
    pub offset_a: Double,
    pub sigma_a: Double,
    pub offset_b: Double,
    pub sigma_b: Double,
}

pub open spec fn leg_of(snap: SnapshotView, e: EdgeObsView) -> Leg {
    let oa = offset_for(snap, e.station_a);
    let ob = offset_for(snap, e.station_b);
    Leg {
        delay_s: e.delay_s,
        sigma_s: e.sigma_s,
        offset_a: oa.offset_s,
        sigma_a: oa.sigma_s,
        offset_b: ob.offset_s,
        sigma_b: ob.sigma_s,
    }
}

/// The numbers that the edges are corrected by.
pub fn legs(snap: &Snapshot) -> (r: Vec<Leg>)
    ensures
        r@ == snap@.edges.map_values(|e: EdgeObsView| leg_of(snap@, e)),
{
    let mut out: Vec<Leg> = Vec::new();
    let mut i: usize = 0;
    while i < snap.edges.len()
        invariant
            i <= snap.edges@.len(),
            out@.len() == i,
            forall|k: int| 0 <= k < i ==> #[trigger] out@[k] == leg_of(snap@, snap@.edges[k]),
        decreases snap.edges@.len() - i,
    {
        let e = &snap.edges[i];
        assert(snap@.edges[i as int] == e@);
        let oa = offset_of(snap, e.station_a.as_str());
        let ob = offset_of(snap, e.station_b.as_str());
        out.push(
            Leg {
                delay_s: e.delay_s,
                sigma_s: e.sigma_s,
                offset_a: oa.offset_s,
                sigma_a: oa.sigma_s,
                offset_b: ob.offset_s,
                sigma_b: ob.sigma_s,
            },
        );
        i += 1;
    }
    assert(out@ =~= snap@.edges.map_values(|e: EdgeObsView| leg_of(snap@, e)));
    out
}

/// An edge after correction, as the numeric side worked it out of its leg:
/// `delay_s + offset_a - offset_b`, and the root of the sum of the squares of
/// the uncertainties.
#[derive(Clone, Copy, Debug, PartialEq, Eq, Structural)]
pub struct Corrected {
    pub delay: Double,
    pub sigma: Double,
}

/// What was worked out for an edge; not a number if nothing was.
pub open spec fn corrected_at(c: Seq<Corrected>, i: int) -> Corrected {
    if 0 <= i < c.len() {
        c[i]
    } else {
        Corrected { delay: Double { bits: NO_RESULT }, sigma: Double { bits: NO_RESULT } }
    }
}

fn read_corrected(c: &Vec<Corrected>, i: usize) -> (r: Corrected)
    ensures
        r == corrected_at(c@, i as int),
{
    if i < c.len() {
        c[i]
    } else {
        Corrected { delay: Double { bits: NO_RESULT }, sigma: Double { bits: NO_RESULT } }
    }
}

/// An edge between the stations at `a` and `b`, where `a` does not come after
/// `b`.
#[derive(Debug)]
pub struct Edge {
    pub a: usize,
    pub b: usize,
    /// The arrival at `b` minus the arrival at `a`, in site time.
    pub delay: Double,
    pub sigma: Double,
    /// Which of the measured differences it comes from.
    pub origin_idx: usize,
    /// It may be a reflection.
    pub suspect: bool,
}

/// What a [`Edge`] says.
#[verifier::ext_equal]
pub ghost struct EdgeView {
    pub a: int,
    pub b: int,
    pub delay: Double,
    pub sigma: Double,
    pub origin_idx: int,
    pub suspect: bool,
}

impl View for Edge {
    type V = EdgeView;

    open spec fn view(&self) -> EdgeView {
        EdgeView {
            a: self.a as int,
            b: self.b as int,
            delay: self.delay,
            sigma: self.sigma,
            origin_idx: self.origin_idx as int,
            suspect: self.suspect,
        }
    }
}

impl Edge {
    /// A second value that says the same.
    pub fn copy(&self) -> (r: Edge)
        ensures
            r@ == self@,
    {
        Edge {
            a: self.a,
            b: self.b,
            delay: self.delay,
            sigma: self.sigma,
            origin_idx: self.origin_idx,
            suspect: self.suspect,
        }
    }
}

/// What a list of edges says.
pub open spec fn edge_views(s: Seq<Edge>) -> Seq<EdgeView> {
    s.map_values(|v: Edge| v@)
}

/// The edge that a measured difference makes. The delay turns round with the
/// stations.
pub open spec fn edge_at(snap: SnapshotView, c: Seq<Corrected>, i: int) -> EdgeView {
    let e = snap.edges[i];
    let ia = place_of(snap.stations, e.station_a)->0;
    let ib = place_of(snap.stations, e.station_b)->0;
    let k = corrected_at(c, i);
    if ia <= ib {
        EdgeView {
            a: ia,
            b: ib,
            delay: k.delay,
            sigma: k.sigma,
            origin_idx: i,
            suspect: e.multipath,
        }
    } else {
        EdgeView {
            a: ib,
            b: ia,
            delay: k.delay.opposite(),
            sigma: k.sigma,
            origin_idx: i,
            suspect: e.multipath,
        }
    }
}

fn make_edge(snap: &Snapshot, c: &Vec<Corrected>, i: usize) -> (r: Option<Edge>)
    requires
        i < snap.edges@.len(),
    ensures
        match r {
            Some(e) => both_placed(snap@, snap@.edges[i as int]) && e@ == edge_at(
                snap@,
                c@,
                i as int,
            ) && e.a <= e.b < snap@.stations.len(),
            None => !both_placed(snap@, snap@.edges[i as int]),
        },
{
    let e = &snap.edges[i];
    assert(snap@.edges[i as int] == e@);
    let k = read_corrected(c, i);
    match (
        find_place(&snap.stations, e.station_a.as_str()),
        find_place(&snap.stations, e.station_b.as_str()),
    ) {
        (Some(ia), Some(ib)) => {
            if ia <= ib {
                Some(
                    Edge {
                        a: ia,
                        b: ib,
                        delay: k.delay,
                        sigma: k.sigma,
                        origin_idx: i,
                        suspect: e.multipath,
                    },
                )
            } else {
                Some(
                    Edge {
                        a: ib,
                        b: ia,
                        delay: k.delay.negated(),
                        sigma: k.sigma,
                        origin_idx: i,
                        suspect: e.multipath,
                    },
                )
            }
        },
        _ => None,
    }
}

// ---------- The edges that take part ----------

/// A measured difference takes part in the solve.
pub open spec fn takes_part(snap: SnapshotView, i: int) -> bool {
    !left_out(snap, snap.edges[i]) && both_placed(snap, snap.edges[i])
}

pub open spec fn same_pair(e: EdgeView, f: EdgeView) -> bool {
    e.a == f.a && e.b == f.b
}

/// A measured difference is the first one for its pair of stations that takes
/// part.
pub open spec fn chosen(snap: SnapshotView, c: Seq<Corrected>, i: int) -> bool {
    &&& 0 <= i < snap.edges.len()
    &&& takes_part(snap, i)
    &&& forall|k: int|
        0 <= k < i && takes_part(snap, k) ==> !same_pair(
            #[trigger] edge_at(snap, c, k),
            edge_at(snap, c, i),
        )
}

/// The edges that all measured differences make.
pub open spec fn all_edges(snap: SnapshotView, c: Seq<Corrected>) -> Seq<EdgeView> {
    Seq::new(snap.edges.len(), |i: int| edge_at(snap, c, i))
}

/// The edges that are chosen.
pub open spec fn is_chosen(snap: SnapshotView, c: Seq<Corrected>) -> spec_fn(EdgeView) -> bool {
    |e: EdgeView| chosen(snap, c, e.origin_idx)
}

/// Edges stand in the order of their stations.
pub open spec fn by_pair() -> spec_fn(EdgeView) -> PlaceView {
    |e: EdgeView|
        (seq![e.a, e.b], Seq::<char>::empty(), Seq::<char>::empty(), Seq::<int>::empty())
}

/// The edges that a solve goes by: one for each pair of stations, in the order
/// of the stations.
pub open spec fn active_edges(snap: SnapshotView, c: Seq<Corrected>) -> Seq<EdgeView> {
    arranged(all_edges(snap, c).filter(is_chosen(snap, c)), by_pair())
}

/// For each pair of which a difference takes part, the first one is chosen.
proof fn a_first_one_is_chosen(snap: SnapshotView, c: Seq<Corrected>, i: int) -> (first: int)
    requires
        0 <= i < snap.edges.len(),
        takes_part(snap, i),
    ensures
        0 <= first <= i,
        chosen(snap, c, first),
        same_pair(edge_at(snap, c, first), edge_at(snap, c, i)),
    decreases i,
{
    if chosen(snap, c, i) {
        i
    } else {
        let k = choose|k: int|
            0 <= k < i && takes_part(snap, k) && same_pair(
                #[trigger] edge_at(snap, c, k),
                edge_at(snap, c, i),
            );
        a_first_one_is_chosen(snap, c, k)
    }
}

fn two_numbers(n: usize, m: usize) -> (r: Vec<i128>)
    ensures
        whole(r@) == seq![n as int, m as int],
{
    let mut r: Vec<i128> = Vec::new();
    r.push(n as i128);
    r.push(m as i128);
    assert(whole(r@) =~= seq![n as int, m as int]);
    r
}

fn has_pair(list: &Vec<Placed<Edge>>, e: &Edge) -> (r: bool)
    ensures
        r == exists|k: int| 0 <= k < list@.len() && same_pair((#[trigger] list@[k]).item@, e@),
{
    let mut i: usize = 0;
    while i < list.len()
        invariant
            i <= list@.len(),
            forall|k: int| 0 <= k < i ==> !same_pair((#[trigger] list@[k]).item@, e@),
        decreases list@.len() - i,
    {
        if list[i].item.a == e.a && list[i].item.b == e.b {
            assert(same_pair(list@[i as int].item@, e@));
            return true;
        }
        i += 1;
    }
    false
}

/// Edges that come from different differences of one pair are not both chosen.
proof fn chosen_pairs_differ(snap: SnapshotView, c: Seq<Corrected>, i: int, k: int)
    requires
        chosen(snap, c, i),
        chosen(snap, c, k),
        i != k,
    ensures
        !same_pair(edge_at(snap, c, i), edge_at(snap, c, k)),
{
}

/// Picks the edges that take part, and says of each measured difference whether
/// it may: false means that it is left out, by the analyst or as a reflection.
pub fn prepare_edges(snap: &Snapshot, c: &Vec<Corrected>) -> (r: (Vec<Edge>, Vec<bool>))
    ensures
        edge_views(r.0@) == active_edges(snap@, c@),
        is_arrangement(
            all_edges(snap@, c@).filter(is_chosen(snap@, c@)),
            edge_views(r.0@),
            by_pair(),
        ),
        r.1@.len() == snap@.edges.len(),
        forall|i: int| 0 <= i < r.1@.len() ==> #[trigger] r.1@[i] == !left_out(
            snap@,
            snap@.edges[i],
        ),
{
    let ghost v = snap@;
    let ghost all = all_edges(v, c@);
    let ghost pick = is_chosen(v, c@);
    let ghost place = by_pair();
    let mut out: Vec<Placed<Edge>> = Vec::new();
    let mut used: Vec<bool> = Vec::new();
    let mut i: usize = 0;
    proof {
        reveal(Seq::filter);
        assert(all.take(0) =~= Seq::empty());
    }
    assert(rows_of(out@) =~= all.take(0).filter(pick));
    while i < snap.edges.len()
        invariant
            i <= snap.edges@.len(),
            v == snap@,
            all == all_edges(v, c@),
            pick == is_chosen(v, c@),
            place == by_pair(),
            rows_of(out@) == all.take(i as int).filter(pick),
            forall|k: int|
                0 <= k < out@.len() ==> (#[trigger] out@[k]).place() == place(out@[k].item@),
            used@.len() == i,
            forall|k: int| 0 <= k < i ==> #[trigger] used@[k] == !left_out(v, v.edges[k]),
        decreases snap.edges@.len() - i,
    {
        let ghost x = edge_at(v, c@, i as int);
        let ghost before = rows_of(out@);
        assert(v.edges[i as int] == snap.edges@[i as int]@);
        assert(all.take(i + 1) =~= all.take(i as int).push(x));
        proof {
            filter_of_push(all.take(i as int), x, pick);
        }
        let admitted = !is_left_out(snap, &snap.edges[i]);
        match make_edge(snap, c, i) {
            Some(e) => {
                if admitted {
                    assert(takes_part(v, i as int));
                    if !has_pair(&out, &e) {
                        proof {
                            if !chosen(v, c@, i as int) {
                                let first = a_first_one_is_chosen(v, c@, i as int);
                                broadcast use vstd::seq_lib::group_filter_ensures;

                                assert(all.take(i as int)[first] == edge_at(v, c@, first));
                                assert(pick(edge_at(v, c@, first)));
                                assert(all.take(i as int).filter(pick).contains(
                                    edge_at(v, c@, first),
                                ));
                                let k = choose|k: int|
                                    0 <= k < before.len() && before[k] == edge_at(v, c@, first);
                                assert(out@[k].item@ == before[k]);
                                assert(same_pair(out@[k].item@, e@));
                            }
                        }
                        assert(chosen(v, c@, i as int));
                        let lead = two_numbers(e.a, e.b);
                        out.push(
                            Placed {
                                lead,
                                a: String::new(),
                                b: String::new(),
                                tail: no_number(),
                                item: e,
                            },
                        );
                        assert(rows_of(out@) =~= before.push(x));
                    } else {
                        proof {
                            let k = choose|k: int|
                                0 <= k < out@.len() && same_pair((#[trigger] out@[k]).item@, e@);
                            picked_items_keep_their_order(all.take(i as int), pick);
                            let p = picked_positions(all.take(i as int), pick);
                            assert(before[k] == out@[k].item@);
                            assert(before[k] == all.take(i as int)[p[k]]);
                            assert(before[k] == edge_at(v, c@, p[k]));
                            assert(pick(before[k]));
                            assert(takes_part(v, p[k]));
                            assert(!chosen(v, c@, i as int));
                        }
                    }
                }
            },
            None => {},
        }
        used.push(admitted);
        i += 1;
    }
    assert(all.take(i as int) =~= all);
    proof {
        assert forall|j: int, k: int|
            0 <= j < k < all.len() && pick(#[trigger] all[j])
                && pick(#[trigger] all[k]) implies place(
            all[j],
        ) != place(all[k]) by {
            chosen_pairs_differ(v, c@, j, k);
            let (p, q) = (all[j], all[k]);
            assert(seq![p.a, p.b][0] == p.a && seq![p.a, p.b][1] == p.b);
            assert(seq![q.a, q.b][0] == q.a && seq![q.a, q.b][1] == q.b);
        }
        picked_rows_differ(all, pick, place);
        assert forall|j: int, k: int| 0 <= j < k < out@.len() implies (
            #[trigger] out@[j]).place() != (
        #[trigger] out@[k]).place() by {
            assert(rows_of(out@)[j] == out@[j].item@ && rows_of(out@)[k] == out@[k].item@);
        }
    }
    let r = arrange(out, Ghost(place));
    assert(edge_views(r@) =~= said(r@));
    (r, used)
}

/// What is known of the edges that a solve goes by: each comes from a measured
/// difference that is neither excluded nor reflected, and no two join the same
/// stations.
pub proof fn each_pair_counts_once(snap: SnapshotView, c: Seq<Corrected>, r: Seq<EdgeView>)
    requires
        is_arrangement(all_edges(snap, c).filter(is_chosen(snap, c)), r, by_pair()),
    ensures
        forall|i: int|
            0 <= i < r.len() ==> chosen(snap, c, (#[trigger] r[i]).origin_idx) && r[i] == edge_at(
                snap,
                c,
                r[i].origin_idx,
            ),
        forall|i: int, j: int|
            0 <= i < j < r.len() ==> !same_pair(#[trigger] r[i], #[trigger] r[j]),
{
    let all = all_edges(snap, c);
    let pick = is_chosen(snap, c);
    assert forall|i: int| 0 <= i < r.len() implies chosen(
        snap,
        c,
        (#[trigger] r[i]).origin_idx,
    ) && r[i] == edge_at(snap, c, r[i].origin_idx) by {
        assert(r.contains(r[i]));
        arrangement_holds_the_same(all.filter(pick), r, r[i]);
        picked_items_keep_their_order(all, pick);
        let p = picked_positions(all, pick);
        let k = choose|k: int| 0 <= k < all.filter(pick).len() && all.filter(pick)[k] == r[i];
        assert(all[p[k]] == edge_at(snap, c, p[k]));
        assert(pick(all.filter(pick)[k]));
    }
    assert forall|i: int, j: int| 0 <= i < j < r.len() implies !same_pair(
        #[trigger] r[i],
        #[trigger] r[j],
    ) by {
        let place = by_pair();
        crate::arrange::place_order_is_total(place(r[i]), place(r[j]));
        if same_pair(r[i], r[j]) {
            assert(place(r[i]) == place(r[j]));
        }
    }
}

/// There is an edge to go by exactly where a measured difference takes part.
pub proof fn some_edge_takes_part(snap: SnapshotView, c: Seq<Corrected>)
    ensures
        is_arrangement(
            all_edges(snap, c).filter(is_chosen(snap, c)),
            active_edges(snap, c),
            by_pair(),
        ),
        active_edges(snap, c).len() == 0 <==> forall|i: int|
            0 <= i < snap.edges.len() ==> !#[trigger] takes_part(snap, i),
{
    let all = all_edges(snap, c);
    let pick = is_chosen(snap, c);
    let place = by_pair();
    let list = all.filter(pick);
    picked_items_keep_their_order(all, pick);
    let p = picked_positions(all, pick);
    assert forall|j: int, k: int| 0 <= j < k < list.len() implies place(#[trigger] list[j])
        != place(#[trigger] list[k]) by {
        assert(all[p[j]] == edge_at(snap, c, p[j]));
        assert(all[p[k]] == edge_at(snap, c, p[k]));
        assert(pick(list[j]) && pick(list[k]));
        assert(p[j] < p[k]);
        chosen_pairs_differ(snap, c, p[j], p[k]);
        let (x, y) = (list[j], list[k]);
        assert(seq![x.a, x.b][0] == x.a && seq![x.a, x.b][1] == x.b);
        assert(seq![y.a, y.b][0] == y.a && seq![y.a, y.b][1] == y.b);
    }
    rows_are_arranged(list, place);
    let r = active_edges(snap, c);
    if r.len() > 0 {
        arrangement_holds_the_same(list, r, r[0]);
        assert(pick(list[0]));
        assert(all[p[0]] == edge_at(snap, c, p[0]));
        assert(takes_part(snap, p[0]));
    }
    if exists|i: int| 0 <= i < snap.edges.len() && #[trigger] takes_part(snap, i) {
        let i = choose|i: int| 0 <= i < snap.edges.len() && #[trigger] takes_part(snap, i);
        let first = a_first_one_is_chosen(snap, c, i);
        broadcast use vstd::seq_lib::group_filter_ensures;

        assert(all[first] == edge_at(snap, c, first));
        assert(pick(all[first]));
        assert(list.contains(all[first]));
        arrangement_holds_the_same(list, r, all[first]);
    }
}

// ---------- All edges, for the record ----------

/// An edge, and whether it is left out.
#[derive(Debug)]
pub struct EdgeRow {
    pub edge: Edge,
    pub excluded: bool,
}

/// What a [`EdgeRow`] says.
#[verifier::ext_equal]
pub ghost struct EdgeRowView {
    pub edge: EdgeView,
    pub excluded: bool,
}

impl View for EdgeRow {
    type V = EdgeRowView;

    open spec fn view(&self) -> EdgeRowView {
        EdgeRowView {
            edge: self.edge@,
            excluded: self.excluded,
        }
    }
}

impl EdgeRow {
    /// A second value that says the same.
    pub fn copy(&self) -> (r: EdgeRow)
        ensures
            r@ == self@,
    {
        EdgeRow {
            edge: self.edge.copy(),
            excluded: self.excluded,
        }
    }
}

/// What a list of edges says.
pub open spec fn edgerow_views(s: Seq<EdgeRow>) -> Seq<EdgeRowView> {
    s.map_values(|v: EdgeRow| v@)
}

/// All measured differences with what becomes of them.
pub open spec fn all_rows(snap: SnapshotView, c: Seq<Corrected>) -> Seq<EdgeRowView> {
    Seq::new(
        snap.edges.len(),
        |i: int|
            EdgeRowView { edge: edge_at(snap, c, i), excluded: left_out(snap, snap.edges[i]) },
    )
}

/// Those between stations that are known.
pub open spec fn is_placed(snap: SnapshotView) -> spec_fn(EdgeRowView) -> bool {
    |r: EdgeRowView| both_placed(snap, snap.edges[r.edge.origin_idx])
}

/// They stand in the order of their stations, and for one pair in the order in
/// which they were measured.
pub open spec fn by_pair_and_origin() -> spec_fn(EdgeRowView) -> PlaceView {
    |r: EdgeRowView|
        (
            seq![r.edge.a, r.edge.b],
            Seq::<char>::empty(),
            Seq::<char>::empty(),
            seq![r.edge.origin_idx],
        )
}

/// All edges between known stations, left out or not.
pub open spec fn edge_rows(snap: SnapshotView, c: Seq<Corrected>) -> Seq<EdgeRowView> {
    arranged(all_rows(snap, c).filter(is_placed(snap)), by_pair_and_origin())
}

/// Lists all edges between known stations, with whether each is left out.
pub fn all_edge_views(snap: &Snapshot, c: &Vec<Corrected>) -> (r: Vec<EdgeRow>)
    ensures
        edgerow_views(r@) == edge_rows(snap@, c@),
        is_arrangement(
            all_rows(snap@, c@).filter(is_placed(snap@)),
            edgerow_views(r@),
            by_pair_and_origin(),
        ),
{
    let ghost v = snap@;
    let ghost all = all_rows(v, c@);
    let ghost pick = is_placed(v);
    let ghost place = by_pair_and_origin();
    let mut out: Vec<Placed<EdgeRow>> = Vec::new();
    let mut i: usize = 0;
    proof {
        reveal(Seq::filter);
        assert(all.take(0) =~= Seq::empty());
    }
    assert(rows_of(out@) =~= all.take(0).filter(pick));
    while i < snap.edges.len()
        invariant
            i <= snap.edges@.len(),
            v == snap@,
            all == all_rows(v, c@),
            pick == is_placed(v),
            place == by_pair_and_origin(),
            rows_of(out@) == all.take(i as int).filter(pick),
            forall|k: int|
                0 <= k < out@.len() ==> (#[trigger] out@[k]).place() == place(out@[k].item@),
        decreases snap.edges@.len() - i,
    {
        let ghost x = all[i as int];
        let ghost before = rows_of(out@);
        assert(v.edges[i as int] == snap.edges@[i as int]@);
        assert(all.take(i + 1) =~= all.take(i as int).push(x));
        proof {
            filter_of_push(all.take(i as int), x, pick);
        }
        match make_edge(snap, c, i) {
            Some(e) => {
                let lead = two_numbers(e.a, e.b);
                let excluded = is_left_out(snap, &snap.edges[i]);
                assert(pick(x));
                out.push(
                    Placed {
                        lead,
                        a: String::new(),
                        b: String::new(),
                        tail: crate::arrange::one_number(i as i128),
                        item: EdgeRow { edge: e, excluded },
                    },
                );
                assert(out@.last().item@ == x);
                assert(rows_of(out@) =~= before.push(x));
            },
            None => {
                assert(!pick(x));
            },
        }
        i += 1;
    }
    assert(all.take(i as int) =~= all);
    proof {
        assert forall|j: int, k: int|
            0 <= j < k < all.len() && pick(#[trigger] all[j])
                && pick(#[trigger] all[k]) implies place(
            all[j],
        ) != place(all[k]) by {
            assert(seq![all[j].edge.origin_idx][0] == j);
            assert(seq![all[k].edge.origin_idx][0] == k);
        }
        picked_rows_differ(all, pick, place);
        assert forall|j: int, k: int| 0 <= j < k < out@.len() implies (
            #[trigger] out@[j]).place() != (
        #[trigger] out@[k]).place() by {
            assert(rows_of(out@)[j] == out@[j].item@ && rows_of(out@)[k] == out@[k].item@);
        }
    }
    let r = arrange(out, Ghost(place));
    assert(edgerow_views(r@) =~= said(r@));
    r
}

} // verus!
