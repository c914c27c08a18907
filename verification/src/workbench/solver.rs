//! Localisation from differences of arrivals.
//!
//! A solve takes a snapshot and puts out a new list of candidates. It depends on
//! the snapshot and on the numbers worked out for it alone: solving again, or
//! elsewhere, gives the same candidates with the same keys in the same order.
use vstd::prelude::*;
use vstd::string::*;

use crate::arrange::{
    arrange, arranged, arrangement_holds_the_same, is_arrangement, one_number, place_lt,
    rows_are_arranged, rows_of, said, whole, PlaceView, Placed,
};
use crate::canon::{canonical_json, canonical_text, Decimals, Quoting};
use crate::digest::{fingerprint, framed, sha256_hex, slices};
use crate::double::Double;
use crate::figures::{Distances, NO_RESULT};
use crate::json::{array, json_views, Json, JsonView, Members};
use crate::text::{chars_of, decimal, decimal_text, same, text_of};
use crate::workbench::db::is_shape;
use crate::workbench::edges::{
    active_edges, all_edge_views, all_rows, by_pair_and_origin, edge_rows, edge_views,
    edgerow_views, is_placed, prepare_edges, some_edge_takes_part, takes_part, Corrected, Edge,
    EdgeRow, EdgeRowView, EdgeView,
};
use crate::workbench::fitting::{
    clocks_dominate, core_points, core_region, fits, is_fitting, kept_are_no_more, kept_edges,
    kept_without_drops, location_views, multipath_scenarios, place_sets, places,
    positions_are_observable, positions_or_a_region, said_region, scenario_edges, scenarios,
    solve_core, within, Fit, FitView, LocationView, Predicted, System,
};
use crate::workbench::models::{residualrow_views, ResidualRow, ResidualRowView};
pub use crate::workbench::fitting::{region_reason, CLOCK_DOMINANT_SIGMA};
pub use crate::workbench::snapshot::{CandidateOut, EdgeObs, Snapshot, StationInfo};
use crate::workbench::snapshot::{
    candidateout_views, keptpair_views, CandidateOutView, KeptPair, KeptPairView, SnapshotView,
};

verus! {

/// 0.8: the weighted residual above which edges contradict each other.
pub const INCONSISTENT_NSIGMA: u64 = 0x3fe9_9999_9999_999a;

/// 1 m: positions that are nearer are one.
pub const MERGE_DISTANCE_M: u64 = 0x3ff0_0000_0000_0000;

/// The numbers that a solve goes by, as the numeric side worked them out: the
/// corrected edges, the system of each set of edges in the order in which the
/// sets are tried, and the distances of the positions that came out.
#[derive(Debug)]
pub struct Figures {
    pub corrected: Vec<Corrected>,
    pub systems: Vec<Option<System>>,
    pub distances: Distances,
}

/// The numbers are not those of the snapshot.
#[derive(Clone, Copy, Debug, PartialEq, Eq, Structural)]
pub struct OtherNumbers;

// ---------- What the sets of edges come to ----------

/// A position that came out: with what rank, which edges were dropped, and as
/// the how many-th it came.
#[derive(Debug)]
pub struct Found {
    pub fit: Fit,
    pub rank: usize,
    pub dropped: Vec<usize>,
    pub seat: usize,
}

/// What a [`Found`] says.
#[verifier::ext_equal]
pub ghost struct FoundView {
    pub fit: FitView,
    pub rank: int,
    pub dropped: Seq<int>,
    pub seat: int,
}

impl View for Found {
    type V = FoundView;

    open spec fn view(&self) -> FoundView {
        FoundView {
            fit: self.fit@,
            rank: self.rank as int,
            dropped: places(self.dropped@),
            seat: self.seat as int,
        }
    }
}

pub open spec fn found_views(s: Seq<Found>) -> Seq<FoundView> {
    s.map_values(|f: Found| f@)
}

/// The system that was worked out for a set of edges.
pub open spec fn system_at(w: Figures, k: int) -> Option<System> {
    if 0 <= k < w.systems@.len() {
        w.systems@[k]
    } else {
        None
    }
}

/// The positions that come out with the k-th set of edges dropped.
pub open spec fn points_of(radius: Double, active: Seq<EdgeView>, w: Figures, k: int) -> Seq<
    LocationView,
> {
    let edges = kept_edges(active, scenarios(active)[k]);
    match system_at(w, k) {
        Some(s) => if edges.len() == 0 {
            Seq::empty()
        } else {
            core_points(radius, edges, s)
        },
        None => Seq::empty(),
    }
}

/// The region that comes out with the k-th set of edges dropped.
pub open spec fn region_of_set(radius: Double, active: Seq<EdgeView>, w: Figures, k: int) -> Option<
    (JsonView, Seq<char>),
> {
    let edges = kept_edges(active, scenarios(active)[k]);
    match system_at(w, k) {
        Some(s) => if edges.len() == 0 {
            None
        } else {
            core_region(radius, edges, s)
        },
        None => None,
    }
}

/// For every set of edges that is not empty there is a system of it.
pub open spec fn systems_fit(radius: Double, active: Seq<EdgeView>, w: Figures) -> bool {
    forall|k: int|
        0 <= k < scenarios(active).len() && kept_edges(
            active,
            #[trigger] scenarios(active)[k],
        ).len() > 0 ==> (system_at(w, k) matches Some(s) && fits(
            s,
            kept_edges(active, scenarios(active)[k]),
            radius,
        ))
}

/// Positions as they are found, numbered from `seat` on.
pub open spec fn seated(points: Seq<LocationView>, dropped: Seq<int>, seat: int) -> Seq<FoundView> {
    Seq::new(
        points.len(),
        |j: int|
            FoundView { fit: points[j].fit, rank: points[j].rank, dropped, seat: seat + j },
    )
}

/// All positions that come out with the first `k` sets.
pub open spec fn found_upto(radius: Double, active: Seq<EdgeView>, w: Figures, k: int) -> Seq<
    FoundView,
>
    decreases k,
{
    if k <= 0 {
        Seq::empty()
    } else {
        let before = found_upto(radius, active, w, k - 1);
        before + seated(
            points_of(radius, active, w, k - 1),
            scenarios(active)[k - 1],
            before.len() as int,
        )
    }
}

/// The first region that comes out with the first `k` sets.
pub open spec fn region_upto(radius: Double, active: Seq<EdgeView>, w: Figures, k: int) -> Option<
    (JsonView, Seq<char>),
>
    decreases k,
{
    if k <= 0 {
        None
    } else if region_upto(radius, active, w, k - 1) is Some {
        region_upto(radius, active, w, k - 1)
    } else {
        region_of_set(radius, active, w, k - 1)
    }
}

proof fn seats_count_up(radius: Double, active: Seq<EdgeView>, w: Figures, k: int)
    ensures
        forall|i: int|
            0 <= i < found_upto(radius, active, w, k).len() ==> (#[trigger] found_upto(
                radius,
                active,
                w,
                k,
            )[i]).seat == i,
    decreases k,
{
    if k > 0 {
        seats_count_up(radius, active, w, k - 1);
        let before = found_upto(radius, active, w, k - 1);
        let all = found_upto(radius, active, w, k);
        assert forall|i: int| 0 <= i < all.len() implies (#[trigger] all[i]).seat == i by {
            if i < before.len() {
                assert(all[i] == before[i]);
            }
        }
    }
}

fn copy_places(list: &Vec<usize>) -> (r: Vec<usize>)
    ensures
        r@ == list@,
{
    let mut out: Vec<usize> = Vec::new();
    let mut i: usize = 0;
    while i < list.len()
        invariant
            i <= list@.len(),
            out@ =~= list@.take(i as int),
        decreases list@.len() - i,
    {
        out.push(list[i]);
        i += 1;
    }
    out
}

/// Goes through the sets of edges.
fn gather(radius: Double, active: &Vec<Edge>, w: &Figures) -> (r: Option<(
    Vec<Found>,
    Option<(Json, String)>,
)>)
    ensures
        ({
            let a = edge_views(active@);
            let n = scenarios(a).len() as int;
            match r {
                Some(t) => systems_fit(radius, a, *w) && found_views(t.0@) == found_upto(
                    radius,
                    a,
                    *w,
                    n,
                ) && said_region(t.1) == region_upto(radius, a, *w, n),
                None => !systems_fit(radius, a, *w),
            }
        }),
{
    let ghost a = edge_views(active@);
    let sets = multipath_scenarios(active);
    let mut out: Vec<Found> = Vec::new();
    let mut region: Option<(Json, String)> = None;
    let mut k: usize = 0;
    assert(found_views(out@) =~= Seq::empty());
    while k < sets.len()
        invariant
            k <= sets@.len(),
            a == edge_views(active@),
            place_sets(sets@) == scenarios(a),
            found_views(out@) == found_upto(radius, a, *w, k as int),
            said_region(region) == region_upto(radius, a, *w, k as int),
            forall|j: int|
                0 <= j < k && kept_edges(a, #[trigger] scenarios(a)[j]).len() > 0 ==> (system_at(
                    *w,
                    j,
                ) matches Some(s) && fits(s, kept_edges(a, scenarios(a)[j]), radius)),
        decreases sets@.len() - k,
    {
        let dropped = &sets[k];
        assert(place_sets(sets@)[k as int] == places(dropped@));
        assert(scenarios(a)[k as int] == places(dropped@));
        let edges = scenario_edges(active, dropped);
        assert(edge_views(edges@).len() == edges@.len());
        let ghost before = found_views(out@);
        let ghost pts = points_of(radius, a, *w, k as int);
        assert(edge_views(edges@) == kept_edges(a, scenarios(a)[k as int]));
        if edges.len() > 0 {
            if k >= w.systems.len() {
                assert(system_at(*w, k as int) is None);
                return None;
            }
            match &w.systems[k] {
                Some(sys) => {
                    if !is_fitting(sys, &edges, radius) {
                        return None;
                    }
                    let core = solve_core(radius, &edges, sys);
                    let points = core.points;
                    assert(location_views(points@) == pts);
                    let mut j: usize = 0;
                    while j < points.len()
                        invariant
                            j <= points@.len(),
                            location_views(points@) == pts,
                            before.len() + j == out@.len(),
                            found_views(out@) =~= before + seated(
                                pts,
                                places(dropped@),
                                before.len() as int,
                            ).take(j as int),
                        decreases points@.len() - j,
                    {
                        let seat: usize = out.len();
                        let f = Found {
                            fit: points[j].fit.copy(),
                            rank: points[j].rank,
                            dropped: copy_places(dropped),
                            seat,
                        };
                        assert(pts[j as int] == points@[j as int]@);
                        let ghost all = seated(pts, places(dropped@), before.len() as int);
                        assert(f@ == all[j as int]);
                        let ghost now = found_views(out@);
                        out.push(f);
                        assert(found_views(out@) =~= now.push(all[j as int]));
                        assert(all.take(j + 1) =~= all.take(j as int).push(all[j as int]));
                        j += 1;
                    }
                    proof {
                        let all = seated(pts, places(dropped@), before.len() as int);
                        assert(all.take(j as int) =~= all);
                    }
                    if region.is_none() {
                        region = core.region;
                    }
                },
                None => {
                    return None;
                },
            }
        } else {
            assert(pts =~= Seq::empty());
            assert(seated(pts, places(dropped@), before.len() as int) =~= Seq::empty());
            assert(found_views(out@) =~= before + seated(
                pts,
                places(dropped@),
                before.len() as int,
            ));
        }
        k += 1;
    }
    assert(scenarios(a).len() == sets@.len());
    Some((out, region))
}

// ---------- One position for each place ----------

/// Positions stand by residual, largest residual and place; those with the same
/// ranks in the order in which they were found.
pub open spec fn by_ranks() -> spec_fn(FoundView) -> PlaceView {
    |f: FoundView|
        (
            seq![f.fit.rank_rms, f.fit.rank_max, f.fit.rank_x, f.fit.rank_y],
            Seq::<char>::empty(),
            Seq::<char>::empty(),
            seq![f.seat],
        )
}

fn four_numbers(a: i64, b: i64, c: i64, d: i64) -> (r: Vec<i128>)
    ensures
        whole(r@) == seq![a as int, b as int, c as int, d as int],
{
    let mut r: Vec<i128> = Vec::new();
    r.push(a as i128);
    r.push(b as i128);
    r.push(c as i128);
    r.push(d as i128);
    assert(whole(r@) =~= seq![a as int, b as int, c as int, d as int]);
    r
}

fn put_in_order(list: Vec<Found>) -> (r: Vec<Found>)
    requires
        forall|i: int| 0 <= i < list@.len() ==> (#[trigger] found_views(list@)[i]).seat == i,
    ensures
        found_views(r@) == arranged(found_views(list@), by_ranks()),
{
    let ghost all = found_views(list@);
    let ghost place = by_ranks();
    let mut rest = list;
    let mut back: Vec<Found> = Vec::new();
    while rest.len() > 0
        invariant
            rest@ =~= list@.take(rest@.len() as int),
            rest@.len() <= list@.len(),
            back@.len() == list@.len() - rest@.len(),
            forall|k: int|
                0 <= k < back@.len() ==> #[trigger] back@[k] == list@[list@.len() - 1 - k],
        decreases rest@.len(),
    {
        let f = rest.pop().unwrap();
        back.push(f);
    }
    let mut out: Vec<Placed<Found>> = Vec::new();
    while back.len() > 0
        invariant
            out@.len() + back@.len() == list@.len(),
            all == found_views(list@),
            place == by_ranks(),
            forall|k: int|
                0 <= k < back@.len() ==> #[trigger] back@[k] == list@[list@.len() - 1 - k],
            forall|k: int|
                0 <= k < out@.len() ==> (#[trigger] out@[k]).item == list@[k] && out@[k].place()
                    == place(out@[k].item@),
        decreases back@.len(),
    {
        let f = back.pop().unwrap();
        let lead = four_numbers(f.fit.rank_rms, f.fit.rank_max, f.fit.rank_x, f.fit.rank_y);
        let tail = one_number(f.seat as i128);
        out.push(Placed { lead, a: String::new(), b: String::new(), tail, item: f });
    }
    assert(rows_of(out@) =~= all);
    proof {
        assert forall|j: int, k: int| 0 <= j < k < out@.len() implies (
            #[trigger] out@[j]).place() != (
        #[trigger] out@[k]).place() by {
            assert(all[j] == out@[j].item@ && all[k] == out@[k].item@);
            assert(seq![all[j].seat][0] == j);
            assert(seq![all[k].seat][0] == k);
        }
    }
    let r = arrange(out, Ghost(place));
    assert(found_views(r@) =~= said(r@));
    r
}

/// The ranks follow the numbers: a number that is no larger has no larger rank.
pub open spec fn ranks_follow(f: FitView, g: FitView) -> bool {
    &&& f.rms_nsigma.up_to(g.rms_nsigma) ==> f.rank_rms <= g.rank_rms
    &&& f.max_residual_s.up_to(g.max_residual_s) ==> f.rank_max <= g.rank_max
    &&& f.at.x.up_to(g.at.x) ==> f.rank_x <= g.rank_x
    &&& f.at.y.up_to(g.at.y) ==> f.rank_y <= g.rank_y
}

/// The ranks of all positions follow their numbers.
pub open spec fn all_ranks_follow(found: Seq<FoundView>) -> bool {
    forall|i: int, j: int|
        0 <= i < found.len() && 0 <= j < found.len() ==> ranks_follow(
            (#[trigger] found[i]).fit,
            (#[trigger] found[j]).fit,
        )
}

/// Every position says how it fits each of `n` edges.
pub open spec fn all_predict(found: Seq<FoundView>, n: nat) -> bool {
    forall|i: int| 0 <= i < found.len() ==> (#[trigger] found[i]).fit.predicted.len() == n
}

fn do_all_predict(found: &Vec<Found>, n: usize) -> (r: bool)
    ensures
        r == all_predict(found_views(found@), n as nat),
{
    let ghost all = found_views(found@);
    let mut i: usize = 0;
    while i < found.len()
        invariant
            i <= found@.len(),
            all == found_views(found@),
            forall|k: int| 0 <= k < i ==> (#[trigger] all[k]).fit.predicted.len() == n,
        decreases found@.len() - i,
    {
        assert(all[i as int] == found@[i as int]@);
        if found[i].fit.predicted.len() != n {
            return false;
        }
        i += 1;
    }
    true
}

fn do_ranks_follow(f: &Fit, g: &Fit) -> (r: bool)
    ensures
        r == ranks_follow(f@, g@),
{
    (!f.rms_nsigma.is_up_to(g.rms_nsigma) || f.rank_rms <= g.rank_rms) && (
    !f.max_residual_s.is_up_to(g.max_residual_s) || f.rank_max <= g.rank_max) && (!f.at.x.is_up_to(
        g.at.x,
    ) || f.rank_x <= g.rank_x) && (!f.at.y.is_up_to(g.at.y) || f.rank_y <= g.rank_y)
}

fn do_all_ranks_follow(found: &Vec<Found>) -> (r: bool)
    ensures
        r == all_ranks_follow(found_views(found@)),
{
    let ghost all = found_views(found@);
    let mut i: usize = 0;
    while i < found.len()
        invariant
            i <= found@.len(),
            all == found_views(found@),
            forall|k: int, l: int|
                0 <= k < i && 0 <= l < all.len() ==> ranks_follow(
                    (#[trigger] all[k]).fit,
                    (#[trigger] all[l]).fit,
                ),
        decreases found@.len() - i,
    {
        let mut j: usize = 0;
        assert(all[i as int] == found@[i as int]@);
        while j < found.len()
            invariant
                i < found@.len(),
                j <= found@.len(),
                all == found_views(found@),
                all[i as int] == found@[i as int]@,
                forall|l: int|
                    0 <= l < j ==> ranks_follow(all[i as int].fit, (#[trigger] all[l]).fit),
            decreases found@.len() - j,
        {
            assert(all[j as int] == found@[j as int]@);
            if !do_ranks_follow(&found[i].fit, &found[j].fit) {
                assert(!ranks_follow(all[i as int].fit, all[j as int].fit));
                return false;
            }
            j += 1;
        }
        i += 1;
    }
    true
}

/// Two positions are one.
pub open spec fn near(u: FoundView, c: FoundView, distances: Distances) -> bool {
    distances.distance(u.fit.at, c.fit.at).below(Double { bits: MERGE_DISTANCE_M })
}

/// The first position of a list that is one with `c`.
pub open spec fn first_near(list: Seq<FoundView>, c: FoundView, distances: Distances) -> Option<int>
    decreases list.len(),
{
    if list.len() == 0 {
        None
    } else if first_near(list.drop_last(), c, distances) is Some {
        first_near(list.drop_last(), c, distances)
    } else if near(list.last(), c, distances) {
        Some(list.len() - 1)
    } else {
        None
    }
}

/// What two positions that are one come to: the one with the smaller residual,
/// and the edges that had to be dropped for either.
pub open spec fn joined(e: FoundView, c: FoundView) -> FoundView {
    if c.fit.rms_nsigma.below(e.fit.rms_nsigma) {
        FoundView {
            fit: c.fit,
            rank: if c.rank >= e.rank {
                c.rank
            } else {
                e.rank
            },
            dropped: if c.dropped.len() > 0 {
                c.dropped
            } else {
                e.dropped
            },
            seat: c.seat,
        }
    } else if c.dropped.len() > 0 && e.dropped.len() == 0 {
        FoundView { dropped: c.dropped, ..e }
    } else {
        e
    }
}

/// A list of positions with one more.
pub open spec fn absorbed(list: Seq<FoundView>, c: FoundView, distances: Distances) -> Seq<
    FoundView,
> {
    match first_near(list, c, distances) {
        Some(i) => list.update(i, joined(list[i], c)),
        None => list.push(c),
    }
}

/// Positions with those that are one put together.
pub open spec fn merged(list: Seq<FoundView>, distances: Distances) -> Seq<FoundView>
    decreases list.len(),
{
    if list.len() == 0 {
        Seq::empty()
    } else {
        absorbed(merged(list.drop_last(), distances), list.last(), distances)
    }
}

fn find_near(list: &Vec<Found>, c: &Found, distances: &Distances) -> (r: Option<usize>)
    ensures
        match r {
            Some(i) => i < list@.len() && first_near(found_views(list@), c@, *distances) == Some(
                i as int,
            ),
            None => first_near(found_views(list@), c@, *distances) is None,
        },
{
    let ghost all = found_views(list@);
    let mut i: usize = 0;
    assert(all.take(0) =~= Seq::empty());
    while i < list.len()
        invariant
            i <= list@.len(),
            all == found_views(list@),
            first_near(all.take(i as int), c@, *distances) is None,
        decreases list@.len() - i,
    {
        assert(all.take(i + 1).drop_last() =~= all.take(i as int));
        assert(all.take(i + 1).last() == list@[i as int]@);
        if distances.between(list[i].fit.at, c.fit.at).is_below(
            Double { bits: MERGE_DISTANCE_M },
        ) {
            proof {
                first_near_stays(all, c@, *distances, i + 1);
            }
            return Some(i);
        }
        i += 1;
    }
    assert(all.take(i as int) =~= all);
    None
}

/// What is first in the beginning of a list is first in the list.
proof fn first_near_stays(list: Seq<FoundView>, c: FoundView, distances: Distances, n: int)
    requires
        0 <= n <= list.len(),
        first_near(list.take(n), c, distances) is Some,
    ensures
        first_near(list, c, distances) == first_near(list.take(n), c, distances),
    decreases list.len() - n,
{
    if n < list.len() {
        assert(list.take(n + 1).drop_last() =~= list.take(n));
        first_near_stays(list, c, distances, n + 1);
    } else {
        assert(list.take(n) =~= list);
    }
}

fn absorb(list: &mut Vec<Found>, c: &Found, distances: &Distances)
    ensures
        found_views(final(list)@) == absorbed(found_views(old(list)@), c@, *distances),
{
    let ghost before = found_views(list@);
    match find_near(list, c, distances) {
        Some(i) => {
            assert(before[i as int] == list@[i as int]@);
            let c_drops = c.dropped.len() > 0;
            let e_drops = list[i].dropped.len() > 0;
            assert(c@.dropped.len() == c.dropped@.len());
            assert(before[i as int].dropped.len() == list@[i as int].dropped@.len());
            if c.fit.rms_nsigma.is_below(list[i].fit.rms_nsigma) {
                let rank: usize = if c.rank >= list[i].rank {
                    c.rank
                } else {
                    list[i].rank
                };
                let dropped = if c_drops {
                    copy_places(&c.dropped)
                } else {
                    copy_places(&list[i].dropped)
                };
                let new = Found { fit: c.fit.copy(), rank, dropped, seat: c.seat };
                let ghost nv = new@;
                assert(nv == joined(before[i as int], c@));
                list.set(i, new);
                assert(found_views(list@) =~= before.update(i as int, nv));
            } else if c_drops && !e_drops {
                let new = Found {
                    fit: list[i].fit.copy(),
                    rank: list[i].rank,
                    dropped: copy_places(&c.dropped),
                    seat: list[i].seat,
                };
                let ghost nv = new@;
                assert(nv == joined(before[i as int], c@));
                list.set(i, new);
                assert(found_views(list@) =~= before.update(i as int, nv));
            } else {
                assert(found_views(list@) =~= before.update(i as int, before[i as int]));
            }
        },
        None => {
            let new = Found {
                fit: c.fit.copy(),
                rank: c.rank,
                dropped: copy_places(&c.dropped),
                seat: c.seat,
            };
            let ghost nv = new@;
            assert(nv == c@);
            list.push(new);
            assert(found_views(list@) =~= before.push(nv));
        },
    }
}

fn merge(list: &Vec<Found>, distances: &Distances) -> (r: Vec<Found>)
    ensures
        found_views(r@) == merged(found_views(list@), *distances),
{
    let ghost all = found_views(list@);
    let mut out: Vec<Found> = Vec::new();
    let mut i: usize = 0;
    assert(all.take(0) =~= Seq::empty());
    assert(found_views(out@) =~= Seq::empty());
    while i < list.len()
        invariant
            i <= list@.len(),
            all == found_views(list@),
            found_views(out@) == merged(all.take(i as int), *distances),
        decreases list@.len() - i,
    {
        assert(all.take(i + 1).drop_last() =~= all.take(i as int));
        assert(all.take(i + 1).last() == list@[i as int]@);
        absorb(&mut out, &list[i], distances);
        i += 1;
    }
    assert(all.take(i as int) =~= all);
    out
}

// ---------- What is put out ----------

/// With nothing dropped the edges agree with each other.
pub open spec fn direct_edges_agree(found: Seq<FoundView>) -> bool {
    exists|i: int|
        0 <= i < found.len() && (#[trigger] found[i]).dropped.len() == 0
            && found[i].fit.rms_nsigma.up_to(Double { bits: INCONSISTENT_NSIGMA })
}

fn do_direct_edges_agree(found: &Vec<Found>) -> (r: bool)
    ensures
        r == direct_edges_agree(found_views(found@)),
{
    let ghost all = found_views(found@);
    let mut i: usize = 0;
    while i < found.len()
        invariant
            i <= found@.len(),
            all == found_views(found@),
            forall|k: int|
                0 <= k < i ==> !((#[trigger] all[k]).dropped.len() == 0
                    && all[k].fit.rms_nsigma.up_to(Double { bits: INCONSISTENT_NSIGMA })),
        decreases found@.len() - i,
    {
        assert(all[i as int] == found@[i as int]@);
        assert(all[i as int].dropped.len() == found@[i as int].dropped@.len());
        if found[i].dropped.len() == 0 && found[i].fit.rms_nsigma.is_up_to(
            Double { bits: INCONSISTENT_NSIGMA },
        ) {
            return true;
        }
        i += 1;
    }
    false
}

/// A position is one of two mirror images.
pub open spec fn mirrored(f: FoundView) -> bool {
    f.rank < 3
}

/// A position rests on the rejection of a suspected reflection.
pub open spec fn rests_on_rejection(f: FoundView, agree: bool) -> bool {
    f.dropped.len() > 0 && !agree && f.fit.rms_nsigma.up_to(Double { bits: INCONSISTENT_NSIGMA })
}

pub open spec fn status_of(f: FoundView, agree: bool) -> Seq<char> {
    if mirrored(f) || rests_on_rejection(f, agree) {
        "underdetermined"@
    } else {
        "determined"@
    }
}

pub open spec fn reason_of(f: FoundView, agree: bool) -> Seq<char> {
    if mirrored(f) {
        "sensor_geometry: two mirror locations fit the two delay differences"@
    } else if rests_on_rejection(f, agree) {
        "multipath: consistent only after rejecting a suspected reflected path"@
    } else if f.dropped.len() == 0 {
        "direct evidence consistent"@
    } else {
        "consistent; also fits when a suspected multipath edge is rejected"@
    }
}

pub open spec fn point_metrics(f: FoundView) -> JsonView {
    JsonView::Object(
        seq![
            ("rms_nsigma"@, JsonView::Float(f.fit.rms_nsigma)),
            ("max_residual_s"@, JsonView::Float(f.fit.max_residual_s)),
            ("chi2"@, JsonView::Float(f.fit.chi2)),
            ("rank"@, JsonView::Int(f.rank)),
            ("dropped_suspect_edges"@, JsonView::Int(f.dropped.len() as int)),
            ("coordinate_unit"@, JsonView::Text("m"@)),
            ("time_unit"@, JsonView::Text("s"@)),
        ],
    )
}

fn point_metrics_value(f: &Found) -> (r: Json)
    ensures
        r@ == point_metrics(f@),
{
    assert(f@.dropped.len() == f.dropped@.len());
    let mut m = Members::new();
    m.put("rms_nsigma", Json::Float(f.fit.rms_nsigma));
    m.put("max_residual_s", Json::Float(f.fit.max_residual_s));
    m.put("chi2", Json::Float(f.fit.chi2));
    m.put("rank", Json::UInt(f.rank as u64));
    m.put("dropped_suspect_edges", Json::UInt(f.dropped.len() as u64));
    m.put("coordinate_unit", Json::Text("m".to_owned()));
    m.put("time_unit", Json::Text("s".to_owned()));
    let r = m.object();
    assert(r@->Object_0 =~= point_metrics(f@)->Object_0);
    r
}

/// How many digits of a fingerprint go into a key.
pub const KEY_DIGITS: usize = 12;

/// The key of a candidate: its kind, its rank and the beginning of a
/// fingerprint of the event and of what the candidate is.
pub open spec fn key_of(event_id: Seq<char>, kind: Seq<char>, rank: int, base: Seq<char>) -> Seq<
    char,
> {
    kind + "-"@ + decimal_text(rank as nat) + "-"@ + fingerprint(framed(seq![event_id, base])).take(
        KEY_DIGITS as int,
    )
}

fn cand_key(event_id: &str, kind: &str, rank: usize, base: &str) -> (r: String)
    ensures
        r@ == key_of(event_id@, kind@, rank as int, base@),
{
    let parts: [&str; 2] = [event_id, base];
    assert(slices(parts@) =~= seq![event_id@, base@]);
    let whole_digest = sha256_hex(&parts);
    let digits = chars_of(whole_digest.as_str());
    let short = text_of(&digits, 0, KEY_DIGITS);
    assert(short@ =~= whole_digest@.take(KEY_DIGITS as int));
    let mut key = kind.to_owned();
    key.append("-");
    key.append(decimal(rank as u64).as_str());
    key.append("-");
    key.append(short.as_str());
    key
}

/// What a position is, as text.
pub open spec fn point_base(fit: FitView) -> Seq<char> {
    "point:"@ + fit.shown_x + ","@ + fit.shown_y
}

/// How an edge fits; not a number where nothing was worked out.
pub open spec fn predicted_at(p: Option<Seq<Predicted>>, j: int) -> Predicted {
    match p {
        Some(s) if 0 <= j < s.len() => s[j],
        _ => Predicted {
            predicted: Double { bits: NO_RESULT },
            residual: Double { bits: NO_RESULT },
            quotient: Double { bits: NO_RESULT },
        },
    }
}

/// How an edge fits a candidate. `p` is absent for a region.
pub open spec fn residual_row(
    snap: SnapshotView,
    row: EdgeRowView,
    p: Predicted,
) -> ResidualRowView {
    let raw = snap.edges[row.edge.origin_idx];
    ResidualRowView {
        edge: raw.station_a + "->"@ + raw.station_b,
        kind: raw.origin,
        station_a: snap.stations[row.edge.a].station_id,
        station_b: snap.stations[row.edge.b].station_id,
        measured_s: row.edge.delay,
        predicted_s: p.predicted,
        residual_s: p.residual,
        sigma_s: row.edge.sigma,
        n_sigma: if (Double { bits: 0 }).below(row.edge.sigma) && p.residual.finite() {
            p.quotient
        } else {
            Double { bits: NO_RESULT }
        },
        multipath: raw.multipath,
        excluded: row.excluded,
    }
}

/// How all edges fit a candidate, those left out too.
pub open spec fn residual_rows(
    snap: SnapshotView,
    rows: Seq<EdgeRowView>,
    p: Option<Seq<Predicted>>,
) -> Seq<ResidualRowView> {
    Seq::new(rows.len(), |j: int| residual_row(snap, rows[j], predicted_at(p, j)))
}

/// Rows that speak of edges and stations of a snapshot.
pub open spec fn rows_fit(snap: SnapshotView, rows: Seq<EdgeRowView>) -> bool {
    forall|j: int|
        0 <= j < rows.len() ==> (#[trigger] rows[j]).edge.a < snap.stations.len() && rows[j].edge.b
            < snap.stations.len() && rows[j].edge.origin_idx < snap.edges.len()
}

fn candidate_residuals(
    snap: &Snapshot,
    rows: &Vec<EdgeRow>,
    p: Option<&Vec<Predicted>>,
) -> (r: Vec< ResidualRow, >)
    requires
        rows_fit(snap@, edgerow_views(rows@)),
    ensures
        residualrow_views(r@) == residual_rows(
            snap@,
            edgerow_views(rows@),
            match p {
                Some(s) => Some(s@),
                None => None,
            },
        ),
{
    let ghost all = edgerow_views(rows@);
    let ghost ps = match p {
        Some(s) => Some(s@),
        None => None::<Seq<Predicted>>,
    };
    let mut out: Vec<ResidualRow> = Vec::new();
    let mut j: usize = 0;
    while j < rows.len()
        invariant
            j <= rows@.len(),
            all == edgerow_views(rows@),
            rows_fit(snap@, all),
            ps == (match p {
                Some(s) => Some(s@),
                None => None::<Seq<Predicted>>,
            }),
            out@.len() == j,
            forall|k: int|
                0 <= k < j ==> (#[trigger] out@[k])@ == residual_row(
                    snap@,
                    all[k],
                    predicted_at(ps, k),
                ),
        decreases rows@.len() - j,
    {
        let row = &rows[j];
        assert(all[j as int] == row@);
        let nothing = Double { bits: NO_RESULT };
        let none = Predicted { predicted: nothing, residual: nothing, quotient: nothing };
        let q = match p {
            Some(s) => if j < s.len() {
                s[j]
            } else {
                none
            },
            None => none,
        };
        assert(q == predicted_at(ps, j as int));
        let raw = &snap.edges[row.edge.origin_idx];
        assert(snap@.edges[row@.edge.origin_idx] == raw@);
        assert(snap@.stations[row@.edge.a] == snap.stations@[row.edge.a as int]@);
        assert(snap@.stations[row@.edge.b] == snap.stations@[row.edge.b as int]@);
        let mut edge = raw.station_a.clone();
        edge.append("->");
        edge.append(raw.station_b.as_str());
        let n_sigma = if (Double { bits: 0 }).is_below(row.edge.sigma) && q.residual.is_finite() {
            q.quotient
        } else {
            nothing
        };
        out.push(
            ResidualRow {
                edge,
                kind: raw.origin.clone(),
                station_a: snap.stations[row.edge.a].station_id.clone(),
                station_b: snap.stations[row.edge.b].station_id.clone(),
                measured_s: row.edge.delay,
                predicted_s: q.predicted,
                residual_s: q.residual,
                sigma_s: row.edge.sigma,
                n_sigma,
                multipath: raw.multipath,
                excluded: row.excluded,
            },
        );
        j += 1;
    }
    assert(residualrow_views(out@) =~= residual_rows(snap@, all, ps));
    out
}

/// A position as it is put out.
pub open spec fn point_out(
    snap: SnapshotView,
    rows: Seq<EdgeRowView>,
    f: FoundView,
    rank: int,
    agree: bool,
) -> CandidateOutView {
    CandidateOutView {
        kind: "point"@,
        status: status_of(f, agree),
        reason: reason_of(f, agree),
        x: Some(f.fit.at.x),
        y: Some(f.fit.at.y),
        region: None,
        metrics: point_metrics(f),
        residuals: residual_rows(snap, rows, Some(f.fit.predicted)),
        cand_key: key_of(snap.event_id, "point"@, rank, point_base(f.fit)),
    }
}

pub open spec fn region_metrics() -> JsonView {
    JsonView::Object(
        seq![("coordinate_unit"@, JsonView::Text("m"@)), ("time_unit"@, JsonView::Text("s"@))],
    )
}

/// A region as it is put out.
pub open spec fn region_out(
    snap: SnapshotView,
    rows: Seq<EdgeRowView>,
    region: JsonView,
    reason: Seq<char>,
    d: Decimals,
) -> CandidateOutView {
    CandidateOutView {
        kind: "region"@,
        status: "underdetermined"@,
        reason,
        x: None,
        y: None,
        region: Some(region),
        metrics: region_metrics(),
        residuals: residual_rows(snap, rows, None),
        cand_key: key_of(
            snap.event_id,
            "region"@,
            0,
            "region:"@ + canonical_text(region, d, Quoting::Plain),
        ),
    }
}

fn make_point(
    snap: &Snapshot,
    rows: &Vec<EdgeRow>,
    f: &Found,
    rank: usize,
    agree: bool,
) -> (r: CandidateOut)
    requires
        rows_fit(snap@, edgerow_views(rows@)),
    ensures
        r@ == point_out(snap@, edgerow_views(rows@), f@, rank as int, agree),
{
    assert(f@.dropped.len() == f.dropped@.len());
    let mirror = f.rank < 3;
    let rejection = f.dropped.len() > 0 && !agree && f.fit.rms_nsigma.is_up_to(
        Double { bits: INCONSISTENT_NSIGMA },
    );
    let reason = if mirror {
        "sensor_geometry: two mirror locations fit the two delay differences".to_owned()
    } else if rejection {
        "multipath: consistent only after rejecting a suspected reflected path".to_owned()
    } else if f.dropped.len() == 0 {
        "direct evidence consistent".to_owned()
    } else {
        "consistent; also fits when a suspected multipath edge is rejected".to_owned()
    };
    let status = if mirror || rejection {
        "underdetermined".to_owned()
    } else {
        "determined".to_owned()
    };
    let mut base = "point:".to_owned();
    base.append(f.fit.shown_x.as_str());
    base.append(",");
    base.append(f.fit.shown_y.as_str());
    CandidateOut {
        kind: "point".to_owned(),
        status,
        reason,
        x: Some(f.fit.at.x),
        y: Some(f.fit.at.y),
        region: None,
        metrics: point_metrics_value(f),
        residuals: candidate_residuals(snap, rows, Some(&f.fit.predicted)),
        cand_key: cand_key(snap.event_id.as_str(), "point", rank, base.as_str()),
    }
}

fn make_region(snap: &Snapshot, rows: &Vec<EdgeRow>, region: Json, reason: String, d: &Decimals)
    -> (r: CandidateOut)
    requires
        rows_fit(snap@, edgerow_views(rows@)),
    ensures
        r@ == region_out(snap@, edgerow_views(rows@), region@, reason@, *d),
{
    let mut base = "region:".to_owned();
    let text = canonical_json(&region, d);
    base.append(text.as_str());
    let key = cand_key(snap.event_id.as_str(), "region", 0, base.as_str());
    let mut m = Members::new();
    m.put("coordinate_unit", Json::Text("m".to_owned()));
    m.put("time_unit", Json::Text("s".to_owned()));
    let metrics = m.object();
    assert(metrics@->Object_0 =~= region_metrics()->Object_0);
    CandidateOut {
        kind: "region".to_owned(),
        status: "underdetermined".to_owned(),
        reason,
        x: None,
        y: None,
        region: Some(region),
        metrics,
        residuals: candidate_residuals(snap, rows, None),
        cand_key: key,
    }
}

// ---------- Kept pairs ----------

/// The members of an object with one set.
pub open spec fn with_member(
    members: Seq<(Seq<char>, JsonView)>,
    key: Seq<char>,
    value: JsonView,
) -> Seq<(Seq<char>, JsonView)>
    decreases members.len(),
{
    if members.len() == 0 {
        seq![(key, value)]
    } else if members[0].0 == key {
        seq![(key, value)] + members.drop_first()
    } else {
        seq![members[0]] + with_member(members.drop_first(), key, value)
    }
}

/// Metrics that name the pair which a candidate belongs to.
pub open spec fn kept_metrics(metrics: JsonView, p: KeptPairView) -> JsonView {
    match metrics {
        JsonView::Object(members) => JsonView::Object(
            with_member(
                members,
                "kept_pair"@,
                JsonView::Array(seq![JsonView::Text(p.a), JsonView::Text(p.b)]),
            ),
        ),
        _ => metrics,
    }
}

/// A candidate that the analyst keeps with another.
pub open spec fn marked(c: CandidateOutView, p: KeptPairView) -> CandidateOutView {
    CandidateOutView {
        reason: "kept inseparable pair ("@ + p.a + ", "@ + p.b + ")"@,
        metrics: kept_metrics(c.metrics, p),
        ..c
    }
}

/// The first candidate with a key.
pub open spec fn first_with_key(list: Seq<CandidateOutView>, key: Seq<char>) -> Option<int>
    decreases list.len(),
{
    if list.len() == 0 {
        None
    } else if first_with_key(list.drop_last(), key) is Some {
        first_with_key(list.drop_last(), key)
    } else if list.last().cand_key == key {
        Some(list.len() - 1)
    } else {
        None
    }
}

/// The candidates with one pair marked.
pub open spec fn with_pair(list: Seq<CandidateOutView>, p: KeptPairView) -> Seq<CandidateOutView> {
    match (first_with_key(list, p.a), first_with_key(list, p.b)) {
        (Some(i), Some(j)) => {
            let one = list.update(i, marked(list[i], p));
            one.update(j, marked(one[j], p))
        },
        _ => list,
    }
}

/// The candidates with the kept pairs marked.
pub open spec fn with_pairs(list: Seq<CandidateOutView>, pairs: Seq<KeptPairView>) -> Seq<
    CandidateOutView,
>
    decreases pairs.len(),
{
    if pairs.len() == 0 {
        list
    } else {
        with_pair(with_pairs(list, pairs.drop_last()), pairs.last())
    }
}

fn find_key(list: &Vec<CandidateOut>, key: &str) -> (r: Option<usize>)
    ensures
        match r {
            Some(i) => i < list@.len() && first_with_key(candidateout_views(list@), key@) == Some(
                i as int,
            ),
            None => first_with_key(candidateout_views(list@), key@) is None,
        },
{
    let ghost all = candidateout_views(list@);
    let mut i: usize = 0;
    assert(all.take(0) =~= Seq::empty());
    while i < list.len()
        invariant
            i <= list@.len(),
            all == candidateout_views(list@),
            first_with_key(all.take(i as int), key@) is None,
        decreases list@.len() - i,
    {
        assert(all.take(i + 1).drop_last() =~= all.take(i as int));
        assert(all.take(i + 1).last() == list@[i as int]@);
        if same(list[i].cand_key.as_str(), key) {
            proof {
                first_key_stays(all, key@, i + 1);
            }
            return Some(i);
        }
        i += 1;
    }
    assert(all.take(i as int) =~= all);
    None
}

proof fn first_key_stays(list: Seq<CandidateOutView>, key: Seq<char>, n: int)
    requires
        0 <= n <= list.len(),
        first_with_key(list.take(n), key) is Some,
    ensures
        first_with_key(list, key) == first_with_key(list.take(n), key),
    decreases list.len() - n,
{
    if n < list.len() {
        assert(list.take(n + 1).drop_last() =~= list.take(n));
        first_key_stays(list, key, n + 1);
    } else {
        assert(list.take(n) =~= list);
    }
}

fn set_member(metrics: &Json, key: &str, value: Json) -> (r: Json)
    ensures
        r@ == (match metrics@ {
            JsonView::Object(members) => JsonView::Object(with_member(members, key@, value@)),
            _ => metrics@,
        }),
{
    match metrics {
        Json::Object(members) => {
            let ghost all = metrics@->Object_0;
            let ghost want = with_member(all, key@, value@);
            let mut m = Members::new();
            let mut i: usize = 0;
            assert(all.skip(0) =~= all);
            assert(m@ + with_member(all.skip(0), key@, value@) =~= want);
            while i < members.len()
                invariant
                    i <= members@.len(),
                    *metrics == Json::Object(*members),
                    all == metrics@->Object_0,
                    want == with_member(all, key@, value@),
                    m@ + with_member(all.skip(i as int), key@, value@) == want,
                decreases members@.len() - i,
            {
                assert(all.skip(i as int)[0] == (members@[i as int].0@, members@[i as int].1@));
                assert(all.skip(i as int).drop_first() =~= all.skip(i + 1));
                let ghost before = m@;
                if same(members[i].0.as_str(), key) {
                    m.put(key, value);
                    let ghost rest = all.skip(i + 1);
                    assert(m@ + rest =~= want);
                    let mut j: usize = i + 1;
                    while j < members.len()
                        invariant
                            i < j <= members@.len(),
                            *metrics == Json::Object(*members),
                            all == metrics@->Object_0,
                            m@ + all.skip(j as int) == want,
                        decreases members@.len() - j,
                    {
                        assert(all[j as int] == (members@[j as int].0@, members@[j as int].1@));
                        let ghost now = m@;
                        m.put(members[j].0.as_str(), members[j].1.copy());
                        assert(m@ + all.skip(j + 1) =~= now + all.skip(j as int));
                        j += 1;
                    }
                    assert(m@ + all.skip(j as int) =~= m@);
                    return m.object();
                }
                m.put(members[i].0.as_str(), members[i].1.copy());
                assert(m@ + with_member(all.skip(i + 1), key@, value@) =~= before + with_member(
                    all.skip(i as int),
                    key@,
                    value@,
                ));
                i += 1;
            }
            let ghost before = m@;
            m.put(key, value);
            assert(all.skip(i as int) =~= Seq::empty());
            assert(m@ =~= want);
            m.object()
        },
        _ => metrics.copy(),
    }
}

fn mark_kept(c: &CandidateOut, p: &KeptPair) -> (r: CandidateOut)
    ensures
        r@ == marked(c@, p@),
{
    let mut reason = "kept inseparable pair (".to_owned();
    reason.append(p.a.as_str());
    reason.append(", ");
    reason.append(p.b.as_str());
    reason.append(")");
    let mut pair: Vec<Json> = Vec::new();
    pair.push(Json::Text(p.a.clone()));
    pair.push(Json::Text(p.b.clone()));
    assert(json_views(pair@) =~= seq![JsonView::Text(p@.a), JsonView::Text(p@.b)]);
    let metrics = set_member(&c.metrics, "kept_pair", array(pair));
    let mut r = c.copy();
    r.reason = reason;
    r.metrics = metrics;
    r
}

fn mark_pairs(list: &mut Vec<CandidateOut>, pairs: &Vec<KeptPair>)
    ensures
        candidateout_views(final(list)@) == with_pairs(
            candidateout_views(old(list)@),
            keptpair_views(pairs@),
        ),
{
    let ghost given = candidateout_views(list@);
    let ghost all = keptpair_views(pairs@);
    let mut k: usize = 0;
    assert(all.take(0) =~= Seq::empty());
    while k < pairs.len()
        invariant
            k <= pairs@.len(),
            all == keptpair_views(pairs@),
            candidateout_views(list@) == with_pairs(given, all.take(k as int)),
        decreases pairs@.len() - k,
    {
        let p = &pairs[k];
        assert(all.take(k + 1).drop_last() =~= all.take(k as int));
        assert(all.take(k + 1).last() == p@);
        let ghost before = candidateout_views(list@);
        match (find_key(list, p.a.as_str()), find_key(list, p.b.as_str())) {
            (Some(i), Some(j)) => {
                assert(before[i as int] == list@[i as int]@);
                let one = mark_kept(&list[i], p);
                let ghost ov = one@;
                list.set(i, one);
                let ghost mid = candidateout_views(list@);
                assert(mid =~= before.update(i as int, ov));
                assert(mid[j as int] == list@[j as int]@);
                let two = mark_kept(&list[j], p);
                let ghost tv = two@;
                list.set(j, two);
                assert(candidateout_views(list@) =~= mid.update(j as int, tv));
            },
            _ => {},
        }
        k += 1;
    }
    assert(all.take(k as int) =~= all);
}

// ---------- The solve ----------

/// All positions that come out, in the order in which they are found.
pub open spec fn all_found(snap: SnapshotView, w: Figures) -> Seq<FoundView> {
    let active = active_edges(snap, w.corrected@);
    found_upto(snap.observable_radius, active, w, scenarios(active).len() as int)
}

/// The numbers are those of a snapshot: each measured difference is corrected,
/// there is a system of every set of edges that is not empty, the ranks of the
/// positions follow their numbers, and each says how it fits all edges.
pub open spec fn belong(w: Figures, snap: SnapshotView) -> bool {
    &&& w.corrected@.len() == snap.edges.len()
    &&& systems_fit(snap.observable_radius, active_edges(snap, w.corrected@), w)
    &&& all_ranks_follow(all_found(snap, w))
    &&& all_predict(all_found(snap, w), edge_rows(snap, w.corrected@).len())
}

/// The positions that come out, in order, one for each place.
pub open spec fn positions(snap: SnapshotView, w: Figures) -> Seq<FoundView> {
    merged(arranged(all_found(snap, w), by_ranks()), w.distances)
}

/// With nothing dropped the edges agree with each other.
pub open spec fn agreement(snap: SnapshotView, w: Figures) -> bool {
    direct_edges_agree(all_found(snap, w))
}

/// The candidates before pairs are marked: the positions, or else a region.
pub open spec fn unmarked(snap: SnapshotView, w: Figures, d: Decimals) -> Seq<CandidateOutView> {
    let active = active_edges(snap, w.corrected@);
    let rows = edge_rows(snap, w.corrected@);
    let n = scenarios(active).len() as int;
    let at = positions(snap, w);
    if at.len() > 0 {
        Seq::new(at.len(), |k: int| point_out(snap, rows, at[k], k, agreement(snap, w)))
    } else {
        match region_upto(snap.observable_radius, active, w, n) {
            Some(r) => seq![region_out(snap, rows, r.0, r.1, d)],
            None => Seq::empty(),
        }
    }
}

/// The candidates of a snapshot.
pub open spec fn solved(snap: SnapshotView, w: Figures, d: Decimals) -> Seq<CandidateOutView> {
    let list = unmarked(snap, w, d);
    if list.len() >= 2 {
        with_pairs(list, snap.kept_pairs)
    } else {
        list
    }
}

/// The rows of all edges speak of edges and stations of the snapshot.
proof fn all_rows_fit(snap: SnapshotView, c: Seq<Corrected>, rows: Seq<EdgeRowView>)
    requires
        is_arrangement(
            all_rows(snap, c).filter(is_placed(snap)),
            rows,
            by_pair_and_origin(),
        ),
    ensures
        rows_fit(snap, rows),
{
    let all = all_rows(snap, c);
    let pick = is_placed(snap);
    assert forall|j: int| 0 <= j < rows.len() implies (#[trigger] rows[j]).edge.a
        < snap.stations.len() && rows[j].edge.b < snap.stations.len() && rows[j].edge.origin_idx
        < snap.edges.len() by {
        assert(rows.contains(rows[j]));
        arrangement_holds_the_same(all.filter(pick), rows, rows[j]);
        crate::order::picked_items_keep_their_order(all, pick);
        let p = crate::order::picked_positions(all, pick);
        let k = choose|k: int| 0 <= k < all.filter(pick).len() && all.filter(pick)[k] == rows[j];
        let i = p[k];
        assert(all[i] == rows[j]);
        assert(pick(rows[j]));
        crate::workbench::edges::places_are_in_the_list(snap.stations, snap.edges[i].station_a);
        crate::workbench::edges::places_are_in_the_list(snap.stations, snap.edges[i].station_b);
    }
}

/// Solves a snapshot, by the numbers that were worked out for it.
pub fn solve(snap: &Snapshot, w: &Figures, d: &Decimals) -> (r: Result<
    Vec<CandidateOut>,
    OtherNumbers,
>)
    ensures
        match r {
            Ok(list) => belong(*w, snap@) && candidateout_views(list@) == solved(snap@, *w, *d),
            Err(_) => !belong(*w, snap@),
        },
{
    let ghost v = snap@;
    if w.corrected.len() != snap.edges.len() {
        return Err(OtherNumbers);
    }
    let (active, _used) = prepare_edges(snap, &w.corrected);
    let rows = all_edge_views(snap, &w.corrected);
    proof {
        all_rows_fit(v, w.corrected@, edgerow_views(rows@));
    }
    let (found, region) = match gather(snap.observable_radius, &active, w) {
        Some(t) => t,
        None => {
            return Err(OtherNumbers);
        },
    };
    assert(edgerow_views(rows@).len() == rows@.len());
    if !do_all_ranks_follow(&found) || !do_all_predict(&found, rows.len()) {
        return Err(OtherNumbers);
    }
    let agree = do_direct_edges_agree(&found);
    proof {
        let a = edge_views(active@);
        seats_count_up(v.observable_radius, a, *w, scenarios(a).len() as int);
    }
    let ordered = put_in_order(found);
    let at = merge(&ordered, &w.distances);
    let ghost atv = found_views(at@);
    assert(atv == positions(v, *w));
    assert(agree == agreement(v, *w));
    let mut out: Vec<CandidateOut> = Vec::new();
    let mut k: usize = 0;
    while k < at.len()
        invariant
            k <= at@.len(),
            atv == found_views(at@),
            rows_fit(snap@, edgerow_views(rows@)),
            out@.len() == k,
            forall|j: int|
                0 <= j < k ==> (#[trigger] out@[j])@ == point_out(
                    snap@,
                    edgerow_views(rows@),
                    atv[j],
                    j,
                    agree,
                ),
        decreases at@.len() - k,
    {
        assert(atv[k as int] == at@[k as int]@);
        out.push(make_point(snap, &rows, &at[k], k, agree));
        k += 1;
    }
    if out.len() == 0 {
        match region {
            Some(p) => {
                out.push(make_region(snap, &rows, p.0, p.1, d));
            },
            None => {},
        }
    }
    assert(candidateout_views(out@) =~= unmarked(v, *w, *d));
    if out.len() >= 2 {
        mark_pairs(&mut out, &snap.kept_pairs);
    }
    Ok(out)
}

// ---------- Laws ----------

proof fn found_keys_are_in_the_list(list: Seq<CandidateOutView>, key: Seq<char>)
    ensures
        first_with_key(list, key) matches Some(i) ==> 0 <= i < list.len(),
    decreases list.len(),
{
    if list.len() > 0 {
        found_keys_are_in_the_list(list.drop_last(), key);
    }
}

/// Marking pairs deletes no candidate and rewrites none: there are as many, in
/// the same order, and each keeps its key, kind, status, place, region and
/// residuals.
pub proof fn marking_keeps_candidates(list: Seq<CandidateOutView>, pairs: Seq<KeptPairView>)
    ensures
        with_pairs(list, pairs).len() == list.len(),
        forall|i: int|
            0 <= i < list.len() ==> (#[trigger] with_pairs(list, pairs)[i]) == (CandidateOutView {
                reason: with_pairs(list, pairs)[i].reason,
                metrics: with_pairs(list, pairs)[i].metrics,
                ..list[i]
            }),
    decreases pairs.len(),
{
    if pairs.len() > 0 {
        marking_keeps_candidates(list, pairs.drop_last());
        let before = with_pairs(list, pairs.drop_last());
        let after = with_pairs(list, pairs);
        found_keys_are_in_the_list(before, pairs.last().a);
        found_keys_are_in_the_list(before, pairs.last().b);
        assert forall|i: int| 0 <= i < list.len() implies (#[trigger] after[i]) == (
        CandidateOutView { reason: after[i].reason, metrics: after[i].metrics, ..list[i] }) by {
            assert(before[i] == (CandidateOutView {
                reason: before[i].reason,
                metrics: before[i].metrics,
                ..list[i]
            }));
        }
    }
}

/// Where two candidates that the analyst keeps are both there, the last pair
/// shows in the metrics and the reason of both.
pub proof fn a_kept_pair_is_marked(
    list: Seq<CandidateOutView>,
    p: KeptPairView,
    i: int,
    j: int,
)
    requires
        first_with_key(list, p.a) == Some(i),
        first_with_key(list, p.b) == Some(j),
        0 <= i < list.len(),
        0 <= j < list.len(),
        i != j,
    ensures
        with_pair(list, p)[i] == marked(list[i], p),
        with_pair(list, p)[j] == marked(list[j], p),
{
}

/// Candidates that are points or regions, determined or not.
pub open spec fn shapely(list: Seq<CandidateOutView>) -> bool {
    forall|i: int|
        0 <= i < list.len() ==> is_shape((#[trigger] list[i]).kind, list[i].status) && (
        list[i].region matches Some(r) ==> !(r is Array))
}

proof fn regions_are_objects(radius: Double, active: Seq<EdgeView>, w: Figures, k: int)
    ensures
        region_upto(radius, active, w, k) matches Some(r) ==> r.0 is Object,
    decreases k,
{
    if k > 0 {
        regions_are_objects(radius, active, w, k - 1);
    }
}

/// What a solve puts out is points or regions, determined or not.
pub proof fn candidates_have_a_shape(snap: SnapshotView, w: Figures, d: Decimals)
    ensures
        shapely(solved(snap, w, d)),
{
    let list = unmarked(snap, w, d);
    let r = solved(snap, w, d);
    if list.len() >= 2 {
        marking_keeps_candidates(list, snap.kept_pairs);
    }
    let active = active_edges(snap, w.corrected@);
    regions_are_objects(snap.observable_radius, active, w, scenarios(active).len() as int);
    assert forall|i: int| 0 <= i < r.len() implies is_shape((#[trigger] r[i]).kind, r[i].status)
        && (r[i].region matches Some(x) ==> !(x is Array)) by {
        assert(is_shape(list[i].kind, list[i].status));
    }
}

/// What a solve puts out are points alone or one region alone; a region is never
/// called determined, and neither is a point that has a mirror image.
pub proof fn points_or_one_region(snap: SnapshotView, w: Figures, d: Decimals)
    ensures
        ({
            let r = solved(snap, w, d);
            ||| forall|i: int| 0 <= i < r.len() ==> (#[trigger] r[i]).kind == "point"@
            ||| r.len() == 1 && r[0].kind == "region"@ && r[0].status == "underdetermined"@
        }),
        positions(snap, w).len() > 0 ==> forall|i: int|
            0 <= i < solved(snap, w, d).len() && mirrored(positions(snap, w)[i]) ==> (
            #[trigger] solved(snap, w, d)[i]).status == "underdetermined"@,
{
    let list = unmarked(snap, w, d);
    let r = solved(snap, w, d);
    if list.len() >= 2 {
        marking_keeps_candidates(list, snap.kept_pairs);
        assert forall|i: int| 0 <= i < r.len() implies (#[trigger] r[i]).kind == list[i].kind
            && r[i].status == list[i].status by {}
    }
    if positions(snap, w).len() > 0 {
        assert forall|i: int| 0 <= i < r.len() implies (#[trigger] r[i]).kind == "point"@ by {
            assert(list[i].kind == "point"@);
        }
    } else if list.len() == 0 {
        assert forall|i: int| 0 <= i < r.len() implies (#[trigger] r[i]).kind == "point"@ by {}
    }
}

proof fn found_positions_are_observable(radius: Double, active: Seq<EdgeView>, w: Figures, k: int)
    requires
        systems_fit(radius, active, w),
        k <= scenarios(active).len(),
    ensures
        forall|i: int|
            0 <= i < found_upto(radius, active, w, k).len() ==> within(
                (#[trigger] found_upto(radius, active, w, k)[i]).fit.at,
                found_upto(radius, active, w, k)[i].fit.reach,
                radius,
            ),
    decreases k,
{
    if k > 0 {
        found_positions_are_observable(radius, active, w, k - 1);
        let before = found_upto(radius, active, w, k - 1);
        let all = found_upto(radius, active, w, k);
        let pts = points_of(radius, active, w, k - 1);
        let edges = kept_edges(active, scenarios(active)[k - 1]);
        assert forall|i: int| 0 <= i < all.len() implies within(
            (#[trigger] all[i]).fit.at,
            all[i].fit.reach,
            radius,
        ) by {
            if i < before.len() {
                assert(all[i] == before[i]);
            } else {
                assert(all[i].fit == pts[i - before.len()].fit);
                positions_are_observable(radius, edges, system_at(w, k - 1)->0);
            }
        }
    }
}

proof fn near_ones_are_in_the_list(list: Seq<FoundView>, c: FoundView, distances: Distances)
    ensures
        first_near(list, c, distances) matches Some(i) ==> 0 <= i < list.len(),
    decreases list.len(),
{
    if list.len() > 0 {
        near_ones_are_in_the_list(list.drop_last(), c, distances);
    }
}

/// What is put together is made of what was there, and is something wherever
/// there was something.
proof fn merging_takes_what_is_there(list: Seq<FoundView>, distances: Distances)
    ensures
        forall|i: int|
            0 <= i < merged(list, distances).len() ==> exists|j: int|
                0 <= j < list.len() && (#[trigger] list[j]).fit == (#[trigger] merged(
                    list,
                    distances,
                )[i]).fit,
        merged(list, distances).len() <= list.len(),
        list.len() > 0 ==> merged(list, distances).len() > 0,
    decreases list.len(),
{
    if list.len() > 0 {
        let rest = list.drop_last();
        let c = list.last();
        let before = merged(rest, distances);
        let now = merged(list, distances);
        merging_takes_what_is_there(rest, distances);
        near_ones_are_in_the_list(before, c, distances);
        assert forall|i: int| 0 <= i < now.len() implies exists|j: int|
            0 <= j < list.len() && (#[trigger] list[j]).fit == (#[trigger] now[i]).fit by {
            if i < before.len() && now[i].fit == before[i].fit {
                let j = choose|j: int|
                    0 <= j < rest.len() && (#[trigger] rest[j]).fit == before[i].fit;
                assert(list[j].fit == now[i].fit);
            } else {
                assert(list[list.len() - 1].fit == now[i].fit);
            }
        }
    }
}

/// All positions that come out stand in order, each once.
proof fn found_positions_are_arranged(snap: SnapshotView, w: Figures)
    ensures
        is_arrangement(all_found(snap, w), arranged(all_found(snap, w), by_ranks()), by_ranks()),
{
    let active = active_edges(snap, w.corrected@);
    let all = all_found(snap, w);
    let place = by_ranks();
    seats_count_up(snap.observable_radius, active, w, scenarios(active).len() as int);
    assert forall|i: int, j: int| 0 <= i < j < all.len() implies place(#[trigger] all[i]) != place(
        #[trigger] all[j],
    ) by {
        assert(seq![all[i].seat][0] == i);
        assert(seq![all[j].seat][0] == j);
    }
    rows_are_arranged(all, place);
}

/// With nothing dropped all edges are kept.
proof fn nothing_dropped_keeps_all(active: Seq<EdgeView>)
    ensures
        scenarios(active).len() > 0,
        kept_edges(active, scenarios(active)[0]) == active,
{
    assert(scenarios(active)[0] =~= Seq::<int>::empty());
    kept_without_drops(active);
}

proof fn first_region_stays(radius: Double, active: Seq<EdgeView>, w: Figures, k: int)
    requires
        k >= 1,
        region_upto(radius, active, w, 1) is Some,
    ensures
        region_upto(radius, active, w, k) is Some,
    decreases k,
{
    if k > 1 {
        first_region_stays(radius, active, w, k - 1);
    }
}

proof fn found_positions_stay(radius: Double, active: Seq<EdgeView>, w: Figures, k: int)
    requires
        k >= 1,
    ensures
        found_upto(radius, active, w, 1).len() <= found_upto(radius, active, w, k).len(),
    decreases k,
{
    if k > 1 {
        found_positions_stay(radius, active, w, k - 1);
    }
}

proof fn no_edges_give_nothing(radius: Double, active: Seq<EdgeView>, w: Figures, k: int)
    requires
        active.len() == 0,
    ensures
        found_upto(radius, active, w, k).len() == 0,
        region_upto(radius, active, w, k) is None,
    decreases k,
{
    if k > 0 {
        no_edges_give_nothing(radius, active, w, k - 1);
        kept_are_no_more(active, scenarios(active)[k - 1]);
    }
}

/// Sets of edges in which the clocks outweigh the geometry lead to no position.
pub open spec fn positionless_where_clocks_dominate(
    radius: Double,
    active: Seq<EdgeView>,
    w: Figures,
) -> bool {
    forall|k: int|
        0 <= k < scenarios(active).len() && clocks_dominate(
            kept_edges(active, #[trigger] scenarios(active)[k]),
        ) ==> points_of(radius, active, w, k).len() == 0
}

/// With the numbers of its snapshot a solve puts out positions that can all be
/// observed, or else a region, and nothing only where no measured difference
/// takes part. A set of edges in which the clocks outweigh the geometry leads to
/// no position.
pub proof fn points_are_observable(snap: SnapshotView, w: Figures, d: Decimals)
    requires
        belong(w, snap),
    ensures
        forall|i: int|
            0 <= i < positions(snap, w).len() ==> within(
                (#[trigger] positions(snap, w)[i]).fit.at,
                positions(snap, w)[i].fit.reach,
                snap.observable_radius,
            ),
        positions(snap, w).len() > 0 ==> solved(snap, w, d).len() == positions(snap, w).len(),
        forall|i: int|
            0 <= i < positions(snap, w).len() ==> {
                let c = #[trigger] solved(snap, w, d)[i];
                &&& c.kind == "point"@
                &&& c.x == Some(positions(snap, w)[i].fit.at.x)
                &&& c.y == Some(positions(snap, w)[i].fit.at.y)
                &&& c.region is None
            },
        positions(snap, w).len() == 0 ==> forall|i: int|
            0 <= i < solved(snap, w, d).len() ==> {
                let c = #[trigger] solved(snap, w, d)[i];
                &&& c.kind == "region"@
                &&& c.x is None
                &&& c.y is None
                &&& c.region is Some
            },
        solved(snap, w, d).len() == 0 <==> forall|i: int|
            0 <= i < snap.edges.len() ==> !#[trigger] takes_part(snap, i),
        positionless_where_clocks_dominate(
            snap.observable_radius,
            active_edges(snap, w.corrected@),
            w,
        ),
{
    let radius = snap.observable_radius;
    let active = active_edges(snap, w.corrected@);
    let n = scenarios(active).len() as int;
    let all = all_found(snap, w);
    let at = positions(snap, w);
    let list = unmarked(snap, w, d);
    let r = solved(snap, w, d);
    let ordered = arranged(all, by_ranks());
    found_positions_are_observable(radius, active, w, n);
    found_positions_are_arranged(snap, w);
    merging_takes_what_is_there(ordered, w.distances);
    assert forall|i: int| 0 <= i < at.len() implies within(
        (#[trigger] at[i]).fit.at,
        at[i].fit.reach,
        radius,
    ) by {
        let j = choose|j: int| 0 <= j < ordered.len() && (#[trigger] ordered[j]).fit == at[i].fit;
        assert(ordered.contains(ordered[j]));
        arrangement_holds_the_same(all, ordered, ordered[j]);
        let k = choose|k: int| 0 <= k < all.len() && all[k] == ordered[j];
        assert(within(all[k].fit.at, all[k].fit.reach, radius));
    }
    if list.len() >= 2 {
        marking_keeps_candidates(list, snap.kept_pairs);
    }
    if at.len() > 0 {
        assert(list.len() == at.len());
        assert forall|i: int| 0 <= i < at.len() implies (#[trigger] r[i]).kind == "point"@ && r[i].x
            == Some(at[i].fit.at.x) && r[i].y == Some(at[i].fit.at.y) && r[i].region is None by {
            assert(list[i].kind == "point"@);
        }
    }
    nothing_dropped_keeps_all(active);
    some_edge_takes_part(snap, w.corrected@);
    if active.len() > 0 {
        let s = system_at(w, 0)->0;
        assert(fits(s, kept_edges(active, scenarios(active)[0]), radius));
        positions_or_a_region(radius, active, s);
        assert(points_of(radius, active, w, 0) == core_points(radius, active, s));
        assert(region_of_set(radius, active, w, 0) == core_region(radius, active, s));
        reveal_with_fuel(found_upto, 2);
        reveal_with_fuel(region_upto, 2);
        if core_points(radius, active, s).len() > 0 {
            assert(found_upto(radius, active, w, 1).len() > 0);
            found_positions_stay(radius, active, w, n);
            if all.len() > 0 {
                arrangement_holds_the_same(all, ordered, all[0]);
            }
        } else {
            assert(region_upto(radius, active, w, 1) is Some);
            first_region_stays(radius, active, w, n);
        }
        assert(r.len() > 0);
    } else {
        no_edges_give_nothing(radius, active, w, n);
        if all.len() == 0 {
            arrangement_holds_the_same(all, ordered, arbitrary());
        }
        assert(at.len() == 0);
    }
    assert forall|k: int|
        0 <= k < n && clocks_dominate(
            kept_edges(active, #[trigger] scenarios(active)[k]),
        ) implies points_of(radius, active, w, k).len() == 0 by {
        let edges = kept_edges(active, scenarios(active)[k]);
        if edges.len() > 0 {
            positions_are_observable(radius, edges, system_at(w, k)->0);
        }
    }
}

/// Putting together keeps the order of the ranks.
proof fn merging_keeps_the_order(list: Seq<FoundView>, distances: Distances)
    requires
        all_ranks_follow(list),
        forall|i: int, j: int|
            0 <= i < j < list.len() ==> (#[trigger] list[i]).fit.rank_rms <= (
            #[trigger] list[j]).fit.rank_rms,
    ensures
        forall|i: int, j: int|
            0 <= i < j < merged(list, distances).len() ==> (#[trigger] merged(
                list,
                distances,
            )[i]).fit.rank_rms <= (#[trigger] merged(list, distances)[j]).fit.rank_rms,
    decreases list.len(),
{
    if list.len() > 0 {
        let rest = list.drop_last();
        let c = list.last();
        let last = list.len() - 1;
        let before = merged(rest, distances);
        let now = merged(list, distances);
        assert forall|i: int, j: int| 0 <= i < rest.len() && 0 <= j < rest.len() implies
            ranks_follow((#[trigger] rest[i]).fit, (#[trigger] rest[j]).fit) by {
            assert(rest[i] == list[i] && rest[j] == list[j]);
        }
        assert forall|i: int, j: int| 0 <= i < j < rest.len() implies (
        #[trigger] rest[i]).fit.rank_rms <= (#[trigger] rest[j]).fit.rank_rms by {
            assert(rest[i] == list[i] && rest[j] == list[j]);
        }
        merging_keeps_the_order(rest, distances);
        merging_takes_what_is_there(rest, distances);
        near_ones_are_in_the_list(before, c, distances);
        assert forall|k: int| 0 <= k < before.len() implies (#[trigger] before[k]).fit.rank_rms
            <= c.fit.rank_rms && ranks_follow(c.fit, before[k].fit) by {
            let j = choose|j: int|
                0 <= j < rest.len() && (#[trigger] rest[j]).fit == before[k].fit;
            assert(rest[j] == list[j]);
            assert(list[j].fit.rank_rms <= list[last].fit.rank_rms);
            assert(ranks_follow(list[last].fit, list[j].fit));
        }
        assert forall|k: int| 0 <= k < before.len() implies (#[trigger] now[k]).fit.rank_rms
            == before[k].fit.rank_rms by {
            assert(before[k].fit.rank_rms <= c.fit.rank_rms);
            assert(ranks_follow(c.fit, before[k].fit));
        }
        assert forall|i: int, j: int| 0 <= i < j < now.len() implies (
        #[trigger] now[i]).fit.rank_rms <= (#[trigger] now[j]).fit.rank_rms by {
            assert(now[i].fit.rank_rms == before[i].fit.rank_rms);
            if j < before.len() {
                assert(now[j].fit.rank_rms == before[j].fit.rank_rms);
                assert(before[i].fit.rank_rms <= before[j].fit.rank_rms);
            } else {
                assert(now[j] == c);
            }
        }
    }
}

/// The positions stand by their residuals, as these are rounded: none has a
/// larger rank than one behind it, and of two with different ranks the one in
/// front has the smaller residual.
pub proof fn positions_stand_by_residual(snap: SnapshotView, w: Figures)
    requires
        belong(w, snap),
    ensures
        forall|i: int, j: int|
            0 <= i < j < positions(snap, w).len() ==> (#[trigger] positions(
                snap,
                w,
            )[i]).fit.rank_rms <= (#[trigger] positions(snap, w)[j]).fit.rank_rms,
        forall|i: int, j: int|
            0 <= i < j < positions(snap, w).len() && (#[trigger] positions(
                snap,
                w,
            )[j]).fit.rms_nsigma.below((#[trigger] positions(snap, w)[i]).fit.rms_nsigma)
                ==> positions(snap, w)[i].fit.rank_rms == positions(snap, w)[j].fit.rank_rms,
{
    let all = all_found(snap, w);
    let ordered = arranged(all, by_ranks());
    let place = by_ranks();
    let at = positions(snap, w);
    found_positions_are_arranged(snap, w);
    assert forall|i: int| 0 <= i < ordered.len() implies all.contains(#[trigger] ordered[i]) by {
        assert(ordered.contains(ordered[i]));
        arrangement_holds_the_same(all, ordered, ordered[i]);
    }
    assert forall|i: int, j: int| 0 <= i < ordered.len() && 0 <= j < ordered.len() implies
        ranks_follow((#[trigger] ordered[i]).fit, (#[trigger] ordered[j]).fit) by {
        assert(all.contains(ordered[i]) && all.contains(ordered[j]));
        let k = choose|k: int| 0 <= k < all.len() && all[k] == ordered[i];
        let l = choose|l: int| 0 <= l < all.len() && all[l] == ordered[j];
        assert(ranks_follow(all[k].fit, all[l].fit));
    }
    assert forall|i: int, j: int| 0 <= i < j < ordered.len() implies (
    #[trigger] ordered[i]).fit.rank_rms <= (#[trigger] ordered[j]).fit.rank_rms by {
        let (a, b) = (place(ordered[i]), place(ordered[j]));
        assert(place_lt(a, b));
        assert(a.0[0] == ordered[i].fit.rank_rms);
        assert(b.0[0] == ordered[j].fit.rank_rms);
    }
    merging_keeps_the_order(ordered, w.distances);
    merging_takes_what_is_there(ordered, w.distances);
    assert forall|i: int, j: int| 0 <= i < j < at.len() && (#[trigger] at[j]).fit.rms_nsigma.below(
        (#[trigger] at[i]).fit.rms_nsigma,
    ) implies at[i].fit.rank_rms == at[j].fit.rank_rms by {
        let k = choose|k: int| 0 <= k < ordered.len() && (#[trigger] ordered[k]).fit == at[i].fit;
        let l = choose|l: int| 0 <= l < ordered.len() && (#[trigger] ordered[l]).fit == at[j].fit;
        assert(ranks_follow(ordered[l].fit, ordered[k].fit));
    }
}

} // verus!
