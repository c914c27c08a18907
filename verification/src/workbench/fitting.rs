//! One fit of a position to a set of edges: which edges are tried, and what is
//! made of the numbers that come out.
//!
//! Where the geometry does not determine a position, what comes out is a region
//! and a reason; no estimate is pulled back into the observable radius.
use vstd::prelude::*;

use crate::double::Double;
use crate::figures::Pt;
use crate::json::{array, json_views, Json, JsonView, Members};
use crate::order::{filter_of_push, picked_positions};
use crate::workbench::edges::{edge_views, Edge, EdgeView};

verus! {

/// 0.1 s: an edge that is less certain is ruled by its clocks.
pub const CLOCK_DOMINANT_SIGMA: u64 = 0x3fb9_9999_9999_999a;

/// So many suspected reflections are tried at most.
pub const MAX_MULTIPATH_SUSPECTS: usize = 3;

/// 1.
pub const ONE: u64 = 0x3ff0_0000_0000_0000;

/// 1e-12: a coefficient below counts as zero.
pub const TINY_COEFFICIENT: u64 = 0x3d71_9799_812d_ea11;

/// 1e-18: a determinant below counts as zero.
pub const TINY_DETERMINANT: u64 = 0x3c32_725d_d1d2_43ac;

/// 1e-7 m: a shorter step ends the refinement.
pub const SHORT_STEP: u64 = 0x3e7a_d7f2_9abc_af48;

/// So many steps a refinement takes at most.
pub const MAX_STEPS: usize = 10;

// ---------- Which edges are tried ----------

/// The places of suspected reflections, as far as they are tried.
pub open spec fn suspects(edges: Seq<EdgeView>) -> Seq<int> {
    let all = picked_positions(edges, |e: EdgeView| e.suspect);
    if all.len() > MAX_MULTIPATH_SUSPECTS {
        all.take(MAX_MULTIPATH_SUSPECTS as int)
    } else {
        all
    }
}

/// The sets of edges that are dropped in turn: none, each suspect, each two
/// suspects that follow each other.
pub open spec fn scenarios_for(sus: Seq<int>) -> Seq<Seq<int>> {
    seq![Seq::<int>::empty()] + sus.map_values(|i: int| seq![i]) + Seq::new(
        if sus.len() == 0 {
            0
        } else {
            (sus.len() - 1) as nat
        },
        |k: int| seq![sus[k], sus[k + 1]],
    )
}

pub open spec fn scenarios(edges: Seq<EdgeView>) -> Seq<Seq<int>> {
    scenarios_for(suspects(edges))
}

/// What a list of places says.
pub open spec fn places(s: Seq<usize>) -> Seq<int> {
    s.map_values(|n: usize| n as int)
}

/// What a list of sets of places says.
pub open spec fn place_sets(s: Seq<Vec<usize>>) -> Seq<Seq<int>> {
    s.map_values(|v: Vec<usize>| places(v@))
}

fn find_suspects(edges: &Vec<Edge>) -> (r: Vec<usize>)
    ensures
        places(r@) == suspects(edge_views(edges@)),
        r@.len() <= MAX_MULTIPATH_SUSPECTS,
{
    let ghost all = edge_views(edges@);
    let ghost pick = |e: EdgeView| e.suspect;
    let mut out: Vec<usize> = Vec::new();
    let mut i: usize = 0;
    assert(all.take(0) =~= Seq::empty());
    assert(places(out@) =~= picked_positions(all.take(0), pick));
    while i < edges.len()
        invariant
            i <= edges@.len(),
            all == edge_views(edges@),
            pick == (|e: EdgeView| e.suspect),
            places(out@) == picked_positions(all.take(i as int), pick),
        decreases edges@.len() - i,
    {
        assert(all.take(i + 1).drop_last() =~= all.take(i as int));
        assert(all.take(i + 1).last() == edges@[i as int]@);
        let ghost before = places(out@);
        if edges[i].suspect {
            out.push(i);
            assert(places(out@) =~= before.push(i as int));
        }
        i += 1;
    }
    assert(all.take(i as int) =~= all);
    if out.len() > MAX_MULTIPATH_SUSPECTS {
        let ghost before = places(out@);
        out.truncate(MAX_MULTIPATH_SUSPECTS);
        assert(places(out@) =~= before.take(MAX_MULTIPATH_SUSPECTS as int));
    }
    out
}

/// Lists the sets of edges that are dropped in turn.
pub fn multipath_scenarios(edges: &Vec<Edge>) -> (r: Vec<Vec<usize>>)
    ensures
        place_sets(r@) == scenarios(edge_views(edges@)),
        1 <= r@.len() <= 6,
{
    let sus = find_suspects(edges);
    let ghost list = places(sus@);
    let ghost want = scenarios_for(list);
    let mut out: Vec<Vec<usize>> = Vec::new();
    let none: Vec<usize> = Vec::new();
    assert(places(none@) =~= Seq::<int>::empty());
    out.push(none);
    let mut i: usize = 0;
    assert(place_sets(out@) =~= want.take(1));
    while i < sus.len()
        invariant
            i <= sus@.len(),
            sus@.len() <= MAX_MULTIPATH_SUSPECTS,
            list == places(sus@),
            want == scenarios_for(list),
            place_sets(out@) == want.take(1 + i),
            out@.len() == 1 + i,
        decreases sus@.len() - i,
    {
        let ghost before = place_sets(out@);
        let mut one: Vec<usize> = Vec::new();
        one.push(sus[i]);
        assert(places(one@) =~= seq![list[i as int]]);
        assert(want[1 + i] == seq![list[i as int]]);
        out.push(one);
        assert(place_sets(out@) =~= before.push(seq![list[i as int]]));
        assert(want.take(2 + i) =~= want.take(1 + i).push(want[1 + i]));
        i += 1;
    }
    let mut k: usize = 1;
    while k < sus.len()
        invariant
            sus@.len() <= MAX_MULTIPATH_SUSPECTS,
            1 <= k,
            k <= sus@.len() || k == 1,
            list == places(sus@),
            want == scenarios_for(list),
            place_sets(out@) == want.take(sus@.len() + k),
            out@.len() == sus@.len() + k,
        decreases sus@.len() - k,
    {
        let ghost before = place_sets(out@);
        let mut two: Vec<usize> = Vec::new();
        two.push(sus[k - 1]);
        two.push(sus[k]);
        let ghost pair = seq![list[k - 1], list[k as int]];
        assert(places(two@) =~= pair);
        assert(want[sus@.len() + k] == pair);
        out.push(two);
        assert(place_sets(out@) =~= before.push(pair));
        assert(want.take(sus@.len() + k + 1) =~= want.take((sus@.len() + k) as int).push(
            want[sus@.len() + k],
        ));
        k += 1;
    }
    assert(want.len() == if sus@.len() == 0 {
        1
    } else {
        2 * sus@.len()
    });
    assert(want.take(want.len() as int) =~= want);
    out
}

/// The edges without the dropped ones.
pub open spec fn kept_edges(edges: Seq<EdgeView>, dropped: Seq<int>) -> Seq<EdgeView>
    decreases edges.len(),
{
    if edges.len() == 0 {
        Seq::empty()
    } else {
        let before = kept_edges(edges.drop_last(), dropped);
        if dropped.contains(edges.len() - 1) {
            before
        } else {
            before.push(edges.last())
        }
    }
}

/// With nothing dropped all edges are kept.
pub(crate) proof fn kept_without_drops(edges: Seq<EdgeView>)
    ensures
        kept_edges(edges, Seq::<int>::empty()) == edges,
    decreases edges.len(),
{
    if edges.len() > 0 {
        kept_without_drops(edges.drop_last());
        assert(edges.drop_last().push(edges.last()) =~= edges);
    }
}

/// Dropping adds no edge.
pub(crate) proof fn kept_are_no_more(edges: Seq<EdgeView>, dropped: Seq<int>)
    ensures
        kept_edges(edges, dropped).len() <= edges.len(),
    decreases edges.len(),
{
    if edges.len() > 0 {
        kept_are_no_more(edges.drop_last(), dropped);
    }
}

fn is_dropped(dropped: &Vec<usize>, i: usize) -> (r: bool)
    ensures
        r == places(dropped@).contains(i as int),
{
    let ghost all = places(dropped@);
    let mut k: usize = 0;
    while k < dropped.len()
        invariant
            k <= dropped@.len(),
            all == places(dropped@),
            forall|j: int| 0 <= j < k ==> all[j] != i,
        decreases dropped@.len() - k,
    {
        assert(all[k as int] == dropped@[k as int]);
        if dropped[k] == i {
            return true;
        }
        k += 1;
    }
    false
}

/// Leaves out the dropped edges.
pub fn scenario_edges(edges: &Vec<Edge>, dropped: &Vec<usize>) -> (r: Vec<Edge>)
    ensures
        edge_views(r@) == kept_edges(edge_views(edges@), places(dropped@)),
{
    let ghost all = edge_views(edges@);
    let mut out: Vec<Edge> = Vec::new();
    let mut i: usize = 0;
    assert(all.take(0) =~= Seq::empty());
    assert(edge_views(out@) =~= Seq::empty());
    while i < edges.len()
        invariant
            i <= edges@.len(),
            all == edge_views(edges@),
            edge_views(out@) == kept_edges(all.take(i as int), places(dropped@)),
        decreases edges@.len() - i,
    {
        let ghost before = edge_views(out@);
        assert(all.take(i + 1).drop_last() =~= all.take(i as int));
        assert(all.take(i + 1).last() == edges@[i as int]@);
        if !is_dropped(dropped, i) {
            out.push(edges[i].copy());
            assert(edge_views(out@) =~= before.push(edges@[i as int]@));
        }
        i += 1;
    }
    assert(all.take(i as int) =~= all);
    out
}

// ---------- The reference station ----------

/// How many ends of edges are at a station.
pub open spec fn degree(edges: Seq<EdgeView>, station: int) -> nat
    decreases edges.len(),
{
    if edges.len() == 0 {
        0
    } else {
        let e = edges.last();
        degree(edges.drop_last(), station) + (if e.a == station {
            1nat
        } else {
            0
        }) + (if e.b == station {
            1nat
        } else {
            0
        })
    }
}

/// The station `i` is a worse reference than `j`: it has fewer edges, or as
/// many with less weight.
pub open spec fn worse(edges: Seq<EdgeView>, weights: Seq<Double>, i: int, j: int) -> bool {
    degree(edges, i) < degree(edges, j) || (degree(edges, i) == degree(edges, j)
        && weights[i].below(weights[j]))
}

fn count_ends(edges: &Vec<Edge>, station: usize) -> (r: u128)
    ensures
        r == degree(edge_views(edges@), station as int),
{
    let ghost all = edge_views(edges@);
    let mut n: u128 = 0;
    let mut i: usize = 0;
    assert(all.take(0) =~= Seq::empty());
    while i < edges.len()
        invariant
            i <= edges@.len(),
            all == edge_views(edges@),
            n == degree(all.take(i as int), station as int),
            n <= 2 * i,
        decreases edges@.len() - i,
    {
        assert(all.take(i + 1).drop_last() =~= all.take(i as int));
        assert(all.take(i + 1).last() == edges@[i as int]@);
        if edges[i].a == station {
            n += 1;
        }
        if edges[i].b == station {
            n += 1;
        }
        i += 1;
    }
    assert(all.take(i as int) =~= all);
    n
}

/// Chooses the station that the others are taken relative to: the one with the
/// most edges, among these the one with the most weight, among these the last.
/// `weights` holds, for each station, the sum of `1 / sigma^2` over its edges.
pub fn choose_reference(edges: &Vec<Edge>, weights: &Vec<Double>) -> (r: usize)
    requires
        forall|i: int| 0 <= i < weights@.len() ==> !(#[trigger] weights@[i]).nan(),
    ensures
        weights@.len() == 0 ==> r == 0,
        weights@.len() > 0 ==> r < weights@.len(),
        forall|j: int|
            0 <= j < weights@.len() ==> !worse(edge_views(edges@), weights@, r as int, j),
        forall|j: int|
            r < j < weights@.len() ==> worse(edge_views(edges@), weights@, j, r as int),
{
    let ghost all = edge_views(edges@);
    if weights.len() == 0 {
        return 0;
    }
    let mut best: usize = 0;
    let mut most: u128 = count_ends(edges, 0);
    let mut i: usize = 1;
    while i < weights.len()
        invariant
            1 <= i <= weights@.len(),
            best < i,
            all == edge_views(edges@),
            forall|k: int| 0 <= k < weights@.len() ==> !(#[trigger] weights@[k]).nan(),
            most == degree(all, best as int),
            forall|j: int| 0 <= j < i ==> !worse(all, weights@, best as int, j),
            forall|j: int| best < j < i ==> worse(all, weights@, j, best as int),
        decreases weights@.len() - i,
    {
        let n: u128 = count_ends(edges, i);
        let lower = n < most || (n == most && weights[i].is_below(weights[best]));
        assert(lower == worse(all, weights@, i as int, best as int));
        if !lower {
            assert forall|j: int| 0 <= j < i implies !worse(all, weights@, i as int, j) by {
                assert(!worse(all, weights@, best as int, j));
                assert(!weights@[j].nan() && !weights@[best as int].nan());
                assert(!weights@[i as int].nan());
            }
            best = i;
            most = n;
        }
        i += 1;
    }
    best
}

// ---------- Timely edges ----------

/// An edge is timely: its uncertainty comes from the measurement and not from
/// the clocks.
pub open spec fn timely() -> spec_fn(EdgeView) -> bool {
    |e: EdgeView| e.sigma.below(Double { bits: CLOCK_DOMINANT_SIGMA })
}

/// An edge is ruled by its clocks.
pub open spec fn clock_ruled(edges: Seq<EdgeView>) -> bool {
    exists|i: int|
        0 <= i < edges.len() && (Double { bits: CLOCK_DOMINANT_SIGMA }).up_to(
            (#[trigger] edges[i]).sigma,
        )
}

/// The timely edges.
pub fn timely_edges(edges: &Vec<Edge>) -> (r: Vec<Edge>)
    ensures
        edge_views(r@) == edge_views(edges@).filter(timely()),
{
    let ghost all = edge_views(edges@);
    let ghost pick = timely();
    let mut out: Vec<Edge> = Vec::new();
    let mut i: usize = 0;
    proof {
        reveal(Seq::filter);
        assert(all.take(0) =~= Seq::empty());
    }
    assert(edge_views(out@) =~= all.take(0).filter(pick));
    while i < edges.len()
        invariant
            i <= edges@.len(),
            all == edge_views(edges@),
            pick == timely(),
            edge_views(out@) == all.take(i as int).filter(pick),
        decreases edges@.len() - i,
    {
        let ghost before = edge_views(out@);
        let ghost x = edges@[i as int]@;
        assert(all.take(i + 1) =~= all.take(i as int).push(x));
        proof {
            filter_of_push(all.take(i as int), x, pick);
        }
        if edges[i].sigma.is_below(Double { bits: CLOCK_DOMINANT_SIGMA }) {
            assert(pick(x));
            out.push(edges[i].copy());
            assert(edge_views(out@) =~= before.push(x));
        } else {
            assert(!pick(x));
        }
        i += 1;
    }
    assert(all.take(i as int) =~= all);
    out
}

/// Whether an edge is ruled by its clocks.
pub fn is_clock_ruled(edges: &Vec<Edge>) -> (r: bool)
    ensures
        r == clock_ruled(edge_views(edges@)),
{
    let ghost all = edge_views(edges@);
    let mut i: usize = 0;
    while i < edges.len()
        invariant
            i <= edges@.len(),
            all == edge_views(edges@),
            forall|k: int|
                0 <= k < i ==> !(Double { bits: CLOCK_DOMINANT_SIGMA }).up_to(
                    (#[trigger] all[k]).sigma,
                ),
        decreases edges@.len() - i,
    {
        assert(all[i as int] == edges@[i as int]@);
        if (Double { bits: CLOCK_DOMINANT_SIGMA }).is_up_to(edges[i].sigma) {
            return true;
        }
        i += 1;
    }
    false
}

/// Of timely edges the one that was measured first: the one that a hyperbola
/// is drawn for.
pub fn first_measured(good: &Vec<Edge>) -> (r: Option<usize>)
    ensures
        match r {
            Some(i) => i < good@.len() && (forall|k: int|
                0 <= k < good@.len() ==> good@[i as int].origin_idx <= (
                #[trigger] good@[k]).origin_idx),
            None => good@.len() == 0,
        },
{
    if good.len() == 0 {
        return None;
    }
    let mut best: usize = 0;
    let mut i: usize = 1;
    while i < good.len()
        invariant
            1 <= i <= good@.len(),
            best < i,
            forall|k: int|
                0 <= k < i ==> good@[best as int].origin_idx <= (#[trigger] good@[k]).origin_idx,
        decreases good@.len() - i,
    {
        if good[i].origin_idx < good[best].origin_idx {
            best = i;
        }
        i += 1;
    }
    Some(best)
}

/// Why there is only a region: clocks that are not known leave fewer timely
/// edges than the position lacks, or the stations stand badly.
pub open spec fn region_cause(any_unknown: bool, n_good: int, rank: int) -> Seq<char> {
    if any_unknown && n_good < 3 - rank {
        "clock_freedom"@
    } else {
        "sensor_geometry"@
    }
}

/// Why there is a region: the clocks, where too few edges are timely, or else the
/// geometry.
pub fn region_reason(any_unknown: bool, n_good: usize, rank: usize) -> (r: String)
    requires
        rank <= 3,
    ensures
        r@ == region_cause(any_unknown, n_good as int, rank as int),
{
    if any_unknown && n_good < 3 - rank {
        "clock_freedom".to_owned()
    } else {
        "sensor_geometry".to_owned()
    }
}

// ---------- The observable radius ----------

/// A place lies within the observable radius. `reach` is its distance from the
/// origin.
pub open spec fn within(at: Pt, reach: Double, radius: Double) -> bool {
    at.x.finite() && at.y.finite() && reach.up_to(radius)
}

/// Whether a place is finite and within the observable radius.
pub fn in_domain(at: Pt, reach: Double, radius: Double) -> (r: bool)
    ensures
        r == within(at, reach, radius),
{
    at.x.is_finite() && at.y.is_finite() && reach.is_up_to(radius)
}

// ---------- Refinement ----------

/// A refinement on its way: where it is, and how many steps it has taken.
#[derive(Clone, Copy, Debug, PartialEq, Eq, Structural)]
pub struct Refinement {
    pub at: Pt,
    pub steps: usize,
}

/// The numbers of one step: the determinant of the normal equations, where the
/// step leads, how far that is from the origin, and how long the step is.
#[derive(Clone, Copy, Debug, PartialEq, Eq, Structural)]
pub struct Move {
    pub det: Double,
    pub to: Pt,
    pub reach: Double,
    pub length: Double,
}

/// What comes after a step.
#[derive(Clone, Copy, Debug, PartialEq, Eq, Structural)]
pub enum Next {
    Again(Refinement),
    Settled(Pt),
    /// The walk has left the observable radius: there is no estimate.
    Lost,
}

/// What becomes of a refinement with a step.
pub open spec fn after_move(s: Refinement, m: Move, radius: Double) -> Next {
    if m.det.size().below(Double { bits: TINY_DETERMINANT }) {
        Next::Settled(s.at)
    } else if !within(m.to, m.reach, radius) {
        Next::Lost
    } else if m.length.below(Double { bits: SHORT_STEP }) || s.steps + 1 >= MAX_STEPS {
        Next::Settled(m.to)
    } else {
        Next::Again(Refinement { at: m.to, steps: (s.steps + 1) as usize })
    }
}

impl Refinement {
    /// Starts a refinement at a place.
    pub fn start(at: Pt) -> (r: Refinement)
        ensures
            r == (Refinement { at, steps: 0 }),
    {
        Refinement { at, steps: 0 }
    }

    /// Takes a step: over after at most [`MAX_STEPS`] of them.
    pub fn step(self, m: Move, radius: Double) -> (r: Next)
        ensures
            r == after_move(self, m, radius),
            r matches Next::Again(n) ==> self.steps < n.steps < MAX_STEPS && within(
                n.at,
                m.reach,
                radius,
            ),
            r matches Next::Settled(p) ==> p == self.at || within(p, m.reach, radius),
    {
        if m.det.absolute().is_below(Double { bits: TINY_DETERMINANT }) {
            return Next::Settled(self.at);
        }
        if !in_domain(m.to, m.reach, radius) {
            return Next::Lost;
        }
        if m.length.is_below(Double { bits: SHORT_STEP }) || self.steps >= MAX_STEPS - 1 {
            return Next::Settled(m.to);
        }
        Next::Again(Refinement { at: m.to, steps: self.steps + 1 })
    }
}

/// What a refinement comes to with the first `n` of its steps: the steps after
/// its end count for nothing.
pub open spec fn refined_after(start: Refinement, moves: Seq<Move>, n: int, radius: Double) -> Next
    decreases n,
{
    if n <= 0 {
        Next::Again(start)
    } else {
        match refined_after(start, moves, n - 1, radius) {
            Next::Again(s) => after_move(s, moves[n - 1], radius),
            ended => ended,
        }
    }
}

/// The distances of the steps are those of the places that they lead to.
pub open spec fn reaches_are(moves: Seq<Move>, reach: spec_fn(Pt) -> Double) -> bool {
    forall|i: int| 0 <= i < moves.len() ==> (#[trigger] moves[i]).reach == reach(moves[i].to)
}

/// A refinement that starts where it can be observed never leaves: wherever it
/// is, and wherever it settles, can be observed, and is the start or where one of
/// its steps led, never a place that was pulled back. It is over after at most
/// [`MAX_STEPS`] steps.
pub proof fn a_refinement_stays_observable(
    at: Pt,
    moves: Seq<Move>,
    n: int,
    radius: Double,
    reach: spec_fn(Pt) -> Double,
)
    requires
        0 <= n <= moves.len(),
        reaches_are(moves, reach),
        within(at, reach(at), radius),
    ensures
        match refined_after(Refinement { at, steps: 0 }, moves, n, radius) {
            Next::Again(s) => {
                &&& within(s.at, reach(s.at), radius)
                &&& s.at == at || exists|i: int| 0 <= i < n && s.at == (#[trigger] moves[i]).to
                &&& s.steps == n < MAX_STEPS
            },
            Next::Settled(p) => {
                &&& within(p, reach(p), radius)
                &&& p == at || exists|i: int| 0 <= i < n && p == (#[trigger] moves[i]).to
            },
            Next::Lost => true,
        },
    decreases n,
{
    if n > 0 {
        a_refinement_stays_observable(at, moves, n - 1, radius, reach);
        assert(moves[n - 1].reach == reach(moves[n - 1].to));
    }
}

// ---------- What the numbers are made into ----------

/// How an edge fits a position: the predicted delay, the measured one minus it,
/// and that by the uncertainty.
#[derive(Clone, Copy, Debug, PartialEq, Eq, Structural)]
pub struct Predicted {
    pub predicted: Double,
    pub residual: Double,
    pub quotient: Double,
}

pub fn copy_predicted(list: &Vec<Predicted>) -> (r: Vec<Predicted>)
    ensures
        r@ == list@,
{
    let mut out: Vec<Predicted> = Vec::new();
    let mut i: usize = 0;
    while i < list.len()
        invariant
            i <= list@.len(),
            out@ =~= list@.take(i as int),
        decreases list@.len() - i,
    {
        out.push(list[i]);
        i += 1;
    }
    out
}

/// A refined position with how well it fits. The ranks order fits by residual,
/// largest residual and place, each in units of 1e-9; the texts show the place
/// to four decimals.
#[derive(Debug)]
pub struct Fit {
    pub at: Pt,
    /// How far it is from the origin.
    pub reach: Double,
    pub rms_nsigma: Double,
    pub max_residual_s: Double,
    pub chi2: Double,
    pub rank_rms: i64,
    pub rank_max: i64,
    pub rank_x: i64,
    pub rank_y: i64,
    pub shown_x: String,
    pub shown_y: String,
    pub predicted: Vec<Predicted>,
}

/// What a [`Fit`] says.
#[verifier::ext_equal]
pub ghost struct FitView {
    pub at: Pt,
    pub reach: Double,
    pub rms_nsigma: Double,
    pub max_residual_s: Double,
    pub chi2: Double,
    pub rank_rms: int,
    pub rank_max: int,
    pub rank_x: int,
    pub rank_y: int,
    pub shown_x: Seq<char>,
    pub shown_y: Seq<char>,
    pub predicted: Seq<Predicted>,
}

impl View for Fit {
    type V = FitView;

    open spec fn view(&self) -> FitView {
        FitView {
            at: self.at,
            reach: self.reach,
            rms_nsigma: self.rms_nsigma,
            max_residual_s: self.max_residual_s,
            chi2: self.chi2,
            rank_rms: self.rank_rms as int,
            rank_max: self.rank_max as int,
            rank_x: self.rank_x as int,
            rank_y: self.rank_y as int,
            shown_x: self.shown_x@,
            shown_y: self.shown_y@,
            predicted: self.predicted@,
        }
    }
}

impl Fit {
    /// A second value that says the same.
    pub fn copy(&self) -> (r: Fit)
        ensures
            r@ == self@,
    {
        Fit {
            at: self.at,
            reach: self.reach,
            rms_nsigma: self.rms_nsigma,
            max_residual_s: self.max_residual_s,
            chi2: self.chi2,
            rank_rms: self.rank_rms,
            rank_max: self.rank_max,
            rank_x: self.rank_x,
            rank_y: self.rank_y,
            shown_x: self.shown_x.clone(),
            shown_y: self.shown_y.clone(),
            predicted: copy_predicted(&self.predicted),
        }
    }
}

/// A place on a curve, and how far it is from the origin.
#[derive(Clone, Copy, Debug, PartialEq, Eq, Structural)]
pub struct Sample {
    pub at: Pt,
    pub reach: Double,
}

/// A system that determines a position.
#[derive(Debug)]
pub struct FullSystem {
    pub at: Pt,
    /// The range to the reference station.
    pub r0: Double,
    /// How far that is from the distance to the reference station.
    pub gap: Double,
    /// How far it may be: 40 m, or 0.6 of the distance if that is more.
    pub bound: Double,
    pub reach: Double,
    /// What a refinement from there comes to.
    pub refined: Option<Fit>,
}

/// A place where the line of solutions meets the cone of ranges.
#[derive(Debug)]
pub struct Root {
    pub at: Pt,
    pub r0: Double,
    pub reach: Double,
    pub refined: Option<Fit>,
}

/// A system that leaves a line: the quadratic `a t^2 + b t + c` along it with
/// its discriminant, the places where it is zero, and the line itself.
#[derive(Debug)]
pub struct LineSystem {
    pub a: Double,
    pub b: Double,
    pub disc: Double,
    /// The root where `a` is zero.
    pub single: Root,
    pub plus: Root,
    pub minus: Root,
    pub base: Pt,
    pub samples: Vec<Sample>,
    /// The sum of `1 / sigma^2`.
    pub weight: Double,
    /// The width of the line in metres, from that sum.
    pub spread: Double,
    /// The width where the sum is zero.
    pub fallback: Double,
}

/// A system that leaves more: the hyperbola of the edge that was measured
/// first, with its two branches.
#[derive(Debug)]
pub struct ShortSystem {
    /// Half the difference of ranges.
    pub half_gap: Double,
    /// Half the distance of the two stations.
    pub focal: Double,
    pub first: Vec<Sample>,
    pub second: Vec<Sample>,
    pub width: Double,
}

/// What the linear system of a set of edges comes to, by its rank: three, two,
/// or less.
#[derive(Debug)]
pub enum System {
    Full(FullSystem),
    Line(LineSystem),
    Short(ShortSystem),
}

/// A position with the rank of the geometry that it comes from.
#[derive(Debug)]
pub struct Location {
    pub fit: Fit,
    pub rank: usize,
}

/// What a [`Location`] says.
#[verifier::ext_equal]
pub ghost struct LocationView {
    pub fit: FitView,
    pub rank: int,
}

impl View for Location {
    type V = LocationView;

    open spec fn view(&self) -> LocationView {
        LocationView { fit: self.fit@, rank: self.rank as int }
    }
}

/// What a list of positions says.
pub open spec fn location_views(s: Seq<Location>) -> Seq<LocationView> {
    s.map_values(|l: Location| l@)
}

/// What one set of edges comes to: positions, or else a region and a reason.
#[derive(Debug)]
pub struct CoreResult {
    pub points: Vec<Location>,
    pub region: Option<(Json, String)>,
}

/// What a region and its reason say.
pub open spec fn said_region(r: Option<(Json, String)>) -> Option<(JsonView, Seq<char>)> {
    match r {
        Some(p) => Some((p.0@, p.1@)),
        None => None,
    }
}

/// A place as a pair of numbers.
pub open spec fn place_json(p: Pt) -> JsonView {
    JsonView::Array(seq![JsonView::Float(p.x), JsonView::Float(p.y)])
}

pub open spec fn places_json(s: Seq<Pt>) -> JsonView {
    JsonView::Array(s.map_values(|p: Pt| place_json(p)))
}

fn place_value(p: Pt) -> (r: Json)
    ensures
        r@ == place_json(p),
{
    let mut v: Vec<Json> = Vec::new();
    v.push(Json::Float(p.x));
    v.push(Json::Float(p.y));
    assert(json_views(v@) =~= seq![JsonView::Float(p.x), JsonView::Float(p.y)]);
    array(v)
}

pub(crate) fn places_value(s: &Vec<Pt>) -> (r: Json)
    ensures
        r@ == places_json(s@),
{
    let mut v: Vec<Json> = Vec::new();
    let mut i: usize = 0;
    while i < s.len()
        invariant
            i <= s@.len(),
            v@.len() == i,
            forall|k: int| 0 <= k < i ==> (#[trigger] v@[k])@ == place_json(s@[k]),
        decreases s@.len() - i,
    {
        v.push(place_value(s[i]));
        i += 1;
    }
    assert(json_views(v@) =~= s@.map_values(|p: Pt| place_json(p)));
    array(v)
}

/// The origin.
pub open spec fn origin() -> Pt {
    Pt { x: Double { bits: 0 }, y: Double { bits: 0 } }
}

/// The whole observable circle.
pub open spec fn circle_json(radius: Double, source: Seq<char>) -> JsonView {
    JsonView::Object(
        seq![
            ("shape"@, JsonView::Text("circle"@)),
            ("coordinates"@, places_json(seq![origin()])),
            ("radius_m"@, JsonView::Float(radius)),
            ("source"@, JsonView::Text(source)),
            ("coordinate_unit"@, JsonView::Text("m"@)),
        ],
    )
}

/// The region where nothing narrows it down.
pub fn empty_region(radius: Double, source: &str) -> (r: Json)
    ensures
        r@ == circle_json(radius, source@),
{
    let mut at: Vec<Pt> = Vec::new();
    at.push(Pt { x: Double { bits: 0 }, y: Double { bits: 0 } });
    assert(at@ =~= seq![origin()]);
    let mut m = Members::new();
    m.put("shape", Json::Text("circle".to_owned()));
    m.put("coordinates", places_value(&at));
    m.put("radius_m", Json::Float(radius));
    m.put("source", Json::Text(source.to_owned()));
    m.put("coordinate_unit", Json::Text("m".to_owned()));
    let r = m.object();
    assert(r@->Object_0 =~= circle_json(radius, source@)->Object_0);
    r
}

/// A curve with a width.
pub open spec fn curve_json(
    shape: Seq<char>,
    at: Seq<Pt>,
    source: Seq<char>,
    width: Double,
) -> JsonView {
    JsonView::Object(
        seq![
            ("shape"@, JsonView::Text(shape)),
            ("coordinates"@, places_json(at)),
            ("source"@, JsonView::Text(source)),
            ("width_m"@, JsonView::Float(width)),
            ("coordinate_unit"@, JsonView::Text("m"@)),
        ],
    )
}

fn curve_value(shape: &str, at: &Vec<Pt>, source: &str, width: Double) -> (r: Json)
    ensures
        r@ == curve_json(shape@, at@, source@, width),
{
    let mut m = Members::new();
    m.put("shape", Json::Text(shape.to_owned()));
    m.put("coordinates", places_value(at));
    m.put("source", Json::Text(source.to_owned()));
    m.put("width_m", Json::Float(width));
    m.put("coordinate_unit", Json::Text("m".to_owned()));
    let r = m.object();
    assert(r@->Object_0 =~= curve_json(shape@, at@, source@, width)->Object_0);
    r
}

/// The places of a curve that can be observed.
pub open spec fn observable(s: Seq<Sample>, radius: Double) -> Seq<Pt>
    decreases s.len(),
{
    if s.len() == 0 {
        Seq::empty()
    } else {
        let before = observable(s.drop_last(), radius);
        if within(s.last().at, s.last().reach, radius) {
            before.push(s.last().at)
        } else {
            before
        }
    }
}

fn observable_places(s: &Vec<Sample>, radius: Double) -> (r: Vec<Pt>)
    ensures
        r@ == observable(s@, radius),
{
    let mut out: Vec<Pt> = Vec::new();
    let mut i: usize = 0;
    assert(s@.take(0) =~= Seq::empty());
    while i < s.len()
        invariant
            i <= s@.len(),
            out@ == observable(s@.take(i as int), radius),
        decreases s@.len() - i,
    {
        assert(s@.take(i + 1).drop_last() =~= s@.take(i as int));
        if in_domain(s[i].at, s[i].reach, radius) {
            out.push(s[i].at);
        }
        i += 1;
    }
    assert(s@.take(i as int) =~= s@);
    out
}

/// The line of solutions as far as it can be observed, or else one place of it.
pub open spec fn line_places(l: LineSystem, radius: Double) -> Seq<Pt> {
    let s = observable(l.samples@, radius);
    if s.len() == 0 {
        seq![l.base]
    } else {
        s
    }
}

/// Its width.
pub open spec fn line_width(l: LineSystem) -> Double {
    if l.weight.up_to(Double { bits: 0 }) {
        l.fallback
    } else {
        l.spread
    }
}

fn line_value(l: &LineSystem, radius: Double, source: &str) -> (r: Json)
    ensures
        r@ == curve_json("line"@, line_places(*l, radius), source@, line_width(*l)),
{
    let mut at = observable_places(&l.samples, radius);
    if at.len() == 0 {
        at.push(l.base);
        assert(at@ =~= seq![l.base]);
    }
    let width = if l.weight.is_up_to(Double { bits: 0 }) {
        l.fallback
    } else {
        l.spread
    };
    curve_value("line", &at, source, width)
}

/// What stands between two branches of a curve.
pub open spec fn gap_mark() -> Pt {
    Pt { x: Double { bits: crate::figures::NO_RESULT },
        y: Double { bits: crate::figures::NO_RESULT } }
}

/// The two branches of the hyperbola, each with a mark behind it.
pub open spec fn hyperbola_places(s: ShortSystem, radius: Double) -> Seq<Pt> {
    observable(s.first@, radius).push(gap_mark()) + observable(s.second@, radius).push(gap_mark())
}

/// A width of at least one metre.
pub open spec fn at_least_one(w: Double) -> Double {
    if (Double { bits: ONE }).up_to(w) {
        w
    } else {
        Double { bits: ONE }
    }
}

/// The region of a hyperbola.
pub fn hyperbola_region(s: &ShortSystem, radius: Double) -> (r: Json)
    ensures
        r@ == curve_json(
            "hyperbola"@,
            hyperbola_places(*s, radius),
            "single pair-wise delay edge"@,
            at_least_one(s.width),
        ),
{
    let mark = Pt {
        x: Double { bits: crate::figures::NO_RESULT },
        y: Double { bits: crate::figures::NO_RESULT },
    };
    let mut at = observable_places(&s.first, radius);
    at.push(mark);
    let mut more = observable_places(&s.second, radius);
    more.push(mark);
    at.append(&mut more);
    assert(at@ =~= hyperbola_places(*s, radius));
    let width = if (Double { bits: ONE }).is_up_to(s.width) {
        s.width
    } else {
        Double { bits: ONE }
    };
    curve_value("hyperbola", &at, "single pair-wise delay edge", width)
}

// ---------- One set of edges ----------

/// A position at a rank, if a refinement came to one.
pub open spec fn located(fit: Option<Fit>, rank: int) -> Seq<LocationView> {
    match fit {
        Some(f) => seq![LocationView { fit: f@, rank }],
        None => Seq::empty(),
    }
}

/// The positions that a full system gives: none where the ranges contradict
/// each other or the place cannot be observed.
pub open spec fn full_points(f: FullSystem, radius: Double) -> Seq<LocationView> {
    if (Double { bits: ONE }).below(f.r0) && f.gap.up_to(f.bound) && within(f.at, f.reach, radius) {
        located(f.refined, 3)
    } else {
        Seq::empty()
    }
}

/// The position at a root: none where its range is negative or the place cannot
/// be observed.
pub open spec fn root_points(r: Root, radius: Double) -> Seq<LocationView> {
    if r.r0.below(Double { bits: 0 }) || !within(r.at, r.reach, radius) {
        Seq::empty()
    } else {
        located(r.refined, 2)
    }
}

/// The positions at the roots of the quadratic.
pub open spec fn line_points(l: LineSystem, radius: Double) -> Seq<LocationView> {
    if l.a.size().below(Double { bits: TINY_COEFFICIENT }) {
        if (Double { bits: TINY_COEFFICIENT }).below(l.b.size()) {
            root_points(l.single, radius)
        } else {
            Seq::empty()
        }
    } else if (Double { bits: 0 }).up_to(l.disc) {
        root_points(l.plus, radius) + root_points(l.minus, radius)
    } else {
        Seq::empty()
    }
}

/// Clocks that are not known outweigh the geometry of a line.
pub open spec fn clocks_dominate(edges: Seq<EdgeView>) -> bool {
    clock_ruled(edges) && edges.filter(timely()).len() < 3
}

/// The positions that a set of edges comes to.
pub open spec fn core_points(radius: Double, edges: Seq<EdgeView>, sys: System) -> Seq<
    LocationView,
> {
    match sys {
        System::Full(f) => full_points(f, radius),
        System::Line(l) => if clocks_dominate(edges) {
            Seq::empty()
        } else {
            line_points(l, radius)
        },
        System::Short(_) => Seq::empty(),
    }
}

/// The region that a set of edges comes to, with the reason, where it comes to
/// no position.
pub open spec fn core_region(radius: Double, edges: Seq<EdgeView>, sys: System) -> Option<
    (JsonView, Seq<char>),
> {
    let n = edges.filter(timely()).len() as int;
    let unknown = clock_ruled(edges);
    match sys {
        System::Full(f) => if full_points(f, radius).len() == 0 {
            Some(
                (
                    circle_json(radius, "no consistent solution inside the observable geometry"@),
                    region_cause(unknown, n, 3),
                ),
            )
        } else {
            None
        },
        System::Line(l) => if clocks_dominate(edges) {
            Some(
                (
                    curve_json(
                        "line"@,
                        line_places(l, radius),
                        "clock degree of freedom along rank-deficient intersection"@,
                        line_width(l),
                    ),
                    "clock_freedom"@,
                ),
            )
        } else if line_points(l, radius).len() == 0 {
            Some(
                (
                    curve_json(
                        "line"@,
                        line_places(l, radius),
                        "rank-deficient TDOA intersection"@,
                        line_width(l),
                    ),
                    region_cause(unknown, n, 2),
                ),
            )
        } else {
            None
        },
        System::Short(s) => if n >= 1 {
            if s.focal.up_to(s.half_gap) {
                Some(
                    (
                        circle_json(
                            radius,
                            "measured delay exceeds the baseline; no hyperbolic locus exists"@,
                        ),
                        region_cause(unknown, n, 1),
                    ),
                )
            } else {
                Some(
                    (
                        curve_json(
                            "hyperbola"@,
                            hyperbola_places(s, radius),
                            "single pair-wise delay edge"@,
                            at_least_one(s.width),
                        ),
                        region_cause(unknown, n, 1),
                    ),
                )
            }
        } else {
            Some(
                (
                    circle_json(radius, "no timely pair-wise delay edges"@),
                    region_cause(unknown, n, 0),
                ),
            )
        },
    }
}

/// A refinement that came to a position goes by so many timely edges, and the
/// position can be observed.
pub open spec fn refined_fits(r: Option<Fit>, n: int, needed: int, radius: Double) -> bool {
    r matches Some(f) ==> n >= needed && within(f.at, f.reach, radius)
}

/// A system is one of a set of edges within a radius: it takes a timely edge for
/// a system at all, two for a position on a line, three for one that is
/// determined, and every position can be observed.
pub open spec fn fits(sys: System, edges: Seq<EdgeView>, radius: Double) -> bool {
    let n = edges.filter(timely()).len() as int;
    match sys {
        System::Full(f) => n >= 1 && refined_fits(f.refined, n, 3, radius),
        System::Line(l) => n >= 1 && refined_fits(l.single.refined, n, 2, radius) && refined_fits(
            l.plus.refined,
            n,
            2,
            radius,
        ) && refined_fits(l.minus.refined, n, 2, radius),
        System::Short(_) => true,
    }
}

fn is_refined_fitting(r: &Option<Fit>, n: usize, needed: usize, radius: Double) -> (b: bool)
    ensures
        b == refined_fits(*r, n as int, needed as int, radius),
{
    match r {
        Some(f) => n >= needed && in_domain(f.at, f.reach, radius),
        None => true,
    }
}

/// Whether a system is one of a set of edges within a radius.
pub fn is_fitting(sys: &System, edges: &Vec<Edge>, radius: Double) -> (r: bool)
    ensures
        r == fits(*sys, edge_views(edges@), radius),
{
    let good = timely_edges(edges);
    let n: usize = good.len();
    assert(edge_views(good@).len() == n);
    match sys {
        System::Full(f) => n >= 1 && is_refined_fitting(&f.refined, n, 3, radius),
        System::Line(l) => n >= 1 && is_refined_fitting(&l.single.refined, n, 2, radius)
            && is_refined_fitting(&l.plus.refined, n, 2, radius) && is_refined_fitting(
            &l.minus.refined,
            n,
            2,
            radius,
        ),
        System::Short(_) => true,
    }
}

/// What a set of edges comes to with its own numbers can be observed, takes two
/// timely edges, three where it is determined, and is nothing where the clocks
/// outweigh the geometry.
pub proof fn positions_are_observable(radius: Double, edges: Seq<EdgeView>, sys: System)
    requires
        fits(sys, edges, radius),
    ensures
        forall|k: int|
            0 <= k < core_points(radius, edges, sys).len() ==> {
                let p = #[trigger] core_points(radius, edges, sys)[k];
                &&& within(p.fit.at, p.fit.reach, radius)
                &&& edges.filter(timely()).len() >= p.rank
            },
        clocks_dominate(edges) ==> core_points(radius, edges, sys).len() == 0,
{
}

fn put_located(out: &mut Vec<Location>, fit: &Option<Fit>, rank: usize)
    ensures
        location_views(final(out)@) == location_views(old(out)@) + located(*fit, rank as int),
{
    let ghost before = location_views(out@);
    match fit {
        Some(f) => {
            let l = Location { fit: f.copy(), rank };
            let ghost lv = l@;
            out.push(l);
            assert(location_views(out@) =~= before.push(lv));
            assert(before.push(lv) =~= before + seq![lv]);
        },
        None => {
            assert(before + Seq::empty() =~= before);
        },
    }
}

fn put_root(out: &mut Vec<Location>, r: &Root, radius: Double)
    ensures
        location_views(final(out)@) == location_views(old(out)@) + root_points(*r, radius),
{
    let ghost before = location_views(out@);
    if r.r0.is_below(Double { bits: 0 }) || !in_domain(r.at, r.reach, radius) {
        assert(before + Seq::empty() =~= before);
        return;
    }
    put_located(out, &r.refined, 2);
}

/// Makes of one set of edges, and the numbers of its system, what it comes to.
pub fn solve_core(radius: Double, edges: &Vec<Edge>, sys: &System) -> (r: CoreResult)
    requires
        fits(*sys, edge_views(edges@), radius),
    ensures
        location_views(r.points@) == core_points(radius, edge_views(edges@), *sys),
        said_region(r.region) == core_region(radius, edge_views(edges@), *sys),
        forall|k: int|
            0 <= k < r.points@.len() ==> within(
                (#[trigger] r.points@[k]).fit.at,
                r.points@[k].fit.reach,
                radius,
            ),
{
    let good = timely_edges(edges);
    let unknown = is_clock_ruled(edges);
    let n: usize = good.len();
    assert(edge_views(good@).len() == n);
    let mut points: Vec<Location> = Vec::new();
    assert(location_views(points@) =~= Seq::empty());
    let ghost none = Seq::<LocationView>::empty();
    let mut region: Option<(Json, String)> = None;
    match sys {
        System::Full(f) => {
            if (Double { bits: ONE }).is_below(f.r0) && f.gap.is_up_to(f.bound) && in_domain(
                f.at,
                f.reach,
                radius,
            ) {
                put_located(&mut points, &f.refined, 3);
                assert(none + located(f.refined, 3) =~= located(f.refined, 3));
            }
            assert(location_views(points@).len() == points@.len());
            if points.len() == 0 {
                region = Some(
                    (
                        empty_region(
                            radius,
                            "no consistent solution inside the observable geometry",
                        ),
                        region_reason(unknown, n, 3),
                    ),
                );
            }
        },
        System::Line(l) => {
            if unknown && n < 3 {
                region = Some(
                    (
                        line_value(
                            l,
                            radius,
                            "clock degree of freedom along rank-deficient intersection",
                        ),
                        "clock_freedom".to_owned(),
                    ),
                );
            } else {
                if l.a.absolute().is_below(Double { bits: TINY_COEFFICIENT }) {
                    if (Double { bits: TINY_COEFFICIENT }).is_below(l.b.absolute()) {
                        put_root(&mut points, &l.single, radius);
                        assert(none + root_points(l.single, radius) =~= root_points(
                            l.single,
                            radius,
                        ));
                    }
                } else if (Double { bits: 0 }).is_up_to(l.disc) {
                    put_root(&mut points, &l.plus, radius);
                    put_root(&mut points, &l.minus, radius);
                    assert(none + root_points(l.plus, radius) + root_points(l.minus, radius)
                        =~= root_points(l.plus, radius) + root_points(l.minus, radius));
                }
                assert(location_views(points@).len() == points@.len());
                if points.len() == 0 {
                    region = Some(
                        (
                            line_value(l, radius, "rank-deficient TDOA intersection"),
                            region_reason(unknown, n, 2),
                        ),
                    );
                }
            }
        },
        System::Short(s) => {
            if n >= 1 {
                let reason = region_reason(unknown, n, 1);
                if s.focal.is_up_to(s.half_gap) {
                    region = Some(
                        (
                            empty_region(
                                radius,
                                "measured delay exceeds the baseline; no hyperbolic locus exists",
                            ),
                            reason,
                        ),
                    );
                } else {
                    region = Some((hyperbola_region(s, radius), reason));
                }
            } else {
                region = Some(
                    (
                        empty_region(radius, "no timely pair-wise delay edges"),
                        region_reason(unknown, n, 0),
                    ),
                );
            }
        },
    }
    proof {
        let e = edge_views(edges@);
        positions_are_observable(radius, e, *sys);
        assert forall|k: int| 0 <= k < points@.len() implies within(
            (#[trigger] points@[k]).fit.at,
            points@[k].fit.reach,
            radius,
        ) by {
            assert(core_points(radius, e, *sys)[k] == points@[k]@);
        }
    }
    CoreResult { points, region }
}

/// A set of edges comes to positions or to a region, never to both and never to
/// neither.
pub proof fn positions_or_a_region(radius: Double, edges: Seq<EdgeView>, sys: System)
    ensures
        core_points(radius, edges, sys).len() == 0 <==> core_region(radius, edges, sys) is Some,
{
}

} // verus!
