//! Shapes on the site and the steps of the search for a position.
//!
//! The numeric side of the program samples curves and takes steps; here it is
//! decided which samples belong to a shape and what becomes of a step.
use vstd::prelude::*;

use crate::double::{Double, INFINITE_MAGNITUDE};
pub use crate::figures::Pt;
use crate::model::{Curve, CurveView, Region, RegionView, SiteBounds};

verus! {

/// 1e-9 m: foci that are closer are one place.
pub const SAME_FOCUS_M: u64 = 0x3e11_2e0b_e826_d695;

/// 1e-10 m: a shorter step ends the search.
pub const SHORT_STEP_M: u64 = 0x3ddb_7cdf_d9d7_bdbb;

/// 1e-15: an eigenvalue up to this counts as none.
pub const NO_EIGENVALUE: u64 = 0x3cd2_03af_9ee7_5616;

/// 1e-12: up to this eigenvalue a direction is hardly observed.
pub const WEAK_EIGENVALUE: u64 = 0x3d71_9799_812d_ea11;

/// 0.5 m
pub const HALF_A_METRE: u64 = 0x3fe0_0000_0000_0000;

/// 1e12: a search with more damping has failed.
pub const MAX_DAMPING: u64 = 0x426d_1a94_a200_0000;

/// A difference of arrival times between two places.
#[derive(Debug)]
pub struct Tdoa {
    pub a: Pt,
    pub b: Pt,
    pub tau: Double,
    pub c: Double,
    pub weight: Double,
    pub tag: String,
}

/// The site is a rectangle: each lower bound is no larger than the upper one.
pub open spec fn proper(b: SiteBounds) -> bool {
    b.min_x.up_to(b.max_x) && b.min_y.up_to(b.max_y)
}

/// Whether the site is a rectangle.
pub fn is_proper(b: SiteBounds) -> (r: bool)
    ensures
        r == proper(b),
{
    b.min_x.is_up_to(b.max_x) && b.min_y.is_up_to(b.max_y)
}

/// A place lies in a rectangle, borders included.
pub open spec fn lies_in(p: Pt, b: SiteBounds) -> bool {
    &&& b.min_x.up_to(p.x) && p.x.up_to(b.max_x)
    &&& b.min_y.up_to(p.y) && p.y.up_to(b.max_y)
}

/// Whether a place lies in a rectangle, borders included.
pub fn is_in(p: Pt, b: SiteBounds) -> (r: bool)
    ensures
        r == lies_in(p, b),
{
    b.min_x.is_up_to(p.x) && p.x.is_up_to(b.max_x) && b.min_y.is_up_to(p.y) && p.y.is_up_to(
        b.max_y,
    )
}

/// The place on the site next to `p`.
pub open spec fn drawn_in(p: Pt, b: SiteBounds) -> Pt {
    Pt { x: p.x.held_within(b.min_x, b.max_x), y: p.y.held_within(b.min_y, b.max_y) }
}

/// Draws a place onto the site. Only the corners of regions are drawn in, never
/// a position.
pub fn clamp_pt(p: Pt, b: SiteBounds) -> (r: Pt)
    requires
        proper(b),
    ensures
        r == drawn_in(p, b),
        !p.x.nan() && !p.y.nan() ==> lies_in(r, b),
        lies_in(p, b) ==> r == p,
{
    Pt { x: p.x.clamped(b.min_x, b.max_x), y: p.y.clamped(b.min_y, b.max_y) }
}

/// A sample of a curve counts: it is a place on the site.
pub open spec fn sample_counts(p: Pt, b: SiteBounds) -> bool {
    p.x.finite() && p.y.finite() && lies_in(p, b)
}

/// The samples that count, where they are.
pub open spec fn outline(samples: Seq<Pt>, b: SiteBounds) -> Seq<Pt>
    decreases samples.len(),
{
    if samples.len() == 0 {
        Seq::empty()
    } else {
        let before = outline(samples.drop_last(), b);
        if sample_counts(samples.last(), b) {
            before.push(samples.last())
        } else {
            before
        }
    }
}

/// The part of a curve on the site is made of samples of the curve, none of
/// them moved, and leaves out no sample on the site.
pub proof fn an_outline_is_cut_not_bent(samples: Seq<Pt>, b: SiteBounds)
    ensures
        forall|p: Pt|
            #[trigger] outline(samples, b).contains(p) <==> samples.contains(p) && sample_counts(
                p,
                b,
            ),
        outline(samples, b).len() <= samples.len(),
    decreases samples.len(),
{
    if samples.len() > 0 {
        let rest = samples.drop_last();
        let before = outline(rest, b);
        let now = outline(samples, b);
        an_outline_is_cut_not_bent(rest, b);
        assert forall|p: Pt| #[trigger] now.contains(p) <==> samples.contains(p) && sample_counts(
            p,
            b,
        ) by {
            if now.contains(p) {
                let k = choose|k: int| 0 <= k < now.len() && now[k] == p;
                if k < before.len() {
                    assert(before[k] == p);
                    assert(before.contains(p));
                    let i = choose|i: int| 0 <= i < rest.len() && rest[i] == p;
                    assert(samples[i] == p);
                } else {
                    assert(samples[samples.len() - 1] == p);
                }
            }
            if samples.contains(p) && sample_counts(p, b) {
                let i = choose|i: int| 0 <= i < samples.len() && samples[i] == p;
                if i < rest.len() {
                    assert(rest[i] == p);
                    assert(before.contains(p));
                    let k = choose|k: int| 0 <= k < before.len() && before[k] == p;
                    assert(now[k] == p);
                } else {
                    assert(now[now.len() - 1] == p);
                }
            }
        }
    }
}

/// Two foci `d` apart and a difference of distances have a curve: the foci are
/// two places and the difference is smaller than the largest one, `limit`.
pub open spec fn has_curve(diff: Double, d: Double, limit: Double) -> bool {
    diff.finite() && !d.below(Double { bits: SAME_FOCUS_M }) && !limit.up_to(diff.size())
}

/// The numbers of a curve: the difference of the distances to its foci, how far
/// these are apart, the largest difference they allow, and samples.
#[derive(Debug)]
pub struct Arc {
    pub diff_m: Double,
    pub d: Double,
    pub limit: Double,
    pub samples: Vec<Pt>,
}

/// The curve of an arc round two foci, as far as it lies on the site.
pub open spec fn curve_on(a: Pt, b: Pt, arc: Arc, bounds: SiteBounds) -> Option<CurveView> {
    if has_curve(arc.diff_m, arc.d, arc.limit) && outline(arc.samples@, bounds).len() >= 2 {
        Some(
            CurveView {
                kind: "hyperbola"@,
                focus_a: a,
                focus_b: b,
                difference_m: arc.diff_m,
                points: outline(arc.samples@, bounds),
            },
        )
    } else {
        None
    }
}

/// The curve of the places that are so much farther from `a` than from `b`, by
/// its samples on the site. There is none where the difference exceeds what the
/// two places allow, nor where fewer than two samples lie on the site.
pub fn hyperbola(a: Pt, b: Pt, arc: &Arc, bounds: SiteBounds) -> (r: Option<Curve>)
    ensures
        match r {
            Some(c) => curve_on(a, b, *arc, bounds) == Some(c@),
            None => curve_on(a, b, *arc, bounds) is None,
        },
{
    if !arc.diff_m.is_finite() || arc.d.is_below(Double { bits: SAME_FOCUS_M })
        || arc.limit.is_up_to(arc.diff_m.absolute()) {
        return None;
    }
    let samples = &arc.samples;
    let mut points: Vec<Pt> = Vec::new();
    let mut i: usize = 0;
    assert(samples@.take(0) =~= Seq::empty());
    while i < samples.len()
        invariant
            i <= samples@.len(),
            points@ =~= outline(samples@.take(i as int), bounds),
        decreases samples@.len() - i,
    {
        let p = samples[i];
        assert(samples@.take(i + 1).drop_last() =~= samples@.take(i as int));
        assert(samples@.take(i + 1).last() == p);
        if p.x.is_finite() && p.y.is_finite() && is_in(p, bounds) {
            points.push(p);
        }
        i += 1;
    }
    assert(samples@.take(i as int) =~= samples@);
    if points.len() < 2 {
        return None;
    }
    Some(
        Curve {
            kind: "hyperbola".to_owned(),
            focus_a: a,
            focus_b: b,
            difference_m: arc.diff_m,
            points,
        },
    )
}

/// An ellipse round a position, its corners drawn onto the site. The centre
/// stays where it is.
pub fn ellipse_region(
    center: Pt,
    semi_axes: Pt,
    angle_rad: Double,
    corners: &Vec<Pt>,
    bounds: SiteBounds,
) -> (r: Region)
    requires
        proper(bounds),
    ensures
        r@ == (RegionView {
            kind: "ellipse"@,
            center,
            semi_axes,
            angle_rad,
            polygon: corners@.map_values(|p: Pt| drawn_in(p, bounds)),
        }),
{
    let mut polygon: Vec<Pt> = Vec::new();
    let mut i: usize = 0;
    while i < corners.len()
        invariant
            i <= corners@.len(),
            proper(bounds),
            polygon@ =~= corners@.take(i as int).map_values(|p: Pt| drawn_in(p, bounds)),
        decreases corners@.len() - i,
    {
        polygon.push(clamp_pt(corners[i], bounds));
        i += 1;
    }
    assert(corners@.take(i as int) =~= corners@);
    Region { kind: "ellipse".to_owned(), center, semi_axes, angle_rad, polygon }
}

/// The whole site: its four corners.
pub open spec fn site_region(bounds: SiteBounds, center: Pt, semi_axes: Pt) -> RegionView {
    RegionView {
        kind: "site"@,
        center,
        semi_axes,
        angle_rad: Double { bits: 0 },
        polygon: seq![
            Pt { x: bounds.min_x, y: bounds.min_y },
            Pt { x: bounds.max_x, y: bounds.min_y },
            Pt { x: bounds.max_x, y: bounds.max_y },
            Pt { x: bounds.min_x, y: bounds.max_y },
        ],
    }
}

/// The whole site, for an event of which no measurement is left.
pub fn whole_site_region(bounds: SiteBounds, center: Pt, semi_axes: Pt) -> (r: Region)
    ensures
        r@ == site_region(bounds, center, semi_axes),
{
    let mut polygon: Vec<Pt> = Vec::new();
    polygon.push(Pt { x: bounds.min_x, y: bounds.min_y });
    polygon.push(Pt { x: bounds.max_x, y: bounds.min_y });
    polygon.push(Pt { x: bounds.max_x, y: bounds.max_y });
    polygon.push(Pt { x: bounds.min_x, y: bounds.max_y });
    let r = Region {
        kind: "site".to_owned(),
        center,
        semi_axes,
        angle_rad: Double { bits: 0 },
        polygon,
    };
    assert(r.polygon@ =~= seq![
        Pt { x: bounds.min_x, y: bounds.min_y },
        Pt { x: bounds.max_x, y: bounds.min_y },
        Pt { x: bounds.max_x, y: bounds.max_y },
        Pt { x: bounds.min_x, y: bounds.max_y },
    ]);
    r
}

/// What the normal matrix of the measurements at a place says: its two entries
/// off and along the diagonal that matter, and what they come to.
#[derive(Clone, Copy, Debug)]
pub struct Normal {
    /// The entry off the diagonal.
    pub cross: Double,
    /// The difference of the two entries on the diagonal.
    pub gap: Double,
    /// The smaller eigenvalue.
    pub least: Double,
    /// The larger eigenvalue over the smaller one.
    pub ratio: Double,
    /// Half the angle that `cross` and `gap` make.
    pub direction: Double,
}

/// How well a place can be observed.
#[derive(Clone, Copy, Debug)]
pub struct Observability {
    pub lambda_min: Double,
    pub condition: Double,
    pub angle: Double,
}

/// How well a place can be observed: where the smaller eigenvalue vanishes the
/// condition is without bound, and where the matrix is a multiple of the unit
/// matrix no direction stands out.
pub open spec fn observed(n: Normal) -> Observability {
    Observability {
        lambda_min: n.least,
        condition: if (Double { bits: NO_EIGENVALUE }).below(n.least) {
            n.ratio
        } else {
            Double { bits: INFINITE_MAGNITUDE }
        },
        angle: if n.cross.size().below(Double { bits: NO_EIGENVALUE }) && n.gap.size().below(
            Double { bits: NO_EIGENVALUE },
        ) {
            Double { bits: 0 }
        } else {
            n.direction
        },
    }
}

/// Works out how well a place can be observed.
pub fn observability(n: &Normal) -> (r: Observability)
    ensures
        r == observed(*n),
{
    let tiny = Double { bits: NO_EIGENVALUE };
    Observability {
        lambda_min: n.least,
        condition: if tiny.is_below(n.least) {
            n.ratio
        } else {
            Double { bits: INFINITE_MAGNITUDE }
        },
        angle: if n.cross.absolute().is_below(tiny) && n.gap.absolute().is_below(tiny) {
            Double { bits: 0 }
        } else {
            n.direction
        },
    }
}

/// How far a position may be off: along the direction that is observed well, and
/// across it, with and without a condition to go by.
#[derive(Clone, Copy, Debug)]
pub struct Spread {
    pub base: Double,
    /// A hundred times that.
    pub wide: Double,
    /// As many times that as the root of the condition says, a hundred at most.
    pub scaled: Double,
}

/// At least half a metre.
pub open spec fn half_a_metre_or(x: Double) -> Double {
    if (Double { bits: HALF_A_METRE }).up_to(x) {
        x
    } else {
        Double { bits: HALF_A_METRE }
    }
}

/// The semi-axes of the region that a position is uncertain in.
pub open spec fn uncertain_axes(o: Observability, s: Spread) -> Pt {
    Pt {
        x: half_a_metre_or(s.base),
        y: half_a_metre_or(
            if o.lambda_min.up_to(Double { bits: WEAK_EIGENVALUE }) || !o.condition.finite() {
                s.wide
            } else {
                s.scaled
            },
        ),
    }
}

fn at_least_half_a_metre(x: Double) -> (r: Double)
    ensures
        r == half_a_metre_or(x),
{
    if (Double { bits: HALF_A_METRE }).is_up_to(x) {
        x
    } else {
        Double { bits: HALF_A_METRE }
    }
}

/// How far a position may be off.
pub fn uncertainty_axes(o: &Observability, s: &Spread) -> (r: Pt)
    ensures
        r == uncertain_axes(*o, *s),
{
    let weak = if o.lambda_min.is_up_to(Double { bits: WEAK_EIGENVALUE })
        || !o.condition.is_finite() {
        s.wide
    } else {
        s.scaled
    };
    Pt { x: at_least_half_a_metre(s.base), y: at_least_half_a_metre(weak) }
}

/// The region that a position is uncertain in.
pub open spec fn uncertain_region(
    center: Pt,
    o: Observability,
    s: Spread,
    corners: Seq<Pt>,
    bounds: SiteBounds,
) -> RegionView {
    RegionView {
        kind: "ellipse"@,
        center,
        semi_axes: uncertain_axes(o, s),
        angle_rad: o.angle,
        polygon: corners.map_values(|p: Pt| drawn_in(p, bounds)),
    }
}

/// The region that a position is uncertain in: an ellipse round it, along the
/// direction that is observed well, its corners drawn onto the site.
pub fn uncertainty_region(
    center: Pt,
    o: &Observability,
    s: &Spread,
    corners: &Vec<Pt>,
    bounds: SiteBounds,
) -> (r: Region)
    requires
        proper(bounds),
    ensures
        r@ == uncertain_region(center, *o, *s, corners@, bounds),
{
    ellipse_region(center, uncertainty_axes(o, s), o.angle, corners, bounds)
}

/// The places from which a search starts: a grid, column by column.
pub fn grid_seeds(xs: &Vec<Double>, ys: &Vec<Double>) -> (r: Vec<Pt>)
    ensures
        r@ == grid(xs@, ys@),
        r@.len() == xs@.len() * ys@.len(),
{
    let mut out: Vec<Pt> = Vec::new();
    let mut i: usize = 0;
    assert(xs@.take(0) =~= Seq::empty());
    while i < xs.len()
        invariant
            i <= xs@.len(),
            out@ =~= grid(xs@.take(i as int), ys@),
        decreases xs@.len() - i,
    {
        let ghost before = out@;
        let mut j: usize = 0;
        while j < ys.len()
            invariant
                i < xs@.len(),
                j <= ys@.len(),
                out@ =~= before + column(xs@[i as int], ys@.take(j as int)),
            decreases ys@.len() - j,
        {
            out.push(Pt { x: xs[i], y: ys[j] });
            j += 1;
        }
        assert(ys@.take(j as int) =~= ys@);
        assert(xs@.take(i + 1).drop_last() =~= xs@.take(i as int));
        i += 1;
    }
    assert(xs@.take(i as int) =~= xs@);
    proof {
        grid_is_full(xs@, ys@);
    }
    out
}

/// The places of a column.
pub open spec fn column(x: Double, ys: Seq<Double>) -> Seq<Pt> {
    ys.map_values(|y: Double| Pt { x, y })
}

/// The columns of a grid, one after another.
pub open spec fn grid(xs: Seq<Double>, ys: Seq<Double>) -> Seq<Pt>
    decreases xs.len(),
{
    if xs.len() == 0 {
        Seq::empty()
    } else {
        grid(xs.drop_last(), ys) + column(xs.last(), ys)
    }
}

/// A grid has as many places as its sides say.
proof fn grid_is_full(xs: Seq<Double>, ys: Seq<Double>)
    ensures
        grid(xs, ys).len() == xs.len() * ys.len(),
    decreases xs.len(),
{
    if xs.len() > 0 {
        grid_is_full(xs.drop_last(), ys);
        assert(xs.len() * ys.len() == (xs.len() - 1) * ys.len() + ys.len()) by (nonlinear_arith)
            requires
                xs.len() > 0,
        ;
    } else {
        assert(xs.len() * ys.len() == 0) by (nonlinear_arith)
            requires
                xs.len() == 0,
        ;
    }
}

/// What one step of the search found.
#[derive(Clone, Copy, Debug)]
pub struct Step {
    /// The sum of squares at the present position.
    pub chi2: Double,
    /// A sum of squares beyond which the search has run away.
    pub runaway: Double,
    /// Whether the linear system of the step has a solution.
    pub solvable: bool,
    /// Where the step leads.
    pub next: Pt,
    /// The sum of squares there.
    pub next_chi2: Double,
    /// The length of the step.
    pub length: Double,
    /// The damping that a failed step leads to.
    pub more_damping: Double,
}

/// What becomes of a step.
#[derive(Clone, Copy, Debug, PartialEq, Eq, Structural)]
pub enum Advice {
    /// Take the step, and dampen less.
    Accept,
    /// Take the step: the search has ended.
    Finish,
    /// Stay, and dampen more.
    Retry,
    /// Stay: the search has failed.
    Diverge,
}

/// What becomes of a step.
pub open spec fn advice(s: Step) -> Advice {
    if s.runaway.below(s.chi2) {
        Advice::Diverge
    } else if s.solvable && s.next_chi2.below(s.chi2) {
        if s.length.below(Double { bits: SHORT_STEP_M }) {
            Advice::Finish
        } else {
            Advice::Accept
        }
    } else if (Double { bits: MAX_DAMPING }).below(s.more_damping) {
        Advice::Diverge
    } else {
        Advice::Retry
    }
}

/// A search for the position that fits best, without bounds on the position.
#[derive(Debug)]
pub struct Search {
    pub at: Pt,
    pub steps_left: usize,
    pub diverged: bool,
    pub over: bool,
}

/// A search at its start, with so many steps.
pub open spec fn search_from(seed: Pt, max_iter: usize) -> Search {
    Search { at: seed, steps_left: max_iter, diverged: false, over: max_iter == 0 }
}

/// A search after one more step: the position moves exactly when the step is
/// taken, to where the step leads, and each step uses up one of those allowed.
pub open spec fn advanced(search: Search, s: Step) -> Search {
    let r = advice(s);
    let left = (search.steps_left - 1) as usize;
    Search {
        at: if r == Advice::Accept || r == Advice::Finish {
            s.next
        } else {
            search.at
        },
        steps_left: left,
        diverged: r == Advice::Diverge || search.diverged,
        over: r == Advice::Diverge || r == Advice::Finish || left == 0,
    }
}

/// A search after the first `n` of its steps.
pub open spec fn search_after(start: Search, steps: Seq<Step>, n: int) -> Search
    decreases n,
{
    if n <= 0 {
        start
    } else {
        advanced(search_after(start, steps, n - 1), steps[n - 1])
    }
}

/// The steps are those of a search by a cost that depends on the position alone:
/// each says what the position before it costs, and what the one costs that it
/// leads to.
pub open spec fn are_steps(start: Search, steps: Seq<Step>, cost: spec_fn(Pt) -> Double) -> bool {
    forall|i: int|
        0 <= i < steps.len() ==> (#[trigger] steps[i]).chi2 == cost(
            search_after(start, steps, i).at,
        ) && steps[i].next_chi2 == cost(steps[i].next)
}

/// A search never makes it worse: between any two points of its way it stays, or
/// comes to a place that costs less.
pub proof fn a_search_only_goes_down(
    start: Search,
    steps: Seq<Step>,
    cost: spec_fn(Pt) -> Double,
    m: int,
    n: int,
)
    requires
        are_steps(start, steps, cost),
        0 <= m <= n <= steps.len(),
    ensures
        ({
            let (a, b) = (search_after(start, steps, m).at, search_after(start, steps, n).at);
            b == a || cost(b).below(cost(a))
        }),
    decreases n - m,
{
    if m < n {
        a_search_only_goes_down(start, steps, cost, m, n - 1);
        assert(steps[n - 1].chi2 == cost(search_after(start, steps, n - 1).at));
    }
}

/// A whole search ends at its seed, or where it costs less than at the seed.
pub proof fn a_search_ends_no_worse(
    seed: Pt,
    max_iter: usize,
    steps: Seq<Step>,
    cost: spec_fn(Pt) -> Double,
)
    requires
        are_steps(search_from(seed, max_iter), steps, cost),
    ensures
        ({
            let end = search_after(search_from(seed, max_iter), steps, steps.len() as int);
            end.at == seed || cost(end.at).below(cost(seed))
        }),
{
    let start = search_from(seed, max_iter);
    a_search_only_goes_down(start, steps, cost, 0, steps.len() as int);
}

/// A search that takes a step only while it is not over takes no more of them
/// than it is allowed.
pub proof fn a_search_is_over_in_time(seed: Pt, max_iter: usize, steps: Seq<Step>, n: int)
    requires
        0 <= n <= steps.len(),
        forall|i: int|
            0 <= i < steps.len() ==> !(#[trigger] search_after(
                search_from(seed, max_iter),
                steps,
                i,
            )).over,
    ensures
        ({
            let s = search_after(search_from(seed, max_iter), steps, n);
            &&& n <= max_iter
            &&& s.steps_left == max_iter - n
            &&& n == max_iter ==> s.over
        }),
    decreases n,
{
    if n > 0 {
        a_search_is_over_in_time(seed, max_iter, steps, n - 1);
        assert(!search_after(search_from(seed, max_iter), steps, n - 1).over);
    }
}

impl Search {
    /// Starts a search at a place, with so many steps.
    pub fn from(seed: Pt, max_iter: usize) -> (r: Search)
        ensures
            r == search_from(seed, max_iter),
    {
        Search { at: seed, steps_left: max_iter, diverged: false, over: max_iter == 0 }
    }

    /// Decides on a step, and takes it or not.
    pub fn advance(&mut self, s: &Step) -> (r: Advice)
        requires
            old(self).steps_left > 0,
            !old(self).over,
        ensures
            r == advice(*s),
            *final(self) == advanced(*old(self), *s),
    {
        let r = if s.runaway.is_below(s.chi2) {
            Advice::Diverge
        } else if s.solvable && s.next_chi2.is_below(s.chi2) {
            if s.length.is_below(Double { bits: SHORT_STEP_M }) {
                Advice::Finish
            } else {
                Advice::Accept
            }
        } else if (Double { bits: MAX_DAMPING }).is_below(s.more_damping) {
            Advice::Diverge
        } else {
            Advice::Retry
        };
        self.steps_left = self.steps_left - 1;
        match r {
            Advice::Accept => {
                self.at = s.next;
            },
            Advice::Finish => {
                self.at = s.next;
                self.over = true;
            },
            Advice::Retry => {},
            Advice::Diverge => {
                self.diverged = true;
                self.over = true;
            },
        }
        if self.steps_left == 0 {
            self.over = true;
        }
        r
    }
}

} // verus!
