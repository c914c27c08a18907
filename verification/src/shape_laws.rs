//! What holds of numbers, of places on a site and of a search.
use vstd::prelude::*;

use crate::double::Double;
use crate::figures::Pt;
use crate::geom::{
    advanced, advice, curve_on, drawn_in, grid, lies_in, observed, outline, proper, sample_counts,
    search_from, site_region, uncertain_axes, uncertain_region, Advice, Arc, Normal, Observability,
    Search, Spread, Step,
};
use crate::model::SiteBounds;

verus! {

// ---------- Numbers ----------

/// Numbers without a sign are ordered as their bits are, up to the infinite one.
pub proof fn positive_numbers_are_ordered_by_their_bits(a: Double, b: Double)
    requires
        a.bits <= 0x7ff0_0000_0000_0000,
        b.bits <= 0x7ff0_0000_0000_0000,
    ensures
        a.below(b) <==> a.bits < b.bits,
        a.up_to(b) <==> a.bits <= b.bits,
        a.same_number(b) <==> a.bits == b.bits,
{
}

/// The opposite of a number has the other sign, and the order of opposites is the
/// reverse one.
pub proof fn opposites_are_ordered_in_reverse(a: Double, b: Double)
    ensures
        a.opposite().opposite() == a,
        a.opposite().bits != a.bits,
        a.below(b) <==> b.opposite().below(a.opposite()),
        a.up_to(b) <==> b.opposite().up_to(a.opposite()),
        a.size() == a || a.size() == a.opposite(),
        a.size().bits < 0x8000_0000_0000_0000,
{
}

/// A number with a sign is no larger than zero, one without is no smaller, and the
/// two zeros are one number.
pub proof fn the_sign_tells_on_which_side_of_zero(a: Double)
    requires
        !a.nan(),
    ensures
        a.bits >= 0x8000_0000_0000_0000 ==> a.up_to(Double { bits: 0 }),
        a.bits < 0x8000_0000_0000_0000 ==> (Double { bits: 0 }).up_to(a),
        (Double { bits: 0 }).same_number(Double { bits: 0x8000_0000_0000_0000 }),
{
}

/// What is not a number is in no order with any, and the numbers are in a line.
pub proof fn numbers_are_in_a_line(a: Double, b: Double)
    ensures
        a.nan() || b.nan() ==> !a.below(b) && !a.up_to(b) && !a.same_number(b),
        !a.nan() && !b.nan() ==> (a.below(b) || b.below(a) || a.same_number(b)),
        a.below(b) ==> a.up_to(b) && !b.up_to(a),
        a.up_to(b) && b.up_to(a) <==> a.same_number(b),
        a.finite() <==> !a.nan() && a.size().below(Double { bits: 0x7ff0_0000_0000_0000 }),
{
}

// ---------- Places on a site ----------

/// A place is drawn in to the site coordinate by coordinate: one below the lower
/// bound to that bound, one above the upper bound to that one, and no other is
/// moved.
pub proof fn places_are_drawn_in_to_the_nearest(p: Pt, b: SiteBounds)
    requires
        proper(b),
    ensures
        p.x.below(b.min_x) ==> drawn_in(p, b).x == b.min_x,
        b.max_x.below(p.x) ==> drawn_in(p, b).x == b.max_x,
        b.min_x.up_to(p.x) && p.x.up_to(b.max_x) ==> drawn_in(p, b).x == p.x,
        p.y.below(b.min_y) ==> drawn_in(p, b).y == b.min_y,
        b.max_y.below(p.y) ==> drawn_in(p, b).y == b.max_y,
        b.min_y.up_to(p.y) && p.y.up_to(b.max_y) ==> drawn_in(p, b).y == p.y,
        drawn_in(drawn_in(p, b), b) == drawn_in(p, b),
{
}

/// A place lies on the site exactly when neither coordinate is beyond a bound.
pub proof fn a_place_lies_within_all_four_bounds(p: Pt, b: SiteBounds)
    requires
        proper(b),
        !p.x.nan(),
        !p.y.nan(),
    ensures
        lies_in(p, b) <==> !p.x.below(b.min_x) && !b.max_x.below(p.x) && !p.y.below(b.min_y)
            && !b.max_y.below(p.y),
{
}

/// The region of a site has the four corners of its bounds, each next to the last
/// along one side.
pub proof fn the_corners_of_a_site_are_its_bounds(b: SiteBounds, center: Pt, axes: Pt)
    ensures
        ({
            let r = site_region(b, center, axes);
            let c = r.polygon;
            &&& r.kind == "site"@
            &&& r.center == center
            &&& r.semi_axes == axes
            &&& r.angle_rad.bits == 0
            &&& c.len() == 4
            &&& c[0].x == b.min_x && c[0].y == b.min_y
            &&& c[1].x == b.max_x && c[1].y == b.min_y
            &&& c[2].x == b.max_x && c[2].y == b.max_y
            &&& c[3].x == b.min_x && c[3].y == b.max_y
        }),
{
}

/// Every pair of a first and a second coordinate is a seed, the pairs of one first
/// coordinate in a row.
pub proof fn every_pair_is_a_seed(xs: Seq<Double>, ys: Seq<Double>, i: int, j: int)
    requires
        0 <= i < xs.len(),
        0 <= j < ys.len(),
    ensures
        grid(xs, ys).len() == xs.len() * ys.len(),
        0 <= i * ys.len() + j < grid(xs, ys).len(),
        grid(xs, ys)[i * ys.len() + j].x == xs[i],
        grid(xs, ys)[i * ys.len() + j].y == ys[j],
    decreases xs.len(),
{
    let n = ys.len() as int;
    let rest = xs.drop_last();
    let m = rest.len() as int;
    if m == 0 {
        assert(grid(rest, ys).len() == 0);
        assert(0 * n == 0 && 1 * n == n) by (nonlinear_arith);
        assert(i == 0);
    } else {
        assert((m + 1) * n == m * n + n) by (nonlinear_arith);
        if i < m {
            assert(rest[i] == xs[i]);
            every_pair_is_a_seed(rest, ys, i, j);
        } else {
            assert(i == m);
            every_pair_is_a_seed(rest, ys, 0, j);
        }
    }
}

// ---------- Curves ----------

/// A curve is drawn only where the difference is finite and smaller in size than
/// the limit, and the foci are at least a nanometre apart; it is a hyperbola round
/// the foci it was asked for, with that difference.
pub proof fn a_curve_has_the_foci_it_was_asked_for(a: Pt, b: Pt, arc: Arc, bounds: SiteBounds)
    ensures
        curve_on(a, b, arc, bounds) matches Some(c) ==> {
            &&& c.kind == "hyperbola"@
            &&& c.focus_a == a
            &&& c.focus_b == b
            &&& c.difference_m == arc.diff_m
            &&& c.points.len() >= 2
            &&& arc.diff_m.finite()
            &&& !arc.d.below(Double { bits: 0x3e11_2e0b_e826_d695 })
            &&& !arc.limit.up_to(arc.diff_m.size())
        },
{
}

/// Every point of a curve is one of the samples, and lies on the site.
pub proof fn a_curve_stays_on_the_site(a: Pt, b: Pt, arc: Arc, bounds: SiteBounds, k: int)
    ensures
        curve_on(a, b, arc, bounds) matches Some(c) ==> (0 <= k < c.points.len() ==> {
            let p = c.points[k];
            &&& arc.samples@.contains(p)
            &&& p.x.finite() && p.y.finite()
            &&& bounds.min_x.up_to(p.x) && p.x.up_to(bounds.max_x)
            &&& bounds.min_y.up_to(p.y) && p.y.up_to(bounds.max_y)
        }),
{
    if curve_on(a, b, arc, bounds) is Some && 0 <= k < outline(arc.samples@, bounds).len() {
        crate::geom::an_outline_is_cut_not_bent(arc.samples@, bounds);
        let p = outline(arc.samples@, bounds)[k];
        assert(outline(arc.samples@, bounds).contains(p));
        assert(sample_counts(p, bounds));
    }
}

// ---------- What can be observed ----------

/// A place is observed with the smaller eigenvalue; with the ratio of the two where
/// that is more than a trillionth of a thousandth, and else with a condition
/// without bound; in no direction where the matrix is a multiple of the unit
/// matrix, and else in that of the matrix.
pub proof fn a_place_is_observed_as_its_matrix_says(n: Normal)
    ensures
        observed(n).lambda_min == n.least,
        (Double { bits: 0x3cd2_03af_9ee7_5616 }).below(n.least) ==> observed(n).condition
            == n.ratio,
        n.least.up_to(Double { bits: 0x3cd2_03af_9ee7_5616 }) ==> observed(n).condition.bits
            == 0x7ff0_0000_0000_0000,
        n.least.nan() ==> observed(n).condition.bits == 0x7ff0_0000_0000_0000,
        !n.cross.size().below(Double { bits: 0x3cd2_03af_9ee7_5616 }) ==> observed(n).angle
            == n.direction,
        !n.gap.size().below(Double { bits: 0x3cd2_03af_9ee7_5616 }) ==> observed(n).angle
            == n.direction,
        n.cross.size().below(Double { bits: 0x3cd2_03af_9ee7_5616 }) && n.gap.size().below(
            Double { bits: 0x3cd2_03af_9ee7_5616 },
        ) ==> observed(n).angle.bits == 0,
{
}

/// Neither axis of a region is shorter than half a metre, and one that is longer is
/// as it was: the first is the spread; the second is the wide one where a place can
/// hardly be observed, and the scaled one where it can.
pub proof fn no_axis_is_shorter_than_half_a_metre(o: Observability, s: Spread)
    ensures
        ({
            let half = Double { bits: 0x3fe0_0000_0000_0000 };
            let weak = o.lambda_min.up_to(Double { bits: 0x3d71_9799_812d_ea11 })
                || !o.condition.finite();
            let a = uncertain_axes(o, s);
            &&& half.up_to(a.x) && half.up_to(a.y)
            &&& half.up_to(s.base) ==> a.x == s.base
            &&& !half.up_to(s.base) ==> a.x == half
            &&& weak && half.up_to(s.wide) ==> a.y == s.wide
            &&& weak && !half.up_to(s.wide) ==> a.y == half
            &&& !weak && half.up_to(s.scaled) ==> a.y == s.scaled
            &&& !weak && !half.up_to(s.scaled) ==> a.y == half
        }),
{
}

/// The region round a place is an ellipse about it along the direction in which it
/// is observed, each corner drawn in to the site.
pub proof fn a_region_is_about_its_place(
    center: Pt,
    o: Observability,
    s: Spread,
    corners: Seq<Pt>,
    b: SiteBounds,
    k: int,
)
    requires
        proper(b),
        0 <= k < corners.len(),
        !corners[k].x.nan(),
        !corners[k].y.nan(),
    ensures
        ({
            let r = uncertain_region(center, o, s, corners, b);
            &&& r.kind == "ellipse"@
            &&& r.center == center
            &&& r.angle_rad == o.angle
            &&& r.polygon.len() == corners.len()
            &&& lies_in(r.polygon[k], b)
            &&& lies_in(corners[k], b) ==> r.polygon[k] == corners[k]
        }),
{
}

// ---------- A search ----------

/// A step is taken only where its system has a solution and the sum of squares
/// falls; the search then goes to where the step leads, and else stays.
pub proof fn a_search_moves_only_downwards(search: Search, s: Step)
    requires
        search.steps_left > 0,
    ensures
        ({
            let r = advanced(search, s);
            let falls = s.solvable && s.next_chi2.below(s.chi2);
            &&& falls && !s.runaway.below(s.chi2) ==> r.at == s.next
            &&& !falls || s.runaway.below(s.chi2) ==> r.at == search.at
            &&& r.steps_left == search.steps_left - 1
            &&& search.diverged ==> r.diverged
            &&& s.runaway.below(s.chi2) ==> r.diverged && r.over
            &&& r.steps_left == 0 ==> r.over
        }),
{
}

/// A search that has not run away ends early where a step that it takes is shorter
/// than a tenth of a nanometre, or where a step that it does not take leads to a
/// damping of more than a trillion; in the second case it has failed.
pub proof fn a_search_ends_early_for_a_reason(search: Search, s: Step)
    requires
        search.steps_left > 1,
        !s.runaway.below(s.chi2),
    ensures
        ({
            let r = advanced(search, s);
            let falls = s.solvable && s.next_chi2.below(s.chi2);
            let short = s.length.below(Double { bits: 0x3ddb_7cdf_d9d7_bdbb });
            let stuck = (Double { bits: 0x426d_1a94_a200_0000 }).below(s.more_damping);
            &&& falls ==> (r.over <==> short)
            &&& falls ==> r.diverged == search.diverged
            &&& !falls ==> (r.over <==> stuck)
            &&& !falls && stuck ==> r.diverged
            &&& !falls && !stuck ==> r.diverged == search.diverged
        }),
{
}

/// A search starts at its seed with all its steps, has not failed, and is over at
/// once only where it has none.
pub proof fn a_search_starts_at_its_seed(seed: Pt, max_iter: usize)
    ensures
        search_from(seed, max_iter).at == seed,
        search_from(seed, max_iter).steps_left == max_iter,
        !search_from(seed, max_iter).diverged,
        search_from(seed, max_iter).over <==> max_iter == 0,
{
}

/// A step that is taken is accepted or ends the search, and only such a one.
pub proof fn what_is_accepted_falls(s: Step)
    ensures
        advice(s) == Advice::Accept || advice(s) == Advice::Finish <==> s.solvable
            && s.next_chi2.below(s.chi2) && !s.runaway.below(s.chi2),
{
}

} // verus!
