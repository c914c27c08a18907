//! What holds of the regions that are left where no position is found, of how sure
//! a position is, and of the pairs that are kept.
use vstd::prelude::*;

use crate::arrange::{numbers_lt, place_lt};
use crate::double::Double;
use crate::json::{first_under, JsonView};
use crate::workbench::edges::EdgeView;
use crate::workbench::fitting::{
    circle_json, core_region, curve_json, hyperbola_places, line_places, line_width, observable,
    region_cause, worse, LineSystem, Sample, ShortSystem, System,
};
use crate::workbench::snapshot::{CandidateOutView, KeptPairView};
use crate::workbench::solver::{
    by_ranks, direct_edges_agree, first_with_key, marked, reason_of, status_of,
    with_member, with_pair, FoundView,
};

verus! {

// ---------- Regions ----------

/// A sample can be observed: it is a finite place no farther out than the radius.
pub open spec fn can_be_observed(s: Sample, radius: Double) -> bool {
    s.at.x.finite() && s.at.y.finite() && s.reach.up_to(radius)
}

/// Every place that is observable is that of a sample that can be observed.
pub proof fn observable_places_are_within_reach(s: Seq<Sample>, radius: Double, k: int)
    requires
        0 <= k < observable(s, radius).len(),
    ensures
        exists|i: int|
            0 <= i < s.len() && (#[trigger] s[i]).at == observable(s, radius)[k]
                && can_be_observed(s[i], radius),
    decreases s.len(),
{
    if s.len() > 0 {
        let t = s.drop_last();
        let before = observable(t, radius);
        if k < before.len() {
            observable_places_are_within_reach(t, radius, k);
            let i = choose|i: int|
                0 <= i < t.len() && (#[trigger] t[i]).at == before[k] && can_be_observed(
                    t[i],
                    radius,
                );
            assert(s[i] == t[i]);
        } else {
            assert(s[s.len() - 1] == s.last());
        }
    }
}

/// Every sample that can be observed gives an observable place.
pub proof fn no_observable_sample_is_lost(s: Seq<Sample>, radius: Double, i: int)
    requires
        0 <= i < s.len(),
        can_be_observed(s[i], radius),
    ensures
        observable(s, radius).contains(s[i].at),
    decreases s.len(),
{
    let t = s.drop_last();
    let before = observable(t, radius);
    let now = observable(s, radius);
    if i < t.len() {
        no_observable_sample_is_lost(t, radius, i);
        let k = choose|k: int| 0 <= k < before.len() && before[k] == t[i].at;
        assert(now[k] == s[i].at);
    } else {
        assert(now[now.len() - 1] == s[i].at);
    }
}

/// A line shows what can be observed of it, and its base where nothing can; a
/// hyperbola shows its first branch, a gap, its second branch and a gap.
pub proof fn a_curve_shows_what_can_be_observed(l: LineSystem, s: ShortSystem, radius: Double)
    ensures
        observable(l.samples@, radius).len() > 0 ==> line_places(l, radius) == observable(
            l.samples@,
            radius,
        ),
        observable(l.samples@, radius).len() == 0 ==> line_places(l, radius) == seq![l.base],
        ({
            let a = observable(s.first@, radius);
            let b = observable(s.second@, radius);
            let h = hyperbola_places(s, radius);
            &&& h.len() == a.len() + b.len() + 2
            &&& h.take(a.len() as int) == a
            &&& h[a.len() as int].x.nan() && h[a.len() as int].y.nan()
            &&& h.subrange(a.len() as int + 1, a.len() as int + 1 + b.len()) == b
            &&& h.last().x.nan() && h.last().y.nan()
        }),
        l.weight.up_to(Double { bits: 0 }) ==> line_width(l) == l.fallback,
        (Double { bits: 0 }).below(l.weight) ==> line_width(l) == l.spread,
{
    let a = observable(s.first@, radius);
    let b = observable(s.second@, radius);
    let h = hyperbola_places(s, radius);
    assert(h.take(a.len() as int) =~= a);
    assert(h.subrange(a.len() as int + 1, a.len() as int + 1 + b.len()) =~= b);
}

/// A region is left to the clocks exactly when one of them is unknown and there are
/// fewer good edges than the system lacks; else the stations stand badly.
pub proof fn the_cause_of_a_region_is_what_is_lacking(unknown: bool, n: int, rank: int)
    ensures
        unknown && n + rank < 3 ==> region_cause(unknown, n, rank) == "clock_freedom"@,
        !unknown ==> region_cause(unknown, n, rank) == "sensor_geometry"@,
        n + rank >= 3 ==> region_cause(unknown, n, rank) == "sensor_geometry"@,
{
}

/// Where a short system has a timely edge, a circle is left if the delay is longer
/// than the baseline allows, and else a hyperbola no narrower than a metre.
pub proof fn a_single_edge_leaves_a_hyperbola(
    radius: Double,
    edges: Seq<EdgeView>,
    s: ShortSystem,
    k: int,
)
    requires
        0 <= k < edges.len(),
        edges[k].sigma.below(Double { bits: 0x3fb9_9999_9999_999a }),
    ensures
        ({
            let r = core_region(radius, edges, System::Short(s));
            let one = Double { bits: 0x3ff0_0000_0000_0000 };
            &&& r is Some
            &&& s.focal.up_to(s.half_gap) ==> (r->0).0 == circle_json(
                radius,
                "measured delay exceeds the baseline; no hyperbolic locus exists"@,
            )
            &&& !s.focal.up_to(s.half_gap) ==> (r->0).0 == curve_json(
                "hyperbola"@,
                hyperbola_places(s, radius),
                "single pair-wise delay edge"@,
                if one.up_to(s.width) {
                    s.width
                } else {
                    one
                },
            )
        }),
{
    let timely = crate::workbench::fitting::timely();
    edges.lemma_filter_contains(timely, k);
}

// ---------- The reference ----------

/// A station is a worse reference than another where fewer edges end there, or where
/// as many do and they weigh less; of two stations one at most is worse.
pub proof fn fewer_edges_are_worse(edges: Seq<EdgeView>, weights: Seq<Double>, i: int, j: int)
    requires
        !weights[i].nan(),
        !weights[j].nan(),
    ensures
        crate::workbench::fitting::degree(edges, i) < crate::workbench::fitting::degree(edges, j)
            ==> worse(edges, weights, i, j) && !worse(edges, weights, j, i),
        crate::workbench::fitting::degree(edges, i) == crate::workbench::fitting::degree(edges, j)
            ==> (worse(edges, weights, i, j) <==> weights[i].below(weights[j])),
{
}

// ---------- How sure a position is ----------

/// A position is determined exactly when its system was full and it does not rest on
/// leaving out an edge that may be reflected: that is, where none was left out, or
/// the direct edges agree, or it does not fit within four fifths of a standard
/// deviation.
pub proof fn a_position_is_determined_where_nothing_is_left_open(f: FoundView, agree: bool)
    ensures
        status_of(f, agree) == "determined"@ <==> f.rank >= 3 && (f.dropped.len() == 0 || agree
            || !f.fit.rms_nsigma.up_to(Double { bits: 0x3fe9_9999_9999_999a })),
        status_of(f, agree) == "determined"@ || status_of(f, agree) == "underdetermined"@,
        f.rank < 3 ==> reason_of(f, agree)
            == "sensor_geometry: two mirror locations fit the two delay differences"@,
        f.rank >= 3 && status_of(f, agree) == "underdetermined"@ ==> reason_of(f, agree)
            == "multipath: consistent only after rejecting a suspected reflected path"@,
        status_of(f, agree) == "determined"@ && f.dropped.len() == 0 ==> reason_of(f, agree)
            == "direct evidence consistent"@,
        status_of(f, agree) == "determined"@ && f.dropped.len() > 0 ==> reason_of(f, agree)
            == "consistent; also fits when a suspected multipath edge is rejected"@,
{
    reveal_strlit("determined");
    reveal_strlit("underdetermined");
    assert("determined"@.len() == 10 && "underdetermined"@.len() == 15);
}

/// The direct edges agree as soon as one position that leaves out none of them fits
/// within four fifths of a standard deviation; where every such position is farther
/// off they do not.
pub proof fn one_fit_makes_the_direct_edges_agree(found: Seq<FoundView>, k: int)
    ensures
        0 <= k < found.len() && found[k].dropped.len() == 0 && found[k].fit.rms_nsigma.up_to(
            Double { bits: 0x3fe9_9999_9999_999a },
        ) ==> direct_edges_agree(found),
        (forall|i: int|
            0 <= i < found.len() && (#[trigger] found[i]).dropped.len() == 0 ==> (Double {
                bits: 0x3fe9_9999_9999_999a,
            }).below(found[i].fit.rms_nsigma)) ==> !direct_edges_agree(found),
{
}

/// Positions stand in the order of how well they fit; of two that fit as well, in
/// that of their largest residuals; then from left to right, then upwards.
pub proof fn better_positions_come_first(f: FoundView, g: FoundView)
    requires
        place_lt(by_ranks()(f), by_ranks()(g)),
    ensures
        f.fit.rank_rms <= g.fit.rank_rms,
        f.fit.rank_rms == g.fit.rank_rms ==> f.fit.rank_max <= g.fit.rank_max,
        f.fit.rank_rms == g.fit.rank_rms && f.fit.rank_max == g.fit.rank_max ==> f.fit.rank_x
            <= g.fit.rank_x,
        f.fit.rank_rms == g.fit.rank_rms && f.fit.rank_max == g.fit.rank_max && f.fit.rank_x
            == g.fit.rank_x ==> f.fit.rank_y <= g.fit.rank_y,
{
    let a = by_ranks()(f).0;
    let b = by_ranks()(g).0;
    assert(a[0] == f.fit.rank_rms && b[0] == g.fit.rank_rms);
    if a != b {
        let a1 = a.drop_first();
        let b1 = b.drop_first();
        let a2 = a1.drop_first();
        let b2 = b1.drop_first();
        let a3 = a2.drop_first();
        let b3 = b2.drop_first();
        assert(a1[0] == f.fit.rank_max && b1[0] == g.fit.rank_max);
        assert(a2[0] == f.fit.rank_x && b2[0] == g.fit.rank_x);
        assert(a3[0] == f.fit.rank_y && b3[0] == g.fit.rank_y);
        assert(numbers_lt(a, b));
        reveal_with_fuel(numbers_lt, 5);
    } else {
        assert(a[1] == b[1] && a[2] == b[2] && a[3] == b[3]);
    }
}

// ---------- Kept pairs ----------

/// A member that is put in is found under its key, and every other is found as
/// before.
pub proof fn a_member_that_is_put_in_is_found(
    members: Seq<(Seq<char>, JsonView)>,
    key: Seq<char>,
    value: JsonView,
    other: Seq<char>,
)
    ensures
        JsonView::Object(with_member(members, key, value)).member(key) == Some(value),
        other != key ==> JsonView::Object(with_member(members, key, value)).member(other)
            == JsonView::Object(members).member(other),
    decreases members.len(),
{
    let now = with_member(members, key, value);
    if members.len() == 0 {
        assert(now.drop_first() =~= members);
        assert(first_under(now, other) == if key == other {
            Some(value)
        } else {
            first_under(members, other)
        });
    } else if members[0].0 == key {
        assert(now.drop_first() =~= members.drop_first());
    } else {
        a_member_that_is_put_in_is_found(members.drop_first(), key, value, other);
        assert(now.drop_first() =~= with_member(members.drop_first(), key, value));
    }
}

/// A candidate that is marked says in its metrics and in its reason with which other
/// it is kept; its place, its kind, its status, its region, its residuals and its
/// key stay.
pub proof fn a_marked_candidate_says_with_which_it_is_kept(c: CandidateOutView, p: KeptPairView)
    requires
        c.metrics is Object,
    ensures
        ({
            let m = marked(c, p);
            let kept = m.metrics.member("kept_pair"@);
            &&& kept is Some && kept->0 is Array && kept->0->Array_0.len() == 2
            &&& kept->0->Array_0[0] == JsonView::Text(p.a)
            &&& kept->0->Array_0[1] == JsonView::Text(p.b)
            &&& m.reason == "kept inseparable pair ("@ + p.a + ", "@ + p.b + ")"@
            &&& m.x == c.x
            &&& m.y == c.y
            &&& m.kind == c.kind
            &&& m.status == c.status
            &&& m.region == c.region
            &&& m.residuals == c.residuals
            &&& m.cand_key == c.cand_key
        }),
{
    a_member_that_is_put_in_is_found(
        c.metrics->Object_0,
        "kept_pair"@,
        JsonView::Array(seq![JsonView::Text(p.a), JsonView::Text(p.b)]),
        "kept_pair"@,
    );
}

proof fn the_first_with_a_key_has_it(list: Seq<CandidateOutView>, key: Seq<char>)
    ensures
        first_with_key(list, key) matches Some(i) ==> 0 <= i < list.len() && list[i].cand_key
            == key && forall|j: int| 0 <= j < i ==> (#[trigger] list[j]).cand_key != key,
        first_with_key(list, key) is None ==> forall|j: int|
            0 <= j < list.len() ==> (#[trigger] list[j]).cand_key != key,
    decreases list.len(),
{
    if list.len() > 0 {
        let t = list.drop_last();
        the_first_with_a_key_has_it(t, key);
        assert forall|j: int| 0 <= j < t.len() implies #[trigger] list[j] == t[j] by {}
    }
}

/// Keeping a pair marks both of its candidates where there are both, and changes no
/// other; where one is missing it changes nothing.
pub proof fn keeping_a_pair_marks_both(list: Seq<CandidateOutView>, p: KeptPairView, k: int)
    requires
        0 <= k < list.len(),
        p.a != p.b,
        forall|i: int, j: int|
            0 <= i < j < list.len() ==> (#[trigger] list[i]).cand_key != (
            #[trigger] list[j]).cand_key,
    ensures
        ({
            let now = with_pair(list, p);
            let both = (exists|i: int| 0 <= i < list.len() && (#[trigger] list[i]).cand_key == p.a)
                && (exists|i: int| 0 <= i < list.len() && (#[trigger] list[i]).cand_key == p.b);
            &&& now.len() == list.len()
            &&& both && (list[k].cand_key == p.a || list[k].cand_key == p.b) ==> now[k] == marked(
                list[k],
                p,
            )
            &&& !both || (list[k].cand_key != p.a && list[k].cand_key != p.b) ==> now[k] == list[k]
        }),
{
    the_first_with_a_key_has_it(list, p.a);
    the_first_with_a_key_has_it(list, p.b);
}

} // verus!
