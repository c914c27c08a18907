//! Which edges are dropped in turn, what becomes of a step, and what positions and
//! candidates say of the fits that they come from.
use vstd::prelude::*;

use crate::canon::Decimals;
use crate::double::Double;
use crate::figures::{Distances, Pt};
use crate::json::JsonView;
use crate::order::{picked_items_keep_their_order, picked_positions};
use crate::workbench::edges::{EdgeRowView, EdgeView};
use crate::workbench::fitting::{
    after_move, clock_ruled, core_points, degree, kept_edges, scenarios_for, suspects, timely,
    within, FullSystem, LineSystem, Move, Next, Predicted, Refinement, Root, System,
};
use crate::workbench::snapshot::SnapshotView;
use crate::workbench::solver::{
    first_near, merged, near, point_out, region_out, residual_rows, FoundView,
};

verus! {

// ---------- Edges that are dropped in turn ----------

proof fn suspect_positions(edges: Seq<EdgeView>)
    ensures
        ({
            let all = picked_positions(edges, |e: EdgeView| e.suspect);
            &&& forall|k: int|
                0 <= k < all.len() ==> 0 <= #[trigger] all[k] < edges.len() && edges[all[k]].suspect
            &&& forall|k: int, l: int| 0 <= k < l < all.len() ==> #[trigger] all[k]
                < #[trigger] all[l]
        }),
{
    let pick = |e: EdgeView| e.suspect;
    picked_items_keep_their_order(edges, pick);
    let all = picked_positions(edges, pick);
    assert forall|k: int| 0 <= k < all.len() implies 0 <= #[trigger] all[k] < edges.len()
        && edges[all[k]].suspect by {
        assert(pick(edges.filter(pick)[k]));
    }
}

/// What is suspected are edges that may be reflected paths, in their order, and
/// three at most.
pub proof fn suspects_are_edges_that_may_be_reflected(edges: Seq<EdgeView>)
    ensures
        suspects(edges).len() <= 3,
        forall|k: int|
            0 <= k < suspects(edges).len() ==> 0 <= #[trigger] suspects(edges)[k] < edges.len()
                && edges[suspects(edges)[k]].suspect,
        forall|k: int, l: int|
            0 <= k < l < suspects(edges).len() ==> #[trigger] suspects(edges)[k]
                < #[trigger] suspects(edges)[l],
{
    suspect_positions(edges);
}

/// An edge that may be a reflected path is suspected, unless three before it
/// are.
pub proof fn no_suspect_is_forgotten(edges: Seq<EdgeView>, i: int)
    requires
        0 <= i < edges.len(),
        edges[i].suspect,
    ensures
        suspects(edges).contains(i) || (suspects(edges).len() == 3 && suspects(edges)[2] < i),
{
    let pick = |e: EdgeView| e.suspect;
    suspect_positions(edges);
    let all = picked_positions(edges, pick);
    a_picked_position_is_listed(edges, pick, i);
    let m = choose|m: int| 0 <= m < all.len() && #[trigger] all[m] == i;
    let s = suspects(edges);
    if m < s.len() {
        assert(s[m] == i);
    } else {
        assert(all[2] < all[m]);
        assert(s[2] == all[2]);
    }
}

proof fn a_picked_position_is_listed<A>(s: Seq<A>, pick: spec_fn(A) -> bool, k: int)
    requires
        0 <= k < s.len(),
        pick(s[k]),
    ensures
        exists|m: int| 0 <= m < picked_positions(s, pick).len() && #[trigger] picked_positions(
            s,
            pick,
        )[m] == k,
    decreases s.len(),
{
    let p = picked_positions(s, pick);
    if k == s.len() - 1 {
        assert(p[p.len() - 1] == k);
    } else {
        a_picked_position_is_listed(s.drop_last(), pick, k);
        let q = picked_positions(s.drop_last(), pick);
        let m = choose|m: int| 0 <= m < q.len() && #[trigger] q[m] == k;
        assert(p[m] == k);
    }
}

/// First nothing is dropped, then every suspect by itself, then every two
/// suspects that follow each other; nothing else is tried.
pub proof fn suspects_are_dropped_in_turn(sus: Seq<int>, k: int)
    requires
        0 <= k < sus.len(),
    ensures
        scenarios_for(sus).len() == 2 * sus.len(),
        scenarios_for(sus)[0].len() == 0,
        scenarios_for(sus)[1 + k].len() == 1,
        scenarios_for(sus)[1 + k][0] == sus[k],
        k + 1 < sus.len() ==> scenarios_for(sus)[1 + sus.len() + k].len() == 2 && scenarios_for(
            sus,
        )[1 + sus.len() + k][0] == sus[k] && scenarios_for(sus)[1 + sus.len() + k][1] == sus[k + 1],
{
    assert(scenarios_for(sus)[1 + k] == seq![sus[k]]);
    if k + 1 < sus.len() {
        assert(scenarios_for(sus)[1 + sus.len() + k] == seq![sus[k], sus[k + 1]]);
    }
}

/// Where nothing is suspected, all edges are kept and nothing else is tried.
pub proof fn without_suspects_all_edges_are_kept(sus: Seq<int>)
    requires
        sus.len() == 0,
    ensures
        scenarios_for(sus).len() == 1,
        scenarios_for(sus)[0].len() == 0,
{
}

/// Dropping edges keeps exactly the others, in their order.
pub proof fn dropping_keeps_the_others(edges: Seq<EdgeView>, dropped: Seq<int>) -> (src: Seq<int>)
    ensures
        src.len() == kept_edges(edges, dropped).len(),
        forall|k: int|
            0 <= k < src.len() ==> 0 <= #[trigger] src[k] < edges.len() && !dropped.contains(src[k])
                && kept_edges(edges, dropped)[k] == edges[src[k]],
        forall|k: int, l: int| 0 <= k < l < src.len() ==> #[trigger] src[k] < #[trigger] src[l],
        forall|i: int| 0 <= i < edges.len() && !dropped.contains(i) ==> #[trigger] src.contains(i),
    decreases edges.len(),
{
    if edges.len() == 0 {
        Seq::empty()
    } else {
        let rest = edges.drop_last();
        let n = edges.len() - 1;
        let before = dropping_keeps_the_others(rest, dropped);
        assert forall|k: int| 0 <= k < before.len() implies edges[#[trigger] before[k]]
            == rest[before[k]] by {}
        if dropped.contains(n) {
            assert forall|i: int|
                0 <= i < edges.len() && !dropped.contains(i) implies #[trigger] before.contains(
                i,
            ) by {
                assert(i < n);
            }
            before
        } else {
            let src = before.push(n);
            assert forall|i: int|
                0 <= i < edges.len() && !dropped.contains(i) implies #[trigger] src.contains(i) by {
                if i < n {
                    assert(before.contains(i));
                    let k = choose|k: int| 0 <= k < before.len() && before[k] == i;
                    assert(src[k] == i);
                } else {
                    assert(src[src.len() - 1] == i);
                }
            }
            src
        }
    }
}

/// Each edge counts once for each of its two stations, and for no other.
pub proof fn an_edge_counts_for_its_stations(edges: Seq<EdgeView>, e: EdgeView, station: int)
    requires
        e.a != e.b,
    ensures
        station == e.a || station == e.b ==> degree(edges.push(e), station) == degree(
            edges,
            station,
        ) + 1,
        station != e.a && station != e.b ==> degree(edges.push(e), station) == degree(
            edges,
            station,
        ),
        degree(Seq::empty(), station) == 0,
{
    assert(edges.push(e).drop_last() =~= edges);
}

/// An edge is timely where its uncertainty is below a tenth of a second, and the
/// clocks rule where that of some edge is not.
pub proof fn clocks_rule_from_a_tenth_of_a_second(edges: Seq<EdgeView>, e: EdgeView)
    ensures
        timely()(e) <==> e.sigma.below(Double { bits: 0x3fb9_9999_9999_999a }),
        clock_ruled(edges) <==> exists|i: int|
            0 <= i < edges.len() && ((Double { bits: 0x3fb9_9999_9999_999a }).below(
                (#[trigger] edges[i]).sigma,
            ) || (Double { bits: 0x3fb9_9999_9999_999a }).same_number(edges[i].sigma)),
{
    let tenth = Double { bits: 0x3fb9_9999_9999_999a };
    if clock_ruled(edges) {
        let i = choose|i: int| 0 <= i < edges.len() && tenth.up_to((#[trigger] edges[i]).sigma);
        assert(tenth.below(edges[i].sigma) || tenth.same_number(edges[i].sigma));
    }
}

// ---------- Steps ----------

/// A place can be observed: both coordinates are finite, and it is no farther
/// than the radius.
pub open spec fn can_be_observed(at: Pt, reach: Double, radius: Double) -> bool {
    at.x.finite() && at.y.finite() && !reach.nan() && !radius.nan() && !radius.below(reach)
}

/// A step whose system is singular leaves the position where it is. Any other
/// one loses it where it cannot be observed, ends the walk where it is short or
/// the tenth, and else leads on.
pub proof fn a_step_leads_on_or_ends_the_walk(s: Refinement, m: Move, radius: Double)
    requires
        s.steps < 10,
    ensures
        ({
            let r = after_move(s, m, radius);
            let singular = m.det.size().below(Double { bits: 0x3c32_725d_d1d2_43ac });
            let seen = can_be_observed(m.to, m.reach, radius);
            let short = m.length.below(Double { bits: 0x3e7a_d7f2_9abc_af48 });
            &&& singular ==> r == Next::Settled(s.at)
            &&& !singular && !seen ==> r == Next::Lost
            &&& !singular && seen && (short || s.steps == 9) ==> r == Next::Settled(m.to)
            &&& !singular && seen && !short && s.steps < 9 ==> r == Next::Again(
                Refinement { at: m.to, steps: (s.steps + 1) as usize },
            )
        }),
{
}

// ---------- Positions of a system ----------

/// A system that determines a position gives the refined one, of rank three,
/// where the range to the reference is above a metre, fits the distance and the
/// position can be observed; else it gives none.
pub proof fn a_full_system_gives_its_position(
    radius: Double,
    edges: Seq<EdgeView>,
    f: FullSystem,
)
    ensures
        ({
            let r = core_points(radius, edges, System::Full(f));
            let good = (Double { bits: 0x3ff0_0000_0000_0000 }).below(f.r0) && !f.gap.nan()
                && !f.bound.nan() && !f.bound.below(f.gap) && can_be_observed(
                f.at,
                f.reach,
                radius,
            ) && f.refined is Some;
            &&& good ==> r.len() == 1 && r[0].fit == f.refined->0@ && r[0].rank == 3
            &&& !good ==> r.len() == 0
        }),
{
}

/// A root of a line gives a position: its range is not below zero, it can be
/// observed, and it was refined.
pub open spec fn gives_a_position(r: Root, radius: Double) -> bool {
    !r.r0.below(Double { bits: 0 }) && can_be_observed(r.at, r.reach, radius) && r.refined is Some
}

/// A system that leaves a line gives the refined roots of its quadratic, of rank
/// two: both where it has two, the one where it is linear, and none where it has
/// none or the clocks rule and fewer than three edges are timely.
pub proof fn a_line_gives_its_roots(radius: Double, edges: Seq<EdgeView>, l: LineSystem)
    ensures
        ({
            let r = core_points(radius, edges, System::Line(l));
            let tiny = Double { bits: 0x3d71_9799_812d_ea11 };
            let free = clock_ruled(edges) && edges.filter(timely()).len() < 3;
            let linear = l.a.size().below(tiny);
            let two = !linear && !l.disc.nan() && !l.disc.below(Double { bits: 0 });
            let p = gives_a_position(l.plus, radius);
            let m = gives_a_position(l.minus, radius);
            &&& free ==> r.len() == 0
            &&& forall|k: int| 0 <= k < r.len() ==> (#[trigger] r[k]).rank == 2
            &&& !free && linear && tiny.below(l.b.size()) && gives_a_position(l.single, radius)
                ==> r.len() == 1 && r[0].fit == l.single.refined->0@
            &&& !free && linear && !(tiny.below(l.b.size()) && gives_a_position(l.single, radius))
                ==> r.len() == 0
            &&& !free && two && p && m ==> r.len() == 2 && r[0].fit == l.plus.refined->0@
                && r[1].fit == l.minus.refined->0@
            &&& !free && two && p && !m ==> r.len() == 1 && r[0].fit == l.plus.refined->0@
            &&& !free && two && !p && m ==> r.len() == 1 && r[0].fit == l.minus.refined->0@
            &&& !free && two && !p && !m ==> r.len() == 0
            &&& !free && !linear && !two ==> r.len() == 0
        }),
{
}

// ---------- Positions that are one ----------

/// Every position that is kept is one that was found, there are no more of them
/// than were found, and there is one where any was.
pub proof fn merging_keeps_what_was_found(list: Seq<FoundView>, distances: Distances)
    ensures
        merged(list, distances).len() <= list.len(),
        list.len() > 0 ==> merged(list, distances).len() > 0,
        forall|i: int|
            0 <= i < merged(list, distances).len() ==> exists|j: int|
                0 <= j < list.len() && (#[trigger] merged(list, distances)[i]).fit == (
                #[trigger] list[j]).fit,
    decreases list.len(),
{
    if list.len() > 0 {
        let rest = list.drop_last();
        let c = list.last();
        let n = list.len() - 1;
        merging_keeps_what_was_found(rest, distances);
        let before = merged(rest, distances);
        let now = merged(list, distances);
        near_ones_are_in_the_list(before, c, distances);
        assert forall|i: int| 0 <= i < now.len() implies exists|j: int|
            0 <= j < list.len() && (#[trigger] now[i]).fit == (#[trigger] list[j]).fit by {
            if i < before.len() && now[i].fit == before[i].fit {
                let j = choose|j: int|
                    0 <= j < rest.len() && before[i].fit == (#[trigger] rest[j]).fit;
                assert(list[j] == rest[j]);
                assert(now[i].fit == list[j].fit);
            } else {
                assert(now[i].fit == list[n].fit);
            }
        }
    }
}

proof fn near_ones_are_in_the_list(list: Seq<FoundView>, c: FoundView, distances: Distances)
    ensures
        first_near(list, c, distances) is Some ==> 0 <= first_near(list, c, distances)->0
            < list.len() && near(list[first_near(list, c, distances)->0], c, distances)
            && forall|j: int|
            0 <= j < first_near(list, c, distances)->0 ==> !near(#[trigger] list[j], c, distances),
        first_near(list, c, distances) is None ==> forall|j: int|
            0 <= j < list.len() ==> !near(#[trigger] list[j], c, distances),
    decreases list.len(),
{
    if list.len() > 0 {
        let rest = list.drop_last();
        near_ones_are_in_the_list(rest, c, distances);
        if first_near(rest, c, distances) is Some {
            let i = first_near(rest, c, distances)->0;
            assert(rest[i] == list[i]);
            assert forall|j: int| 0 <= j < i implies !near(#[trigger] list[j], c, distances) by {
                assert(rest[j] == list[j]);
            }
        } else {
            assert forall|j: int| 0 <= j < list.len() - 1 implies !near(
                #[trigger] list[j],
                c,
                distances,
            ) by {
                assert(rest[j] == list[j]);
            }
        }
    }
}

/// A position that comes is kept beside the others where none of them lies
/// within a metre of it. Where one does, the first of these gives way to it if
/// it fits better, and stays if not; the others stay as they are.
pub proof fn a_position_joins_the_first_one_near(
    list: Seq<FoundView>,
    c: FoundView,
    distances: Distances,
    i: int,
)
    requires
        0 <= i <= list.len(),
        forall|j: int|
            0 <= j < i ==> !distances.distance((#[trigger] list[j]).fit.at, c.fit.at).below(
                Double { bits: 0x3ff0_0000_0000_0000 },
            ),
        i < list.len() ==> distances.distance(list[i].fit.at, c.fit.at).below(
            Double { bits: 0x3ff0_0000_0000_0000 },
        ),
    ensures
        ({
            let now = crate::workbench::solver::absorbed(list, c, distances);
            let better = c.fit.rms_nsigma.below(list[i].fit.rms_nsigma);
            &&& i == list.len() ==> now == list.push(c)
            &&& i < list.len() ==> now.len() == list.len() && forall|j: int|
                0 <= j < list.len() && j != i ==> #[trigger] now[j] == list[j]
            &&& i < list.len() && better ==> now[i].fit == c.fit
            &&& i < list.len() && !better ==> now[i].fit == list[i].fit
            &&& i < list.len() && better ==> now[i].rank == if c.rank >= list[i].rank {
                c.rank
            } else {
                list[i].rank
            }
            &&& i < list.len() && !better ==> now[i].rank == list[i].rank
            &&& i < list.len() && c.dropped.len() == 0 ==> now[i].dropped == list[i].dropped
            &&& i < list.len() && c.dropped.len() > 0 && (better || list[i].dropped.len() == 0)
                ==> now[i].dropped == c.dropped
            &&& i < list.len() && c.dropped.len() > 0 && !better && list[i].dropped.len() > 0
                ==> now[i].dropped == list[i].dropped
        }),
{
    near_ones_are_in_the_list(list, c, distances);
    if i < list.len() {
        assert(near(list[i], c, distances));
        assert(first_near(list, c, distances) is Some);
        let k = first_near(list, c, distances)->0;
        if k < i {
            assert(near(list[k], c, distances));
            assert(!distances.distance(list[k].fit.at, c.fit.at).below(
                Double { bits: 0x3ff0_0000_0000_0000 },
            ));
        }
        assert(k == i);
    } else {
        if first_near(list, c, distances) is Some {
            let k = first_near(list, c, distances)->0;
            assert(near(list[k], c, distances));
            assert(!distances.distance(list[k].fit.at, c.fit.at).below(
                Double { bits: 0x3ff0_0000_0000_0000 },
            ));
        }
    }
}

// ---------- Candidates ----------

/// A row of residuals belongs to the edge with its number: it names its
/// stations, what was measured, what was predicted for it and what the
/// prediction misses by, and says by how many uncertainties where there is one
/// and the miss is finite.
pub proof fn residuals_are_those_of_the_predictions(
    snap: SnapshotView,
    rows: Seq<EdgeRowView>,
    p: Seq<Predicted>,
    j: int,
)
    requires
        0 <= j < rows.len(),
        j < p.len(),
    ensures
        ({
            let r = residual_rows(snap, rows, Some(p))[j];
            let e = snap.edges[rows[j].edge.origin_idx];
            let counted = (Double { bits: 0 }).below(rows[j].edge.sigma) && p[j].residual.finite();
            &&& residual_rows(snap, rows, Some(p)).len() == rows.len()
            &&& r.edge == e.station_a + "->"@ + e.station_b
            &&& r.kind == e.origin
            &&& r.station_a == snap.stations[rows[j].edge.a].station_id
            &&& r.station_b == snap.stations[rows[j].edge.b].station_id
            &&& r.measured_s == rows[j].edge.delay
            &&& r.predicted_s == p[j].predicted
            &&& r.residual_s == p[j].residual
            &&& r.sigma_s == rows[j].edge.sigma
            &&& counted ==> r.n_sigma == p[j].quotient
            &&& !counted ==> r.n_sigma.nan()
            &&& r.multipath == e.multipath
            &&& r.excluded == rows[j].excluded
        }),
{
}

/// Without a position nothing is predicted for an edge.
pub proof fn without_a_position_nothing_is_predicted(
    snap: SnapshotView,
    rows: Seq<EdgeRowView>,
    j: int,
)
    requires
        0 <= j < rows.len(),
    ensures
        ({
            let r = residual_rows(snap, rows, None)[j];
            &&& r.predicted_s.nan()
            &&& r.residual_s.nan()
            &&& r.n_sigma.nan()
            &&& r.measured_s == rows[j].edge.delay
            &&& r.sigma_s == rows[j].edge.sigma
            &&& r.excluded == rows[j].excluded
        }),
{
}

/// A position is put out where it was found. It is determined only if its
/// geometry has full rank and it does not rest on dropping an edge while nothing
/// that drops none agrees; its numbers are those of its fit.
pub proof fn a_position_is_put_out_where_it_was_found(
    snap: SnapshotView,
    rows: Seq<EdgeRowView>,
    f: FoundView,
    rank: int,
    agree: bool,
)
    ensures
        ({
            let c = point_out(snap, rows, f, rank, agree);
            let mirror = f.rank < 3;
            let fits = !f.fit.rms_nsigma.nan() && !(Double { bits: 0x3fe9_9999_9999_999a }).below(
                f.fit.rms_nsigma,
            );
            let forced = f.dropped.len() > 0 && !agree && fits;
            &&& c.kind == "point"@
            &&& c.x == Some(f.fit.at.x)
            &&& c.y == Some(f.fit.at.y)
            &&& c.region is None
            &&& c.status == "determined"@ <==> !mirror && !forced
            &&& c.status == "underdetermined"@ <==> mirror || forced
            &&& mirror ==> c.reason
                == "sensor_geometry: two mirror locations fit the two delay differences"@
            &&& !mirror && forced ==> c.reason
                == "multipath: consistent only after rejecting a suspected reflected path"@
            &&& !mirror && !forced && f.dropped.len() == 0 ==> c.reason
                == "direct evidence consistent"@
            &&& !mirror && !forced && f.dropped.len() > 0 ==> c.reason
                == "consistent; also fits when a suspected multipath edge is rejected"@
            &&& c.metrics.member("rms_nsigma"@) == Some(JsonView::Float(f.fit.rms_nsigma))
            &&& c.residuals == residual_rows(snap, rows, Some(f.fit.predicted))
        }),
{
    reveal_strlit("determined");
    reveal_strlit("underdetermined");
    assert("determined"@.len() == 10 && "underdetermined"@.len() == 15);
    let c = point_out(snap, rows, f, rank, agree);
    let m = c.metrics->Object_0;
    assert(m[0].0 == "rms_nsigma"@);
}

/// The numbers of a position are shown each under its own name.
pub proof fn the_numbers_of_a_position_have_their_names(f: FoundView)
    ensures
        ({
            let m = crate::workbench::solver::point_metrics(f);
            &&& m.member("rms_nsigma"@) == Some(JsonView::Float(f.fit.rms_nsigma))
            &&& m.member("max_residual_s"@) == Some(JsonView::Float(f.fit.max_residual_s))
            &&& m.member("chi2"@) == Some(JsonView::Float(f.fit.chi2))
            &&& m.member("rank"@) == Some(JsonView::Int(f.rank))
            &&& m.member("dropped_suspect_edges"@) == Some(JsonView::Int(f.dropped.len() as int))
        }),
{
    reveal_strlit("rms_nsigma");
    reveal_strlit("max_residual_s");
    reveal_strlit("chi2");
    reveal_strlit("rank");
    reveal_strlit("dropped_suspect_edges");
    assert("rms_nsigma"@.len() == 10 && "max_residual_s"@.len() == 14);
    assert("chi2"@.len() == 4 && "rank"@.len() == 4 && "dropped_suspect_edges"@.len() == 21);
    assert("chi2"@[0] == 'c' && "rank"@[0] == 'r');
    reveal_with_fuel(crate::json::first_under, 6);
    let s = crate::workbench::solver::point_metrics(f)->Object_0;
    let s1 = s.drop_first();
    let s2 = s1.drop_first();
    let s3 = s2.drop_first();
    let s4 = s3.drop_first();
    assert(s1[0] == s[1] && s2[0] == s[2] && s3[0] == s[3] && s4[0] == s[4]);
}

/// A region is put out without a position, undetermined, with its reason.
pub proof fn a_region_has_no_position(
    snap: SnapshotView,
    rows: Seq<EdgeRowView>,
    region: JsonView,
    reason: Seq<char>,
    d: Decimals,
)
    ensures
        ({
            let c = region_out(snap, rows, region, reason, d);
            &&& c.kind == "region"@
            &&& c.status == "underdetermined"@
            &&& c.reason == reason
            &&& c.x is None && c.y is None
            &&& c.region == Some(region)
            &&& c.residuals == residual_rows(snap, rows, None)
        }),
{
}

} // verus!
