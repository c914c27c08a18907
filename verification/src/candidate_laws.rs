//! What a candidate says of the fit that it comes from, and what is read of it
//! once it is written.
use vstd::prelude::*;

use crate::double::Double;
use crate::figures::Pt;
use crate::jobs::{candidates_of, completed, kept_candidate, written};
use crate::measurement_laws::{
    residuals_are_those_of_the_predictions, what_is_used_is_allowed,
    without_a_position_nothing_is_predicted,
};
use crate::model::{CandidateResidualView, CandidateView, SiteBounds};
use crate::solver::{
    candidate_of, objections, unopposed, unopposed_have_no_objection, Fit, MeasView, Outcome,
    Reach, SolverEvent,
};
use crate::store::{knows_candidate, StoreView};

verus! {

// ---------- What is read of what was written ----------

/// A place whose two coordinates are finite.
pub open spec fn is_placed(p: Pt) -> bool {
    p.x.finite() && p.y.finite()
}

/// Two lists of places are the same, coordinate by coordinate.
pub open spec fn same_places(a: Seq<Pt>, b: Seq<Pt>) -> bool {
    &&& a.len() == b.len()
    &&& forall|i: int|
        0 <= i < a.len() ==> (#[trigger] a[i]).x == b[i].x && a[i].y == b[i].y
}

/// Row `r` is what is read of the row of residuals `c`.
pub open spec fn residual_reads_as(r: CandidateResidualView, c: CandidateResidualView) -> bool {
    &&& r.kind == c.kind
    &&& r.lag_uid == c.lag_uid
    &&& r.station_id == c.station_id
    &&& r.peer_id == c.peer_id
    &&& r.measured_sec == c.measured_sec
    &&& r.weight == c.weight
    &&& r.used == c.used
    &&& r.excluded_reason == c.excluded_reason
    &&& c.predicted_sec is Some && c.predicted_sec->0.finite() ==> r.predicted_sec
        == c.predicted_sec
    &&& !(c.predicted_sec is Some && c.predicted_sec->0.finite()) ==> r.predicted_sec is None
    &&& c.residual_sec is Some && c.residual_sec->0.finite() ==> r.residual_sec == c.residual_sec
    &&& !(c.residual_sec is Some && c.residual_sec->0.finite()) ==> r.residual_sec is None
}

/// The numbers that every row of residuals has to have are finite.
pub open spec fn residuals_are_finite(s: Seq<CandidateResidualView>) -> bool {
    forall|i: int|
        0 <= i < s.len() ==> (#[trigger] s[i]).measured_sec.finite() && s[i].weight.finite()
}

/// All numbers of a curve are finite.
pub open spec fn curve_is_finite(c: CandidateView) -> bool {
    &&& c.curve is Some
    &&& is_placed(c.curve->0.focus_a)
    &&& is_placed(c.curve->0.focus_b)
    &&& c.curve->0.difference_m.finite()
    &&& forall|i: int| 0 <= i < c.curve->0.points.len() ==> is_placed(#[trigger] c.curve->0.points[i])
}

/// All numbers of a region are finite.
pub open spec fn region_is_finite(c: CandidateView) -> bool {
    &&& c.region is Some
    &&& is_placed(c.region->0.center)
    &&& is_placed(c.region->0.semi_axes)
    &&& c.region->0.angle_rad.finite()
    &&& forall|i: int|
        0 <= i < c.region->0.polygon.len() ==> is_placed(#[trigger] c.region->0.polygon[i])
}

/// Candidate `r` is what is read, for a job, of candidate `c`: the same name,
/// kind, rank, score, reason and signature, the position coordinate by
/// coordinate where both are numbers, the curve and the region where all their
/// numbers are finite, and the rows of residuals one by one.
pub open spec fn reads_as(r: CandidateView, c: CandidateView, job_id: int) -> bool {
    let has_point = c.point is Some && !c.point->0.x.nan() && !c.point->0.y.nan();
    let has_rms = c.rms_sec is Some && !c.rms_sec->0.nan();
    &&& r.candidate_id == c.candidate_id
    &&& r.job_id == job_id
    &&& r.rank == c.rank
    &&& r.kind == c.kind
    &&& r.score == c.score
    &&& r.underdetermined == c.underdetermined
    &&& r.signature == c.signature
    &&& r.point is Some <==> has_point
    &&& has_point ==> r.point->0.x == c.point->0.x && r.point->0.y == c.point->0.y
    &&& r.rms_sec is Some <==> has_rms
    &&& has_rms ==> r.rms_sec->0 == c.rms_sec->0
    &&& r.curve is Some <==> curve_is_finite(c)
    &&& curve_is_finite(c) ==> r.curve->0.kind == c.curve->0.kind && r.curve->0.focus_a.x
        == c.curve->0.focus_a.x && r.curve->0.focus_a.y == c.curve->0.focus_a.y
        && r.curve->0.focus_b.x == c.curve->0.focus_b.x && r.curve->0.focus_b.y
        == c.curve->0.focus_b.y && r.curve->0.difference_m == c.curve->0.difference_m
        && same_places(r.curve->0.points, c.curve->0.points)
    &&& r.region is Some <==> region_is_finite(c)
    &&& region_is_finite(c) ==> r.region->0.kind == c.region->0.kind && r.region->0.center.x
        == c.region->0.center.x && r.region->0.center.y == c.region->0.center.y
        && r.region->0.semi_axes.x == c.region->0.semi_axes.x && r.region->0.semi_axes.y
        == c.region->0.semi_axes.y && r.region->0.angle_rad == c.region->0.angle_rad
        && same_places(r.region->0.polygon, c.region->0.polygon)
    &&& residuals_are_finite(c.residuals) ==> r.residuals.len() == c.residuals.len() && forall|
        i: int,
    |
        0 <= i < c.residuals.len() ==> residual_reads_as(
            #[trigger] r.residuals[i],
            c.residuals[i],
        )
    &&& !residuals_are_finite(c.residuals) ==> r.residuals.len() == 0
}

proof fn what_is_kept_reads(c: CandidateView, job_id: int)
    ensures
        reads_as(kept_candidate(c, job_id), c, job_id),
{
    let r = kept_candidate(c, job_id);
    if c.curve is Some {
        let pts = c.curve->0.points;
        if crate::jobs::finite_places(pts) {
            assert forall|i: int| 0 <= i < pts.len() implies is_placed(#[trigger] pts[i]) by {
                assert(crate::jobs::finite_place(pts[i]));
            }
        }
        if curve_is_finite(c) {
            assert forall|i: int| 0 <= i < pts.len() implies crate::jobs::finite_place(
                #[trigger] pts[i],
            ) by {
                assert(is_placed(c.curve->0.points[i]));
            }
        }
    }
    if c.region is Some {
        let pts = c.region->0.polygon;
        if crate::jobs::finite_places(pts) {
            assert forall|i: int| 0 <= i < pts.len() implies is_placed(#[trigger] pts[i]) by {
                assert(crate::jobs::finite_place(pts[i]));
            }
        }
        if region_is_finite(c) {
            assert forall|i: int| 0 <= i < pts.len() implies crate::jobs::finite_place(
                #[trigger] pts[i],
            ) by {
                assert(is_placed(c.region->0.polygon[i]));
            }
        }
    }
}

proof fn names_are_new(v: StoreView, list: Seq<CandidateView>, job_id: int, n: int)
    requires
        0 <= n <= list.len(),
        written(v, list, job_id, n) is Ok,
    ensures
        ({
            let now = written(v, list, job_id, n)->Ok_0;
            &&& now.len() == v.candidates.len() + n
            &&& forall|j: int|
                0 <= j < v.candidates.len() ==> #[trigger] now[j] == v.candidates[j]
            &&& forall|k: int|
                0 <= k < n ==> reads_as(
                    now[v.candidates.len() + k],
                    #[trigger] list[k],
                    job_id,
                )
            &&& forall|k: int, j: int|
                #![trigger list[k], now[j]]
                0 <= k < n && 0 <= j < now.len() && now[j].candidate_id == list[k].candidate_id
                    ==> j == v.candidates.len() + k
        }),
    decreases n,
{
    if n > 0 {
        names_are_new(v, list, job_id, n - 1);
        let before = written(v, list, job_id, n - 1)->Ok_0;
        let now = written(v, list, job_id, n)->Ok_0;
        let m = v.candidates.len() as int;
        let c = list[n - 1];
        what_is_kept_reads(c, job_id);
        assert(now == before.push(kept_candidate(c, job_id)));
        assert forall|k: int| 0 <= k < n implies reads_as(
            now[m + k],
            #[trigger] list[k],
            job_id,
        ) by {
            if k < n - 1 {
                assert(now[m + k] == before[m + k]);
            }
        }
        assert forall|k: int, j: int|
            #![trigger list[k], now[j]]
            0 <= k < n && 0 <= j < now.len() && now[j].candidate_id == list[k].candidate_id implies j
            == m + k by {
            if k == n - 1 {
                if j < m + n - 1 {
                    assert(before[j] == now[j]);
                    assert(knows_candidate(before, c.candidate_id));
                }
            } else if j == m + n - 1 {
                assert(reads_as(before[m + k], list[k], job_id));
                assert(before[m + k].candidate_id == c.candidate_id);
                assert(knows_candidate(before, c.candidate_id));
            } else {
                assert(before[j] == now[j]);
            }
        }
    }
}

/// Every candidate that is written for a job is read back under its name, once
/// and as it was; what was there before is read as before.
pub proof fn candidates_are_read_as_they_were(
    v: StoreView,
    job_id: int,
    list: Seq<CandidateView>,
    finished_at: Seq<char>,
    k: int,
)
    requires
        written(v, list, job_id, list.len() as int) is Ok,
        0 <= k < list.len(),
    ensures
        ({
            let w = completed(v, job_id, list, finished_at);
            &&& exists|j: int|
                0 <= j < w.candidates.len() && (#[trigger] w.candidates[j]).candidate_id
                    == list[k].candidate_id
            &&& forall|j: int|
                0 <= j < w.candidates.len() && (#[trigger] w.candidates[j]).candidate_id
                    == list[k].candidate_id ==> reads_as(w.candidates[j], list[k], job_id)
            &&& forall|j: int|
                0 <= j < v.candidates.len() ==> #[trigger] w.candidates[j] == v.candidates[j]
            &&& w.candidates.len() == v.candidates.len() + list.len()
        }),
{
    names_are_new(v, list, job_id, list.len() as int);
    let w = completed(v, job_id, list, finished_at);
    let m = v.candidates.len() as int;
    assert(reads_as(w.candidates[m + k], list[k], job_id));
    assert(w.candidates[m + k].candidate_id == list[k].candidate_id);
}

/// The candidates of a job that had none are, once it is completed, those that
/// were written for it, one for one.
pub proof fn a_job_reads_what_it_wrote(
    v: StoreView,
    job_id: int,
    list: Seq<CandidateView>,
    finished_at: Seq<char>,
    k: int,
)
    requires
        candidates_of(v, job_id).len() == 0,
        written(v, list, job_id, list.len() as int) is Ok,
        0 <= k < list.len(),
    ensures
        candidates_of(completed(v, job_id, list, finished_at), job_id).len() == list.len(),
        reads_as(
            candidates_of(completed(v, job_id, list, finished_at), job_id)[k],
            list[k],
            job_id,
        ),
{
    crate::store_laws::what_is_completed_is_read(v, job_id, list, finished_at);
    what_is_kept_reads(list[k], job_id);
}

// ---------- What a fit becomes ----------

/// A place on the site: no coordinate is outside, and both are numbers.
pub open spec fn is_on_site(p: Pt, b: SiteBounds) -> bool {
    &&& !p.x.nan() && !p.y.nan() && !b.min_x.nan() && !b.max_x.nan() && !b.min_y.nan()
        && !b.max_y.nan()
    &&& !p.x.below(b.min_x) && !b.max_x.below(p.x)
    &&& !p.y.below(b.min_y) && !b.max_y.below(p.y)
}

/// No position satisfies the measurements: the residual is above 4 ms, or the
/// search did not end.
pub open spec fn cannot_be_satisfied(fit: Fit) -> bool {
    (Double { bits: 0x3f70_624d_d2f1_a9fc }).below(fit.rms) || fit.diverged
}

/// The measurements do not fix a position: an eigenvalue is below 1e-8, or the
/// condition is infinite, not a number or above a million.
pub open spec fn is_not_fixed(fit: Fit) -> bool {
    fit.lambda_min.below(Double { bits: 0x3e45_798e_e230_8c3a }) || !fit.condition.finite()
        || (Double { bits: 0x412e_8480_0000_0000 }).below(fit.condition)
}

/// A reflection is used.
pub open spec fn uses_a_reflection(
    meas: Seq<MeasView>,
    excluded: Seq<Seq<char>>,
    reach: Seq<Reach>,
) -> bool {
    exists|i: int|
        unopposed(objections(meas, excluded, reach)).contains(i) && (#[trigger] meas[i]).reflection
}

/// The candidate of a fit: a region without a position where the measurements
/// cannot be satisfied, a region round the position where it is not fixed, and
/// else the position, with what is wrong where it lies off the site. Only a
/// position on the site is scored by its residual alone.
pub proof fn a_fit_becomes_what_it_deserves(
    event: SolverEvent,
    meas: Seq<MeasView>,
    excluded: Seq<Seq<char>>,
    signature: Seq<char>,
    reach: Seq<Reach>,
    outcome: Outcome,
)
    requires
        outcome is Several,
    ensures
        ({
            let c = candidate_of(event, meas, excluded, signature, reach, outcome);
            let fit = outcome->fit;
            let refused = cannot_be_satisfied(fit);
            let loose = !refused && is_not_fixed(fit);
            let settled = !refused && !loose;
            &&& c.rms_sec == Some(fit.rms)
            &&& c.signature == signature
            &&& c.curve is None
            &&& refused ==> c.kind == "region"@ && c.point is None
            &&& refused && uses_a_reflection(meas, excluded, reach) ==> c.underdetermined
                == "multipath"@
            &&& refused && !uses_a_reflection(meas, excluded, reach) ==> c.underdetermined
                == "inconsistent_measurements"@
            &&& loose ==> c.kind == "region"@ && c.underdetermined == "sensor_geometry"@
            &&& settled ==> c.kind == "point"@ && c.region is None
            &&& !refused ==> c.point is Some && c.point->0.x == fit.at.x && c.point->0.y
                == fit.at.y
            &&& !settled ==> c.region is Some && c.region->0.center == fit.at
            &&& settled && !is_on_site(fit.at, event.bounds) ==> c.underdetermined
                == "outside_observable_geometry"@ && c.score == outcome->penalised
            &&& settled && is_on_site(fit.at, event.bounds) ==> c.underdetermined == ""@ && c.score
                == fit.rms
            &&& !settled ==> c.score == outcome->penalised
            &&& c.residuals.len() == meas.len()
            &&& forall|i: int|
                0 <= i < meas.len() ==> (#[trigger] c.residuals[i]).predicted_sec == Some(
                    outcome->predictions@[i].predicted_sec,
                ) && c.residuals[i].residual_sec == Some(outcome->predictions@[i].residual_sec)
                    && c.residuals[i].measured_sec == meas[i].measured_sec
                    && c.residuals[i].station_id == meas[i].station_id && c.residuals[i].peer_id
                    == meas[i].peer_id && c.residuals[i].lag_uid == meas[i].lag_uid
                    && (c.residuals[i].used <==> unopposed(
                    objections(meas, excluded, reach),
                ).contains(i))
        }),
{
    let list = objections(meas, excluded, reach);
    let c = candidate_of(event, meas, excluded, signature, reach, outcome);
    let used = list.map_values(|o: Option<Seq<char>>| o is None);
    unopposed_have_no_objection(list);
    assert forall|i: int| 0 <= i < meas.len() implies (unopposed(list).contains(i) <==>
        #[trigger] used[i]) by {
        what_is_used_is_allowed(meas, excluded, reach, i);
        if list[i] is None {
            assert(unopposed(list).contains(i));
        }
        if unopposed(list).contains(i) {
            let at = choose|at: int| 0 <= at < unopposed(list).len() && unopposed(list)[at] == i;
            assert(list[unopposed(list)[at]] is None);
        }
    }
    if uses_a_reflection(meas, excluded, reach) {
        let i = choose|i: int| unopposed(list).contains(i) && (#[trigger] meas[i]).reflection;
        let at = choose|at: int| 0 <= at < unopposed(list).len() && unopposed(list)[at] == i;
        assert(0 <= unopposed(list)[at] < list.len());
        assert(used[i]);
        assert(crate::solver::reflection_in_use(meas, used));
    }
    if crate::solver::reflection_in_use(meas, used) {
        let i = choose|i: int|
            0 <= i < meas.len() && (#[trigger] meas[i]).reflection && used[i];
        assert(unopposed(list).contains(i) && meas[i].reflection);
    }
    assert forall|i: int| 0 <= i < meas.len() implies (#[trigger] c.residuals[i]).predicted_sec
        == Some(outcome->predictions@[i].predicted_sec) && c.residuals[i].residual_sec == Some(
        outcome->predictions@[i].residual_sec,
    ) && c.residuals[i].measured_sec == meas[i].measured_sec && c.residuals[i].station_id
        == meas[i].station_id && c.residuals[i].peer_id == meas[i].peer_id
        && c.residuals[i].lag_uid == meas[i].lag_uid && (c.residuals[i].used <==> unopposed(
        list,
    ).contains(i)) by {
        residuals_are_those_of_the_predictions(meas, outcome->predictions@, list, i);
        assert(used[i] == (list[i] is None));
    }
}

/// Some onset has clocks that are not both locked, and no delay was measured.
pub open spec fn only_clocks_are_in_the_way(meas: Seq<MeasView>) -> bool {
    &&& exists|i: int|
        0 <= i < meas.len() && (#[trigger] meas[i]).kind == "onset_pair"@ && !meas[i].clock_locked
    &&& forall|i: int| 0 <= i < meas.len() ==> (#[trigger] meas[i]).kind != "ccf_lag"@
}

/// Where nothing is left to go by, the candidate is the whole site, ranks behind
/// everything, and predicts nothing. It says why: a delay that sound cannot
/// cover, clocks alone, or else where the sensors stand.
pub proof fn nothing_to_go_by_leaves_the_site(
    event: SolverEvent,
    meas: Seq<MeasView>,
    excluded: Seq<Seq<char>>,
    signature: Seq<char>,
    reach: Seq<Reach>,
    outcome: Outcome,
)
    requires
        outcome is Nothing,
    ensures
        ({
            let c = candidate_of(event, meas, excluded, signature, reach, outcome);
            let too_far = exists|i: int|
                0 <= i < meas.len() && #[trigger] objections(meas, excluded, reach)[i] == Some(
                    "superluminal_lag"@,
                );
            &&& c.kind == "region"@
            &&& c.point is None && c.curve is None && c.rms_sec is None
            &&& c.signature == signature
            &&& c.score.bits == 0x7ff0_0000_0000_0000
            &&& c.region is Some
            &&& c.region->0.kind == "site"@
            &&& c.region->0.center == outcome->center
            &&& c.region->0.semi_axes == outcome->semi_axes
            &&& c.region->0.polygon.len() == 4
            &&& forall|i: int|
                0 <= i < 4 ==> ((#[trigger] c.region->0.polygon[i]).x == event.bounds.min_x
                    || c.region->0.polygon[i].x == event.bounds.max_x)
                    && (c.region->0.polygon[i].y == event.bounds.min_y || c.region->0.polygon[i].y
                    == event.bounds.max_y)
            &&& too_far ==> c.underdetermined == "unobservable_input"@
            &&& !too_far && only_clocks_are_in_the_way(meas) ==> c.underdetermined
                == "clock_freedom"@
            &&& !too_far && !only_clocks_are_in_the_way(meas) ==> c.underdetermined
                == "sensor_geometry"@
            &&& c.residuals.len() == meas.len()
            &&& forall|i: int|
                0 <= i < meas.len() ==> (#[trigger] c.residuals[i]).predicted_sec is None
                    && c.residuals[i].residual_sec is None && c.residuals[i].measured_sec
                    == meas[i].measured_sec
        }),
{
    let list = objections(meas, excluded, reach);
    let c = candidate_of(event, meas, excluded, signature, reach, outcome);
    let why = Some("superluminal_lag"@);
    if list.contains(why) {
        let i = choose|i: int| 0 <= i < list.len() && list[i] == why;
        assert(objections(meas, excluded, reach)[i] == why);
    }
    assert(crate::solver::clocks_dominate(meas) == only_clocks_are_in_the_way(meas)) by {
        if crate::solver::clocks_dominate(meas) {
            assert(only_clocks_are_in_the_way(meas));
        }
    }
    assert forall|i: int| 0 <= i < meas.len() implies (#[trigger] c.residuals[i]).predicted_sec
        is None && c.residuals[i].residual_sec is None && c.residuals[i].measured_sec
        == meas[i].measured_sec by {
        without_a_position_nothing_is_predicted(meas, list, i);
    }
}

/// Where one measurement is left to go by, the candidate is the curve between
/// its two stations, or no shape, and ranks before what leaves the whole site
/// and behind every fit.
pub proof fn one_measurement_leaves_a_curve(
    event: SolverEvent,
    meas: Seq<MeasView>,
    excluded: Seq<Seq<char>>,
    signature: Seq<char>,
    reach: Seq<Reach>,
    outcome: Outcome,
    k: int,
)
    requires
        outcome is Single,
        unopposed(objections(meas, excluded, reach)) == seq![k],
    ensures
        ({
            let c = candidate_of(event, meas, excluded, signature, reach, outcome);
            &&& c.kind == "curve"@
            &&& c.point is None && c.region is None && c.rms_sec is None
            &&& c.signature == signature
            &&& c.underdetermined == "sensor_geometry"@
            &&& c.score.bits == 0x7fcf_ffff_ffff_ffff
            &&& c.curve is Some ==> c.curve->0.kind == "hyperbola"@ && c.curve->0.focus_a
                == meas[k].a && c.curve->0.focus_b == meas[k].b && c.curve->0.difference_m
                == outcome->arc.diff_m && c.curve->0.points.len() >= 2
            &&& forall|i: int|
                c.curve is Some && 0 <= i < c.curve->0.points.len() ==> is_on_site(
                    #[trigger] c.curve->0.points[i],
                    event.bounds,
                ) && outcome->arc.samples@.contains(c.curve->0.points[i])
            &&& c.residuals.len() == meas.len()
        }),
{
    let c = candidate_of(event, meas, excluded, signature, reach, outcome);
    assert(unopposed(objections(meas, excluded, reach))[0] == k);
    crate::geom::an_outline_is_cut_not_bent(outcome->arc.samples@, event.bounds);
    if c.curve is Some {
        let pts = c.curve->0.points;
        assert forall|i: int| 0 <= i < pts.len() implies is_on_site(
            #[trigger] pts[i],
            event.bounds,
        ) && outcome->arc.samples@.contains(pts[i]) by {
            assert(pts.contains(pts[i]));
            assert(crate::geom::sample_counts(pts[i], event.bounds));
        }
    }
}

} // verus!
