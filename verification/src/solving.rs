//! A whole solve: from an input, and the numbers that were worked out for its
//! hypotheses, to the ranked candidates.
use vstd::prelude::*;
use vstd::utf8::encode_utf8;

use crate::canon::{canonical_text, Decimals, Quoting};
use crate::digest::fingerprint;
use crate::figures::{Differences, Distances};
use crate::geom::{is_proper, proper};
use crate::model::{candidate_views, SiteBounds};
use crate::solver::{
    are_hypotheses, candidate_of, conclude, hypothesis_count, input_json, is_outcome, judge,
    kept_pairs, leaves_out, meas_views, measurements, objections, penalty, plan, result_views,
    screen, signature_of, solve_hypothesis, suspects, unjudged, unopposed, DerivedMeas, HypResult,
    HypResultView, Hypothesis, Outcome, Reach, SolveOutput, SolverInput, Verdict,
};
use crate::text::texts;
use crate::textset::{listing, listing_is};

verus! {

/// The numbers that a solve goes by: how far the measurements reach, what each
/// hypothesis came to, and the distances and differences of what came out.
#[derive(Debug)]
pub struct Workings {
    /// Differences of the corrected onsets.
    pub minus: Differences,
    pub decimals: Decimals,
    /// One for each measurement.
    pub reach: Vec<Reach>,
    /// One for each hypothesis.
    pub outcomes: Vec<Outcome>,
    /// Between the positions that came out.
    pub apart: Distances,
    /// Differences of the scores.
    pub gaps: Differences,
}

/// Why there is no result.
#[derive(Clone, Copy, Debug, PartialEq, Eq, Structural)]
pub enum Unsolved {
    /// There are more reflections to choose from than can be counted through.
    TooManyReflections,
    /// The numbers are not those of this input.
    OtherNumbers,
    /// A region has to be drawn onto a site that is no rectangle.
    NoSite,
}

/// What hypothesis `k` leaves out.
pub open spec fn left_out(input: SolverInput, minus: Differences, k: int) -> Seq<Seq<char>> {
    listing(
        |t: Seq<char>|
            leaves_out(suspects(input, minus, true), suspects(input, minus, false), k, t),
    )
}

/// How many hypotheses an input has.
pub open spec fn hypotheses_of(input: SolverInput, minus: Differences) -> nat {
    hypothesis_count(suspects(input, minus, false).len())
}

/// How many measurements hypothesis `k` goes by.
pub open spec fn active_in(
    input: SolverInput,
    minus: Differences,
    reach: Seq<Reach>,
    k: int,
) -> nat {
    unopposed(
        objections(measurements(input, minus), left_out(input, minus, k), reach),
    ).len()
}

/// The numbers are those of an input: one reach for each measurement and, for
/// each hypothesis, an outcome for as many measurements as it goes by, with the
/// penalty of its verdict.
pub open spec fn belong(w: Workings, input: SolverInput) -> bool {
    let n = measurements(input, w.minus).len();
    &&& w.reach@.len() == n
    &&& w.outcomes@.len() == hypotheses_of(input, w.minus)
    &&& forall|k: int|
        0 <= k < w.outcomes@.len() ==> (#[trigger] w.outcomes@[k]).fits(
            active_in(input, w.minus, w.reach@, k),
            n,
        ) && w.outcomes@[k].weighs(input.event.bounds)
}

/// What hypothesis `k` comes to.
pub open spec fn result_at(
    input: SolverInput,
    minus: Differences,
    reach: Seq<Reach>,
    outcomes: Seq<Outcome>,
    k: int,
) -> HypResultView {
    let excluded = left_out(input, minus, k);
    HypResultView {
        hyp_index: k,
        signature: signature_of(excluded),
        candidate: candidate_of(
            input.event,
            measurements(input, minus),
            excluded,
            signature_of(excluded),
            reach,
            outcomes[k],
        ),
    }
}

/// What all hypotheses come to.
pub open spec fn all_results(input: SolverInput, w: Workings) -> Seq<HypResultView> {
    Seq::new(
        hypotheses_of(input, w.minus),
        |k: int| result_at(input, w.minus, w.reach@, w.outcomes@, k),
    )
}

/// Where a region has to be drawn, the site is a rectangle.
pub open spec fn drawable(outcomes: Seq<Outcome>, bounds: SiteBounds) -> bool {
    forall|k: int|
        0 <= k < outcomes.len() && (#[trigger] outcomes[k]).draws(bounds) ==> proper(bounds)
}

fn is_fitting(o: &Outcome, active: usize, n: usize) -> (r: bool)
    ensures
        r == o.fits(active as nat, n as nat),
{
    match o {
        Outcome::Nothing { .. } => active == 0,
        Outcome::Single { .. } => active == 1,
        Outcome::Several { predictions, .. } => active >= 2 && predictions.len() == n,
    }
}

fn is_weighing(o: &Outcome, bounds: SiteBounds) -> (r: bool)
    ensures
        r == o.weighs(bounds),
{
    match o {
        Outcome::Several { fit, penalised, .. } => {
            if penalised.is_nan() {
                fit.rms.is_nan()
            } else {
                fit.rms.is_up_to(*penalised) && penalty(judge(fit, bounds)).is_up_to(*penalised)
            }
        },
        _ => true,
    }
}

/// What hypothesis `k` leaves out is what its listing says.
proof fn hypotheses_leave_out(
    hyps: Seq<Hypothesis>,
    input: SolverInput,
    minus: Differences,
    k: int,
)
    requires
        are_hypotheses(hyps, suspects(input, minus, true), suspects(input, minus, false)),
        0 <= k < hyps.len(),
    ensures
        hyps[k].index == k,
        texts(hyps[k].excluded@) == left_out(input, minus, k),
        hyps[k].signature@ == signature_of(left_out(input, minus, k)),
{
    let h = hyps[k];
    listing_is(
        texts(h.excluded@),
        |t: Seq<char>|
            leaves_out(suspects(input, minus, true), suspects(input, minus, false), k, t),
    );
}

/// The numbers of the hypotheses fit.
fn are_fitting(
    hyps: &Vec<Hypothesis>,
    meas: &Vec<DerivedMeas>,
    reach: &Vec<Reach>,
    outcomes: &Vec<Outcome>,
    bounds: SiteBounds,
    Ghost(input): Ghost<SolverInput>,
    Ghost(minus): Ghost<Differences>,
) -> (r: bool)
    requires
        are_hypotheses(hyps@, suspects(input, minus, true), suspects(input, minus, false)),
        meas_views(meas@) == measurements(input, minus),
        reach@.len() == meas@.len(),
        outcomes@.len() == hyps@.len(),
    ensures
        r == forall|k: int|
            0 <= k < outcomes@.len() ==> (#[trigger] outcomes@[k]).fits(
                active_in(input, minus, reach@, k),
                meas@.len(),
            ) && outcomes@[k].weighs(bounds),
{
    let mut i: usize = 0;
    while i < hyps.len()
        invariant
            i <= hyps@.len(),
            are_hypotheses(hyps@, suspects(input, minus, true), suspects(input, minus, false)),
            meas_views(meas@) == measurements(input, minus),
            reach@.len() == meas@.len(),
            outcomes@.len() == hyps@.len(),
            forall|k: int|
                0 <= k < i ==> (#[trigger] outcomes@[k]).fits(
                    active_in(input, minus, reach@, k),
                    meas@.len(),
                ) && outcomes@[k].weighs(bounds),
        decreases hyps@.len() - i,
    {
        proof {
            hypotheses_leave_out(hyps@, input, minus, i as int);
        }
        let s = screen(meas, &hyps[i].excluded, reach);
        assert(s.active@.len() == active_in(input, minus, reach@, i as int));
        if !is_fitting(&outcomes[i], s.active.len(), meas.len()) || !is_weighing(
            &outcomes[i],
            bounds,
        ) {
            assert(!(outcomes@[i as int].fits(
                active_in(input, minus, reach@, i as int),
                meas@.len(),
            ) && outcomes@[i as int].weighs(bounds)));
            return false;
        }
        i += 1;
    }
    true
}

fn are_drawable(outcomes: &Vec<Outcome>, bounds: SiteBounds) -> (r: bool)
    ensures
        r == drawable(outcomes@, bounds),
{
    if is_proper(bounds) {
        return true;
    }
    let mut i: usize = 0;
    while i < outcomes.len()
        invariant
            i <= outcomes@.len(),
            !proper(bounds),
            forall|k: int| 0 <= k < i ==> !(#[trigger] outcomes@[k]).draws(bounds),
        decreases outcomes@.len() - i,
    {
        match &outcomes[i] {
            Outcome::Several { fit, .. } => {
                match judge(fit, bounds) {
                    Verdict::Inconsistent | Verdict::Weak => {
                        assert(outcomes@[i as int].draws(bounds));
                        return false;
                    },
                    Verdict::Outside | Verdict::Inside => {},
                }
            },
            _ => {},
        }
        i += 1;
    }
    true
}

/// Solves an input, by the numbers that were worked out for it. A score that is
/// not a number keeps no candidate back: it is refused when the job is completed.
pub fn solve(input: &SolverInput, w: Workings, job_id: i64) -> (r: Result<SolveOutput, Unsolved>)
    ensures
        match r {
            Ok(out) => {
                &&& suspects(*input, w.minus, false).len() <= 64
                &&& belong(w, *input)
                &&& drawable(w.outcomes@, input.event.bounds)
                &&& out.fingerprint@ == fingerprint(
                    encode_utf8(canonical_text(input_json(*input), w.decimals, Quoting::Full)),
                )
                &&& is_outcome(
                    all_results(*input, w),
                    w.apart,
                    w.gaps,
                    input.event.event_id@,
                    job_id as int,
                    kept_pairs(input.evidence@),
                    candidate_views(out.candidates@),
                )
            },
            Err(Unsolved::TooManyReflections) => suspects(*input, w.minus, false).len() > 64,
            Err(Unsolved::OtherNumbers) => suspects(*input, w.minus, false).len() <= 64 && !belong(
                w,
                *input,
            ),
            Err(Unsolved::NoSite) => suspects(*input, w.minus, false).len() <= 64 && belong(
                w,
                *input,
            ) && !drawable(w.outcomes@, input.event.bounds),
        },
{
    let ghost given = w;
    let ghost want = all_results(*input, given);
    let open = unjudged(input, &w.minus);
    assert(texts(open@).len() == open@.len());
    if open.len() > 64 {
        return Err(Unsolved::TooManyReflections);
    }
    let p = plan(input, &w.minus, &w.decimals);
    assert(meas_views(p.measurements@).len() == p.measurements@.len());
    if w.reach.len() != p.measurements.len() || w.outcomes.len() != p.hypotheses.len() {
        return Err(Unsolved::OtherNumbers);
    }
    if !are_fitting(
        &p.hypotheses,
        &p.measurements,
        &w.reach,
        &w.outcomes,
        input.event.bounds,
        Ghost(*input),
        Ghost(w.minus),
    ) {
        return Err(Unsolved::OtherNumbers);
    }
    if !are_drawable(&w.outcomes, input.event.bounds) {
        return Err(Unsolved::NoSite);
    }
    let Workings { minus, decimals: _, reach, mut outcomes, apart, gaps } = w;
    let mut results: Vec<HypResult> = Vec::new();
    let mut i: usize = 0;
    assert(given.outcomes@.skip(0) =~= given.outcomes@);
    while i < p.hypotheses.len()
        invariant
            i <= p.hypotheses@.len() == given.outcomes@.len(),
            p.hypotheses@.len() <= 24,
            are_hypotheses(
                p.hypotheses@,
                suspects(*input, given.minus, true),
                suspects(*input, given.minus, false),
            ),
            meas_views(p.measurements@) == measurements(*input, given.minus),
            meas_views(p.measurements@).len() == p.measurements@.len(),
            reach == given.reach,
            belong(given, *input),
            drawable(given.outcomes@, input.event.bounds),
            want == all_results(*input, given),
            outcomes@ == given.outcomes@.skip(i as int),
            results@.len() == i,
            forall|k: int| 0 <= k < i ==> (#[trigger] results@[k])@ == want[k],
        decreases p.hypotheses@.len() - i,
    {
        proof {
            hypotheses_leave_out(p.hypotheses@, *input, given.minus, i as int);
            assert(given.outcomes@.skip(i as int)[0] == given.outcomes@[i as int]);
        }
        let o = outcomes.remove(0);
        assert(outcomes@ =~= given.outcomes@.skip(i + 1));
        let h = solve_hypothesis(&input.event, &p.measurements, &p.hypotheses[i], &reach, o);
        assert(h@ == want[i as int]);
        results.push(h);
        i += 1;
    }
    assert(result_views(results@) =~= want);
    Ok(conclude(p, results, &apart, &gaps, input.event.event_id.as_str(), job_id))
}

} // verus!
