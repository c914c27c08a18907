//! What holds of every solve.
use vstd::prelude::*;
use vstd::relations::*;
use vstd::utf8::encode_utf8;

use crate::canon::{a_further_item_lengthens, canonical_text, Decimals, Quoting};
use crate::digest::fingerprint;
use crate::figures::{Differences, Distances, Pt};
use crate::geom::{an_outline_is_cut_not_bent, lies_in};
use crate::jobs::written;
use crate::json::JsonView;
use crate::model::{
    CandidateView, ClockSegment, ClockSegmentView, EvidenceRow, LagRow, ObservationRow,
};
use crate::order::mapping_keeps_multisets;
use crate::solver::{
    candidate_id_of, candidate_of, clocks_dominate, complete, distinct, distinct_come_from,
    distinct_is_no_longer, evidence_json, has_result, id_order, id_order_is_in_range, in_hyp_order,
    input_json, is_outcome, is_ranking, kept_marked, lag_json, numbered, objection, objections,
    observation_json, one_for_each, opt_number, outranks, ranked, ranking_holds_the_same,
    ranking_is_in_order, residuals_of, segment_ids, segment_json, segments_json, slot_for,
    tie_marked, unopposed, unopposed_have_no_objection, verdict_on, HypResultView, MeasView,
    Outcome, Reach, SolverEvent, SolverInput, Verdict,
};
use crate::store::{knows_candidate, segment_views, Fault, StoreView};
use crate::store_laws::{new_names_are_not_taken, padded_text_reads_back};
use crate::text::{padded_text, signed_text};

verus! {

proof fn hyp_order_is_unique(
    a: Seq<HypResultView>,
    b: Seq<HypResultView>,
    x: Seq<HypResultView>,
    y: Seq<HypResultView>,
)
    requires
        complete(a),
        a.to_multiset() == b.to_multiset(),
        in_hyp_order(a, x),
        in_hyp_order(b, y),
    ensures
        x == y,
        forall|k: int| 0 <= k < x.len() ==> (#[trigger] x[k]).hyp_index == k,
{
    broadcast use vstd::seq_lib::group_to_multiset_ensures;

    one_for_each(a);
    assert(a.len() == a.to_multiset().len());
    assert(b.len() == b.to_multiset().len());
    assert forall|k: int| 0 <= k < x.len() implies x[k] == y[k] && (#[trigger] x[k]).hyp_index
        == k by {
        assert(has_result(a, k));
        let i = choose|i: int| 0 <= i < a.len() && (#[trigger] a[i]).hyp_index == k;
        assert(x[a[i].hyp_index] == a[i]);
        assert(a.contains(a[i]));
        assert(b.to_multiset().count(a[i]) > 0);
        assert(b.contains(a[i]));
        let j = choose|j: int| 0 <= j < b.len() && b[j] == a[i];
        assert(y[b[j].hyp_index] == b[j]);
    }
    assert(x =~= y);
}

/// Where all scores are numbers, the results that repeat none before them are
/// ranked by score, and those with equal scores by their hypotheses.
pub proof fn results_are_ranked(results: Seq<HypResultView>, apart: Distances)
    requires
        forall|k: int| 0 <= k < results.len() ==> (#[trigger] results[k]).hyp_index == k,
        forall|k: int| 0 <= k < results.len() ==> !(#[trigger] results[k]).candidate.score.nan(),
    ensures
        is_ranking(distinct(results, apart), ranked(distinct(results, apart))),
{
    let kept = distinct(results, apart);
    distinct_come_from(results, apart);
    assert forall|i: int| 0 <= i < kept.len() implies !(
    #[trigger] kept[i]).candidate.score.nan() by {
        assert(results[kept[i].hyp_index] == kept[i]);
    }
    ranking_is_in_order(kept);
}

/// Whatever the scores, no result is ranked twice, and each ranked one is the
/// result of its hypothesis.
proof fn ranked_once(results: Seq<HypResultView>, apart: Distances)
    requires
        forall|k: int| 0 <= k < results.len() ==> (#[trigger] results[k]).hyp_index == k,
    ensures
        ({
            let s = ranked(distinct(results, apart));
            &&& s.len() <= results.len()
            &&& forall|k: int|
                0 <= k < s.len() ==> 0 <= (#[trigger] s[k]).hyp_index < results.len()
                    && results[s[k].hyp_index] == s[k]
            &&& forall|k: int, l: int|
                0 <= k < l < s.len() ==> (#[trigger] s[k]).hyp_index != (
                #[trigger] s[l]).hyp_index
        }),
{
    broadcast use vstd::seq_lib::group_to_multiset_ensures;

    let kept = distinct(results, apart);
    let s = ranked(kept);
    distinct_come_from(results, apart);
    distinct_is_no_longer(results, apart);
    ranking_holds_the_same(kept);
    assert forall|k: int| 0 <= k < s.len() implies 0 <= (#[trigger] s[k]).hyp_index < results.len()
        && results[s[k].hyp_index] == s[k] by {
        assert(s.contains(s[k]));
        assert(kept.to_multiset().count(s[k]) > 0);
        assert(kept.contains(s[k]));
    }
    let ix = |v: HypResultView| v.hyp_index;
    mapping_keeps_multisets(s, kept, ix);
    let (si, ki) = (s.map_values(ix), kept.map_values(ix));
    assert(ki.no_duplicates()) by {
        assert forall|i: int, j: int| 0 <= i < ki.len() && 0 <= j < ki.len() && i != j implies ki[i]
            != ki[j] by {
            if i < j {
                assert(kept[i].hyp_index < kept[j].hyp_index);
            } else {
                assert(kept[j].hyp_index < kept[i].hyp_index);
            }
        }
    }
    ki.lemma_multiset_has_no_duplicates();
    si.lemma_multiset_has_no_duplicates_conv();
    assert forall|k: int, l: int| 0 <= k < l < s.len() implies (#[trigger] s[k]).hyp_index != (
    #[trigger] s[l]).hyp_index by {
        assert(si[k] != si[l]);
    }
}

/// The order in which the hypotheses are finished does not show: the same
/// results in any order lead to the same candidates, with the same ranks and
/// identifiers.
pub proof fn completion_order_does_not_matter(
    a: Seq<HypResultView>,
    b: Seq<HypResultView>,
    apart: Distances,
    minus: Differences,
    event_id: Seq<char>,
    job_id: int,
    ties: Seq<(Seq<char>, Seq<char>)>,
    c: Seq<CandidateView>,
    d: Seq<CandidateView>,
)
    requires
        complete(a),
        a.to_multiset() == b.to_multiset(),
        is_outcome(a, apart, minus, event_id, job_id, ties, c),
        is_outcome(b, apart, minus, event_id, job_id, ties, d),
    ensures
        c == d,
{
    let x = choose|x: Seq<HypResultView>|
        {
            let s = ranked(distinct(x, apart));
            &&& #[trigger] in_hyp_order(a, x)
            &&& c == kept_marked(tie_marked(numbered(s, event_id, job_id), minus), ties)
        };
    let y = choose|y: Seq<HypResultView>|
        {
            let s = ranked(distinct(y, apart));
            &&& #[trigger] in_hyp_order(b, y)
            &&& d == kept_marked(tie_marked(numbered(s, event_id, job_id), minus), ties)
        };
    hyp_order_is_unique(a, b, x, y);
}

/// A solve gives at most one candidate for each hypothesis, ranked from 1 on
/// without gaps, all of one job; and ranking moves no position and changes no
/// residual: each candidate has its shape, position, score and residuals from
/// the result of a hypothesis, and is named by it. Where all scores are numbers,
/// none is above the score of a candidate behind it.
pub proof fn ranking_only_orders_and_marks(
    results: Seq<HypResultView>,
    apart: Distances,
    minus: Differences,
    event_id: Seq<char>,
    job_id: int,
    ties: Seq<(Seq<char>, Seq<char>)>,
    c: Seq<CandidateView>,
)
    requires
        complete(results),
        is_outcome(results, apart, minus, event_id, job_id, ties, c),
    ensures
        c.len() <= results.len(),
        forall|k: int| 0 <= k < c.len() ==>
            (#[trigger] c[k]).rank == k + 1 && c[k].job_id == job_id,
        forall|k: int|
            0 <= k < c.len() ==> exists|i: int|
                0 <= i < results.len() && {
                    let o = (#[trigger] results[i]).candidate;
                    &&& (#[trigger] c[k]).kind == o.kind
                    &&& c[k].point == o.point
                    &&& c[k].curve == o.curve
                    &&& c[k].region == o.region
                    &&& c[k].rms_sec == o.rms_sec
                    &&& c[k].score == o.score
                    &&& c[k].signature == o.signature
                    &&& c[k].residuals == o.residuals
                    &&& c[k].candidate_id == candidate_id_of(
                        event_id,
                        job_id,
                        results[i].hyp_index,
                        results[i].signature,
                    )
                },
        (forall|i: int| 0 <= i < results.len() ==> !(#[trigger] results[i]).candidate.score.nan())
            ==> forall|k: int, l: int|
            0 <= k < l < c.len() ==> (#[trigger] c[k]).score.up_to((#[trigger] c[l]).score),
{
    let x = choose|x: Seq<HypResultView>|
        {
            let s = ranked(distinct(x, apart));
            &&& #[trigger] in_hyp_order(results, x)
            &&& c == kept_marked(tie_marked(numbered(s, event_id, job_id), minus), ties)
        };
    let s = ranked(distinct(x, apart));
    hyp_order_is_unique(results, results, x, x);
    ranked_once(x, apart);
    one_for_each(results);
    assert forall|k: int| 0 <= k < c.len() implies exists|i: int|
        0 <= i < results.len() && {
            let o = (#[trigger] results[i]).candidate;
            &&& (#[trigger] c[k]).kind == o.kind
            &&& c[k].point == o.point
            &&& c[k].curve == o.curve
            &&& c[k].region == o.region
            &&& c[k].rms_sec == o.rms_sec
            &&& c[k].score == o.score
            &&& c[k].signature == o.signature
            &&& c[k].residuals == o.residuals
            &&& c[k].candidate_id == candidate_id_of(
                event_id,
                job_id,
                results[i].hyp_index,
                results[i].signature,
            )
        } by {
        let h = s[k].hyp_index;
        assert(x[h] == s[k]);
        assert(has_result(results, h));
        let i = choose|i: int| 0 <= i < results.len() && (#[trigger] results[i]).hyp_index == h;
        assert(x[results[i].hyp_index] == results[i]);
        assert(results[i] == s[k]);
    }
    if forall|i: int| 0 <= i < results.len() ==> !(#[trigger] results[i]).candidate.score.nan() {
        assert forall|k: int| 0 <= k < x.len() implies !(
        #[trigger] x[k]).candidate.score.nan() by {
            assert(has_result(results, k));
            let i = choose|i: int| 0 <= i < results.len() && (#[trigger] results[i]).hyp_index == k;
            assert(x[results[i].hyp_index] == results[i]);
        }
        results_are_ranked(x, apart);
        assert forall|k: int, l: int| 0 <= k < l < c.len() implies (#[trigger] c[k]).score.up_to(
            (#[trigger] c[l]).score,
        ) by {
            assert(outranks(s[k], s[l]));
            assert(c[k].score == s[k].candidate.score && c[l].score == s[l].candidate.score);
            assert(x[s[k].hyp_index] == s[k] && x[s[l].hyp_index] == s[l]);
        }
    }
}

/// Two hypotheses of one event and job have different names.
pub proof fn hypotheses_have_different_names(
    event_id: Seq<char>,
    job_id: int,
    i: int,
    s: Seq<char>,
    j: int,
    t: Seq<char>,
)
    requires
        0 <= i,
        0 <= j,
        i != j,
    ensures
        candidate_id_of(event_id, job_id, i, s) != candidate_id_of(event_id, job_id, j, t),
{
    reveal_strlit(":");
    let x = padded_text((i + 1) as nat, 2);
    let y = padded_text((j + 1) as nat, 2);
    padded_text_reads_back((i + 1) as nat, 2);
    padded_text_reads_back((j + 1) as nat, 2);
    let front = "cand-"@ + event_id + ":j"@ + signed_text(job_id) + ":"@;
    let n = front.len() as int;
    let a = candidate_id_of(event_id, job_id, i, s);
    let b = candidate_id_of(event_id, job_id, j, t);
    assert(a =~= front + x + ":"@ + fingerprint(encode_utf8(s)).take(8));
    assert(b =~= front + y + ":"@ + fingerprint(encode_utf8(t)).take(8));
    assert(a[n + x.len()] == ':');
    assert(b[n + y.len()] == ':');
    if a == b {
        if x.len() < y.len() {
            assert(b[n + x.len()] == y[x.len() as int]);
        } else if y.len() < x.len() {
            assert(a[n + y.len()] == x[y.len() as int]);
        }
        assert forall|k: int| 0 <= k < x.len() implies x[k] == y[k] by {
            assert(a[n + k] == x[k]);
            assert(b[n + k] == y[k]);
        }
        assert(x =~= y);
    }
}

/// The candidates of one solve have different names, so that writing them down
/// is not refused for a name that another of them has.
pub proof fn candidates_have_different_names(
    results: Seq<HypResultView>,
    apart: Distances,
    minus: Differences,
    event_id: Seq<char>,
    job_id: int,
    ties: Seq<(Seq<char>, Seq<char>)>,
    c: Seq<CandidateView>,
)
    requires
        complete(results),
        is_outcome(results, apart, minus, event_id, job_id, ties, c),
    ensures
        forall|k: int, l: int|
            0 <= k < l < c.len() ==> (#[trigger] c[k]).candidate_id != (
            #[trigger] c[l]).candidate_id,
        forall|v: StoreView|
            (forall|k: int|
                0 <= k < c.len() ==> !knows_candidate(
                    v.candidates,
                    (#[trigger] c[k]).candidate_id,
                )) ==> #[trigger] written(v, c, job_id, c.len() as int) != Err::<
                Seq<CandidateView>,
                Fault,
            >(Fault::TakenCandidate),
{
    let x = choose|x: Seq<HypResultView>|
        {
            let s = ranked(distinct(x, apart));
            &&& #[trigger] in_hyp_order(results, x)
            &&& c == kept_marked(tie_marked(numbered(s, event_id, job_id), minus), ties)
        };
    let s = ranked(distinct(x, apart));
    hyp_order_is_unique(results, results, x, x);
    ranked_once(x, apart);
    assert forall|k: int, l: int| 0 <= k < l < c.len() implies (#[trigger] c[k]).candidate_id != (
    #[trigger] c[l]).candidate_id by {
        assert(s[k].hyp_index != s[l].hyp_index);
        hypotheses_have_different_names(
            event_id,
            job_id,
            s[k].hyp_index,
            s[k].signature,
            s[l].hyp_index,
            s[l].signature,
        );
    }
    assert forall|v: StoreView|
        (forall|k: int|
            0 <= k < c.len() ==> !knows_candidate(v.candidates, (#[trigger] c[k]).candidate_id))
        implies #[trigger] written(v, c, job_id, c.len() as int) != Err::<
        Seq<CandidateView>,
        Fault,
    >(Fault::TakenCandidate) by {
        new_names_are_not_taken(v, c, job_id, c.len() as int);
    }
}

/// Where no measurement is left the whole site remains, and where one is left
/// its curve; neither is ever a position. The reason is a delay that sound
/// cannot cover, clocks that are not locked, or else where the sensors stand.
pub proof fn too_little_gives_no_position(
    event: SolverEvent,
    meas: Seq<MeasView>,
    excluded: Seq<Seq<char>>,
    signature: Seq<char>,
    reach: Seq<Reach>,
    outcome: Outcome,
)
    requires
        outcome.fits(unopposed(objections(meas, excluded, reach)).len(), meas.len()),
        unopposed(objections(meas, excluded, reach)).len() <= 1,
    ensures
        ({
            let c = candidate_of(event, meas, excluded, signature, reach, outcome);
            let list = objections(meas, excluded, reach);
            let b = event.bounds;
            &&& c.point is None
            &&& unopposed(list).len() == 0 ==> {
                &&& c.kind == "region"@
                &&& c.curve is None
                &&& c.region matches Some(r) && r.kind == "site"@ && r.polygon == seq![
                    Pt { x: b.min_x, y: b.min_y },
                    Pt { x: b.max_x, y: b.min_y },
                    Pt { x: b.max_x, y: b.max_y },
                    Pt { x: b.min_x, y: b.max_y },
                ]
                &&& c.underdetermined == if list.contains(Some("superluminal_lag"@)) {
                    "unobservable_input"@
                } else if clocks_dominate(meas) {
                    "clock_freedom"@
                } else {
                    "sensor_geometry"@
                }
            }
            &&& unopposed(list).len() == 1 ==> {
                &&& c.kind == "curve"@
                &&& c.region is None
                &&& c.underdetermined == "sensor_geometry"@
                &&& c.curve matches Some(k) ==> k.focus_a == meas[unopposed(list)[0]].a
                    && k.focus_b == meas[unopposed(list)[0]].b && (forall|p: Pt| #[trigger]
                    k.points.contains(p) ==> lies_in(p, b))
            }
        }),
{
    if unopposed(objections(meas, excluded, reach)).len() == 1 {
        an_outline_is_cut_not_bent(outcome->arc.samples@, event.bounds);
    }
}

/// A position on the site ranks before everything else: before positions off the
/// site, before what the measurements do not fix, and before what they
/// contradict.
pub proof fn positions_on_the_site_rank_first(
    event: SolverEvent,
    meas: Seq<MeasView>,
    reach: Seq<Reach>,
    excluded: Seq<Seq<char>>,
    signature: Seq<char>,
    outcome: Outcome,
    other_excluded: Seq<Seq<char>>,
    other_signature: Seq<char>,
    other: Outcome,
)
    requires
        outcome is Several,
        verdict_on(outcome->fit, event.bounds) == Verdict::Inside,
        other is Several ==> verdict_on(other->fit, event.bounds) != Verdict::Inside,
        other.weighs(event.bounds),
    ensures
        ({
            let c = candidate_of(event, meas, excluded, signature, reach, outcome);
            let d = candidate_of(event, meas, other_excluded, other_signature, reach, other);
            !c.score.nan() && !d.score.nan() ==> c.score.below(d.score)
        }),
{
}

/// A position is reported exactly where it was found or, where nothing
/// satisfies the measurements, not at all. It is called a point without
/// reservation only if it lies on the site; outside it is marked as such.
pub proof fn positions_are_not_moved(
    event: SolverEvent,
    meas: Seq<MeasView>,
    excluded: Seq<Seq<char>>,
    signature: Seq<char>,
    reach: Seq<Reach>,
    outcome: Outcome,
)
    requires
        outcome is Several,
    ensures
        ({
            let c = candidate_of(event, meas, excluded, signature, reach, outcome);
            let at = outcome->fit.at;
            let v = verdict_on(outcome->fit, event.bounds);
            &&& c.point == if v == Verdict::Inconsistent {
                None
            } else {
                Some(at)
            }
            &&& v == Verdict::Inside ==> lies_in(at, event.bounds) && c.kind == "point"@
                && c.underdetermined == ""@
            &&& v == Verdict::Outside ==> !lies_in(at, event.bounds) && c.kind == "point"@
                && c.underdetermined == "outside_observable_geometry"@
            &&& c.underdetermined == ""@ ==> lies_in(at, event.bounds)
        }),
{
    reveal_strlit("");
    reveal_strlit("outside_observable_geometry");
    reveal_strlit("sensor_geometry");
    reveal_strlit("multipath");
    reveal_strlit("inconsistent_measurements");
    assert(""@.len() == 0);
    assert("outside_observable_geometry"@.len() > 0);
    assert("sensor_geometry"@.len() > 0);
    assert("multipath"@.len() > 0);
    assert("inconsistent_measurements"@.len() > 0);
}

/// A measurement takes part exactly where nothing speaks against it. A delay
/// that sound cannot cover, an onset whose clocks are not locked and a delay
/// that the hypothesis leaves out take no part, and are listed as unused with
/// the reason.
pub proof fn what_is_set_aside_takes_no_part(
    meas: Seq<MeasView>,
    excluded: Seq<Seq<char>>,
    reach: Seq<Reach>,
    i: int,
)
    requires
        0 <= i < meas.len(),
    ensures
        unopposed(objections(meas, excluded, reach)).contains(i) <==> objection(
            meas[i],
            excluded,
            reach[i],
        ) is None,
        reach[i].limit.below(reach[i].range) ==> !unopposed(
            objections(meas, excluded, reach),
        ).contains(i),
        meas[i].kind == "onset_pair"@ && !meas[i].clock_locked ==> !unopposed(
            objections(meas, excluded, reach),
        ).contains(i),
        meas[i].lag_uid matches Some(uid) && excluded.contains(uid) ==> !unopposed(
            objections(meas, excluded, reach),
        ).contains(i),
        residuals_of(meas, None, objections(meas, excluded, reach))[i].used <==> unopposed(
            objections(meas, excluded, reach),
        ).contains(i),
        residuals_of(meas, None, objections(meas, excluded, reach))[i].excluded_reason == objection(
            meas[i],
            excluded,
            reach[i],
        ),
{
    let list = objections(meas, excluded, reach);
    unopposed_have_no_objection(list);
    assert(list[i] == objection(meas[i], excluded, reach[i]));
    if unopposed(list).contains(i) {
        let k = choose|k: int| 0 <= k < unopposed(list).len() && unopposed(list)[k] == i;
        assert(list[unopposed(list)[k]] is None);
    }
}

proof fn slots_split_the_order(ids: Seq<i64>, order: Seq<int>, id: i64)
    ensures
        0 <= slot_for(ids, order, id) <= order.len(),
        forall|k: int| 0 <= k < slot_for(ids, order, id) ==> ids[#[trigger] order[k]] <= id,
        slot_for(ids, order, id) < order.len() ==> ids[order[slot_for(ids, order, id)]] > id,
    decreases order.len(),
{
    if order.len() > 0 && ids[order[0]] <= id {
        let rest = order.drop_first();
        slots_split_the_order(ids, rest, id);
        let n = slot_for(ids, order, id);
        assert forall|k: int| 0 <= k < n implies ids[#[trigger] order[k]] <= id by {
            if k > 0 {
                assert(order[k] == rest[k - 1]);
            }
        }
        if n < order.len() {
            assert(order[n] == rest[n - 1]);
        }
    }
}

/// The order lists every position once, by ascending identifiers.
proof fn id_order_ascends(segs: Seq<(ClockSegmentView, int)>, ids: Seq<i64>, n: int)
    requires
        0 <= n <= ids.len() == segs.len(),
    ensures
        forall|j: int, k: int|
            0 <= j < k < id_order(ids, n).len() ==> ids[#[trigger] id_order(ids, n)[j]]
                <= ids[#[trigger] id_order(ids, n)[k]],
        id_order(ids, n).map_values(|i: int| segs[i]).to_multiset() == segs.take(n).to_multiset(),
    decreases n,
{
    broadcast use vstd::seq_lib::group_to_multiset_ensures;

    let f = |i: int| segs[i];
    if n > 0 {
        let before = id_order(ids, n - 1);
        let now = id_order(ids, n);
        let id = ids[n - 1];
        id_order_ascends(segs, ids, n - 1);
        slots_split_the_order(ids, before, id);
        let at = slot_for(ids, before, id);
        assert(now =~= before.insert(at, n - 1));
        assert forall|j: int, k: int| 0 <= j < k < now.len() implies ids[#[trigger] now[j]]
            <= ids[#[trigger] now[k]] by {
            let old_j = if j < at {
                j
            } else {
                j - 1
            };
            let old_k = if k < at {
                k
            } else {
                k - 1
            };
            if j != at {
                assert(now[j] == before[old_j]);
            }
            if k != at {
                assert(now[k] == before[old_k]);
            }
            if j == at {
                if at < old_k {
                    assert(ids[before[at]] <= ids[before[old_k]]);
                }
            } else if k == at {
                assert(ids[before[j]] <= id);
            } else {
                assert(ids[before[old_j]] <= ids[before[old_k]]);
            }
        }
        assert(now.map_values(f) =~= before.map_values(f).insert(at, segs[n - 1]));
        assert(segs.take(n) =~= segs.take(n - 1).push(segs[n - 1]));
    } else {
        assert(id_order(ids, n).map_values(f) =~= segs.take(n));
    }
}

/// What a clock segment is hashed as.
spec fn hashed_as(s: (ClockSegmentView, int)) -> JsonView {
    JsonView::Object(
        seq![
            ("id"@, JsonView::Int(s.1)),
            ("station"@, JsonView::Text(s.0.station_id)),
            ("start"@, JsonView::Float(s.0.t_start)),
            ("end"@, opt_number(s.0.t_end)),
            ("offset"@, JsonView::Float(s.0.offset_sec)),
        ],
    )
}

/// The order in which the clock segments are listed does not show in what the
/// fingerprint is taken of, as long as their identifiers differ.
pub proof fn the_order_of_segments_does_not_matter(
    a: Seq<(ClockSegment, i64)>,
    b: Seq<(ClockSegment, i64)>,
)
    requires
        segment_views(a).to_multiset() == segment_views(b).to_multiset(),
        segment_ids(a).no_duplicates(),
    ensures
        segments_json(a) == segments_json(b),
{
    broadcast use vstd::seq_lib::group_to_multiset_ensures;

    let (va, vb) = (segment_views(a), segment_views(b));
    let (ia, ib) = (segment_ids(a), segment_ids(b));
    assert(va.len() == va.to_multiset().len());
    assert(vb.len() == vb.to_multiset().len());
    let (oa, ob) = (id_order(ia, a.len() as int), id_order(ib, b.len() as int));
    id_order_is_in_range(ia, a.len() as int);
    id_order_is_in_range(ib, b.len() as int);
    id_order_ascends(va, ia, a.len() as int);
    id_order_ascends(vb, ib, b.len() as int);
    assert(va.take(a.len() as int) =~= va);
    assert(vb.take(b.len() as int) =~= vb);
    let x = oa.map_values(|i: int| va[i]);
    let y = ob.map_values(|i: int| vb[i]);
    let key = |s: (ClockSegmentView, int)| s.1;
    let leq = |m: int, n: int| m <= n;
    mapping_keeps_multisets(x, y, key);
    let (kx, ky) = (x.map_values(key), y.map_values(key));
    assert(sorted_by(kx, leq)) by {
        assert forall|i: int, j: int| 0 <= i < j < kx.len() implies #[trigger] leq(
            kx[i],
            kx[j],
        ) by {
            assert(ia[oa[i]] <= ia[oa[j]]);
        }
    }
    assert(sorted_by(ky, leq)) by {
        assert forall|i: int, j: int| 0 <= i < j < ky.len() implies #[trigger] leq(
            ky[i],
            ky[j],
        ) by {
            assert(ib[ob[i]] <= ib[ob[j]]);
        }
    }
    assert(total_ordering(leq));
    vstd::seq_lib::lemma_sorted_unique(kx, ky, leq);
    assert forall|i: int| 0 <= i < x.len() implies x[i] == y[i] by {
        assert(kx[i] == ky[i]);
        assert(y.contains(y[i]));
        assert(va.to_multiset().count(y[i]) > 0);
        assert(va.contains(y[i]));
        let k = choose|k: int| 0 <= k < va.len() && va[k] == y[i];
        let l = oa[i];
        assert(x[i] == va[l]);
        assert(ia[k] == ia[l]);
        assert(k == l);
    }
    assert(x =~= y);
    let f = |i: int| segment_json(a[i]);
    let g = |i: int| segment_json(b[i]);
    assert forall|i: int| 0 <= i < oa.len() implies oa.map_values(f)[i] == ob.map_values(g)[i] by {
        assert(hashed_as(x[i]) == segment_json(a[oa[i]]));
        assert(hashed_as(y[i]) == segment_json(b[ob[i]]));
    }
    assert(oa.map_values(f) =~= ob.map_values(g));
}

/// An input has the fingerprint of one that lists the same clock segments in
/// another order, as long as their identifiers differ.
pub proof fn segment_order_does_not_change_the_fingerprint(
    a: SolverInput,
    b: SolverInput,
    d: Decimals,
)
    requires
        a.event == b.event,
        a.stations@ == b.stations@,
        a.observations@ == b.observations@,
        a.lags@ == b.lags@,
        a.evidence@ == b.evidence@,
        segment_views(a.clock_segments@).to_multiset() == segment_views(
            b.clock_segments@,
        ).to_multiset(),
        segment_ids(a.clock_segments@).no_duplicates(),
    ensures
        fingerprint(encode_utf8(canonical_text(input_json(a), d, Quoting::Full))) == fingerprint(
            encode_utf8(canonical_text(input_json(b), d, Quoting::Full)),
        ),
{
    the_order_of_segments_does_not_matter(a.clock_segments@, b.clock_segments@);
    assert(input_json(a) == input_json(b));
}

/// Two inputs differ at most in their observations, delays and evidence.
pub open spec fn same_setting(a: SolverInput, b: SolverInput) -> bool {
    &&& a.event == b.event
    &&& a.stations@ == b.stations@
    &&& a.clock_segments@ == b.clock_segments@
}

/// A further observation, wherever it stands in the list, changes what the
/// fingerprint is taken of.
pub proof fn a_new_observation_changes_what_is_hashed(
    a: SolverInput,
    b: SolverInput,
    at: int,
    o: ObservationRow,
    d: Decimals,
)
    requires
        same_setting(a, b),
        a.lags@ == b.lags@,
        a.evidence@ == b.evidence@,
        0 <= at <= a.observations@.len(),
        b.observations@ == a.observations@.insert(at, o),
    ensures
        encode_utf8(canonical_text(input_json(a), d, Quoting::Full)) != encode_utf8(
            canonical_text(input_json(b), d, Quoting::Full),
        ),
{
    let f = |o: ObservationRow| observation_json(o);
    let items = a.observations@.map_values(f);
    assert(b.observations@.map_values(f) =~= items.insert(at, observation_json(o)));
    let x = input_json(a)->Object_0;
    let y = input_json(b)->Object_0;
    assert(y =~= x.update(6, (x[6].0, JsonView::Array(items.insert(at, observation_json(o))))));
    a_further_item_lengthens(x, y, 6, items, at, observation_json(o), d, Quoting::Full);
}

/// A further delay changes what the fingerprint is taken of.
pub proof fn a_new_delay_changes_what_is_hashed(
    a: SolverInput,
    b: SolverInput,
    at: int,
    l: LagRow,
    d: Decimals,
)
    requires
        same_setting(a, b),
        a.observations@ == b.observations@,
        a.evidence@ == b.evidence@,
        0 <= at <= a.lags@.len(),
        b.lags@ == a.lags@.insert(at, l),
    ensures
        encode_utf8(canonical_text(input_json(a), d, Quoting::Full)) != encode_utf8(
            canonical_text(input_json(b), d, Quoting::Full),
        ),
{
    let f = |l: LagRow| lag_json(l);
    let items = a.lags@.map_values(f);
    assert(b.lags@.map_values(f) =~= items.insert(at, lag_json(l)));
    let x = input_json(a)->Object_0;
    let y = input_json(b)->Object_0;
    assert(y =~= x.update(7, (x[7].0, JsonView::Array(items.insert(at, lag_json(l))))));
    a_further_item_lengthens(x, y, 7, items, at, lag_json(l), d, Quoting::Full);
}

/// Further evidence changes what the fingerprint is taken of.
pub proof fn new_evidence_changes_what_is_hashed(
    a: SolverInput,
    b: SolverInput,
    at: int,
    e: EvidenceRow,
    d: Decimals,
)
    requires
        same_setting(a, b),
        a.observations@ == b.observations@,
        a.lags@ == b.lags@,
        0 <= at <= a.evidence@.len(),
        b.evidence@ == a.evidence@.insert(at, e),
    ensures
        encode_utf8(canonical_text(input_json(a), d, Quoting::Full)) != encode_utf8(
            canonical_text(input_json(b), d, Quoting::Full),
        ),
{
    let f = |e: EvidenceRow| evidence_json(e);
    let items = a.evidence@.map_values(f);
    assert(b.evidence@.map_values(f) =~= items.insert(at, evidence_json(e)));
    let x = input_json(a)->Object_0;
    let y = input_json(b)->Object_0;
    assert(y =~= x.update(8, (x[8].0, JsonView::Array(items.insert(at, evidence_json(e))))));
    a_further_item_lengthens(x, y, 8, items, at, evidence_json(e), d, Quoting::Full);
}

} // verus!
