//! What the hypotheses of a solve are, and what becomes of their results.
use vstd::arithmetic::power2::{lemma_pow2_pos, lemma_pow2_unfold, pow2};
use vstd::prelude::*;

use crate::double::Double;
use crate::figures::{Differences, Distances};
use crate::json::JsonView;
use crate::measurement_laws::{
    is_delay, is_entered, is_onset_pair, measurements_have_sources, sources_are,
};
use crate::model::{CandidateView, EvidenceRow};
use crate::solver::{
    are_hypotheses, best_trial, bit_clear, distinct, has_candidate, hypothesis_count, kept_by_pair,
    kept_marked, kept_pair, kept_pairs, leaves_out, marked, measurements, numbered, ranked,
    ranking_is_in_order, reflections, repeats, subsets, suspects, texts_among, tie_marked,
    HypResultView, Hypothesis, MeasView, SolverInput, Trial,
};
use crate::text::{joined_text, text_lt, text_order_is_total, text_order_is_transitive, texts};
use crate::textset::{ascending, lists_set};

verus! {

// ---------- Ranking ----------

/// Where all scores are numbers, of two results the one with the smaller score
/// ranks first, and of two with equal scores the one of the earlier hypothesis.
pub proof fn smaller_scores_rank_first(kept: Seq<HypResultView>, i: int, j: int)
    requires
        forall|k: int| 0 <= k < kept.len() ==> !(#[trigger] kept[k]).candidate.score.nan(),
        forall|k: int, l: int|
            0 <= k < l < kept.len() ==> (#[trigger] kept[k]).hyp_index < (
            #[trigger] kept[l]).hyp_index,
        0 <= i < j < ranked(kept).len(),
    ensures
        ranked(kept).to_multiset() == kept.to_multiset(),
        ranked(kept)[i].candidate.score.below(ranked(kept)[j].candidate.score) || (
        ranked(kept)[i].candidate.score.same_number(ranked(kept)[j].candidate.score)
            && ranked(kept)[i].hyp_index < ranked(kept)[j].hyp_index),
{
    broadcast use vstd::seq_lib::group_to_multiset_ensures;

    ranking_is_in_order(kept);
    let s = ranked(kept);
    assert(crate::solver::outranks(s[i], s[j]));
    assert(s.contains(s[i]) && s.contains(s[j]));
    assert(kept.to_multiset().count(s[i]) > 0 && kept.to_multiset().count(s[j]) > 0);
    assert(kept.contains(s[i]) && kept.contains(s[j]));
}

/// Two results are one position: both have a point, and less than 5 cm lie
/// between the two.
pub open spec fn is_one_position(d: HypResultView, r: HypResultView, apart: Distances) -> bool {
    d.candidate.point is Some && r.candidate.point is Some && apart.distance(
        d.candidate.point->0,
        r.candidate.point->0,
    ).below(Double { bits: 0x3fa9_9999_9999_999a })
}

/// Two results are one choice: not both have a point, and they leave out the
/// same delays by name.
pub open spec fn is_one_choice(d: HypResultView, r: HypResultView) -> bool {
    !(d.candidate.point is Some && r.candidate.point is Some) && d.signature == r.signature
}

/// What is kept of the results holds no two that are one position or one
/// choice.
pub proof fn what_is_kept_repeats_nothing(results: Seq<HypResultView>, apart: Distances)
    ensures
        ({
            let kept = distinct(results, apart);
            forall|i: int, j: int|
                0 <= i < j < kept.len() ==> !is_one_position(
                    #[trigger] kept[i],
                    #[trigger] kept[j],
                    apart,
                ) && !is_one_choice(kept[i], kept[j])
        }),
    decreases results.len(),
{
    if results.len() > 0 {
        what_is_kept_repeats_nothing(results.drop_last(), apart);
        let before = distinct(results.drop_last(), apart);
        let kept = distinct(results, apart);
        assert forall|i: int, j: int| 0 <= i < j < kept.len() implies !is_one_position(
            #[trigger] kept[i],
            #[trigger] kept[j],
            apart,
        ) && !is_one_choice(kept[i], kept[j]) by {
            assert(kept[i] == before[i]);
            if j < before.len() {
                assert(kept[j] == before[j]);
            } else {
                assert(!repeats(before[i], results.last(), apart));
            }
        }
    }
}

/// Every result is kept, or is one position or one choice with one that is
/// kept. The first is always kept, and nothing else is among what is kept.
pub proof fn what_is_dropped_repeats_something(
    results: Seq<HypResultView>,
    apart: Distances,
    k: int,
)
    requires
        0 <= k < results.len(),
    ensures
        distinct(results, apart).contains(results[k]) || exists|i: int|
            0 <= i < distinct(results, apart).len() && (is_one_position(
                #[trigger] distinct(results, apart)[i],
                results[k],
                apart,
            ) || is_one_choice(distinct(results, apart)[i], results[k])),
        distinct(results, apart).len() > 0,
        distinct(results, apart)[0] == results[0],
        forall|i: int|
            0 <= i < distinct(results, apart).len() ==> results.contains(
                #[trigger] distinct(results, apart)[i],
            ),
    decreases results.len(),
{
    let rest = results.drop_last();
    let before = distinct(rest, apart);
    let kept = distinct(results, apart);
    let x = results.last();
    if rest.len() > 0 {
        let m = if k < rest.len() {
            k
        } else {
            0
        };
        what_is_dropped_repeats_something(rest, apart, m);
        assert(rest[0] == results[0]);
        assert forall|i: int| 0 <= i < before.len() implies kept[i] == #[trigger] before[i] by {}
    } else {
        assert(before.len() == 0);
    }
    if k < rest.len() {
        assert(rest[k] == results[k]);
        if before.contains(results[k]) {
            let i = choose|i: int| 0 <= i < before.len() && before[i] == results[k];
            assert(kept[i] == results[k]);
        } else {
            let i = choose|i: int|
                0 <= i < before.len() && (is_one_position(#[trigger] before[i], rest[k], apart)
                    || is_one_choice(before[i], rest[k]));
            assert(kept[i] == before[i]);
        }
    } else {
        if kept.len() > before.len() {
            assert(kept[before.len() as int] == x);
        } else {
            let i = choose|i: int|
                0 <= i < before.len() && repeats(#[trigger] before[i], x, apart);
            assert(kept[i] == before[i]);
        }
    }
    assert forall|i: int| 0 <= i < kept.len() implies results.contains(#[trigger] kept[i]) by {
        if i < before.len() {
            assert(rest.contains(before[i]));
            let j = choose|j: int| 0 <= j < rest.len() && rest[j] == before[i];
            assert(results[j] == kept[i]);
        } else {
            assert(results[results.len() - 1] == kept[i]);
        }
    }
}

// ---------- Marks ----------

/// The first two of a ranking cannot be told apart: both are points, and less
/// than 0.8 ms lie between their scores.
pub open spec fn cannot_be_told_apart(s: Seq<HypResultView>, minus: Differences) -> bool {
    &&& s.len() >= 2
    &&& s[0].candidate.kind == "point"@
    &&& s[1].candidate.kind == "point"@
    &&& minus.difference(s[0].candidate.score, s[1].candidate.score).size().below(
        Double { bits: 0x3f4a_36e2_eb1c_432d },
    )
}

/// A pair of names holds this one, and candidates with both names are listed.
pub open spec fn is_kept_with_its_like(
    c: Seq<CandidateView>,
    ties: Seq<(Seq<char>, Seq<char>)>,
    id: Seq<char>,
) -> bool {
    exists|t: int|
        0 <= t < ties.len() && ((#[trigger] ties[t]).0 == id || ties[t].1 == id) && (exists|k: int|
            0 <= k < c.len() && (#[trigger] c[k]).candidate_id == ties[t].0) && (exists|k: int|
            0 <= k < c.len() && (#[trigger] c[k]).candidate_id == ties[t].1)
}

/// A candidate that an analyst keeps together with another that is listed is
/// marked so; the first two that cannot be told apart are marked as a pair; and
/// every other one has the reason of its result. Nothing else of a result
/// changes but its rank, its job and its name.
pub proof fn marks_say_what_cannot_be_told_apart(
    s: Seq<HypResultView>,
    minus: Differences,
    event_id: Seq<char>,
    job_id: int,
    ties: Seq<(Seq<char>, Seq<char>)>,
    k: int,
)
    requires
        0 <= k < s.len(),
    ensures
        ({
            let c = kept_marked(tie_marked(numbered(s, event_id, job_id), minus), ties);
            let kept = is_kept_with_its_like(c, ties, c[k].candidate_id);
            let pair = k < 2 && cannot_be_told_apart(s, minus);
            let r = s[k].candidate;
            &&& c.len() == s.len()
            &&& kept ==> c[k].underdetermined == "kept_indistinguishable"@
            &&& !kept && pair ==> c[k].underdetermined == "ambiguous_pair"@
            &&& !kept && !pair ==> c[k].underdetermined == r.underdetermined
            &&& c[k].rank == k + 1
            &&& c[k].job_id == job_id
            &&& c[k].kind == r.kind
            &&& c[k].point == r.point
            &&& c[k].curve == r.curve
            &&& c[k].region == r.region
            &&& c[k].rms_sec == r.rms_sec
            &&& c[k].score == r.score
            &&& c[k].signature == r.signature
            &&& c[k].residuals == r.residuals
        }),
{
    let a = tie_marked(numbered(s, event_id, job_id), minus);
    let c = kept_marked(a, ties);
    assert forall|i: int| 0 <= i < c.len() implies (#[trigger] c[i]).candidate_id
        == a[i].candidate_id by {}
    let id = c[k].candidate_id;
    if kept_by_pair(a, ties, id) {
        let t = choose|t: int|
            0 <= t < ties.len() && has_candidate(a, (#[trigger] ties[t]).0) && has_candidate(
                a,
                ties[t].1,
            ) && (ties[t].0 == id || ties[t].1 == id);
        let x = choose|x: int| 0 <= x < a.len() && (#[trigger] a[x]).candidate_id == ties[t].0;
        let y = choose|y: int| 0 <= y < a.len() && (#[trigger] a[y]).candidate_id == ties[t].1;
        assert(c[x].candidate_id == ties[t].0);
        assert(c[y].candidate_id == ties[t].1);
        assert(is_kept_with_its_like(c, ties, id));
    }
    if is_kept_with_its_like(c, ties, id) {
        let t = choose|t: int|
            0 <= t < ties.len() && ((#[trigger] ties[t]).0 == id || ties[t].1 == id) && (exists|
                k: int,
            |
                0 <= k < c.len() && (#[trigger] c[k]).candidate_id == ties[t].0) && (exists|k: int|
                0 <= k < c.len() && (#[trigger] c[k]).candidate_id == ties[t].1);
        let x = choose|x: int| 0 <= x < c.len() && (#[trigger] c[x]).candidate_id == ties[t].0;
        let y = choose|y: int| 0 <= y < c.len() && (#[trigger] c[y]).candidate_id == ties[t].1;
        assert(a[x].candidate_id == ties[t].0);
        assert(a[y].candidate_id == ties[t].1);
        assert(has_candidate(a, ties[t].0) && has_candidate(a, ties[t].1));
        assert(kept_by_pair(a, ties, id));
    }
}

/// Evidence keeps two candidates: its kind is `keep_ambiguous`, and its payload
/// lists exactly the two names.
pub open spec fn keeps_the_two(e: EvidenceRow, a: Seq<char>, b: Seq<char>) -> bool {
    &&& e.kind@ == "keep_ambiguous"@
    &&& e.payload@.member("candidate_ids"@) == Some(
        JsonView::Array(seq![JsonView::Text(a), JsonView::Text(b)]),
    )
}

/// Two candidates that a piece of evidence keeps are among the pairs to keep, in
/// the order in which it names them.
pub proof fn pairs_to_keep_come_from_evidence(
    evidence: Seq<EvidenceRow>,
    i: int,
    a: Seq<char>,
    b: Seq<char>,
)
    requires
        0 <= i < evidence.len(),
        keeps_the_two(evidence[i], a, b),
    ensures
        kept_pairs(evidence).contains((a, b)),
    decreases evidence.len(),
{
    let now = kept_pairs(evidence);
    let before = kept_pairs(evidence.drop_last());
    if i < evidence.len() - 1 {
        pairs_to_keep_come_from_evidence(evidence.drop_last(), i, a, b);
        let k = choose|k: int| 0 <= k < before.len() && before[k] == (a, b);
        assert(now[k] == (a, b));
    } else {
        two_texts_are_two(a, b);
        assert(kept_pair(evidence.last()) == Some((a, b)));
        assert(now[before.len() as int] == (a, b));
    }
}

proof fn two_texts_are_two(a: Seq<char>, b: Seq<char>)
    ensures
        texts_among(seq![JsonView::Text(a), JsonView::Text(b)]) == seq![a, b],
{
    let items = seq![JsonView::Text(a), JsonView::Text(b)];
    let one = items.drop_last();
    assert(one =~= seq![JsonView::Text(a)]);
    assert(one.drop_last() =~= Seq::empty());
    assert(texts_among(one.drop_last()) =~= Seq::<Seq<char>>::empty());
    assert(one.last() == JsonView::Text(a));
    assert(texts_among(one) =~= seq![a]);
    assert(items.last() == JsonView::Text(b));
    assert(texts_among(items) =~= seq![a, b]);
}

/// A pair to keep comes from a piece of evidence of its kind that names both.
pub proof fn no_pair_is_kept_without_evidence(
    evidence: Seq<EvidenceRow>,
    a: Seq<char>,
    b: Seq<char>,
)
    requires
        kept_pairs(evidence).contains((a, b)),
    ensures
        exists|i: int|
            0 <= i < evidence.len() && (#[trigger] evidence[i]).kind@ == "keep_ambiguous"@ && ({
                let v = evidence[i].payload@.member("candidate_ids"@);
                v is Some && v->0 is Array && v->0->Array_0.contains(JsonView::Text(a))
                    && v->0->Array_0.contains(JsonView::Text(b))
            }),
    decreases evidence.len(),
{
    let now = kept_pairs(evidence);
    let rest = evidence.drop_last();
    let before = kept_pairs(rest);
    let n = evidence.len() - 1;
    if before.contains((a, b)) {
        no_pair_is_kept_without_evidence(rest, a, b);
        let i = choose|i: int|
            0 <= i < rest.len() && (#[trigger] rest[i]).kind@ == "keep_ambiguous"@ && ({
                let v = rest[i].payload@.member("candidate_ids"@);
                v is Some && v->0 is Array && v->0->Array_0.contains(JsonView::Text(a))
                    && v->0->Array_0.contains(JsonView::Text(b))
            });
        assert(evidence[i] == rest[i]);
    } else {
        let k = choose|k: int| 0 <= k < now.len() && now[k] == (a, b);
        if k < before.len() {
            assert(before[k] == (a, b));
        }
        assert(kept_pair(evidence[n]) == Some((a, b)));
        let items = evidence[n].payload@.member("candidate_ids"@)->0->Array_0;
        let ids = texts_among(items);
        assert(ids[0] == a && ids[1] == b);
        assert(ids.contains(a) && ids.contains(b));
        texts_among_are_items(items, a);
        texts_among_are_items(items, b);
    }
}

proof fn texts_among_are_items(items: Seq<JsonView>, t: Seq<char>)
    requires
        texts_among(items).contains(t),
    ensures
        items.contains(JsonView::Text(t)),
    decreases items.len(),
{
    if items.len() > 0 {
        let rest = items.drop_last();
        let before = texts_among(rest);
        let now = texts_among(items);
        if before.contains(t) {
            texts_among_are_items(rest, t);
            let i = choose|i: int| 0 <= i < rest.len() && rest[i] == JsonView::Text(t);
            assert(items[i] == JsonView::Text(t));
        } else {
            let k = choose|k: int| 0 <= k < now.len() && now[k] == t;
            if k < before.len() {
                assert(before[k] == t);
            }
            assert(items.last() == JsonView::Text(t));
            assert(items[items.len() - 1] == JsonView::Text(t));
        }
    }
}

// ---------- Hypotheses ----------

/// A digit of a number in base two is the rest that its quotient by a power of
/// two leaves by two.
pub proof fn digits_are_those_of_base_two(m: nat, i: nat)
    ensures
        bit_clear(m, i) <==> (m / pow2(i)) % 2 == 0,
    decreases i,
{
    if i == 0 {
        vstd::arithmetic::power2::lemma2_to64();
        assert(m / 1 == m);
    } else {
        digits_are_those_of_base_two(m / 2, (i - 1) as nat);
        lemma_pow2_unfold(i);
        lemma_pow2_pos((i - 1) as nat);
        vstd::arithmetic::div_mod::lemma_div_denominator(
            m as int,
            2,
            pow2((i - 1) as nat) as int,
        );
    }
}

proof fn subsets_are_powers(n: nat)
    ensures
        subsets(n) == pow2(n),
    decreases n,
{
    if n == 0 {
        vstd::arithmetic::power2::lemma2_to64();
    } else {
        subsets_are_powers((n - 1) as nat);
        lemma_pow2_unfold(n);
    }
}

/// There is one hypothesis more than there are choices among the reflections
/// that are left to judge, as long as these are four at most; with more there
/// are 24.
pub proof fn there_are_as_many_hypotheses_as_choices(n: nat)
    ensures
        n <= 4 ==> hypothesis_count(n) == 1 + pow2(n),
        n > 4 ==> hypothesis_count(n) == 24,
{
    vstd::arithmetic::power2::lemma2_to64();
    let m = if n < 20 {
        n
    } else {
        20
    };
    subsets_are_powers(m);
    if n > 4 {
        vstd::arithmetic::power2::lemma_pow2_strictly_increases(4, m);
    }
}

proof fn some_number_has_the_digits(n: nat, clear: spec_fn(int) -> bool) -> (m: nat)
    ensures
        m < pow2(n),
        forall|i: int| 0 <= i < n ==> (#[trigger] bit_clear(m, i as nat) <==> clear(i)),
    decreases n,
{
    if n == 0 {
        lemma_pow2_pos(0);
        0
    } else {
        let shifted = |i: int| clear(i + 1);
        let h = some_number_has_the_digits((n - 1) as nat, shifted);
        lemma_pow2_unfold(n);
        let m: nat = if clear(0) {
            2 * h
        } else {
            2 * h + 1
        };
        assert(m / 2 == h);
        assert(clear(0) <==> m % 2 == 0);
        assert forall|i: int| 0 <= i < n implies (#[trigger] bit_clear(m, i as nat) <==> clear(
            i,
        )) by {
            if i > 0 {
                assert(bit_clear(m, i as nat) == bit_clear(h, (i - 1) as nat));
                assert(shifted(i - 1) == clear(i));
            }
        }
        m
    }
}

/// The first hypothesis leaves out what is marked and nothing else. Every choice
/// among four or fewer reflections that are left to judge is tried by another:
/// one that leaves out what is marked, the chosen ones, and nothing else.
pub proof fn every_choice_is_tried(
    r: Seq<Hypothesis>,
    base: Seq<Seq<char>>,
    optional: Seq<Seq<char>>,
    chosen: spec_fn(int) -> bool,
)
    requires
        are_hypotheses(r, base, optional),
        optional.len() <= 4,
    ensures
        r.len() > 0,
        forall|t: Seq<char>| #[trigger] texts(r[0].excluded@).contains(t) <==> base.contains(t),
        exists|k: int|
            #![trigger r[k]]
            1 <= k < r.len() && forall|t: Seq<char>| #[trigger]
                texts(r[k].excluded@).contains(t) <==> base.contains(t) || exists|i: int|
                    0 <= i < optional.len() && #[trigger] optional[i] == t && chosen(i),
{
    there_are_as_many_hypotheses_as_choices(optional.len());
    lemma_pow2_pos(optional.len());
    let h = r[0];
    let base_only = |t: Seq<char>| leaves_out(base, optional, 0, t);
    assert(lists_set(texts(h.excluded@), base_only));
    assert forall|t: Seq<char>| #[trigger] texts(r[0].excluded@).contains(t) <==> base.contains(
        t,
    ) by {
        assert(texts(h.excluded@).contains(t) <==> base_only(t));
    }
    let m = some_number_has_the_digits(optional.len(), chosen);
    let k = m + 1;
    let g = r[k as int];
    let member = |t: Seq<char>| leaves_out(base, optional, k as int, t);
    assert(lists_set(texts(g.excluded@), member));
    assert forall|t: Seq<char>| #[trigger] texts(r[k as int].excluded@).contains(t)
        <==> base.contains(t) || exists|i: int|
        0 <= i < optional.len() && #[trigger] optional[i] == t && chosen(i) by {
        assert(texts(g.excluded@).contains(t) <==> member(t));
        if leaves_out(base, optional, k as int, t) && !base.contains(t) {
            let i = choose|i: int|
                0 <= i < optional.len() && #[trigger] optional[i] == t && bit_clear(
                    (k - 1) as nat,
                    i as nat,
                );
            assert(bit_clear(m, i as nat));
            assert(optional[i] == t && chosen(i));
        }
        if exists|i: int| 0 <= i < optional.len() && #[trigger] optional[i] == t && chosen(i) {
            let i = choose|i: int|
                0 <= i < optional.len() && #[trigger] optional[i] == t && chosen(i);
            assert(bit_clear(m, i as nat));
            assert(optional[i] == t && bit_clear((k - 1) as nat, i as nat));
        }
    }
}

/// A hypothesis that leaves nothing out is called `direct`; any other one is
/// called by what it leaves out.
pub proof fn hypotheses_are_called_by_what_they_leave_out(
    r: Seq<Hypothesis>,
    base: Seq<Seq<char>>,
    optional: Seq<Seq<char>>,
    k: int,
)
    requires
        are_hypotheses(r, base, optional),
        0 <= k < r.len(),
    ensures
        r[k].index == k,
        texts(r[k].excluded@).len() == 0 ==> r[k].signature@ == "direct"@,
        texts(r[k].excluded@).len() > 0 ==> r[k].signature@ == "without:"@ + joined_text(
            texts(r[k].excluded@),
            seq![','],
        ),
        ascending(texts(r[k].excluded@)),
        forall|t: Seq<char>| base.contains(t) ==> #[trigger] texts(r[k].excluded@).contains(t),
        forall|t: Seq<char>| #[trigger]
            texts(r[k].excluded@).contains(t) ==> base.contains(t) || optional.contains(t),
{
    let member = |t: Seq<char>| leaves_out(base, optional, k, t);
    let h = r[k];
    assert(lists_set(texts(h.excluded@), member));
    assert forall|t: Seq<char>| base.contains(t) implies #[trigger] texts(
        r[k].excluded@,
    ).contains(t) by {
        assert(member(t));
    }
    assert forall|t: Seq<char>| #[trigger] texts(r[k].excluded@).contains(t) implies base.contains(
        t,
    ) || optional.contains(t) by {
        assert(member(t));
    }
}

// ---------- Trials ----------

proof fn best_is_among(trials: Seq<Trial>, minus: Differences, n: int)
    requires
        1 <= n <= trials.len(),
    ensures
        0 <= best_trial(trials, minus, n) < n,
    decreases n,
{
    if n > 1 {
        best_is_among(trials, minus, n - 1);
    }
}

/// Where no two residuals are so close that they count as equal, the position
/// that is chosen has the smallest residual.
pub proof fn the_best_trial_fits_best(trials: Seq<Trial>, minus: Differences, n: int, i: int)
    requires
        1 <= n <= trials.len(),
        0 <= i < n,
        forall|j: int| 0 <= j < n ==> !(#[trigger] trials[j]).rms.nan(),
        forall|j: int, k: int|
            0 <= j < n && 0 <= k < n && j != k ==> !minus.difference(
                (#[trigger] trials[j]).rms,
                (#[trigger] trials[k]).rms,
            ).size().below(Double { bits: 0x3d71_9799_812d_ea11 }),
    ensures
        0 <= best_trial(trials, minus, n) < n,
        !trials[i].rms.below(trials[best_trial(trials, minus, n)].rms),
    decreases n,
{
    best_is_among(trials, minus, n);
    if n > 1 {
        best_is_among(trials, minus, n - 1);
        let b = best_trial(trials, minus, n - 1);
        if i < n - 1 {
            the_best_trial_fits_best(trials, minus, n - 1, i);
        }
        assert(!minus.difference(trials[n - 1].rms, trials[b].rms).size().below(
            Double { bits: 0x3d71_9799_812d_ea11 },
        ));
        assert(!trials[n - 1].rms.nan() && !trials[b].rms.nan() && !trials[i].rms.nan());
    }
}

/// Of two positions that fit equally well, the one farther left is chosen or,
/// where they are one above the other within a nanometre, the lower one.
pub proof fn of_equal_trials_the_one_farther_left_is_chosen(
    a: Trial,
    b: Trial,
    minus: Differences,
)
    requires
        !b.rms.below(a.rms),
        minus.difference(b.rms, a.rms).size().below(Double { bits: 0x3d71_9799_812d_ea11 }),
    ensures
        ({
            let apart = (Double { bits: 0x3e11_2e0b_e826_d695 }).below(
                minus.difference(b.at.x, a.at.x).size(),
            );
            let chosen = best_trial(seq![a, b], minus, 2);
            &&& apart && b.at.x.below(a.at.x) ==> chosen == 1
            &&& apart && !b.at.x.below(a.at.x) ==> chosen == 0
            &&& !apart && b.at.y.below(a.at.y) ==> chosen == 1
            &&& !apart && !b.at.y.below(a.at.y) ==> chosen == 0
        }),
{
    let t = seq![a, b];
    assert(t[0] == a && t[1] == b);
    assert(best_trial(t, minus, 1) == 0);
}

// ---------- Suspects ----------

/// A delay of an input is a suspected reflection: it was reported with that
/// hint, between stations that are entered.
pub open spec fn is_suspected(input: SolverInput, uid: Seq<char>) -> bool {
    exists|l: int|
        0 <= l < input.lags@.len() && (#[trigger] input.lags@[l]).lag_uid@ == uid
            && input.lags@[l].hint@ == "reflection"@ && is_entered(
            input.stations@,
            input.lags@[l].station_id@,
        ) && is_entered(input.stations@, input.lags@[l].peer_id@)
}

/// A piece of evidence with the kind `exclude_reflection` names a delay.
pub open spec fn is_judged(evidence: Seq<EvidenceRow>, uid: Seq<char>) -> bool {
    exists|k: int|
        0 <= k < evidence.len() && (#[trigger] evidence[k]).kind@ == "exclude_reflection"@
            && evidence[k].payload@.member("lag_uid"@) == Some(JsonView::Text(uid))
}

proof fn judging_is_marking(evidence: Seq<EvidenceRow>, uid: Seq<char>)
    ensures
        marked(evidence, uid) == is_judged(evidence, uid),
{
    if marked(evidence, uid) {
        let k = choose|k: int|
            0 <= k < evidence.len() && crate::solver::excludes(#[trigger] evidence[k], uid);
        let v = evidence[k].payload@.member("lag_uid"@)->0;
        assert(v == JsonView::Text(uid));
        assert(evidence[k].kind@ == "exclude_reflection"@);
    }
    if is_judged(evidence, uid) {
        let k = choose|k: int|
            0 <= k < evidence.len() && (#[trigger] evidence[k]).kind@ == "exclude_reflection"@
                && evidence[k].payload@.member("lag_uid"@) == Some(JsonView::Text(uid));
        assert(crate::solver::excludes(evidence[k], uid));
    }
}

proof fn reflections_are(meas: Seq<MeasView>, uid: Seq<char>)
    ensures
        reflections(meas).contains(uid) <==> exists|i: int|
            0 <= i < meas.len() && (#[trigger] meas[i]).lag_uid == Some(uid) && meas[i].reflection,
    decreases meas.len(),
{
    if meas.len() > 0 {
        let rest = meas.drop_last();
        let before = reflections(rest);
        let now = reflections(meas);
        let n = meas.len() - 1;
        reflections_are(rest, uid);
        if before.contains(uid) {
            let k = choose|k: int| 0 <= k < before.len() && before[k] == uid;
            assert(now[k] == uid);
            let i = choose|i: int|
                0 <= i < rest.len() && (#[trigger] rest[i]).lag_uid == Some(uid)
                    && rest[i].reflection;
            assert(meas[i].lag_uid == Some(uid) && meas[i].reflection);
        }
        if now.contains(uid) && !before.contains(uid) {
            let k = choose|k: int| 0 <= k < now.len() && now[k] == uid;
            if k < before.len() {
                assert(before[k] == uid);
            }
            assert(meas[n].lag_uid == Some(uid) && meas[n].reflection);
        }
        if exists|i: int|
            0 <= i < meas.len() && (#[trigger] meas[i]).lag_uid == Some(uid)
                && meas[i].reflection {
            let i = choose|i: int|
                0 <= i < meas.len() && (#[trigger] meas[i]).lag_uid == Some(uid)
                    && meas[i].reflection;
            if i < n {
                assert(rest[i].lag_uid == Some(uid) && rest[i].reflection);
            } else {
                assert(now[before.len() as int] == uid);
            }
        }
    }
}

proof fn suspicion_is_a_hint(input: SolverInput, minus: Differences, uid: Seq<char>)
    ensures
        reflections(measurements(input, minus)).contains(uid) == is_suspected(input, uid),
{
    let all = measurements(input, minus);
    reflections_are(all, uid);
    measurements_have_sources(input, minus);
    let (lags, pairs, anchor) = choose|lags: Seq<int>, pairs: Seq<int>, anchor: int|
        sources_are(input, minus, lags, pairs, anchor);
    let c = input.event.sound_speed_mps;
    if reflections(all).contains(uid) {
        let i = choose|i: int|
            0 <= i < all.len() && (#[trigger] all[i]).lag_uid == Some(uid) && all[i].reflection;
        if i < lags.len() {
            let l = input.lags@[lags[i]];
            assert(is_delay(l, input.stations@, c, all[i]));
            assert(crate::measurement_laws::stands_at(input.stations@, l.station_id@, all[i].a));
            assert(crate::measurement_laws::stands_at(input.stations@, l.peer_id@, all[i].b));
            standing_is_being_entered(input.stations@, l.station_id@, all[i].a);
            standing_is_being_entered(input.stations@, l.peer_id@, all[i].b);
            assert(input.lags@[lags[i]].lag_uid@ == uid);
        } else {
            let k = i - lags.len();
            assert(is_onset_pair(input, minus, pairs[k], anchor, all[lags.len() + k]));
        }
    }
    if is_suspected(input, uid) {
        let l = choose|l: int|
            0 <= l < input.lags@.len() && (#[trigger] input.lags@[l]).lag_uid@ == uid
                && input.lags@[l].hint@ == "reflection"@ && is_entered(
                input.stations@,
                input.lags@[l].station_id@,
            ) && is_entered(input.stations@, input.lags@[l].peer_id@);
        assert(lags.contains(l));
        let k = choose|k: int| 0 <= k < lags.len() && lags[k] == l;
        assert(is_delay(input.lags@[lags[k]], input.stations@, c, all[k]));
        assert(all[k].lag_uid == Some(uid) && all[k].reflection);
    }
}

proof fn standing_is_being_entered(
    stations: Seq<crate::model::Station>,
    id: Seq<char>,
    p: crate::figures::Pt,
)
    requires
        crate::measurement_laws::stands_at(stations, id, p),
    ensures
        is_entered(stations, id),
{
    let s = choose|s: int|
        0 <= s < stations.len() && (#[trigger] stations[s]).station_id@ == id && stations[s].x
            == p.x && stations[s].y == p.y && forall|t: int|
            s < t < stations.len() ==> (#[trigger] stations[t]).station_id@ != id;
    assert(stations[s].station_id@ == id);
}

proof fn slot_in_list(list: Seq<Seq<char>>, t: Seq<char>) -> (k: int)
    requires
        ascending(list),
    ensures
        0 <= k <= list.len(),
        forall|j: int| 0 <= j < k ==> text_lt(#[trigger] list[j], t),
        forall|j: int| k <= j < list.len() ==> !text_lt(#[trigger] list[j], t),
    decreases list.len(),
{
    if list.len() == 0 {
        0
    } else {
        let rest = list.drop_last();
        assert forall|i: int, j: int| 0 <= i < j < rest.len() implies text_lt(
            #[trigger] rest[i],
            #[trigger] rest[j],
        ) by {
            assert(text_lt(list[i], list[j]));
        }
        let n = list.len() - 1;
        if text_lt(list[n], t) {
            assert forall|j: int| 0 <= j < list.len() implies text_lt(#[trigger] list[j], t) by {
                if j < n {
                    assert(text_lt(list[j], list[n]));
                    text_order_is_transitive(list[j], list[n], t);
                }
            }
            list.len() as int
        } else {
            let k = slot_in_list(rest, t);
            assert forall|j: int| 0 <= j < k implies text_lt(#[trigger] list[j], t) by {
                assert(rest[j] == list[j]);
            }
            assert forall|j: int| k <= j < list.len() implies !text_lt(#[trigger] list[j], t) by {
                if j < n {
                    assert(rest[j] == list[j]);
                }
            }
            k
        }
    }
}

/// What is drawn from a list can be listed in order.
proof fn some_listing(s: Seq<Seq<char>>, member: spec_fn(Seq<char>) -> bool) -> (r: Seq<Seq<char>>)
    ensures
        ascending(r),
        forall|t: Seq<char>| #[trigger] r.contains(t) <==> s.contains(t) && member(t),
    decreases s.len(),
{
    if s.len() == 0 {
        Seq::empty()
    } else {
        let rest = s.drop_last();
        let x = s.last();
        let before = some_listing(rest, member);
        assert forall|t: Seq<char>| #[trigger] s.contains(t) <==> rest.contains(t) || t == x by {
            if rest.contains(t) {
                let k = choose|k: int| 0 <= k < rest.len() && rest[k] == t;
                assert(s[k] == t);
            }
            if t == x {
                assert(s[s.len() - 1] == t);
            }
            if s.contains(t) && t != x {
                let k = choose|k: int| 0 <= k < s.len() && s[k] == t;
                assert(rest[k] == t);
            }
        }
        if !member(x) || before.contains(x) {
            before
        } else {
            let at = slot_in_list(before, x);
            let r = before.insert(at, x);
            assert forall|i: int, j: int| 0 <= i < j < r.len() implies text_lt(
                #[trigger] r[i],
                #[trigger] r[j],
            ) by {
                if j == at {
                    assert(text_lt(before[i], x));
                } else if i == at {
                    assert(before.contains(before[j - 1]));
                    assert(!text_lt(before[j - 1], x));
                    text_order_is_total(before[j - 1], x);
                } else {
                    let p = if i < at {
                        i
                    } else {
                        i - 1
                    };
                    let q = if j < at {
                        j
                    } else {
                        j - 1
                    };
                    assert(text_lt(before[p], before[q]));
                }
            }
            assert forall|t: Seq<char>| #[trigger] r.contains(t) <==> s.contains(t) && member(
                t,
            ) by {
                if before.contains(t) {
                    let k = choose|k: int| 0 <= k < before.len() && before[k] == t;
                    if k < at {
                        assert(r[k] == t);
                    } else {
                        assert(r[k + 1] == t);
                    }
                }
                if t == x {
                    assert(r[at] == x);
                }
                if r.contains(t) && t != x {
                    let k = choose|k: int| 0 <= k < r.len() && r[k] == t;
                    if k < at {
                        assert(before[k] == t);
                    } else {
                        assert(before[k - 1] == t);
                    }
                }
            }
            r
        }
    }
}

spec fn named_by(evidence: Seq<EvidenceRow>) -> Seq<Seq<char>> {
    Seq::new(
        evidence.len(),
        |i: int|
            match evidence[i].payload@.member("lag_uid"@) {
                Some(JsonView::Text(t)) => t,
                _ => Seq::empty(),
            },
    )
}

proof fn marked_delays_are_judged(evidence: Seq<EvidenceRow>, uid: Seq<char>)
    ensures
        crate::solver::marked_lags(evidence).contains(uid) == is_judged(evidence, uid),
{
    let member = |t: Seq<char>| marked(evidence, t);
    let names = named_by(evidence);
    let r = some_listing(names, member);
    assert forall|t: Seq<char>| #[trigger] r.contains(t) <==> member(t) by {
        if member(t) {
            judging_is_marking(evidence, t);
            let k = choose|k: int|
                0 <= k < evidence.len() && (#[trigger] evidence[k]).kind@ == "exclude_reflection"@
                    && evidence[k].payload@.member("lag_uid"@) == Some(JsonView::Text(t));
            assert(names[k] == t);
        }
    }
    assert(lists_set(r, member));
    crate::textset::listing_is(r, member);
    judging_is_marking(evidence, uid);
}

/// What a solve suspects is what was reported with the hint, in order and each
/// once: on the one side what the evidence has judged to be a reflection, on
/// the other what it has not.
pub proof fn suspects_are_those_that_were_hinted_at(
    input: SolverInput,
    minus: Differences,
    judged: bool,
    uid: Seq<char>,
)
    ensures
        ascending(suspects(input, minus, judged)),
        suspects(input, minus, judged).contains(uid) <==> is_suspected(input, uid) && is_judged(
            input.evidence@,
            uid,
        ) == judged,
{
    let all = reflections(measurements(input, minus));
    let manual = crate::solver::marked_lags(input.evidence@);
    let member = |t: Seq<char>| all.contains(t) && manual.contains(t) == judged;
    let r = some_listing(all, member);
    assert forall|t: Seq<char>| #[trigger] r.contains(t) <==> member(t) by {}
    assert(lists_set(r, member));
    crate::textset::listing_is(r, member);
    suspicion_is_a_hint(input, minus, uid);
    marked_delays_are_judged(input.evidence@, uid);
    assert(r.contains(uid) <==> member(uid));
}

} // verus!
