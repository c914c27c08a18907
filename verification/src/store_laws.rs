//! What holds of the tables from one operation to the next.
use vstd::prelude::*;

use crate::jobs::{
    candidates_of, claimed, completed, enqueued, evidence_fault, evidence_id_of, evidence_of,
    job_fault, job_for, kept_candidate, last_completed, last_picked, new_evidence, new_job,
    next_waiting, recovered, waits, writing_stays_refused, written,
};
use crate::json::JsonView;
use crate::model::{CandidateView, EvidenceRowView};
use crate::order::{filter_of_push, picked_items_keep_their_order, picked_positions};
use crate::split::{digit_value, digits_value};
use crate::store::{
    is_status, knows_candidate, knows_event, knows_evidence, knows_job, Fault, JobRecordView,
    StoreView,
};
use crate::text::{decimal_text, digit, padded_text, zeros};

verus! {

// ---------- Jobs ----------

proof fn the_states_differ()
    ensures
        "pending"@ != "running"@,
        "pending"@ != "completed"@,
        "pending"@ != "failed"@,
        "running"@ != "completed"@,
        "running"@ != "failed"@,
        "completed"@ != "failed"@,
{
    reveal_strlit("pending");
    reveal_strlit("running");
    reveal_strlit("completed");
    reveal_strlit("failed");
    assert("pending"@[0] == 'p');
    assert("running"@[0] == 'r');
    assert("completed"@[0] == 'c');
    assert("failed"@[0] == 'f');
}

/// When the next job is claimed, nothing is left of what unfinished jobs had
/// written: every candidate that remains belongs to a job that was completed
/// or has failed, and the job that now runs has none.
pub proof fn unfinished_jobs_leave_nothing(v: StoreView)
    requires
        v.valid(),
    ensures
        forall|i: int|
            0 <= i < claimed(v).candidates.len() ==> exists|j: int|
                0 <= j < v.jobs.len() && (#[trigger] v.jobs[j]).job.job_id == (
                #[trigger] claimed(v).candidates[i]).job_id && (v.jobs[j].job.status
                    == "completed"@ || v.jobs[j].job.status == "failed"@),
        next_waiting(recovered(v.jobs)) matches Some(id) ==> candidates_of(claimed(v), id).len()
            == 0,
{
    the_states_differ();
    let jobs = recovered(v.jobs);
    let pick = |c: CandidateView| !waits(jobs, c.job_id);
    picked_items_keep_their_order(v.candidates, pick);
    let p = picked_positions(v.candidates, pick);
    let kept = claimed(v).candidates;
    assert forall|i: int| 0 <= i < kept.len() implies exists|j: int|
        0 <= j < v.jobs.len() && (#[trigger] v.jobs[j]).job.job_id == (#[trigger] kept[i]).job_id
            && (v.jobs[j].job.status == "completed"@ || v.jobs[j].job.status == "failed"@) by {
        let c = kept[i];
        assert(c == v.candidates[p[i]] && pick(c));
        assert(knows_job(v.jobs, v.candidates[p[i]].job_id));
        let j = choose|j: int| 0 <= j < v.jobs.len()
            && (#[trigger] v.jobs[j]).job.job_id == c.job_id;
        assert(is_status(v.jobs[j].job.status));
        assert(jobs[j].job.job_id == c.job_id);
        assert(jobs[j].job.status != "pending"@);
    }
    if next_waiting(jobs) is Some {
        let id = next_waiting(jobs)->0;
        next_waiting_waits(jobs);
        let of_job = |c: CandidateView| c.job_id == id;
        picked_items_keep_their_order(kept, of_job);
        let q = picked_positions(kept, of_job);
        if candidates_of(claimed(v), id).len() > 0 {
            let c = candidates_of(claimed(v), id)[0];
            assert(c == kept[q[0]]);
            assert(kept[q[0]] == v.candidates[p[q[0]]] && pick(kept[q[0]]));
            assert(false);
        }
    }
}

proof fn next_waiting_waits(jobs: Seq<JobRecordView>)
    ensures
        next_waiting(jobs) matches Some(id) ==> waits(jobs, id),
        next_waiting(jobs) is None ==> forall|i: int|
            0 <= i < jobs.len() ==> (#[trigger] jobs[i]).job.status != "pending"@,
    decreases jobs.len(),
{
    if jobs.len() > 0 {
        let rest = jobs.drop_first();
        next_waiting_waits(rest);
        if jobs[0].job.status == "pending"@ {
        } else if next_waiting(rest) is Some {
            let id = next_waiting(rest)->0;
            let k = choose|k: int|
                0 <= k < rest.len() && (#[trigger] rest[k]).job.job_id == id && rest[k].job.status
                    == "pending"@;
            assert(jobs[k + 1] == rest[k]);
        } else {
            assert forall|i: int| 0 <= i < jobs.len() implies (#[trigger] jobs[i]).job.status
                != "pending"@ by {
                if i > 0 {
                    assert(rest[i - 1] == jobs[i]);
                }
            }
        }
    }
}

/// After a claim one job runs, the one that was claimed, or none does; no job
/// that was completed or has failed is touched.
pub proof fn one_job_runs(v: StoreView, i: int)
    requires
        v.valid(),
        0 <= i < v.jobs.len(),
    ensures
        claimed(v).jobs.len() == v.jobs.len(),
        claimed(v).jobs[i].job.status == "running"@ <==> next_waiting(recovered(v.jobs)) == Some(
            v.jobs[i].job.job_id,
        ),
        v.jobs[i].job.status == "completed"@ || v.jobs[i].job.status == "failed"@ ==> claimed(
            v,
        ).jobs[i] == v.jobs[i],
{
    the_states_differ();
    let jobs = recovered(v.jobs);
    next_waiting_waits(jobs);
    assert(is_status(v.jobs[i].job.status));
    assert(jobs[i].job.status != "running"@);
    if next_waiting(jobs) is Some {
        let id = next_waiting(jobs)->0;
        if v.jobs[i].job.job_id == id {
            let k = choose|k: int|
                0 <= k < jobs.len() && (#[trigger] jobs[k]).job.job_id == id && jobs[k].job.status
                    == "pending"@;
            assert(v.jobs[k].job.job_id == v.jobs[i].job.job_id);
            if k < i {
                assert(v.jobs[k].job.job_id < v.jobs[i].job.job_id);
            } else if i < k {
                assert(v.jobs[i].job.job_id < v.jobs[k].job.job_id);
            }
        }
    }
}

/// A task that is queued twice has one job: the second time the number of the
/// first is found and nothing changes.
pub proof fn a_task_is_queued_once(
    v: StoreView,
    event_id: Seq<char>,
    fingerprint: Seq<char>,
    created_at: Seq<char>,
    later: Seq<char>,
)
    requires
        job_for(v, event_id, fingerprint) is Some || job_fault(v, event_id) is None,
    ensures
        ({
            let w = enqueued(v, event_id, fingerprint, created_at);
            &&& job_for(w, event_id, fingerprint) is Some
            &&& job_for(v, event_id, fingerprint) is Some ==> job_for(w, event_id, fingerprint)
                == job_for(v, event_id, fingerprint)
            &&& job_for(v, event_id, fingerprint) is None ==> job_for(w, event_id, fingerprint)
                == Some(v.last_job + 1)
            &&& enqueued(w, event_id, fingerprint, later) == w
        }),
{
    let w = enqueued(v, event_id, fingerprint, created_at);
    if job_for(v, event_id, fingerprint) is None {
        assert(w.jobs.last() == new_job(v.last_job + 1, event_id, fingerprint, created_at));
    }
}

proof fn all_are_written(v: StoreView, list: Seq<CandidateView>, job_id: int, n: int)
    requires
        0 <= n <= list.len(),
        written(v, list, job_id, n) is Ok,
    ensures
        written(v, list, job_id, n)->Ok_0 == v.candidates + list.take(n).map_values(
            |c: CandidateView| kept_candidate(c, job_id),
        ),
    decreases n,
{
    let f = |c: CandidateView| kept_candidate(c, job_id);
    if n > 0 {
        all_are_written(v, list, job_id, n - 1);
        assert(list.take(n) =~= list.take(n - 1).push(list[n - 1]));
        assert(list.take(n).map_values(f) =~= list.take(n - 1).map_values(f).push(f(list[n - 1])));
    } else {
        assert(v.candidates + list.take(0).map_values(f) =~= v.candidates);
    }
}

proof fn filter_keeps_all<A>(s: Seq<A>, pick: spec_fn(A) -> bool)
    requires
        forall|i: int| 0 <= i < s.len() ==> pick(#[trigger] s[i]),
    ensures
        s.filter(pick) == s,
    decreases s.len(),
{
    reveal(Seq::filter);
    if s.len() > 0 {
        filter_keeps_all(s.drop_last(), pick);
        assert(s =~= s.drop_last().push(s.last()));
    }
}

/// What a job that had nothing wrote is what is read of it: all its candidates
/// in the order in which they were written, and the job is completed. Where
/// one of them is refused, the tables stay as they are.
pub proof fn what_is_completed_is_read(
    v: StoreView,
    job_id: int,
    list: Seq<CandidateView>,
    finished_at: Seq<char>,
)
    requires
        candidates_of(v, job_id).len() == 0,
    ensures
        match written(v, list, job_id, list.len() as int) {
            Ok(_) => {
                &&& candidates_of(completed(v, job_id, list, finished_at), job_id)
                    == list.map_values(|c: CandidateView| kept_candidate(c, job_id))
                &&& forall|i: int|
                    0 <= i < v.jobs.len() && (#[trigger] v.jobs[i]).job.job_id == job_id
                        ==> completed(v, job_id, list, finished_at).jobs[i].job.status
                        == "completed"@
            },
            Err(_) => completed(v, job_id, list, finished_at) == v,
        },
{
    if written(v, list, job_id, list.len() as int) is Ok {
        let f = |c: CandidateView| kept_candidate(c, job_id);
        let pick = |c: CandidateView| c.job_id == job_id;
        let added = list.map_values(f);
        all_are_written(v, list, job_id, list.len() as int);
        assert(list.take(list.len() as int) =~= list);
        Seq::filter_distributes_over_add(v.candidates, added, pick);
        filter_keeps_all(added, pick);
        assert(v.candidates.filter(pick) =~= Seq::empty());
        assert(candidates_of(completed(v, job_id, list, finished_at), job_id) =~= added);
    }
}

/// Candidates whose names differ from each other, and from those that are there,
/// are not refused for their names.
pub proof fn new_names_are_not_taken(v: StoreView, list: Seq<CandidateView>, job_id: int, n: int)
    requires
        0 <= n <= list.len(),
        forall|i: int, j: int|
            0 <= i < j < list.len() ==> (#[trigger] list[i]).candidate_id != (
            #[trigger] list[j]).candidate_id,
        forall|i: int|
            0 <= i < list.len() ==> !knows_candidate(
                v.candidates,
                (#[trigger] list[i]).candidate_id,
            ),
    ensures
        written(v, list, job_id, n) != Err::<Seq<CandidateView>, Fault>(Fault::TakenCandidate),
    decreases n,
{
    if n > 0 {
        new_names_are_not_taken(v, list, job_id, n - 1);
        if written(v, list, job_id, n - 1) is Ok {
            let before = written(v, list, job_id, n - 1)->Ok_0;
            let c = list[n - 1];
            all_are_written(v, list, job_id, n - 1);
            let f = |c: CandidateView| kept_candidate(c, job_id);
            assert(before == v.candidates + list.take(n - 1).map_values(f));
            if knows_candidate(before, c.candidate_id) {
                let k = choose|k: int|
                    0 <= k < before.len() && (#[trigger] before[k]).candidate_id == c.candidate_id;
                if k < v.candidates.len() {
                    assert(v.candidates[k].candidate_id == c.candidate_id);
                } else {
                    assert(list[k - v.candidates.len()].candidate_id == c.candidate_id);
                }
            }
        }
    }
}

/// Candidates of which one has no number for a score are not written: the tables
/// stay as they are.
pub proof fn nothing_without_a_score_is_written(
    v: StoreView,
    list: Seq<CandidateView>,
    job_id: int,
    finished_at: Seq<char>,
    k: int,
)
    requires
        0 <= k < list.len(),
        list[k].score.nan(),
    ensures
        written(v, list, job_id, list.len() as int) is Err,
        completed(v, job_id, list, finished_at) == v,
{
    assert(written(v, list, job_id, k + 1) is Err);
    writing_stays_refused(v, list, job_id, k + 1, list.len() as int);
}

/// The job whose candidates are shown was completed, belongs to the event, and
/// no later job of the event was completed.
pub proof fn only_completed_jobs_are_shown(v: StoreView, event_id: Seq<char>)
    requires
        v.valid(),
    ensures
        last_completed(v, event_id) matches Some(id) ==> exists|i: int|
            0 <= i < v.jobs.len() && (#[trigger] v.jobs[i]).job.job_id == id
                && v.jobs[i].job.event_id == event_id && v.jobs[i].job.status == "completed"@,
        forall|i: int|
            0 <= i < v.jobs.len() && (#[trigger] v.jobs[i]).job.event_id == event_id
                && v.jobs[i].job.status == "completed"@ ==> (last_completed(
                v,
                event_id,
            ) matches Some(id) && v.jobs[i].job.job_id <= id),
{
    let pick = |j: JobRecordView| j.job.event_id == event_id && j.job.status == "completed"@;
    last_picked_is_last(v.jobs, pick);
    if last_completed(v, event_id) is Some {
        let id = last_completed(v, event_id)->0;
        let i = choose|i: int|
            0 <= i < v.jobs.len() && pick(#[trigger] v.jobs[i]) && v.jobs[i].job.job_id == id;
        assert(v.jobs[i].job.job_id == id);
    }
    assert forall|i: int|
        0 <= i < v.jobs.len() && (#[trigger] v.jobs[i]).job.event_id == event_id
            && v.jobs[i].job.status == "completed"@ implies (last_completed(
        v,
        event_id,
    ) matches Some(id) && v.jobs[i].job.job_id <= id) by {
        assert(pick(v.jobs[i]));
    }
}

proof fn last_picked_is_last(jobs: Seq<JobRecordView>, pick: spec_fn(JobRecordView) -> bool)
    requires
        forall|i: int, j: int|
            0 <= i < j < jobs.len() ==> (#[trigger] jobs[i]).job.job_id < (
            #[trigger] jobs[j]).job.job_id,
    ensures
        last_picked(jobs, pick) matches Some(id) ==> exists|i: int|
            0 <= i < jobs.len() && pick(#[trigger] jobs[i]) && jobs[i].job.job_id == id,
        forall|i: int|
            0 <= i < jobs.len() && pick(#[trigger] jobs[i]) ==>
                (last_picked(jobs, pick) matches Some(
                id,
            ) && jobs[i].job.job_id <= id),
    decreases jobs.len(),
{
    if jobs.len() > 0 {
        let rest = jobs.drop_last();
        last_picked_is_last(rest, pick);
        if pick(jobs.last()) {
            assert(jobs[jobs.len() - 1] == jobs.last());
        } else {
            if last_picked(rest, pick) is Some {
                let id = last_picked(rest, pick)->0;
                let i = choose|i: int|
                    0 <= i < rest.len() && pick(#[trigger] rest[i]) && rest[i].job.job_id == id;
                assert(jobs[i] == rest[i]);
            }
            assert forall|i: int| 0 <= i < jobs.len() && pick(#[trigger] jobs[i]) implies (
            last_picked(jobs, pick) matches Some(id) && jobs[i].job.job_id <= id) by {
                assert(i < rest.len());
                assert(rest[i] == jobs[i]);
            }
        }
    }
}

// ---------- Evidence ----------

/// The evidence of every event is numbered from 1 on, in the order in which it
/// came.
pub open spec fn evidence_is_numbered(v: StoreView) -> bool {
    forall|event_id: Seq<char>, k: int|
        0 <= k < evidence_of(v, event_id).len() ==> (#[trigger] evidence_of(
            v,
            event_id,
        )[k]).evidence_id == evidence_id_of(event_id, (k + 1) as nat)
}

proof fn digits_are_digits(d: int)
    requires
        0 <= d < 10,
    ensures
        digit_value(digit(d)) == Some(d),
        digit(d) != ':',
{
}

proof fn decimal_text_reads_back(n: nat)
    ensures
        digits_value(decimal_text(n)) == Some(n as int),
        forall|i: int| 0 <= i < decimal_text(n).len() ==> (#[trigger] decimal_text(n)[i]) != ':',
    decreases n,
{
    if n < 10 {
        digits_are_digits(n as int);
        assert(decimal_text(n).drop_last() =~= Seq::empty());
        assert(digits_value(Seq::<char>::empty()) == Some(0int));
    } else {
        decimal_text_reads_back(n / 10);
        digits_are_digits((n % 10) as int);
        assert(decimal_text(n).drop_last() =~= decimal_text(n / 10));
    }
}

proof fn zeros_in_front_do_not_count(k: nat, t: Seq<char>)
    requires
        digits_value(t) is Some,
    ensures
        digits_value(zeros(k) + t) == digits_value(t),
    decreases t.len(), k,
{
    if t.len() == 0 {
        assert(zeros(k) + t =~= zeros(k));
        if k > 0 {
            zeros_in_front_do_not_count((k - 1) as nat, t);
            assert(zeros((k - 1) as nat) + t =~= zeros((k - 1) as nat));
            assert(zeros(k).drop_last() =~= zeros((k - 1) as nat));
        } else {
            assert(zeros(k) =~= t);
        }
    } else {
        zeros_in_front_do_not_count(k, t.drop_last());
        assert((zeros(k) + t).drop_last() =~= zeros(k) + t.drop_last());
        assert((zeros(k) + t).last() == t.last());
    }
}

pub(crate) proof fn padded_text_reads_back(n: nat, width: nat)
    ensures
        digits_value(padded_text(n, width)) == Some(n as int),
        forall|i: int|
            0 <= i < padded_text(n, width).len() ==> (#[trigger] padded_text(n, width)[i]) != ':',
{
    decimal_text_reads_back(n);
    let t = decimal_text(n);
    if t.len() < width {
        zeros_in_front_do_not_count((width - t.len()) as nat, t);
        assert forall|i: int| 0 <= i < padded_text(n, width).len() implies (#[trigger] padded_text(
            n,
            width,
        )[i]) != ':' by {
            let k = width - t.len();
            if i >= k {
                assert(padded_text(n, width)[i] == t[i - k]);
            }
        }
    }
}

/// An identifier of evidence tells the event and the number.
pub proof fn evidence_ids_differ(a: Seq<char>, m: nat, b: Seq<char>, n: nat)
    requires
        evidence_id_of(a, m) == evidence_id_of(b, n),
    ensures
        a == b,
        m == n,
{
    reveal_strlit("ev-");
    reveal_strlit(":");
    padded_text_reads_back(m, 4);
    padded_text_reads_back(n, 4);
    let s = evidence_id_of(a, m);
    let t = evidence_id_of(b, n);
    let x = padded_text(m, 4);
    let y = padded_text(n, 4);
    let p = 3 + a.len() as int;
    let q = 3 + b.len() as int;
    assert(s[p] == ':');
    assert(t[q] == ':');
    assert forall|i: int| p < i < s.len() implies s[i] != ':' by {
        assert(s[i] == x[i - p - 1]);
    }
    assert forall|i: int| q < i < t.len() implies t[i] != ':' by {
        assert(t[i] == y[i - q - 1]);
    }
    assert(p == q);
    assert forall|i: int| 0 <= i < a.len() implies a[i] == b[i] by {
        assert(s[3 + i] == a[i]);
        assert(t[3 + i] == b[i]);
    }
    assert(a =~= b);
    assert forall|i: int| 0 <= i < x.len() implies x[i] == y[i] by {
        assert(s[p + 1 + i] == x[i]);
        assert(t[p + 1 + i] == y[i]);
    }
    assert(x =~= y);
}

/// Evidence is only ever appended: every piece stays as it is, the new one has
/// the next number of its event, which no other has, and the numbering goes
/// on. Where the event is known, evidence is not refused.
pub proof fn evidence_is_appended_and_numbered(
    v: StoreView,
    event_id: Seq<char>,
    kind: Seq<char>,
    payload: JsonView,
    basis: Seq<char>,
    created_at: Seq<char>,
)
    requires
        evidence_is_numbered(v),
    ensures
        ({
            let e = new_evidence(v, event_id, kind, payload, basis, created_at);
            let w = StoreView { evidence: v.evidence.push(e), ..v };
            &&& evidence_is_numbered(w)
            &&& !knows_evidence(v.evidence, e.evidence_id)
            &&& forall|i: int| 0 <= i < v.evidence.len() ==> #[trigger] w.evidence[i]
                == v.evidence[i]
        }),
        knows_event(v.events, event_id) ==> evidence_fault(v, event_id) is None,
{
    let e = new_evidence(v, event_id, kind, payload, basis, created_at);
    let w = StoreView { evidence: v.evidence.push(e), ..v };
    assert forall|other: Seq<char>, k: int| 0 <= k < evidence_of(w, other).len() implies (
    #[trigger] evidence_of(w, other)[k]).evidence_id == evidence_id_of(other, (k + 1) as nat) by {
        let pick = |x: EvidenceRowView| x.event_id == other;
        filter_of_push(v.evidence, e, pick);
        let before = evidence_of(v, other);
        if k < before.len() {
            assert(evidence_of(w, other)[k] == before[k]);
            assert(before[k].evidence_id == evidence_id_of(other, (k + 1) as nat));
        }
    }
    assert(!knows_evidence(v.evidence, e.evidence_id)) by {
        if knows_evidence(v.evidence, e.evidence_id) {
            let i = choose|i: int|
                0 <= i < v.evidence.len() && (#[trigger] v.evidence[i]).evidence_id
                    == e.evidence_id;
            let other = v.evidence[i].event_id;
            let pick = |x: EvidenceRowView| x.event_id == other;
            v.evidence.lemma_filter_contains(pick, i);
            assert(evidence_of(v, other).contains(v.evidence[i]));
            let k = choose|k: int|
                0 <= k < evidence_of(v, other).len() && evidence_of(v, other)[k] == v.evidence[i];
            assert(evidence_of(v, other)[k].evidence_id == evidence_id_of(other, (k + 1) as nat));
            evidence_ids_differ(
                other,
                (k + 1) as nat,
                event_id,
                evidence_of(v, event_id).len() + 1,
            );
        }
    }
}

/// Picking out of what was picked by a weaker rule picks the same.
proof fn picking_twice<A>(s: Seq<A>, weak: spec_fn(A) -> bool, strict: spec_fn(A) -> bool)
    requires
        forall|x: A| #[trigger] strict(x) ==> weak(x),
    ensures
        s.filter(weak).filter(strict) == s.filter(strict),
    decreases s.len(),
{
    reveal(Seq::filter);
    if s.len() == 0 {
        assert(s.filter(weak).filter(strict) =~= s.filter(strict));
    } else {
        let x = s.last();
        let before = s.drop_last();
        picking_twice(before, weak, strict);
        assert(before.push(x) =~= s);
        filter_of_push(before, x, weak);
        filter_of_push(before, x, strict);
        filter_of_push(before.filter(weak), x, strict);
    }
}

/// What is written for one job leaves the candidates of the others alone.
proof fn writing_leaves_others(
    v: StoreView,
    list: Seq<CandidateView>,
    job_id: int,
    n: int,
    other: int,
)
    requires
        other != job_id,
        0 <= n <= list.len(),
        written(v, list, job_id, n) is Ok,
    ensures
        written(v, list, job_id, n)->Ok_0.filter(|c: CandidateView| c.job_id == other)
            == v.candidates.filter(|c: CandidateView| c.job_id == other),
    decreases n,
{
    let of_other = |c: CandidateView| c.job_id == other;
    if n > 0 {
        writing_leaves_others(v, list, job_id, n - 1, other);
        let before = written(v, list, job_id, n - 1)->Ok_0;
        filter_of_push(before, kept_candidate(list[n - 1], job_id), of_other);
    }
}

/// The candidates of a job that has ended stay as they are when another job is
/// claimed and when another job is completed.
pub proof fn earlier_candidates_stay(
    v: StoreView,
    j: int,
    job_id: int,
    list: Seq<CandidateView>,
    finished_at: Seq<char>,
)
    requires
        v.valid(),
        0 <= j < v.jobs.len(),
        v.jobs[j].job.status == "completed"@ || v.jobs[j].job.status == "failed"@,
        v.jobs[j].job.job_id != job_id,
    ensures
        candidates_of(claimed(v), v.jobs[j].job.job_id) == candidates_of(v, v.jobs[j].job.job_id),
        candidates_of(completed(v, job_id, list, finished_at), v.jobs[j].job.job_id)
            == candidates_of(v, v.jobs[j].job.job_id),
{
    the_states_differ();
    let id = v.jobs[j].job.job_id;
    let jobs = recovered(v.jobs);
    let stays = |c: CandidateView| !waits(jobs, c.job_id);
    let of_job = |c: CandidateView| c.job_id == id;
    assert(!waits(jobs, id)) by {
        if waits(jobs, id) {
            let k = choose|k: int|
                0 <= k < jobs.len() && (#[trigger] jobs[k]).job.job_id == id && jobs[k].job.status
                    == "pending"@;
            assert(v.jobs[k].job.job_id == id);
            assert(k == j);
        }
    }
    picking_twice(v.candidates, stays, of_job);
    if written(v, list, job_id, list.len() as int) is Ok {
        writing_leaves_others(v, list, job_id, list.len() as int, id);
    }
}

} // verus!
