//! Reading observations, delays and evidence; appending evidence; the life of
//! a solve job.
use vstd::prelude::*;
use vstd::string::*;

use crate::db::{find_event, held, hold};
use crate::double::Double;
use crate::figures::Pt;
use crate::json::{Json, JsonView};
use crate::model::{
    candidate_views, candidateresidual_views, evidencerow_views, lagrow_views, observationrow_views,
    Candidate, CandidateResidual, CandidateResidualView, CandidateView, CurveView, EvidenceRow,
    EvidenceRowView, JobSaid, JobView, LagRow, LagRowView, ObservationRow, ObservationRowView,
    RegionView,
};
use crate::order::{
    filter_of_push, mapping_keeps_multisets, picked_items_keep_their_order, picked_positions, sort,
    Sortable,
};
use crate::rows::{
    evidence_listed, lags_listed, observations_listed, onset_shown, sorted_rows_are_listed,
};
use crate::store::{
    candidates_ok, is_status, jobrecord_views, jobs_ok, knows_candidate, knows_event,
    knows_evidence, knows_job, Fault, JobRecord, JobRecordView, LagRecordView, Store, StoreView,
};
use crate::text::{padded, padded_text, same};

verus! {

// ---------- Observations and delays ----------

/// The observations of an event.
pub open spec fn observations_of(v: StoreView, event_id: Seq<char>) -> Seq<ObservationRowView> {
    v.observations.filter(|o: ObservationRowView| o.event_id == event_id)
}

/// Lists the observations of an event by their onsets.
pub fn list_observations(store: &Store, event_id: &str) -> (r: Vec<ObservationRow>)
    requires
        store@.valid(),
    ensures
        observations_listed(observations_of(store@, event_id@), observationrow_views(r@)),
{
    let ghost all = store@.observations;
    let ghost pick = |o: ObservationRowView| o.event_id == event_id@;
    let mut list: Vec<ObservationRow> = Vec::new();
    let mut i: usize = 0;
    proof {
        reveal(Seq::filter);
        assert(all.take(0) =~= Seq::empty());
        assert(observationrow_views(list@) =~= Seq::empty());
    }
    while i < store.observations.len()
        invariant
            i <= store.observations@.len(),
            all == store@.observations,
            pick == (|o: ObservationRowView| o.event_id == event_id@),
            observationrow_views(list@) == all.take(i as int).filter(pick),
        decreases store.observations@.len() - i,
    {
        let o = &store.observations[i];
        let ghost before = observationrow_views(list@);
        assert(all.take(i + 1) =~= all.take(i as int).push(o@));
        proof {
            filter_of_push(all.take(i as int), o@, pick);
        }
        if same(o.event_id.as_str(), event_id) {
            assert(pick(o@));
            list.push(o.copy());
            assert(observationrow_views(list@) =~= before.push(o@));
        } else {
            assert(!pick(o@));
        }
        i += 1;
    }
    assert(all.take(i as int) =~= all);
    let ghost given = list@;
    let sorted = sort(list);
    proof {
        let views = observationrow_views(given);
        picked_items_keep_their_order(all, pick);
        let p = picked_positions(all, pick);
        assert forall|a: int, b: int| 0 <= a < b < given.len() implies (#[trigger] given[a]).key()
            != (#[trigger] given[b]).key() by {
            assert(views[a] == given[a]@ && views[b] == given[b]@);
            assert(views[a] == all[p[a]] && views[b] == all[p[b]]);
            assert(all[p[a]].obs_uid != all[p[b]].obs_uid);
        }
        sorted_rows_are_listed(
            given,
            sorted@,
            |o: ObservationRow| o@,
            |o: ObservationRowView|
                (
                    ""@,
                    onset_shown(o.corrected_onset_sec, o.local_onset_sec).rank(),
                    o.station_id,
                    o.obs_uid,
                ),
        );
    }
    sorted
}

/// The delays of an event.
pub open spec fn lags_of(v: StoreView, event_id: Seq<char>) -> Seq<LagRowView> {
    v.lags.filter(|l: LagRecordView| l.event_id == event_id).map_values(|l: LagRecordView| l.lag)
}

/// Lists the delays of an event.
pub fn list_lags(store: &Store, event_id: &str) -> (r: Vec<LagRow>)
    requires
        store@.valid(),
    ensures
        lags_listed(lags_of(store@, event_id@), lagrow_views(r@)),
{
    let ghost all = store@.lags;
    let ghost pick = |l: LagRecordView| l.event_id == event_id@;
    let ghost bare = |l: LagRecordView| l.lag;
    let mut list: Vec<LagRow> = Vec::new();
    let mut i: usize = 0;
    proof {
        reveal(Seq::filter);
        assert(all.take(0) =~= Seq::empty());
        assert(lagrow_views(list@) =~= all.take(0).filter(pick).map_values(bare));
    }
    while i < store.lags.len()
        invariant
            i <= store.lags@.len(),
            all == store@.lags,
            pick == (|l: LagRecordView| l.event_id == event_id@),
            bare == (|l: LagRecordView| l.lag),
            lagrow_views(list@) == all.take(i as int).filter(pick).map_values(bare),
        decreases store.lags@.len() - i,
    {
        let l = &store.lags[i];
        let ghost before = lagrow_views(list@);
        let ghost kept = all.take(i as int).filter(pick);
        assert(all.take(i + 1) =~= all.take(i as int).push(l@));
        proof {
            filter_of_push(all.take(i as int), l@, pick);
        }
        if same(l.event_id.as_str(), event_id) {
            assert(pick(l@));
            list.push(l.lag.copy());
            assert(lagrow_views(list@) =~= before.push(l@.lag));
            assert(kept.push(l@).map_values(bare) =~= kept.map_values(bare).push(l@.lag));
        } else {
            assert(!pick(l@));
        }
        i += 1;
    }
    assert(all.take(i as int) =~= all);
    let ghost given = list@;
    let sorted = sort(list);
    proof {
        let views = lagrow_views(given);
        picked_items_keep_their_order(all, pick);
        let p = picked_positions(all, pick);
        assert forall|a: int, b: int| 0 <= a < b < given.len() implies (#[trigger] given[a]).key()
            != (#[trigger] given[b]).key() by {
            assert(views[a] == given[a]@ && views[b] == given[b]@);
            assert(views[a] == all[p[a]].lag && views[b] == all[p[b]].lag);
            assert(all[p[a]].lag.lag_uid != all[p[b]].lag.lag_uid);
        }
        sorted_rows_are_listed(
            given,
            sorted@,
            |l: LagRow| l@,
            |l: LagRowView| (l.station_id, 0, l.obs_uid, l.lag_uid),
        );
    }
    sorted
}

// ---------- Evidence ----------

/// The evidence of an event.
pub open spec fn evidence_of(v: StoreView, event_id: Seq<char>) -> Seq<EvidenceRowView> {
    v.evidence.filter(|e: EvidenceRowView| e.event_id == event_id)
}

/// The identifier of the `n`-th piece of evidence of an event.
pub open spec fn evidence_id_of(event_id: Seq<char>, n: nat) -> Seq<char> {
    "ev-"@ + event_id + ":"@ + padded_text(n, 4)
}

/// A new piece of evidence.
pub open spec fn new_evidence(
    v: StoreView,
    event_id: Seq<char>,
    kind: Seq<char>,
    payload: JsonView,
    basis: Seq<char>,
    created_at: Seq<char>,
) -> EvidenceRowView {
    EvidenceRowView {
        evidence_id: evidence_id_of(event_id, evidence_of(v, event_id).len() + 1),
        event_id,
        kind,
        payload,
        basis,
        created_at,
        superseded_by: None,
        active: true,
    }
}

fn has_evidence(list: &Vec<EvidenceRow>, id: &str) -> (r: bool)
    ensures
        r == knows_evidence(evidencerow_views(list@), id@),
{
    let ghost views = evidencerow_views(list@);
    let mut i: usize = 0;
    while i < list.len()
        invariant
            i <= list@.len(),
            views == evidencerow_views(list@),
            forall|j: int| 0 <= j < i ==> (#[trigger] views[j]).evidence_id != id@,
        decreases list@.len() - i,
    {
        assert(views[i as int] == list@[i as int]@);
        if same(list[i].evidence_id.as_str(), id) {
            return true;
        }
        i += 1;
    }
    false
}

fn count_evidence(list: &Vec<EvidenceRow>, event_id: &str) -> (r: usize)
    ensures
        r == evidencerow_views(list@).filter(
            |e: EvidenceRowView| e.event_id == event_id@,
        ).len(),
        r <= list@.len(),
{
    let ghost all = evidencerow_views(list@);
    let ghost pick = |e: EvidenceRowView| e.event_id == event_id@;
    let mut n: usize = 0;
    let mut i: usize = 0;
    proof {
        reveal(Seq::filter);
        assert(all.take(0) =~= Seq::empty());
    }
    while i < list.len()
        invariant
            i <= list@.len(),
            n <= i,
            all == evidencerow_views(list@),
            pick == (|e: EvidenceRowView| e.event_id == event_id@),
            n == all.take(i as int).filter(pick).len(),
        decreases list@.len() - i,
    {
        let ghost e = all[i as int];
        assert(e == list@[i as int]@);
        assert(all.take(i + 1) =~= all.take(i as int).push(e));
        proof {
            filter_of_push(all.take(i as int), e, pick);
        }
        if same(list[i].event_id.as_str(), event_id) {
            assert(pick(e));
            n += 1;
        } else {
            assert(!pick(e));
        }
        i += 1;
    }
    assert(all.take(i as int) =~= all);
    n
}

/// Why evidence is refused: its number is taken, or its event is unknown.
pub open spec fn evidence_fault(v: StoreView, event_id: Seq<char>) -> Option<Fault> {
    if knows_evidence(
        v.evidence,
        evidence_id_of(event_id, evidence_of(v, event_id).len() + 1),
    ) {
        Some(Fault::TakenEvidence)
    } else if !knows_event(v.events, event_id) {
        Some(Fault::ForeignKey)
    } else {
        None
    }
}

/// Appends a piece of evidence. Evidence is numbered within its event in the
/// order in which it comes, and none is ever changed or removed.
pub fn append_evidence(
    store: &mut Store,
    event_id: &str,
    kind: &str,
    payload: &Json,
    basis: &str,
    created_at: &str,
) -> (r: Result<String, Fault>)
    requires
        old(store)@.valid(),
        old(store).evidence@.len() < usize::MAX,
    ensures
        final(store)@.valid(),
        match evidence_fault(old(store)@, event_id@) {
            Some(f) => r == Err::<String, Fault>(f) && final(store)@ == old(store)@,
            None => {
                let e = new_evidence(
                    old(store)@,
                    event_id@,
                    kind@,
                    payload@,
                    basis@,
                    created_at@,
                );
                &&& r matches Ok(id) && id@ == e.evidence_id
                &&& final(store)@ == (StoreView {
                    evidence: old(store)@.evidence.push(e),
                    ..old(store)@
                })
            },
        },
{
    let ghost v = store@;
    let count: usize = count_evidence(&store.evidence, event_id);
    let mut evidence_id = "ev-".to_owned();
    evidence_id.append(event_id);
    evidence_id.append(":");
    evidence_id.append(padded(count as u64 + 1, 4).as_str());
    if has_evidence(&store.evidence, evidence_id.as_str()) {
        return Err(Fault::TakenEvidence);
    }
    if find_event(&store.events, event_id).is_none() {
        return Err(Fault::ForeignKey);
    }
    let row = EvidenceRow {
        evidence_id: evidence_id.clone(),
        event_id: event_id.to_owned(),
        kind: kind.to_owned(),
        payload: payload.copy(),
        basis: basis.to_owned(),
        created_at: created_at.to_owned(),
        superseded_by: None,
        active: true,
    };
    let ghost e = row@;
    store.evidence.push(row);
    proof {
        let now = store@.evidence;
        assert(now =~= v.evidence.push(e));
        assert forall|a: int, b: int| 0 <= a < b < now.len() implies (#[trigger] now[a]).evidence_id
            != (#[trigger] now[b]).evidence_id by {
            assert(now[a] == v.evidence[a]);
            if b < v.evidence.len() {
                assert(now[b] == v.evidence[b]);
            }
        }
        assert forall|k: int| 0 <= k < now.len() implies knows_event(
            v.events,
            (#[trigger] now[k]).event_id,
        ) by {
            if k < v.evidence.len() {
                assert(now[k] == v.evidence[k]);
            }
        }
    }
    Ok(evidence_id)
}

/// Lists the evidence of an event.
pub fn list_evidence(store: &Store, event_id: &str) -> (r: Vec<EvidenceRow>)
    requires
        store@.valid(),
    ensures
        evidence_listed(evidence_of(store@, event_id@), evidencerow_views(r@)),
{
    let ghost all = store@.evidence;
    let ghost pick = |e: EvidenceRowView| e.event_id == event_id@;
    let mut list: Vec<EvidenceRow> = Vec::new();
    let mut i: usize = 0;
    proof {
        reveal(Seq::filter);
        assert(all.take(0) =~= Seq::empty());
        assert(evidencerow_views(list@) =~= Seq::empty());
    }
    while i < store.evidence.len()
        invariant
            i <= store.evidence@.len(),
            all == store@.evidence,
            pick == (|e: EvidenceRowView| e.event_id == event_id@),
            evidencerow_views(list@) == all.take(i as int).filter(pick),
        decreases store.evidence@.len() - i,
    {
        let e = &store.evidence[i];
        let ghost before = evidencerow_views(list@);
        assert(all.take(i + 1) =~= all.take(i as int).push(e@));
        proof {
            filter_of_push(all.take(i as int), e@, pick);
        }
        if same(e.event_id.as_str(), event_id) {
            assert(pick(e@));
            list.push(e.copy());
            assert(evidencerow_views(list@) =~= before.push(e@));
        } else {
            assert(!pick(e@));
        }
        i += 1;
    }
    assert(all.take(i as int) =~= all);
    let ghost given = list@;
    let sorted = sort(list);
    proof {
        let views = evidencerow_views(given);
        picked_items_keep_their_order(all, pick);
        let p = picked_positions(all, pick);
        assert forall|a: int, b: int| 0 <= a < b < given.len() implies (#[trigger] given[a]).key()
            != (#[trigger] given[b]).key() by {
            assert(views[a] == given[a]@ && views[b] == given[b]@);
            assert(views[a] == all[p[a]] && views[b] == all[p[b]]);
            assert(all[p[a]].evidence_id != all[p[b]].evidence_id);
        }
        sorted_rows_are_listed(
            given,
            sorted@,
            |e: EvidenceRow| e@,
            |e: EvidenceRowView| (e.evidence_id, 0, ""@, ""@),
        );
    }
    sorted
}

// ---------- Jobs ----------

/// A job with a status and an error.
pub open spec fn with_status(
    j: JobRecordView,
    status: Seq<char>,
    error: Option<Seq<char>>,
) -> JobRecordView {
    JobRecordView { job: JobSaid { status, error, ..j.job }, ..j }
}

/// The jobs after a crash: what was running waits again.
pub open spec fn recovered(jobs: Seq<JobRecordView>) -> Seq<JobRecordView> {
    jobs.map_values(
        |j: JobRecordView|
            if j.job.status == "running"@ {
                with_status(j, "pending"@, Some("recovered after crash"@))
            } else {
                j
            },
    )
}

/// A job with this number waits.
pub open spec fn waits(jobs: Seq<JobRecordView>, id: int) -> bool {
    exists|i: int|
        0 <= i < jobs.len() && (#[trigger] jobs[i]).job.job_id == id && jobs[i].job.status
            == "pending"@
}

/// The candidates without those of jobs that wait.
pub open spec fn without_waiting(
    candidates: Seq<CandidateView>,
    jobs: Seq<JobRecordView>,
) -> Seq<CandidateView> {
    candidates.filter(|c: CandidateView| !waits(jobs, c.job_id))
}

/// The first job that waits.
pub open spec fn next_waiting(jobs: Seq<JobRecordView>) -> Option<int>
    decreases jobs.len(),
{
    if jobs.len() == 0 {
        None
    } else if jobs[0].job.status == "pending"@ {
        Some(jobs[0].job.job_id)
    } else {
        next_waiting(jobs.drop_first())
    }
}

/// The jobs with one of them set to a status.
pub open spec fn set_status(
    jobs: Seq<JobRecordView>,
    id: int,
    status: Seq<char>,
    error: Option<Seq<char>>,
) -> Seq<JobRecordView> {
    jobs.map_values(
        |j: JobRecordView|
            if j.job.job_id == id {
                with_status(j, status, error)
            } else {
                j
            },
    )
}

/// The tables after the next job is claimed.
pub open spec fn claimed(v: StoreView) -> StoreView {
    let jobs = recovered(v.jobs);
    StoreView {
        jobs: match next_waiting(jobs) {
            Some(id) => set_status(jobs, id, "running"@, None),
            None => jobs,
        },
        candidates: without_waiting(v.candidates, jobs),
        ..v
    }
}

fn is_waiting(jobs: &Vec<JobRecord>, id: i64) -> (r: bool)
    ensures
        r == waits(jobrecord_views(jobs@), id as int),
{
    let ghost views = jobrecord_views(jobs@);
    let mut i: usize = 0;
    while i < jobs.len()
        invariant
            i <= jobs@.len(),
            views == jobrecord_views(jobs@),
            forall|j: int|
                0 <= j < i ==> !((#[trigger] views[j]).job.job_id == id && views[j].job.status
                    == "pending"@),
        decreases jobs@.len() - i,
    {
        assert(views[i as int] == jobs@[i as int]@);
        if jobs[i].job.job_id == id && same(jobs[i].job.status.as_str(), "pending") {
            return true;
        }
        i += 1;
    }
    false
}

/// Jobs that differ at most in status, error and end are as much in order.
proof fn new_statuses_keep_the_rules(
    a: Seq<JobRecordView>,
    b: Seq<JobRecordView>,
    last: int,
    events: Seq<crate::store::EventRowView>,
    candidates: Seq<CandidateView>,
)
    requires
        jobs_ok(a, last, events),
        candidates_ok(candidates, a),
        a.len() == b.len(),
        forall|i: int|
            0 <= i < a.len() ==>
                (#[trigger] b[i]).job.job_id == a[i].job.job_id && b[i].job.event_id
                == a[i].job.event_id && is_status(b[i].job.status),
    ensures
        jobs_ok(b, last, events),
        candidates_ok(candidates, b),
        forall|id: int| knows_job(a, id) <==> knows_job(b, id),
{
    assert forall|id: int| knows_job(a, id) implies knows_job(b, id) by {
        let k = choose|k: int| 0 <= k < a.len() && (#[trigger] a[k]).job.job_id == id;
        assert(b[k].job.job_id == id);
    }
    assert forall|id: int| knows_job(b, id) implies knows_job(a, id) by {
        let k = choose|k: int| 0 <= k < b.len() && (#[trigger] b[k]).job.job_id == id;
        assert(a[k].job.job_id == id);
    }
    assert forall|i: int, j: int| 0 <= i < j < b.len() implies (#[trigger] b[i]).job.job_id < (
    #[trigger] b[j]).job.job_id by {
        assert(a[i].job.job_id < a[j].job.job_id);
    }
    assert forall|i: int| 0 <= i < b.len() implies {
        &&& 1 <= (#[trigger] b[i]).job.job_id <= last
        &&& knows_event(events, b[i].job.event_id)
        &&& is_status(b[i].job.status)
    } by {
        assert(1 <= a[i].job.job_id <= last);
    }
}

fn set_job(jobs: &mut Vec<JobRecord>, i: usize, status: &str, error: Option<String>)
    requires
        i < old(jobs)@.len(),
    ensures
        jobrecord_views(final(jobs)@) == jobrecord_views(old(jobs)@).update(
            i as int,
            with_status(
                jobrecord_views(old(jobs)@)[i as int],
                status@,
                crate::model::opt_text(error),
            ),
        ),
{
    let ghost before = jobrecord_views(jobs@);
    let mut row = jobs[i].copy();
    assert(before[i as int] == row@);
    row.job.status = status.to_owned();
    row.job.error = error;
    let ghost v = row@;
    jobs.set(i, row);
    assert(jobrecord_views(jobs@) =~= before.update(i as int, v));
}

fn recover(jobs: &mut Vec<JobRecord>)
    ensures
        jobrecord_views(final(jobs)@) == recovered(jobrecord_views(old(jobs)@)),
{
    let ghost before = jobrecord_views(jobs@);
    let ghost want = recovered(before);
    let mut i: usize = 0;
    while i < jobs.len()
        invariant
            i <= jobs@.len(),
            jobs@.len() == before.len(),
            want == recovered(before),
            jobrecord_views(jobs@) =~= want.take(i as int) + before.skip(i as int),
        decreases jobs@.len() - i,
    {
        let ghost now = jobrecord_views(jobs@);
        assert(now[i as int] == jobs@[i as int]@);
        assert(now[i as int] == before[i as int]);
        if same(jobs[i].job.status.as_str(), "running") {
            set_job(jobs, i, "pending", Some("recovered after crash".to_owned()));
            assert(jobs@.len() == jobrecord_views(jobs@).len());
        }
        assert(jobrecord_views(jobs@) =~= want.take(i + 1) + before.skip(i + 1));
        i += 1;
    }
    assert(jobrecord_views(jobs@) =~= want);
}

fn keep_finished(candidates: &Vec<Candidate>, jobs: &Vec<JobRecord>) -> (r: Vec<Candidate>)
    ensures
        candidate_views(r@) == without_waiting(
            candidate_views(candidates@),
            jobrecord_views(jobs@),
        ),
{
    let ghost all = candidate_views(candidates@);
    let ghost states = jobrecord_views(jobs@);
    let ghost pick = |c: CandidateView| !waits(states, c.job_id);
    let mut out: Vec<Candidate> = Vec::new();
    let mut i: usize = 0;
    proof {
        reveal(Seq::filter);
        assert(all.take(0) =~= Seq::empty());
        assert(candidate_views(out@) =~= Seq::empty());
    }
    while i < candidates.len()
        invariant
            i <= candidates@.len(),
            all == candidate_views(candidates@),
            states == jobrecord_views(jobs@),
            pick == (|c: CandidateView| !waits(states, c.job_id)),
            candidate_views(out@) == all.take(i as int).filter(pick),
        decreases candidates@.len() - i,
    {
        let c = &candidates[i];
        let ghost before = candidate_views(out@);
        assert(all.take(i + 1) =~= all.take(i as int).push(c@));
        proof {
            filter_of_push(all.take(i as int), c@, pick);
        }
        if !is_waiting(jobs, c.job_id) {
            assert(pick(c@));
            out.push(c.copy());
            assert(candidate_views(out@) =~= before.push(c@));
        } else {
            assert(!pick(c@));
        }
        i += 1;
    }
    assert(all.take(i as int) =~= all);
    out
}

proof fn fewer_candidates_keep_the_rules(
    candidates: Seq<CandidateView>,
    jobs: Seq<JobRecordView>,
    pick: spec_fn(CandidateView) -> bool,
)
    requires
        candidates_ok(candidates, jobs),
    ensures
        candidates_ok(candidates.filter(pick), jobs),
{
    picked_items_keep_their_order(candidates, pick);
    let p = picked_positions(candidates, pick);
    let f = candidates.filter(pick);
    assert forall|i: int, j: int| 0 <= i < j < f.len() implies (#[trigger] f[i]).candidate_id != (
    #[trigger] f[j]).candidate_id by {
        assert(p[i] < p[j]);
        assert(candidates[p[i]].candidate_id != candidates[p[j]].candidate_id);
    }
    assert forall|i: int| 0 <= i < f.len() implies knows_job(jobs, (#[trigger] f[i]).job_id)
        && !f[i].score.nan() by {
        assert(f[i] == candidates[p[i]]);
    }
}

/// Claims the next job. Jobs that a crash left running wait again, and what
/// they had written so far is removed; then the first job that waits runs.
pub fn claim_next_job(store: &mut Store) -> (r: Option<i64>)
    requires
        old(store)@.valid(),
    ensures
        final(store)@.valid(),
        final(store)@ == claimed(old(store)@),
        match r {
            Some(id) => next_waiting(recovered(old(store)@.jobs)) == Some(id as int),
            None => next_waiting(recovered(old(store)@.jobs)) is None,
        },
{
    let ghost v = store@;
    recover(&mut store.jobs);
    let ghost jobs = store@.jobs;
    proof {
        assert(jobs == recovered(v.jobs));
        new_statuses_keep_the_rules(v.jobs, jobs, v.last_job, v.events, v.candidates);
        fewer_candidates_keep_the_rules(
            v.candidates,
            jobs,
            |c: CandidateView| !waits(jobs, c.job_id),
        );
    }
    let kept = keep_finished(&store.candidates, &store.jobs);
    store.candidates = kept;
    let ghost w = store@;
    assert(w == (StoreView {
        jobs: jobs,
        candidates: without_waiting(v.candidates, jobs),
        ..v
    }));
    let mut i: usize = 0;
    assert(jobs.skip(0) =~= jobs);
    while i < store.jobs.len()
        invariant
            i <= store.jobs@.len(),
            w == store@,
            w.valid(),
            v == old(store)@,
            jobs == store@.jobs,
            jobs == recovered(v.jobs),
            w == (StoreView { jobs: jobs, candidates: without_waiting(v.candidates, jobs), ..v }),
            next_waiting(jobs) == next_waiting(jobs.skip(i as int)),
        decreases store.jobs@.len() - i,
    {
        assert(jobs.skip(i as int)[0] == store.jobs@[i as int]@);
        if same(store.jobs[i].job.status.as_str(), "pending") {
            let id: i64 = store.jobs[i].job.job_id;
            assert(next_waiting(jobs) == Some(id as int));
            set_job(&mut store.jobs, i, "running", None);
            proof {
                let now = store@.jobs;
                assert forall|k: int| 0 <= k < jobs.len() && k != i implies (
                #[trigger] jobs[k]).job.job_id != id by {
                    if k < i {
                        assert(jobs[k].job.job_id < jobs[i as int].job.job_id);
                    } else {
                        assert(jobs[i as int].job.job_id < jobs[k].job.job_id);
                    }
                }
                assert(now =~= set_status(jobs, id as int, "running"@, None));
                new_statuses_keep_the_rules(jobs, now, w.last_job, w.events, w.candidates);
            }
            return Some(id);
        }
        assert(jobs.skip(i as int).drop_first() =~= jobs.skip(i + 1));
        i += 1;
    }
    None
}

/// The last job that is picked.
pub open spec fn last_picked(
    jobs: Seq<JobRecordView>,
    pick: spec_fn(JobRecordView) -> bool,
) -> Option<
    int,
>
    decreases jobs.len(),
{
    if jobs.len() == 0 {
        None
    } else if pick(jobs.last()) {
        Some(jobs.last().job.job_id)
    } else {
        last_picked(jobs.drop_last(), pick)
    }
}

/// A job that has the same task and has not failed.
pub open spec fn does(j: JobRecordView, event_id: Seq<char>, fingerprint: Seq<char>) -> bool {
    &&& j.job.event_id == event_id
    &&& j.job.fingerprint == fingerprint
    &&& (j.job.status == "pending"@ || j.job.status == "running"@ || j.job.status == "completed"@)
}

/// The job that already has a task.
pub open spec fn job_for(v: StoreView, event_id: Seq<char>, fingerprint: Seq<char>) -> Option<int> {
    last_picked(v.jobs, |j: JobRecordView| does(j, event_id, fingerprint))
}

/// A job that waits for its turn.
pub open spec fn new_job(
    id: int,
    event_id: Seq<char>,
    fingerprint: Seq<char>,
    created_at: Seq<char>,
) -> JobRecordView {
    JobRecordView {
        job: JobSaid {
            job_id: id,
            event_id,
            status: "pending"@,
            fingerprint,
            error: None,
            created_at,
        },
        finished_at: None,
    }
}

/// Why a job is refused.
pub open spec fn job_fault(v: StoreView, event_id: Seq<char>) -> Option<Fault> {
    if v.last_job == i64::MAX {
        Some(Fault::Full)
    } else if !knows_event(v.events, event_id) {
        Some(Fault::ForeignKey)
    } else {
        None
    }
}

/// The tables after a task is queued.
pub open spec fn enqueued(
    v: StoreView,
    event_id: Seq<char>,
    fingerprint: Seq<char>,
    created_at: Seq<char>,
) -> StoreView {
    if job_for(v, event_id, fingerprint) is Some || job_fault(v, event_id) is Some {
        v
    } else {
        StoreView {
            jobs: v.jobs.push(new_job(v.last_job + 1, event_id, fingerprint, created_at)),
            last_job: v.last_job + 1,
            ..v
        }
    }
}

/// Queues a task and returns the number of its job. Where a job for the same
/// event and input has not failed, that job is returned and nothing is queued.
pub fn enqueue_job(
    store: &mut Store,
    event_id: &str,
    fingerprint: &str,
    created_at: &str,
) -> (r: Result<i64, Fault>)
    requires
        old(store)@.valid(),
    ensures
        final(store)@.valid(),
        final(store)@ == enqueued(old(store)@, event_id@, fingerprint@, created_at@),
        match job_for(old(store)@, event_id@, fingerprint@) {
            Some(id) => r matches Ok(x) && x == id,
            None => match job_fault(old(store)@, event_id@) {
                Some(f) => r == Err::<i64, Fault>(f),
                None => r matches Ok(x) && x == old(store)@.last_job + 1,
            },
        },
{
    let ghost v = store@;
    let ghost pick = |j: JobRecordView| does(j, event_id@, fingerprint@);
    let mut i: usize = store.jobs.len();
    assert(v.jobs.take(i as int) =~= v.jobs);
    while i > 0
        invariant
            i <= store.jobs@.len(),
            v == store@,
            v == old(store)@,
            v.valid(),
            pick == (|j: JobRecordView| does(j, event_id@, fingerprint@)),
            last_picked(v.jobs, pick) == last_picked(v.jobs.take(i as int), pick),
        decreases i,
    {
        i -= 1;
        let j = &store.jobs[i];
        assert(v.jobs.take(i + 1).last() == j@);
        assert(v.jobs.take(i + 1).drop_last() =~= v.jobs.take(i as int));
        if same(j.job.event_id.as_str(), event_id) && same(
            j.job.fingerprint.as_str(),
            fingerprint,
        ) && (same(j.job.status.as_str(), "pending") || same(j.job.status.as_str(), "running")
            || same(j.job.status.as_str(), "completed")) {
            assert(pick(j@));
            return Ok(j.job.job_id);
        }
        assert(!pick(j@));
    }
    assert(job_for(v, event_id@, fingerprint@) is None);
    if store.last_job == i64::MAX {
        return Err(Fault::Full);
    }
    if find_event(&store.events, event_id).is_none() {
        return Err(Fault::ForeignKey);
    }
    let id: i64 = store.last_job + 1;
    let row = JobRecord {
        job: JobView {
            job_id: id,
            event_id: event_id.to_owned(),
            status: "pending".to_owned(),
            fingerprint: fingerprint.to_owned(),
            error: None,
            created_at: created_at.to_owned(),
        },
        finished_at: None,
    };
    let ghost rv = row@;
    store.jobs.push(row);
    store.last_job = id;
    proof {
        let now = store@.jobs;
        assert(now =~= v.jobs.push(rv));
        assert forall|x: int| knows_job(v.jobs, x) implies knows_job(now, x) by {
            let k = choose|k: int| 0 <= k < v.jobs.len() && (#[trigger] v.jobs[k]).job.job_id == x;
            assert(now[k].job.job_id == x);
        }
        assert forall|a: int, b: int| 0 <= a < b < now.len() implies (#[trigger] now[a]).job.job_id
            < (#[trigger] now[b]).job.job_id by {
            assert(now[a] == v.jobs[a]);
            if b < v.jobs.len() {
                assert(now[b] == v.jobs[b]);
            } else {
                assert(v.jobs[a].job.job_id <= v.last_job);
            }
        }
        assert forall|k: int| 0 <= k < now.len() implies {
            &&& 1 <= (#[trigger] now[k]).job.job_id <= id
            &&& knows_event(v.events, now[k].job.event_id)
            &&& is_status(now[k].job.status)
        } by {
            if k < v.jobs.len() {
                assert(now[k] == v.jobs[k]);
            }
        }
    }
    Ok(id)
}

/// The jobs with one of them ended.
pub open spec fn ended(
    jobs: Seq<JobRecordView>,
    id: int,
    status: Seq<char>,
    error: Option<Seq<char>>,
    finished_at: Seq<char>,
) -> Seq<JobRecordView> {
    jobs.map_values(
        |j: JobRecordView|
            if j.job.job_id == id {
                JobRecordView {
                    finished_at: Some(finished_at),
                    ..with_status(j, status, error)
                }
            } else {
                j
            },
    )
}

fn end_job(store: &mut Store, id: i64, status: &str, error: Option<String>, finished_at: &str)
    requires
        old(store)@.valid(),
        is_status(status@),
    ensures
        final(store)@.valid(),
        final(store)@ == (StoreView {
            jobs: ended(
                old(store)@.jobs,
                id as int,
                status@,
                crate::model::opt_text(error),
                finished_at@,
            ),
            ..old(store)@
        }),
{
    let ghost v = store@;
    let ghost want = ended(
        v.jobs,
        id as int,
        status@,
        crate::model::opt_text(error),
        finished_at@,
    );
    let mut i: usize = 0;
    while i < store.jobs.len()
        invariant
            i <= store.jobs@.len(),
            store.jobs@.len() == v.jobs.len(),
            want == ended(
                v.jobs,
                id as int,
                status@,
                crate::model::opt_text(error),
                finished_at@,
            ),
            store@ == (StoreView { jobs: store@.jobs, ..v }),
            store@.jobs =~= want.take(i as int) + v.jobs.skip(i as int),
        decreases store.jobs@.len() - i,
    {
        let ghost now = store@.jobs;
        assert(now[i as int] == store.jobs@[i as int]@);
        assert(now[i as int] == v.jobs[i as int]);
        if store.jobs[i].job.job_id == id {
            let mut row = store.jobs[i].copy();
            row.job.status = status.to_owned();
            row.job.error = crate::model::copy_option(&error);
            row.finished_at = Some(finished_at.to_owned());
            let ghost rv = row@;
            store.jobs.set(i, row);
            assert(store@.jobs =~= now.update(i as int, rv));
        }
        assert(store@.jobs =~= want.take(i + 1) + v.jobs.skip(i + 1));
        i += 1;
    }
    assert(store@.jobs =~= want);
    proof {
        new_statuses_keep_the_rules(v.jobs, want, v.last_job, v.events, v.candidates);
    }
}

/// A position as two columns hold it: both coordinates, or nothing.
pub open spec fn held_point(p: Option<Pt>) -> Option<Pt> {
    match p {
        Some(q) => if q.x.nan() || q.y.nan() {
            None
        } else {
            Some(q)
        },
        None => None,
    }
}

/// A place whose coordinates are finite.
pub open spec fn finite_place(p: Pt) -> bool {
    p.x.finite() && p.y.finite()
}

/// Places whose coordinates are all finite.
pub open spec fn finite_places(s: Seq<Pt>) -> bool {
    forall|i: int| 0 <= i < s.len() ==> finite_place(#[trigger] s[i])
}

/// A curve as a document holds it: what has a number that is not finite cannot
/// be read back.
pub open spec fn kept_curve(o: Option<CurveView>) -> Option<CurveView> {
    match o {
        Some(c) => if finite_place(c.focus_a) && finite_place(c.focus_b) && c.difference_m.finite()
            && finite_places(c.points) {
            Some(c)
        } else {
            None
        },
        None => None,
    }
}

/// A region as a document holds it.
pub open spec fn kept_region(o: Option<RegionView>) -> Option<RegionView> {
    match o {
        Some(c) => if finite_place(c.center) && finite_place(c.semi_axes) && c.angle_rad.finite()
            && finite_places(c.polygon) {
            Some(c)
        } else {
            None
        },
        None => None,
    }
}

/// A number that a document holds where there need not be one.
pub open spec fn kept_number(o: Option<Double>) -> Option<Double> {
    match o {
        Some(x) => if x.finite() {
            Some(x)
        } else {
            None
        },
        None => None,
    }
}

/// How a measurement fits, as a document holds it.
pub open spec fn kept_residual(r: CandidateResidualView) -> CandidateResidualView {
    CandidateResidualView {
        predicted_sec: kept_number(r.predicted_sec),
        residual_sec: kept_number(r.residual_sec),
        ..r
    }
}

/// Residuals as a document holds them: all of them, or none where one lacks a
/// finite number that has to be there.
pub open spec fn kept_residuals(s: Seq<CandidateResidualView>) -> Seq<CandidateResidualView> {
    if forall|i: int|
        0 <= i < s.len() ==> (#[trigger] s[i]).measured_sec.finite() && s[i].weight.finite() {
        s.map_values(|r: CandidateResidualView| kept_residual(r))
    } else {
        Seq::empty()
    }
}

/// A candidate as it is kept for a job.
pub open spec fn kept_candidate(c: CandidateView, job_id: int) -> CandidateView {
    CandidateView {
        job_id,
        point: held_point(c.point),
        curve: kept_curve(c.curve),
        region: kept_region(c.region),
        rms_sec: held(c.rms_sec),
        residuals: kept_residuals(c.residuals),
        ..c
    }
}

/// The candidates after the first `n` of a job are written.
pub open spec fn written(
    v: StoreView,
    list: Seq<CandidateView>,
    job_id: int,
    n: int,
) -> Result<Seq<CandidateView>, Fault>
    decreases n,
{
    if n <= 0 {
        Ok(v.candidates)
    } else {
        match written(v, list, job_id, n - 1) {
            Err(f) => Err(f),
            Ok(before) => {
                let c = list[n - 1];
                if c.score.nan() {
                    Err(Fault::CandidateScore)
                } else if knows_candidate(before, c.candidate_id) {
                    Err(Fault::TakenCandidate)
                } else if !knows_job(v.jobs, job_id) {
                    Err(Fault::ForeignKey)
                } else {
                    Ok(before.push(kept_candidate(c, job_id)))
                }
            },
        }
    }
}

/// What is refused once stays refused.
pub(crate) proof fn writing_stays_refused(
    v: StoreView,
    list: Seq<CandidateView>,
    job_id: int,
    m: int,
    n: int,
)
    requires
        m <= n,
        written(v, list, job_id, m) is Err,
    ensures
        written(v, list, job_id, n) == written(v, list, job_id, m),
    decreases n - m,
{
    if m < n {
        writing_stays_refused(v, list, job_id, m, n - 1);
    }
}

/// The tables after a job is completed.
pub open spec fn completed(
    v: StoreView,
    job_id: int,
    list: Seq<CandidateView>,
    finished_at: Seq<char>,
) -> StoreView {
    match written(v, list, job_id, list.len() as int) {
        Err(f) => v,
        Ok(candidates) => StoreView {
            candidates,
            jobs: ended(v.jobs, job_id, "completed"@, None, finished_at),
            ..v
        },
    }
}

fn has_candidate_id(list: &Vec<Candidate>, id: &str) -> (r: bool)
    ensures
        r == knows_candidate(candidate_views(list@), id@),
{
    let ghost views = candidate_views(list@);
    let mut i: usize = 0;
    while i < list.len()
        invariant
            i <= list@.len(),
            views == candidate_views(list@),
            forall|j: int| 0 <= j < i ==> (#[trigger] views[j]).candidate_id != id@,
        decreases list@.len() - i,
    {
        assert(views[i as int] == list@[i as int]@);
        if same(list[i].candidate_id.as_str(), id) {
            return true;
        }
        i += 1;
    }
    false
}

fn has_job(jobs: &Vec<JobRecord>, id: i64) -> (r: bool)
    ensures
        r == knows_job(jobrecord_views(jobs@), id as int),
{
    let ghost views = jobrecord_views(jobs@);
    let mut i: usize = 0;
    while i < jobs.len()
        invariant
            i <= jobs@.len(),
            views == jobrecord_views(jobs@),
            forall|j: int| 0 <= j < i ==> (#[trigger] views[j]).job.job_id != id,
        decreases jobs@.len() - i,
    {
        assert(views[i as int] == jobs@[i as int]@);
        if jobs[i].job.job_id == id {
            return true;
        }
        i += 1;
    }
    false
}

fn is_finite_place(p: Pt) -> (r: bool)
    ensures
        r == finite_place(p),
{
    p.x.is_finite() && p.y.is_finite()
}

fn are_finite_places(list: &Vec<Pt>) -> (r: bool)
    ensures
        r == finite_places(list@),
{
    let mut i: usize = 0;
    while i < list.len()
        invariant
            i <= list@.len(),
            forall|j: int| 0 <= j < i ==> finite_place(#[trigger] list@[j]),
        decreases list@.len() - i,
    {
        if !is_finite_place(list[i]) {
            return false;
        }
        i += 1;
    }
    true
}

fn keep_number(o: Option<Double>) -> (r: Option<Double>)
    ensures
        r == kept_number(o),
{
    match o {
        Some(x) => if x.is_finite() {
            Some(x)
        } else {
            None
        },
        None => None,
    }
}

fn keep_residuals(list: &Vec<CandidateResidual>) -> (r: Vec<CandidateResidual>)
    ensures
        candidateresidual_views(r@) == kept_residuals(candidateresidual_views(list@)),
{
    let ghost all = candidateresidual_views(list@);
    let mut out: Vec<CandidateResidual> = Vec::new();
    let mut i: usize = 0;
    while i < list.len()
        invariant
            i <= list@.len(),
            all == candidateresidual_views(list@),
            out@.len() == i,
            forall|j: int|
                0 <= j < i ==> (#[trigger] all[j]).measured_sec.finite() && all[j].weight.finite(),
            forall|j: int| 0 <= j < i ==> (#[trigger] out@[j])@ == kept_residual(all[j]),
        decreases list@.len() - i,
    {
        assert(all[i as int] == list@[i as int]@);
        if !list[i].measured_sec.is_finite() || !list[i].weight.is_finite() {
            let none: Vec<CandidateResidual> = Vec::new();
            assert(candidateresidual_views(none@) =~= kept_residuals(all));
            return none;
        }
        let mut k = list[i].copy();
        k.predicted_sec = keep_number(list[i].predicted_sec);
        k.residual_sec = keep_number(list[i].residual_sec);
        out.push(k);
        i += 1;
    }
    assert(candidateresidual_views(out@) =~= kept_residuals(all));
    out
}

fn keep_candidate(c: &Candidate, job_id: i64) -> (r: Candidate)
    ensures
        r@ == kept_candidate(c@, job_id as int),
{
    let mut k = c.copy();
    k.job_id = job_id;
    k.point = match c.point {
        Some(q) => if q.x.is_nan() || q.y.is_nan() {
            None
        } else {
            Some(q)
        },
        None => None,
    };
    k.curve = match &c.curve {
        Some(v) => if is_finite_place(v.focus_a) && is_finite_place(v.focus_b)
            && v.difference_m.is_finite() && are_finite_places(&v.points) {
            Some(v.copy())
        } else {
            None
        },
        None => None,
    };
    k.region = match &c.region {
        Some(v) => if is_finite_place(v.center) && is_finite_place(v.semi_axes)
            && v.angle_rad.is_finite() && are_finite_places(&v.polygon) {
            Some(v.copy())
        } else {
            None
        },
        None => None,
    };
    k.rms_sec = hold(c.rms_sec);
    k.residuals = keep_residuals(&c.residuals);
    k
}

/// Completes a job: all its candidates are written and the job is completed,
/// or, where one of them is refused, nothing changes.
pub fn complete_job(
    store: &mut Store,
    job_id: i64,
    candidates: &Vec<Candidate>,
    finished_at: &str,
) -> (r: Result<(), Fault>)
    requires
        old(store)@.valid(),
    ensures
        final(store)@.valid(),
        final(store)@ == completed(
            old(store)@,
            job_id as int,
            candidate_views(candidates@),
            finished_at@,
        ),
        match written(
            old(store)@,
            candidate_views(candidates@),
            job_id as int,
            candidates@.len() as int,
        ) {
            Ok(_) => r is Ok,
            Err(f) => r == Err::<(), Fault>(f),
        },
{
    let ghost v = store@;
    let ghost list = candidate_views(candidates@);
    let known = has_job(&store.jobs, job_id);
    let mut out = crate::model::copy_candidates(&store.candidates);
    let mut i: usize = 0;
    while i < candidates.len()
        invariant
            i <= candidates@.len(),
            v == store@,
            v == old(store)@,
            v.valid(),
            list == candidate_views(candidates@),
            known == knows_job(v.jobs, job_id as int),
            candidates_ok(candidate_views(out@), v.jobs),
            written(v, list, job_id as int, i as int) == Ok::<Seq<CandidateView>, Fault>(
                candidate_views(out@),
            ),
        decreases candidates@.len() - i,
    {
        let c = &candidates[i];
        assert(list[i as int] == c@);
        let ghost before = candidate_views(out@);
        let fault = if c.score.is_nan() {
            Some(Fault::CandidateScore)
        } else if has_candidate_id(&out, c.candidate_id.as_str()) {
            Some(Fault::TakenCandidate)
        } else if !known {
            Some(Fault::ForeignKey)
        } else {
            None
        };
        match fault {
            Some(f) => {
                proof {
                    assert(written(v, list, job_id as int, i + 1) == Err::<
                        Seq<CandidateView>,
                        Fault,
                    >(f));
                    writing_stays_refused(v, list, job_id as int, i + 1, list.len() as int);
                }
                return Err(f);
            },
            None => {},
        }
        let row = keep_candidate(c, job_id);
        let ghost rv = row@;
        out.push(row);
        assert(candidate_views(out@) =~= before.push(rv));
        proof {
            let now = candidate_views(out@);
            assert forall|a: int, b: int| 0 <= a < b < now.len() implies (
            #[trigger] now[a]).candidate_id != (#[trigger] now[b]).candidate_id by {
                assert(now[a] == before[a]);
                if b < before.len() {
                    assert(now[b] == before[b]);
                }
            }
            assert forall|k: int| 0 <= k < now.len() implies knows_job(
                v.jobs,
                (#[trigger] now[k]).job_id,
            ) && !now[k].score.nan() by {
                if k < before.len() {
                    assert(now[k] == before[k]);
                }
            }
        }
        i += 1;
    }
    store.candidates = out;
    assert(is_status("completed"@));
    end_job(store, job_id, "completed", None, finished_at);
    Ok(())
}

/// Marks a job as failed.
pub fn fail_job(store: &mut Store, job_id: i64, error: &str, finished_at: &str)
    requires
        old(store)@.valid(),
    ensures
        final(store)@.valid(),
        final(store)@ == (StoreView {
            jobs: ended(
                old(store)@.jobs,
                job_id as int,
                "failed"@,
                Some(error@),
                finished_at@,
            ),
            ..old(store)@
        }),
{
    assert(is_status("failed"@));
    end_job(store, job_id, "failed", Some(error.to_owned()), finished_at);
}

/// Completes a job with what its solve put out. Where that cannot be entered the
/// job fails, with the reason.
pub fn settle_job(
    store: &mut Store,
    job_id: i64,
    candidates: &Vec<Candidate>,
    finished_at: &str,
) -> (r: Result<(), Fault>)
    requires
        old(store)@.valid(),
    ensures
        final(store)@.valid(),
        match written(
            old(store)@,
            candidate_views(candidates@),
            job_id as int,
            candidates@.len() as int,
        ) {
            Ok(_) => r is Ok && final(store)@ == completed(
                old(store)@,
                job_id as int,
                candidate_views(candidates@),
                finished_at@,
            ),
            Err(f) => r == Err::<(), Fault>(f) && final(store)@ == (StoreView {
                jobs: ended(
                    old(store)@.jobs,
                    job_id as int,
                    "failed"@,
                    Some(f.text()),
                    finished_at@,
                ),
                ..old(store)@
            }),
        },
{
    match complete_job(store, job_id, candidates, finished_at) {
        Ok(_) => Ok(()),
        Err(f) => {
            let why = f.message();
            fail_job(store, job_id, why.as_str(), finished_at);
            Err(f)
        },
    }
}

/// Brings a job to its end: with the candidates that were found, or with the
/// reason why there are none.
pub fn finish_job(
    store: &mut Store,
    job_id: i64,
    found: &Result<Vec<Candidate>, String>,
    finished_at: &str,
) -> (r: Result<(), String>)
    requires
        old(store)@.valid(),
    ensures
        final(store)@.valid(),
        match found {
            Ok(list) => match written(
                old(store)@,
                candidate_views(list@),
                job_id as int,
                list@.len() as int,
            ) {
                Ok(_) => r is Ok && final(store)@ == completed(
                    old(store)@,
                    job_id as int,
                    candidate_views(list@),
                    finished_at@,
                ),
                Err(f) => {
                    &&& r matches Err(e) && e@ == f.text()
                    &&& final(store)@ == (StoreView {
                        jobs: ended(
                            old(store)@.jobs,
                            job_id as int,
                            "failed"@,
                            Some(f.text()),
                            finished_at@,
                        ),
                        ..old(store)@
                    })
                },
            },
            Err(why) => {
                &&& r matches Err(e) && e@ == why@
                &&& final(store)@ == (StoreView {
                    jobs: ended(
                        old(store)@.jobs,
                        job_id as int,
                        "failed"@,
                        Some(why@),
                        finished_at@,
                    ),
                    ..old(store)@
                })
            },
        },
{
    match found {
        Ok(list) => match settle_job(store, job_id, list, finished_at) {
            Ok(_) => Ok(()),
            Err(f) => Err(f.message()),
        },
        Err(why) => {
            fail_job(store, job_id, why.as_str(), finished_at);
            Err(why.clone())
        },
    }
}

/// What a list of jobs says.
pub open spec fn job_views(s: Seq<JobView>) -> Seq<JobSaid> {
    s.map_values(|j: JobView| j@)
}

/// Lists the jobs of an event in the order of their numbers.
pub fn list_jobs(store: &Store, event_id: &str) -> (r: Vec<JobView>)
    requires
        store@.valid(),
    ensures
        job_views(r@) == store@.jobs.filter(
            |j: JobRecordView| j.job.event_id == event_id@,
        ).map_values(|j: JobRecordView| j.job),
        forall|a: int, b: int| 0 <= a < b < r@.len() ==> (#[trigger] r@[a]).job_id < (
        #[trigger] r@[b]).job_id,
{
    let ghost all = store@.jobs;
    let ghost pick = |j: JobRecordView| j.job.event_id == event_id@;
    let ghost bare = |j: JobRecordView| j.job;
    let mut out: Vec<JobView> = Vec::new();
    let mut i: usize = 0;
    proof {
        reveal(Seq::filter);
        assert(all.take(0) =~= Seq::empty());
        assert(job_views(out@) =~= all.take(0).filter(pick).map_values(bare));
    }
    while i < store.jobs.len()
        invariant
            i <= store.jobs@.len(),
            all == store@.jobs,
            pick == (|j: JobRecordView| j.job.event_id == event_id@),
            bare == (|j: JobRecordView| j.job),
            job_views(out@) == all.take(i as int).filter(pick).map_values(bare),
        decreases store.jobs@.len() - i,
    {
        let j = &store.jobs[i];
        let ghost before = job_views(out@);
        let ghost kept = all.take(i as int).filter(pick);
        assert(all.take(i + 1) =~= all.take(i as int).push(j@));
        proof {
            filter_of_push(all.take(i as int), j@, pick);
        }
        if same(j.job.event_id.as_str(), event_id) {
            assert(pick(j@));
            out.push(j.job.copy());
            assert(job_views(out@) =~= before.push(j@.job));
            assert(kept.push(j@).map_values(bare) =~= kept.map_values(bare).push(j@.job));
        } else {
            assert(!pick(j@));
        }
        i += 1;
    }
    assert(all.take(i as int) =~= all);
    proof {
        picked_items_keep_their_order(all, pick);
        let p = picked_positions(all, pick);
        let views = job_views(out@);
        assert forall|a: int, b: int| 0 <= a < b < out@.len() implies (#[trigger] out@[a]).job_id
            < (#[trigger] out@[b]).job_id by {
            assert(views[a] == out@[a]@ && views[b] == out@[b]@);
            assert(views[a] == all[p[a]].job && views[b] == all[p[b]].job);
            assert(p[a] < p[b]);
        }
    }
    out
}

/// The last job of an event that was completed.
pub open spec fn last_completed(v: StoreView, event_id: Seq<char>) -> Option<int> {
    last_picked(
        v.jobs,
        |j: JobRecordView| j.job.event_id == event_id && j.job.status == "completed"@,
    )
}

/// Finds the last job of an event that was completed: the only one whose
/// candidates are shown.
pub fn latest_completed_job(store: &Store, event_id: &str) -> (r: Option<i64>)
    requires
        store@.valid(),
    ensures
        match r {
            Some(id) => last_completed(store@, event_id@) == Some(id as int),
            None => last_completed(store@, event_id@) is None,
        },
{
    let ghost all = store@.jobs;
    let ghost pick = |j: JobRecordView|
        j.job.event_id == event_id@ && j.job.status == "completed"@;
    let mut i: usize = store.jobs.len();
    assert(all.take(i as int) =~= all);
    while i > 0
        invariant
            i <= store.jobs@.len(),
            all == store@.jobs,
            pick == (|j: JobRecordView|
                j.job.event_id == event_id@ && j.job.status == "completed"@),
            last_picked(all, pick) == last_picked(all.take(i as int), pick),
        decreases i,
    {
        i -= 1;
        let j = &store.jobs[i];
        assert(all.take(i + 1).last() == j@);
        assert(all.take(i + 1).drop_last() =~= all.take(i as int));
        if same(j.job.event_id.as_str(), event_id) && same(j.job.status.as_str(), "completed") {
            assert(pick(j@));
            return Some(j.job.job_id);
        }
        assert(!pick(j@));
    }
    None
}

impl Sortable for Candidate {
    type Key = int;

    open spec fn key(&self) -> int {
        self.rank as int
    }

    open spec fn in_order(a: int, b: int) -> bool {
        a <= b
    }

    proof fn order_is_total() {
    }

    fn goes_after(&self, other: &Self) -> (r: bool) {
        self.rank > other.rank
    }
}

/// The candidates of a job.
pub open spec fn candidates_of(v: StoreView, job_id: int) -> Seq<CandidateView> {
    v.candidates.filter(|c: CandidateView| c.job_id == job_id)
}

/// Lists the candidates of a job by their ranks.
pub fn list_candidates(store: &Store, job_id: i64) -> (r: Vec<Candidate>)
    requires
        store@.valid(),
    ensures
        candidate_views(r@).to_multiset() == candidates_of(store@, job_id as int).to_multiset(),
        forall|a: int, b: int| 0 <= a < b < r@.len() ==> (#[trigger] r@[a]).rank <= (
        #[trigger] r@[b]).rank,
{
    let ghost all = store@.candidates;
    let ghost pick = |c: CandidateView| c.job_id == job_id;
    let mut list: Vec<Candidate> = Vec::new();
    let mut i: usize = 0;
    proof {
        reveal(Seq::filter);
        assert(all.take(0) =~= Seq::empty());
        assert(candidate_views(list@) =~= Seq::empty());
    }
    while i < store.candidates.len()
        invariant
            i <= store.candidates@.len(),
            all == store@.candidates,
            pick == (|c: CandidateView| c.job_id == job_id),
            candidate_views(list@) == all.take(i as int).filter(pick),
        decreases store.candidates@.len() - i,
    {
        let c = &store.candidates[i];
        let ghost before = candidate_views(list@);
        assert(all.take(i + 1) =~= all.take(i as int).push(c@));
        proof {
            filter_of_push(all.take(i as int), c@, pick);
        }
        if c.job_id == job_id {
            assert(pick(c@));
            list.push(c.copy());
            assert(candidate_views(list@) =~= before.push(c@));
        } else {
            assert(!pick(c@));
        }
        i += 1;
    }
    assert(all.take(i as int) =~= all);
    let ghost given = list@;
    let sorted = sort(list);
    proof {
        mapping_keeps_multisets(sorted@, given, |c: Candidate| c@);
        assert forall|a: int, b: int| 0 <= a < b < sorted@.len() implies (
            #[trigger] sorted@[a]).rank
            <= (#[trigger] sorted@[b]).rank by {
            let ks = crate::order::keys(sorted@);
            let leq = |x: int, y: int| Candidate::in_order(x, y);
            assert(ks[a] == sorted@[a].key() && ks[b] == sorted@[b].key());
            assert(leq(ks[a], ks[b]));
        }
    }
    sorted
}

} // verus!
