//! What holds of jobs, crashes and judgements over several operations.
use vstd::prelude::*;
use vstd::utf8::encode_utf8;

use crate::arrange::place_lt;
use crate::canon::{a_further_item_lengthens, canonical_text, Decimals, Quoting};
use crate::double::Double;
use crate::json::JsonView;
use crate::order::{picked_items_keep_their_order, picked_positions};
use crate::workbench::db::{
    has_job, job_in_state, recovered, running, to_be_retried, CandRowView, DbView,
};
use crate::workbench::jobs::{
    cand_rows, finished_job, lock_json, of_others, pair_json, peak_json, snapshot_json, with_result,
};
use crate::workbench::picture::{peak_place, with_lock, with_peak};
use crate::workbench::snapshot::{
    CandidateOutView, ExcludedPeakView, KeptPairView, LockView, SnapshotView,
};

verus! {

/// The candidates of a job.
pub open spec fn candidates_of(v: DbView, fp: Seq<char>) -> Seq<CandRowView> {
    v.candidates.filter(of_job(fp))
}

pub open spec fn of_job(fp: Seq<char>) -> spec_fn(CandRowView) -> bool {
    |c: CandRowView| c.job_fp == fp
}

/// What is picked out of what was picked, where the first pick leaves out
/// nothing that the second one wants.
proof fn picking_twice<A>(s: Seq<A>, first: spec_fn(A) -> bool, second: spec_fn(A) -> bool)
    requires
        forall|x: A| #[trigger] second(x) ==> first(x),
    ensures
        s.filter(first).filter(second) == s.filter(second),
    decreases s.len(),
{
    reveal(Seq::filter);
    if s.len() > 0 {
        let rest = s.drop_last();
        let x = s.last();
        picking_twice(rest, first, second);
        assert(s =~= rest.push(x));
        if first(x) {
            assert(s.filter(first) =~= rest.filter(first).push(x));
            assert(rest.filter(first).push(x).drop_last() =~= rest.filter(first));
        }
    }
}

/// Where nothing is picked, nothing is left.
proof fn nothing_is_picked<A>(s: Seq<A>, pick: spec_fn(A) -> bool)
    requires
        forall|i: int| 0 <= i < s.len() ==> !pick(#[trigger] s[i]),
    ensures
        s.filter(pick) == Seq::<A>::empty(),
{
    picked_items_keep_their_order(s, pick);
    let f = s.filter(pick);
    if f.len() > 0 {
        assert(f[0] == s[picked_positions(s, pick)[0]]);
    }
    assert(f =~= Seq::empty());
}

/// Where everything is picked, nothing is left out.
proof fn everything_is_picked<A>(s: Seq<A>, pick: spec_fn(A) -> bool)
    requires
        forall|i: int| 0 <= i < s.len() ==> pick(#[trigger] s[i]),
    ensures
        s.filter(pick) == s,
    decreases s.len(),
{
    reveal(Seq::filter);
    if s.len() > 0 {
        let rest = s.drop_last();
        assert forall|i: int| 0 <= i < rest.len() implies pick(#[trigger] rest[i]) by {
            assert(rest[i] == s[i]);
        }
        everything_is_picked(rest, pick);
        assert(s =~= rest.push(s.last()));
    } else {
        assert(s.filter(pick) =~= s);
    }
}

/// Running a job leaves the candidates and the progress of every other job as
/// they are, and changes no other table.
pub proof fn a_run_touches_only_its_own(
    v: DbView,
    fp: Seq<char>,
    event_id: Seq<char>,
    list: Seq<CandidateOutView>,
    worker: Seq<char>,
    started: Double,
    finished: Double,
    other: Seq<char>,
)
    requires
        other != fp,
    ensures
        ({
            let w = with_result(v, fp, event_id, list, worker, started, finished);
            &&& candidates_of(w, other) == candidates_of(v, other)
            &&& w.jobs.len() == v.jobs.len()
            &&& forall|i: int|
                0 <= i < v.jobs.len() && (#[trigger] v.jobs[i]).fingerprint != fp ==> w.jobs[i]
                    == v.jobs[i]
            &&& w == (DbView {
                jobs: w.jobs,
                candidates: w.candidates,
                last_candidate: w.last_candidate,
                ..v
            })
        }),
{
    let w = with_result(v, fp, event_id, list, worker, started, finished);
    let kept = v.candidates.filter(of_others(fp));
    let new = cand_rows(fp, event_id, list, v.last_candidate);
    Seq::filter_distributes_over_add(kept, new, of_job(other));
    picking_twice(v.candidates, of_others(fp), of_job(other));
    nothing_is_picked(new, of_job(other));
    assert(candidates_of(v, other) + Seq::empty() =~= candidates_of(v, other));
}

/// After a run the job is done, and its candidates are the ones that the solve
/// put out, in order.
pub proof fn a_run_shows_what_was_solved(
    v: DbView,
    fp: Seq<char>,
    event_id: Seq<char>,
    list: Seq<CandidateOutView>,
    worker: Seq<char>,
    started: Double,
    finished: Double,
)
    requires
        has_job(v.jobs, fp),
    ensures
        ({
            let w = with_result(v, fp, event_id, list, worker, started, finished);
            &&& job_in_state(w.jobs, fp, "done"@)
            &&& candidates_of(w, fp) == cand_rows(fp, event_id, list, v.last_candidate)
        }),
{
    let w = with_result(v, fp, event_id, list, worker, started, finished);
    let k = choose|k: int| 0 <= k < v.jobs.len() && (#[trigger] v.jobs[k]).fingerprint == fp;
    assert(w.jobs[k] == finished_job(v.jobs[k], fp, worker, started, finished));
    let kept = v.candidates.filter(of_others(fp));
    let new = cand_rows(fp, event_id, list, v.last_candidate);
    Seq::filter_distributes_over_add(kept, new, of_job(fp));
    picked_items_keep_their_order(v.candidates, of_others(fp));
    assert forall|i: int| 0 <= i < kept.len() implies !of_job(fp)(#[trigger] kept[i]) by {
        assert(of_others(fp)(kept[i]));
    }
    nothing_is_picked(kept, of_job(fp));
    everything_is_picked(new, of_job(fp));
    assert(Seq::<CandRowView>::empty() + new =~= new);
}

/// After recovery no job runs, what a running job had entered is gone, and the
/// candidates of all other jobs are there unchanged.
pub proof fn recovery_leaves_only_what_is_finished(v: DbView, fp: Seq<char>)
    ensures
        ({
            let w = recovered(v);
            &&& forall|i: int| 0 <= i < w.jobs.len() ==> !running(#[trigger] w.jobs[i])
            &&& job_in_state(v.jobs, fp, "running"@) ==> candidates_of(w, fp).len() == 0
            &&& !job_in_state(v.jobs, fp, "running"@) ==> candidates_of(w, fp) == candidates_of(
                v,
                fp,
            )
            &&& w == (DbView { jobs: w.jobs, candidates: w.candidates, ..v })
        }),
{
    let w = recovered(v);
    reveal_strlit("created");
    reveal_strlit("running");
    assert("created"@[0] == 'c' && "running"@[0] == 'r');
    assert forall|i: int| 0 <= i < w.jobs.len() implies !running(#[trigger] w.jobs[i]) by {
        assert(w.jobs[i] == to_be_retried(v.jobs[i]));
    }
    let keep = |c: CandRowView| !job_in_state(v.jobs, c.job_fp, "running"@);
    if job_in_state(v.jobs, fp, "running"@) {
        picked_items_keep_their_order(v.candidates, keep);
        assert forall|i: int| 0 <= i < w.candidates.len() implies !of_job(fp)(
            #[trigger] w.candidates[i],
        ) by {
            assert(keep(w.candidates[i]));
        }
        nothing_is_picked(w.candidates, of_job(fp));
    } else {
        picking_twice(v.candidates, keep, of_job(fp));
    }
}

/// A job that a crash left running waits again after recovery; one that was done
/// stays done.
pub proof fn recovery_queues_again(v: DbView, fp: Seq<char>)
    ensures
        job_in_state(v.jobs, fp, "running"@) ==> job_in_state(recovered(v).jobs, fp, "created"@),
        job_in_state(v.jobs, fp, "done"@) ==> job_in_state(recovered(v).jobs, fp, "done"@),
{
    let w = recovered(v);
    reveal_strlit("done");
    reveal_strlit("running");
    assert("done"@[0] == 'd' && "running"@[0] == 'r');
    if job_in_state(v.jobs, fp, "running"@) {
        let k = choose|k: int|
            0 <= k < v.jobs.len() && (#[trigger] v.jobs[k]).fingerprint == fp && v.jobs[k].state
                == "running"@;
        assert(w.jobs[k] == to_be_retried(v.jobs[k]));
    }
    if job_in_state(v.jobs, fp, "done"@) {
        let k = choose|k: int|
            0 <= k < v.jobs.len() && (#[trigger] v.jobs[k]).fingerprint == fp && v.jobs[k].state
                == "done"@;
        assert(w.jobs[k] == to_be_retried(v.jobs[k]));
    }
}

// ---------- Judgements make new jobs ----------

/// A peak that was not excluded before comes in at some place.
proof fn a_new_peak_is_put_in(list: Seq<ExcludedPeakView>, p: ExcludedPeakView) -> (at: int)
    requires
        !list.contains(p),
    ensures
        0 <= at <= list.len(),
        with_peak(list, p) == list.insert(at, p),
    decreases list.len(),
{
    if list.len() == 0 {
        assert(with_peak(list, p) =~= list.insert(0, p));
        0
    } else if place_lt(peak_place(p), peak_place(list[0])) {
        assert(list[0] != p) by {
            assert(list.contains(list[0]));
        }
        assert(with_peak(list, p) =~= list.insert(0, p));
        0
    } else {
        assert(list[0] != p) by {
            assert(list.contains(list[0]));
        }
        let rest = list.drop_first();
        assert(!rest.contains(p)) by {
            if rest.contains(p) {
                let k = choose|k: int| 0 <= k < rest.len() && rest[k] == p;
                assert(list[k + 1] == p);
            }
        }
        let at = a_new_peak_is_put_in(rest, p);
        assert(with_peak(list, p) =~= list.insert(at + 1, p));
        at + 1
    }
}

/// A station is locked.
pub open spec fn is_locked(list: Seq<LockView>, id: Seq<char>) -> bool {
    exists|k: int| 0 <= k < list.len() && (#[trigger] list[k]).station_id == id
}

/// A lock of a station that was not locked before comes in at some place.
proof fn a_new_lock_is_put_in(list: Seq<LockView>, l: LockView) -> (at: int)
    requires
        !is_locked(list, l.station_id),
    ensures
        0 <= at <= list.len(),
        with_lock(list, l) == list.insert(at, l),
    decreases list.len(),
{
    if list.len() == 0 {
        assert(with_lock(list, l) =~= list.insert(0, l));
        0
    } else if crate::text::text_lt(l.station_id, list[0].station_id) {
        assert(list[0].station_id != l.station_id);
        assert(with_lock(list, l) =~= list.insert(0, l));
        0
    } else {
        assert(list[0].station_id != l.station_id);
        let rest = list.drop_first();
        assert(!is_locked(rest, l.station_id)) by {
            if is_locked(rest, l.station_id) {
                let k = choose|k: int|
                    0 <= k < rest.len() && (#[trigger] rest[k]).station_id == l.station_id;
                assert(list[k + 1].station_id == l.station_id);
            }
        }
        let at = a_new_lock_is_put_in(rest, l);
        assert(with_lock(list, l) =~= list.insert(at + 1, l));
        at + 1
    }
}

/// What the fingerprint of a picture is taken of.
pub open spec fn hashed(s: SnapshotView, d: Decimals) -> Seq<u8> {
    encode_utf8(canonical_text(snapshot_json(s), d, Quoting::Plain))
}

/// Keeping a further pair changes what the fingerprint is taken of.
pub proof fn a_kept_pair_changes_what_is_hashed(s: SnapshotView, p: KeptPairView, d: Decimals)
    ensures
        hashed((SnapshotView { kept_pairs: s.kept_pairs.push(p), ..s }), d) != hashed(s, d),
{
    let t = SnapshotView { kept_pairs: s.kept_pairs.push(p), ..s };
    let f = |p: KeptPairView| pair_json(p);
    let items = s.kept_pairs.map_values(f);
    let n = items.len() as int;
    assert(t.kept_pairs.map_values(f) =~= items.insert(n, pair_json(p)));
    let x = snapshot_json(s)->Object_0;
    let y = snapshot_json(t)->Object_0;
    assert(y =~= x.update(9, (x[9].0, JsonView::Array(items.insert(n, pair_json(p))))));
    a_further_item_lengthens(x, y, 9, items, n, pair_json(p), d, Quoting::Plain);
}

/// Excluding a peak that was not excluded changes what the fingerprint is taken
/// of.
pub proof fn an_excluded_peak_changes_what_is_hashed(
    s: SnapshotView,
    p: ExcludedPeakView,
    d: Decimals,
)
    requires
        !s.exclude_edges.contains(p),
    ensures
        hashed((SnapshotView { exclude_edges: with_peak(s.exclude_edges, p), ..s }), d) != hashed(
            s,
            d,
        ),
{
    let t = SnapshotView { exclude_edges: with_peak(s.exclude_edges, p), ..s };
    let f = |p: ExcludedPeakView| peak_json(p);
    let items = s.exclude_edges.map_values(f);
    let at = a_new_peak_is_put_in(s.exclude_edges, p);
    assert(t.exclude_edges.map_values(f) =~= items.insert(at, peak_json(p)));
    let x = snapshot_json(s)->Object_0;
    let y = snapshot_json(t)->Object_0;
    assert(y =~= x.update(7, (x[7].0, JsonView::Array(items.insert(at, peak_json(p))))));
    a_further_item_lengthens(x, y, 7, items, at, peak_json(p), d, Quoting::Plain);
}

/// Locking a clock that was not locked changes what the fingerprint is taken of.
pub proof fn a_locked_clock_changes_what_is_hashed(s: SnapshotView, l: LockView, d: Decimals)
    requires
        !is_locked(s.locks, l.station_id),
    ensures
        hashed((SnapshotView { locks: with_lock(s.locks, l), ..s }), d) != hashed(s, d),
{
    let t = SnapshotView { locks: with_lock(s.locks, l), ..s };
    let f = |l: LockView| lock_json(l);
    let items = s.locks.map_values(f);
    let at = a_new_lock_is_put_in(s.locks, l);
    assert(t.locks.map_values(f) =~= items.insert(at, lock_json(l)));
    let x = snapshot_json(s)->Object_0;
    let y = snapshot_json(t)->Object_0;
    assert(y =~= x.update(8, (x[8].0, JsonView::Array(items.insert(at, lock_json(l))))));
    a_further_item_lengthens(x, y, 8, items, at, lock_json(l), d, Quoting::Plain);
}

/// Of the locks of one station the last one holds.
pub proof fn the_last_lock_holds(list: Seq<LockView>, l: LockView)
    ensures
        crate::workbench::edges::lock_for(with_lock(list, l), l.station_id) == Some(
            (l.offset_s, l.sigma_s),
        ),
    decreases list.len(),
{
    let now = with_lock(list, l);
    if list.len() > 0 && list[0].station_id != l.station_id && !crate::text::text_lt(
        l.station_id,
        list[0].station_id,
    ) {
        the_last_lock_holds(list.drop_first(), l);
        assert(now.drop_first() =~= with_lock(list.drop_first(), l));
    }
}

/// Excluding a peak lists it, and what was listed stays listed.
pub proof fn an_excluded_peak_is_listed(
    list: Seq<ExcludedPeakView>,
    p: ExcludedPeakView,
    q: ExcludedPeakView,
)
    requires
        q == p || list.contains(q),
    ensures
        with_peak(list, p).contains(q),
    decreases list.len(),
{
    let now = with_peak(list, p);
    if list.len() == 0 {
        assert(now[0] == q);
    } else if list[0] == p {
        assert(list.contains(list[0]));
    } else if place_lt(peak_place(p), peak_place(list[0])) {
        if q == p {
            assert(now[0] == q);
        } else {
            let k = choose|k: int| 0 <= k < list.len() && list[k] == q;
            assert(now[k + 1] == q);
        }
    } else if q != p && list[0] == q {
        assert(now[0] == q);
    } else {
        let rest = list.drop_first();
        let more = with_peak(rest, p);
        if q != p {
            let k = choose|k: int| 0 <= k < list.len() && list[k] == q;
            assert(rest[k - 1] == q);
        }
        an_excluded_peak_is_listed(rest, p, q);
        let m = choose|m: int| 0 <= m < more.len() && more[m] == q;
        assert(now == seq![list[0]] + more);
        assert(now[m + 1] == q);
    }
}

} // verus!
