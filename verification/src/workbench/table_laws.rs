//! What the tables of the workbench say after something is entered.
use vstd::prelude::*;

use crate::double::Double;
use crate::canon::Decimals;
use crate::json::JsonView;
use crate::workbench::clock::{covers, first_covering, offset_at, request_objection, segment_row};
use crate::workbench::db::{
    has_batch, has_evidence, has_job, to_be_retried, CandRowView, DbView, JobRowView, XcorrRowView,
};
use crate::workbench::evidence::{content_number, evidence_objection, with_evidence};
use crate::workbench::ingest::{
    batch_fingerprint, batch_links, batch_objection, first_objection, link_objection, obs_objection,
    with_batch, BatchLink,
};
use crate::workbench::jobs::{cand_row, new_job, with_job, with_result};
use crate::workbench::models::{
    ClockSegmentReqView, ClockSegmentView, EvidenceReqView, IngestObsView, IngestReqView,
    IngestXcorrView,
};
use crate::workbench::snapshot::CandidateOutView;

verus! {

// ---------- Batches ----------

/// Every report of a new batch has a row with the next number, which says what
/// was reported: the station, the two times, the band and the strength.
pub proof fn reports_are_read_as_they_came(
    v: DbView,
    req: IngestReqView,
    now: Double,
    d: Decimals,
    k: int,
)
    requires
        !has_batch(v.batches, batch_fingerprint(req, d)),
        0 <= k < req.observations.len(),
    ensures
        ({
            let w = with_batch(v, req, now, d);
            let r = w.observations[v.observations.len() + k];
            let o = req.observations[k];
            &&& w.observations.len() == v.observations.len() + req.observations.len()
            &&& r.obs_id == v.last_obs + 1 + k
            &&& r.batch_fp == batch_fingerprint(req, d)
            &&& r.station_id == o.station_id
            &&& r.event_ref == o.event_ref
            &&& r.t_device == o.t_device
            &&& r.local_onset_s == o.local_onset_s
            &&& r.peak_band_hz == o.peak_band_hz
            &&& r.snr_db == o.snr_db
            &&& r.created_seq == k
            &&& w.last_obs == v.last_obs + req.observations.len()
            &&& w.batches.len() == v.batches.len() + 1
            &&& w.batches.last().fingerprint == batch_fingerprint(req, d)
            &&& req.received_at is Some ==> w.batches.last().received_at == req.received_at->0
            &&& req.received_at is None ==> w.batches.last().received_at == now
        }),
{
}

/// A row of the delays says what delay `j` of report `i` says: between the two
/// observations, the one that was reported first coming first.
pub open spec fn is_link(
    r: XcorrRowView,
    obs: Seq<IngestObsView>,
    last_obs: int,
    i: int,
    j: int,
) -> bool {
    let x = obs[i].xcorr[j];
    &&& 0 <= i < obs.len()
    &&& 0 <= j < obs[i].xcorr.len()
    &&& i < x.obs_index ==> r.obs_a == last_obs + 1 + i && r.obs_b == last_obs + 1 + x.obs_index
    &&& i >= x.obs_index ==> r.obs_a == last_obs + 1 + x.obs_index && r.obs_b == last_obs + 1 + i
    &&& r.delay_s == x.delay_s
    &&& r.sigma_s == x.sigma_s
    &&& r.peak_index == x.peak_index
    &&& r.multipath == x.multipath
}

/// A row of the delays says what some delay of the reports says.
pub open spec fn is_some_link(r: XcorrRowView, obs: Seq<IngestObsView>, last_obs: int) -> bool {
    exists|i: int, j: int| #[trigger] is_link(r, obs, last_obs, i, j)
}

spec fn stands_for(l: BatchLink, obs: Seq<IngestObsView>, i: int, j: int) -> bool {
    let x = obs[i].xcorr[j];
    &&& 0 <= i < obs.len()
    &&& 0 <= j < obs[i].xcorr.len()
    &&& l.x == x
    &&& i < x.obs_index ==> l.a == i && l.b == x.obs_index
    &&& i >= x.obs_index ==> l.a == x.obs_index && l.b == i
}

spec fn stands_for_some(l: BatchLink, obs: Seq<IngestObsView>) -> bool {
    exists|i: int, j: int| #[trigger] stands_for(l, obs, i, j)
}

proof fn links_of_reports(obs: Seq<IngestObsView>, n: int)
    requires
        0 <= n <= obs.len(),
    ensures
        forall|k: int|
            0 <= k < batch_links(obs, n).len() ==> stands_for_some(
                #[trigger] batch_links(obs, n)[k],
                obs,
            ),
    decreases n,
{
    if n > 0 {
        links_of_reports(obs, n - 1);
        let before = batch_links(obs, n - 1);
        let more = crate::workbench::ingest::links_from(obs[n - 1], n - 1);
        let now = batch_links(obs, n);
        assert(now == before + more);
        assert forall|k: int| 0 <= k < now.len() implies stands_for_some(
            #[trigger] now[k],
            obs,
        ) by {
            if k < before.len() {
                assert(now[k] == before[k]);
            } else {
                assert(now[k] == more[k - before.len()]);
                assert(stands_for(now[k], obs, n - 1, k - before.len()));
            }
        }
    }
}

proof fn link_of_a_report(obs: Seq<IngestObsView>, n: int, i: int, j: int) -> (k: int)
    requires
        0 <= i < n <= obs.len(),
        0 <= j < obs[i].xcorr.len(),
    ensures
        0 <= k < batch_links(obs, n).len(),
        stands_for(batch_links(obs, n)[k], obs, i, j),
    decreases n,
{
    let before = batch_links(obs, n - 1);
    let more = crate::workbench::ingest::links_from(obs[n - 1], n - 1);
    let now = batch_links(obs, n);
    assert(now == before + more);
    if i < n - 1 {
        let k = link_of_a_report(obs, n - 1, i, j);
        assert(now[k] == before[k]);
        k
    } else {
        let k = before.len() + j;
        assert(now[k] == more[j]);
        k
    }
}

/// Every delay that comes with a new batch is one of its reports', and the rows
/// have the next numbers.
pub proof fn links_are_read_as_they_came(
    v: DbView,
    req: IngestReqView,
    now: Double,
    d: Decimals,
    m: int,
)
    requires
        !has_batch(v.batches, batch_fingerprint(req, d)),
        v.xcorrs.len() <= m < with_batch(v, req, now, d).xcorrs.len(),
    ensures
        ({
            let w = with_batch(v, req, now, d);
            &&& is_some_link(w.xcorrs[m], req.observations, v.last_obs)
            &&& w.xcorrs[m].xc_id == v.last_xcorr + 1 + (m - v.xcorrs.len())
        }),
{
    let obs = req.observations;
    links_of_reports(obs, obs.len() as int);
    let links = batch_links(obs, obs.len() as int);
    let w = with_batch(v, req, now, d);
    let k = m - v.xcorrs.len();
    assert(stands_for_some(links[k], obs));
    let (i, j) = choose|i: int, j: int| #[trigger] stands_for(links[k], obs, i, j);
    assert(is_link(w.xcorrs[m], obs, v.last_obs, i, j));
}

/// Every delay of every report of a new batch has a row.
pub proof fn every_link_is_read(
    v: DbView,
    req: IngestReqView,
    now: Double,
    d: Decimals,
    i: int,
    j: int,
)
    requires
        !has_batch(v.batches, batch_fingerprint(req, d)),
        0 <= i < req.observations.len(),
        0 <= j < req.observations[i].xcorr.len(),
    ensures
        exists|m: int|
            v.xcorrs.len() <= m < with_batch(v, req, now, d).xcorrs.len() && is_link(
                #[trigger] with_batch(v, req, now, d).xcorrs[m],
                req.observations,
                v.last_obs,
                i,
                j,
            ),
{
    let obs = req.observations;
    let w = with_batch(v, req, now, d);
    let k = link_of_a_report(obs, obs.len() as int, i, j);
    let m = v.xcorrs.len() + k;
    assert(is_link(w.xcorrs[m], obs, v.last_obs, i, j));
}

/// A report is in order: its times are finite, its band is not below zero, its
/// strength is finite, and each of its delays goes to another report of the
/// batch and has a finite uncertainty above zero.
pub open spec fn is_in_order(obs: Seq<IngestObsView>, i: int) -> bool {
    let o = obs[i];
    &&& o.local_onset_s.finite() && o.t_device.finite()
    &&& !o.peak_band_hz.below(Double { bits: 0 })
    &&& o.snr_db.finite()
    &&& forall|j: int|
        0 <= j < o.xcorr.len() ==> (#[trigger] o.xcorr[j]).obs_index < obs.len()
            && o.xcorr[j].obs_index != i && o.xcorr[j].sigma_s.finite() && (Double {
            bits: 0,
        }).below(o.xcorr[j].sigma_s)
}

proof fn links_are_in_order(links: Seq<IngestXcorrView>, i: int, n: int)
    ensures
        crate::workbench::ingest::first_link_objection(links, i, n) is None <==> forall|j: int|
            0 <= j < links.len() ==> (#[trigger] links[j]).obs_index < n && links[j].obs_index != i
                && links[j].sigma_s.finite() && (Double { bits: 0 }).below(links[j].sigma_s),
    decreases links.len(),
{
    if links.len() > 0 {
        let rest = links.drop_first();
        links_are_in_order(rest, i, n);
        let good = |x: IngestXcorrView|
            x.obs_index < n && x.obs_index != i && x.sigma_s.finite() && (Double { bits: 0 }).below(
                x.sigma_s,
            );
        assert(link_objection(links[0], i, n) is None <==> good(links[0]));
        if forall|j: int| 0 <= j < rest.len() ==> good(#[trigger] rest[j]) {
            if good(links[0]) {
                assert forall|j: int| 0 <= j < links.len() implies good(#[trigger] links[j]) by {
                    if j > 0 {
                        assert(links[j] == rest[j - 1]);
                        assert(good(rest[j - 1]));
                    }
                }
            }
        }
        if forall|j: int| 0 <= j < links.len() ==> good(#[trigger] links[j]) {
            assert(good(links[0]));
            assert forall|j: int| 0 <= j < rest.len() implies good(#[trigger] rest[j]) by {
                assert(good(links[j + 1]));
            }
        }
    }
}

proof fn reports_are_in_order(obs: Seq<IngestObsView>, from: int)
    requires
        0 <= from <= obs.len(),
    ensures
        first_objection(obs, from) is None <==> forall|i: int|
            from <= i < obs.len() ==> #[trigger] is_in_order(obs, i),
    decreases obs.len() - from,
{
    if from < obs.len() {
        reports_are_in_order(obs, from + 1);
        links_are_in_order(obs[from].xcorr, from, obs.len() as int);
        assert(obs_objection(obs[from], from, obs.len() as int) is None <==> is_in_order(
            obs,
            from,
        ));
    }
}

/// Nothing is said against a batch if and only if it holds a report and all its
/// reports are in order.
pub proof fn batches_in_order_are_not_objected_to(obs: Seq<IngestObsView>)
    ensures
        batch_objection(obs) is None <==> obs.len() > 0 && forall|i: int|
            0 <= i < obs.len() ==> #[trigger] is_in_order(obs, i),
{
    reports_are_in_order(obs, 0);
}

// ---------- Clocks ----------

/// A clock segment is read as it was entered, under its number.
pub proof fn a_segment_is_read_as_entered(input: ClockSegmentReqView, id: int)
    ensures
        ({
            let s = segment_row(input, id);
            &&& s.seg_id == id
            &&& s.station_id == input.station_id
            &&& s.start_s == input.start_s
            &&& s.end_s == input.end_s
            &&& s.offset_s == input.offset_s
            &&& s.sigma_s == input.sigma_s
            &&& s.note == input.note
        }),
{
}

/// A segment is well formed: its start and its offset are finite, it ends, if at
/// all, at a finite time after its start, and its uncertainty is finite and not
/// below zero.
pub open spec fn is_well_formed(input: ClockSegmentReqView) -> bool {
    &&& input.start_s.finite() && input.offset_s.finite()
    &&& input.end_s is Some ==> input.end_s->0.finite() && input.start_s.below(input.end_s->0)
    &&& input.sigma_s.finite() && !input.sigma_s.below(Double { bits: 0 })
}

/// Nothing is said against a segment in itself if and only if it is well formed.
pub proof fn well_formed_segments_are_not_objected_to(input: ClockSegmentReqView)
    ensures
        request_objection(input) is None <==> is_well_formed(input),
{
}

/// Two intervals that end before their bounds have a moment in common: each
/// begins before the other ends; what has no end never ends.
pub open spec fn meet(input: ClockSegmentReqView, s: ClockSegmentView) -> bool {
    &&& s.end_s is Some ==> input.start_s.below(s.end_s->0)
    &&& input.end_s is Some ==> s.start_s.below(input.end_s->0)
}

/// A well-formed segment is refused for its time if and only if the station has
/// a segment with which it has a moment in common.
pub proof fn segments_are_refused_where_they_meet(
    input: ClockSegmentReqView,
    segs: Seq<ClockSegmentView>,
)
    requires
        is_well_formed(input),
        forall|i: int|
            0 <= i < segs.len() ==> (#[trigger] segs[i]).start_s.finite() && (segs[i].end_s is Some
                ==> segs[i].end_s->0.finite()),
    ensures
        crate::workbench::clock::first_collision(input, segs) is Some <==> exists|i: int|
            0 <= i < segs.len() && meet(input, #[trigger] segs[i]),
    decreases segs.len(),
{
    if segs.len() > 0 {
        let rest = segs.drop_first();
        assert forall|i: int| 0 <= i < rest.len() implies (#[trigger] rest[i]).start_s.finite() && (
        rest[i].end_s is Some ==> rest[i].end_s->0.finite()) by {
            assert(rest[i] == segs[i + 1]);
        }
        segments_are_refused_where_they_meet(input, rest);
        assert(segs[0].start_s.finite());
        assert(crate::workbench::clock::collides(input, segs[0]) == meet(input, segs[0]));
        if exists|i: int| 0 <= i < rest.len() && meet(input, #[trigger] rest[i]) {
            let i = choose|i: int| 0 <= i < rest.len() && meet(input, #[trigger] rest[i]);
            assert(meet(input, segs[i + 1]));
        }
        if exists|i: int| 0 <= i < segs.len() && meet(input, #[trigger] segs[i]) {
            let i = choose|i: int| 0 <= i < segs.len() && meet(input, #[trigger] segs[i]);
            if i > 0 {
                assert(rest[i - 1] == segs[i]);
            }
        }
    }
}

/// A segment holds at a time: it has begun, and it has not ended.
pub open spec fn holds(s: ClockSegmentView, t: Double) -> bool {
    &&& s.start_s.below(t) || s.start_s.same_number(t)
    &&& s.end_s is Some ==> t.below(s.end_s->0)
}

/// A lock goes before every segment: its offset and its uncertainty count.
pub proof fn a_lock_goes_before_segments(
    segs: Seq<ClockSegmentView>,
    offset: Double,
    sigma: Double,
    t: Double,
)
    ensures
        ({
            let e = offset_at(segs, Some((offset, sigma)), t);
            e.offset_s == offset && e.sigma_s == sigma && e.locked && !e.unknown
        }),
{
}

/// Without a lock the first segment that holds counts, with its offset and its
/// uncertainty.
pub proof fn without_a_lock_the_segment_that_holds_counts(
    segs: Seq<ClockSegmentView>,
    t: Double,
    k: int,
)
    requires
        0 <= k < segs.len(),
        holds(segs[k], t),
        forall|i: int| 0 <= i < k ==> !holds(#[trigger] segs[i], t),
    ensures
        ({
            let e = offset_at(segs, None, t);
            e.offset_s == segs[k].offset_s && e.sigma_s == segs[k].sigma_s && !e.locked
                && !e.unknown
        }),
    decreases segs.len(),
{
    assert(covers(segs[0], t) == holds(segs[0], t));
    if k > 0 {
        let rest = segs.drop_first();
        assert(rest[k - 1] == segs[k]);
        assert forall|i: int| 0 <= i < k - 1 implies !holds(#[trigger] rest[i], t) by {
            assert(rest[i] == segs[i + 1]);
        }
        assert(!holds(segs[0], t));
        without_a_lock_the_segment_that_holds_counts(rest, t, k - 1);
    }
}

/// Where there is neither a lock nor a segment that holds, the clock is free:
/// its offset is zero and its uncertainty a second.
pub proof fn without_either_the_clock_is_free(segs: Seq<ClockSegmentView>, t: Double)
    requires
        forall|i: int| 0 <= i < segs.len() ==> !holds(#[trigger] segs[i], t),
    ensures
        ({
            let e = offset_at(segs, None, t);
            e.offset_s.bits == 0 && e.sigma_s.bits == 0x3ff0_0000_0000_0000 && !e.locked
                && e.unknown
        }),
    decreases segs.len(),
{
    if segs.len() > 0 {
        let rest = segs.drop_first();
        assert(!holds(segs[0], t));
        assert(covers(segs[0], t) == holds(segs[0], t));
        assert forall|i: int| 0 <= i < rest.len() implies !holds(#[trigger] rest[i], t) by {
            assert(rest[i] == segs[i + 1]);
        }
        without_either_the_clock_is_free(rest, t);
        assert(first_covering(segs, t) is None);
    }
}

// ---------- Judgements ----------

/// A judgement that is new is read as it was given, and nothing else changes.
pub proof fn a_judgement_is_read_as_given(
    v: DbView,
    event_id: Seq<char>,
    req: EvidenceReqView,
    now: Double,
    d: Decimals,
)
    requires
        !has_evidence(v.evidence, content_number(event_id, req, d)),
        !now.nan(),
    ensures
        ({
            let w = with_evidence(v, event_id, req, now, d);
            let e = w.evidence.last();
            &&& w.evidence.len() == v.evidence.len() + 1
            &&& e.event_id == event_id
            &&& e.kind == req.kind
            &&& e.payload == req.payload
            &&& e.created_at == now
            &&& w == (DbView { evidence: w.evidence, ..v })
            &&& forall|i: int| 0 <= i < v.evidence.len() ==> #[trigger] w.evidence[i]
                == v.evidence[i]
        }),
{
}

/// A payload has a member.
pub open spec fn has(payload: JsonView, key: Seq<char>) -> bool {
    payload.member(key) is Some
}

proof fn the_kinds_are_three()
    ensures
        "exclude_peak"@ != "lock_clock"@,
        "exclude_peak"@ != "keep_pair"@,
        "lock_clock"@ != "keep_pair"@,
{
    reveal_strlit("exclude_peak");
    reveal_strlit("lock_clock");
    reveal_strlit("keep_pair");
    assert("exclude_peak"@.len() == 12);
    assert("lock_clock"@.len() == 10);
    assert("keep_pair"@.len() == 9);
}

/// Nothing is said against a judgement if and only if it is of one of the three
/// kinds and its payload is an object with all members of the kind.
pub proof fn judgements_with_all_members_are_not_objected_to(
    kind: Seq<char>,
    payload: JsonView,
)
    ensures
        evidence_objection(kind, payload) is None <==> payload is Object && {
            ||| kind == "exclude_peak"@ && has(payload, "station_a"@) && has(payload, "station_b"@)
                && has(payload, "peak_index"@)
            ||| kind == "lock_clock"@ && has(payload, "station_id"@) && has(payload, "offset_s"@)
            ||| kind == "keep_pair"@ && has(payload, "candidate_a_key"@) && has(
                payload,
                "candidate_b_key"@,
            )
        },
{
    the_kinds_are_three();
    reveal_with_fuel(crate::workbench::evidence::first_missing, 4);
    let three = seq!["station_a"@, "station_b"@, "peak_index"@];
    assert(three.drop_first() =~= seq!["station_b"@, "peak_index"@]);
    assert(three.drop_first().drop_first() =~= seq!["peak_index"@]);
    assert(three.drop_first().drop_first().drop_first() =~= Seq::empty());
    let two = seq!["station_id"@, "offset_s"@];
    assert(two.drop_first() =~= seq!["offset_s"@]);
    assert(two.drop_first().drop_first() =~= Seq::empty());
    let pair = seq!["candidate_a_key"@, "candidate_b_key"@];
    assert(pair.drop_first() =~= seq!["candidate_b_key"@]);
    assert(pair.drop_first().drop_first() =~= Seq::empty());
}

// ---------- Jobs ----------

/// A new job waits for its event under its fingerprint, and nothing else
/// changes.
pub proof fn a_new_job_waits(v: DbView, fp: Seq<char>, event_id: Seq<char>, now: Double)
    requires
        !has_job(v.jobs, fp),
    ensures
        ({
            let w = with_job(v, new_job(fp, event_id, now));
            let j = w.jobs.last();
            &&& w.jobs.len() == v.jobs.len() + 1
            &&& j.fingerprint == fp
            &&& j.event_id == event_id
            &&& j.state == "created"@
            &&& j.created_at == now
            &&& j.started_at is None
            &&& j.finished_at is None
            &&& j.error == ""@
            &&& j.worker == ""@
            &&& w == (DbView { jobs: w.jobs, ..v })
            &&& forall|i: int| 0 <= i < v.jobs.len() ==> #[trigger] w.jobs[i] == v.jobs[i]
        }),
{
}

/// A candidate is read as it was put out: its shape, its reason, its position
/// coordinate by coordinate where it is a number, its region, its numbers and
/// its residuals, under the rank of its place.
pub open spec fn reads_as(r: CandRowView, c: CandidateOutView, rank: int) -> bool {
    &&& r.rank_in_job == rank
    &&& r.cand_key == c.cand_key
    &&& r.kind == c.kind
    &&& r.status == c.status
    &&& r.reason == c.reason
    &&& c.x is Some && !c.x->0.nan() ==> r.x is Some && r.x->0 == c.x->0
    &&& !(c.x is Some && !c.x->0.nan()) ==> r.x is None
    &&& c.y is Some && !c.y->0.nan() ==> r.y is Some && r.y->0 == c.y->0
    &&& !(c.y is Some && !c.y->0.nan()) ==> r.y is None
    &&& c.region is Some ==> r.region == c.region->0
    &&& c.region is None ==> r.region is Null
    &&& r.metrics == c.metrics
    &&& r.residuals == c.residuals
}

/// What a run puts out is read of its job, in its order, and the job is done by
/// the worker, with both times and without an error.
pub proof fn a_run_is_read_as_it_was_put_out(
    v: DbView,
    fp: Seq<char>,
    event_id: Seq<char>,
    list: Seq<CandidateOutView>,
    worker: Seq<char>,
    started: Double,
    finished: Double,
    k: int,
)
    requires
        has_job(v.jobs, fp),
        0 <= k < list.len(),
    ensures
        ({
            let w = with_result(v, fp, event_id, list, worker, started, finished);
            let rows = crate::workbench::laws::candidates_of(w, fp);
            &&& rows.len() == list.len()
            &&& reads_as(rows[k], list[k], k)
            &&& rows[k].job_fp == fp
            &&& rows[k].event_id == event_id
            &&& rows[k].cand_id == v.last_candidate + 1 + k
            &&& w.jobs.len() == v.jobs.len()
            &&& forall|i: int|
                0 <= i < v.jobs.len() && (#[trigger] v.jobs[i]).fingerprint == fp ==> {
                    &&& w.jobs[i].state == "done"@
                    &&& w.jobs[i].worker == worker
                    &&& w.jobs[i].error == ""@
                    &&& !started.nan() ==> w.jobs[i].started_at == Some(started)
                    &&& !finished.nan() ==> w.jobs[i].finished_at == Some(finished)
                    &&& w.jobs[i].event_id == v.jobs[i].event_id
                    &&& w.jobs[i].created_at == v.jobs[i].created_at
                    &&& w.jobs[i].fingerprint == fp
                }
        }),
{
    crate::workbench::laws::a_run_shows_what_was_solved(
        v,
        fp,
        event_id,
        list,
        worker,
        started,
        finished,
    );
    assert(reads_as(
        cand_row(fp, event_id, list[k], v.last_candidate + 1 + k, k),
        list[k],
        k,
    ));
}

/// A job that a crash left running is put back as if it had not begun; any other
/// stays as it is.
pub proof fn a_job_that_crashed_is_put_back(j: JobRowView)
    ensures
        ({
            let r = to_be_retried(j);
            &&& j.state == "running"@ ==> r.state == "created"@ && r.started_at is None && r.worker
                == ""@
            &&& j.state != "running"@ ==> r == j
            &&& r.fingerprint == j.fingerprint
            &&& r.event_id == j.event_id
            &&& r.created_at == j.created_at
            &&& r.finished_at == j.finished_at
            &&& r.error == j.error
        }),
{
}

} // verus!
