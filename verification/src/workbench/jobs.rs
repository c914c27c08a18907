//! Solve jobs: fingerprints, their life, and how candidates are entered so that
//! a crash leaves nothing that could be taken for a result.
use vstd::prelude::*;
use vstd::string::*;

use crate::canon::{barred, canonical_text, json_fingerprint, Decimals, Quoting};
use crate::digest::{fingerprint as digest_of, framed, slices};
use crate::double::Double;
use crate::json::{array, json_views, Json, JsonView, Members};
use crate::order::{filter_of_push, picked_items_keep_their_order};
use crate::text::same;
use crate::workbench::db::{
    candrow_views, fewer_candidates_are_ok, has_event, has_job, is_in_state, is_shape, is_state,
    job_in_state, jobrow_views, knows_event, knows_job, progressed_jobs_are_ok, CandRow,
    CandRowView, Db, DbView, JobRow, JobRowView,
};
use crate::workbench::models::{copy_residualrows, ClockSegment, ClockSegmentView};
pub use crate::workbench::picture::{
    build_snapshot, linked_observations, LinkedObs, ONSET_EDGE_SIGMA,
};
use crate::workbench::snapshot::{
    candidateout_views, edgeobs_views, excludedpeak_views, keptpair_views, lock_views,
    stationclock_views, stationinfo_views, CandidateOut, CandidateOutView, EdgeObs, EdgeObsView,
    ExcludedPeak, ExcludedPeakView, KeptPair, KeptPairView, Lock, LockView, Snapshot, SnapshotView,
    StationClock, StationClockView, StationInfo, StationInfoView,
};
use crate::workbench::solver::{belong, candidates_have_a_shape, shapely, solve, solved, Figures};

verus! {

// ---------- The fingerprint of a picture ----------

pub open spec fn number_or_null(n: Option<i64>) -> JsonView {
    match n {
        Some(k) => JsonView::Int(k as int),
        None => JsonView::Null,
    }
}

fn number_value(n: Option<i64>) -> (r: Json)
    ensures
        r@ == number_or_null(n),
{
    match n {
        Some(k) => Json::Int(k),
        None => Json::Null,
    }
}

pub open spec fn double_or_null(n: Option<Double>) -> JsonView {
    match n {
        Some(f) => JsonView::Float(f),
        None => JsonView::Null,
    }
}

pub(crate) fn double_value(n: Option<Double>) -> (r: Json)
    ensures
        r@ == double_or_null(n),
{
    match n {
        Some(f) => Json::Float(f),
        None => Json::Null,
    }
}

/// An edge.
pub open spec fn edge_json(x: EdgeObsView) -> JsonView {
    JsonView::Object(
        seq![
            ("a"@, JsonView::Text(x.station_a)),
            ("b"@, JsonView::Text(x.station_b)),
            ("delay"@, JsonView::Float(x.delay_s)),
            ("sigma"@, JsonView::Float(x.sigma_s)),
            ("peak"@, JsonView::Int(x.peak_index)),
            ("mp"@, JsonView::Bool(x.multipath)),
            ("origin"@, JsonView::Text(x.origin)),
            ("xc"@, number_or_null(x.xc_id)),
        ],
    )
}

fn edge_value(x: &EdgeObs) -> (r: Json)
    ensures
        r@ == edge_json(x@),
{
    let mut m = Members::new();
    m.put("a", Json::Text(x.station_a.clone()));
    m.put("b", Json::Text(x.station_b.clone()));
    m.put("delay", Json::Float(x.delay_s));
    m.put("sigma", Json::Float(x.sigma_s));
    m.put("peak", Json::Int(x.peak_index));
    m.put("mp", Json::Bool(x.multipath));
    m.put("origin", Json::Text(x.origin.clone()));
    m.put("xc", number_value(x.xc_id));
    let r = m.object();
    assert(r@->Object_0 =~= edge_json(x@)->Object_0);
    r
}

fn edge_values(list: &Vec<EdgeObs>) -> (r: Json)
    ensures
        r@ == JsonView::Array(edgeobs_views(list@).map_values(|x: EdgeObsView| edge_json(x))),
{
    let ghost all = edgeobs_views(list@);
    let mut out: Vec<Json> = Vec::new();
    let mut i: usize = 0;
    while i < list.len()
        invariant
            i <= list@.len(),
            all == edgeobs_views(list@),
            out@.len() == i,
            forall|k: int| 0 <= k < i ==> (#[trigger] out@[k])@ == edge_json(all[k]),
        decreases list@.len() - i,
    {
        assert(all[i as int] == list@[i as int]@);
        out.push(edge_value(&list[i]));
        i += 1;
    }
    assert(json_views(out@) =~= all.map_values(|x: EdgeObsView| edge_json(x)));
    array(out)
}

/// A station.
pub open spec fn station_json(x: StationInfoView) -> JsonView {
    JsonView::Object(
        seq![
            ("id"@, JsonView::Text(x.station_id)),
            ("x"@, JsonView::Float(x.x)),
            ("y"@, JsonView::Float(x.y)),
        ],
    )
}

fn station_value(x: &StationInfo) -> (r: Json)
    ensures
        r@ == station_json(x@),
{
    let mut m = Members::new();
    m.put("id", Json::Text(x.station_id.clone()));
    m.put("x", Json::Float(x.x));
    m.put("y", Json::Float(x.y));
    let r = m.object();
    assert(r@->Object_0 =~= station_json(x@)->Object_0);
    r
}

fn station_values(list: &Vec<StationInfo>) -> (r: Json)
    ensures
        r@ == JsonView::Array(
            stationinfo_views(list@).map_values(|x: StationInfoView| station_json(x))),
{
    let ghost all = stationinfo_views(list@);
    let mut out: Vec<Json> = Vec::new();
    let mut i: usize = 0;
    while i < list.len()
        invariant
            i <= list@.len(),
            all == stationinfo_views(list@),
            out@.len() == i,
            forall|k: int| 0 <= k < i ==> (#[trigger] out@[k])@ == station_json(all[k]),
        decreases list@.len() - i,
    {
        assert(all[i as int] == list@[i as int]@);
        out.push(station_value(&list[i]));
        i += 1;
    }
    assert(json_views(out@) =~= all.map_values(|x: StationInfoView| station_json(x)));
    array(out)
}

/// A clock segment of a station.
pub open spec fn segment_json(id: Seq<char>, x: ClockSegmentView) -> JsonView {
    JsonView::Object(
        seq![
            ("station"@, JsonView::Text(id)),
            ("start"@, JsonView::Float(x.start_s)),
            ("end"@, double_or_null(x.end_s)),
            ("offset"@, JsonView::Float(x.offset_s)),
            ("sigma"@, JsonView::Float(x.sigma_s)),
        ],
    )
}

fn segment_value(id: &str, x: &ClockSegment) -> (r: Json)
    ensures
        r@ == segment_json(id@, x@),
{
    let mut m = Members::new();
    m.put("station", Json::Text(id.to_owned()));
    m.put("start", Json::Float(x.start_s));
    m.put("end", double_value(x.end_s));
    m.put("offset", Json::Float(x.offset_s));
    m.put("sigma", Json::Float(x.sigma_s));
    let r = m.object();
    assert(r@->Object_0 =~= segment_json(id@, x@)->Object_0);
    r
}

/// The clock segments of all stations.
pub open spec fn clock_items(clocks: Seq<StationClockView>) -> Seq<JsonView>
    decreases clocks.len(),
{
    if clocks.len() == 0 {
        Seq::empty()
    } else {
        let c = clocks.last();
        clock_items(clocks.drop_last()) + c.segments.map_values(
            |s: ClockSegmentView| segment_json(c.station_id, s),
        )
    }
}

fn clock_values(clocks: &Vec<StationClock>) -> (r: Json)
    ensures
        r@ == JsonView::Array(clock_items(stationclock_views(clocks@))),
{
    let ghost all = stationclock_views(clocks@);
    let mut out: Vec<Json> = Vec::new();
    let mut i: usize = 0;
    assert(all.take(0) =~= Seq::empty());
    assert(json_views(out@) =~= Seq::empty());
    while i < clocks.len()
        invariant
            i <= clocks@.len(),
            all == stationclock_views(clocks@),
            json_views(out@) == clock_items(all.take(i as int)),
        decreases clocks@.len() - i,
    {
        let c = &clocks[i];
        assert(all.take(i + 1).drop_last() =~= all.take(i as int));
        assert(all.take(i + 1).last() == c@);
        let ghost before = json_views(out@);
        let ghost more =
            c@.segments.map_values(|s: ClockSegmentView| segment_json(c@.station_id, s));
        let mut j: usize = 0;
        assert(before =~= before + more.take(0));
        while j < c.segments.len()
            invariant
                j <= c.segments@.len(),
                more == c@.segments.map_values(
                    |s: ClockSegmentView| segment_json(c@.station_id, s),
                ),
                json_views(out@) =~= before + more.take(j as int),
            decreases c.segments@.len() - j,
        {
            let s = &c.segments[j];
            assert(c@.segments[j as int] == s@);
            let ghost now = json_views(out@);
            let v = segment_value(c.station_id.as_str(), s);
            assert(v@ == more[j as int]);
            out.push(v);
            assert(json_views(out@) =~= now.push(more[j as int]));
            assert(more.take(j + 1) =~= more.take(j as int).push(more[j as int]));
            j += 1;
        }
        assert(more.take(j as int) =~= more);
        i += 1;
    }
    assert(all.take(i as int) =~= all);
    array(out)
}

/// An excluded peak.
pub open spec fn peak_json(x: ExcludedPeakView) -> JsonView {
    JsonView::Array(
        seq![JsonView::Text(x.station_a), JsonView::Text(x.station_b), JsonView::Int(x.peak_index)],
    )
}

fn peak_value(x: &ExcludedPeak) -> (r: Json)
    ensures
        r@ == peak_json(x@),
{
    let mut v: Vec<Json> = Vec::new();
    v.push(Json::Text(x.station_a.clone()));
    v.push(Json::Text(x.station_b.clone()));
    v.push(Json::Int(x.peak_index));
    assert(json_views(v@) =~= peak_json(x@)->Array_0);
    array(v)
}

fn peak_values(list: &Vec<ExcludedPeak>) -> (r: Json)
    ensures
        r@ == JsonView::Array(
            excludedpeak_views(list@).map_values(|x: ExcludedPeakView| peak_json(x))),
{
    let ghost all = excludedpeak_views(list@);
    let mut out: Vec<Json> = Vec::new();
    let mut i: usize = 0;
    while i < list.len()
        invariant
            i <= list@.len(),
            all == excludedpeak_views(list@),
            out@.len() == i,
            forall|k: int| 0 <= k < i ==> (#[trigger] out@[k])@ == peak_json(all[k]),
        decreases list@.len() - i,
    {
        assert(all[i as int] == list@[i as int]@);
        out.push(peak_value(&list[i]));
        i += 1;
    }
    assert(json_views(out@) =~= all.map_values(|x: ExcludedPeakView| peak_json(x)));
    array(out)
}

/// A locked offset.
pub open spec fn lock_json(x: LockView) -> JsonView {
    JsonView::Object(
        seq![
            ("station"@, JsonView::Text(x.station_id)),
            ("offset"@, JsonView::Float(x.offset_s)),
            ("sigma"@, JsonView::Float(x.sigma_s)),
        ],
    )
}

fn lock_value(x: &Lock) -> (r: Json)
    ensures
        r@ == lock_json(x@),
{
    let mut m = Members::new();
    m.put("station", Json::Text(x.station_id.clone()));
    m.put("offset", Json::Float(x.offset_s));
    m.put("sigma", Json::Float(x.sigma_s));
    let r = m.object();
    assert(r@->Object_0 =~= lock_json(x@)->Object_0);
    r
}

fn lock_values(list: &Vec<Lock>) -> (r: Json)
    ensures
        r@ == JsonView::Array(lock_views(list@).map_values(|x: LockView| lock_json(x))),
{
    let ghost all = lock_views(list@);
    let mut out: Vec<Json> = Vec::new();
    let mut i: usize = 0;
    while i < list.len()
        invariant
            i <= list@.len(),
            all == lock_views(list@),
            out@.len() == i,
            forall|k: int| 0 <= k < i ==> (#[trigger] out@[k])@ == lock_json(all[k]),
        decreases list@.len() - i,
    {
        assert(all[i as int] == list@[i as int]@);
        out.push(lock_value(&list[i]));
        i += 1;
    }
    assert(json_views(out@) =~= all.map_values(|x: LockView| lock_json(x)));
    array(out)
}

/// A kept pair.
pub open spec fn pair_json(x: KeptPairView) -> JsonView {
    JsonView::Array(seq![JsonView::Text(x.a), JsonView::Text(x.b)])
}

fn pair_value(x: &KeptPair) -> (r: Json)
    ensures
        r@ == pair_json(x@),
{
    let mut v: Vec<Json> = Vec::new();
    v.push(Json::Text(x.a.clone()));
    v.push(Json::Text(x.b.clone()));
    assert(json_views(v@) =~= pair_json(x@)->Array_0);
    array(v)
}

fn pair_values(list: &Vec<KeptPair>) -> (r: Json)
    ensures
        r@ == JsonView::Array(keptpair_views(list@).map_values(|x: KeptPairView| pair_json(x))),
{
    let ghost all = keptpair_views(list@);
    let mut out: Vec<Json> = Vec::new();
    let mut i: usize = 0;
    while i < list.len()
        invariant
            i <= list@.len(),
            all == keptpair_views(list@),
            out@.len() == i,
            forall|k: int| 0 <= k < i ==> (#[trigger] out@[k])@ == pair_json(all[k]),
        decreases list@.len() - i,
    {
        assert(all[i as int] == list@[i as int]@);
        out.push(pair_value(&list[i]));
        i += 1;
    }
    assert(json_views(out@) =~= all.map_values(|x: KeptPairView| pair_json(x)));
    array(out)
}

/// Everything that can change what a solve puts out.
pub open spec fn snapshot_json(x: SnapshotView) -> JsonView {
    JsonView::Object(
        seq![
            ("event"@, JsonView::Text(x.event_id)),
            ("t_mid"@, JsonView::Float(x.t_mid)),
            ("sound_speed"@, JsonView::Float(x.sound_speed)),
            ("radius"@, JsonView::Float(x.observable_radius)),
            ("stations"@,
                JsonView::Array(x.stations.map_values(|s: StationInfoView| station_json(s)))),
            ("segments"@, JsonView::Array(clock_items(x.segments))),
            ("edges"@, JsonView::Array(x.edges.map_values(|e: EdgeObsView| edge_json(e)))),
            ("excluded"@,
                JsonView::Array(x.exclude_edges.map_values(|p: ExcludedPeakView| peak_json(p)))),
            ("locked"@, JsonView::Array(x.locks.map_values(|l: LockView| lock_json(l)))),
            ("kept_pairs"@,
                JsonView::Array(x.kept_pairs.map_values(|p: KeptPairView| pair_json(p)))),
        ],
    )
}

/// A picture as it is hashed.
pub fn snapshot_value(x: &Snapshot) -> (r: Json)
    ensures
        r@ == snapshot_json(x@),
{
    let ghost v = x@;
    let stations = station_values(&x.stations);
    let edges = edge_values(&x.edges);
    let excluded = peak_values(&x.exclude_edges);
    let locked = lock_values(&x.locks);
    let pairs = pair_values(&x.kept_pairs);
    assert(stations@->Array_0 =~= v.stations.map_values(|s: StationInfoView| station_json(s)));
    assert(edges@->Array_0 =~= v.edges.map_values(|e: EdgeObsView| edge_json(e)));
    assert(excluded@->Array_0 =~= v.exclude_edges.map_values(|p: ExcludedPeakView| peak_json(p)));
    assert(locked@->Array_0 =~= v.locks.map_values(|l: LockView| lock_json(l)));
    assert(pairs@->Array_0 =~= v.kept_pairs.map_values(|p: KeptPairView| pair_json(p)));
    let mut m = Members::new();
    m.put("event", Json::Text(x.event_id.clone()));
    m.put("t_mid", Json::Float(x.t_mid));
    m.put("sound_speed", Json::Float(x.sound_speed));
    m.put("radius", Json::Float(x.observable_radius));
    m.put("stations", stations);
    m.put("segments", clock_values(&x.segments));
    m.put("edges", edges);
    m.put("excluded", excluded);
    m.put("locked", locked);
    m.put("kept_pairs", pairs);
    let r = m.object();
    assert(r@->Object_0 =~= snapshot_json(x@)->Object_0);
    r
}

/// The fingerprint of a picture: the same picture has the same fingerprint, so
/// that it is solved once.
pub open spec fn picture_fingerprint(s: SnapshotView, d: Decimals) -> Seq<char> {
    digest_of(
        framed(
            seq![barred(seq!["job-v2"@]), canonical_text(snapshot_json(s), d, Quoting::Plain)],
        ),
    )
}

/// The fingerprint of a picture.
pub fn fingerprint(snap: &Snapshot, d: &Decimals) -> (r: String)
    ensures
        r@ == picture_fingerprint(snap@, *d),
{
    let parts: [&str; 1] = ["job-v2"];
    assert(slices(parts@) =~= seq!["job-v2"@]);
    let value = snapshot_value(snap);
    json_fingerprint(&parts, &value, d)
}

// ---------- Entering a job ----------

/// What asking for a solve comes to.
#[derive(Clone, Copy, Debug, PartialEq, Eq, Structural)]
pub enum RunOutcome {
    Created,
    Reused,
}

/// A job that waits.
pub open spec fn new_job(fp: Seq<char>, event_id: Seq<char>, now: Double) -> JobRowView {
    JobRowView {
        fingerprint: fp,
        event_id,
        state: "created"@,
        created_at: now,
        started_at: None,
        finished_at: None,
        error: ""@,
        worker: ""@,
    }
}

/// Why a job cannot be entered.
pub open spec fn enqueue_objection(
    v: DbView,
    fp: Seq<char>,
    event_id: Seq<char>,
    now: Double,
) -> Option<
    Seq<char>,
> {
    if has_job(v.jobs, fp) {
        None
    } else if now.nan() {
        Some("NOT NULL constraint failed: jobs.created_at"@)
    } else if !has_event(v.events, event_id) {
        Some("FOREIGN KEY constraint failed"@)
    } else {
        None
    }
}

/// The tables with a job.
pub open spec fn with_job(v: DbView, j: JobRowView) -> DbView {
    if has_job(v.jobs, j.fingerprint) {
        v
    } else {
        DbView { jobs: v.jobs.push(j), ..v }
    }
}

proof fn new_job_keeps_the_rules(v: DbView, j: JobRowView)
    requires
        v.valid(),
        has_event(v.events, j.event_id),
        is_state(j.state),
    ensures
        with_job(v, j).valid(),
        has_job(with_job(v, j).jobs, j.fingerprint),
{
    let w = with_job(v, j);
    if !has_job(v.jobs, j.fingerprint) {
        assert(w.jobs[v.jobs.len() as int] == j);
        assert forall|fp: Seq<char>| has_job(v.jobs, fp) implies has_job(w.jobs, fp) by {
            let k = choose|k: int| 0 <= k < v.jobs.len()
                && (#[trigger] v.jobs[k]).fingerprint == fp;
            assert(w.jobs[k].fingerprint == fp);
        }
    }
}

/// Enters the job of a picture, unless it is there. Tells whether the job is
/// still to be run.
pub fn enqueue(
    db: &mut Db,
    snap: &Snapshot,
    now: Double,
    d: &Decimals,
) -> (r: Result< (String, bool), String, >)
    requires
        old(db)@.valid(),
    ensures
        final(db)@.valid(),
        ({
            let fp = picture_fingerprint(snap@, *d);
            match r {
                Ok(t) => {
                    &&& enqueue_objection(old(db)@, fp, snap@.event_id, now) is None
                    &&& t.0@ == fp
                    &&& t.1 == !job_in_state(old(db)@.jobs, fp, "done"@)
                    &&& final(db)@ == with_job(old(db)@, new_job(fp, snap@.event_id, now))
                    &&& has_job(final(db)@.jobs, fp)
                },
                Err(m) => enqueue_objection(old(db)@, fp, snap@.event_id, now) == Some(m@)
                    && final(db)@ == old(db)@,
            }
        }),
{
    let ghost v = db@;
    let fp = fingerprint(snap, d);
    if knows_job(&db.jobs, fp.as_str()) {
        let done = is_in_state(&db.jobs, fp.as_str(), "done");
        return Ok((fp, !done));
    }
    if now.is_nan() {
        return Err("NOT NULL constraint failed: jobs.created_at".to_owned());
    }
    if !knows_event(&db.events, snap.event_id.as_str()) {
        return Err("FOREIGN KEY constraint failed".to_owned());
    }
    let job = JobRow {
        fingerprint: fp.clone(),
        event_id: snap.event_id.clone(),
        state: "created".to_owned(),
        created_at: now,
        started_at: None,
        finished_at: None,
        error: "".to_owned(),
        worker: "".to_owned(),
    };
    let ghost jv = job@;
    assert(jv == new_job(fp@, snap@.event_id, now));
    db.jobs.push(job);
    proof {
        assert(db@.jobs =~= v.jobs.push(jv));
        new_job_keeps_the_rules(v, jv);
    }
    Ok((fp, true))
}

// ---------- Entering candidates ----------

/// What is not a number is not entered.
pub open spec fn entered(f: Option<Double>) -> Option<Double> {
    match f {
        Some(x) if !x.nan() => Some(x),
        _ => None,
    }
}

fn enter(f: Option<Double>) -> (r: Option<Double>)
    ensures
        r == entered(f),
{
    match f {
        Some(x) => if x.is_nan() {
            None
        } else {
            Some(x)
        },
        None => None,
    }
}

/// A candidate as it is kept.
pub open spec fn cand_row(
    fp: Seq<char>,
    event_id: Seq<char>,
    c: CandidateOutView,
    id: int,
    rank: int,
) -> CandRowView {
    CandRowView {
        cand_id: id,
        job_fp: fp,
        event_id,
        rank_in_job: rank,
        cand_key: c.cand_key,
        kind: c.kind,
        status: c.status,
        reason: c.reason,
        x: entered(c.x),
        y: entered(c.y),
        region: match c.region {
            Some(r) => r,
            None => JsonView::Null,
        },
        metrics: c.metrics,
        residuals: c.residuals,
    }
}

/// Candidates as they are kept, numbered from the next number on.
pub open spec fn cand_rows(
    fp: Seq<char>,
    event_id: Seq<char>,
    list: Seq<CandidateOutView>,
    last: int,
) -> Seq<CandRowView> {
    Seq::new(list.len(), |k: int| cand_row(fp, event_id, list[k], last + 1 + k, k))
}

fn make_row(fp: &str, event_id: &str, c: &CandidateOut, id: i64, rank: i64) -> (r: CandRow)
    ensures
        r@ == cand_row(fp@, event_id@, c@, id as int, rank as int),
{
    let region = match &c.region {
        Some(r) => r.copy(),
        None => Json::Null,
    };
    CandRow {
        cand_id: id,
        job_fp: fp.to_owned(),
        event_id: event_id.to_owned(),
        rank_in_job: rank,
        cand_key: c.cand_key.clone(),
        kind: c.kind.clone(),
        status: c.status.clone(),
        reason: c.reason.clone(),
        x: enter(c.x),
        y: enter(c.y),
        region,
        metrics: c.metrics.copy(),
        residuals: copy_residualrows(&c.residuals),
    }
}

/// The candidates of other jobs.
pub open spec fn of_others(fp: Seq<char>) -> spec_fn(CandRowView) -> bool {
    |c: CandRowView| c.job_fp != fp
}

/// A job that has run.
pub open spec fn finished_job(
    j: JobRowView,
    fp: Seq<char>,
    worker: Seq<char>,
    started: Double,
    finished: Double,
) -> JobRowView {
    if j.fingerprint == fp {
        JobRowView {
            state: "done"@,
            started_at: entered(Some(started)),
            finished_at: entered(Some(finished)),
            worker,
            error: ""@,
            ..j
        }
    } else {
        j
    }
}

/// Why candidates cannot be entered.
pub open spec fn entry_objection(
    v: DbView,
    fp: Seq<char>,
    event_id: Seq<char>,
    list: Seq<CandidateOutView>,
) -> Option<Seq<char>> {
    if list.len() == 0 {
        None
    } else if v.last_candidate >= i64::MAX {
        Some("database or disk is full"@)
    } else if !has_job(v.jobs, fp) || !has_event(v.events, event_id) {
        Some("FOREIGN KEY constraint failed"@)
    } else if v.last_candidate + list.len() > i64::MAX {
        Some("database or disk is full"@)
    } else {
        None
    }
}

/// The tables after a job has run: its candidates in place of any that it had,
/// and the job done.
pub open spec fn with_result(
    v: DbView,
    fp: Seq<char>,
    event_id: Seq<char>,
    list: Seq<CandidateOutView>,
    worker: Seq<char>,
    started: Double,
    finished: Double,
) -> DbView {
    DbView {
        jobs: v.jobs.map_values(|j: JobRowView| finished_job(j, fp, worker, started, finished)),
        candidates: v.candidates.filter(of_others(fp)) + cand_rows(
            fp,
            event_id,
            list,
            v.last_candidate,
        ),
        last_candidate: v.last_candidate + list.len(),
        ..v
    }
}

proof fn result_keeps_the_rules(
    v: DbView,
    fp: Seq<char>,
    event_id: Seq<char>,
    list: Seq<CandidateOutView>,
    worker: Seq<char>,
    started: Double,
    finished: Double,
)
    requires
        v.valid(),
        entry_objection(v, fp, event_id, list) is None,
        shapely(list),
    ensures
        with_result(v, fp, event_id, list, worker, started, finished).valid(),
{
    let w = with_result(v, fp, event_id, list, worker, started, finished);
    progressed_jobs_are_ok(v.jobs, w.jobs, v.events);
    let pick = of_others(fp);
    fewer_candidates_are_ok(v.candidates, v.last_candidate, v.jobs, pick);
    let kept = v.candidates.filter(pick);
    let new = cand_rows(fp, event_id, list, v.last_candidate);
    let n = kept.len() as int;
    picked_items_keep_their_order(v.candidates, pick);
    assert forall|i: int| 0 <= i < kept.len() implies (#[trigger] kept[i]).job_fp != fp by {
        assert(pick(kept[i]));
    }
    assert forall|i: int, j: int| 0 <= i < j < w.candidates.len() implies (
    #[trigger] w.candidates[i]).cand_id < (#[trigger] w.candidates[j]).cand_id by {
        if j < n {
            assert(kept[i].cand_id < kept[j].cand_id);
        } else if i < n {
            assert(kept[i].cand_id <= v.last_candidate);
        }
    }
    assert forall|i: int, j: int| 0 <= i < j < w.candidates.len() implies !((
    #[trigger] w.candidates[i]).job_fp == (#[trigger] w.candidates[j]).job_fp
        && w.candidates[i].rank_in_job == w.candidates[j].rank_in_job) by {
        if j < n {
            assert(!(kept[i].job_fp == kept[j].job_fp && kept[i].rank_in_job
                == kept[j].rank_in_job));
        } else if i < n {
            assert(kept[i].job_fp != fp);
        }
    }
    assert forall|i: int| 0 <= i < w.candidates.len() implies 1 <= (
    #[trigger] w.candidates[i]).cand_id <= w.last_candidate && has_job(
        w.jobs,
        w.candidates[i].job_fp,
    ) && is_shape(w.candidates[i].kind, w.candidates[i].status)
        && !(w.candidates[i].region is Array) by {
        if i < n {
            assert(w.candidates[i] == kept[i]);
        } else {
            assert(is_shape(list[i - n].kind, list[i - n].status));
        }
    }
}

fn drop_own(list: &Vec<CandRow>, fp: &str) -> (r: Vec<CandRow>)
    ensures
        candrow_views(r@) == candrow_views(list@).filter(of_others(fp@)),
{
    let ghost all = candrow_views(list@);
    let ghost pick = of_others(fp@);
    let mut out: Vec<CandRow> = Vec::new();
    let mut i: usize = 0;
    proof {
        reveal(Seq::filter);
        assert(all.take(0) =~= Seq::empty());
    }
    assert(candrow_views(out@) =~= all.take(0).filter(pick));
    while i < list.len()
        invariant
            i <= list@.len(),
            all == candrow_views(list@),
            pick == of_others(fp@),
            candrow_views(out@) == all.take(i as int).filter(pick),
        decreases list@.len() - i,
    {
        let c = &list[i];
        let ghost before = candrow_views(out@);
        assert(all.take(i + 1) =~= all.take(i as int).push(c@));
        proof {
            filter_of_push(all.take(i as int), c@, pick);
        }
        if !same(c.job_fp.as_str(), fp) {
            assert(pick(c@));
            out.push(c.copy());
            assert(candrow_views(out@) =~= before.push(c@));
        } else {
            assert(!pick(c@));
        }
        i += 1;
    }
    assert(all.take(i as int) =~= all);
    out
}

fn finish_jobs(
    jobs: &Vec<JobRow>,
    fp: &str,
    worker: &str,
    started: Double,
    finished: Double,
) -> (r: Vec<JobRow>)
    ensures
        jobrow_views(r@) == jobrow_views(jobs@).map_values(
            |j: JobRowView| finished_job(j, fp@, worker@, started, finished),
        ),
{
    let ghost all = jobrow_views(jobs@);
    let mut out: Vec<JobRow> = Vec::new();
    let mut i: usize = 0;
    while i < jobs.len()
        invariant
            i <= jobs@.len(),
            all == jobrow_views(jobs@),
            out@.len() == i,
            forall|k: int|
                0 <= k < i ==> (#[trigger] out@[k])@ == finished_job(
                    all[k],
                    fp@,
                    worker@,
                    started,
                    finished,
                ),
        decreases jobs@.len() - i,
    {
        assert(all[i as int] == jobs@[i as int]@);
        let mut j = jobs[i].copy();
        if same(j.fingerprint.as_str(), fp) {
            j.state = "done".to_owned();
            j.started_at = enter(Some(started));
            j.finished_at = enter(Some(finished));
            j.worker = worker.to_owned();
            j.error = "".to_owned();
        }
        out.push(j);
        i += 1;
    }
    assert(jobrow_views(out@) =~= all.map_values(
        |j: JobRowView| finished_job(j, fp@, worker@, started, finished),
    ));
    out
}

/// Enters the candidates of a job and marks it done, or changes nothing.
pub(crate) fn commit(
    db: &mut Db,
    fp: &str,
    event_id: &str,
    list: &Vec<CandidateOut>,
    worker: &str,
    started: Double,
    finished: Double,
) -> (r: Result<(), String>)
    requires
        old(db)@.valid(),
        shapely(candidateout_views(list@)),
    ensures
        final(db)@.valid(),
        match r {
            Ok(_) => entry_objection(old(db)@, fp@, event_id@, candidateout_views(list@)) is None
                && final(db)@ == with_result(
                old(db)@,
                fp@,
                event_id@,
                candidateout_views(list@),
                worker@,
                started,
                finished,
            ),
            Err(m) => entry_objection(old(db)@, fp@, event_id@, candidateout_views(list@)) == Some(
                m@,
            ) && final(db)@ == old(db)@,
        },
{
    let ghost v = db@;
    let ghost lv = candidateout_views(list@);
    let n: usize = list.len();
    let left: u64 = (i64::MAX - db.last_candidate) as u64;
    if n > 0 {
        if left == 0 {
            return Err("database or disk is full".to_owned());
        }
        if !knows_job(&db.jobs, fp) || !knows_event(&db.events, event_id) {
            return Err("FOREIGN KEY constraint failed".to_owned());
        }
        if n as u64 > left {
            return Err("database or disk is full".to_owned());
        }
    }
    proof {
        result_keeps_the_rules(v, fp@, event_id@, lv, worker@, started, finished);
    }
    let ghost want = with_result(v, fp@, event_id@, lv, worker@, started, finished);
    let jobs = finish_jobs(&db.jobs, fp, worker, started, finished);
    let mut rows = drop_own(&db.candidates, fp);
    let ghost kept = candrow_views(rows@);
    let ghost new = cand_rows(fp@, event_id@, lv, v.last_candidate);
    let mut k: usize = 0;
    assert(kept =~= kept + new.take(0));
    while k < list.len()
        invariant
            k <= list@.len(),
            n == list@.len(),
            lv == candidateout_views(list@),
            v == db@,
            v.valid(),
            v.last_candidate + n <= i64::MAX,
            new == cand_rows(fp@, event_id@, lv, v.last_candidate),
            candrow_views(rows@) =~= kept + new.take(k as int),
        decreases list@.len() - k,
    {
        assert(lv[k as int] == list@[k as int]@);
        let ghost now = candrow_views(rows@);
        let row = make_row(fp, event_id, &list[k], db.last_candidate + 1 + k as i64, k as i64);
        assert(row@ == new[k as int]);
        rows.push(row);
        assert(candrow_views(rows@) =~= now.push(new[k as int]));
        assert(new.take(k + 1) =~= new.take(k as int).push(new[k as int]));
        k += 1;
    }
    assert(new.take(k as int) =~= new);
    db.jobs = jobs;
    db.candidates = rows;
    db.last_candidate = db.last_candidate + n as i64;
    assert(db@.jobs == want.jobs);
    assert(db@.candidates == want.candidates);
    assert(db@ == want);
    Ok(())
}

/// The times of a run.
#[derive(Clone, Copy, Debug, PartialEq, Eq, Structural)]
pub struct Times {
    pub created: Double,
    pub started: Double,
    pub finished: Double,
}

/// Enters the job of a picture and runs it. A job that is done is not run again.
/// The candidates come in together with the state `done`, or not at all.
pub fn enqueue_and_run(
    db: &mut Db,
    snap: &Snapshot,
    worker: &str,
    w: &Figures,
    at: Times,
    d: &Decimals,
) -> (r: Result<(String, RunOutcome), String>)
    requires
        old(db)@.valid(),
    ensures
        final(db)@.valid(),
        ({
            let v = old(db)@;
            let fp = picture_fingerprint(snap@, *d);
            let queued = with_job(v, new_job(fp, snap@.event_id, at.created));
            let list = solved(snap@, *w, *d);
            match enqueue_objection(v, fp, snap@.event_id, at.created) {
                Some(m) => r matches Err(e) && e@ == m && final(db)@ == v,
                None => if job_in_state(v.jobs, fp, "done"@) {
                    r matches Ok(t) && t.0@ == fp && t.1 == RunOutcome::Reused && final(db)@ == v
                } else if !belong(*w, snap@) {
                    r matches Err(e) && e@ == "the numbers of another snapshot"@ && final(db)@
                        == queued
                } else {
                    match entry_objection(queued, fp, snap@.event_id, list) {
                        Some(m) => r matches Err(e) && e@ == m && final(db)@ == queued,
                        None => r matches Ok(t) && t.0@ == fp && t.1 == RunOutcome::Created
                            && final(db)@ == with_result(
                            queued,
                            fp,
                            snap@.event_id,
                            list,
                            worker@,
                            at.started,
                            at.finished,
                        ),
                    }
                },
            }
        }),
{
    let ghost v = db@;
    let (fp, to_run) = match enqueue(db, snap, at.created, d) {
        Ok(t) => t,
        Err(m) => {
            return Err(m);
        },
    };
    if !to_run {
        proof {
            let k = choose|k: int|
                0 <= k < v.jobs.len() && (#[trigger] v.jobs[k]).fingerprint == fp@
                    && v.jobs[k].state == "done"@;
            assert(has_job(v.jobs, fp@));
        }
        return Ok((fp, RunOutcome::Reused));
    }
    let list = match solve(snap, w, d) {
        Ok(list) => list,
        Err(_) => {
            return Err("the numbers of another snapshot".to_owned());
        },
    };
    proof {
        candidates_have_a_shape(snap@, *w, *d);
    }
    match commit(
        db,
        fp.as_str(),
        snap.event_id.as_str(),
        &list,
        worker,
        at.started,
        at.finished,
    ) {
        Ok(_) => Ok((fp, RunOutcome::Created)),
        Err(m) => Err(m),
    }
}

// ---------- A crash ----------

/// A job whose worker died.
pub open spec fn crashed_job(fp: Seq<char>, event_id: Seq<char>, now: Double) -> JobRowView {
    JobRowView { state: "running"@, worker: "crashed-worker"@, ..new_job(fp, event_id, now) }
}

/// A candidate with this rank is there for a job.
pub open spec fn rank_taken(v: DbView, fp: Seq<char>, rank: int) -> bool {
    exists|i: int|
        0 <= i < v.candidates.len() && (#[trigger] v.candidates[i]).job_fp == fp
            && v.candidates[i].rank_in_job == rank
}

/// Why one candidate cannot be entered.
pub open spec fn row_objection(v: DbView, fp: Seq<char>, event_id: Seq<char>, rank: int) -> Option<
    Seq<char>,
> {
    if v.last_candidate >= i64::MAX {
        Some("database or disk is full"@)
    } else if rank_taken(v, fp, rank) {
        Some("UNIQUE constraint failed: candidates.job_fp, candidates.rank_in_job"@)
    } else if !has_job(v.jobs, fp) || !has_event(v.events, event_id) {
        Some("FOREIGN KEY constraint failed"@)
    } else {
        None
    }
}

/// The tables with one candidate more.
pub open spec fn with_row(
    v: DbView,
    fp: Seq<char>,
    event_id: Seq<char>,
    c: CandidateOutView,
    rank: int,
) -> DbView {
    DbView {
        candidates: v.candidates.push(cand_row(fp, event_id, c, v.last_candidate + 1, rank)),
        last_candidate: v.last_candidate + 1,
        ..v
    }
}

/// Candidates entered one by one, until one cannot be: the tables that this
/// leaves, and what stopped it.
pub open spec fn row_by_row(
    v: DbView,
    fp: Seq<char>,
    event_id: Seq<char>,
    list: Seq<CandidateOutView>,
    n: int,
) -> (DbView, Option<Seq<char>>)
    decreases n,
{
    if n <= 0 {
        (v, None)
    } else {
        let (w, stop) = row_by_row(v, fp, event_id, list, n - 1);
        if stop is Some {
            (w, stop)
        } else if row_objection(w, fp, event_id, n - 1) is Some {
            (w, row_objection(w, fp, event_id, n - 1))
        } else {
            (with_row(w, fp, event_id, list[n - 1], n - 1), None)
        }
    }
}

/// Once entering stopped it stays stopped.
proof fn stopping_is_final(
    v: DbView,
    fp: Seq<char>,
    event_id: Seq<char>,
    list: Seq<CandidateOutView>,
    n: int,
    m: int,
)
    requires
        0 <= n <= m,
        row_by_row(v, fp, event_id, list, n).1 is Some,
    ensures
        row_by_row(v, fp, event_id, list, m) == row_by_row(v, fp, event_id, list, n),
    decreases m,
{
    if n < m {
        stopping_is_final(v, fp, event_id, list, n, m - 1);
    }
}

fn is_rank_taken(rows: &Vec<CandRow>, fp: &str, rank: i64) -> (r: bool)
    ensures
        r == exists|i: int|
            0 <= i < rows@.len() && (#[trigger] candrow_views(rows@)[i]).job_fp == fp@
                && candrow_views(rows@)[i].rank_in_job == rank,
{
    let ghost all = candrow_views(rows@);
    let mut i: usize = 0;
    while i < rows.len()
        invariant
            i <= rows@.len(),
            all == candrow_views(rows@),
            forall|k: int|
                0 <= k < i ==> !((#[trigger] all[k]).job_fp == fp@ && all[k].rank_in_job == rank),
        decreases rows@.len() - i,
    {
        assert(all[i as int] == rows@[i as int]@);
        if rows[i].rank_in_job == rank && same(rows[i].job_fp.as_str(), fp) {
            return true;
        }
        i += 1;
    }
    false
}

/// Why a crash cannot be acted out.
pub open spec fn crash_objection(
    v: DbView,
    fp: Seq<char>,
    event_id: Seq<char>,
    now: Double,
) -> Option<
    Seq<char>,
> {
    if !has_job(v.jobs, fp) && !now.nan() && !has_event(v.events, event_id) {
        Some("FOREIGN KEY constraint failed"@)
    } else {
        None
    }
}

/// The tables with the job of a worker that died. Without a time nothing is
/// entered.
pub open spec fn with_crash(v: DbView, fp: Seq<char>, event_id: Seq<char>, now: Double) -> DbView {
    if now.nan() {
        v
    } else {
        with_job(v, crashed_job(fp, event_id, now))
    }
}

/// Leaves a job half finished, as a worker that dies does: `running`, with the
/// first of its candidates.
pub fn crash_after_running(
    db: &mut Db,
    snap: &Snapshot,
    partial_candidates: usize,
    w: &Figures,
    now: Double,
    d: &Decimals,
) -> (r: Result<String, String>)
    requires
        old(db)@.valid(),
    ensures
        final(db)@.valid(),
        ({
            let v = old(db)@;
            let fp = picture_fingerprint(snap@, *d);
            let e = snap@.event_id;
            let list = solved(snap@, *w, *d);
            let n = if partial_candidates < list.len() {
                partial_candidates as int
            } else {
                list.len() as int
            };
            let left = row_by_row(with_crash(v, fp, e, now), fp, e, list, n);
            match crash_objection(v, fp, e, now) {
                Some(m) => r matches Err(x) && x@ == m && final(db)@ == v,
                None => if belong(*w, snap@) {
                    final(db)@ == left.0 && match left.1 {
                        Some(m) => r matches Err(x) && x@ == m,
                        None => r matches Ok(x) && x@ == fp,
                    }
                } else {
                    r matches Err(x) && x@ == "the numbers of another snapshot"@ && final(db)@
                        == with_crash(v, fp, e, now)
                },
            }
        }),
{
    let ghost v = db@;
    let fp = fingerprint(snap, d);
    let ghost e = snap@.event_id;
    if !knows_job(&db.jobs, fp.as_str()) && !now.is_nan() {
        if !knows_event(&db.events, snap.event_id.as_str()) {
            return Err("FOREIGN KEY constraint failed".to_owned());
        }
        let job = JobRow {
            fingerprint: fp.clone(),
            event_id: snap.event_id.clone(),
            state: "running".to_owned(),
            created_at: now,
            started_at: None,
            finished_at: None,
            error: "".to_owned(),
            worker: "crashed-worker".to_owned(),
        };
        let ghost jv = job@;
        assert(jv == crashed_job(fp@, e, now));
        db.jobs.push(job);
        proof {
            assert(db@.jobs =~= v.jobs.push(jv));
            new_job_keeps_the_rules(v, jv);
        }
    }
    let ghost start = with_crash(v, fp@, e, now);
    assert(db@ == start);
    let list = match solve(snap, w, d) {
        Ok(list) => list,
        Err(_) => {
            return Err("the numbers of another snapshot".to_owned());
        },
    };
    proof {
        candidates_have_a_shape(snap@, *w, *d);
    }
    let ghost lv = candidateout_views(list@);
    let n: usize = if partial_candidates < list.len() {
        partial_candidates
    } else {
        list.len()
    };
    let mut k: usize = 0;
    while k < n
        invariant
            k <= n <= list@.len(),
            lv == candidateout_views(list@),
            lv == solved(snap@, *w, *d),
            belong(*w, snap@),
            e == snap@.event_id,
            v == old(db)@,
            fp@ == picture_fingerprint(snap@, *d),
            crash_objection(v, fp@, e, now) is None,
            start == with_crash(v, fp@, e, now),
            n == if partial_candidates < lv.len() {
                partial_candidates as int
            } else {
                lv.len() as int
            },
            db@.valid(),
            shapely(lv),
            row_by_row(start, fp@, e, lv, k as int) == (db@, None::<Seq<char>>),
            db@.last_candidate - start.last_candidate == k,
            0 <= start.last_candidate,
        decreases n - k,
    {
        let ghost before = db@;
        assert(lv[k as int] == list@[k as int]@);
        proof {
            if row_objection(before, fp@, e, k as int) is Some {
                stopping_is_final(start, fp@, e, lv, k + 1, n as int);
            }
        }
        if db.last_candidate == i64::MAX {
            return Err("database or disk is full".to_owned());
        }
        let rank: i64 = k as i64;
        if is_rank_taken(&db.candidates, fp.as_str(), rank) {
            proof {
                let i = choose|i: int|
                    0 <= i < before.candidates.len() && (#[trigger] before.candidates[i]).job_fp
                        == fp@ && before.candidates[i].rank_in_job == rank;
                assert(rank_taken(before, fp@, k as int));
            }
            return Err(
                "UNIQUE constraint failed: candidates.job_fp, candidates.rank_in_job".to_owned(),
            );
        }
        assert(!rank_taken(before, fp@, k as int));
        if !knows_job(&db.jobs, fp.as_str()) || !knows_event(
            &db.events,
            snap.event_id.as_str(),
        ) {
            return Err("FOREIGN KEY constraint failed".to_owned());
        }
        let id: i64 = db.last_candidate + 1;
        let row = make_row(fp.as_str(), snap.event_id.as_str(), &list[k], id, rank);
        let ghost rv = row@;
        db.candidates.push(row);
        db.last_candidate = id;
        proof {
            assert(db@.candidates =~= before.candidates.push(rv));
            assert(db@ == with_row(before, fp@, e, lv[k as int], k as int));
            let m = before.candidates.len() as int;
            assert forall|i: int, j: int| 0 <= i < j < db@.candidates.len() implies !((
            #[trigger] db@.candidates[i]).job_fp == (#[trigger] db@.candidates[j]).job_fp
                && db@.candidates[i].rank_in_job == db@.candidates[j].rank_in_job) by {
                if j < m {
                    assert(!(before.candidates[i].job_fp == before.candidates[j].job_fp
                        && before.candidates[i].rank_in_job == before.candidates[j].rank_in_job));
                } else {
                    assert(before.candidates[i] == db@.candidates[i]);
                }
            }
            assert forall|i: int, j: int| 0 <= i < j < db@.candidates.len() implies (
            #[trigger] db@.candidates[i]).cand_id < (#[trigger] db@.candidates[j]).cand_id by {
                if j < m {
                    assert(before.candidates[i].cand_id < before.candidates[j].cand_id);
                } else {
                    assert(before.candidates[i].cand_id <= before.last_candidate);
                }
            }
            assert forall|i: int| 0 <= i < db@.candidates.len() implies 1 <= (
            #[trigger] db@.candidates[i]).cand_id <= db@.last_candidate && has_job(
                db@.jobs,
                db@.candidates[i].job_fp,
            ) && is_shape(db@.candidates[i].kind, db@.candidates[i].status) && !(
            db@.candidates[i].region is Array) by {
                if i < m {
                    assert(before.candidates[i] == db@.candidates[i]);
                }
            }
        }
        k += 1;
    }
    Ok(fp)
}

} // verus!
