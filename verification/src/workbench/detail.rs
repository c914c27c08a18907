//! What is shown of an event.
//!
//! Candidates are shown of the latest job that is done, and of no other.
use vstd::prelude::*;
use vstd::string::*;

use crate::arrange::{
    arrange, arranged, no_number, one_number, picked_rows_differ, rows_of, said, whole, PlaceView,
    Placed,
};
use crate::double::Double;
use crate::figures::{Pt, Wholes};
use crate::json::{array, json_views, Json, JsonView, Members};
use crate::order::filter_of_push;
use crate::text::{precedes, same, text_lt, text_order_is_total, text_order_is_transitive};
use crate::workbench::clock::{list_segments, segments_of};
use crate::workbench::db::{
    candrow_views, has_link, job_in_state, jobrow_views, knows_link, obsrow_views, xcorrrow_views,
    CandRow, CandRowView, Db, DbView, JobRow, JobRowView, LinkRowView, ObsRow, ObsRowView, XcorrRow,
    XcorrRowView,
};
use crate::workbench::evidence::{
    evidence_of, evidence_views, list_evidence, Evidence, EvidenceView,
};
use crate::workbench::fitting::places_json;
use crate::workbench::jobs::{double_or_null, double_value};
use crate::workbench::laws::of_job;
use crate::workbench::models::{
    candidate_views, clocksegment_views, copy_residualrows, residualrow_views, station_views,
    Candidate, CandidateView, ClockSegment, ClockSegmentView, Region, RegionView, ResidualRow,
    ResidualRowView, Station, StationView,
};
use crate::workbench::picture::{
    event_row, find_station_of, linked_obs, linked_observations, linked_to, linkedobs_views,
    station_of,
};
use crate::workbench::service::{list_stations, stations_listed};
use crate::workbench::units::{
    COORDINATE_UNIT, DELAY_UNIT, OBSERVABLE_RADIUS, SPEED_UNIT, TIME_UNIT,
};

verus! {

// ---------- The latest job that is done ----------

/// A job was finished after another; of those finished at one time the one with
/// the later fingerprint counts as the later.
pub open spec fn later(a: JobRowView, b: JobRowView) -> bool {
    match (a.finished_at, b.finished_at) {
        (Some(x), Some(y)) => y.rank() < x.rank() || (y.rank() == x.rank() && text_lt(
            b.fingerprint,
            a.fingerprint,
        )),
        (Some(_), None) => true,
        (None, Some(_)) => false,
        (None, None) => text_lt(b.fingerprint, a.fingerprint),
    }
}

/// A job of an event is done.
pub open spec fn done_for(j: JobRowView, event_id: Seq<char>) -> bool {
    j.event_id == event_id && j.state == "done"@
}

/// The latest job of an event that is done.
pub open spec fn latest_of(jobs: Seq<JobRowView>, event_id: Seq<char>) -> Option<JobRowView>
    decreases jobs.len(),
{
    if jobs.len() == 0 {
        None
    } else {
        let j = jobs.last();
        match latest_of(jobs.drop_last(), event_id) {
            Some(b) => if done_for(j, event_id) && later(j, b) {
                Some(j)
            } else {
                Some(b)
            },
            None => if done_for(j, event_id) {
                Some(j)
            } else {
                None
            },
        }
    }
}

fn is_later(a: &JobRow, b: &JobRow) -> (r: bool)
    ensures
        r == later(a@, b@),
{
    match (a.finished_at, b.finished_at) {
        (Some(x), Some(y)) => y.ranks_below(x) || (!x.ranks_below(y) && precedes(
            b.fingerprint.as_str(),
            a.fingerprint.as_str(),
        )),
        (Some(_), None) => true,
        (None, Some(_)) => false,
        (None, None) => precedes(b.fingerprint.as_str(), a.fingerprint.as_str()),
    }
}

/// The fingerprint of the latest job of an event that is done.
pub fn latest_done_job(db: &Db, event_id: &str) -> (r: Option<String>)
    ensures
        match r {
            Some(fp) => latest_of(db@.jobs, event_id@) matches Some(j) && fp@ == j.fingerprint,
            None => latest_of(db@.jobs, event_id@) is None,
        },
{
    let ghost all = jobrow_views(db.jobs@);
    let mut best: Option<usize> = None;
    let mut i: usize = 0;
    assert(all.take(0) =~= Seq::empty());
    while i < db.jobs.len()
        invariant
            i <= db.jobs@.len(),
            all == jobrow_views(db.jobs@),
            match best {
                Some(k) => k < i && latest_of(all.take(i as int), event_id@) == Some(all[k as int]),
                None => latest_of(all.take(i as int), event_id@) is None,
            },
        decreases db.jobs@.len() - i,
    {
        let j = &db.jobs[i];
        assert(all.take(i + 1).drop_last() =~= all.take(i as int));
        assert(all.take(i + 1).last() == j@);
        if same(j.event_id.as_str(), event_id) && same(j.state.as_str(), "done") {
            match best {
                Some(k) => {
                    assert(all[k as int] == db.jobs@[k as int]@);
                    if is_later(j, &db.jobs[k]) {
                        best = Some(i);
                    }
                },
                None => {
                    best = Some(i);
                },
            }
        }
        i += 1;
    }
    assert(all.take(i as int) =~= all);
    match best {
        Some(k) => {
            assert(all[k as int] == db.jobs@[k as int]@);
            Some(db.jobs[k].fingerprint.clone())
        },
        None => None,
    }
}

/// A job that came later than one comes later than all that this one came after.
proof fn lateness_is_transitive(a: JobRowView, b: JobRowView, c: JobRowView)
    requires
        later(a, b),
        later(b, c),
    ensures
        later(a, c),
{
    if text_lt(b.fingerprint, a.fingerprint) && text_lt(c.fingerprint, b.fingerprint) {
        text_order_is_transitive(c.fingerprint, b.fingerprint, a.fingerprint);
    }
}

/// What is shown is the result of a job that is done, and no job of the event
/// that is done is later. A job that is waiting, running or failed is not shown.
pub proof fn only_done_jobs_are_shown(v: DbView, event_id: Seq<char>, k: int)
    requires
        v.valid(),
    ensures
        latest_of(v.jobs, event_id) matches Some(j) ==> {
            &&& job_in_state(v.jobs, j.fingerprint, "done"@)
            &&& j.event_id == event_id
            &&& 0 <= k < v.jobs.len() && done_for(v.jobs[k], event_id) ==> !later(v.jobs[k], j)
        },
        latest_of(v.jobs, event_id) is None && 0 <= k < v.jobs.len() ==> !done_for(
            v.jobs[k],
            event_id,
        ),
{
    latest_is_latest(v.jobs, event_id, k);
}

proof fn latest_is_latest(jobs: Seq<JobRowView>, event_id: Seq<char>, k: int)
    requires
        forall|i: int, j: int|
            0 <= i < j < jobs.len() ==> (#[trigger] jobs[i]).fingerprint != (
            #[trigger] jobs[j]).fingerprint,
    ensures
        latest_of(jobs, event_id) matches Some(j) ==> {
            &&& job_in_state(jobs, j.fingerprint, "done"@)
            &&& j.event_id == event_id
            &&& exists|m: int| 0 <= m < jobs.len() && #[trigger] jobs[m] == j
            &&& 0 <= k < jobs.len() && done_for(jobs[k], event_id) ==> !later(jobs[k], j)
        },
        latest_of(jobs, event_id) is None && 0 <= k < jobs.len() ==> !done_for(jobs[k], event_id),
    decreases jobs.len(),
{
    if jobs.len() > 0 {
        let rest = jobs.drop_last();
        let x = jobs.last();
        assert forall|i: int, j: int| 0 <= i < j < rest.len() implies (
        #[trigger] rest[i]).fingerprint != (#[trigger] rest[j]).fingerprint by {
            assert(jobs[i].fingerprint != jobs[j].fingerprint);
        }
        latest_is_latest(rest, event_id, k);
        match latest_of(rest, event_id) {
            Some(b) => {
                let m = choose|m: int| 0 <= m < rest.len() && #[trigger] rest[m] == b;
                assert(jobs[m] == b);
                text_order_is_total(b.fingerprint, x.fingerprint);
                if done_for(x, event_id) && later(x, b) {
                    assert(jobs[jobs.len() - 1] == x);
                    if 0 <= k < rest.len() && done_for(jobs[k], event_id) && later(jobs[k], x) {
                        lateness_is_transitive(jobs[k], x, b);
                        assert(rest[k] == jobs[k]);
                    }
                    text_order_is_total(x.fingerprint, x.fingerprint);
                } else if 0 <= k < rest.len() {
                    assert(rest[k] == jobs[k]);
                }
                let w = latest_of(rest, event_id)->0;
                let s = choose|s: int|
                    0 <= s < rest.len() && (#[trigger] rest[s]).fingerprint == w.fingerprint
                        && rest[s].state == "done"@;
                assert(jobs[s] == rest[s]);
            },
            None => {
                assert(jobs[jobs.len() - 1] == x);
                text_order_is_total(x.fingerprint, x.fingerprint);
                if 0 <= k < rest.len() {
                    assert(rest[k] == jobs[k]);
                }
            },
        }
    }
}

// ---------- Observations ----------

/// Observations stand in the order of onset, station and number.
pub open spec fn by_onset_and_station() -> spec_fn(ObsRowView) -> PlaceView {
    |o: ObsRowView|
        (seq![o.local_onset_s.rank()], o.station_id, Seq::<char>::empty(), seq![o.obs_id])
}

/// A delay of an observation may be a reflection.
pub open spec fn may_be_reflected(xcorrs: Seq<XcorrRowView>, id: int) -> bool {
    exists|k: int|
        0 <= k < xcorrs.len() && (#[trigger] xcorrs[k]).multipath && (xcorrs[k].obs_a == id
            || xcorrs[k].obs_b == id)
}

fn is_perhaps_reflected(rows: &Vec<XcorrRow>, id: i64) -> (r: bool)
    ensures
        r == may_be_reflected(xcorrrow_views(rows@), id as int),
{
    let ghost all = xcorrrow_views(rows@);
    let mut i: usize = 0;
    while i < rows.len()
        invariant
            i <= rows@.len(),
            all == xcorrrow_views(rows@),
            forall|k: int|
                0 <= k < i ==> !((#[trigger] all[k]).multipath && (all[k].obs_a == id
                    || all[k].obs_b == id)),
        decreases rows@.len() - i,
    {
        assert(all[i as int] == rows@[i as int]@);
        if rows[i].multipath && (rows[i].obs_a == id || rows[i].obs_b == id) {
            return true;
        }
        i += 1;
    }
    false
}

/// An observation as it is shown.
pub open spec fn obs_shown(v: DbView, o: ObsRowView) -> JsonView {
    JsonView::Object(
        seq![
            ("obs_id"@, JsonView::Int(o.obs_id)),
            ("station_id"@, JsonView::Text(o.station_id)),
            ("local_onset_s"@, JsonView::Float(o.local_onset_s)),
            ("peak_band_hz"@, JsonView::Float(o.peak_band_hz)),
            ("snr_db"@, JsonView::Float(o.snr_db)),
            ("batch_fp"@, JsonView::Text(o.batch_fp)),
            ("multipath"@, JsonView::Bool(may_be_reflected(v.xcorrs, o.obs_id))),
        ],
    )
}

/// The observations of an event as they are shown.
pub open spec fn observations_shown(v: DbView, event_id: Seq<char>) -> JsonView {
    JsonView::Array(
        arranged(
            v.observations.filter(linked_to(v.links, event_id)),
            by_onset_and_station(),
        ).map_values(|o: ObsRowView| obs_shown(v, o)),
    )
}

fn shown_rows(db: &Db, event_id: &str) -> (r: Vec<ObsRow>)
    requires
        db@.valid(),
    ensures
        obsrow_views(r@) == arranged(
            db@.observations.filter(linked_to(db@.links, event_id@)),
            by_onset_and_station(),
        ),
{
    let ghost all = obsrow_views(db.observations@);
    let ghost pick = linked_to(db@.links, event_id@);
    let ghost place = by_onset_and_station();
    let mut out: Vec<Placed<ObsRow>> = Vec::new();
    let mut i: usize = 0;
    proof {
        reveal(Seq::filter);
        assert(all.take(0) =~= Seq::empty());
    }
    assert(rows_of(out@) =~= all.take(0).filter(pick));
    while i < db.observations.len()
        invariant
            i <= db.observations@.len(),
            all == obsrow_views(db.observations@),
            pick == linked_to(db@.links, event_id@),
            place == by_onset_and_station(),
            db@.valid(),
            rows_of(out@) == all.take(i as int).filter(pick),
            forall|k: int|
                0 <= k < out@.len() ==> (#[trigger] out@[k]).place() == place(out@[k].item@),
        decreases db.observations@.len() - i,
    {
        let x = &db.observations[i];
        let ghost before = rows_of(out@);
        assert(all.take(i + 1) =~= all.take(i as int).push(x@));
        proof {
            filter_of_push(all.take(i as int), x@, pick);
        }
        if knows_link(&db.links, event_id, x.obs_id) {
            assert(pick(x@));
            out.push(
                Placed {
                    lead: one_number(x.local_onset_s.rank_number()),
                    a: x.station_id.clone(),
                    b: String::new(),
                    tail: one_number(x.obs_id as i128),
                    item: x.copy(),
                },
            );
            assert(rows_of(out@) =~= before.push(x@));
        } else {
            assert(!pick(x@));
        }
        i += 1;
    }
    assert(all.take(i as int) =~= all);
    proof {
        assert forall|j: int, k: int|
            0 <= j < k < all.len() && pick(#[trigger] all[j])
                && pick(#[trigger] all[k]) implies place(
            all[j],
        ) != place(all[k]) by {
            assert(all[j].obs_id < all[k].obs_id);
            assert(seq![all[j].obs_id][0] == all[j].obs_id);
            assert(seq![all[k].obs_id][0] == all[k].obs_id);
        }
        picked_rows_differ(all, pick, place);
        assert forall|j: int, k: int| 0 <= j < k < out@.len() implies (
            #[trigger] out@[j]).place() != (
        #[trigger] out@[k]).place() by {
            assert(rows_of(out@)[j] == out@[j].item@ && rows_of(out@)[k] == out@[k].item@);
        }
    }
    let r = arrange(out, Ghost(place));
    assert(obsrow_views(r@) =~= said(r@));
    r
}

/// Lists the observations of an event as they are shown.
pub fn observations_payload(db: &Db, event_id: &str) -> (r: Json)
    requires
        db@.valid(),
    ensures
        r@ == observations_shown(db@, event_id@),
{
    let ghost v = db@;
    let rows = shown_rows(db, event_id);
    let ghost rv = obsrow_views(rows@);
    let mut out: Vec<Json> = Vec::new();
    let mut i: usize = 0;
    while i < rows.len()
        invariant
            i <= rows@.len(),
            v == db@,
            rv == obsrow_views(rows@),
            out@.len() == i,
            forall|k: int| 0 <= k < i ==> (#[trigger] out@[k])@ == obs_shown(v, rv[k]),
        decreases rows@.len() - i,
    {
        let o = &rows[i];
        assert(rv[i as int] == o@);
        let mp = is_perhaps_reflected(&db.xcorrs, o.obs_id);
        let mut m = Members::new();
        m.put("obs_id", Json::Int(o.obs_id));
        m.put("station_id", Json::Text(o.station_id.clone()));
        m.put("local_onset_s", Json::Float(o.local_onset_s));
        m.put("peak_band_hz", Json::Float(o.peak_band_hz));
        m.put("snr_db", Json::Float(o.snr_db));
        m.put("batch_fp", Json::Text(o.batch_fp.clone()));
        m.put("multipath", Json::Bool(mp));
        let one = m.object();
        assert(one@->Object_0 =~= obs_shown(v, o@)->Object_0);
        out.push(one);
        i += 1;
    }
    assert(json_views(out@) =~= observations_shown(v, event_id@)->Array_0);
    array(out)
}

// ---------- Delays ----------

/// The delays between observations of an event.
pub open spec fn inside(links: Seq<LinkRowView>, event_id: Seq<char>) -> spec_fn(
    XcorrRowView,
) -> bool {
    |x: XcorrRowView| has_link(links, event_id, x.obs_a) && has_link(links, event_id, x.obs_b)
}

/// Delays stand in the order of their stations and peaks.
pub open spec fn by_ends(v: DbView) -> spec_fn(XcorrRowView) -> PlaceView {
    |x: XcorrRowView|
        (
            Seq::<int>::empty(),
            station_of(v.observations, x.obs_a),
            station_of(v.observations, x.obs_b),
            seq![x.peak_index, x.xc_id],
        )
}

fn peak_and_number(peak: i64, id: i64) -> (r: Vec<i128>)
    ensures
        whole(r@) == seq![peak as int, id as int],
{
    let mut r: Vec<i128> = Vec::new();
    r.push(peak as i128);
    r.push(id as i128);
    assert(whole(r@) =~= seq![peak as int, id as int]);
    r
}

/// The onset of an observation.
pub open spec fn onset_of(observations: Seq<ObsRowView>, id: int) -> Double
    decreases observations.len(),
{
    if observations.len() == 0 {
        Double { bits: crate::figures::NO_RESULT }
    } else if observations[0].obs_id == id {
        observations[0].local_onset_s
    } else {
        onset_of(observations.drop_first(), id)
    }
}

fn find_onset_of(rows: &Vec<ObsRow>, id: i64) -> (r: Double)
    ensures
        r == onset_of(obsrow_views(rows@), id as int),
{
    let ghost all = obsrow_views(rows@);
    let mut i: usize = 0;
    assert(all.skip(0) =~= all);
    while i < rows.len()
        invariant
            i <= rows@.len(),
            all == obsrow_views(rows@),
            onset_of(all, id as int) == onset_of(all.skip(i as int), id as int),
        decreases rows@.len() - i,
    {
        assert(all.skip(i as int)[0] == rows@[i as int]@);
        if rows[i].obs_id == id {
            return rows[i].local_onset_s;
        }
        assert(all.skip(i as int).drop_first() =~= all.skip(i + 1));
        i += 1;
    }
    Double { bits: crate::figures::NO_RESULT }
}

/// A delay as it is shown.
pub open spec fn edge_shown(v: DbView, x: XcorrRowView) -> JsonView {
    JsonView::Object(
        seq![
            ("xc_id"@, JsonView::Int(x.xc_id)),
            ("station_a"@, JsonView::Text(station_of(v.observations, x.obs_a))),
            ("station_b"@, JsonView::Text(station_of(v.observations, x.obs_b))),
            ("delay_s"@, JsonView::Float(x.delay_s)),
            ("sigma_s"@, JsonView::Float(x.sigma_s)),
            ("peak_index"@, JsonView::Int(x.peak_index)),
            ("multipath"@, JsonView::Bool(x.multipath)),
            ("onset_a_s"@, JsonView::Float(onset_of(v.observations, x.obs_a))),
            ("onset_b_s"@, JsonView::Float(onset_of(v.observations, x.obs_b))),
            ("delay_unit"@, JsonView::Text(DELAY_UNIT@)),
        ],
    )
}

/// The delays of an event as they are shown.
pub open spec fn edges_shown(v: DbView, event_id: Seq<char>) -> JsonView {
    JsonView::Array(
        arranged(v.xcorrs.filter(inside(v.links, event_id)), by_ends(v)).map_values(
            |x: XcorrRowView| edge_shown(v, x),
        ),
    )
}

fn inside_rows(db: &Db, event_id: &str) -> (r: Vec<XcorrRow>)
    requires
        db@.valid(),
    ensures
        xcorrrow_views(r@) == arranged(
            db@.xcorrs.filter(inside(db@.links, event_id@)),
            by_ends(db@),
        ),
{
    let ghost all = xcorrrow_views(db.xcorrs@);
    let ghost pick = inside(db@.links, event_id@);
    let ghost place = by_ends(db@);
    let mut out: Vec<Placed<XcorrRow>> = Vec::new();
    let mut i: usize = 0;
    proof {
        reveal(Seq::filter);
        assert(all.take(0) =~= Seq::empty());
    }
    assert(rows_of(out@) =~= all.take(0).filter(pick));
    while i < db.xcorrs.len()
        invariant
            i <= db.xcorrs@.len(),
            all == xcorrrow_views(db.xcorrs@),
            pick == inside(db@.links, event_id@),
            place == by_ends(db@),
            db@.valid(),
            rows_of(out@) == all.take(i as int).filter(pick),
            forall|k: int|
                0 <= k < out@.len() ==> (#[trigger] out@[k]).place() == place(out@[k].item@),
        decreases db.xcorrs@.len() - i,
    {
        let x = &db.xcorrs[i];
        let ghost before = rows_of(out@);
        assert(all.take(i + 1) =~= all.take(i as int).push(x@));
        proof {
            filter_of_push(all.take(i as int), x@, pick);
        }
        if knows_link(&db.links, event_id, x.obs_a) && knows_link(&db.links, event_id, x.obs_b) {
            assert(pick(x@));
            out.push(
                Placed {
                    lead: no_number(),
                    a: find_station_of(&db.observations, x.obs_a),
                    b: find_station_of(&db.observations, x.obs_b),
                    tail: peak_and_number(x.peak_index, x.xc_id),
                    item: x.copy(),
                },
            );
            assert(rows_of(out@) =~= before.push(x@));
        } else {
            assert(!pick(x@));
        }
        i += 1;
    }
    assert(all.take(i as int) =~= all);
    proof {
        assert forall|j: int, k: int|
            0 <= j < k < all.len() && pick(#[trigger] all[j])
                && pick(#[trigger] all[k]) implies place(
            all[j],
        ) != place(all[k]) by {
            assert(all[j].xc_id < all[k].xc_id);
            assert(seq![all[j].peak_index, all[j].xc_id][1] == all[j].xc_id);
            assert(seq![all[k].peak_index, all[k].xc_id][1] == all[k].xc_id);
        }
        picked_rows_differ(all, pick, place);
        assert forall|j: int, k: int| 0 <= j < k < out@.len() implies (
            #[trigger] out@[j]).place() != (
        #[trigger] out@[k]).place() by {
            assert(rows_of(out@)[j] == out@[j].item@ && rows_of(out@)[k] == out@[k].item@);
        }
    }
    let r = arrange(out, Ghost(place));
    assert(xcorrrow_views(r@) =~= said(r@));
    r
}

/// Lists the delays between the observations of an event as they are shown.
pub fn edge_payload(db: &Db, event_id: &str) -> (r: Json)
    requires
        db@.valid(),
    ensures
        r@ == edges_shown(db@, event_id@),
{
    let ghost v = db@;
    let rows = inside_rows(db, event_id);
    let ghost rv = xcorrrow_views(rows@);
    let mut out: Vec<Json> = Vec::new();
    let mut i: usize = 0;
    while i < rows.len()
        invariant
            i <= rows@.len(),
            v == db@,
            rv == xcorrrow_views(rows@),
            out@.len() == i,
            forall|k: int| 0 <= k < i ==> (#[trigger] out@[k])@ == edge_shown(v, rv[k]),
        decreases rows@.len() - i,
    {
        let x = &rows[i];
        assert(rv[i as int] == x@);
        let mut m = Members::new();
        m.put("xc_id", Json::Int(x.xc_id));
        m.put("station_a", Json::Text(find_station_of(&db.observations, x.obs_a)));
        m.put("station_b", Json::Text(find_station_of(&db.observations, x.obs_b)));
        m.put("delay_s", Json::Float(x.delay_s));
        m.put("sigma_s", Json::Float(x.sigma_s));
        m.put("peak_index", Json::Int(x.peak_index));
        m.put("multipath", Json::Bool(x.multipath));
        m.put("onset_a_s", Json::Float(find_onset_of(&db.observations, x.obs_a)));
        m.put("onset_b_s", Json::Float(find_onset_of(&db.observations, x.obs_b)));
        m.put("delay_unit", Json::Text(DELAY_UNIT.to_owned()));
        let one = m.object();
        assert(one@->Object_0 =~= edge_shown(v, x@)->Object_0);
        out.push(one);
        i += 1;
    }
    assert(json_views(out@) =~= edges_shown(v, event_id@)->Array_0);
    array(out)
}

// ---------- Candidates ----------

/// Candidates stand in the order of their ranks.
pub open spec fn by_rank() -> spec_fn(CandRowView) -> PlaceView {
    |c: CandRowView|
        (seq![c.rank_in_job], Seq::<char>::empty(), Seq::<char>::empty(), Seq::<int>::empty())
}

/// A number that can be read back: what is not a finite number is written as
/// nothing.
pub open spec fn readable(v: JsonView, wholes: Wholes) -> Option<Double> {
    match v.number(wholes) {
        Some(f) if f.finite() => Some(f),
        _ => None,
    }
}

/// A place that is read back.
pub open spec fn place_read(v: JsonView, wholes: Wholes) -> Option<Pt> {
    match v {
        JsonView::Array(pair) => if pair.len() == 2 {
            match (readable(pair[0], wholes), readable(pair[1], wholes)) {
                (Some(x), Some(y)) => Some(Pt { x, y }),
                _ => None,
            }
        } else {
            None
        },
        _ => None,
    }
}

/// The places that are read back: all of them or none.
pub open spec fn places_read(items: Seq<JsonView>, wholes: Wholes) -> Option<Seq<Pt>>
    decreases items.len(),
{
    if items.len() == 0 {
        Some(Seq::empty())
    } else {
        match (places_read(items.drop_last(), wholes), place_read(items.last(), wholes)) {
            (Some(s), Some(p)) => Some(s.push(p)),
            _ => None,
        }
    }
}

/// A region that is read back. A curve with a mark between its branches is not.
pub open spec fn region_read(v: JsonView, wholes: Wholes) -> Option<RegionView> {
    match (v.member("shape"@), v.member("coordinates"@), v.member("source"@)) {
        (
            Some(JsonView::Text(shape)),
            Some(JsonView::Array(items)),
            Some(JsonView::Text(source)),
        ) => match places_read(items, wholes) {
            Some(coordinates) => Some(RegionView { shape, coordinates, source }),
            None => None,
        },
        _ => None,
    }
}

fn read_place(v: &Json, wholes: &Wholes) -> (r: Option<Pt>)
    ensures
        r == place_read(v@, *wholes),
{
    match v.as_items() {
        Some(pair) => {
            let ghost pv = pair@.map_values(|x: Json| x@);
            assert(v@ == JsonView::Array(pv));
            if pair.len() != 2 {
                return None;
            }
            assert(pv[0] == pair@[0]@ && pv[1] == pair@[1]@);
            match (pair[0].as_number(wholes), pair[1].as_number(wholes)) {
                (Some(x), Some(y)) => if x.is_finite() && y.is_finite() {
                    Some(Pt { x, y })
                } else {
                    None
                },
                _ => None,
            }
        },
        None => None,
    }
}

/// Once a place cannot be read, none can be.
proof fn unread_places(items: Seq<JsonView>, wholes: Wholes, n: int)
    requires
        0 <= n <= items.len(),
        places_read(items.take(n), wholes) is None,
    ensures
        places_read(items, wholes) is None,
    decreases items.len() - n,
{
    if n < items.len() {
        assert(items.take(n + 1).drop_last() =~= items.take(n));
        unread_places(items, wholes, n + 1);
    } else {
        assert(items.take(n) =~= items);
    }
}

fn read_places(items: &Vec<Json>, wholes: &Wholes) -> (r: Option<Vec<Pt>>)
    ensures
        match r {
            Some(s) => places_read(json_views(items@), *wholes) == Some(s@),
            None => places_read(json_views(items@), *wholes) is None,
        },
{
    let ghost all = json_views(items@);
    let mut out: Vec<Pt> = Vec::new();
    let mut i: usize = 0;
    assert(all.take(0) =~= Seq::empty());
    assert(out@ =~= Seq::empty());
    while i < items.len()
        invariant
            i <= items@.len(),
            all == json_views(items@),
            places_read(all.take(i as int), *wholes) == Some(out@),
        decreases items@.len() - i,
    {
        assert(all.take(i + 1).drop_last() =~= all.take(i as int));
        assert(all.take(i + 1).last() == items@[i as int]@);
        match read_place(&items[i], wholes) {
            Some(p) => {
                out.push(p);
            },
            None => {
                proof {
                    unread_places(all, *wholes, i + 1);
                }
                return None;
            },
        }
        i += 1;
    }
    assert(all.take(i as int) =~= all);
    Some(out)
}

/// Reads a region.
pub fn region_of(v: &Json, wholes: &Wholes) -> (r: Option<Region>)
    ensures
        match r {
            Some(s) => region_read(v@, *wholes) == Some(s@),
            None => region_read(v@, *wholes) is None,
        },
{
    match (v.get("shape"), v.get("coordinates"), v.get("source")) {
        (Some(a), Some(b), Some(c)) => match (a.as_text(), b.as_items(), c.as_text()) {
            (Some(shape), Some(items), Some(source)) => {
                assert(items@.map_values(|x: Json| x@) =~= json_views(items@));
                match read_places(items, wholes) {
                    Some(coordinates) => Some(
                        Region { shape: shape.clone(), coordinates, source: source.clone() },
                    ),
                    None => None,
                }
            },
            _ => None,
        },
        _ => None,
    }
}

/// A residual that is read back whole.
pub open spec fn is_whole(r: ResidualRowView) -> bool {
    r.measured_s.finite() && r.predicted_s.finite() && r.residual_s.finite() && r.sigma_s.finite()
        && r.n_sigma.finite()
}

/// Residuals as they are read back: where one lacks a number there are none.
pub open spec fn residuals_read(s: Seq<ResidualRowView>) -> Seq<ResidualRowView> {
    if forall|i: int| 0 <= i < s.len() ==> is_whole(#[trigger] s[i]) {
        s
    } else {
        Seq::empty()
    }
}

fn read_residuals(s: &Vec<ResidualRow>) -> (r: Vec<ResidualRow>)
    ensures
        residualrow_views(r@) == residuals_read(residualrow_views(s@)),
{
    let ghost all = residualrow_views(s@);
    let mut i: usize = 0;
    while i < s.len()
        invariant
            i <= s@.len(),
            all == residualrow_views(s@),
            forall|k: int| 0 <= k < i ==> is_whole(#[trigger] all[k]),
        decreases s@.len() - i,
    {
        let x = &s[i];
        assert(all[i as int] == x@);
        if !(x.measured_s.is_finite() && x.predicted_s.is_finite() && x.residual_s.is_finite()
            && x.sigma_s.is_finite() && x.n_sigma.is_finite()) {
            assert(!is_whole(all[i as int]));
            let none: Vec<ResidualRow> = Vec::new();
            assert(residualrow_views(none@) =~= Seq::empty());
            return none;
        }
        i += 1;
    }
    copy_residualrows(s)
}

/// A candidate as it is shown.
pub open spec fn candidate_read(c: CandRowView, wholes: Wholes) -> CandidateView {
    CandidateView {
        cand_id: c.cand_id,
        cand_key: c.cand_key,
        job_fp: c.job_fp,
        rank_in_job: c.rank_in_job,
        kind: c.kind,
        status: c.status,
        reason: c.reason,
        x: c.x,
        y: c.y,
        region: region_read(c.region, wholes),
        metrics: c.metrics,
        residuals: residuals_read(c.residuals),
        kept: c.metrics.member("kept_pair"@) is Some,
    }
}

/// The candidates of a job as they are shown.
pub open spec fn candidates_read(v: DbView, fp: Seq<char>, wholes: Wholes) -> Seq<CandidateView> {
    arranged(v.candidates.filter(of_job(fp)), by_rank()).map_values(
        |c: CandRowView| candidate_read(c, wholes),
    )
}

fn job_rows(db: &Db, fp: &str) -> (r: Vec<CandRow>)
    requires
        db@.valid(),
    ensures
        candrow_views(r@) == arranged(db@.candidates.filter(of_job(fp@)), by_rank()),
{
    let ghost all = candrow_views(db.candidates@);
    let ghost pick = of_job(fp@);
    let ghost place = by_rank();
    let mut out: Vec<Placed<CandRow>> = Vec::new();
    let mut i: usize = 0;
    proof {
        reveal(Seq::filter);
        assert(all.take(0) =~= Seq::empty());
    }
    assert(rows_of(out@) =~= all.take(0).filter(pick));
    while i < db.candidates.len()
        invariant
            i <= db.candidates@.len(),
            all == candrow_views(db.candidates@),
            pick == of_job(fp@),
            place == by_rank(),
            db@.valid(),
            rows_of(out@) == all.take(i as int).filter(pick),
            forall|k: int|
                0 <= k < out@.len() ==> (#[trigger] out@[k]).place() == place(out@[k].item@),
        decreases db.candidates@.len() - i,
    {
        let x = &db.candidates[i];
        let ghost before = rows_of(out@);
        assert(all.take(i + 1) =~= all.take(i as int).push(x@));
        proof {
            filter_of_push(all.take(i as int), x@, pick);
        }
        if same(x.job_fp.as_str(), fp) {
            assert(pick(x@));
            out.push(
                Placed {
                    lead: one_number(x.rank_in_job as i128),
                    a: String::new(),
                    b: String::new(),
                    tail: no_number(),
                    item: x.copy(),
                },
            );
            assert(rows_of(out@) =~= before.push(x@));
        } else {
            assert(!pick(x@));
        }
        i += 1;
    }
    assert(all.take(i as int) =~= all);
    proof {
        assert forall|j: int, k: int|
            0 <= j < k < all.len() && pick(#[trigger] all[j])
                && pick(#[trigger] all[k]) implies place(
            all[j],
        ) != place(all[k]) by {
            assert(all[j].job_fp == all[k].job_fp);
            assert(all[j].rank_in_job != all[k].rank_in_job);
            assert(seq![all[j].rank_in_job][0] == all[j].rank_in_job);
            assert(seq![all[k].rank_in_job][0] == all[k].rank_in_job);
        }
        picked_rows_differ(all, pick, place);
        assert forall|j: int, k: int| 0 <= j < k < out@.len() implies (
            #[trigger] out@[j]).place() != (
        #[trigger] out@[k]).place() by {
            assert(rows_of(out@)[j] == out@[j].item@ && rows_of(out@)[k] == out@[k].item@);
        }
    }
    let r = arrange(out, Ghost(place));
    assert(candrow_views(r@) =~= said(r@));
    r
}

/// Lists the candidates of a job as they are shown.
pub fn candidates_payload(db: &Db, fp: &str, wholes: &Wholes) -> (r: Vec<Candidate>)
    requires
        db@.valid(),
    ensures
        candidate_views(r@) == candidates_read(db@, fp@, *wholes),
{
    let rows = job_rows(db, fp);
    let ghost rv = candrow_views(rows@);
    let mut out: Vec<Candidate> = Vec::new();
    let mut i: usize = 0;
    while i < rows.len()
        invariant
            i <= rows@.len(),
            rv == candrow_views(rows@),
            out@.len() == i,
            forall|k: int| 0 <= k < i ==> (#[trigger] out@[k])@ == candidate_read(rv[k], *wholes),
        decreases rows@.len() - i,
    {
        let c = &rows[i];
        assert(rv[i as int] == c@);
        let kept = c.metrics.get("kept_pair").is_some();
        let one = Candidate {
            cand_id: c.cand_id,
            cand_key: c.cand_key.clone(),
            job_fp: c.job_fp.clone(),
            rank_in_job: c.rank_in_job,
            kind: c.kind.clone(),
            status: c.status.clone(),
            reason: c.reason.clone(),
            x: c.x,
            y: c.y,
            region: region_of(&c.region, wholes),
            metrics: c.metrics.copy(),
            residuals: read_residuals(&c.residuals),
            kept,
        };
        assert(one@ == candidate_read(c@, *wholes));
        out.push(one);
        i += 1;
    }
    assert(candidate_views(out@) =~= candidates_read(db@, fp@, *wholes));
    out
}

/// A residual as it is shown.
pub open spec fn residual_json(x: ResidualRowView) -> JsonView {
    JsonView::Object(
        seq![
            ("edge"@, JsonView::Text(x.edge)),
            ("kind"@, JsonView::Text(x.kind)),
            ("station_a"@, JsonView::Text(x.station_a)),
            ("station_b"@, JsonView::Text(x.station_b)),
            ("measured_s"@, JsonView::Float(x.measured_s)),
            ("predicted_s"@, JsonView::Float(x.predicted_s)),
            ("residual_s"@, JsonView::Float(x.residual_s)),
            ("sigma_s"@, JsonView::Float(x.sigma_s)),
            ("n_sigma"@, JsonView::Float(x.n_sigma)),
            ("multipath"@, JsonView::Bool(x.multipath)),
            ("excluded"@, JsonView::Bool(x.excluded)),
        ],
    )
}

fn residual_value(x: &ResidualRow) -> (r: Json)
    ensures
        r@ == residual_json(x@),
{
    let mut m = Members::new();
    m.put("edge", Json::Text(x.edge.clone()));
    m.put("kind", Json::Text(x.kind.clone()));
    m.put("station_a", Json::Text(x.station_a.clone()));
    m.put("station_b", Json::Text(x.station_b.clone()));
    m.put("measured_s", Json::Float(x.measured_s));
    m.put("predicted_s", Json::Float(x.predicted_s));
    m.put("residual_s", Json::Float(x.residual_s));
    m.put("sigma_s", Json::Float(x.sigma_s));
    m.put("n_sigma", Json::Float(x.n_sigma));
    m.put("multipath", Json::Bool(x.multipath));
    m.put("excluded", Json::Bool(x.excluded));
    let r = m.object();
    assert(r@->Object_0 =~= residual_json(x@)->Object_0);
    r
}

fn residual_values(list: &Vec<ResidualRow>) -> (r: Json)
    ensures
        r@ == JsonView::Array(
            residualrow_views(list@).map_values(|x: ResidualRowView| residual_json(x))),
{
    let ghost all = residualrow_views(list@);
    let mut out: Vec<Json> = Vec::new();
    let mut i: usize = 0;
    while i < list.len()
        invariant
            i <= list@.len(),
            all == residualrow_views(list@),
            out@.len() == i,
            forall|k: int| 0 <= k < i ==> (#[trigger] out@[k])@ == residual_json(all[k]),
        decreases list@.len() - i,
    {
        assert(all[i as int] == list@[i as int]@);
        out.push(residual_value(&list[i]));
        i += 1;
    }
    assert(json_views(out@) =~= all.map_values(|x: ResidualRowView| residual_json(x)));
    array(out)
}

/// A region as it is shown.
pub open spec fn region_json(r: Option<RegionView>) -> JsonView {
    match r {
        Some(s) => JsonView::Object(
            seq![
                ("shape"@, JsonView::Text(s.shape)),
                ("coordinates"@, places_json(s.coordinates)),
                ("source"@, JsonView::Text(s.source)),
            ],
        ),
        None => JsonView::Null,
    }
}

fn region_value(r: &Option<Region>) -> (v: Json)
    ensures
        v@ == region_json(
            match r {
                Some(s) => Some(s@),
                None => None,
            },
        ),
{
    match r {
        Some(s) => {
            let mut m = Members::new();
            m.put("shape", Json::Text(s.shape.clone()));
            m.put("coordinates", crate::workbench::fitting::places_value(&s.coordinates));
            m.put("source", Json::Text(s.source.clone()));
            let v = m.object();
            assert(v@->Object_0 =~= region_json(Some(s@))->Object_0);
            v
        },
        None => Json::Null,
    }
}

/// A candidate as it is shown.
pub open spec fn candidate_json(x: CandidateView) -> JsonView {
    JsonView::Object(
        seq![
            ("cand_id"@, JsonView::Int(x.cand_id)),
            ("cand_key"@, JsonView::Text(x.cand_key)),
            ("job_fp"@, JsonView::Text(x.job_fp)),
            ("rank_in_job"@, JsonView::Int(x.rank_in_job)),
            ("kind"@, JsonView::Text(x.kind)),
            ("status"@, JsonView::Text(x.status)),
            ("reason"@, JsonView::Text(x.reason)),
            ("x"@, double_or_null(x.x)),
            ("y"@, double_or_null(x.y)),
            ("region"@, region_json(x.region)),
            ("metrics"@, x.metrics),
            ("residuals"@,
                JsonView::Array(x.residuals.map_values(|r: ResidualRowView| residual_json(r)))),
            ("kept"@, JsonView::Bool(x.kept)),
        ],
    )
}

fn candidate_value(x: &Candidate) -> (r: Json)
    ensures
        r@ == candidate_json(x@),
{
    let residuals = residual_values(&x.residuals);
    assert(residuals@->Array_0 =~= x@.residuals.map_values(
        |r: ResidualRowView| residual_json(r),
    ));
    let mut m = Members::new();
    m.put("cand_id", Json::Int(x.cand_id));
    m.put("cand_key", Json::Text(x.cand_key.clone()));
    m.put("job_fp", Json::Text(x.job_fp.clone()));
    m.put("rank_in_job", Json::Int(x.rank_in_job));
    m.put("kind", Json::Text(x.kind.clone()));
    m.put("status", Json::Text(x.status.clone()));
    m.put("reason", Json::Text(x.reason.clone()));
    m.put("x", double_value(x.x));
    m.put("y", double_value(x.y));
    m.put("region", region_value(&x.region));
    m.put("metrics", x.metrics.copy());
    m.put("residuals", residuals);
    m.put("kept", Json::Bool(x.kept));
    let r = m.object();
    assert(r@->Object_0 =~= candidate_json(x@)->Object_0);
    r
}

fn candidate_values(list: &Vec<Candidate>) -> (r: Json)
    ensures
        r@ == JsonView::Array(
            candidate_views(list@).map_values(|x: CandidateView| candidate_json(x))),
{
    let ghost all = candidate_views(list@);
    let mut out: Vec<Json> = Vec::new();
    let mut i: usize = 0;
    while i < list.len()
        invariant
            i <= list@.len(),
            all == candidate_views(list@),
            out@.len() == i,
            forall|k: int| 0 <= k < i ==> (#[trigger] out@[k])@ == candidate_json(all[k]),
        decreases list@.len() - i,
    {
        assert(all[i as int] == list@[i as int]@);
        out.push(candidate_value(&list[i]));
        i += 1;
    }
    assert(json_views(out@) =~= all.map_values(|x: CandidateView| candidate_json(x)));
    array(out)
}

/// A station as it is shown.
pub open spec fn station_json(x: StationView) -> JsonView {
    JsonView::Object(
        seq![
            ("station_id"@, JsonView::Text(x.station_id)),
            ("name"@, JsonView::Text(x.name)),
            ("x"@, JsonView::Float(x.x)),
            ("y"@, JsonView::Float(x.y)),
        ],
    )
}

fn station_value(x: &Station) -> (r: Json)
    ensures
        r@ == station_json(x@),
{
    let mut m = Members::new();
    m.put("station_id", Json::Text(x.station_id.clone()));
    m.put("name", Json::Text(x.name.clone()));
    m.put("x", Json::Float(x.x));
    m.put("y", Json::Float(x.y));
    let r = m.object();
    assert(r@->Object_0 =~= station_json(x@)->Object_0);
    r
}

fn station_values(list: &Vec<Station>) -> (r: Json)
    ensures
        r@ == JsonView::Array(station_views(list@).map_values(|x: StationView| station_json(x))),
{
    let ghost all = station_views(list@);
    let mut out: Vec<Json> = Vec::new();
    let mut i: usize = 0;
    while i < list.len()
        invariant
            i <= list@.len(),
            all == station_views(list@),
            out@.len() == i,
            forall|k: int| 0 <= k < i ==> (#[trigger] out@[k])@ == station_json(all[k]),
        decreases list@.len() - i,
    {
        assert(all[i as int] == list@[i as int]@);
        out.push(station_value(&list[i]));
        i += 1;
    }
    assert(json_views(out@) =~= all.map_values(|x: StationView| station_json(x)));
    array(out)
}

/// A judgement as it is shown.
pub open spec fn evidence_json(x: EvidenceView) -> JsonView {
    JsonView::Object(
        seq![
            ("content_id"@, JsonView::Text(x.content_id)),
            ("kind"@, JsonView::Text(x.kind)),
            ("payload"@, x.payload),
        ],
    )
}

fn evidence_value(x: &Evidence) -> (r: Json)
    ensures
        r@ == evidence_json(x@),
{
    let mut m = Members::new();
    m.put("content_id", Json::Text(x.content_id.clone()));
    m.put("kind", Json::Text(x.kind.clone()));
    m.put("payload", x.payload.copy());
    let r = m.object();
    assert(r@->Object_0 =~= evidence_json(x@)->Object_0);
    r
}

fn evidence_values(list: &Vec<Evidence>) -> (r: Json)
    ensures
        r@ == JsonView::Array(evidence_views(list@).map_values(|x: EvidenceView| evidence_json(x))),
{
    let ghost all = evidence_views(list@);
    let mut out: Vec<Json> = Vec::new();
    let mut i: usize = 0;
    while i < list.len()
        invariant
            i <= list@.len(),
            all == evidence_views(list@),
            out@.len() == i,
            forall|k: int| 0 <= k < i ==> (#[trigger] out@[k])@ == evidence_json(all[k]),
        decreases list@.len() - i,
    {
        assert(all[i as int] == list@[i as int]@);
        out.push(evidence_value(&list[i]));
        i += 1;
    }
    assert(json_views(out@) =~= all.map_values(|x: EvidenceView| evidence_json(x)));
    array(out)
}

/// A clock segment as it is shown.
pub open spec fn segment_json(x: ClockSegmentView) -> JsonView {
    JsonView::Object(
        seq![
            ("seg_id"@, JsonView::Int(x.seg_id)),
            ("station_id"@, JsonView::Text(x.station_id)),
            ("start_s"@, JsonView::Float(x.start_s)),
            ("end_s"@, double_or_null(x.end_s)),
            ("offset_s"@, JsonView::Float(x.offset_s)),
            ("sigma_s"@, JsonView::Float(x.sigma_s)),
            ("note"@, JsonView::Text(x.note)),
            ("time_unit"@, JsonView::Text(TIME_UNIT@)),
        ],
    )
}

fn segment_value(x: &ClockSegment) -> (r: Json)
    ensures
        r@ == segment_json(x@),
{
    let mut m = Members::new();
    m.put("seg_id", Json::Int(x.seg_id));
    m.put("station_id", Json::Text(x.station_id.clone()));
    m.put("start_s", Json::Float(x.start_s));
    m.put("end_s", double_value(x.end_s));
    m.put("offset_s", Json::Float(x.offset_s));
    m.put("sigma_s", Json::Float(x.sigma_s));
    m.put("note", Json::Text(x.note.clone()));
    m.put("time_unit", Json::Text(TIME_UNIT.to_owned()));
    let r = m.object();
    assert(r@->Object_0 =~= segment_json(x@)->Object_0);
    r
}

/// The clock segments of stations as they are shown.
pub open spec fn segments_shown(v: DbView, stations: Seq<StationView>) -> Seq<JsonView>
    decreases stations.len(),
{
    if stations.len() == 0 {
        Seq::empty()
    } else {
        segments_shown(v, stations.drop_last()) + segments_of(
            v,
            stations.last().station_id,
        ).map_values(|s: ClockSegmentView| segment_json(s))
    }
}

fn segment_values(db: &Db, stations: &Vec<Station>) -> (r: Json)
    requires
        db@.valid(),
    ensures
        r@ == JsonView::Array(segments_shown(db@, station_views(stations@))),
{
    let ghost v = db@;
    let ghost all = station_views(stations@);
    let mut out: Vec<Json> = Vec::new();
    let mut i: usize = 0;
    assert(all.take(0) =~= Seq::empty());
    assert(json_views(out@) =~= Seq::empty());
    while i < stations.len()
        invariant
            i <= stations@.len(),
            v == db@,
            v.valid(),
            all == station_views(stations@),
            json_views(out@) == segments_shown(v, all.take(i as int)),
        decreases stations@.len() - i,
    {
        assert(all.take(i + 1).drop_last() =~= all.take(i as int));
        assert(all.take(i + 1).last() == stations@[i as int]@);
        let segs = list_segments(db, stations[i].station_id.as_str());
        let ghost sv = clocksegment_views(segs@);
        let ghost before = json_views(out@);
        let ghost more = sv.map_values(|s: ClockSegmentView| segment_json(s));
        let mut j: usize = 0;
        assert(before =~= before + more.take(0));
        while j < segs.len()
            invariant
                j <= segs@.len(),
                sv == clocksegment_views(segs@),
                more == sv.map_values(|s: ClockSegmentView| segment_json(s)),
                json_views(out@) =~= before + more.take(j as int),
            decreases segs@.len() - j,
        {
            assert(sv[j as int] == segs@[j as int]@);
            let ghost now = json_views(out@);
            let one = segment_value(&segs[j]);
            assert(one@ == more[j as int]);
            out.push(one);
            assert(json_views(out@) =~= now.push(more[j as int]));
            assert(more.take(j + 1) =~= more.take(j as int).push(more[j as int]));
            j += 1;
        }
        assert(more.take(j as int) =~= more);
        i += 1;
    }
    assert(all.take(i as int) =~= all);
    array(out)
}

// ---------- Jobs ----------

pub open spec fn for_event(event_id: Seq<char>) -> spec_fn(JobRowView) -> bool {
    |j: JobRowView| j.event_id == event_id
}

/// The job that was entered last stands first.
pub open spec fn latest_first() -> spec_fn(JobRowView) -> PlaceView {
    |j: JobRowView|
        (seq![-j.created_at.rank()], j.fingerprint, Seq::<char>::empty(), Seq::<int>::empty())
}

fn event_jobs(db: &Db, event_id: &str) -> (r: Vec<JobRow>)
    requires
        db@.valid(),
    ensures
        jobrow_views(r@) == arranged(db@.jobs.filter(for_event(event_id@)), latest_first()),
{
    let ghost all = jobrow_views(db.jobs@);
    let ghost pick = for_event(event_id@);
    let ghost place = latest_first();
    let mut out: Vec<Placed<JobRow>> = Vec::new();
    let mut i: usize = 0;
    proof {
        reveal(Seq::filter);
        assert(all.take(0) =~= Seq::empty());
    }
    assert(rows_of(out@) =~= all.take(0).filter(pick));
    while i < db.jobs.len()
        invariant
            i <= db.jobs@.len(),
            all == jobrow_views(db.jobs@),
            pick == for_event(event_id@),
            place == latest_first(),
            db@.valid(),
            rows_of(out@) == all.take(i as int).filter(pick),
            forall|k: int|
                0 <= k < out@.len() ==> (#[trigger] out@[k]).place() == place(out@[k].item@),
        decreases db.jobs@.len() - i,
    {
        let x = &db.jobs[i];
        let ghost before = rows_of(out@);
        assert(all.take(i + 1) =~= all.take(i as int).push(x@));
        proof {
            filter_of_push(all.take(i as int), x@, pick);
        }
        if same(x.event_id.as_str(), event_id) {
            assert(pick(x@));
            out.push(
                Placed {
                    lead: one_number(-x.created_at.rank_number()),
                    a: x.fingerprint.clone(),
                    b: String::new(),
                    tail: no_number(),
                    item: x.copy(),
                },
            );
            assert(rows_of(out@) =~= before.push(x@));
        } else {
            assert(!pick(x@));
        }
        i += 1;
    }
    assert(all.take(i as int) =~= all);
    proof {
        assert forall|j: int, k: int|
            0 <= j < k < all.len() && pick(#[trigger] all[j])
                && pick(#[trigger] all[k]) implies place(
            all[j],
        ) != place(all[k]) by {
            assert(all[j].fingerprint != all[k].fingerprint);
        }
        picked_rows_differ(all, pick, place);
        assert forall|j: int, k: int| 0 <= j < k < out@.len() implies (
            #[trigger] out@[j]).place() != (
        #[trigger] out@[k]).place() by {
            assert(rows_of(out@)[j] == out@[j].item@ && rows_of(out@)[k] == out@[k].item@);
        }
    }
    let r = arrange(out, Ghost(place));
    assert(jobrow_views(r@) =~= said(r@));
    r
}

/// A job as it is shown.
pub open spec fn job_json(x: JobRowView) -> JsonView {
    JsonView::Object(
        seq![
            ("fingerprint"@, JsonView::Text(x.fingerprint)),
            ("state"@, JsonView::Text(x.state)),
            ("created_at"@, JsonView::Float(x.created_at)),
            ("finished_at"@, double_or_null(x.finished_at)),
        ],
    )
}

fn job_value(x: &JobRow) -> (r: Json)
    ensures
        r@ == job_json(x@),
{
    let mut m = Members::new();
    m.put("fingerprint", Json::Text(x.fingerprint.clone()));
    m.put("state", Json::Text(x.state.clone()));
    m.put("created_at", Json::Float(x.created_at));
    m.put("finished_at", double_value(x.finished_at));
    let r = m.object();
    assert(r@->Object_0 =~= job_json(x@)->Object_0);
    r
}

fn job_values(list: &Vec<JobRow>) -> (r: Json)
    ensures
        r@ == JsonView::Array(jobrow_views(list@).map_values(|x: JobRowView| job_json(x))),
{
    let ghost all = jobrow_views(list@);
    let mut out: Vec<Json> = Vec::new();
    let mut i: usize = 0;
    while i < list.len()
        invariant
            i <= list@.len(),
            all == jobrow_views(list@),
            out@.len() == i,
            forall|k: int| 0 <= k < i ==> (#[trigger] out@[k])@ == job_json(all[k]),
        decreases list@.len() - i,
    {
        assert(all[i as int] == list@[i as int]@);
        out.push(job_value(&list[i]));
        i += 1;
    }
    assert(json_views(out@) =~= all.map_values(|x: JobRowView| job_json(x)));
    array(out)
}

// ---------- The event ----------

/// The event itself as it is shown.
pub open spec fn header_shown(
    event_id: Seq<char>,
    t0: Double,
    t1: Double,
    speed: Double,
    linked: int,
) -> JsonView {
    JsonView::Object(
        seq![
            ("event_id"@, JsonView::Text(event_id)),
            ("t_start"@, JsonView::Float(t0)),
            ("t_end"@, JsonView::Float(t1)),
            ("interval_semantics"@, JsonView::Text("half-open [t_start, t_end)"@)),
            ("sound_speed"@, JsonView::Float(speed)),
            ("speed_unit"@, JsonView::Text(SPEED_UNIT@)),
            ("coordinate_unit"@, JsonView::Text(COORDINATE_UNIT@)),
            ("time_unit"@, JsonView::Text(TIME_UNIT@)),
            ("delay_unit"@, JsonView::Text(DELAY_UNIT@)),
            ("linked_observation_count"@, JsonView::Int(linked)),
        ],
    )
}

fn header_value(event_id: &str, t0: Double, t1: Double, speed: Double, linked: usize) -> (r: Json)
    ensures
        r@ == header_shown(event_id@, t0, t1, speed, linked as int),
{
    let mut m = Members::new();
    m.put("event_id", Json::Text(event_id.to_owned()));
    m.put("t_start", Json::Float(t0));
    m.put("t_end", Json::Float(t1));
    m.put("interval_semantics", Json::Text("half-open [t_start, t_end)".to_owned()));
    m.put("sound_speed", Json::Float(speed));
    m.put("speed_unit", Json::Text(SPEED_UNIT.to_owned()));
    m.put("coordinate_unit", Json::Text(COORDINATE_UNIT.to_owned()));
    m.put("time_unit", Json::Text(TIME_UNIT.to_owned()));
    m.put("delay_unit", Json::Text(DELAY_UNIT.to_owned()));
    m.put("linked_observation_count", Json::UInt(linked as u64));
    let r = m.object();
    assert(r@->Object_0 =~= header_shown(event_id@, t0, t1, speed, linked as int)->Object_0);
    r
}

/// The candidates that are shown: those of the latest job that is done.
pub open spec fn candidates_shown(v: DbView, event_id: Seq<char>, wholes: Wholes) -> Seq<
    CandidateView,
> {
    match latest_of(v.jobs, event_id) {
        Some(j) => candidates_read(v, j.fingerprint, wholes),
        None => Seq::empty(),
    }
}

/// Everything that is shown of an event.
pub open spec fn detail_shown(v: DbView, event_id: Seq<char>, wholes: Wholes) -> JsonView {
    let h = event_row(v.events, event_id)->0.header;
    JsonView::Object(
        seq![
            (
                "event"@,
                header_shown(
                    event_id,
                    h.t_start,
                    h.t_end,
                    h.sound_speed,
                    linked_obs(v, event_id).len() as int,
                ),
            ),
            (
                "stations"@,
                JsonView::Array(stations_listed(v).map_values(|s: StationView| station_json(s))),
            ),
            ("clock_segments"@, JsonView::Array(segments_shown(v, stations_listed(v)))),
            ("observations"@, observations_shown(v, event_id)),
            ("edges"@, edges_shown(v, event_id)),
            (
                "evidence"@,
                JsonView::Array(
                    evidence_of(v, event_id).map_values(|e: EvidenceView| evidence_json(e)),
                ),
            ),
            (
                "jobs"@,
                JsonView::Array(
                    arranged(v.jobs.filter(for_event(event_id)), latest_first()).map_values(
                        |j: JobRowView| job_json(j),
                    ),
                ),
            ),
            (
                "latest_done_job"@,
                match latest_of(v.jobs, event_id) {
                    Some(j) => JsonView::Text(j.fingerprint),
                    None => JsonView::Null,
                },
            ),
            (
                "candidates"@,
                JsonView::Array(
                    candidates_shown(v, event_id, wholes).map_values(
                        |c: CandidateView| candidate_json(c),
                    ),
                ),
            ),
            ("observable_radius_m"@, JsonView::Float(Double { bits: OBSERVABLE_RADIUS })),
        ],
    )
}

/// Shows an event.
pub fn event_detail(db: &Db, event_id: &str, wholes: &Wholes) -> (r: Result<Json, String>)
    requires
        db@.valid(),
    ensures
        match r {
            Ok(v) => event_row(db@.events, event_id@) is Some && v@ == detail_shown(
                db@,
                event_id@,
                *wholes,
            ),
            Err(m) => event_row(db@.events, event_id@) is None && m@ == "Query returned no rows"@,
        },
{
    let ghost v = db@;
    let (t0, t1, speed, linked) = match linked_observations(db, event_id) {
        Ok(t) => t,
        Err(m) => {
            return Err(m);
        },
    };
    assert(linkedobs_views(linked@).len() == linked@.len());
    let job = latest_done_job(db, event_id);
    let candidates = match &job {
        Some(fp) => candidates_payload(db, fp.as_str(), wholes),
        None => Vec::new(),
    };
    assert(candidate_views(candidates@) =~= candidates_shown(v, event_id@, *wholes));
    let stations = list_stations(db);
    let evidence = list_evidence(db, event_id);
    let jobs = event_jobs(db, event_id);
    let station_list = station_values(&stations);
    let evidence_list = evidence_values(&evidence);
    let job_list = job_values(&jobs);
    let candidate_list = candidate_values(&candidates);
    assert(station_list@->Array_0 =~= stations_listed(v).map_values(
        |s: StationView| station_json(s),
    ));
    assert(evidence_list@->Array_0 =~= evidence_of(v, event_id@).map_values(
        |e: EvidenceView| evidence_json(e),
    ));
    assert(job_list@->Array_0 =~= arranged(
        v.jobs.filter(for_event(event_id@)),
        latest_first(),
    ).map_values(|j: JobRowView| job_json(j)));
    assert(candidate_list@->Array_0 =~= candidates_shown(v, event_id@, *wholes).map_values(
        |c: CandidateView| candidate_json(c),
    ));
    let latest = match job {
        Some(fp) => Json::Text(fp),
        None => Json::Null,
    };
    let mut m = Members::new();
    m.put("event", header_value(event_id, t0, t1, speed, linked.len()));
    m.put("stations", station_list);
    m.put("clock_segments", segment_values(db, &stations));
    m.put("observations", observations_payload(db, event_id));
    m.put("edges", edge_payload(db, event_id));
    m.put("evidence", evidence_list);
    m.put("jobs", job_list);
    m.put("latest_done_job", latest);
    m.put("candidates", candidate_list);
    m.put("observable_radius_m", Json::Float(Double { bits: OBSERVABLE_RADIUS }));
    let r = m.object();
    assert(r@->Object_0 =~= detail_shown(v, event_id@, *wholes)->Object_0);
    Ok(r)
}

} // verus!
