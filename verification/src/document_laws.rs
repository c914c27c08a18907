//! What the documents of the records say, member by member.
use vstd::prelude::*;

use crate::canon_laws::keys_differ;
use crate::double::Double;
use crate::figures::Pt;
use crate::json::{first_under, JsonView};
use crate::model::{
    CandidateResidualView, CandidateView, ClockSegmentView, CurveView, EvidenceRowView, JobSaid,
    LagRowView, ObservationRowView, RegionView, SiteBounds, StationView,
};
use crate::shown::{
    shown_bounds, shown_candidate, shown_curve, shown_event, shown_evidence, shown_job, shown_lag,
    shown_observation, shown_region, shown_residual, shown_segment, shown_station,
};
use crate::store::EventRowView;

verus! {

/// Where the keys of an object differ, a member is found under its key.
pub proof fn a_member_is_found_under_its_key(members: Seq<(Seq<char>, JsonView)>, k: int)
    requires
        keys_differ(members),
        0 <= k < members.len(),
    ensures
        JsonView::Object(members).member(members[k].0) == Some(members[k].1),
    decreases members.len(),
{
    if k > 0 {
        let rest = members.drop_first();
        assert(members[0].0 != members[k].0);
        assert(rest[k - 1] == members[k]);
        assert forall|i: int, j: int| 0 <= i < j < rest.len() implies (#[trigger] rest[i]).0 != (
        #[trigger] rest[j]).0 by {
            assert(members[i + 1].0 != members[j + 1].0);
        }
        a_member_is_found_under_its_key(rest, k - 1);
        assert(first_under(members, members[k].0) == first_under(rest, members[k].0));
    }
}

/// Where the keys of an object differ, each member is found under its key.
pub proof fn members_are_found_under_their_keys(members: Seq<(Seq<char>, JsonView)>)
    requires
        keys_differ(members),
    ensures
        forall|k: int|
            0 <= k < members.len() ==> JsonView::Object(members).member(
                (#[trigger] members[k]).0,
            ) == Some(members[k].1),
{
    assert forall|k: int| 0 <= k < members.len() implies JsonView::Object(members).member(
        (#[trigger] members[k]).0,
    ) == Some(members[k].1) by {
        a_member_is_found_under_its_key(members, k);
    }
}

/// A document says a number, or null where there is none.
pub open spec fn says_number(v: JsonView, key: Seq<char>, o: Option<Double>) -> bool {
    &&& o is Some ==> v.member(key) == Some(JsonView::Float(o->0))
    &&& o is None ==> v.member(key) == Some(JsonView::Null)
}

/// A document says a text, or null where there is none.
pub open spec fn says_text(v: JsonView, key: Seq<char>, o: Option<Seq<char>>) -> bool {
    &&& o is Some ==> v.member(key) == Some(JsonView::Text(o->0))
    &&& o is None ==> v.member(key) == Some(JsonView::Null)
}

/// A value is a place: its two coordinates, the one to the right first.
pub open spec fn is_place(v: JsonView, p: Pt) -> bool {
    &&& v is Array
    &&& v->Array_0.len() == 2
    &&& v->Array_0[0] == JsonView::Float(p.x)
    &&& v->Array_0[1] == JsonView::Float(p.y)
}

/// A value is a list of places, one by one.
pub open spec fn are_places(v: JsonView, s: Seq<Pt>) -> bool {
    &&& v is Array
    &&& v->Array_0.len() == s.len()
    &&& forall|i: int| 0 <= i < s.len() ==> is_place(#[trigger] v->Array_0[i], s[i])
}

/// The document of a station says its name, its place and its label.
pub proof fn the_document_of_a_station(s: StationView)
    ensures
        ({
            let v = shown_station(s);
            &&& v.member("station_id"@) == Some(JsonView::Text(s.station_id))
            &&& v.member("x"@) == Some(JsonView::Float(s.x))
            &&& v.member("y"@) == Some(JsonView::Float(s.y))
            &&& v.member("label"@) == Some(JsonView::Text(s.label))
        }),
{
    reveal_strlit("station_id");
    reveal_strlit("x");
    reveal_strlit("y");
    reveal_strlit("label");
    assert("x"@[0] == 'x' && "y"@[0] == 'y' && "x"@.len() == 1 && "y"@.len() == 1);
    assert("station_id"@.len() == 10 && "label"@.len() == 5);
    let m = shown_station(s)->Object_0;
    members_are_found_under_their_keys(m);
    assert(m[0].0 == "station_id"@ && m[1].0 == "x"@ && m[2].0 == "y"@ && m[3].0 == "label"@);
}

/// The document of bounds says each of the four under its name.
pub proof fn the_document_of_bounds(b: SiteBounds)
    ensures
        ({
            let v = shown_bounds(b);
            &&& v.member("min_x"@) == Some(JsonView::Float(b.min_x))
            &&& v.member("min_y"@) == Some(JsonView::Float(b.min_y))
            &&& v.member("max_x"@) == Some(JsonView::Float(b.max_x))
            &&& v.member("max_y"@) == Some(JsonView::Float(b.max_y))
        }),
{
    reveal_strlit("min_x");
    reveal_strlit("min_y");
    reveal_strlit("max_x");
    reveal_strlit("max_y");
    assert("min_x"@[1] == 'i' && "min_y"@[1] == 'i' && "max_x"@[1] == 'a' && "max_y"@[1] == 'a');
    assert("min_x"@[4] == 'x' && "min_y"@[4] == 'y' && "max_x"@[4] == 'x' && "max_y"@[4] == 'y');
    let m = shown_bounds(b)->Object_0;
    members_are_found_under_their_keys(m);
    assert(m[0].0 == "min_x"@ && m[1].0 == "min_y"@ && m[2].0 == "max_x"@ && m[3].0 == "max_y"@);
}

/// The document of an event says its name, its label, its window, its speed of
/// sound and its bounds.
pub proof fn the_document_of_an_event(e: EventRowView)
    ensures
        ({
            let v = shown_event(e);
            let b = v.member("bounds"@);
            &&& v.member("event_id"@) == Some(JsonView::Text(e.event_id))
            &&& v.member("label"@) == Some(JsonView::Text(e.label))
            &&& v.member("window_start"@) == Some(JsonView::Float(e.window_start))
            &&& v.member("window_end"@) == Some(JsonView::Float(e.window_end))
            &&& v.member("sound_speed_mps"@) == Some(JsonView::Float(e.sound_speed_mps))
            &&& b is Some
            &&& b->0.member("min_x"@) == Some(JsonView::Float(e.bounds.min_x))
            &&& b->0.member("min_y"@) == Some(JsonView::Float(e.bounds.min_y))
            &&& b->0.member("max_x"@) == Some(JsonView::Float(e.bounds.max_x))
            &&& b->0.member("max_y"@) == Some(JsonView::Float(e.bounds.max_y))
        }),
{
    reveal_strlit("event_id");
    reveal_strlit("label");
    reveal_strlit("window_start");
    reveal_strlit("window_end");
    reveal_strlit("sound_speed_mps");
    reveal_strlit("bounds");
    assert("event_id"@.len() == 8 && "label"@.len() == 5 && "window_start"@.len() == 12);
    assert("window_end"@.len() == 10 && "sound_speed_mps"@.len() == 15 && "bounds"@.len() == 6);
    let m = shown_event(e)->Object_0;
    members_are_found_under_their_keys(m);
    the_document_of_bounds(e.bounds);
    assert(m[0].0 == "event_id"@ && m[1].0 == "label"@ && m[2].0 == "window_start"@);
    assert(m[3].0 == "window_end"@ && m[4].0 == "sound_speed_mps"@ && m[5].0 == "bounds"@);
}

/// The document of an observation says all that the row does, each under its
/// name.
pub proof fn the_document_of_an_observation(o: ObservationRowView)
    ensures
        ({
            let v = shown_observation(o);
            &&& v.member("obs_uid"@) == Some(JsonView::Text(o.obs_uid))
            &&& v.member("batch_uid"@) == Some(JsonView::Text(o.batch_uid))
            &&& v.member("event_id"@) == Some(JsonView::Text(o.event_id))
            &&& v.member("station_id"@) == Some(JsonView::Text(o.station_id))
            &&& v.member("local_onset_sec"@) == Some(JsonView::Float(o.local_onset_sec))
            &&& says_number(v, "corrected_onset_sec"@, o.corrected_onset_sec)
            &&& v.member("clock_locked"@) == Some(JsonView::Bool(o.clock_locked))
            &&& o.clock_segment_id is Some ==> v.member("clock_segment_id"@) == Some(
                JsonView::Int(o.clock_segment_id->0 as int),
            )
            &&& o.clock_segment_id is None ==> v.member("clock_segment_id"@) == Some(JsonView::Null)
            &&& v.member("peak_band_hz"@) == Some(JsonView::Float(o.peak_band_hz))
            &&& v.member("snr_db"@) == Some(JsonView::Float(o.snr_db))
            &&& says_text(v, "duplicate_of"@, o.duplicate_of)
        }),
{
    reveal_strlit("obs_uid");
    reveal_strlit("batch_uid");
    reveal_strlit("event_id");
    reveal_strlit("station_id");
    reveal_strlit("local_onset_sec");
    reveal_strlit("corrected_onset_sec");
    reveal_strlit("clock_locked");
    reveal_strlit("clock_segment_id");
    reveal_strlit("peak_band_hz");
    reveal_strlit("snr_db");
    reveal_strlit("duplicate_of");
    assert("obs_uid"@.len() == 7 && "batch_uid"@.len() == 9 && "event_id"@.len() == 8);
    assert("station_id"@.len() == 10 && "local_onset_sec"@.len() == 15);
    assert("corrected_onset_sec"@.len() == 19 && "clock_segment_id"@.len() == 16);
    assert("clock_locked"@.len() == 12 && "peak_band_hz"@.len() == 12);
    assert("duplicate_of"@.len() == 12 && "snr_db"@.len() == 6);
    assert("clock_locked"@[0] == 'c' && "peak_band_hz"@[0] == 'p' && "duplicate_of"@[0] == 'd');
    let m = shown_observation(o)->Object_0;
    members_are_found_under_their_keys(m);
    assert(m[0].0 == "obs_uid"@ && m[1].0 == "batch_uid"@ && m[2].0 == "event_id"@);
    assert(m[3].0 == "station_id"@ && m[4].0 == "local_onset_sec"@);
    assert(m[5].0 == "corrected_onset_sec"@ && m[6].0 == "clock_locked"@);
    assert(m[7].0 == "clock_segment_id"@ && m[8].0 == "peak_band_hz"@ && m[9].0 == "snr_db"@);
    assert(m[10].0 == "duplicate_of"@);
}

/// The document of a delay says all that the row does, each under its name.
pub proof fn the_document_of_a_delay(l: LagRowView)
    ensures
        ({
            let v = shown_lag(l);
            &&& v.member("lag_uid"@) == Some(JsonView::Text(l.lag_uid))
            &&& v.member("obs_uid"@) == Some(JsonView::Text(l.obs_uid))
            &&& v.member("station_id"@) == Some(JsonView::Text(l.station_id))
            &&& v.member("peer_id"@) == Some(JsonView::Text(l.peer_id))
            &&& v.member("lag_sec"@) == Some(JsonView::Float(l.lag_sec))
            &&& v.member("peak_band_hz"@) == Some(JsonView::Float(l.peak_band_hz))
            &&& v.member("snr_db"@) == Some(JsonView::Float(l.snr_db))
            &&& v.member("hint"@) == Some(JsonView::Text(l.hint))
        }),
{
    reveal_strlit("lag_uid");
    reveal_strlit("obs_uid");
    reveal_strlit("station_id");
    reveal_strlit("peer_id");
    reveal_strlit("lag_sec");
    reveal_strlit("peak_band_hz");
    reveal_strlit("snr_db");
    reveal_strlit("hint");
    assert("lag_uid"@.len() == 7 && "obs_uid"@.len() == 7 && "peer_id"@.len() == 7);
    assert("lag_sec"@.len() == 7 && "lag_uid"@[0] == 'l' && "obs_uid"@[0] == 'o');
    assert("peer_id"@[0] == 'p' && "lag_sec"@[0] == 'l' && "lag_uid"@[4] == 'u');
    assert("lag_sec"@[4] == 's' && "station_id"@.len() == 10 && "peak_band_hz"@.len() == 12);
    assert("snr_db"@.len() == 6 && "hint"@.len() == 4);
    let m = shown_lag(l)->Object_0;
    members_are_found_under_their_keys(m);
    assert(m[0].0 == "lag_uid"@ && m[1].0 == "obs_uid"@ && m[2].0 == "station_id"@);
    assert(m[3].0 == "peer_id"@ && m[4].0 == "lag_sec"@ && m[5].0 == "peak_band_hz"@);
    assert(m[6].0 == "snr_db"@ && m[7].0 == "hint"@);
}

/// The document of evidence says all that the row does, each under its name.
pub proof fn the_document_of_evidence(e: EvidenceRowView)
    ensures
        ({
            let v = shown_evidence(e);
            &&& v.member("evidence_id"@) == Some(JsonView::Text(e.evidence_id))
            &&& v.member("event_id"@) == Some(JsonView::Text(e.event_id))
            &&& v.member("kind"@) == Some(JsonView::Text(e.kind))
            &&& v.member("payload"@) == Some(e.payload)
            &&& v.member("basis"@) == Some(JsonView::Text(e.basis))
            &&& v.member("created_at"@) == Some(JsonView::Text(e.created_at))
            &&& says_text(v, "superseded_by"@, e.superseded_by)
            &&& v.member("active"@) == Some(JsonView::Bool(e.active))
        }),
{
    reveal_strlit("evidence_id");
    reveal_strlit("event_id");
    reveal_strlit("kind");
    reveal_strlit("payload");
    reveal_strlit("basis");
    reveal_strlit("created_at");
    reveal_strlit("superseded_by");
    reveal_strlit("active");
    assert("evidence_id"@.len() == 11 && "event_id"@.len() == 8 && "kind"@.len() == 4);
    assert("payload"@.len() == 7 && "basis"@.len() == 5 && "created_at"@.len() == 10);
    assert("superseded_by"@.len() == 13 && "active"@.len() == 6);
    let m = shown_evidence(e)->Object_0;
    members_are_found_under_their_keys(m);
    assert(m[0].0 == "evidence_id"@ && m[1].0 == "event_id"@ && m[2].0 == "kind"@);
    assert(m[3].0 == "payload"@ && m[4].0 == "basis"@ && m[5].0 == "created_at"@);
    assert(m[6].0 == "superseded_by"@ && m[7].0 == "active"@);
}

/// The document of a job says all that the row does, each under its name.
pub proof fn the_document_of_a_job(j: JobSaid)
    ensures
        ({
            let v = shown_job(j);
            &&& v.member("job_id"@) == Some(JsonView::Int(j.job_id))
            &&& v.member("event_id"@) == Some(JsonView::Text(j.event_id))
            &&& v.member("status"@) == Some(JsonView::Text(j.status))
            &&& v.member("fingerprint"@) == Some(JsonView::Text(j.fingerprint))
            &&& says_text(v, "error"@, j.error)
            &&& v.member("created_at"@) == Some(JsonView::Text(j.created_at))
        }),
{
    reveal_strlit("job_id");
    reveal_strlit("event_id");
    reveal_strlit("status");
    reveal_strlit("fingerprint");
    reveal_strlit("error");
    reveal_strlit("created_at");
    assert("job_id"@.len() == 6 && "status"@.len() == 6 && "event_id"@.len() == 8);
    assert("job_id"@[0] == 'j' && "status"@[0] == 's' && "fingerprint"@.len() == 11);
    assert("error"@.len() == 5 && "created_at"@.len() == 10);
    let m = shown_job(j)->Object_0;
    members_are_found_under_their_keys(m);
    assert(m[0].0 == "job_id"@ && m[1].0 == "event_id"@ && m[2].0 == "status"@);
    assert(m[3].0 == "fingerprint"@ && m[4].0 == "error"@ && m[5].0 == "created_at"@);
}

/// The document of a clock segment says its number and all that the segment
/// does, each under its name.
pub proof fn the_document_of_a_segment(s: ClockSegmentView, n: int)
    ensures
        ({
            let v = shown_segment((s, n));
            &&& v.member("segment_id"@) == Some(JsonView::Int(n))
            &&& v.member("station_id"@) == Some(JsonView::Text(s.station_id))
            &&& v.member("t_start"@) == Some(JsonView::Float(s.t_start))
            &&& says_number(v, "t_end"@, s.t_end)
            &&& v.member("offset_sec"@) == Some(JsonView::Float(s.offset_sec))
            &&& v.member("source"@) == Some(JsonView::Text(s.source))
        }),
{
    reveal_strlit("segment_id");
    reveal_strlit("station_id");
    reveal_strlit("t_start");
    reveal_strlit("t_end");
    reveal_strlit("offset_sec");
    reveal_strlit("source");
    assert("segment_id"@.len() == 10 && "station_id"@.len() == 10 && "offset_sec"@.len() == 10);
    assert("segment_id"@[1] == 'e' && "station_id"@[1] == 't' && "offset_sec"@[1] == 'f');
    assert("t_start"@.len() == 7 && "t_end"@.len() == 5 && "source"@.len() == 6);
    let m = shown_segment((s, n))->Object_0;
    members_are_found_under_their_keys(m);
    assert(m[0].0 == "segment_id"@ && m[1].0 == "station_id"@ && m[2].0 == "t_start"@);
    assert(m[3].0 == "t_end"@ && m[4].0 == "offset_sec"@ && m[5].0 == "source"@);
}

/// The document of a row of residuals says all that the row does, each under its
/// name.
pub proof fn the_document_of_a_residual(r: CandidateResidualView)
    ensures
        ({
            let v = shown_residual(r);
            &&& v.member("kind"@) == Some(JsonView::Text(r.kind))
            &&& says_text(v, "lag_uid"@, r.lag_uid)
            &&& v.member("station_id"@) == Some(JsonView::Text(r.station_id))
            &&& says_text(v, "peer_id"@, r.peer_id)
            &&& v.member("measured_sec"@) == Some(JsonView::Float(r.measured_sec))
            &&& says_number(v, "predicted_sec"@, r.predicted_sec)
            &&& says_number(v, "residual_sec"@, r.residual_sec)
            &&& v.member("weight"@) == Some(JsonView::Float(r.weight))
            &&& v.member("used"@) == Some(JsonView::Bool(r.used))
            &&& says_text(v, "excluded_reason"@, r.excluded_reason)
        }),
{
    reveal_strlit("kind");
    reveal_strlit("lag_uid");
    reveal_strlit("station_id");
    reveal_strlit("peer_id");
    reveal_strlit("measured_sec");
    reveal_strlit("predicted_sec");
    reveal_strlit("residual_sec");
    reveal_strlit("weight");
    reveal_strlit("used");
    reveal_strlit("excluded_reason");
    assert("kind"@.len() == 4 && "used"@.len() == 4 && "kind"@[0] == 'k' && "used"@[0] == 'u');
    assert("lag_uid"@.len() == 7 && "peer_id"@.len() == 7);
    assert("lag_uid"@[0] == 'l' && "peer_id"@[0] == 'p' && "station_id"@.len() == 10);
    assert("measured_sec"@.len() == 12 && "residual_sec"@.len() == 12);
    assert("measured_sec"@[0] == 'm' && "residual_sec"@[0] == 'r');
    assert("predicted_sec"@.len() == 13 && "weight"@.len() == 6);
    assert("excluded_reason"@.len() == 15);
    let m = shown_residual(r)->Object_0;
    members_are_found_under_their_keys(m);
    assert(m[0].0 == "kind"@ && m[1].0 == "lag_uid"@ && m[2].0 == "station_id"@);
    assert(m[3].0 == "peer_id"@ && m[4].0 == "measured_sec"@ && m[5].0 == "predicted_sec"@);
    assert(m[6].0 == "residual_sec"@ && m[7].0 == "weight"@ && m[8].0 == "used"@);
    assert(m[9].0 == "excluded_reason"@);
}

/// The document of a curve says its kind, its foci, its difference and its
/// points.
pub proof fn the_document_of_a_curve(c: CurveView)
    ensures
        ({
            let v = shown_curve(c);
            &&& v.member("kind"@) == Some(JsonView::Text(c.kind))
            &&& v.member("focus_a"@) is Some && is_place(v.member("focus_a"@)->0, c.focus_a)
            &&& v.member("focus_b"@) is Some && is_place(v.member("focus_b"@)->0, c.focus_b)
            &&& v.member("difference_m"@) == Some(JsonView::Float(c.difference_m))
            &&& v.member("points"@) is Some && are_places(v.member("points"@)->0, c.points)
        }),
{
    reveal_strlit("kind");
    reveal_strlit("focus_a");
    reveal_strlit("focus_b");
    reveal_strlit("difference_m");
    reveal_strlit("points");
    assert("kind"@.len() == 4 && "focus_a"@.len() == 7 && "focus_b"@.len() == 7);
    assert("focus_a"@[6] == 'a' && "focus_b"@[6] == 'b');
    assert("difference_m"@.len() == 12 && "points"@.len() == 6);
    let m = shown_curve(c)->Object_0;
    members_are_found_under_their_keys(m);
    assert(m[0].0 == "kind"@ && m[1].0 == "focus_a"@ && m[2].0 == "focus_b"@);
    assert(m[3].0 == "difference_m"@ && m[4].0 == "points"@);
}

/// The document of a region says its kind, its centre, its axes, its angle and
/// its corners.
pub proof fn the_document_of_a_region(g: RegionView)
    ensures
        ({
            let v = shown_region(g);
            &&& v.member("kind"@) == Some(JsonView::Text(g.kind))
            &&& v.member("center"@) is Some && is_place(v.member("center"@)->0, g.center)
            &&& v.member("semi_axes"@) is Some && is_place(v.member("semi_axes"@)->0, g.semi_axes)
            &&& v.member("angle_rad"@) == Some(JsonView::Float(g.angle_rad))
            &&& v.member("polygon"@) is Some && are_places(v.member("polygon"@)->0, g.polygon)
        }),
{
    reveal_strlit("kind");
    reveal_strlit("center");
    reveal_strlit("semi_axes");
    reveal_strlit("angle_rad");
    reveal_strlit("polygon");
    assert("kind"@.len() == 4 && "center"@.len() == 6 && "polygon"@.len() == 7);
    assert("semi_axes"@.len() == 9 && "angle_rad"@.len() == 9);
    assert("semi_axes"@[0] == 's' && "angle_rad"@[0] == 'a');
    let m = shown_region(g)->Object_0;
    members_are_found_under_their_keys(m);
    assert(m[0].0 == "kind"@ && m[1].0 == "center"@ && m[2].0 == "semi_axes"@);
    assert(m[3].0 == "angle_rad"@ && m[4].0 == "polygon"@);
}

/// The document of a candidate says its name, its job, its rank, its kind, its
/// position, its residual, its reason, its score and its signature, and has a
/// row for each of its residuals.
pub proof fn the_document_of_a_candidate(c: CandidateView)
    ensures
        ({
            let v = shown_candidate(c);
            let rows = v.member("residuals"@);
            &&& v.member("candidate_id"@) == Some(JsonView::Text(c.candidate_id))
            &&& v.member("job_id"@) == Some(JsonView::Int(c.job_id))
            &&& v.member("rank"@) == Some(JsonView::Int(c.rank))
            &&& v.member("kind"@) == Some(JsonView::Text(c.kind))
            &&& c.point is Some ==> v.member("point"@) is Some && is_place(
                v.member("point"@)->0,
                c.point->0,
            )
            &&& c.point is None ==> v.member("point"@) == Some(JsonView::Null)
            &&& c.curve is None ==> v.member("curve"@) == Some(JsonView::Null)
            &&& c.curve is Some ==> v.member("curve"@) == Some(shown_curve(c.curve->0))
            &&& c.region is None ==> v.member("region"@) == Some(JsonView::Null)
            &&& c.region is Some ==> v.member("region"@) == Some(shown_region(c.region->0))
            &&& says_number(v, "rms_sec"@, c.rms_sec)
            &&& v.member("underdetermined"@) == Some(JsonView::Text(c.underdetermined))
            &&& v.member("score"@) == Some(JsonView::Float(c.score))
            &&& v.member("signature"@) == Some(JsonView::Text(c.signature))
            &&& rows is Some && rows->0 is Array && rows->0->Array_0.len() == c.residuals.len()
            &&& forall|i: int|
                0 <= i < c.residuals.len() ==> #[trigger] rows->0->Array_0[i] == shown_residual(
                    c.residuals[i],
                )
        }),
{
    reveal_strlit("candidate_id");
    reveal_strlit("job_id");
    reveal_strlit("rank");
    reveal_strlit("kind");
    reveal_strlit("point");
    reveal_strlit("curve");
    reveal_strlit("region");
    reveal_strlit("rms_sec");
    reveal_strlit("underdetermined");
    reveal_strlit("score");
    reveal_strlit("signature");
    reveal_strlit("residuals");
    assert("candidate_id"@.len() == 12 && "job_id"@.len() == 6 && "region"@.len() == 6);
    assert("job_id"@[0] == 'j' && "region"@[0] == 'r' && "rank"@.len() == 4 && "kind"@.len() == 4);
    assert("rank"@[0] == 'r' && "kind"@[0] == 'k' && "point"@.len() == 5 && "curve"@.len() == 5);
    assert("score"@.len() == 5 && "point"@[0] == 'p' && "curve"@[0] == 'c' && "score"@[0] == 's');
    assert("rms_sec"@.len() == 7 && "underdetermined"@.len() == 15);
    assert("signature"@.len() == 9 && "residuals"@.len() == 9);
    assert("signature"@[0] == 's' && "residuals"@[0] == 'r');
    let m = shown_candidate(c)->Object_0;
    members_are_found_under_their_keys(m);
    assert(m[0].0 == "candidate_id"@ && m[1].0 == "job_id"@ && m[2].0 == "rank"@);
    assert(m[3].0 == "kind"@ && m[4].0 == "point"@ && m[5].0 == "curve"@ && m[6].0 == "region"@);
    assert(m[7].0 == "rms_sec"@ && m[8].0 == "underdetermined"@ && m[9].0 == "score"@);
    assert(m[10].0 == "signature"@ && m[11].0 == "residuals"@);
}

} // verus!
