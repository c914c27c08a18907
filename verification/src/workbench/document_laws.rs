//! What is shown of an event, member by member.
use vstd::prelude::*;

use crate::document_laws::{are_places, members_are_found_under_their_keys, says_number};
use crate::double::Double;
use crate::figures::Wholes;
use crate::json::JsonView;
use crate::workbench::db::{CandRowView, DbView, JobRowView, ObsRowView, XcorrRowView};
use crate::workbench::detail::{
    candidate_json, candidate_read, edge_shown, evidence_json, header_shown, job_json, later,
    latest_of, obs_shown, onset_of, region_json, residual_json, segment_json, station_json,
};
use crate::workbench::evidence::EvidenceView;
use crate::workbench::models::{
    CandidateView, ClockSegmentView, RegionView, ResidualRowView, StationView,
};
use crate::workbench::picture::station_of;

verus! {

// ---------- Documents ----------

/// The document of a residual says all that the row does, each under its name.
pub proof fn the_document_of_a_residual(r: ResidualRowView)
    ensures
        ({
            let v = residual_json(r);
            &&& v.member("edge"@) == Some(JsonView::Text(r.edge))
            &&& v.member("kind"@) == Some(JsonView::Text(r.kind))
            &&& v.member("station_a"@) == Some(JsonView::Text(r.station_a))
            &&& v.member("station_b"@) == Some(JsonView::Text(r.station_b))
            &&& v.member("measured_s"@) == Some(JsonView::Float(r.measured_s))
            &&& v.member("predicted_s"@) == Some(JsonView::Float(r.predicted_s))
            &&& v.member("residual_s"@) == Some(JsonView::Float(r.residual_s))
            &&& v.member("sigma_s"@) == Some(JsonView::Float(r.sigma_s))
            &&& v.member("n_sigma"@) == Some(JsonView::Float(r.n_sigma))
            &&& v.member("multipath"@) == Some(JsonView::Bool(r.multipath))
            &&& v.member("excluded"@) == Some(JsonView::Bool(r.excluded))
        }),
{
    reveal_strlit("edge");
    reveal_strlit("kind");
    reveal_strlit("station_a");
    reveal_strlit("station_b");
    reveal_strlit("measured_s");
    reveal_strlit("predicted_s");
    reveal_strlit("residual_s");
    reveal_strlit("sigma_s");
    reveal_strlit("n_sigma");
    reveal_strlit("multipath");
    reveal_strlit("excluded");
    assert("edge"@.len() == 4 && "kind"@.len() == 4 && "station_a"@.len() == 9);
    assert("station_b"@.len() == 9 && "measured_s"@.len() == 10 && "predicted_s"@.len() == 11);
    assert("residual_s"@.len() == 10 && "sigma_s"@.len() == 7 && "n_sigma"@.len() == 7);
    assert("multipath"@.len() == 9 && "excluded"@.len() == 8 && "edge"@[0] == 'e');
    assert("kind"@[0] == 'k' && "station_a"@[8] == 'a' && "station_b"@[8] == 'b');
    assert("station_a"@[0] == 's' && "multipath"@[0] == 'm' && "station_b"@[0] == 's');
    assert("measured_s"@[0] == 'm' && "residual_s"@[0] == 'r' && "sigma_s"@[0] == 's');
    assert("n_sigma"@[0] == 'n');
    let m = residual_json(r)->Object_0;
    members_are_found_under_their_keys(m);
    assert(m[0].0 == "edge"@ && m[1].0 == "kind"@ && m[2].0 == "station_a"@);
    assert(m[3].0 == "station_b"@ && m[4].0 == "measured_s"@ && m[5].0 == "predicted_s"@);
    assert(m[6].0 == "residual_s"@ && m[7].0 == "sigma_s"@ && m[8].0 == "n_sigma"@);
    assert(m[9].0 == "multipath"@ && m[10].0 == "excluded"@);
}

/// The document of a region says its shape, its places in their order, and its
/// source; where there is no region it is null.
pub proof fn the_document_of_a_region(r: RegionView)
    ensures
        ({
            let v = region_json(Some(r));
            &&& v.member("shape"@) == Some(JsonView::Text(r.shape))
            &&& v.member("coordinates"@) is Some && are_places(
                v.member("coordinates"@)->0,
                r.coordinates,
            )
            &&& v.member("source"@) == Some(JsonView::Text(r.source))
            &&& region_json(None) == JsonView::Null
        }),
{
    reveal_strlit("shape");
    reveal_strlit("coordinates");
    reveal_strlit("source");
    assert("shape"@.len() == 5 && "coordinates"@.len() == 11 && "source"@.len() == 6);
    let m = region_json(Some(r))->Object_0;
    members_are_found_under_their_keys(m);
    assert(m[0].0 == "shape"@ && m[1].0 == "coordinates"@ && m[2].0 == "source"@);
}

/// The document of a candidate says all that the candidate does, each under its
/// name, and has a row for each of its residuals.
pub proof fn the_document_of_a_candidate(c: CandidateView)
    ensures
        ({
            let v = candidate_json(c);
            let rows = v.member("residuals"@);
            &&& v.member("cand_id"@) == Some(JsonView::Int(c.cand_id))
            &&& v.member("cand_key"@) == Some(JsonView::Text(c.cand_key))
            &&& v.member("job_fp"@) == Some(JsonView::Text(c.job_fp))
            &&& v.member("rank_in_job"@) == Some(JsonView::Int(c.rank_in_job))
            &&& v.member("kind"@) == Some(JsonView::Text(c.kind))
            &&& v.member("status"@) == Some(JsonView::Text(c.status))
            &&& v.member("reason"@) == Some(JsonView::Text(c.reason))
            &&& says_number(v, "x"@, c.x)
            &&& says_number(v, "y"@, c.y)
            &&& v.member("region"@) == Some(region_json(c.region))
            &&& v.member("metrics"@) == Some(c.metrics)
            &&& rows is Some && rows->0 is Array && rows->0->Array_0.len() == c.residuals.len()
            &&& v.member("kept"@) == Some(JsonView::Bool(c.kept))
            &&& forall|i: int|
                0 <= i < c.residuals.len() ==> #[trigger] rows->0->Array_0[i] == residual_json(
                    c.residuals[i],
                )
        }),
{
    reveal_strlit("cand_id");
    reveal_strlit("cand_key");
    reveal_strlit("job_fp");
    reveal_strlit("rank_in_job");
    reveal_strlit("kind");
    reveal_strlit("status");
    reveal_strlit("reason");
    reveal_strlit("x");
    reveal_strlit("y");
    reveal_strlit("region");
    reveal_strlit("metrics");
    reveal_strlit("residuals");
    reveal_strlit("kept");
    assert("cand_id"@.len() == 7 && "cand_key"@.len() == 8 && "job_fp"@.len() == 6);
    assert("rank_in_job"@.len() == 11 && "kind"@.len() == 4 && "status"@.len() == 6);
    assert("reason"@.len() == 6 && "x"@.len() == 1 && "y"@.len() == 1 && "region"@.len() == 6);
    assert("metrics"@.len() == 7 && "residuals"@.len() == 9 && "kept"@.len() == 4);
    assert("cand_id"@[0] == 'c' && "metrics"@[0] == 'm' && "job_fp"@[0] == 'j');
    assert("status"@[0] == 's' && "reason"@[0] == 'r' && "region"@[0] == 'r' && "kind"@[1] == 'i');
    assert("kept"@[1] == 'e' && "reason"@[2] == 'a' && "region"@[2] == 'g' && "x"@[0] == 'x');
    assert("y"@[0] == 'y');
    let m = candidate_json(c)->Object_0;
    members_are_found_under_their_keys(m);
    assert(m[0].0 == "cand_id"@ && m[1].0 == "cand_key"@ && m[2].0 == "job_fp"@);
    assert(m[3].0 == "rank_in_job"@ && m[4].0 == "kind"@ && m[5].0 == "status"@);
    assert(m[6].0 == "reason"@ && m[7].0 == "x"@ && m[8].0 == "y"@ && m[9].0 == "region"@);
    assert(m[10].0 == "metrics"@ && m[11].0 == "residuals"@ && m[12].0 == "kept"@);
}

/// The document of a station says its key, its name and its place.
pub proof fn the_document_of_a_station(s: StationView)
    ensures
        ({
            let v = station_json(s);
            &&& v.member("station_id"@) == Some(JsonView::Text(s.station_id))
            &&& v.member("name"@) == Some(JsonView::Text(s.name))
            &&& v.member("x"@) == Some(JsonView::Float(s.x))
            &&& v.member("y"@) == Some(JsonView::Float(s.y))
        }),
{
    reveal_strlit("station_id");
    reveal_strlit("name");
    reveal_strlit("x");
    reveal_strlit("y");
    assert("station_id"@.len() == 10 && "name"@.len() == 4 && "x"@.len() == 1 && "y"@.len() == 1);
    assert("x"@[0] == 'x' && "y"@[0] == 'y');
    let m = station_json(s)->Object_0;
    members_are_found_under_their_keys(m);
    assert(m[0].0 == "station_id"@ && m[1].0 == "name"@ && m[2].0 == "x"@ && m[3].0 == "y"@);
}

/// The document of evidence says its key, its kind and what it holds.
pub proof fn the_document_of_evidence(e: EvidenceView)
    ensures
        ({
            let v = evidence_json(e);
            &&& v.member("content_id"@) == Some(JsonView::Text(e.content_id))
            &&& v.member("kind"@) == Some(JsonView::Text(e.kind))
            &&& v.member("payload"@) == Some(e.payload)
        }),
{
    reveal_strlit("content_id");
    reveal_strlit("kind");
    reveal_strlit("payload");
    assert("content_id"@.len() == 10 && "kind"@.len() == 4 && "payload"@.len() == 7);
    let m = evidence_json(e)->Object_0;
    members_are_found_under_their_keys(m);
    assert(m[0].0 == "content_id"@ && m[1].0 == "kind"@ && m[2].0 == "payload"@);
}

/// The document of a clock segment says all that the segment does, each under
/// its name, in seconds.
pub proof fn the_document_of_a_segment(s: ClockSegmentView)
    ensures
        ({
            let v = segment_json(s);
            &&& v.member("seg_id"@) == Some(JsonView::Int(s.seg_id))
            &&& v.member("station_id"@) == Some(JsonView::Text(s.station_id))
            &&& v.member("start_s"@) == Some(JsonView::Float(s.start_s))
            &&& says_number(v, "end_s"@, s.end_s)
            &&& v.member("offset_s"@) == Some(JsonView::Float(s.offset_s))
            &&& v.member("sigma_s"@) == Some(JsonView::Float(s.sigma_s))
            &&& v.member("note"@) == Some(JsonView::Text(s.note))
            &&& v.member("time_unit"@) == Some(JsonView::Text("s"@))
        }),
{
    reveal_strlit("seg_id");
    reveal_strlit("station_id");
    reveal_strlit("start_s");
    reveal_strlit("end_s");
    reveal_strlit("offset_s");
    reveal_strlit("sigma_s");
    reveal_strlit("note");
    reveal_strlit("time_unit");
    assert("seg_id"@.len() == 6 && "station_id"@.len() == 10 && "start_s"@.len() == 7);
    assert("end_s"@.len() == 5 && "offset_s"@.len() == 8 && "sigma_s"@.len() == 7);
    assert("note"@.len() == 4 && "time_unit"@.len() == 9 && "start_s"@[1] == 't');
    assert("sigma_s"@[1] == 'i');
    let m = segment_json(s)->Object_0;
    members_are_found_under_their_keys(m);
    assert(m[0].0 == "seg_id"@ && m[1].0 == "station_id"@ && m[2].0 == "start_s"@);
    assert(m[3].0 == "end_s"@ && m[4].0 == "offset_s"@ && m[5].0 == "sigma_s"@);
    assert(m[6].0 == "note"@ && m[7].0 == "time_unit"@);
}

/// The document of a job says its fingerprint, its state and when it was made and
/// finished.
pub proof fn the_document_of_a_job(j: JobRowView)
    ensures
        ({
            let v = job_json(j);
            &&& v.member("fingerprint"@) == Some(JsonView::Text(j.fingerprint))
            &&& v.member("state"@) == Some(JsonView::Text(j.state))
            &&& v.member("created_at"@) == Some(JsonView::Float(j.created_at))
            &&& says_number(v, "finished_at"@, j.finished_at)
        }),
{
    reveal_strlit("fingerprint");
    reveal_strlit("state");
    reveal_strlit("created_at");
    reveal_strlit("finished_at");
    assert("fingerprint"@.len() == 11 && "state"@.len() == 5 && "created_at"@.len() == 10);
    assert("finished_at"@.len() == 11 && "fingerprint"@[3] == 'g' && "finished_at"@[3] == 'i');
    let m = job_json(j)->Object_0;
    members_are_found_under_their_keys(m);
    assert(m[0].0 == "fingerprint"@ && m[1].0 == "state"@ && m[2].0 == "created_at"@);
    assert(m[3].0 == "finished_at"@);
}

/// The head of an event says its name, its window, its speed of sound, how many
/// observations it has, and the units.
pub proof fn the_document_of_a_head(
    event_id: Seq<char>,
    t0: Double,
    t1: Double,
    speed: Double,
    linked: int,
)
    ensures
        ({
            let v = header_shown(event_id, t0, t1, speed, linked);
            &&& v.member("event_id"@) == Some(JsonView::Text(event_id))
            &&& v.member("t_start"@) == Some(JsonView::Float(t0))
            &&& v.member("t_end"@) == Some(JsonView::Float(t1))
            &&& v.member("interval_semantics"@) == Some(
                JsonView::Text("half-open [t_start, t_end)"@),
            )
            &&& v.member("sound_speed"@) == Some(JsonView::Float(speed))
            &&& v.member("speed_unit"@) == Some(JsonView::Text("m/s"@))
            &&& v.member("coordinate_unit"@) == Some(JsonView::Text("m"@))
            &&& v.member("time_unit"@) == Some(JsonView::Text("s"@))
            &&& v.member("delay_unit"@) == Some(JsonView::Text("s"@))
            &&& v.member("linked_observation_count"@) == Some(JsonView::Int(linked))
        }),
{
    reveal_strlit("event_id");
    reveal_strlit("t_start");
    reveal_strlit("t_end");
    reveal_strlit("interval_semantics");
    reveal_strlit("sound_speed");
    reveal_strlit("speed_unit");
    reveal_strlit("coordinate_unit");
    reveal_strlit("time_unit");
    reveal_strlit("delay_unit");
    reveal_strlit("linked_observation_count");
    assert("event_id"@.len() == 8 && "t_start"@.len() == 7 && "t_end"@.len() == 5);
    assert("interval_semantics"@.len() == 18 && "sound_speed"@.len() == 11);
    assert("speed_unit"@.len() == 10 && "coordinate_unit"@.len() == 15 && "time_unit"@.len() == 9);
    assert("delay_unit"@.len() == 10 && "linked_observation_count"@.len() == 24);
    assert("speed_unit"@[0] == 's' && "delay_unit"@[0] == 'd');
    let m = header_shown(event_id, t0, t1, speed, linked)->Object_0;
    members_are_found_under_their_keys(m);
    assert(m[0].0 == "event_id"@ && m[1].0 == "t_start"@ && m[2].0 == "t_end"@);
    assert(m[3].0 == "interval_semantics"@ && m[4].0 == "sound_speed"@ && m[5].0 == "speed_unit"@);
    assert(m[6].0 == "coordinate_unit"@ && m[7].0 == "time_unit"@ && m[8].0 == "delay_unit"@);
    assert(m[9].0 == "linked_observation_count"@);
}

/// A delay touches an observation, at either end, and may be an echo.
pub open spec fn echoes(x: XcorrRowView, id: int) -> bool {
    x.multipath && (x.obs_a == id || x.obs_b == id)
}

/// The document of an observation says all that the row does, each under its name,
/// and that it may be an echo exactly when some delay at either of its ends may be.
pub proof fn the_document_of_an_observation(d: DbView, o: ObsRowView)
    ensures
        ({
            let v = obs_shown(d, o);
            &&& v.member("obs_id"@) == Some(JsonView::Int(o.obs_id))
            &&& v.member("station_id"@) == Some(JsonView::Text(o.station_id))
            &&& v.member("local_onset_s"@) == Some(JsonView::Float(o.local_onset_s))
            &&& v.member("peak_band_hz"@) == Some(JsonView::Float(o.peak_band_hz))
            &&& v.member("snr_db"@) == Some(JsonView::Float(o.snr_db))
            &&& v.member("batch_fp"@) == Some(JsonView::Text(o.batch_fp))
            &&& v.member("multipath"@) == Some(
                JsonView::Bool(
                    exists|k: int|
                        0 <= k < d.xcorrs.len() && echoes(#[trigger] d.xcorrs[k], o.obs_id),
                ),
            )
        }),
{
    reveal_strlit("obs_id");
    reveal_strlit("station_id");
    reveal_strlit("local_onset_s");
    reveal_strlit("peak_band_hz");
    reveal_strlit("snr_db");
    reveal_strlit("batch_fp");
    reveal_strlit("multipath");
    assert("obs_id"@.len() == 6 && "station_id"@.len() == 10 && "local_onset_s"@.len() == 13);
    assert("peak_band_hz"@.len() == 12 && "snr_db"@.len() == 6 && "batch_fp"@.len() == 8);
    assert("multipath"@.len() == 9 && "obs_id"@[0] == 'o' && "snr_db"@[0] == 's');
    let m = obs_shown(d, o)->Object_0;
    members_are_found_under_their_keys(m);
    assert(m[0].0 == "obs_id"@ && m[1].0 == "station_id"@ && m[2].0 == "local_onset_s"@);
    assert(m[3].0 == "peak_band_hz"@ && m[4].0 == "snr_db"@ && m[5].0 == "batch_fp"@);
    assert(m[6].0 == "multipath"@);
}

/// What is known of an observation by its number: its station and its onset are
/// those of the row with that number.
pub proof fn an_observation_is_known_by_its_number(s: Seq<ObsRowView>, k: int)
    requires
        0 <= k < s.len(),
        forall|i: int, j: int|
            0 <= i < j < s.len() ==> (#[trigger] s[i]).obs_id != (#[trigger] s[j]).obs_id,
    ensures
        station_of(s, s[k].obs_id) == s[k].station_id,
        onset_of(s, s[k].obs_id) == s[k].local_onset_s,
    decreases s.len(),
{
    if k > 0 {
        let rest = s.drop_first();
        assert(s[0].obs_id != s[k].obs_id);
        assert(rest[k - 1] == s[k]);
        assert forall|i: int, j: int| 0 <= i < j < rest.len() implies (
        #[trigger] rest[i]).obs_id != (#[trigger] rest[j]).obs_id by {
            assert(s[i + 1].obs_id != s[j + 1].obs_id);
        }
        an_observation_is_known_by_its_number(rest, k - 1);
    }
}

/// The document of a delay says its number, its ends by their stations and their
/// onsets, first the one it was measured from, and the delay itself in seconds.
pub proof fn the_document_of_a_delay(d: DbView, x: XcorrRowView, a: int, b: int)
    requires
        0 <= a < d.observations.len(),
        0 <= b < d.observations.len(),
        d.observations[a].obs_id == x.obs_a,
        d.observations[b].obs_id == x.obs_b,
        forall|i: int, j: int|
            0 <= i < j < d.observations.len() ==> (#[trigger] d.observations[i]).obs_id != (
            #[trigger] d.observations[j]).obs_id,
    ensures
        ({
            let v = edge_shown(d, x);
            &&& v.member("xc_id"@) == Some(JsonView::Int(x.xc_id))
            &&& v.member("station_a"@) == Some(JsonView::Text(d.observations[a].station_id))
            &&& v.member("station_b"@) == Some(JsonView::Text(d.observations[b].station_id))
            &&& v.member("delay_s"@) == Some(JsonView::Float(x.delay_s))
            &&& v.member("sigma_s"@) == Some(JsonView::Float(x.sigma_s))
            &&& v.member("peak_index"@) == Some(JsonView::Int(x.peak_index))
            &&& v.member("multipath"@) == Some(JsonView::Bool(x.multipath))
            &&& v.member("onset_a_s"@) == Some(JsonView::Float(d.observations[a].local_onset_s))
            &&& v.member("onset_b_s"@) == Some(JsonView::Float(d.observations[b].local_onset_s))
            &&& v.member("delay_unit"@) == Some(JsonView::Text("s"@))
        }),
{
    reveal_strlit("xc_id");
    reveal_strlit("station_a");
    reveal_strlit("station_b");
    reveal_strlit("delay_s");
    reveal_strlit("sigma_s");
    reveal_strlit("peak_index");
    reveal_strlit("multipath");
    reveal_strlit("onset_a_s");
    reveal_strlit("onset_b_s");
    reveal_strlit("delay_unit");
    assert("xc_id"@.len() == 5 && "station_a"@.len() == 9 && "station_b"@.len() == 9);
    assert("delay_s"@.len() == 7 && "sigma_s"@.len() == 7 && "peak_index"@.len() == 10);
    assert("multipath"@.len() == 9 && "onset_a_s"@.len() == 9 && "onset_b_s"@.len() == 9);
    assert("delay_unit"@.len() == 10 && "station_a"@[8] == 'a' && "station_b"@[8] == 'b');
    assert("station_a"@[0] == 's' && "multipath"@[0] == 'm' && "onset_a_s"@[0] == 'o');
    assert("onset_b_s"@[0] == 'o' && "station_b"@[0] == 's' && "delay_s"@[0] == 'd');
    assert("sigma_s"@[0] == 's' && "peak_index"@[0] == 'p' && "delay_unit"@[0] == 'd');
    assert("onset_a_s"@[6] == 'a' && "onset_b_s"@[6] == 'b');
    let m = edge_shown(d, x)->Object_0;
    members_are_found_under_their_keys(m);
    assert(m[0].0 == "xc_id"@ && m[1].0 == "station_a"@ && m[2].0 == "station_b"@);
    assert(m[3].0 == "delay_s"@ && m[4].0 == "sigma_s"@ && m[5].0 == "peak_index"@);
    assert(m[6].0 == "multipath"@ && m[7].0 == "onset_a_s"@ && m[8].0 == "onset_b_s"@);
    assert(m[9].0 == "delay_unit"@);
    an_observation_is_known_by_its_number(d.observations, a);
    an_observation_is_known_by_its_number(d.observations, b);
}

// ---------- What is read ----------

/// A candidate is read as it was written: its keys, its rank, its kind, its
/// status, its reason, its place and its metrics.  It is kept exactly when its
/// metrics name a kept pair.
pub proof fn candidates_are_read_as_written(c: CandRowView, wholes: Wholes)
    ensures
        ({
            let r = candidate_read(c, wholes);
            &&& r.cand_id == c.cand_id
            &&& r.cand_key == c.cand_key
            &&& r.job_fp == c.job_fp
            &&& r.rank_in_job == c.rank_in_job
            &&& r.kind == c.kind
            &&& r.status == c.status
            &&& r.reason == c.reason
            &&& r.x == c.x
            &&& r.y == c.y
            &&& r.metrics == c.metrics
            &&& r.kept <==> c.metrics.member("kept_pair"@) is Some
        }),
{
}

/// The residuals of a candidate are read all or not at all: all where each of
/// their numbers is finite, none where one is not.
pub proof fn residuals_are_read_all_or_none(c: CandRowView, wholes: Wholes, k: int)
    requires
        0 <= k < c.residuals.len(),
    ensures
        ({
            let r = candidate_read(c, wholes).residuals;
            &&& r == c.residuals || r.len() == 0
            &&& r.len() > 0 ==> {
                &&& c.residuals[k].measured_s.finite()
                &&& c.residuals[k].predicted_s.finite()
                &&& c.residuals[k].residual_s.finite()
                &&& c.residuals[k].sigma_s.finite()
                &&& c.residuals[k].n_sigma.finite()
            }
        }),
{
}

/// Residuals whose numbers are all finite are read as they were written.
pub proof fn finite_residuals_are_read(c: CandRowView, wholes: Wholes)
    requires
        forall|k: int|
            0 <= k < c.residuals.len() ==> (#[trigger] c.residuals[k]).measured_s.finite()
                && c.residuals[k].predicted_s.finite() && c.residuals[k].residual_s.finite()
                && c.residuals[k].sigma_s.finite() && c.residuals[k].n_sigma.finite(),
    ensures
        candidate_read(c, wholes).residuals == c.residuals,
{
}

// ---------- The latest job ----------

/// Of two jobs the one that was finished at the larger time is the later; one that
/// was finished at all is later than one that was not.
pub proof fn the_later_job_was_finished_later(a: JobRowView, b: JobRowView)
    ensures
        a.finished_at is Some && b.finished_at is Some && b.finished_at->0.rank()
            < a.finished_at->0.rank() ==> later(a, b) && !later(b, a),
        a.finished_at is Some && b.finished_at is None ==> later(a, b) && !later(b, a),
{
}

/// The job that is shown is one of the jobs of the event, and is done.
pub proof fn the_shown_job_is_a_done_one(jobs: Seq<JobRowView>, event_id: Seq<char>)
    ensures
        latest_of(jobs, event_id) matches Some(j) ==> jobs.contains(j) && j.event_id == event_id
            && j.state == "done"@,
    decreases jobs.len(),
{
    if jobs.len() > 0 {
        let rest = jobs.drop_last();
        the_shown_job_is_a_done_one(rest, event_id);
        if latest_of(rest, event_id) is Some {
            let b = latest_of(rest, event_id)->0;
            let k = choose|k: int| 0 <= k < rest.len() && rest[k] == b;
            assert(jobs[k] == b);
        }
        assert(jobs[jobs.len() - 1] == jobs.last());
    }
}

/// Where a job of the event is done, one is shown, and none that is done was
/// finished at a larger time.
pub proof fn no_done_job_is_finished_after_the_shown_one(
    jobs: Seq<JobRowView>,
    event_id: Seq<char>,
    k: int,
)
    requires
        0 <= k < jobs.len(),
        jobs[k].event_id == event_id,
        jobs[k].state == "done"@,
    ensures
        latest_of(jobs, event_id) is Some,
        jobs[k].finished_at is Some ==> {
            let j = latest_of(jobs, event_id)->0;
            j.finished_at is Some && jobs[k].finished_at->0.rank() <= j.finished_at->0.rank()
        },
    decreases jobs.len(),
{
    let rest = jobs.drop_last();
    if k < rest.len() {
        assert(rest[k] == jobs[k]);
        no_done_job_is_finished_after_the_shown_one(rest, event_id, k);
    }
}

} // verus!
