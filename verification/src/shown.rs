//! Records as they are shown: documents with a member for each field.
use vstd::prelude::*;

use crate::double::Double;
use crate::figures::Pt;
use crate::json::{array, json_views, Json, JsonView, Members};
use crate::model::{
    candidateresidual_views, opt_text, Candidate, CandidateResidual, CandidateResidualView,
    CandidateView, ClockSegment, ClockSegmentView, Curve, CurveView, EvidenceRow, EvidenceRowView,
    JobSaid, JobView, LagRow, LagRowView, ObservationRow, ObservationRowView, Region, RegionView,
    SiteBounds, Station, StationView,
};
use crate::store::{EventRow, EventRowView};

verus! {

/// What can be shown.
pub trait Shown: Sized {
    /// The document that shows it.
    spec fn shown(&self) -> JsonView;

    fn show(&self) -> (r: Json)
        ensures
            r@ == self.shown(),
    ;
}

/// Shows a list.
pub fn show_list<T: Shown>(list: &Vec<T>) -> (r: Json)
    ensures
        r@ == JsonView::Array(list@.map_values(|x: T| x.shown())),
{
    let mut items: Vec<Json> = Vec::new();
    let mut i: usize = 0;
    while i < list.len()
        invariant
            i <= list@.len(),
            items@.len() == i,
            forall|k: int| 0 <= k < i ==> (#[trigger] items@[k])@ == list@[k].shown(),
        decreases list@.len() - i,
    {
        items.push(list[i].show());
        i += 1;
    }
    assert(json_views(items@) =~= list@.map_values(|x: T| x.shown()));
    array(items)
}

/// What may be missing; null where it is.
pub open spec fn shown_option<T: Shown>(o: Option<T>) -> JsonView {
    match o {
        Some(x) => x.shown(),
        None => JsonView::Null,
    }
}

/// Shows what may be missing.
pub fn show_option<T: Shown>(o: &Option<T>) -> (r: Json)
    ensures
        r@ == shown_option(*o),
{
    match o {
        Some(x) => x.show(),
        None => Json::Null,
    }
}

pub open spec fn shown_number(o: Option<Double>) -> JsonView {
    match o {
        Some(x) => JsonView::Float(x),
        None => JsonView::Null,
    }
}

pub open spec fn shown_whole(o: Option<i64>) -> JsonView {
    match o {
        Some(n) => JsonView::Int(n as int),
        None => JsonView::Null,
    }
}

pub open spec fn shown_text(o: Option<Seq<char>>) -> JsonView {
    match o {
        Some(t) => JsonView::Text(t),
        None => JsonView::Null,
    }
}

fn number(o: Option<Double>) -> (r: Json)
    ensures
        r@ == shown_number(o),
{
    match o {
        Some(x) => Json::Float(x),
        None => Json::Null,
    }
}

fn whole(o: Option<i64>) -> (r: Json)
    ensures
        r@ == shown_whole(o),
{
    match o {
        Some(n) => Json::Int(n),
        None => Json::Null,
    }
}

fn text(o: &Option<String>) -> (r: Json)
    ensures
        r@ == shown_text(opt_text(*o)),
{
    match o {
        Some(t) => Json::Text(t.clone()),
        None => Json::Null,
    }
}

// ---------- Places and shapes ----------

/// A place as a pair of numbers.
pub open spec fn shown_place(p: Pt) -> JsonView {
    JsonView::Array(seq![JsonView::Float(p.x), JsonView::Float(p.y)])
}

impl Shown for Pt {
    open spec fn shown(&self) -> JsonView {
        shown_place(*self)
    }

    fn show(&self) -> (r: Json) {
        let mut v: Vec<Json> = Vec::new();
        v.push(Json::Float(self.x));
        v.push(Json::Float(self.y));
        assert(json_views(v@) =~= seq![JsonView::Float(self.x), JsonView::Float(self.y)]);
        array(v)
    }
}

/// The bounds of a site.
pub open spec fn shown_bounds(b: SiteBounds) -> JsonView {
    JsonView::Object(
        seq![
            ("min_x"@, JsonView::Float(b.min_x)),
            ("min_y"@, JsonView::Float(b.min_y)),
            ("max_x"@, JsonView::Float(b.max_x)),
            ("max_y"@, JsonView::Float(b.max_y)),
        ],
    )
}

impl Shown for SiteBounds {
    open spec fn shown(&self) -> JsonView {
        shown_bounds(*self)
    }

    fn show(&self) -> (r: Json) {
        let mut m = Members::new();
        m.put("min_x", Json::Float(self.min_x));
        m.put("min_y", Json::Float(self.min_y));
        m.put("max_x", Json::Float(self.max_x));
        m.put("max_y", Json::Float(self.max_y));
        let r = m.object();
        assert(r@->Object_0 =~= shown_bounds(*self)->Object_0);
        r
    }
}

/// A curve.
pub open spec fn shown_curve(c: CurveView) -> JsonView {
    JsonView::Object(
        seq![
            ("kind"@, JsonView::Text(c.kind)),
            ("focus_a"@, shown_place(c.focus_a)),
            ("focus_b"@, shown_place(c.focus_b)),
            ("difference_m"@, JsonView::Float(c.difference_m)),
            ("points"@, JsonView::Array(c.points.map_values(|p: Pt| shown_place(p)))),
        ],
    )
}

impl Shown for Curve {
    open spec fn shown(&self) -> JsonView {
        shown_curve(self@)
    }

    fn show(&self) -> (r: Json) {
        let mut m = Members::new();
        m.put("kind", Json::Text(self.kind.clone()));
        m.put("focus_a", self.focus_a.show());
        m.put("focus_b", self.focus_b.show());
        m.put("difference_m", Json::Float(self.difference_m));
        m.put("points", show_list(&self.points));
        let r = m.object();
        assert(self.points@.map_values(|p: Pt| p.shown()) =~= self.points@.map_values(
            |p: Pt| shown_place(p),
        ));
        assert(r@->Object_0 =~= shown_curve(self@)->Object_0);
        r
    }
}

/// A region.
pub open spec fn shown_region(g: RegionView) -> JsonView {
    JsonView::Object(
        seq![
            ("kind"@, JsonView::Text(g.kind)),
            ("center"@, shown_place(g.center)),
            ("semi_axes"@, shown_place(g.semi_axes)),
            ("angle_rad"@, JsonView::Float(g.angle_rad)),
            ("polygon"@, JsonView::Array(g.polygon.map_values(|p: Pt| shown_place(p)))),
        ],
    )
}

impl Shown for Region {
    open spec fn shown(&self) -> JsonView {
        shown_region(self@)
    }

    fn show(&self) -> (r: Json) {
        let mut m = Members::new();
        m.put("kind", Json::Text(self.kind.clone()));
        m.put("center", self.center.show());
        m.put("semi_axes", self.semi_axes.show());
        m.put("angle_rad", Json::Float(self.angle_rad));
        m.put("polygon", show_list(&self.polygon));
        let r = m.object();
        assert(self.polygon@.map_values(|p: Pt| p.shown()) =~= self.polygon@.map_values(
            |p: Pt| shown_place(p),
        ));
        assert(r@->Object_0 =~= shown_region(self@)->Object_0);
        r
    }
}

// ---------- Records ----------

/// A station.
pub open spec fn shown_station(v: StationView) -> JsonView {
    JsonView::Object(
        seq![
            ("station_id"@, JsonView::Text(v.station_id)),
            ("x"@, JsonView::Float(v.x)),
            ("y"@, JsonView::Float(v.y)),
            ("label"@, JsonView::Text(v.label)),
        ],
    )
}

impl Shown for Station {
    open spec fn shown(&self) -> JsonView {
        shown_station(self@)
    }

    fn show(&self) -> (r: Json) {
        let mut m = Members::new();
        m.put("station_id", Json::Text(self.station_id.clone()));
        m.put("x", Json::Float(self.x));
        m.put("y", Json::Float(self.y));
        m.put("label", Json::Text(self.label.clone()));
        let r = m.object();
        assert(r@->Object_0 =~= shown_station(self@)->Object_0);
        r
    }
}

/// An event.
pub open spec fn shown_event(v: EventRowView) -> JsonView {
    JsonView::Object(
        seq![
            ("event_id"@, JsonView::Text(v.event_id)),
            ("label"@, JsonView::Text(v.label)),
            ("window_start"@, JsonView::Float(v.window_start)),
            ("window_end"@, JsonView::Float(v.window_end)),
            ("sound_speed_mps"@, JsonView::Float(v.sound_speed_mps)),
            ("bounds"@, shown_bounds(v.bounds)),
        ],
    )
}

impl Shown for EventRow {
    open spec fn shown(&self) -> JsonView {
        shown_event(self@)
    }

    fn show(&self) -> (r: Json) {
        let mut m = Members::new();
        m.put("event_id", Json::Text(self.event_id.clone()));
        m.put("label", Json::Text(self.label.clone()));
        m.put("window_start", Json::Float(self.window_start));
        m.put("window_end", Json::Float(self.window_end));
        m.put("sound_speed_mps", Json::Float(self.sound_speed_mps));
        m.put("bounds", self.bounds.show());
        let r = m.object();
        assert(r@->Object_0 =~= shown_event(self@)->Object_0);
        r
    }
}

/// An observation.
pub open spec fn shown_observation(v: ObservationRowView) -> JsonView {
    JsonView::Object(
        seq![
            ("obs_uid"@, JsonView::Text(v.obs_uid)),
            ("batch_uid"@, JsonView::Text(v.batch_uid)),
            ("event_id"@, JsonView::Text(v.event_id)),
            ("station_id"@, JsonView::Text(v.station_id)),
            ("local_onset_sec"@, JsonView::Float(v.local_onset_sec)),
            ("corrected_onset_sec"@, shown_number(v.corrected_onset_sec)),
            ("clock_locked"@, JsonView::Bool(v.clock_locked)),
            ("clock_segment_id"@, shown_whole(v.clock_segment_id)),
            ("peak_band_hz"@, JsonView::Float(v.peak_band_hz)),
            ("snr_db"@, JsonView::Float(v.snr_db)),
            ("duplicate_of"@, shown_text(v.duplicate_of)),
        ],
    )
}

impl Shown for ObservationRow {
    open spec fn shown(&self) -> JsonView {
        shown_observation(self@)
    }

    fn show(&self) -> (r: Json) {
        let mut m = Members::new();
        m.put("obs_uid", Json::Text(self.obs_uid.clone()));
        m.put("batch_uid", Json::Text(self.batch_uid.clone()));
        m.put("event_id", Json::Text(self.event_id.clone()));
        m.put("station_id", Json::Text(self.station_id.clone()));
        m.put("local_onset_sec", Json::Float(self.local_onset_sec));
        m.put("corrected_onset_sec", number(self.corrected_onset_sec));
        m.put("clock_locked", Json::Bool(self.clock_locked));
        m.put("clock_segment_id", whole(self.clock_segment_id));
        m.put("peak_band_hz", Json::Float(self.peak_band_hz));
        m.put("snr_db", Json::Float(self.snr_db));
        m.put("duplicate_of", text(&self.duplicate_of));
        let r = m.object();
        assert(r@->Object_0 =~= shown_observation(self@)->Object_0);
        r
    }
}

/// A delay.
pub open spec fn shown_lag(v: LagRowView) -> JsonView {
    JsonView::Object(
        seq![
            ("lag_uid"@, JsonView::Text(v.lag_uid)),
            ("obs_uid"@, JsonView::Text(v.obs_uid)),
            ("station_id"@, JsonView::Text(v.station_id)),
            ("peer_id"@, JsonView::Text(v.peer_id)),
            ("lag_sec"@, JsonView::Float(v.lag_sec)),
            ("peak_band_hz"@, JsonView::Float(v.peak_band_hz)),
            ("snr_db"@, JsonView::Float(v.snr_db)),
            ("hint"@, JsonView::Text(v.hint)),
        ],
    )
}

impl Shown for LagRow {
    open spec fn shown(&self) -> JsonView {
        shown_lag(self@)
    }

    fn show(&self) -> (r: Json) {
        let mut m = Members::new();
        m.put("lag_uid", Json::Text(self.lag_uid.clone()));
        m.put("obs_uid", Json::Text(self.obs_uid.clone()));
        m.put("station_id", Json::Text(self.station_id.clone()));
        m.put("peer_id", Json::Text(self.peer_id.clone()));
        m.put("lag_sec", Json::Float(self.lag_sec));
        m.put("peak_band_hz", Json::Float(self.peak_band_hz));
        m.put("snr_db", Json::Float(self.snr_db));
        m.put("hint", Json::Text(self.hint.clone()));
        let r = m.object();
        assert(r@->Object_0 =~= shown_lag(self@)->Object_0);
        r
    }
}

/// A piece of evidence.
pub open spec fn shown_evidence(v: EvidenceRowView) -> JsonView {
    JsonView::Object(
        seq![
            ("evidence_id"@, JsonView::Text(v.evidence_id)),
            ("event_id"@, JsonView::Text(v.event_id)),
            ("kind"@, JsonView::Text(v.kind)),
            ("payload"@, v.payload),
            ("basis"@, JsonView::Text(v.basis)),
            ("created_at"@, JsonView::Text(v.created_at)),
            ("superseded_by"@, shown_text(v.superseded_by)),
            ("active"@, JsonView::Bool(v.active)),
        ],
    )
}

impl Shown for EvidenceRow {
    open spec fn shown(&self) -> JsonView {
        shown_evidence(self@)
    }

    fn show(&self) -> (r: Json) {
        let mut m = Members::new();
        m.put("evidence_id", Json::Text(self.evidence_id.clone()));
        m.put("event_id", Json::Text(self.event_id.clone()));
        m.put("kind", Json::Text(self.kind.clone()));
        m.put("payload", self.payload.copy());
        m.put("basis", Json::Text(self.basis.clone()));
        m.put("created_at", Json::Text(self.created_at.clone()));
        m.put("superseded_by", text(&self.superseded_by));
        m.put("active", Json::Bool(self.active));
        let r = m.object();
        assert(r@->Object_0 =~= shown_evidence(self@)->Object_0);
        r
    }
}

/// A job.
pub open spec fn shown_job(v: JobSaid) -> JsonView {
    JsonView::Object(
        seq![
            ("job_id"@, JsonView::Int(v.job_id)),
            ("event_id"@, JsonView::Text(v.event_id)),
            ("status"@, JsonView::Text(v.status)),
            ("fingerprint"@, JsonView::Text(v.fingerprint)),
            ("error"@, shown_text(v.error)),
            ("created_at"@, JsonView::Text(v.created_at)),
        ],
    )
}

impl Shown for JobView {
    open spec fn shown(&self) -> JsonView {
        shown_job(self@)
    }

    fn show(&self) -> (r: Json) {
        let mut m = Members::new();
        m.put("job_id", Json::Int(self.job_id));
        m.put("event_id", Json::Text(self.event_id.clone()));
        m.put("status", Json::Text(self.status.clone()));
        m.put("fingerprint", Json::Text(self.fingerprint.clone()));
        m.put("error", text(&self.error));
        m.put("created_at", Json::Text(self.created_at.clone()));
        let r = m.object();
        assert(r@->Object_0 =~= shown_job(self@)->Object_0);
        r
    }
}

/// How a measurement fits.
pub open spec fn shown_residual(v: CandidateResidualView) -> JsonView {
    JsonView::Object(
        seq![
            ("kind"@, JsonView::Text(v.kind)),
            ("lag_uid"@, shown_text(v.lag_uid)),
            ("station_id"@, JsonView::Text(v.station_id)),
            ("peer_id"@, shown_text(v.peer_id)),
            ("measured_sec"@, JsonView::Float(v.measured_sec)),
            ("predicted_sec"@, shown_number(v.predicted_sec)),
            ("residual_sec"@, shown_number(v.residual_sec)),
            ("weight"@, JsonView::Float(v.weight)),
            ("used"@, JsonView::Bool(v.used)),
            ("excluded_reason"@, shown_text(v.excluded_reason)),
        ],
    )
}

impl Shown for CandidateResidual {
    open spec fn shown(&self) -> JsonView {
        shown_residual(self@)
    }

    fn show(&self) -> (r: Json) {
        let mut m = Members::new();
        m.put("kind", Json::Text(self.kind.clone()));
        m.put("lag_uid", text(&self.lag_uid));
        m.put("station_id", Json::Text(self.station_id.clone()));
        m.put("peer_id", text(&self.peer_id));
        m.put("measured_sec", Json::Float(self.measured_sec));
        m.put("predicted_sec", number(self.predicted_sec));
        m.put("residual_sec", number(self.residual_sec));
        m.put("weight", Json::Float(self.weight));
        m.put("used", Json::Bool(self.used));
        m.put("excluded_reason", text(&self.excluded_reason));
        let r = m.object();
        assert(r@->Object_0 =~= shown_residual(self@)->Object_0);
        r
    }
}

pub open spec fn shown_point(o: Option<Pt>) -> JsonView {
    match o {
        Some(p) => shown_place(p),
        None => JsonView::Null,
    }
}

pub open spec fn shown_curve_if(o: Option<CurveView>) -> JsonView {
    match o {
        Some(c) => shown_curve(c),
        None => JsonView::Null,
    }
}

pub open spec fn shown_region_if(o: Option<RegionView>) -> JsonView {
    match o {
        Some(g) => shown_region(g),
        None => JsonView::Null,
    }
}

/// A candidate.
pub open spec fn shown_candidate(v: CandidateView) -> JsonView {
    JsonView::Object(
        seq![
            ("candidate_id"@, JsonView::Text(v.candidate_id)),
            ("job_id"@, JsonView::Int(v.job_id)),
            ("rank"@, JsonView::Int(v.rank)),
            ("kind"@, JsonView::Text(v.kind)),
            ("point"@, shown_point(v.point)),
            ("curve"@, shown_curve_if(v.curve)),
            ("region"@, shown_region_if(v.region)),
            ("rms_sec"@, shown_number(v.rms_sec)),
            ("underdetermined"@, JsonView::Text(v.underdetermined)),
            ("score"@, JsonView::Float(v.score)),
            ("signature"@, JsonView::Text(v.signature)),
            (
                "residuals"@,
                JsonView::Array(
                    v.residuals.map_values(|r: CandidateResidualView| shown_residual(r))),
            ),
        ],
    )
}

impl Shown for Candidate {
    open spec fn shown(&self) -> JsonView {
        shown_candidate(self@)
    }

    fn show(&self) -> (r: Json) {
        let mut m = Members::new();
        m.put("candidate_id", Json::Text(self.candidate_id.clone()));
        m.put("job_id", Json::Int(self.job_id));
        m.put("rank", Json::Int(self.rank));
        m.put("kind", Json::Text(self.kind.clone()));
        m.put("point", show_option(&self.point));
        m.put("curve", show_option(&self.curve));
        m.put("region", show_option(&self.region));
        m.put("rms_sec", number(self.rms_sec));
        m.put("underdetermined", Json::Text(self.underdetermined.clone()));
        m.put("score", Json::Float(self.score));
        m.put("signature", Json::Text(self.signature.clone()));
        m.put("residuals", show_list(&self.residuals));
        let r = m.object();
        assert(self.residuals@.map_values(|r: CandidateResidual| r.shown())
            =~= candidateresidual_views(self.residuals@).map_values(
            |r: CandidateResidualView| shown_residual(r),
        ));
        assert(r@->Object_0 =~= shown_candidate(self@)->Object_0);
        r
    }
}

/// A clock segment with its number.
pub open spec fn shown_segment(s: (ClockSegmentView, int)) -> JsonView {
    JsonView::Object(
        seq![
            ("segment_id"@, JsonView::Int(s.1)),
            ("station_id"@, JsonView::Text(s.0.station_id)),
            ("t_start"@, JsonView::Float(s.0.t_start)),
            ("t_end"@, shown_number(s.0.t_end)),
            ("offset_sec"@, JsonView::Float(s.0.offset_sec)),
            ("source"@, JsonView::Text(s.0.source)),
        ],
    )
}

impl Shown for (ClockSegment, i64) {
    open spec fn shown(&self) -> JsonView {
        shown_segment((self.0@, self.1 as int))
    }

    fn show(&self) -> (r: Json) {
        let mut m = Members::new();
        m.put("segment_id", Json::Int(self.1));
        m.put("station_id", Json::Text(self.0.station_id.clone()));
        m.put("t_start", Json::Float(self.0.t_start));
        m.put("t_end", number(self.0.t_end));
        m.put("offset_sec", Json::Float(self.0.offset_sec));
        m.put("source", Json::Text(self.0.source.clone()));
        let r = m.object();
        assert(r@->Object_0 =~= self.shown()->Object_0);
        r
    }
}

} // verus!
