//! What is listed of an event, in which order, and what a solve goes by.
use vstd::prelude::*;

use crate::document_laws::members_are_found_under_their_keys;
use crate::double::Double;
use crate::jobs::{evidence_of, lags_of, observations_of};
use crate::json::JsonView;
use crate::model::{
    evidencerow_views, lagrow_views, observationrow_views, station_views, CandidateView,
    ClockSegmentView, EventInputView, EvidenceRowView, JobSaid, LagRowView, ObservationRowView,
    StationView,
};
use crate::requests::{
    events_json, field, is_input_for, makes_sense, page_json, payload_of, EventPageView,
};
use crate::rows::{
    events_listed, evidence_listed, is_listing, lags_listed, observations_listed, segments_listed,
    stations_listed, RowKey,
};
use crate::shown::{
    shown_candidate, shown_event, shown_evidence, shown_job, shown_lag, shown_observation,
    shown_segment, shown_station,
};
use crate::solver::SolverInput;
use crate::store::{segment_views, EventRowView, StoreView};
use crate::text::text_lt;

verus! {

// ---------- Lists ----------

/// A listing holds what is listed, all of it and nothing else.
pub proof fn a_listing_holds_the_same<V>(s: Seq<V>, r: Seq<V>, key: spec_fn(V) -> RowKey, x: V)
    requires
        is_listing(s, r, key),
    ensures
        r.contains(x) <==> s.contains(x),
        r.len() == s.len(),
{
    broadcast use vstd::seq_lib::group_to_multiset_ensures;

    assert(r.to_multiset().count(x) == s.to_multiset().count(x));
    assert(r.to_multiset().len() == r.len());
    assert(s.to_multiset().len() == s.len());
}

proof fn nothing_comes_before_the_empty_text()
    ensures
        !text_lt(""@, ""@),
{
    reveal_strlit("");
}

/// Stations are listed by their names, events by theirs, and evidence by its
/// numbers.
pub proof fn what_has_a_name_is_listed_by_it(
    s: Seq<StationView>,
    r: Seq<StationView>,
    e: Seq<EventRowView>,
    f: Seq<EventRowView>,
    g: Seq<EvidenceRowView>,
    h: Seq<EvidenceRowView>,
    i: int,
    j: int,
)
    requires
        0 <= i < j,
    ensures
        stations_listed(s, r) && j < r.len() ==> text_lt(r[i].station_id, r[j].station_id),
        events_listed(e, f) && j < f.len() ==> text_lt(f[i].event_id, f[j].event_id),
        evidence_listed(g, h) && j < h.len() ==> text_lt(h[i].evidence_id, h[j].evidence_id),
{
    nothing_comes_before_the_empty_text();
}

/// Clock segments are listed by their stations, and those of one by their starts.
pub proof fn segments_are_listed_by_station_and_start(
    s: Seq<(ClockSegmentView, int)>,
    r: Seq<(ClockSegmentView, int)>,
    i: int,
    j: int,
)
    requires
        segments_listed(s, r),
        0 <= i < j < r.len(),
    ensures
        text_lt(r[i].0.station_id, r[j].0.station_id) || (r[i].0.station_id == r[j].0.station_id
            && r[i].0.t_start.rank() < r[j].0.t_start.rank()),
{
    nothing_comes_before_the_empty_text();
}

/// When an observation was made: as corrected, or else as reported.
pub open spec fn made_at(o: ObservationRowView) -> Double {
    if o.corrected_onset_sec is Some {
        o.corrected_onset_sec->0
    } else {
        o.local_onset_sec
    }
}

/// Observations are listed by when they were made, those of one time by their
/// stations, and those of one station by their names.
pub proof fn observations_are_listed_by_when_they_were_made(
    s: Seq<ObservationRowView>,
    r: Seq<ObservationRowView>,
    i: int,
    j: int,
)
    requires
        observations_listed(s, r),
        0 <= i < j < r.len(),
    ensures
        made_at(r[i]).rank() < made_at(r[j]).rank() || (made_at(r[i]).rank() == made_at(
            r[j],
        ).rank() && (text_lt(r[i].station_id, r[j].station_id) || (r[i].station_id
            == r[j].station_id && text_lt(r[i].obs_uid, r[j].obs_uid)))),
{
}

/// Delays are listed by their stations, then by their observations, then by their
/// names.
pub proof fn delays_are_listed_by_station_and_observation(
    s: Seq<LagRowView>,
    r: Seq<LagRowView>,
    i: int,
    j: int,
)
    requires
        lags_listed(s, r),
        0 <= i < j < r.len(),
    ensures
        text_lt(r[i].station_id, r[j].station_id) || (r[i].station_id == r[j].station_id && (
        text_lt(r[i].obs_uid, r[j].obs_uid) || (r[i].obs_uid == r[j].obs_uid && text_lt(
            r[i].lag_uid,
            r[j].lag_uid,
        )))),
{
}

// ---------- What a solve goes by ----------

/// A solve goes by the window, the speed of sound and the bounds of its event.
pub proof fn a_solve_goes_by_its_event(
    input: SolverInput,
    v: StoreView,
    event_id: Seq<char>,
    k: int,
)
    requires
        is_input_for(input, v, event_id),
        0 <= k < v.events.len(),
        v.events[k].event_id == event_id,
        forall|i: int, j: int|
            0 <= i < j < v.events.len() ==> (#[trigger] v.events[i]).event_id != (
            #[trigger] v.events[j]).event_id,
    ensures
        input.event.event_id@ == event_id,
        input.event.window_start == v.events[k].window_start,
        input.event.window_end == v.events[k].window_end,
        input.event.sound_speed_mps == v.events[k].sound_speed_mps,
        input.event.bounds.min_x == v.events[k].bounds.min_x,
        input.event.bounds.min_y == v.events[k].bounds.min_y,
        input.event.bounds.max_x == v.events[k].bounds.max_x,
        input.event.bounds.max_y == v.events[k].bounds.max_y,
{
}

/// A solve goes by every station and every clock segment there is, and by no other.
pub proof fn a_solve_goes_by_all_stations_and_segments(
    input: SolverInput,
    v: StoreView,
    event_id: Seq<char>,
    s: StationView,
    c: (ClockSegmentView, int),
)
    requires
        is_input_for(input, v, event_id),
    ensures
        station_views(input.stations@).contains(s) <==> v.stations.contains(s),
        segment_views(input.clock_segments@).contains(c) <==> v.segments.contains(c),
{
    a_listing_holds_the_same(
        v.stations,
        station_views(input.stations@),
        |s: StationView| (s.station_id, 0, ""@, ""@),
        s,
    );
    a_listing_holds_the_same(
        v.segments,
        segment_views(input.clock_segments@),
        |s: (ClockSegmentView, int)| (s.0.station_id, s.0.t_start.rank(), ""@, ""@),
        c,
    );
}

/// A solve goes by the observations and the evidence of its event, all of them and
/// no other.
pub proof fn a_solve_goes_by_what_belongs_to_its_event(
    input: SolverInput,
    v: StoreView,
    event_id: Seq<char>,
    o: ObservationRowView,
    e: EvidenceRowView,
)
    requires
        is_input_for(input, v, event_id),
    ensures
        observationrow_views(input.observations@).contains(o) <==> v.observations.contains(o)
            && o.event_id == event_id,
        evidencerow_views(input.evidence@).contains(e) <==> v.evidence.contains(e) && e.event_id
            == event_id,
{
    let all = observations_of(v, event_id);
    let pick = |o: ObservationRowView| o.event_id == event_id;
    a_listing_holds_the_same(
        all,
        observationrow_views(input.observations@),
        |o: ObservationRowView| (
            ""@,
            crate::rows::onset_shown(o.corrected_onset_sec, o.local_onset_sec).rank(),
            o.station_id,
            o.obs_uid,
        ),
        o,
    );
    if all.contains(o) {
        let k = choose|k: int| 0 <= k < all.len() && all[k] == o;
        v.observations.lemma_filter_pred(pick, k);
        v.observations.lemma_filter_contains_rev(pick, o);
    }
    if v.observations.contains(o) && o.event_id == event_id {
        let k = choose|k: int| 0 <= k < v.observations.len() && v.observations[k] == o;
        v.observations.lemma_filter_contains(pick, k);
    }
    let judged = evidence_of(v, event_id);
    let given = |e: EvidenceRowView| e.event_id == event_id;
    a_listing_holds_the_same(
        judged,
        evidencerow_views(input.evidence@),
        |e: EvidenceRowView| (e.evidence_id, 0, ""@, ""@),
        e,
    );
    if judged.contains(e) {
        let k = choose|k: int| 0 <= k < judged.len() && judged[k] == e;
        v.evidence.lemma_filter_pred(given, k);
        v.evidence.lemma_filter_contains_rev(given, e);
    }
    if v.evidence.contains(e) && e.event_id == event_id {
        let k = choose|k: int| 0 <= k < v.evidence.len() && v.evidence[k] == e;
        v.evidence.lemma_filter_contains(given, k);
    }
}

/// A delay is one of those of an event.
pub open spec fn is_delay_of(v: StoreView, event_id: Seq<char>, l: LagRowView) -> bool {
    exists|i: int|
        0 <= i < v.lags.len() && (#[trigger] v.lags[i]).event_id == event_id && v.lags[i].lag == l
}

/// A solve goes by the delays of its event, all of them and no other.
pub proof fn a_solve_goes_by_the_delays_of_its_event(
    input: SolverInput,
    v: StoreView,
    event_id: Seq<char>,
    l: LagRowView,
)
    requires
        is_input_for(input, v, event_id),
    ensures
        lagrow_views(input.lags@).contains(l) <==> is_delay_of(v, event_id, l),
{
    let all = lags_of(v, event_id);
    let pick = |r: crate::store::LagRecordView| r.event_id == event_id;
    let f = v.lags.filter(pick);
    a_listing_holds_the_same(
        all,
        lagrow_views(input.lags@),
        |l: LagRowView| (l.station_id, 0, l.obs_uid, l.lag_uid),
        l,
    );
    assert(all.len() == f.len());
    if all.contains(l) {
        let k = choose|k: int| 0 <= k < all.len() && all[k] == l;
        v.lags.lemma_filter_pred(pick, k);
        assert(f.contains(f[k]));
        v.lags.lemma_filter_contains_rev(pick, f[k]);
        let i = choose|i: int| 0 <= i < v.lags.len() && v.lags[i] == f[k];
        assert(v.lags[i].event_id == event_id && v.lags[i].lag == l);
    }
    if is_delay_of(v, event_id, l) {
        let i = choose|i: int|
            0 <= i < v.lags.len() && (#[trigger] v.lags[i]).event_id == event_id && v.lags[i].lag
                == l;
        v.lags.lemma_filter_contains(pick, i);
        let k = choose|k: int| 0 <= k < f.len() && f[k] == v.lags[i];
        assert(all[k] == l);
    }
}

// ---------- Requests ----------

/// An event makes sense where its window ends after it starts and its speed of sound
/// is not zero or less.
pub proof fn an_event_needs_a_window_and_a_speed(e: EventInputView)
    requires
        !e.window_start.nan(),
        !e.window_end.nan(),
        !e.sound_speed_mps.nan(),
    ensures
        makes_sense(e) <==> !e.window_end.up_to(e.window_start) && (Double { bits: 0 }).below(
            e.sound_speed_mps,
        ),
{
}

/// A member that is a text is read as that; without one the text is empty.
pub proof fn members_are_read_as_texts(v: JsonView, key: Seq<char>, t: Seq<char>)
    ensures
        v.member(key) == Some(JsonView::Text(t)) ==> field(v, key) == t,
        v.member(key) is None ==> field(v, key).len() == 0,
        v.member("payload"@) is Some ==> Some(payload_of(v)) == v.member("payload"@),
        v.member("payload"@) is None ==> payload_of(v) == JsonView::Null,
{
}

/// A value is a list of documents, one for each item in its order.
pub open spec fn documents<V>(
    v: Option<JsonView>,
    s: Seq<V>,
    shown: spec_fn(V) -> JsonView,
) -> bool {
    &&& v is Some
    &&& v->0 is Array
    &&& v->0->Array_0.len() == s.len()
    &&& forall|i: int| 0 <= i < s.len() ==> #[trigger] v->0->Array_0[i] == shown(s[i])
}

/// The document of a page shows its event, its stations, its clock segments, its
/// observations, its delays, its evidence, its jobs and its candidates, each under
/// its name.
pub proof fn the_document_of_a_page(p: EventPageView)
    ensures
        ({
            let v = page_json(p);
            &&& p.event is Some ==> v.member("event"@) == Some(shown_event(p.event->0))
            &&& p.event is None ==> v.member("event"@) == Some(JsonView::Null)
            &&& documents(
                v.member("stations"@),
                p.stations,
                |x: StationView| shown_station(x),
            )
            &&& documents(
                v.member("clock_segments"@),
                p.clock_segments,
                |x: (ClockSegmentView, int)| shown_segment(x),
            )
            &&& documents(
                v.member("observations"@),
                p.observations,
                |x: ObservationRowView| shown_observation(x),
            )
            &&& documents(
                v.member("lags"@),
                p.lags,
                |x: LagRowView| shown_lag(x),
            )
            &&& documents(
                v.member("evidence"@),
                p.evidence,
                |x: EvidenceRowView| shown_evidence(x),
            )
            &&& documents(
                v.member("jobs"@),
                p.jobs,
                |x: JobSaid| shown_job(x),
            )
            &&& documents(
                v.member("candidates"@),
                p.candidates,
                |x: CandidateView| shown_candidate(x),
            )
        }),
{
    reveal_strlit("event");
    reveal_strlit("stations");
    reveal_strlit("clock_segments");
    reveal_strlit("observations");
    reveal_strlit("lags");
    reveal_strlit("evidence");
    reveal_strlit("jobs");
    reveal_strlit("candidates");
    assert("event"@.len() == 5 && "stations"@.len() == 8 && "clock_segments"@.len() == 14);
    assert("observations"@.len() == 12 && "lags"@.len() == 4 && "evidence"@.len() == 8);
    assert("jobs"@.len() == 4 && "candidates"@.len() == 10 && "stations"@[0] == 's');
    assert("evidence"@[0] == 'e' && "lags"@[0] == 'l' && "jobs"@[0] == 'j');
    let m = page_json(p)->Object_0;
    members_are_found_under_their_keys(m);
    assert(m[0].0 == "event"@ && m[1].0 == "stations"@ && m[2].0 == "clock_segments"@);
    assert(m[3].0 == "observations"@ && m[4].0 == "lags"@ && m[5].0 == "evidence"@);
    assert(m[6].0 == "jobs"@ && m[7].0 == "candidates"@);
}

/// The document of a list of events shows each.
pub proof fn the_document_of_events(s: Seq<EventRowView>)
    ensures
        ({
            let v = events_json(s);
            &&& documents(v.member("events"@), s, |x: EventRowView| shown_event(x))
        }),
{
    reveal_strlit("events");
    assert("events"@.len() == 6);
    let m = events_json(s)->Object_0;
    members_are_found_under_their_keys(m);
    assert(m[0].0 == "events"@);
}

} // verus!
