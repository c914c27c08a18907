//! What requests do to the tables, and how they are answered.
use vstd::multiset::Multiset;
use vstd::prelude::*;
use vstd::string::*;
use vstd::utf8::encode_utf8;

use crate::canon::{canonical_text, Decimals, Quoting};
use crate::clocks::{bare_views, clash, in_clock_order, is_partition, PartitionFault};
use crate::db::{
    all_corrected, apply_clock_corrections, create_event, event_fault, event_row, get_event,
    insert_clock_segment, list_clock_segments, list_stations, segment_fault, station_fault,
    upsert_station, validate_clock_partition, with_event, with_segment, with_station,
};
use crate::digest::fingerprint;
use crate::double::Double;
use crate::figures::Differences;
use crate::ingest::{ingest_batch, intake, taken_in, IngestResult};
use crate::jobs::{
    append_evidence, candidates_of, enqueue_job, enqueued, evidence_fault, evidence_of, job_fault,
    job_for, job_views, lags_of, last_completed, latest_completed_job, list_candidates,
    list_evidence, list_jobs, list_lags, list_observations, new_evidence, observations_of,
};
use crate::json::{Json, JsonView, Members};
use crate::model::{
    candidate_views, evidencerow_views, lagrow_views, observationrow_views, station_views,
    BatchInput, Candidate, CandidateView, ClockSegment, ClockSegmentView, EventInput, EvidenceRow,
    EvidenceRowView, JobSaid, JobView, LagRow, LagRowView, ObservationRow, ObservationRowView,
    Station, StationView,
};
use crate::rows::{
    evidence_listed, lags_listed, listing_of_rows_is_unique, observations_listed, onset_shown,
    segments_listed, stations_listed,
};
use crate::server::{answer, error_text, json_200, json_err};
use crate::shown::{
    show_list, show_option, shown_candidate, shown_event, shown_evidence, shown_job, shown_lag,
    shown_observation, shown_segment, shown_station, Shown,
};
use crate::solver::{
    evidence_json, id_order, id_order_is_in_range, input_fingerprint, input_json, lag_json,
    observation_json, segment_ids, station_json, SolverEvent, SolverInput,
};
use crate::store::{
    eventrow_views, knows_batch, knows_event, knows_job, segment_views, EventRow, EventRowView,
    Fault, JobRecordView, Store, StoreView,
};
use crate::text::{decimal, decimal_text, same};

verus! {

/// An answer: a document, or an error with its status.
#[derive(Debug)]
pub enum Reply {
    Good(Json),
    Bad { status: u16, reason: String, msg: String },
}

/// What a [`Reply`] says.
pub ghost enum ReplyView {
    Good(JsonView),
    Bad { status: int, reason: Seq<char>, msg: Seq<char> },
}

impl View for Reply {
    type V = ReplyView;

    open spec fn view(&self) -> ReplyView {
        match self {
            Reply::Good(j) => ReplyView::Good(j@),
            Reply::Bad { status, reason, msg } => ReplyView::Bad {
                status: *status as int,
                reason: reason@,
                msg: msg@,
            },
        }
    }
}

/// The answer to a request that cannot be met as it stands.
pub open spec fn bad_request(msg: Seq<char>) -> ReplyView {
    ReplyView::Bad { status: 400, reason: "Bad Request"@, msg }
}

/// The answer where the tables refuse a change.
pub open spec fn server_error(msg: Seq<char>) -> ReplyView {
    ReplyView::Bad { status: 500, reason: "Internal Server Error"@, msg }
}

/// The answer where no route fits.
pub open spec fn not_found() -> ReplyView {
    ReplyView::Bad { status: 404, reason: "Not Found"@, msg: "no such route"@ }
}

fn refuse(msg: &str) -> (r: Reply)
    ensures
        r@ == bad_request(msg@),
{
    Reply::Bad { status: 400, reason: "Bad Request".to_owned(), msg: msg.to_owned() }
}

fn fail(msg: String) -> (r: Reply)
    ensures
        r@ == server_error(msg@),
{
    Reply::Bad { status: 500, reason: "Internal Server Error".to_owned(), msg }
}

/// Answers a request that no route fits.
pub fn no_such_route() -> (r: Reply)
    ensures
        r@ == not_found(),
{
    Reply::Bad { status: 404, reason: "Not Found".to_owned(), msg: "no such route".to_owned() }
}

/// Answers a request whose body is not what it has to be.
pub fn bad_body(msg: &str) -> (r: Reply)
    ensures
        r@ == bad_request(msg@),
{
    refuse(msg)
}

/// Frames an answer. `written` is the document of a good one.
pub fn frame(reply: &Reply, written: Vec<u8>) -> (r: Vec<u8>)
    ensures
        r@ == match reply@ {
            ReplyView::Good(_) => answer(
                200,
                "OK"@,
                "application/json; charset=utf-8"@,
                written@,
            ),
            ReplyView::Bad { status, reason, msg } => answer(
                status,
                reason,
                "application/json; charset=utf-8"@,
                encode_utf8(error_text(msg)),
            ),
        },
{
    match reply {
        Reply::Good(_) => json_200(written),
        Reply::Bad { status, reason, msg } => json_err(*status, reason.as_str(), msg.as_str()),
    }
}

/// `{"ok": true}`
pub open spec fn ok_json() -> JsonView {
    JsonView::Object(seq![("ok"@, JsonView::Bool(true))])
}

fn done() -> (r: Reply)
    ensures
        r@ == ReplyView::Good(ok_json()),
{
    let mut m = Members::new();
    m.put("ok", Json::Bool(true));
    let j = m.object();
    assert(j@->Object_0 =~= ok_json()->Object_0);
    Reply::Good(j)
}

/// Enters a station.
pub fn post_station(store: &mut Store, s: &Station) -> (r: Reply)
    requires
        old(store)@.valid(),
    ensures
        final(store)@.valid(),
        match station_fault(s@) {
            Some(f) => r@ == server_error(f.text()) && final(store)@ == old(store)@,
            None => r@ == ReplyView::Good(ok_json()) && final(store)@ == (StoreView {
                stations: with_station(old(store)@.stations, s@),
                ..old(store)@
            }),
        },
{
    match upsert_station(store, s) {
        Ok(_) => done(),
        Err(f) => fail(f.message()),
    }
}

/// An event makes sense: its window ends after it begins, and sound moves.
pub open spec fn makes_sense(e: crate::model::EventInputView) -> bool {
    e.window_start.below(e.window_end) && !e.sound_speed_mps.up_to(Double { bits: 0 })
}

/// Enters an event.
pub fn post_event(store: &mut Store, e: &EventInput) -> (r: Reply)
    requires
        old(store)@.valid(),
    ensures
        final(store)@.valid(),
        if !makes_sense(e@) {
            &&& r@ == bad_request("window_end>window_start and sound_speed>0 required"@)
            &&& final(store)@ == old(store)@
        } else {
            match event_fault(e@) {
                Some(f) => r@ == server_error(f.text()) && final(store)@ == old(store)@,
                None => r@ == ReplyView::Good(ok_json()) && final(store)@ == (StoreView {
                    events: with_event(old(store)@.events, event_row(e@)),
                    ..old(store)@
                }),
            }
        },
{
    if !e.window_start.is_below(e.window_end) || e.sound_speed_mps.is_up_to(Double { bits: 0 }) {
        return refuse("window_end>window_start and sound_speed>0 required");
    }
    match create_event(store, e) {
        Ok(_) => done(),
        Err(f) => fail(f.message()),
    }
}

/// The segments without their numbers.
pub open spec fn bare(s: Seq<(ClockSegmentView, int)>) -> Seq<ClockSegmentView> {
    s.map_values(|p: (ClockSegmentView, int)| p.0)
}

/// The segments that there would be with a further one: those that there are,
/// in the order in which they are listed, and the new one.
pub open spec fn is_proposal(
    v: StoreView,
    c: ClockSegmentView,
    proposal: Seq<ClockSegmentView>,
) -> bool {
    exists|listed: Seq<(ClockSegmentView, int)>| #[trigger]
        segments_listed(v.segments, listed) && proposal == bare(listed).push(c)
}

/// The answer to a segment that clashes with another: it reports the first
/// clash, by station and then by start.
pub open spec fn is_refusal(
    proposal: Seq<ClockSegmentView>,
    shown: Decimals,
    reply: ReplyView,
) -> bool {
    exists|f: PartitionFault, p: Seq<int>, k: int|
        #![trigger f.text(shown), in_clock_order(proposal, p), p[k]]
        {
            &&& reply == bad_request(f.text(shown))
            &&& in_clock_order(proposal, p)
            &&& 0 <= k < p.len() - 1
            &&& clash(proposal[p[k]], proposal[p[k + 1]]) == Some(f.clash)
            &&& forall|j: int|
                0 <= j < k ==> (#[trigger] clash(proposal[p[j]], proposal[p[j + 1]])) is None
            &&& f.station@ == proposal[p[k]].station_id
            &&& f.first == proposal[p[k]].t_start
            &&& f.second == proposal[p[k + 1]].t_start
        }
}

/// The answer to a segment that was entered.
pub open spec fn segment_json(id: int) -> JsonView {
    JsonView::Object(seq![("ok"@, JsonView::Bool(true)), ("segment_id"@, JsonView::Int(id))])
}

/// The segments that there would be with a further one.
pub fn propose(store: &Store, c: &ClockSegment) -> (r: Vec<ClockSegment>)
    requires
        store@.valid(),
        !c.t_start.nan(),
    ensures
        is_proposal(store@, c@, bare_views(r@)),
        forall|i: int| 0 <= i < r@.len() ==> !(#[trigger] r@[i]).t_start.nan(),
{
    let listed = list_clock_segments(store);
    let ghost views = segment_views(listed@);
    let mut out: Vec<ClockSegment> = Vec::new();
    let mut i: usize = 0;
    while i < listed.len()
        invariant
            i <= listed@.len(),
            views == segment_views(listed@),
            bare_views(out@) =~= bare(views).take(i as int),
        decreases listed@.len() - i,
    {
        let ghost before = bare_views(out@);
        out.push(listed[i].0.copy());
        assert(views[i as int].0 == listed@[i as int].0@);
        assert(bare_views(out@) =~= before.push(views[i as int].0));
        i += 1;
    }
    assert(bare(views).take(i as int) =~= bare(views));
    let ghost before = bare_views(out@);
    out.push(c.copy());
    assert(bare_views(out@) =~= before.push(c@));
    assert(segments_listed(store@.segments, views));
    proof {
        broadcast use vstd::seq_lib::group_to_multiset_ensures;

        assert forall|k: int| 0 <= k < out@.len() implies !(#[trigger] out@[k]).t_start.nan() by {
            assert(bare_views(out@)[k] == out@[k]@);
            if k < before.len() {
                assert(before[k] == views[k].0);
                assert(views.contains(views[k]));
                assert(store@.segments.to_multiset().count(views[k]) > 0);
                assert(store@.segments.contains(views[k]));
                let j = choose|j: int|
                    0 <= j < store@.segments.len() && store@.segments[j] == views[k];
                assert(!store@.segments[j].0.t_start.nan());
            }
        }
    }
    out
}

/// Enters a clock segment, unless it would clash with another, and corrects
/// the onsets by what there is then.
pub fn post_segment(
    store: &mut Store,
    c: &ClockSegment,
    minus: &Differences,
    shown: &Decimals,
) -> (r: Reply)
    requires
        old(store)@.valid(),
        !c.t_start.nan(),
    ensures
        final(store)@.valid(),
        exists|proposal: Seq<ClockSegmentView>| #[trigger]
            is_proposal(old(store)@, c@, proposal) && if !is_partition(proposal) {
                is_refusal(proposal, *shown, r@) && final(store)@ == old(store)@
            } else {
                match segment_fault(old(store)@, c@) {
                    Some(f) => r@ == server_error(f.text()) && final(store)@ == old(store)@,
                    None => {
                        let segments = with_segment(
                            old(store)@.segments,
                            old(store)@.last_segment + 1,
                            c@,
                        );
                        &&& final(store)@ == (StoreView {
                            segments,
                            last_segment: old(store)@.last_segment + 1,
                            observations: all_corrected(
                                old(store)@.observations,
                                segments,
                                *minus,
                            ),
                            ..old(store)@
                        })
                        &&& exists|i: int|
                            0 <= i < segments.len() && #[trigger] segments[i].0.station_id
                                == c@.station_id && segments[i].0.t_start.same_number(
                                c@.t_start,
                            ) && r@ == ReplyView::Good(segment_json(segments[i].1))
                    },
                }
            },
{
    let ghost v = store@;
    let proposal = propose(store, c);
    let ghost views = bare_views(proposal@);
    assert(is_proposal(v, c@, views));
    match validate_clock_partition(&proposal) {
        Err(f) => {
            let msg = f.message(shown);
            proof {
                let (p, k) = choose|p: Seq<int>, k: int|
                    #![trigger in_clock_order(views, p), p[k]]
                    {
                        &&& in_clock_order(views, p)
                        &&& 0 <= k < p.len() - 1
                        &&& clash(views[p[k]], views[p[k + 1]]) == Some(f.clash)
                        &&& forall|j: int|
                            0 <= j < k ==> (#[trigger] clash(views[p[j]], views[p[j + 1]])) is None
                        &&& f.station@ == views[p[k]].station_id
                        &&& f.first == views[p[k]].t_start
                        &&& f.second == views[p[k + 1]].t_start
                    };
                assert(f.text(*shown) == msg@);
                assert(in_clock_order(views, p) && p[k] == p[k]);
            }
            return refuse(msg.as_str());
        },
        Ok(_) => {},
    }
    match insert_clock_segment(store, c) {
        Err(f) => fail(f.message()),
        Ok(id) => {
            let ghost w = store@;
            apply_clock_corrections(store, minus);
            let mut m = Members::new();
            m.put("ok", Json::Bool(true));
            m.put("segment_id", Json::Int(id));
            let j = m.object();
            assert(j@->Object_0 =~= segment_json(id as int)->Object_0);
            proof {
                let i = choose|i: int|
                    0 <= i < w.segments.len() && (#[trigger] w.segments[i]).1 == id
                        && crate::db::same_slot(w.segments[i].0, c@);
                assert(w.segments[i].0.station_id == c@.station_id);
            }
            Reply::Good(j)
        },
    }
}

/// What became of a batch, in words.
pub open spec fn result_text(r: IngestResult) -> Seq<char> {
    match r {
        IngestResult::Inserted { observations_added } => "Inserted { observations_added: "@
            + decimal_text(observations_added as nat) + " }"@,
        IngestResult::DuplicateBatch => "DuplicateBatch"@,
    }
}

/// The answer to a batch.
pub open spec fn batch_json(r: IngestResult) -> JsonView {
    JsonView::Object(
        seq![
            ("inserted"@, JsonView::Bool(r is Inserted)),
            ("result"@, JsonView::Text(result_text(r))),
        ],
    )
}

/// Takes in a batch.
pub fn post_batch(
    store: &mut Store,
    batch: &BatchInput,
    raw: &Json,
    decimals: &Decimals,
    minus: &Differences,
    received_at: &str,
) -> (r: Reply)
    requires
        old(store)@.valid(),
    ensures
        final(store)@.valid(),
        final(store)@ == taken_in(
            old(store)@,
            batch@,
            canonical_text(raw@, *decimals, Quoting::Full),
            received_at@,
            *minus,
        ),
        if knows_batch(old(store)@.batches, batch@.batch_uid) {
            r@ == ReplyView::Good(batch_json(IngestResult::DuplicateBatch))
        } else {
            match intake(old(store)@, batch@, *minus) {
                Ok(t) => r@ == ReplyView::Good(
                    batch_json(IngestResult::Inserted { observations_added: t.added as usize }),
                ),
                Err(f) => r@ == server_error(f.text()),
            }
        },
{
    match ingest_batch(store, batch, raw, decimals, minus, received_at) {
        Err(f) => fail(f.message()),
        Ok(res) => {
            let (inserted, text) = match res {
                IngestResult::Inserted { observations_added } => {
                    let mut s = "Inserted { observations_added: ".to_owned();
                    s.append(decimal(observations_added as u64).as_str());
                    s.append(" }");
                    (true, s)
                },
                IngestResult::DuplicateBatch => (false, "DuplicateBatch".to_owned()),
            };
            let mut m = Members::new();
            m.put("inserted", Json::Bool(inserted));
            m.put("result", Json::Text(text));
            let j = m.object();
            assert(j@->Object_0 =~= batch_json(res)->Object_0);
            Reply::Good(j)
        },
    }
}

// ---------- Solving ----------

/// All that a solve of an event goes by, as the tables have it.
pub open spec fn is_input_for(input: SolverInput, v: StoreView, event_id: Seq<char>) -> bool {
    &&& input.event.event_id@ == event_id
    &&& exists|i: int|
        0 <= i < v.events.len() && (#[trigger] v.events[i]).event_id == event_id
            && input.event.window_start == v.events[i].window_start && input.event.window_end
            == v.events[i].window_end && input.event.sound_speed_mps
            == v.events[i].sound_speed_mps && input.event.bounds == v.events[i].bounds
    &&& stations_listed(v.stations, station_views(input.stations@))
    &&& segments_listed(v.segments, segment_views(input.clock_segments@))
    &&& observations_listed(observations_of(v, event_id), observationrow_views(input.observations@))
    &&& lags_listed(lags_of(v, event_id), lagrow_views(input.lags@))
    &&& evidence_listed(evidence_of(v, event_id), evidencerow_views(input.evidence@))
}

/// Gathers all that a solve of an event goes by.
pub fn input_for(store: &Store, event_id: &str) -> (r: Option<SolverInput>)
    requires
        store@.valid(),
    ensures
        match r {
            Some(input) => is_input_for(input, store@, event_id@),
            None => !knows_event(store@.events, event_id@),
        },
{
    match get_event(store, event_id) {
        None => None,
        Some(e) => {
            let ghost row = e@;
            let input = SolverInput {
                event: SolverEvent {
                    event_id: e.event_id,
                    window_start: e.window_start,
                    window_end: e.window_end,
                    sound_speed_mps: e.sound_speed_mps,
                    bounds: e.bounds,
                },
                stations: list_stations(store),
                clock_segments: list_clock_segments(store),
                observations: list_observations(store, event_id),
                lags: list_lags(store, event_id),
                evidence: list_evidence(store, event_id),
            };
            proof {
                let i = choose|i: int| 0 <= i < store@.events.len() && store@.events[i] == row;
                assert(store@.events[i].event_id == event_id@);
            }
            Some(input)
        },
    }
}

/// Why a job cannot be worked on.
#[derive(Clone, Copy, Debug, PartialEq, Eq, Structural)]
pub enum NoInput {
    NoJob,
    NoEvent,
}

impl NoInput {
    /// How it is reported.
    pub open spec fn text(self) -> Seq<char> {
        match self {
            NoInput::NoJob => "Query returned no rows"@,
            NoInput::NoEvent => "event missing"@,
        }
    }

    pub fn message(self) -> (r: String)
        ensures
            r@ == self.text(),
    {
        match self {
            NoInput::NoJob => "Query returned no rows".to_owned(),
            NoInput::NoEvent => "event missing".to_owned(),
        }
    }
}

/// Gathers all that a job goes by.
pub fn build_solver_input(store: &Store, job_id: i64) -> (r: Result<SolverInput, NoInput>)
    requires
        store@.valid(),
    ensures
        match r {
            Ok(input) => exists|i: int|
                0 <= i < store@.jobs.len() && (#[trigger] store@.jobs[i]).job.job_id == job_id
                    && is_input_for(input, store@, store@.jobs[i].job.event_id),
            Err(e) => e == NoInput::NoJob && !knows_job(store@.jobs, job_id as int),
        },
{
    let mut i: usize = 0;
    while i < store.jobs.len()
        invariant
            i <= store.jobs@.len(),
            store@.valid(),
            forall|j: int| 0 <= j < i ==> (#[trigger] store@.jobs[j]).job.job_id != job_id,
        decreases store.jobs@.len() - i,
    {
        assert(store@.jobs[i as int] == store.jobs@[i as int]@);
        if store.jobs[i].job.job_id == job_id {
            return match input_for(store, store.jobs[i].job.event_id.as_str()) {
                Some(input) => Ok(input),
                None => Err(NoInput::NoEvent),
            };
        }
        i += 1;
    }
    Err(NoInput::NoJob)
}

/// Why a task cannot be queued.
#[derive(Clone, Copy, Debug, PartialEq, Eq, Structural)]
pub enum NotQueued {
    NoEvent,
    Refused(Fault),
}

impl NotQueued {
    /// How it is reported.
    pub open spec fn text(self) -> Seq<char> {
        match self {
            NotQueued::NoEvent => "Query is not read-only"@,
            NotQueued::Refused(f) => f.text(),
        }
    }

    pub fn message(self) -> (r: String)
        ensures
            r@ == self.text(),
    {
        match self {
            NotQueued::NoEvent => "Query is not read-only".to_owned(),
            NotQueued::Refused(f) => f.message(),
        }
    }
}

/// The fingerprint of an input.
pub open spec fn print_of(input: SolverInput, decimals: Decimals) -> Seq<char> {
    fingerprint(encode_utf8(canonical_text(input_json(input), decimals, Quoting::Full)))
}

/// Queues a solve of an event for what the tables hold now. A job for the same
/// input that has not failed is used again.
pub fn enqueue_for_event(store: &mut Store, event_id: &str, decimals: &Decimals, created_at: &str)
    -> (r: Result<i64, NotQueued>)
    requires
        old(store)@.valid(),
    ensures
        final(store)@.valid(),
        if !knows_event(old(store)@.events, event_id@) {
            r == Err::<i64, NotQueued>(NotQueued::NoEvent) && final(store)@ == old(store)@
        } else {
            exists|input: SolverInput| #[trigger]
                is_input_for(input, old(store)@, event_id@) && {
                    let print = print_of(input, *decimals);
                    &&& final(store)@ == enqueued(old(store)@, event_id@, print, created_at@)
                    &&& match job_for(old(store)@, event_id@, print) {
                        Some(id) => r matches Ok(x) && x == id,
                        None => match job_fault(old(store)@, event_id@) {
                            Some(f) => r == Err::<i64, NotQueued>(NotQueued::Refused(f)),
                            None => r matches Ok(x) && x == old(store)@.last_job + 1,
                        },
                    }
                }
        },
{
    match input_for(store, event_id) {
        None => Err(NotQueued::NoEvent),
        Some(input) => {
            let print = input_fingerprint(&input, decimals);
            let ghost v = store@;
            assert(is_input_for(input, v, event_id@));
            match enqueue_job(store, event_id, print.as_str(), created_at) {
                Ok(id) => Ok(id),
                Err(f) => Err(NotQueued::Refused(f)),
            }
        },
    }
}

/// A text under a key of a document; empty if there is none.
pub open spec fn field(v: JsonView, key: Seq<char>) -> Seq<char> {
    match v.member(key) {
        Some(x) => match x.text() {
            Some(t) => t,
            None => Seq::empty(),
        },
        None => Seq::empty(),
    }
}

fn text_field(v: &Json, key: &str) -> (r: String)
    ensures
        r@ == field(v@, key@),
{
    match v.get(key) {
        Some(x) => match x.as_text() {
            Some(t) => t.clone(),
            None => String::new(),
        },
        None => String::new(),
    }
}

/// The kinds of evidence.
pub open spec fn is_kind(kind: Seq<char>) -> bool {
    kind == "exclude_reflection"@ || kind == "lock_clock"@ || kind == "keep_ambiguous"@
}

/// The answer to evidence that was appended.
pub open spec fn evidence_reply(id: Seq<char>) -> JsonView {
    JsonView::Object(seq![("evidence_id"@, JsonView::Text(id))])
}

/// What evidence in a request has for its payload.
pub open spec fn payload_of(v: JsonView) -> JsonView {
    match v.member("payload"@) {
        Some(p) => p,
        None => JsonView::Null,
    }
}

/// Reads what a request says about evidence.
pub struct EvidenceRequest {
    pub event_id: String,
    pub kind: String,
    pub basis: String,
    pub payload: Json,
}

/// Reads what a document says of evidence.
pub fn read_evidence(v: &Json) -> (r: EvidenceRequest)
    ensures
        r.event_id@ == field(v@, "event_id"@),
        r.kind@ == field(v@, "kind"@),
        r.basis@ == field(v@, "basis"@),
        r.payload@ == payload_of(v@),
{
    let payload = match v.get("payload") {
        Some(p) => p.copy(),
        None => Json::Null,
    };
    EvidenceRequest {
        event_id: text_field(v, "event_id"),
        kind: text_field(v, "kind"),
        basis: text_field(v, "basis"),
        payload,
    }
}

/// Evidence is appended to the tables.
pub open spec fn with_evidence(v: StoreView, e: EvidenceRequest, at: Seq<char>) -> StoreView {
    StoreView {
        evidence: v.evidence.push(
            new_evidence(v, e.event_id@, e.kind@, e.payload@, e.basis@, at),
        ),
        ..v
    }
}

/// Appends evidence and queues the solve that it calls for. The evidence stands
/// whether or not the solve can be queued.
pub fn submit_evidence(
    store: &mut Store,
    e: &EvidenceRequest,
    decimals: &Decimals,
    at: &str,
) -> (r: Reply)
    requires
        old(store)@.valid(),
        old(store).evidence@.len() < usize::MAX,
    ensures
        final(store)@.valid(),
        if e.event_id@.len() == 0 || !is_kind(e.kind@) {
            r@ == bad_request("event_id and valid kind required"@) && final(store)@ == old(store)@
        } else {
            match evidence_fault(old(store)@, e.event_id@) {
                Some(f) => r@ == server_error(f.text()) && final(store)@ == old(store)@,
                None => {
                    let mid = with_evidence(old(store)@, *e, at@);
                    &&& r@ == ReplyView::Good(evidence_reply(mid.evidence.last().evidence_id))
                    &&& exists|input: SolverInput| #[trigger]
                        is_input_for(input, mid, e.event_id@) && final(store)@ == enqueued(
                            mid,
                            e.event_id@,
                            print_of(input, *decimals),
                            at@,
                        )
                },
            }
        },
{
    let ghost v = store@;
    let r = post_evidence(store, e, at);
    match &r {
        Reply::Good(_) => {
            let ghost mid = store@;
            assert(mid =~= with_evidence(v, *e, at@));
            assert(knows_event(mid.events, e.event_id@));
            let _queued = enqueue_for_event(store, e.event_id.as_str(), decimals, at);
        },
        Reply::Bad { .. } => {},
    }
    r
}

/// Appends evidence.
pub fn post_evidence(store: &mut Store, e: &EvidenceRequest, created_at: &str) -> (r: Reply)
    requires
        old(store)@.valid(),
        old(store).evidence@.len() < usize::MAX,
    ensures
        final(store)@.valid(),
        if e.event_id@.len() == 0 || !is_kind(e.kind@) {
            r@ == bad_request("event_id and valid kind required"@) && final(store)@ == old(store)@
        } else {
            match evidence_fault(old(store)@, e.event_id@) {
                Some(f) => r@ == server_error(f.text()) && final(store)@ == old(store)@,
                None => {
                    let row = new_evidence(
                        old(store)@,
                        e.event_id@,
                        e.kind@,
                        e.payload@,
                        e.basis@,
                        created_at@,
                    );
                    &&& r@ == ReplyView::Good(evidence_reply(row.evidence_id))
                    &&& final(store)@ == (StoreView {
                        evidence: old(store)@.evidence.push(row),
                        ..old(store)@
                    })
                },
            }
        },
{
    let known = same(e.kind.as_str(), "exclude_reflection") || same(e.kind.as_str(), "lock_clock")
        || same(e.kind.as_str(), "keep_ambiguous");
    if e.event_id.as_str().is_empty() || !known {
        return refuse("event_id and valid kind required");
    }
    match append_evidence(
        store,
        e.event_id.as_str(),
        e.kind.as_str(),
        &e.payload,
        e.basis.as_str(),
        created_at,
    ) {
        Err(f) => fail(f.message()),
        Ok(id) => {
            let ghost idv = id@;
            let mut m = Members::new();
            m.put("evidence_id", Json::Text(id));
            let j = m.object();
            assert(j@->Object_0 =~= evidence_reply(idv)->Object_0);
            Reply::Good(j)
        },
    }
}

/// The answer to a solve that was queued.
pub open spec fn job_json(id: int) -> JsonView {
    JsonView::Object(seq![("job_id"@, JsonView::Int(id))])
}

/// Answers a request for a solve.
pub fn solve_reply(queued: Result<i64, NotQueued>) -> (r: Reply)
    ensures
        r@ == match queued {
            Ok(id) => ReplyView::Good(job_json(id as int)),
            Err(e) => server_error(e.text()),
        },
{
    match queued {
        Ok(id) => {
            let mut m = Members::new();
            m.put("job_id", Json::Int(id));
            let j = m.object();
            assert(j@->Object_0 =~= job_json(id as int)->Object_0);
            Reply::Good(j)
        },
        Err(e) => fail(e.message()),
    }
}

/// The tables alone determine what a solve goes by: whatever is gathered for an
/// event from the same tables has the same fingerprint.
pub proof fn the_tables_determine_the_fingerprint(
    v: StoreView,
    event_id: Seq<char>,
    a: SolverInput,
    b: SolverInput,
    decimals: Decimals,
)
    requires
        v.valid(),
        is_input_for(a, v, event_id),
        is_input_for(b, v, event_id),
    ensures
        input_json(a) == input_json(b),
        print_of(a, decimals) == print_of(b, decimals),
{
    let i = choose|i: int|
        0 <= i < v.events.len() && (#[trigger] v.events[i]).event_id == event_id
            && a.event.window_start == v.events[i].window_start && a.event.window_end
            == v.events[i].window_end && a.event.sound_speed_mps == v.events[i].sound_speed_mps
            && a.event.bounds == v.events[i].bounds;
    let j = choose|j: int|
        0 <= j < v.events.len() && (#[trigger] v.events[j]).event_id == event_id
            && b.event.window_start == v.events[j].window_start && b.event.window_end
            == v.events[j].window_end && b.event.sound_speed_mps == v.events[j].sound_speed_mps
            && b.event.bounds == v.events[j].bounds;
    if i < j {
        assert(v.events[i].event_id != v.events[j].event_id);
    } else if j < i {
        assert(v.events[j].event_id != v.events[i].event_id);
    }
    listing_of_rows_is_unique(
        v.stations,
        station_views(a.stations@),
        station_views(b.stations@),
        |s: StationView| (s.station_id, 0, ""@, ""@),
    );
    listing_of_rows_is_unique(
        v.segments,
        segment_views(a.clock_segments@),
        segment_views(b.clock_segments@),
        |s: (ClockSegmentView, int)| (s.0.station_id, s.0.t_start.rank(), ""@, ""@),
    );
    listing_of_rows_is_unique(
        observations_of(v, event_id),
        observationrow_views(a.observations@),
        observationrow_views(b.observations@),
        |o: ObservationRowView|
            (
                ""@,
                onset_shown(o.corrected_onset_sec, o.local_onset_sec).rank(),
                o.station_id,
                o.obs_uid,
            ),
    );
    listing_of_rows_is_unique(
        lags_of(v, event_id),
        lagrow_views(a.lags@),
        lagrow_views(b.lags@),
        |l: LagRowView| (l.station_id, 0, l.obs_uid, l.lag_uid),
    );
    listing_of_rows_is_unique(
        evidence_of(v, event_id),
        evidencerow_views(a.evidence@),
        evidencerow_views(b.evidence@),
        |e: EvidenceRowView| (e.evidence_id, 0, ""@, ""@),
    );
    let f1 = |s: Station| station_json(s);
    assert(a.stations@.map_values(f1) =~= b.stations@.map_values(f1)) by {
        assert(station_views(a.stations@).len() == a.stations@.len());
        assert(station_views(b.stations@).len() == b.stations@.len());
        assert forall|k: int| 0 <= k < a.stations@.len() implies f1(a.stations@[k]) == f1(
            b.stations@[k],
        ) by {
            assert(station_views(a.stations@)[k] == station_views(b.stations@)[k]);
        }
    }
    let f2 = |o: ObservationRow| observation_json(o);
    assert(a.observations@.map_values(f2) =~= b.observations@.map_values(f2)) by {
        assert(observationrow_views(a.observations@).len() == a.observations@.len());
        assert(observationrow_views(b.observations@).len() == b.observations@.len());
        assert forall|k: int| 0 <= k < a.observations@.len() implies f2(a.observations@[k]) == f2(
            b.observations@[k],
        ) by {
            assert(observationrow_views(a.observations@)[k] == observationrow_views(
                b.observations@,
            )[k]);
        }
    }
    let f3 = |l: LagRow| lag_json(l);
    assert(a.lags@.map_values(f3) =~= b.lags@.map_values(f3)) by {
        assert(lagrow_views(a.lags@).len() == a.lags@.len());
        assert(lagrow_views(b.lags@).len() == b.lags@.len());
        assert forall|k: int| 0 <= k < a.lags@.len() implies f3(a.lags@[k]) == f3(b.lags@[k]) by {
            assert(lagrow_views(a.lags@)[k] == lagrow_views(b.lags@)[k]);
        }
    }
    let f4 = |e: EvidenceRow| evidence_json(e);
    assert(a.evidence@.map_values(f4) =~= b.evidence@.map_values(f4)) by {
        assert(evidencerow_views(a.evidence@).len() == a.evidence@.len());
        assert(evidencerow_views(b.evidence@).len() == b.evidence@.len());
        assert forall|k: int| 0 <= k < a.evidence@.len() implies f4(a.evidence@[k]) == f4(
            b.evidence@[k],
        ) by {
            assert(evidencerow_views(a.evidence@)[k] == evidencerow_views(b.evidence@)[k]);
        }
    }
    let sa = a.clock_segments@;
    let sb = b.clock_segments@;
    assert(segment_views(sa).len() == sa.len());
    assert(segment_views(sb).len() == sb.len());
    assert forall|k: int| 0 <= k < sa.len() implies sa[k].0@ == sb[k].0@ && sa[k].1 == sb[k].1 by {
        assert(segment_views(sa)[k] == segment_views(sb)[k]);
    }
    assert(segment_ids(sa) =~= segment_ids(sb));
    let order = id_order(segment_ids(sa), sa.len() as int);
    id_order_is_in_range(segment_ids(sa), sa.len() as int);
    assert(order.map_values(|i: int| crate::solver::segment_json(sa[i])) =~= order.map_values(
        |i: int| crate::solver::segment_json(sb[i]),
    ));
}

// ---------- Showing ----------

/// All that is shown of an event.
#[derive(Debug)]
pub struct EventPage {
    pub event: Option<EventRow>,
    pub stations: Vec<Station>,
    pub clock_segments: Vec<(ClockSegment, i64)>,
    pub observations: Vec<ObservationRow>,
    pub lags: Vec<LagRow>,
    pub evidence: Vec<EvidenceRow>,
    pub jobs: Vec<JobView>,
    pub candidates: Vec<Candidate>,
}

/// What an [`EventPage`] says.
#[verifier::ext_equal]
pub ghost struct EventPageView {
    pub event: Option<EventRowView>,
    pub stations: Seq<StationView>,
    pub clock_segments: Seq<(ClockSegmentView, int)>,
    pub observations: Seq<ObservationRowView>,
    pub lags: Seq<LagRowView>,
    pub evidence: Seq<EvidenceRowView>,
    pub jobs: Seq<JobSaid>,
    pub candidates: Seq<CandidateView>,
}

impl View for EventPage {
    type V = EventPageView;

    open spec fn view(&self) -> EventPageView {
        EventPageView {
            event: match self.event {
                Some(e) => Some(e@),
                None => None,
            },
            stations: station_views(self.stations@),
            clock_segments: segment_views(self.clock_segments@),
            observations: observationrow_views(self.observations@),
            lags: lagrow_views(self.lags@),
            evidence: evidencerow_views(self.evidence@),
            jobs: job_views(self.jobs@),
            candidates: candidate_views(self.candidates@),
        }
    }
}

/// The document that shows an event.
pub open spec fn page_json(p: EventPageView) -> JsonView {
    JsonView::Object(
        seq![
            (
                "event"@,
                match p.event {
                    Some(e) => shown_event(e),
                    None => JsonView::Null,
                },
            ),
            (
                "stations"@,
                JsonView::Array(p.stations.map_values(|v: StationView| shown_station(v))),
            ),
            (
                "clock_segments"@,
                JsonView::Array(
                    p.clock_segments.map_values(|v: (ClockSegmentView, int)| shown_segment(v)),
                ),
            ),
            (
                "observations"@,
                JsonView::Array(
                    p.observations.map_values(|v: ObservationRowView| shown_observation(v)),
                ),
            ),
            ("lags"@, JsonView::Array(p.lags.map_values(|v: LagRowView| shown_lag(v)))),
            (
                "evidence"@,
                JsonView::Array(p.evidence.map_values(|v: EvidenceRowView| shown_evidence(v))),
            ),
            ("jobs"@, JsonView::Array(p.jobs.map_values(|v: JobSaid| shown_job(v)))),
            (
                "candidates"@,
                JsonView::Array(p.candidates.map_values(|v: CandidateView| shown_candidate(v))),
            ),
        ],
    )
}

/// Puts all that is shown of an event into one document.
pub fn event_document(page: &EventPage) -> (r: Json)
    ensures
        r@ == page_json(page@),
{
    let mut m = Members::new();
    m.put("event", show_option(&page.event));
    m.put("stations", show_list(&page.stations));
    m.put("clock_segments", show_list(&page.clock_segments));
    m.put("observations", show_list(&page.observations));
    m.put("lags", show_list(&page.lags));
    m.put("evidence", show_list(&page.evidence));
    m.put("jobs", show_list(&page.jobs));
    m.put("candidates", show_list(&page.candidates));
    let r = m.object();
    proof {
        let v = page@;
        assert(page.stations@.map_values(|x: Station| x.shown()) =~= v.stations.map_values(
            |x: StationView| shown_station(x),
        ));
        assert(page.clock_segments@.map_values(|x: (ClockSegment, i64)| x.shown())
            =~= v.clock_segments.map_values(|x: (ClockSegmentView, int)| shown_segment(x)));
        assert(page.observations@.map_values(|x: ObservationRow| x.shown())
            =~= v.observations.map_values(|x: ObservationRowView| shown_observation(x)));
        assert(page.lags@.map_values(|x: LagRow| x.shown()) =~= v.lags.map_values(
            |x: LagRowView| shown_lag(x),
        ));
        assert(page.evidence@.map_values(|x: EvidenceRow| x.shown()) =~= v.evidence.map_values(
            |x: EvidenceRowView| shown_evidence(x),
        ));
        assert(page.jobs@.map_values(|x: JobView| x.shown()) =~= v.jobs.map_values(
            |x: JobSaid| shown_job(x),
        ));
        assert(page.candidates@.map_values(|x: Candidate| x.shown()) =~= v.candidates.map_values(
            |x: CandidateView| shown_candidate(x),
        ));
    }
    assert(r@->Object_0 =~= page_json(page@)->Object_0);
    r
}

/// The document that lists events.
pub open spec fn events_json(events: Seq<EventRowView>) -> JsonView {
    JsonView::Object(
        seq![
            (
                "events"@,
                JsonView::Array(events.map_values(|v: EventRowView| shown_event(v))),
            ),
        ],
    )
}

/// Puts a list of events into a document.
pub fn events_document(events: &Vec<EventRow>) -> (r: Json)
    ensures
        r@ == events_json(eventrow_views(events@)),
{
    let mut m = Members::new();
    m.put("events", show_list(events));
    let r = m.object();
    assert(events@.map_values(|x: EventRow| x.shown()) =~= eventrow_views(events@).map_values(
        |x: EventRowView| shown_event(x),
    ));
    assert(r@->Object_0 =~= events_json(eventrow_views(events@))->Object_0);
    r
}

/// Gathers all that is shown of an event. The candidates are those of its last
/// completed job alone: what a job that is not completed has found is not shown.
pub fn show_event(store: &Store, event_id: &str) -> (r: EventPage)
    requires
        store@.valid(),
    ensures
        match r.event {
            Some(e) => e@.event_id == event_id@ && store@.events.contains(e@),
            None => !knows_event(store@.events, event_id@),
        },
        stations_listed(store@.stations, station_views(r.stations@)),
        segments_listed(store@.segments, segment_views(r.clock_segments@)),
        observations_listed(observations_of(store@, event_id@),
            observationrow_views(r.observations@)),
        lags_listed(lags_of(store@, event_id@), lagrow_views(r.lags@)),
        evidence_listed(evidence_of(store@, event_id@), evidencerow_views(r.evidence@)),
        job_views(r.jobs@) == store@.jobs.filter(
            |j: JobRecordView| j.job.event_id == event_id@,
        ).map_values(|j: JobRecordView| j.job),
        candidate_views(r.candidates@).to_multiset() == match last_completed(store@, event_id@) {
            Some(id) => candidates_of(store@, id).to_multiset(),
            None => Multiset::<CandidateView>::empty(),
        },
        forall|a: int, b: int|
            0 <= a < b < r.candidates@.len() ==> (#[trigger] r.candidates@[a]).rank <= (
            #[trigger] r.candidates@[b]).rank,
{
    let candidates = match latest_completed_job(store, event_id) {
        Some(id) => list_candidates(store, id),
        None => {
            let none: Vec<Candidate> = Vec::new();
            proof {
                broadcast use vstd::seq_lib::group_to_multiset_ensures;

                assert(candidate_views(none@) =~= Seq::empty());
                assert(candidate_views(none@).to_multiset() =~= Multiset::empty());
            }
            none
        },
    };
    EventPage {
        event: get_event(store, event_id),
        stations: list_stations(store),
        clock_segments: list_clock_segments(store),
        observations: list_observations(store, event_id),
        lags: list_lags(store, event_id),
        evidence: list_evidence(store, event_id),
        jobs: list_jobs(store, event_id),
        candidates,
    }
}

} // verus!
