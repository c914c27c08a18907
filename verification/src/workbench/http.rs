//! What a request to the workbench asks for, and how it is answered.
use vstd::prelude::*;
use vstd::string::*;

use crate::json::{array, json_views, Json, JsonView, Members};
use crate::split::{between, without_prefixes, without_suffixes};
use crate::text::{begins_with, contains, finishes_with, holds_text, same};
use crate::workbench::ingest::IngestResult;

verus! {

/// What a request asks for.
#[derive(Debug)]
pub enum Route {
    Page,
    Script,
    Style,
    ListStations,
    AddStation,
    ListEvents,
    AddEvent,
    PutBatch,
    Link(String),
    ShowEvent(String),
    Solve(String),
    AddEvidence(String),
    AddSegment,
    Seed,
    Recover,
    Missing,
}

/// What a [`Route`] says.
pub ghost enum RouteView {
    Page,
    Script,
    Style,
    ListStations,
    AddStation,
    ListEvents,
    AddEvent,
    PutBatch,
    Link(Seq<char>),
    ShowEvent(Seq<char>),
    Solve(Seq<char>),
    AddEvidence(Seq<char>),
    AddSegment,
    Seed,
    Recover,
    Missing,
}

impl View for Route {
    type V = RouteView;

    open spec fn view(&self) -> RouteView {
        match self {
            Route::Page => RouteView::Page,
            Route::Script => RouteView::Script,
            Route::Style => RouteView::Style,
            Route::ListStations => RouteView::ListStations,
            Route::AddStation => RouteView::AddStation,
            Route::ListEvents => RouteView::ListEvents,
            Route::AddEvent => RouteView::AddEvent,
            Route::PutBatch => RouteView::PutBatch,
            Route::Link(e) => RouteView::Link(e@),
            Route::ShowEvent(e) => RouteView::ShowEvent(e@),
            Route::Solve(e) => RouteView::Solve(e@),
            Route::AddEvidence(e) => RouteView::AddEvidence(e@),
            Route::AddSegment => RouteView::AddSegment,
            Route::Seed => RouteView::Seed,
            Route::Recover => RouteView::Recover,
            Route::Missing => RouteView::Missing,
        }
    }
}

/// The event that a path names, between the front that all events share and
/// the action at the end.
pub open spec fn event_in(path: Seq<char>, action: Seq<char>) -> Seq<char> {
    without_suffixes(without_prefixes(path, "/api/events/"@), action)
}

/// The routes of the workbench.
pub open spec fn routed(method: Seq<char>, path: Seq<char>) -> RouteView {
    let of_event = "/api/events/"@.is_prefix_of(path);
    if method == "GET"@ {
        if path == "/"@ || path == "/index.html"@ {
            RouteView::Page
        } else if path == "/app.js"@ {
            RouteView::Script
        } else if path == "/app.css"@ {
            RouteView::Style
        } else if path == "/api/stations"@ {
            RouteView::ListStations
        } else if path == "/api/events"@ {
            RouteView::ListEvents
        } else if of_event {
            RouteView::ShowEvent(without_prefixes(path, "/api/events/"@))
        } else {
            RouteView::Missing
        }
    } else if method == "POST"@ {
        if path == "/api/stations"@ {
            RouteView::AddStation
        } else if path == "/api/events"@ {
            RouteView::AddEvent
        } else if path == "/api/batches"@ {
            RouteView::PutBatch
        } else if of_event && "/link"@.is_suffix_of(path) {
            RouteView::Link(event_in(path, "/link"@))
        } else if of_event && "/solve"@.is_suffix_of(path) {
            RouteView::Solve(event_in(path, "/solve"@))
        } else if of_event && "/evidence"@.is_suffix_of(path) {
            RouteView::AddEvidence(event_in(path, "/evidence"@))
        } else if path == "/api/clock-segments"@ {
            RouteView::AddSegment
        } else if path == "/api/seed"@ {
            RouteView::Seed
        } else if path == "/api/recover"@ {
            RouteView::Recover
        } else {
            RouteView::Missing
        }
    } else {
        RouteView::Missing
    }
}

/// Chooses what a request asks for.
pub fn route(method: &str, path: &str) -> (r: Route)
    ensures
        r@ == routed(method@, path@),
{
    let of_event = begins_with(path, "/api/events/");
    if same(method, "GET") {
        if same(path, "/") || same(path, "/index.html") {
            Route::Page
        } else if same(path, "/app.js") {
            Route::Script
        } else if same(path, "/app.css") {
            Route::Style
        } else if same(path, "/api/stations") {
            Route::ListStations
        } else if same(path, "/api/events") {
            Route::ListEvents
        } else if of_event {
            proof {
                reveal_strlit("");
            }
            Route::ShowEvent(between(path, "/api/events/", ""))
        } else {
            Route::Missing
        }
    } else if same(method, "POST") {
        if same(path, "/api/stations") {
            Route::AddStation
        } else if same(path, "/api/events") {
            Route::AddEvent
        } else if same(path, "/api/batches") {
            Route::PutBatch
        } else if of_event && finishes_with(path, "/link") {
            Route::Link(between(path, "/api/events/", "/link"))
        } else if of_event && finishes_with(path, "/solve") {
            Route::Solve(between(path, "/api/events/", "/solve"))
        } else if of_event && finishes_with(path, "/evidence") {
            Route::AddEvidence(between(path, "/api/events/", "/evidence"))
        } else if same(path, "/api/clock-segments") {
            Route::AddSegment
        } else if same(path, "/api/seed") {
            Route::Seed
        } else if same(path, "/api/recover") {
            Route::Recover
        } else {
            Route::Missing
        }
    } else {
        Route::Missing
    }
}

/// The answer where no route fits.
pub fn no_route(method: &str, path: &str) -> (r: (u16, String))
    ensures
        r.0 == 404,
        r.1@ == "no route for "@ + method@ + " "@ + path@,
{
    let mut msg = "no route for ".to_owned();
    msg.append(method);
    msg.append(" ");
    msg.append(path);
    (404, msg)
}

/// A message reports that a rule of the database was broken.
pub open spec fn reports_conflict(e: Seq<char>) -> bool {
    holds_text(e, "FOREIGN KEY"@) || holds_text(e, "UNIQUE"@) || holds_text(e, "CHECK"@)
}

/// The status with which an error is answered.
pub fn se(e: String) -> (r: (u16, String))
    ensures
        r.1 == e,
        r.0 == if reports_conflict(e@) {
            409u16
        } else {
            400u16
        },
{
    if contains(e.as_str(), "FOREIGN KEY") || contains(e.as_str(), "UNIQUE") || contains(
        e.as_str(),
        "CHECK",
    ) {
        (409, e)
    } else {
        (400, e)
    }
}

/// What a request has come to.
#[derive(Debug)]
pub enum Done {
    /// A station or an event was entered.
    Entered,
    Batch(IngestResult),
    Linked(usize),
    /// A document is shown.
    Shown(Json),
    Solved(String),
    Judged(String),
    Segment(i64),
    Seeded(Json),
    Recovered(usize),
}

/// The status with which what was done is answered: 201 where something was
/// made.
pub open spec fn status_of(d: Done) -> int {
    match d {
        Done::Entered | Done::Judged(_) | Done::Segment(_) | Done::Seeded(_) => 201,
        _ => 200,
    }
}

/// An object with one member.
pub open spec fn single(key: Seq<char>, v: JsonView) -> JsonView {
    JsonView::Object(seq![(key, v)])
}

/// The document with which what was done is answered.
pub open spec fn answer_of(d: Done) -> JsonView {
    match d {
        Done::Entered => single("ok"@, JsonView::Bool(true)),
        Done::Batch(r) => JsonView::Object(
            seq![
                ("fingerprint"@, JsonView::Text(r.fingerprint@)),
                ("already_present"@, JsonView::Bool(r.already_present)),
                (
                    "observation_ids"@,
                    JsonView::Array(
                        r.observation_ids@.map_values(|n: i64| JsonView::Int(n as int)),
                    ),
                ),
            ],
        ),
        Done::Linked(n) => single("linked"@, JsonView::Int(n as int)),
        Done::Shown(v) => v@,
        Done::Solved(fp) => single("job_fp"@, JsonView::Text(fp@)),
        Done::Judged(id) => single("content_id"@, JsonView::Text(id@)),
        Done::Segment(id) => single("seg_id"@, JsonView::Int(id as int)),
        Done::Seeded(v) => v@,
        Done::Recovered(n) => single("recovered"@, JsonView::Int(n as int)),
    }
}

fn one_member(key: &str, v: Json) -> (r: Json)
    ensures
        r@ == single(key@, v@),
{
    let mut m = Members::new();
    m.put(key, v);
    let r = m.object();
    assert(r@->Object_0 =~= single(key@, v@)->Object_0);
    r
}

/// The document with which an error is answered.
pub fn error_body(msg: String) -> (r: Json)
    ensures
        r@ == single("error"@, JsonView::Text(msg@)),
{
    one_member("error", Json::Text(msg))
}

fn numbers(list: &Vec<i64>) -> (r: Json)
    ensures
        r@ == JsonView::Array(list@.map_values(|n: i64| JsonView::Int(n as int))),
{
    let mut out: Vec<Json> = Vec::new();
    let mut i: usize = 0;
    while i < list.len()
        invariant
            i <= list@.len(),
            out@.len() == i,
            forall|k: int| 0 <= k < i ==> (#[trigger] out@[k])@ == JsonView::Int(list@[k] as int),
        decreases list@.len() - i,
    {
        out.push(Json::Int(list[i]));
        i += 1;
    }
    assert(json_views(out@) =~= list@.map_values(|n: i64| JsonView::Int(n as int)));
    array(out)
}

/// How a request is answered: with what was done, or with the error and the
/// status that it calls for.
pub fn reply(done: Result<Done, String>) -> (r: (u16, Json))
    ensures
        match done {
            Ok(d) => r.0 == status_of(d) && r.1@ == answer_of(d),
            Err(e) => {
                &&& r.0 == if reports_conflict(e@) {
                    409
                } else {
                    400int
                }
                &&& r.1@ == single("error"@, JsonView::Text(e@))
            },
        },
{
    match done {
        Err(e) => {
            let (status, msg) = se(e);
            (status, error_body(msg))
        },
        Ok(Done::Entered) => (201, one_member("ok", Json::Bool(true))),
        Ok(Done::Batch(b)) => {
            let ids = numbers(&b.observation_ids);
            let mut m = Members::new();
            m.put("fingerprint", Json::Text(b.fingerprint));
            m.put("already_present", Json::Bool(b.already_present));
            m.put("observation_ids", ids);
            let v = m.object();
            assert(v@->Object_0 =~= answer_of(Done::Batch(b))->Object_0);
            (200, v)
        },
        Ok(Done::Linked(n)) => (200, one_member("linked", Json::UInt(n as u64))),
        Ok(Done::Shown(v)) => (200, v),
        Ok(Done::Solved(fp)) => (200, one_member("job_fp", Json::Text(fp))),
        Ok(Done::Judged(id)) => (201, one_member("content_id", Json::Text(id))),
        Ok(Done::Segment(id)) => (201, one_member("seg_id", Json::Int(id))),
        Ok(Done::Seeded(v)) => (201, v),
        Ok(Done::Recovered(n)) => (200, one_member("recovered", Json::UInt(n as u64))),
    }
}

} // verus!
