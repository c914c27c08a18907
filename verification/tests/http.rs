//! Requests, replies and command lines.
use acoustic_review::args::{parse_args, Args, Command, Program};
use acoustic_review::db::list_events;
use acoustic_review::double::Double;
use acoustic_review::figures::{Differences, Pt};
use acoustic_review::json::Json;
use acoustic_review::model::{
    Candidate, CandidateResidual, ClockSegment, Curve, EventInput, Region, SiteBounds, Station,
};
use acoustic_review::requests::{
    bad_body, build_solver_input, enqueue_for_event, event_document, events_document, frame,
    input_for, no_such_route, post_event, post_evidence, post_segment, post_station, read_evidence,
    show_event, solve_reply, submit_evidence, NoInput, NotQueued, Reply,
};
use acoustic_review::canon::Decimals;
use acoustic_review::server::{
    json_200, json_err, query_params, response, route, serve_static, url_decode, Intake, Route,
};
use acoustic_review::shown::Shown;
use acoustic_review::store::Store;
use acoustic_review::workbench::http;
use acoustic_review::workbench::http::{no_route, reply, se, Done};
use acoustic_review::workbench::ingest::IngestResult;

fn dbl(v: f64) -> Double {
    Double { bits: v.to_bits() }
}

fn nothing() -> (Differences, Decimals) {
    (Differences { entries: vec![] }, Decimals { entries: vec![] })
}

fn told(bytes: Vec<u8>) -> String {
    String::from_utf8(bytes).unwrap()
}

// ---------- Framing ----------

#[test]
fn a_response_states_the_length_of_its_body_in_bytes() {
    let r = told(response(200, "OK", "text/plain", "aé".to_string().into_bytes()));
    assert_eq!(
        r,
        "HTTP/1.1 200 OK\r\nContent-Type: text/plain\r\nContent-Length: 3\r\nConnection: close\r\n\r\naé"
    );
    let page = told(serve_static("text/html; charset=utf-8", "<p>"));
    assert!(page.ends_with("Content-Length: 3\r\nConnection: close\r\n\r\n<p>"));
    assert!(told(json_200(b"[]".to_vec())).contains("application/json; charset=utf-8"));
}

#[test]
fn an_error_is_quoted() {
    let r = told(json_err(400, "Bad Request", "a \"b\"\n"));
    assert!(r.starts_with("HTTP/1.1 400 Bad Request\r\n"));
    assert!(r.ends_with("\r\n\r\n{\"error\":\"a \\\"b\\\"\\n\"}"), "{r}");
    assert_eq!(told(frame(&no_such_route(), vec![])),
        told(json_err(404, "Not Found", "no such route")));
    assert_eq!(told(frame(&bad_body("x"), vec![])), told(json_err(400, "Bad Request", "x")));
}

#[test]
fn urls_are_decoded() {
    assert_eq!(url_decode("a+b%20c%2f"), "a b c/");
    assert_eq!(url_decode("%e5%A3%b0"), "声");
    assert_eq!(url_decode("%zz"), "\0");
    assert_eq!(url_decode("%4"), "@");
    assert_eq!(url_decode("%ff"), "\u{fffd}");
    assert_eq!(url_decode(""), "");
}

#[test]
fn decoding_a_url_undoes_encoding() {
    for text in ["", "a b+c%d", "声学 ±", "plain/text?x=1"] {
        let upper: String = text.bytes().map(|b| format!("%{b:02X}")).collect();
        let lower: String = text.bytes().map(|b| format!("%{b:02x}")).collect();
        assert_eq!((url_decode(&upper), url_decode(&lower)), (text.to_string(), text.to_string()));
        let mixed: String = text
            .chars()
            .map(|c| match c {
                ' ' => "+".to_string(),
                '+' => "%2b".to_string(),
                '%' => "%25".to_string(),
                c => c.to_string(),
            })
            .collect();
        assert_eq!(url_decode(&mixed), text);
    }
    assert_eq!(url_decode("声学"), "声学");
}

#[test]
fn the_last_of_equal_parameters_counts() {
    let q = query_params("event_id=EV%2dA&&x=1&x=2&alone&=e");
    assert_eq!(q.get("event_id").unwrap(), "EV-A");
    assert_eq!(q.get("x").unwrap(), "2");
    assert_eq!(q.get("").unwrap(), "e");
    assert!(q.get("alone").is_none());
    assert_eq!(q.len(), 3);
}

#[test]
fn a_request_is_taken_in_as_it_arrives() {
    let head = "POST /api/batches?a=b HTTP/1.1\r\nHost: x\r\nContent-LENGTH: 7 \r\n\r\n{\"a\"";
    let mut r = Intake::begin_bytes(&head.as_bytes().to_vec());
    assert_eq!((r.method.as_str(), r.path.as_str(), r.query.as_str()),
        ("POST", "/api/batches", "a=b"));
    assert_eq!((r.content_length, r.wanted()), (7, 3));
    r.receive(&b":1".to_vec());
    assert_eq!(r.wanted(), 1);
    r.receive(&b"}".to_vec());
    assert_eq!((r.wanted(), r.body.as_str()), (0, "{\"a\":1}"));

    let bare = Intake::begin("");
    assert_eq!((bare.method.as_str(), bare.path.as_str(), bare.wanted()), ("GET", "/", 0));
    let get = Intake::begin("GET / HTTP/1.1\r\n\r\nleft over");
    assert_eq!(get.body, "");
    let odd = Intake::begin_bytes(&b"POST / HTTP/1.1\r\ncontent-length: x\r\n\r\n\xff".to_vec());
    assert_eq!((odd.content_length, odd.body.as_str()), (0, ""));
}

#[test]
fn survey_routes_go_by_method_and_path() {
    let cases = [
        ("GET", "/", Route::Page),
        ("GET", "/static/app.js", Route::Script),
        ("GET", "/api/health", Route::Health),
        ("GET", "/api/stations", Route::ListStations),
        ("GET", "/api/events", Route::ListEvents),
        ("GET", "/api/event", Route::ShowEvent),
        ("POST", "/api/stations", Route::PutStation),
        ("POST", "/api/events", Route::PutEvent),
        ("POST", "/api/clock-segments", Route::PutSegment),
        ("POST", "/api/batches", Route::PutBatch),
        ("POST", "/api/evidence", Route::PutEvidence),
        ("POST", "/api/solve", Route::Solve),
        ("POST", "/", Route::Missing),
        ("GET", "/api/solve", Route::Missing),
        ("PUT", "/api/solve", Route::Missing),
    ];
    for (method, path, expected) in cases {
        assert_eq!(route(method, path), expected, "{method} {path}");
    }
}

// ---------- What requests do ----------

fn station(id: &str) -> Station {
    Station { station_id: id.to_string(), x: dbl(1.0), y: dbl(2.0), label: "l".to_string() }
}

fn event(id: &str) -> EventInput {
    EventInput {
        event_id: id.to_string(),
        label: "l".to_string(),
        window_start: dbl(0.0),
        window_end: dbl(10.0),
        sound_speed_mps: dbl(343.0),
        site_bounds: SiteBounds { min_x: dbl(0.0), min_y: dbl(0.0), max_x: dbl(9.0),
            max_y: dbl(9.0) },
    }
}

fn status(r: &Reply) -> u16 {
    match r {
        Reply::Good(_) => 200,
        Reply::Bad { status, .. } => *status,
    }
}

fn said(r: &Reply) -> String {
    match r {
        Reply::Good(_) => String::new(),
        Reply::Bad { msg, .. } => msg.clone(),
    }
}

#[test]
fn an_event_needs_a_window_and_a_speed() {
    let mut store = Store::new();
    let backwards = EventInput { window_end: dbl(0.0), ..event("E") };
    let r = post_event(&mut store, &backwards);
    assert_eq!((status(&r), said(&r).as_str()),
        (400, "window_end>window_start and sound_speed>0 required"));
    let still = EventInput { sound_speed_mps: dbl(0.0), ..event("E") };
    assert_eq!(status(&post_event(&mut store, &still)), 400);
    assert!(store.events.is_empty());
    let nowhere = EventInput {
        site_bounds: SiteBounds { min_y: dbl(f64::NAN), ..event("E").site_bounds },
        ..event("E")
    };
    let r = post_event(&mut store, &nowhere);
    assert_eq!((status(&r), said(&r).as_str()),
        (500, "NOT NULL constraint failed: events.bounds_min_y"));
    assert_eq!(status(&post_event(&mut store, &event("E"))), 200);
    assert_eq!(store.events.len(), 1);
}

#[test]
fn a_segment_is_refused_where_it_overlaps() {
    let (minus, _) = nothing();
    let shown = Decimals {
        entries: [0.0f64, 5.0, 8.0].iter().map(|v| (v.to_bits(), format!("{v}"))).collect(),
    };
    let mut store = Store::new();
    assert_eq!(status(&post_station(&mut store, &station("S"))), 200);
    let seg = |start: f64, end: Option<f64>| ClockSegment {
        station_id: "S".to_string(),
        t_start: dbl(start),
        t_end: end.map(dbl),
        offset_sec: dbl(0.0),
        source: "t".to_string(),
    };
    assert_eq!(status(&post_segment(&mut store, &seg(0.0, Some(8.0)), &minus, &shown)), 200);
    let r = post_segment(&mut store, &seg(5.0, None), &minus, &shown);
    assert_eq!(status(&r), 400);
    assert!(said(&r).contains('S'), "{}", said(&r));
    assert_eq!(store.segments.len(), 1);
    assert_eq!(status(&post_segment(&mut store, &seg(8.0, None), &minus, &shown)), 200);
    let stranger = ClockSegment { station_id: "T".to_string(), ..seg(0.0, None) };
    let r = post_segment(&mut store, &stranger, &minus, &shown);
    assert_eq!((status(&r), said(&r).as_str()), (500, "FOREIGN KEY constraint failed"));
}

#[test]
fn evidence_needs_an_event_and_a_kind() {
    let mut store = Store::new();
    post_event(&mut store, &event("E"));
    let member = |k: &str, v: &str| (k.to_string(), Json::Text(v.to_string()));
    let e = read_evidence(&Json::Object(vec![member("event_id", "E"), member("kind", "guess")]));
    assert_eq!((e.event_id.as_str(), e.kind.as_str(), e.basis.as_str()), ("E", "guess", ""));
    assert!(matches!(e.payload, Json::Null));
    let r = post_evidence(&mut store, &e, "t");
    assert_eq!((status(&r), said(&r).as_str()), (400, "event_id and valid kind required"));
    let e = read_evidence(&Json::Object(vec![member("kind", "lock_clock")]));
    assert_eq!(status(&post_evidence(&mut store, &e, "t")), 400);
    let e = read_evidence(
        &Json::Object(vec![member("event_id", "F"), member("kind", "lock_clock")]));
    let r = post_evidence(&mut store, &e, "t");
    assert_eq!((status(&r), said(&r).as_str()), (500, "FOREIGN KEY constraint failed"));
    let e = read_evidence(
        &Json::Object(vec![member("event_id", "E"), member("kind", "lock_clock")]));
    match post_evidence(&mut store, &e, "t") {
        Reply::Good(v) => assert_eq!(v.get("evidence_id").unwrap().as_text().unwrap(), "ev-E:0001"),
        other => panic!("{other:?}"),
    }
}

#[test]
fn evidence_queues_a_solve() {
    let (_, d) = nothing();
    let mut store = Store::new();
    post_event(&mut store, &event("E"));
    let member = |k: &str, v: &str| (k.to_string(), Json::Text(v.to_string()));
    let e = read_evidence(
        &Json::Object(vec![member("event_id", "E"), member("kind", "lock_clock")]));
    assert_eq!(status(&submit_evidence(&mut store, &e, &d, "t")), 200);
    assert_eq!((store.evidence.len(), store.jobs.len()), (1, 1));
    assert_eq!(status(&submit_evidence(&mut store, &e, &d, "t")), 200);
    assert_eq!((store.evidence.len(), store.jobs.len()), (2, 2));
    assert_ne!(store.jobs[0].job.fingerprint, store.jobs[1].job.fingerprint);
    let e = read_evidence(
        &Json::Object(vec![member("event_id", "F"), member("kind", "lock_clock")]));
    assert_eq!(status(&submit_evidence(&mut store, &e, &d, "t")), 500);
    assert_eq!((store.evidence.len(), store.jobs.len()), (2, 2));
}

#[test]
fn a_solve_is_queued_once_for_one_input() {
    let (_, d) = nothing();
    let mut store = Store::new();
    let none = enqueue_for_event(&mut store, "E", &d, "t");
    assert_eq!(none, Err(NotQueued::NoEvent));
    assert_eq!(said(&solve_reply(none)), "Query is not read-only");
    assert!(matches!(build_solver_input(&store, 1), Err(NoInput::NoJob)));
    assert_eq!(NoInput::NoJob.message(), "Query returned no rows");
    assert_eq!(NoInput::NoEvent.message(), "event missing");
    post_event(&mut store, &event("E"));
    let first = enqueue_for_event(&mut store, "E", &d, "t").unwrap();
    assert_eq!(enqueue_for_event(&mut store, "E", &d, "t"), Ok(first));
    assert_eq!(store.jobs.len(), 1);
    assert_eq!(build_solver_input(&store, first).unwrap().event.event_id, "E");
    post_station(&mut store, &station("S"));
    assert_eq!(enqueue_for_event(&mut store, "E", &d, "t"), Ok(first + 1));
    assert!(input_for(&store, "F").is_none());
    let page = show_event(&store, "E");
    assert_eq!((page.jobs.len(), page.stations.len(), page.candidates.len()), (2, 1, 0));
    assert!(show_event(&store, "F").event.is_none());
}

fn keys(v: &Json) -> Vec<String> {
    match v {
        Json::Object(members) => members.iter().map(|m| m.0.clone()).collect(),
        other => panic!("no object: {other:?}"),
    }
}

fn items(v: Option<&Json>) -> &Vec<Json> {
    v.unwrap().as_items().unwrap()
}

#[test]
fn an_event_is_shown_in_one_document() {
    let (minus, d) = nothing();
    let mut store = Store::new();
    post_event(&mut store, &event("E"));
    post_station(&mut store, &station("S"));
    let c = ClockSegment {
        station_id: "S".to_string(),
        t_start: dbl(1.5),
        t_end: None,
        offset_sec: dbl(0.25),
        source: "gps".to_string(),
    };
    assert_eq!(status(&post_segment(&mut store, &c, &minus, &d)), 200);
    let id = enqueue_for_event(&mut store, "E", &d, "t").unwrap();
    let page = event_document(&show_event(&store, "E"));
    assert_eq!(
        keys(&page),
        vec![
            "event", "stations", "clock_segments", "observations", "lags", "evidence", "jobs",
            "candidates"
        ]
    );
    let e = page.get("event").unwrap();
    assert_eq!(
        keys(e),
        vec!["event_id", "label", "window_start", "window_end", "sound_speed_mps", "bounds"]
    );
    assert_eq!(keys(e.get("bounds").unwrap()), vec!["min_x", "min_y", "max_x", "max_y"]);
    let s = &items(page.get("clock_segments"))[0];
    assert_eq!(
        keys(s),
        vec!["segment_id", "station_id", "t_start", "t_end", "offset_sec", "source"]
    );
    assert!(matches!(s.get("segment_id"), Some(Json::Int(1))));
    assert!(matches!(s.get("t_start"), Some(Json::Float(x)) if *x == dbl(1.5)));
    assert!(matches!(s.get("t_end"), Some(Json::Null)));
    assert_eq!(s.get("source").unwrap().as_text().unwrap(), "gps");
    let j = &items(page.get("jobs"))[0];
    assert!(matches!(j.get("job_id"), Some(Json::Int(n)) if *n == id));
    assert_eq!(j.get("status").unwrap().as_text().unwrap(), "pending");
    assert!(matches!(j.get("error"), Some(Json::Null)));
    assert!(items(page.get("candidates")).is_empty());
    let missing = event_document(&show_event(&store, "F"));
    assert!(matches!(missing.get("event"), Some(Json::Null)));
    assert_eq!(items(missing.get("stations")).len(), 1);
    let list = events_document(&list_events(&store));
    assert_eq!(keys(&list), vec!["events"]);
    assert_eq!(items(list.get("events"))[0].get("event_id").unwrap().as_text().unwrap(), "E");
}

#[test]
fn a_candidate_is_shown_with_its_shape() {
    let p = |x: f64, y: f64| Pt { x: dbl(x), y: dbl(y) };
    let c = Candidate {
        candidate_id: "c".to_string(),
        job_id: 3,
        rank: 1,
        kind: "curve".to_string(),
        point: Some(p(1.0, 2.0)),
        curve: Some(Curve {
            kind: "hyperbola".to_string(),
            focus_a: p(0.0, 0.0),
            focus_b: p(4.0, 0.0),
            difference_m: dbl(1.0),
            points: vec![p(2.5, 0.0), p(2.6, 1.0)],
        }),
        region: None,
        rms_sec: None,
        underdetermined: "sensor_geometry".to_string(),
        score: dbl(0.5),
        signature: "direct".to_string(),
        residuals: vec![CandidateResidual {
            kind: "ccf_lag".to_string(),
            lag_uid: Some("l".to_string()),
            station_id: "S".to_string(),
            peer_id: None,
            measured_sec: dbl(0.1),
            predicted_sec: None,
            residual_sec: None,
            weight: dbl(1.0),
            used: true,
            excluded_reason: None,
        }],
    };
    let v = c.show();
    assert_eq!(
        keys(&v),
        vec![
            "candidate_id", "job_id", "rank", "kind", "point", "curve", "region", "rms_sec",
            "underdetermined", "score", "signature", "residuals"
        ]
    );
    assert_eq!(items(v.get("point")).len(), 2);
    assert!(matches!(items(v.get("point"))[1], Json::Float(y) if y == dbl(2.0)));
    let curve = v.get("curve").unwrap();
    assert_eq!(keys(curve), vec!["kind", "focus_a", "focus_b", "difference_m", "points"]);
    assert!(matches!(items(curve.get("points"))[1], Json::Array(ref q) if q.len() == 2));
    assert!(matches!(v.get("region"), Some(Json::Null)));
    let r = &items(v.get("residuals"))[0];
    assert_eq!(keys(r).len(), 10);
    assert!(matches!(r.get("used"), Some(Json::Bool(true))));
    assert_eq!(r.get("lag_uid").unwrap().as_text().unwrap(), "l");
    let site = Region {
        kind: "site".to_string(),
        center: p(1.0, 1.0),
        semi_axes: p(1.0, 1.0),
        angle_rad: dbl(0.0),
        polygon: vec![p(0.0, 0.0)],
    };
    assert_eq!(keys(&site.show()), vec!["kind", "center", "semi_axes", "angle_rad", "polygon"]);
}

// ---------- The workbench ----------

#[test]
fn conflicts_are_answered_with_409() {
    assert_eq!(se("UNIQUE constraint failed: x".to_string()).0, 409);
    assert_eq!(se("FOREIGN KEY constraint failed".to_string()).0, 409);
    assert_eq!(se("CHECK constraint failed: x".to_string()).0, 409);
    assert_eq!(se("no such event".to_string()), (400, "no such event".to_string()));
}

#[test]
fn workbench_routes_name_their_event() {
    assert!(matches!(http::route("GET", "/index.html"), http::Route::Page));
    assert!(matches!(http::route("GET", "/app.css"), http::Route::Style));
    assert!(matches!(http::route("POST", "/api/seed"), http::Route::Seed));
    assert!(matches!(http::route("POST", "/api/recover"), http::Route::Recover));
    assert!(matches!(http::route("DELETE", "/"), http::Route::Missing));
    match http::route("POST", "/api/events/EVT-1/link") {
        http::Route::Link(e) => assert_eq!(e, "EVT-1"),
        other => panic!("{other:?}"),
    }
    match http::route("POST", "/api/events//api/events/X/solve/solve") {
        http::Route::Solve(e) => assert_eq!(e, "X"),
        other => panic!("{other:?}"),
    }
    match http::route("GET", "/api/events/EVT-1") {
        http::Route::ShowEvent(e) => assert_eq!(e, "EVT-1"),
        other => panic!("{other:?}"),
    }
    assert_eq!(no_route("PUT", "/x"), (404, "no route for PUT /x".to_string()));
}

#[test]
fn what_was_done_is_answered_with_a_status() {
    let text = |s: &str| s.to_string();
    let (status, body) = reply(Ok(Done::Entered));
    assert_eq!(status, 201);
    assert!(matches!(body.get("ok"), Some(Json::Bool(true))));
    let batch = IngestResult {
        fingerprint: text("fp"),
        already_present: false,
        observation_ids: vec![3, 4],
    };
    let (status, body) = reply(Ok(Done::Batch(batch)));
    assert_eq!(status, 200);
    assert_eq!(body.get("fingerprint").unwrap().as_text().unwrap(), "fp");
    let ids = body.get("observation_ids").unwrap().as_items().unwrap();
    assert_eq!(ids.iter().map(|v| v.as_whole()).collect::<Vec<_>>(), vec![Some(3), Some(4)]);
    let cases = vec![
        (Done::Linked(2), 200, "linked"),
        (Done::Solved(text("x")), 200, "job_fp"),
        (Done::Judged(text("x")), 201, "content_id"),
        (Done::Segment(7), 201, "seg_id"),
        (Done::Recovered(1), 200, "recovered"),
    ];
    for (done, expected, key) in cases {
        let (status, body) = reply(Ok(done));
        assert_eq!(status, expected);
        assert!(body.get(key).is_some());
    }
    assert_eq!(reply(Ok(Done::Shown(Json::Null))).0, 200);
    assert_eq!(reply(Ok(Done::Seeded(Json::Null))).0, 201);
    let (status, body) = reply(Err(text("UNIQUE constraint failed: events.event_id")));
    assert_eq!(status, 409);
    assert!(body.get("error").unwrap().as_text().unwrap().starts_with("UNIQUE"));
    assert_eq!(reply(Err(text("unknown"))).0, 400);
}

// ---------- Command lines ----------

fn words(line: &str) -> Vec<String> {
    line.split_whitespace().map(|w| w.to_string()).collect()
}

fn run(p: Program, line: &str) -> Args {
    match parse_args(p, &words(line)) {
        Ok(Command::Run(a)) => a,
        other => panic!("{other:?}"),
    }
}

#[test]
fn command_lines_are_read_word_by_word() {
    let a = run(Program::Survey, "");
    assert_eq!((a.listen.as_str(), a.db_path.as_str(), a.seed),
        ("127.0.0.1:5322", "acoustic-review.db", true));
    let b = run(Program::Survey, "--no-seed --db x.db --listen 0.0.0.0:1 --seed");
    assert_eq!((b.listen.as_str(), b.db_path.as_str(), b.seed), ("0.0.0.0:1", "x.db", true));
    assert!(!run(Program::Workbench, "--no-seed").seed);
    assert!(matches!(parse_args(Program::Survey, &words("-h --nonsense")), Ok(Command::Help)));
    let wrong = |p: Program, line: &str| parse_args(p, &words(line)).unwrap_err();
    assert_eq!(wrong(Program::Survey, "--listen"), "missing --listen value");
    assert_eq!(wrong(Program::Survey, "--db"), "missing --db value");
    assert_eq!(wrong(Program::Survey, "-x"), "未知参数: -x");
    assert_eq!(wrong(Program::Workbench, "--listen"), "--listen needs an address");
    assert_eq!(wrong(Program::Workbench, "--db"), "--db needs a path");
    assert_eq!(wrong(Program::Workbench, "--seed"), "unknown argument: --seed");
}
