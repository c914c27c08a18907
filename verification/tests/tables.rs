//! The survey's tables: what they refuse, and what stays as it is.
use acoustic_review::canon::Decimals;
use acoustic_review::clocks::{Clash, PartitionFault};
use acoustic_review::db::{
    append_evidence, apply_clock_corrections, claim_next_job, clock_segments_at, complete_job,
    create_event, enqueue_job, fail_job, get_event, ingest_batch, insert_clock_segment,
    list_clock_segments, list_events, list_evidence, list_lags, list_observations, list_stations,
    station_position, upsert_station, validate_clock_partition, IngestResult,
};
use acoustic_review::double::Double;
use acoustic_review::figures::{Differences, Pt};
use acoustic_review::jobs::{finish_job, settle_job};
use acoustic_review::json::{doubles_in, Json};
use acoustic_review::model::{
    BatchInput, Candidate, CandidateResidual, ClockSegment, Curve, EventInput, LagInput,
    ObservationInput, SiteBounds, Station,
};
use acoustic_review::seeding::{batch_value, seed_database};
use acoustic_review::store::{Fault, Store};
use acoustic_review::synthetic_build_minimal;

fn dbl(v: f64) -> Double {
    Double { bits: v.to_bits() }
}

fn num(d: Double) -> f64 {
    f64::from_bits(d.bits)
}

fn station(id: &str) -> Station {
    Station { station_id: id.to_string(), x: dbl(1.0), y: dbl(2.0), label: "l".to_string() }
}

fn event(id: &str) -> EventInput {
    EventInput {
        event_id: id.to_string(),
        label: "l".to_string(),
        window_start: dbl(0.0),
        window_end: dbl(100.0),
        sound_speed_mps: dbl(343.0),
        site_bounds: SiteBounds { min_x: dbl(0.0), min_y: dbl(0.0), max_x: dbl(9.0),
            max_y: dbl(9.0) },
    }
}

fn segment(id: &str, start: f64, end: Option<f64>, offset: f64) -> ClockSegment {
    ClockSegment {
        station_id: id.to_string(),
        t_start: dbl(start),
        t_end: end.map(dbl),
        offset_sec: dbl(offset),
        source: "t".to_string(),
    }
}

fn observation(uid: &str, station: &str, onset: f64) -> ObservationInput {
    ObservationInput {
        obs_uid: uid.to_string(),
        station_id: station.to_string(),
        local_onset_sec: dbl(onset),
        peak_band_hz: dbl(900.0),
        snr_db: dbl(12.0),
        lags: vec![],
    }
}

fn lag(peer: &str, uid: Option<&str>) -> LagInput {
    LagInput {
        peer_id: peer.to_string(),
        lag_sec: dbl(0.01),
        peak_band_hz: dbl(900.0),
        snr_db: dbl(3.0),
        hint: "direct".to_string(),
        lag_uid: uid.map(|s| s.to_string()),
    }
}

fn batch(uid: &str, observations: Vec<ObservationInput>) -> BatchInput {
    BatchInput { batch_uid: uid.to_string(), event_id: "E".to_string(), observations }
}

/// The differences of every two of some numbers.
fn minus(values: &[f64]) -> Differences {
    let mut entries = Vec::new();
    for a in values {
        for b in values {
            entries.push((dbl(*a), dbl(*b), dbl(a - b)));
        }
    }
    Differences { entries }
}

fn take_in(store: &mut Store, b: &BatchInput, d: &Differences) -> Result<IngestResult, Fault> {
    let raw = batch_value(b);
    let decimals = Decimals {
        entries: doubles_in(&raw).iter().map(|v| (v.bits, format!("{:.12e}", num(*v)))).collect(),
    };
    ingest_batch(store, b, &raw, &decimals, d, "now")
}

fn site() -> Store {
    let mut store = Store::new();
    upsert_station(&mut store, &station("S1")).unwrap();
    upsert_station(&mut store, &station("S2")).unwrap();
    create_event(&mut store, &event("E")).unwrap();
    store
}

fn candidate(id: &str, rank: i64, score: f64) -> Candidate {
    Candidate {
        candidate_id: id.to_string(),
        job_id: 0,
        rank,
        kind: "point".to_string(),
        point: None,
        curve: None,
        region: None,
        rms_sec: Some(dbl(f64::NAN)),
        underdetermined: "".to_string(),
        score: dbl(score),
        signature: "direct".to_string(),
        residuals: vec![],
    }
}

#[test]
fn stations_are_replaced_and_listed_by_name() {
    let mut store = site();
    let moved = Station { x: dbl(5.0), ..station("S1") };
    assert_eq!(upsert_station(&mut store, &moved), Ok(()));
    assert_eq!(store.stations.len(), 2);
    assert_eq!(station_position(&store, "S1"), Some((dbl(5.0), dbl(2.0))));
    assert_eq!(station_position(&store, "S9"), None);
    let listed: Vec<String> = list_stations(&store).into_iter().map(|s| s.station_id).collect();
    assert_eq!(listed, vec!["S1", "S2"]);
    let lost = Station { y: dbl(f64::NAN), ..station("S3") };
    assert_eq!(upsert_station(&mut store, &lost), Err(Fault::StationY));
    let lost = Station { x: dbl(f64::NAN), ..station("S3") };
    assert_eq!(upsert_station(&mut store, &lost), Err(Fault::StationX));
    assert_eq!(store.stations.len(), 2);
}

#[test]
fn events_need_all_their_numbers() {
    let nan = dbl(f64::NAN);
    let b = event("X").site_bounds;
    let cases = vec![
        (EventInput { window_start: nan, ..event("X") }, Fault::EventStart, "events.window_start"),
        (EventInput { window_end: nan, ..event("X") }, Fault::EventEnd, "events.window_end"),
        (EventInput { sound_speed_mps: nan, ..event("X") }, Fault::EventSpeed,
            "events.sound_speed_mps"),
        (
            EventInput { site_bounds: SiteBounds { min_x: nan, ..b }, ..event("X") },
            Fault::EventMinX,
            "events.bounds_min_x",
        ),
        (
            EventInput { site_bounds: SiteBounds { min_y: nan, ..b }, ..event("X") },
            Fault::EventMinY,
            "events.bounds_min_y",
        ),
        (
            EventInput { site_bounds: SiteBounds { max_x: nan, ..b }, ..event("X") },
            Fault::EventMaxX,
            "events.bounds_max_x",
        ),
        (
            EventInput { site_bounds: SiteBounds { max_y: nan, ..b }, ..event("X") },
            Fault::EventMaxY,
            "events.bounds_max_y",
        ),
    ];
    let mut store = site();
    for (e, fault, column) in cases {
        assert_eq!(create_event(&mut store, &e), Err(fault));
        assert_eq!(fault.message(), format!("NOT NULL constraint failed: {column}"));
    }
    assert_eq!(list_events(&store).len(), 1);
    assert_eq!(get_event(&store, "E").unwrap().label, "l");
    assert!(get_event(&store, "X").is_none());
}

#[test]
fn segments_need_a_station_and_a_start_of_their_own() {
    let mut store = site();
    assert_eq!(insert_clock_segment(&mut store, &segment("S1", 0.0, Some(60.0), 0.5)), Ok(1));
    assert_eq!(insert_clock_segment(&mut store, &segment("S1", 60.0, None, 0.25)), Ok(2));
    let stranger = insert_clock_segment(&mut store, &segment("S9", 0.0, None, 0.0));
    assert_eq!(stranger, Err(Fault::ForeignKey));
    assert_eq!(Fault::ForeignKey.message(), "FOREIGN KEY constraint failed");
    let nan = insert_clock_segment(&mut store, &segment("S1", f64::NAN, None, 0.0));
    assert_eq!(nan, Err(Fault::SegmentStart));
    let nan = insert_clock_segment(&mut store, &segment("S1", 70.0, None, f64::NAN));
    assert_eq!(nan, Err(Fault::SegmentOffset));
    let listed = list_clock_segments(&store);
    assert_eq!(listed.len(), 2);
    assert_eq!(clock_segments_at(&listed, "S1", dbl(59.999)).len(), 1);
    assert_eq!(clock_segments_at(&listed, "S1", dbl(60.0))[0].1, 2);
    assert!(clock_segments_at(&listed, "S2", dbl(1.0)).is_empty());
}

#[test]
fn a_partition_has_no_overlap_and_no_common_start() {
    let shown = Decimals {
        entries: [0.0f64, 50.0, 60.0].iter().map(|v| (v.to_bits(), format!("{v}"))).collect(),
    };
    let refused = |segs: Vec<ClockSegment>| -> PartitionFault {
        validate_clock_partition(&segs).unwrap_err()
    };
    let overlap =
        refused(vec![segment("S1", 50.0, None, 0.0), segment("S1", 0.0, Some(60.0), 0.0)]);
    assert_eq!(overlap.clash, Clash::Overlap);
    assert!(overlap.message(&shown).starts_with("station S1"), "{}", overlap.message(&shown));
    let open = refused(vec![segment("S1", 0.0, None, 0.0), segment("S1", 60.0, None, 0.0)]);
    assert_eq!(open.clash, Clash::Overlap);
    let twice =
        refused(vec![segment("S1", 0.0, Some(0.0), 0.0), segment("S1", 0.0, Some(50.0), 0.0)]);
    assert_eq!(twice.clash, Clash::SameStart);
    let fine = vec![
        segment("S1", 0.0, Some(60.0), 0.0),
        segment("S2", 0.0, None, 0.0),
        segment("S1", 60.0, None, 0.0),
    ];
    assert!(validate_clock_partition(&fine).is_ok());
}

#[test]
fn onsets_are_corrected_and_stay_as_they_were_measured() {
    let mut store = site();
    insert_clock_segment(&mut store, &segment("S1", 0.0, Some(60.0), 0.5)).unwrap();
    let d = minus(&[0.5, 0.25, 30.0, 70.0]);
    let b = batch("B", vec![observation("o1", "S1", 30.0), observation("o2", "S1", 70.0)]);
    assert_eq!(take_in(&mut store, &b, &d), Ok(IngestResult::Inserted { observations_added: 2 }));
    assert_eq!(store.observations[0].corrected_onset_sec, Some(dbl(29.5)));
    assert!(store.observations[0].clock_locked);
    assert_eq!(store.observations[1].corrected_onset_sec, None);
    assert!(!store.observations[1].clock_locked);
    insert_clock_segment(&mut store, &segment("S1", 60.0, None, 0.25)).unwrap();
    apply_clock_corrections(&mut store, &d);
    assert_eq!(store.observations[1].corrected_onset_sec, Some(dbl(69.75)));
    assert_eq!(store.observations[1].local_onset_sec, dbl(70.0));
    let order: Vec<String> =
        list_observations(&store, "E").into_iter().map(|o| o.obs_uid).collect();
    assert_eq!(order, vec!["o1", "o2"]);
}

#[test]
fn reports_that_come_again_are_recorded_as_duplicates() {
    let mut store = site();
    let d = minus(&[30.0, 30.000004, 31.0]);
    let list = vec![
        observation("o1", "S1", 30.0),
        observation("o2", "S1", 30.000004),
        observation("o3", "S2", 30.0),
        observation("o3", "S2", 31.0),
    ];
    let b = batch("B", list);
    assert_eq!(take_in(&mut store, &b, &d), Ok(IngestResult::Inserted { observations_added: 3 }));
    let twins: Vec<Option<&str>> =
        store.observations.iter().map(|o| o.duplicate_of.as_deref()).collect();
    assert_eq!(twins, vec![None, Some("o1"), Some("o3")]);
    assert_eq!(take_in(&mut store, &b, &d), Ok(IngestResult::DuplicateBatch));
    assert_eq!(store.batches[0].duplicate_count, 1);
    assert_eq!(store.observations.len(), 3);
    assert!(store.is_valid());
}

#[test]
fn a_batch_is_taken_in_whole_or_not_at_all() {
    let mut store = site();
    let d = minus(&[]);
    let nan = f64::NAN;
    let with = |o: ObservationInput| batch("B", vec![observation("ok", "S1", 1.0), o]);
    let cases = vec![
        (with(observation("x", "S9", 2.0)), Fault::ForeignKey),
        (with(observation("x", "S1", nan)), Fault::ObservationOnset),
        (
            with(ObservationInput { peak_band_hz: dbl(nan), ..observation("x", "S1", 2.0) }),
            Fault::ObservationBand,
        ),
        (
            with(ObservationInput { snr_db: dbl(nan), ..observation("x", "S1", 2.0) }),
            Fault::ObservationSnr,
        ),
        (
            with(ObservationInput { lags: vec![lag("S9", None)], ..observation("x", "S1", 2.0) }),
            Fault::ForeignKey,
        ),
    ];
    for (b, fault) in cases {
        assert_eq!(take_in(&mut store, &b, &d), Err(fault));
        assert!(store.batches.is_empty() && store.observations.is_empty() && store.lags.is_empty());
    }
    let elsewhere = BatchInput { event_id: "F".to_string(), ..batch("B", vec![]) };
    assert_eq!(take_in(&mut store, &elsewhere, &d), Err(Fault::ForeignKey));
    assert_eq!(Fault::ObservationSnr.message(), "NOT NULL constraint failed: observations.snr_db");
}

#[test]
fn delays_without_a_name_are_given_one() {
    let mut store = site();
    let lags = vec![lag("S2", None), lag("S2", Some("own")), lag("S2", Some("own"))];
    let b = batch("B", vec![ObservationInput { lags, ..observation("o1", "S1", 1.0) }]);
    take_in(&mut store, &b, &minus(&[1.0])).unwrap();
    let named: Vec<String> = list_lags(&store, "E").into_iter().map(|l| l.lag_uid).collect();
    assert_eq!(named, vec!["lag:B:o1:0:S2", "own"]);
}

#[test]
fn the_order_of_observations_does_not_name_delays() {
    let first = || ObservationInput {
        lags: vec![lag("S2", None), lag("S2", None)],
        ..observation("o1", "S1", 1.0)
    };
    let second =
        || ObservationInput { lags: vec![lag("S1", None)], ..observation("o2", "S2", 2.0) };
    let names = |list: Vec<ObservationInput>| {
        let mut store = site();
        take_in(&mut store, &batch("B", list), &minus(&[1.0, 2.0])).unwrap();
        let mut named: Vec<(String, String)> =
            list_lags(&store, "E").into_iter().map(|l| (l.obs_uid, l.lag_uid)).collect();
        named.sort();
        named
    };
    let forwards = names(vec![first(), second()]);
    assert_eq!(forwards, names(vec![second(), first()]));
    let want: Vec<&str> = vec!["lag:B:o1:0:S2", "lag:B:o1:1:S2", "lag:B:o2:0:S1"];
    assert_eq!(forwards.iter().map(|n| n.1.as_str()).collect::<Vec<_>>(), want);
}

#[test]
fn evidence_is_numbered_in_its_event() {
    let mut store = site();
    create_event(&mut store, &event("F")).unwrap();
    let put =
        |store: &mut Store, e: &str| append_evidence(store, e, "lock_clock", &Json::Null, "b", "t");
    assert_eq!(put(&mut store, "E").unwrap(), "ev-E:0001");
    assert_eq!(put(&mut store, "F").unwrap(), "ev-F:0001");
    assert_eq!(put(&mut store, "E").unwrap(), "ev-E:0002");
    assert_eq!(put(&mut store, "G"), Err(Fault::ForeignKey));
    assert_eq!(list_evidence(&store, "E").len(), 2);
    store.evidence[0].evidence_id = "ev-E:0003".to_string();
    assert!(store.is_valid());
    assert_eq!(put(&mut store, "E"), Err(Fault::TakenEvidence));
    assert_eq!(store.evidence.len(), 3);
}

#[test]
fn jobs_are_used_again_unless_they_failed() {
    let mut store = site();
    let id = enqueue_job(&mut store, "E", "fp", "t").unwrap();
    assert_eq!(enqueue_job(&mut store, "E", "fp", "t"), Ok(id));
    assert_eq!(claim_next_job(&mut store), Some(id));
    fail_job(&mut store, id, "broken", "u");
    assert_eq!(store.jobs[0].job.error.as_deref(), Some("broken"));
    assert_eq!(claim_next_job(&mut store), None);
    assert_eq!(enqueue_job(&mut store, "E", "fp", "t"), Ok(id + 1));
    assert_eq!(enqueue_job(&mut store, "X", "fp", "t"), Err(Fault::ForeignKey));
    store.last_job = i64::MAX;
    assert!(store.is_valid());
    assert_eq!(enqueue_job(&mut store, "E", "more", "t"), Err(Fault::Full));
    assert_eq!(Fault::Full.message(), "database or disk is full");
}

#[test]
fn a_job_is_completed_with_all_its_candidates_or_fails() {
    let mut store = site();
    let id = enqueue_job(&mut store, "E", "one", "t").unwrap();
    claim_next_job(&mut store);
    let twice = vec![candidate("c", 1, 0.5), candidate("c", 2, 0.5)];
    assert_eq!(complete_job(&mut store, id, &twice, "u"), Err(Fault::TakenCandidate));
    assert!(store.candidates.is_empty());
    assert_eq!(store.jobs[0].job.status, "running");
    let unscored = vec![candidate("c", 1, f64::NAN)];
    assert_eq!(settle_job(&mut store, id, &unscored, "u"), Err(Fault::CandidateScore));
    assert_eq!(store.jobs[0].job.status, "failed");
    assert_eq!(
        store.jobs[0].job.error.as_deref(),
        Some("NOT NULL constraint failed: candidates.score")
    );
    let third = enqueue_job(&mut store, "E", "other", "t").unwrap();
    claim_next_job(&mut store);
    let none: Result<Vec<Candidate>, String> = Err("event missing".to_string());
    assert_eq!(finish_job(&mut store, third, &none, "u"), Err("event missing".to_string()));
    assert_eq!(store.jobs[1].job.error.as_deref(), Some("event missing"));
    let next = enqueue_job(&mut store, "E", "one", "t").unwrap();
    claim_next_job(&mut store);
    let fine = vec![candidate("d", 1, 0.5), candidate("e", 2, 0.75)];
    assert_eq!(finish_job(&mut store, next, &Ok(fine), "u"), Ok(()));
    assert_eq!(store.jobs[2].job.status, "completed");
    assert_eq!(store.candidates.len(), 2);
    assert_eq!((store.candidates[0].job_id, store.candidates[0].rms_sec), (next, None));
}

#[test]
fn what_is_not_finite_is_not_kept() {
    let mut store = site();
    let id = enqueue_job(&mut store, "E", "one", "t").unwrap();
    claim_next_job(&mut store);
    let residual = |measured: f64, predicted: f64| CandidateResidual {
        kind: "ccf_lag".to_string(),
        lag_uid: None,
        station_id: "S1".to_string(),
        peer_id: None,
        measured_sec: dbl(measured),
        predicted_sec: Some(dbl(predicted)),
        residual_sec: Some(dbl(1.0)),
        weight: dbl(1.0),
        used: true,
        excluded_reason: None,
    };
    let at = |x: f64| Pt { x: dbl(x), y: dbl(0.0) };
    let curve = |x: f64| Curve {
        kind: "hyperbola".to_string(),
        focus_a: at(0.0),
        focus_b: at(1.0),
        difference_m: dbl(0.5),
        points: vec![at(2.0), at(x)],
    };
    let mut first = candidate("a", 1, 0.5);
    first.residuals = vec![residual(1.0, 2.0), residual(1.0, f64::INFINITY)];
    first.curve = Some(curve(3.0));
    let mut second = candidate("b", 2, 0.5);
    second.residuals = vec![residual(1.0, 2.0), residual(f64::NAN, 2.0)];
    second.curve = Some(curve(f64::NAN));
    complete_job(&mut store, id, &vec![first, second], "u").unwrap();
    let kept: Vec<Option<Double>> =
        store.candidates[0].residuals.iter().map(|r| r.predicted_sec).collect();
    assert_eq!(kept, vec![Some(dbl(2.0)), None]);
    assert!(store.candidates[0].curve.is_some());
    assert!(store.candidates[1].residuals.is_empty() && store.candidates[1].curve.is_none());
}

#[test]
fn a_site_is_seeded_from_its_data() {
    let mut store = Store::new();
    let data = synthetic_build_minimal();
    let d = Decimals {
        entries: [0.0f64, 1.0, 10.0, 1000.0]
            .iter()
            .map(|v| (v.to_bits(), format!("{v:.12e}")))
            .collect(),
    };
    assert_eq!(seed_database(&mut store, &data, &d, &minus(&[0.0, 1.0]), "t"), Ok(()));
    assert_eq!((store.stations.len(), store.segments.len(), store.observations.len()), (1, 1, 1));
    assert_eq!(store.observations[0].corrected_onset_sec, Some(dbl(1.0)));
    assert_eq!(store.batches[0].payload_fingerprint.len(), 64);
}

#[test]
fn tables_that_break_a_rule_are_not_valid() {
    let mut store = site();
    let d = minus(&[1.0]);
    take_in(&mut store, &batch("B", vec![observation("o1", "S1", 1.0)]), &d).unwrap();
    assert!(store.is_valid());
    store.observations[0].clock_locked = true;
    assert!(!store.is_valid());
    store.observations[0].clock_locked = false;
    store.stations.remove(0);
    assert!(!store.is_valid());
}
