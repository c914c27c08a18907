//! Which measurements a solve goes by.
use acoustic_review::double::Double;
use acoustic_review::figures::{Differences, Pt};
use acoustic_review::geom::{clamp_pt, hyperbola, Arc, Tdoa};
use acoustic_review::json::Json;
use acoustic_review::model::{EvidenceRow, ObservationRow, SiteBounds};
use acoustic_review::solver::{
    active_subjects, choose_best, clock_freedom_dominates, enumerate_hypotheses,
    has_reflection_tension, roster, screen, tiebreak, DerivedMeas, Reach, SolverEvent, Trial,
};

fn dbl(v: f64) -> Double {
    Double { bits: v.to_bits() }
}

fn at(x: f64, y: f64) -> Pt {
    Pt { x: dbl(x), y: dbl(y) }
}

fn names(list: &[&str]) -> Vec<String> {
    list.iter().map(|s| s.to_string()).collect()
}

#[test]
fn hypotheses_start_with_what_was_excluded() {
    let h = enumerate_hypotheses(&names(&["r2", "r1"]), &names(&["r1", "other"]));
    let said: Vec<(usize, &str)> = h.iter().map(|x| (x.index, x.signature.as_str())).collect();
    assert_eq!(said, vec![(0, "without:r1"), (1, "without:r1,r2"), (2, "without:r1")]);
}

#[test]
fn without_reflections_everything_is_direct() {
    let h = enumerate_hypotheses(&vec![], &vec![]);
    assert_eq!(h.len(), 2);
    assert!(h.iter().all(|x| x.signature == "direct" && x.excluded.is_empty()));
}

#[test]
fn there_are_at_most_24_hypotheses() {
    let many: Vec<String> = (0..9).map(|i| format!("r{i}")).collect();
    let h = enumerate_hypotheses(&many, &vec![]);
    assert_eq!(h.len(), 24);
    assert_eq!(h[0].signature, "direct");
    assert_eq!(h[1].excluded.len(), 9);
    assert_eq!(h[2].signature, "without:r1,r2,r3,r4,r5,r6,r7,r8");
    assert_eq!(h[23].index, 23);
}

fn judgement(id: &str, kind: &str, key: &str, v: Json) -> EvidenceRow {
    EvidenceRow {
        evidence_id: id.to_string(),
        event_id: "E".to_string(),
        kind: kind.to_string(),
        payload: Json::Object(vec![(key.to_string(), v)]),
        basis: "b".to_string(),
        created_at: "t".to_string(),
        superseded_by: None,
        active: true,
    }
}

#[test]
fn judgements_name_their_subjects() {
    let text = |s: &str| Json::Text(s.to_string());
    let list = vec![
        judgement("1", "exclude_reflection", "lag_uid", text("z")),
        judgement("2", "exclude_reflection", "lag_uid", text("a")),
        judgement("3", "exclude_reflection", "lag_uid", Json::Int(4)),
        judgement("4", "lock_clock", "segment_id", Json::Int(10)),
        judgement("5", "lock_clock", "segment_id", Json::UInt(2)),
        judgement("6", "lock_clock", "segment_id", text("2")),
        judgement("7", "keep_ambiguous", "candidate_ids", Json::Array(vec![text("p"), text("q")])),
        judgement("8", "keep_ambiguous", "candidate_ids", Json::Array(vec![text("p")])),
        judgement("9", "nothing", "lag_uid", text("y")),
    ];
    let s = active_subjects(&list);
    assert_eq!(s.excluded_lags, names(&["a", "z"]));
    let mut locked = s.locked_segments.clone();
    locked.sort();
    assert_eq!(locked, vec![2, 10]);
    assert_eq!(s.ties, vec![("p".to_string(), "q".to_string())]);
}

fn observation(uid: &str, station: &str, onset: f64, twin: Option<&str>) -> ObservationRow {
    ObservationRow {
        obs_uid: uid.to_string(),
        batch_uid: "B".to_string(),
        event_id: "E".to_string(),
        station_id: station.to_string(),
        local_onset_sec: dbl(onset),
        corrected_onset_sec: None,
        clock_locked: false,
        clock_segment_id: None,
        peak_band_hz: dbl(1.0),
        snr_db: dbl(1.0),
        duplicate_of: twin.map(|s| s.to_string()),
    }
}

#[test]
fn each_station_is_heard_once_and_in_the_window() {
    let e = SolverEvent {
        event_id: "E".to_string(),
        window_start: dbl(10.0),
        window_end: dbl(20.0),
        sound_speed_mps: dbl(343.0),
        bounds: SiteBounds { min_x: dbl(0.0), min_y: dbl(0.0), max_x: dbl(1.0), max_y: dbl(1.0) },
    };
    let obs = vec![
        observation("o3", "S2", 12.0, None),
        observation("o2", "S2", 13.0, None),
        observation("o1", "S2", 14.0, Some("o2")),
        observation("o4", "S1", 20.0, None),
        observation("o5", "S1", 10.0, None),
        observation("o6", "S3", 9.0, None),
    ];
    assert_eq!(roster(&obs, &e), vec![4, 1]);
}

fn measurement(kind: &str, uid: Option<&str>, reflection: bool, locked: bool) -> DerivedMeas {
    DerivedMeas {
        tdoa: Tdoa {
            a: at(0.0, 0.0),
            b: at(10.0, 0.0),
            tau: dbl(0.01),
            c: dbl(343.0),
            weight: dbl(1.0),
            tag: "t".to_string(),
        },
        kind: kind.to_string(),
        lag_uid: uid.map(|s| s.to_string()),
        station_id: "S1".to_string(),
        peer_id: Some("S2".to_string()),
        measured_sec: dbl(0.01),
        reflection,
        clock_locked: locked,
    }
}

#[test]
fn measurements_are_left_out_for_a_reason() {
    let meas = vec![
        measurement("ccf_lag", Some("r"), true, true),
        measurement("onset_pair", None, false, false),
        measurement("ccf_lag", Some("s"), false, true),
        measurement("ccf_lag", Some("t"), true, true),
    ];
    let reach = |range: f64| Reach { range: dbl(range), limit: dbl(10.0) };
    let s = screen(&meas, &names(&["r"]),
        &vec![reach(99.0), reach(99.0), reach(10.5), reach(10.0)]);
    let reasons: Vec<Option<&str>> = s.reasons.iter().map(|r| r.as_deref()).collect();
    assert_eq!(
        reasons,
        vec![
            Some("manual_reflection_excluded"),
            Some("clock_segment_unlocked"),
            Some("superluminal_lag"),
            None
        ]
    );
    assert_eq!(s.active, vec![3]);
    assert!(has_reflection_tension(&meas, &s.used));
    assert!(!clock_freedom_dominates(&meas));
    assert!(clock_freedom_dominates(&vec![measurement("onset_pair", None, false, false)]));
    assert!(!clock_freedom_dominates(&vec![measurement("onset_pair", None, false, true)]));
}

fn gaps(values: &[f64]) -> Differences {
    let mut entries = Vec::new();
    for a in values {
        for b in values {
            entries.push((dbl(*a), dbl(*b), dbl(a - b)));
        }
    }
    Differences { entries }
}

#[test]
fn the_best_trial_is_the_leftmost_of_equals() {
    let minus = gaps(&[1e-3, 1e-3 + 1e-14, 2e-3, 4.0, 5.0, 6.0]);
    let trial = |x: f64, rms: f64| Trial { at: at(x, 0.0), rms: dbl(rms) };
    let trials = vec![trial(5.0, 2e-3), trial(6.0, 1e-3), trial(4.0, 1e-3 + 1e-14)];
    assert_eq!(choose_best(&trials, &minus), 2);
    assert_eq!(choose_best(&vec![trial(4.0, 2e-3), trial(5.0, 1e-3)], &minus), 1);
    assert!(tiebreak(at(4.0, 9.0), at(5.0, 1.0), &minus));
    assert!(tiebreak(at(4.0, 1.0), at(4.0, 9.0), &minus));
    assert!(!tiebreak(at(4.0, 9.0), at(4.0, 1.0), &minus));
}

#[test]
fn places_are_drawn_onto_the_site_and_impossible_curves_are_none() {
    let b = SiteBounds { min_x: dbl(0.0), min_y: dbl(0.0), max_x: dbl(10.0), max_y: dbl(10.0) };
    assert_eq!(clamp_pt(at(-3.0, 12.0), b), at(0.0, 10.0));
    assert_eq!(clamp_pt(at(3.0, 2.0), b), at(3.0, 2.0));
    let arc = |diff: f64, limit: f64, samples: Vec<Pt>| Arc {
        diff_m: dbl(diff),
        d: dbl(10.0),
        limit: dbl(limit),
        samples,
    };
    let samples = || vec![
        at(1.0, 1.0),
        at(-5.0, 3.0),
        at(50.0, 3.0),
        at(f64::NAN, 1.0),
        at(10.0, 10.0),
    ];
    let (p, q) = (at(0.0, 0.0), at(10.0, 0.0));
    let curve = |diff: f64| hyperbola(p, q, &arc(diff, 10.0 - 1e-9, samples()), b);
    let c = curve(4.0).unwrap();
    assert_eq!(c.kind, "hyperbola");
    assert_eq!(c.points, vec![at(1.0, 1.0), at(10.0, 10.0)]);
    assert!(curve(10.0).is_none() && curve(-12.0).is_none() && curve(f64::NAN).is_none());
    let few = vec![at(1.0, 1.0), at(-1.0, 1.0)];
    assert!(hyperbola(p, q, &arc(4.0, 9.0, few), b).is_none());
}
