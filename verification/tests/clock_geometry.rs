//! The partition of clocks, batches, and what the survey's solver makes of
//! geometries that do and do not fix a position.
#![allow(dead_code)]

use acoustic_review::canon::Decimals;
use acoustic_review::db;
use acoustic_review::db::IngestResult;
use acoustic_review::double::Double;
use acoustic_review::figures::{Differences, Distances, Pt};
use acoustic_review::geom::{
    grid_seeds, hyperbola, is_in, is_proper, observability, uncertainty_axes, uncertainty_region,
    Advice, Arc, Normal, Observability, Search, Spread, Step, Tdoa,
};
use acoustic_review::jobs::finish_job;
use acoustic_review::json::{doubles_in, Json};
use acoustic_review::model::{
    BatchInput, Candidate, ClockSegment, JobView, LagInput, ObservationInput, SiteBounds, Station,
};
use acoustic_review::requests::input_for;
use acoustic_review::seeding::batch_value;
use acoustic_review::solver::{
    choose_best, conclude, input_to_json, judge, penalty, plan, screen, solve, solve_hypothesis,
    unjudged, DerivedMeas, Fit, HypResult, Hypothesis, Outcome, Plan, Prediction, Reach, Round,
    SolveOutput, SolverEvent, SolverInput, Trial, Unsolved, Verdict, Workings, CURVE_SCORE,
    LAST_SCORE,
};
use acoustic_review::store::{Fault, Store};
use acoustic_review::synthetic::{build, SeedData};
use acoustic_review::{clock_boundary_case, synthetic_build_minimal, synthetic_three_station_case};

/// A double of the library.
fn dbl(v: f64) -> Double {
    Double { bits: v.to_bits() }
}

/// The number that a double of the library stands for.
fn num(d: Double) -> f64 {
    f64::from_bits(d.bits)
}

fn place(x: f64, y: f64) -> Pt {
    Pt { x: dbl(x), y: dbl(y) }
}

fn dist(a: Pt, b: Pt) -> f64 {
    ((num(a.x) - num(b.x)).powi(2) + (num(a.y) - num(b.y)).powi(2)).sqrt()
}

/// The difference of each pair out of two lists.
fn differences(pairs: &[(f64, f64)]) -> Differences {
    Differences { entries: pairs.iter().map(|(a, b)| (dbl(*a), dbl(*b), dbl(a - b))).collect() }
}

fn all_pairs(values: &[f64]) -> Vec<(f64, f64)> {
    values.iter().flat_map(|a| values.iter().map(move |b| (*a, *b))).collect()
}

/// The doubles of documents as they are written into what is hashed.
fn scientific(values: &[Double]) -> Decimals {
    Decimals { entries: values.iter().map(|v| (v.bits, format!("{:.12e}", num(*v)))).collect() }
}

/// The differences that taking in a batch, or correcting onsets, goes by.
fn clock_differences(store: &Store, batch: &[ObservationInput]) -> Differences {
    let mut pairs = Vec::new();
    for o in batch {
        for old in store.observations.iter().filter(|r| r.station_id == o.station_id) {
            pairs.push((num(o.local_onset_sec), num(old.local_onset_sec)));
            pairs.push((num(old.local_onset_sec), num(o.local_onset_sec)));
        }
        for new in batch.iter().filter(|r| r.station_id == o.station_id) {
            pairs.push((num(o.local_onset_sec), num(new.local_onset_sec)));
        }
    }
    for (c, _) in &store.segments {
        for o in store.observations.iter().filter(|r| r.station_id == c.station_id) {
            pairs.push((num(o.local_onset_sec), num(c.offset_sec)));
        }
        for o in batch.iter().filter(|r| r.station_id == c.station_id) {
            pairs.push((num(o.local_onset_sec), num(c.offset_sec)));
        }
    }
    differences(&pairs)
}

/// The differences of the corrected onsets of an input.
fn onset_differences(input: &SolverInput) -> Differences {
    let onsets: Vec<f64> =
        input.observations.iter().filter_map(|o| o.corrected_onset_sec.map(num)).collect();
    differences(&all_pairs(&onsets))
}

fn residual(m: &Tdoa, x: Pt) -> f64 {
    (dist(x, m.a) - dist(x, m.b)) / num(m.c) - num(m.tau)
}

/// The slope of what a measurement predicts at a place.
fn slope(m: &Tdoa, x: Pt) -> (f64, f64) {
    let da = dist(x, m.a).max(1e-6);
    let db = dist(x, m.b).max(1e-6);
    let (c, w) = (num(m.c), num(m.weight));
    (
        w * ((num(x.x) - num(m.a.x)) / da - (num(x.x) - num(m.b.x)) / db) / c,
        w * ((num(x.y) - num(m.a.y)) / da - (num(x.y) - num(m.b.y)) / db) / c,
    )
}

fn chi2(meas: &[&Tdoa], x: Pt) -> f64 {
    meas.iter()
        .map(|m| {
            let e = residual(m, x) * num(m.weight);
            e * e
        })
        .sum()
}

fn raw_rms(meas: &[&Tdoa], x: Pt) -> f64 {
    let s: f64 = meas
        .iter()
        .map(|m| {
            let r = residual(m, x);
            r * r
        })
        .sum();
    (s / meas.len().max(1) as f64).sqrt()
}

fn solve2(a: f64, b: f64, d: f64, e: f64, f: f64) -> Option<(f64, f64)> {
    let det = a * d - b * b;
    if det.abs() < 1e-18 {
        return None;
    }
    let x = ((e * d - b * f) / det, (a * f - e * b) / det);
    if x.0.is_finite() && x.1.is_finite() {
        Some(x)
    } else {
        None
    }
}

/// Searches for the position that fits best, by damped least squares. What
/// becomes of a step is decided by the library.
fn search(meas: &[&Tdoa], seed: Pt, max_iter: usize) -> Search {
    let mut search = Search::from(seed, max_iter);
    let mut lambda = 1e-3;
    let mut last = f64::MAX;
    while !search.over && search.steps_left > 0 {
        let x = search.at;
        let mut jtj = [0.0f64; 3];
        let mut jtr = [0.0f64; 2];
        for m in meas {
            let r = residual(m, x) * num(m.weight);
            let (gx, gy) = slope(m, x);
            jtr[0] -= gx * r;
            jtr[1] -= gy * r;
            jtj[0] += gx * gx;
            jtj[1] += gx * gy;
            jtj[2] += gy * gy;
        }
        let here = chi2(meas, x);
        let runaway = last * 1e6 + 1e3;
        last = here;
        let step = solve2(
            jtj[0] + lambda * jtj[0].max(1e-12),
            jtj[1],
            jtj[2] + lambda * jtj[2].max(1e-12),
            jtr[0],
            jtr[1],
        );
        let (dx, dy) = step.unwrap_or((0.0, 0.0));
        let next = place(num(x.x) + dx, num(x.y) + dy);
        let advice = search.advance(&Step {
            chi2: dbl(here),
            runaway: dbl(runaway),
            solvable: step.is_some(),
            next,
            next_chi2: dbl(chi2(meas, next)),
            length: dbl(dx.hypot(dy)),
            more_damping: dbl(lambda * 10.0),
        });
        match advice {
            Advice::Accept | Advice::Finish => lambda *= 0.3,
            Advice::Retry | Advice::Diverge => lambda *= 10.0,
        }
    }
    search
}

/// How well the measurements see a place.
fn observed_at(meas: &[&Tdoa], x: Pt) -> Observability {
    let (mut a, mut b, mut d) = (0.0f64, 0.0f64, 0.0f64);
    for m in meas {
        let (gx, gy) = slope(m, x);
        a += gx * gx;
        b += gx * gy;
        d += gy * gy;
    }
    let tr = a + d;
    let disc = ((a - d).powi(2) + 4.0 * b * b).max(0.0).sqrt();
    let (l1, l2) = ((tr + disc) / 2.0, (tr - disc) / 2.0);
    observability(&Normal {
        cross: dbl(b),
        gap: dbl(a - d),
        least: dbl(l2),
        ratio: dbl(l1 / l2),
        direction: dbl(0.5 * (2.0 * b).atan2(a - d)),
    })
}

/// The numbers of the region that a position is uncertain in.
fn region_round(center: Pt, meas: &[&Tdoa], rms_sec: f64, bounds: SiteBounds) -> Round {
    let o = observed_at(meas, center);
    let c = meas.first().map(|m| num(m.c)).unwrap_or(343.0);
    let base = c * rms_sec.max(1e-4) * 3.0;
    let spread = Spread {
        base: dbl(base),
        wide: dbl(base * 100.0),
        scaled: dbl(base * num(o.condition).sqrt().min(100.0)),
    };
    let axes = uncertainty_axes(&o, &spread);
    let (strong, weak) = (num(axes.x), num(axes.y));
    let (s, co) = num(o.angle).sin_cos();
    let corners: Vec<Pt> = (0..48)
        .map(|i| {
            let t = std::f64::consts::TAU * (i as f64) / 48.0;
            let (lx, ly) = (strong * t.cos(), weak * t.sin());
            place(num(center.x) + lx * co - ly * s, num(center.y) + lx * s + ly * co)
        })
        .collect();
    assert!(is_proper(bounds), "min > max, or either was NaN");
    Round { angle: o.angle, spread, corners }
}

/// Where no region is left there is nothing to draw.
fn no_region() -> Round {
    let zero = dbl(0.0);
    let spread = Spread { base: zero, wide: zero, scaled: zero };
    Round { angle: zero, spread, corners: vec![] }
}

/// The numbers of the curve of a single measurement.
fn arc_of(m: &Tdoa, bounds: SiteBounds) -> Arc {
    let steps = 240usize;
    let diff = num(m.tau) * num(m.c);
    let d = dist(m.a, m.b);
    let (ax, ay, bx, by) = (num(m.a.x), num(m.a.y), num(m.b.x), num(m.b.y));
    let mid = ((ax + bx) / 2.0, (ay + by) / 2.0);
    let tau = std::f64::consts::TAU;
    let alpha = ((by - ay).atan2(bx - ax) + tau) % tau;
    let (sin_a, cos_a) = alpha.sin_cos();
    let aa = diff.abs() / 2.0;
    let bb = ((d * d - diff * diff) / 4.0).max(0.0).sqrt();
    let (x0, y0) = (num(bounds.min_x), num(bounds.min_y));
    let (x1, y1) = (num(bounds.max_x), num(bounds.max_y));
    let span = (x1 - x0).hypot(y1 - y0).max(10.0);
    let t_max = (span / aa.max(0.5)).asinh().max(1.0) * 3.0;
    let samples: Vec<Pt> = (0..=steps)
        .map(|i| {
            let t = -t_max + 2.0 * t_max * (i as f64) / (steps as f64);
            let xp = diff.signum() * aa * t.cosh();
            let yp = bb * t.sinh();
            place(mid.0 + xp * cos_a - yp * sin_a, mid.1 + xp * sin_a + yp * cos_a)
        })
        .collect();
    Arc { diff_m: dbl(diff), d: dbl(d), limit: dbl(d - 1e-9), samples }
}

/// The places from which a search starts.
fn seeds(b: SiteBounds, n: usize) -> Vec<Pt> {
    let along = |low: Double, high: Double| -> Vec<Double> {
        (0..n)
            .map(|i| {
                let f = (i as f64 + 0.5) / (n as f64);
                dbl(num(low) + f * (num(high) - num(low)))
            })
            .collect()
    };
    grid_seeds(&along(b.min_x, b.max_x), &along(b.min_y, b.max_y))
}

/// What fits several measurements best.
fn several(event: &SolverEvent, meas: &[DerivedMeas], active: &[usize]) -> Outcome {
    let used: Vec<&Tdoa> = active.iter().map(|i| &meas[*i].tdoa).collect();
    let searches: Vec<Search> =
        seeds(event.bounds, 5).into_iter().map(|s| search(&used, s, 40)).collect();
    let trials: Vec<Trial> =
        searches.iter().map(|s| Trial { at: s.at, rms: dbl(raw_rms(&used, s.at)) }).collect();
    let mut pairs = all_pairs(&trials.iter().map(|t| num(t.rms)).collect::<Vec<_>>());
    pairs.extend(all_pairs(&trials.iter().map(|t| num(t.at.x)).collect::<Vec<_>>()));
    let best = choose_best(&trials, &differences(&pairs));
    let (at, rms) = (trials[best].at, num(trials[best].rms));
    let o = observed_at(&used, at);
    let fit = Fit {
        at,
        rms: dbl(rms),
        diverged: searches[best].diverged,
        lambda_min: o.lambda_min,
        condition: o.condition,
    };
    let verdict = judge(&fit, event.bounds);
    let round = match verdict {
        Verdict::Inconsistent => region_round(at, &used, rms.max(1e-3), event.bounds),
        Verdict::Weak => region_round(at, &used, rms.max(1e-4), event.bounds),
        Verdict::Outside | Verdict::Inside => no_region(),
    };
    let predictions = meas
        .iter()
        .map(|m| {
            let p = (dist(at, m.tdoa.a) - dist(at, m.tdoa.b)) / num(m.tdoa.c);
            Prediction { predicted_sec: dbl(p), residual_sec: dbl(num(m.measured_sec) - p) }
        })
        .collect();
    Outcome::Several { fit, round, penalised: dbl(rms + num(penalty(verdict))), predictions }
}

/// The whole site: its middle, and how far it is to its sides.
fn whole_site(b: SiteBounds) -> Outcome {
    let (x0, y0, x1, y1) = (num(b.min_x), num(b.min_y), num(b.max_x), num(b.max_y));
    Outcome::Nothing {
        center: place((x0 + x1) / 2.0, (y0 + y1) / 2.0),
        semi_axes: place((x1 - x0) / 2.0, (y1 - y0) / 2.0),
    }
}

/// How far each measurement reaches, and how far it may.
fn reaches(meas: &[DerivedMeas]) -> Vec<Reach> {
    meas.iter()
        .map(|m| Reach {
            range: dbl(num(m.tdoa.tau).abs() * num(m.tdoa.c)),
            limit: dbl(dist(m.tdoa.a, m.tdoa.b) + 1e-9),
        })
        .collect()
}

fn outcome_of(
    event: &SolverEvent,
    meas: &Vec<DerivedMeas>,
    reach: &Vec<Reach>,
    hyp: &Hypothesis,
) -> Outcome {
    let active = screen(meas, &hyp.excluded, reach).active;
    match active.len() {
        0 => whole_site(event.bounds),
        1 => Outcome::Single { arc: arc_of(&meas[active[0]].tdoa, event.bounds) },
        _ => several(event, meas, &active),
    }
}

/// The distances of the positions that came out.
fn distances(outcomes: &[Outcome]) -> Distances {
    let at: Vec<Pt> = outcomes
        .iter()
        .filter_map(|o| match o {
            Outcome::Several { fit, .. } => Some(fit.at),
            _ => None,
        })
        .collect();
    let mut entries = Vec::new();
    for a in &at {
        for b in &at {
            let d = (num(a.x) - num(b.x)).hypot(num(a.y) - num(b.y));
            entries.push((*a, *b, dbl(d)));
        }
    }
    Distances { entries }
}

/// The differences of the scores that came out.
fn score_differences(outcomes: &[Outcome]) -> Differences {
    let scores: Vec<f64> = outcomes
        .iter()
        .map(|o| match o {
            Outcome::Nothing { .. } => f64::from_bits(LAST_SCORE),
            Outcome::Single { .. } => f64::from_bits(CURVE_SCORE),
            Outcome::Several { penalised, .. } => num(*penalised),
        })
        .collect();
    differences(&all_pairs(&scores))
}

/// The numbers that a solve goes by.
fn workings(input: &SolverInput) -> Workings {
    let minus = onset_differences(input);
    assert!(unjudged(input, &minus).len() <= 64, "too many reflections to choose from");
    let decimals = scientific(&doubles_in(&input_to_json(input)));
    let plan = plan(input, &minus, &decimals);
    let reach = reaches(&plan.measurements);
    let outcomes: Vec<Outcome> = plan
        .hypotheses
        .iter()
        .map(|h| outcome_of(&input.event, &plan.measurements, &reach, h))
        .collect();
    let apart = distances(&outcomes);
    let gaps = score_differences(&outcomes);
    Workings { minus, decimals, reach, outcomes, apart, gaps }
}


// ---------- Fixtures ----------

fn object(members: Vec<(&str, Json)>) -> Json {
    Json::Object(members.into_iter().map(|(k, v)| (k.to_string(), v)).collect())
}

fn three_stations() -> SeedData {
    let offsets = [0.011, -0.006, 0.002];
    let stations: [(f64, f64); 3] = [(0.0, 0.0), (30.0, 0.0), (15.0, 25.0)];
    let onsets = stations
        .iter()
        .zip(offsets)
        .map(|((x, y), off)| dbl(500.0 + (x - 14.0).hypot(y - 10.0) / 343.0 + off))
        .collect();
    synthetic_three_station_case(&onsets)
}

fn take_in(store: &mut Store, b: &BatchInput) -> IngestResult {
    let raw = batch_value(b);
    let minus = clock_differences(store, &b.observations);
    db::ingest_batch(store, b, &raw, &scientific(&doubles_in(&raw)), &minus, "t").unwrap()
}

fn seed(store: &mut Store, data: &SeedData) {
    for s in &data.stations {
        db::upsert_station(store, s).unwrap();
    }
    for c in &data.clocks {
        db::insert_clock_segment(store, c).unwrap();
    }
    for e in &data.events {
        db::create_event(store, e).unwrap();
    }
    for b in &data.batches {
        take_in(store, b);
    }
}

fn lock(id: i64) -> (&'static str, Json) {
    ("lock_clock", object(vec![("segment_id", Json::Int(id))]))
}

fn solve_with_evidence(
    store: &mut Store,
    event_id: &str,
    evidence: Vec<(&str, Json)>,
) -> Vec<Candidate> {
    for (kind, payload) in evidence {
        db::append_evidence(store, event_id, kind, &payload, "test", "t").unwrap();
    }
    solved(store, event_id, 1).candidates
}

fn solved(store: &Store, event_id: &str, job_id: i64) -> SolveOutput {
    let input = input_for(store, event_id).unwrap();
    solve(&input, workings(&input), job_id).unwrap()
}

// ---------- Clocks ----------

#[test]
fn half_open_segments_boundary_belongs_to_later_segment() {
    let segs = clock_boundary_case();
    let at = db::clock_segments_at(&segs, "S1", dbl(100.0));
    assert_eq!(at.len(), 1, "the boundary belongs to one segment");
    assert!((num(at[0].0.offset_sec) - 0.020).abs() < 1e-12);

    let before = db::clock_segments_at(&segs, "S1", dbl(100.0 - 1e-9));
    assert_eq!(before.len(), 1);
    assert!((num(before[0].0.offset_sec) - 0.010).abs() < 1e-12);
}

#[test]
fn overlapping_segments_rejected_adjacent_allowed() {
    let mut segs = three_stations().clocks;
    assert!(db::validate_clock_partition(&segs).is_ok(), "segments may touch");

    segs.push(ClockSegment {
        station_id: "S1".to_string(),
        t_start: dbl(50.0),
        t_end: Some(dbl(150.0)),
        offset_sec: dbl(0.0),
        source: "bad".to_string(),
    });
    assert!(db::validate_clock_partition(&segs).is_err(), "segments may not overlap");
}

// ---------- Batches ----------

#[test]
fn duplicate_batch_and_duplicate_obs_do_not_double_insert() {
    let mut store = Store::new();
    let data = synthetic_build_minimal();
    for s in &data.stations {
        db::upsert_station(&mut store, s).unwrap();
    }
    for e in &data.events {
        db::create_event(&mut store, e).unwrap();
    }
    for c in &data.clocks {
        db::insert_clock_segment(&mut store, c).unwrap();
    }

    let r1 = take_in(&mut store, &data.batches[0]);
    assert!(matches!(r1, IngestResult::Inserted { .. }));
    let n1 = store.observations.len();

    let r2 = take_in(&mut store, &data.batches[0]);
    assert_eq!(r2, IngestResult::DuplicateBatch);
    let n2 = store.observations.len();
    assert_eq!(n1, n2, "a batch that comes again adds no observation");
}

// ---------- Solving ----------

#[test]
fn locked_clocks_resolve_point_unlocked_is_clock_freedom() {
    let mut store = Store::new();
    seed(&mut store, &three_stations());

    let before = solve_with_evidence(&mut store, "EV", vec![]);
    assert!(
        before.iter().any(|c| c.underdetermined == "clock_freedom" || c.kind != "point"),
        "no point while the clocks are free"
    );

    let ids: Vec<i64> = store.segments.iter().map(|(_, id)| *id).collect();
    let evidence = ids.iter().map(|id| lock(*id)).collect();
    let after = solve_with_evidence(&mut store, "EV", evidence);
    let best = &after[0];
    assert_eq!(best.kind, "point", "three stations with locked clocks give a point");
    let p = best.point.unwrap();
    assert!(
        (num(p.x) - 14.0).abs() < 0.25 && (num(p.y) - 10.0).abs() < 0.25,
        "the point is near the source (14, 10): {:?}",
        p
    );
    assert!(num(best.rms_sec.unwrap()) < 1e-4);
}

#[test]
fn single_tdoa_is_curve_sensor_geometry() {
    let mut store = Store::new();
    seed(&mut store, &three_stations());
    let ids: Vec<i64> = store
        .segments
        .iter()
        .filter(|(s, _)| s.station_id == "S1" || s.station_id == "S2")
        .map(|(_, id)| *id)
        .collect();
    store.observations.retain(|o| o.station_id != "S3");
    store.lags.retain(|l| l.lag.station_id != "S3" && l.lag.peer_id != "S3");
    assert!(store.is_valid());
    let evidence = ids.iter().map(|id| lock(*id)).collect();
    let out = solve_with_evidence(&mut store, "EV", evidence);
    assert_eq!(out[0].kind, "curve");
    assert_eq!(out[0].underdetermined, "sensor_geometry");
    assert!(out[0].curve.as_ref().unwrap().points.len() >= 2);
}

#[test]
fn superluminal_lag_is_marked_not_clamped() {
    let mut store = Store::new();
    let mut data = three_stations();
    data.batches[0].observations[0].lags.push(LagInput {
        peer_id: "S2".to_string(),
        lag_sec: dbl(80.0 / 343.0),
        peak_band_hz: dbl(1000.0),
        snr_db: dbl(2.0),
        hint: "direct".to_string(),
        lag_uid: Some("lag:super".to_string()),
    });
    seed(&mut store, &data);
    let out = solve_with_evidence(&mut store, "EV", vec![]);
    assert!(out.iter().any(|c| c.underdetermined == "unobservable_input"
        || c.residuals.iter().any(|r| r.excluded_reason.as_deref() == Some("superluminal_lag"))));
    for c in &out {
        if let Some(p) = c.point {
            let b = data.events[0].site_bounds;
            let inside = num(p.x) >= num(b.min_x)
                && num(p.x) <= num(b.max_x)
                && num(p.y) >= num(b.min_y)
                && num(p.y) <= num(b.max_y);
            if !inside {
                assert_eq!(c.underdetermined, "outside_observable_geometry");
            }
        }
    }
}

#[test]
fn repeated_solve_has_stable_ranking_ids_and_fingerprint() {
    let mut store = Store::new();
    seed(&mut store, &three_stations());
    let run = |store: &Store| solved(store, "EV", 7);
    let a = run(&store);
    let b = run(&store);
    assert_eq!(a.fingerprint, b.fingerprint, "the same input has the same fingerprint");
    let ids_a: Vec<String> = a.candidates.iter().map(|c| c.candidate_id.clone()).collect();
    let ids_b: Vec<String> = b.candidates.iter().map(|c| c.candidate_id.clone()).collect();
    assert_eq!(ids_a, ids_b, "candidates keep their numbers");
    let sig_a: Vec<&str> = a.candidates.iter().map(|c| c.signature.as_str()).collect();
    let sig_b: Vec<&str> = b.candidates.iter().map(|c| c.signature.as_str()).collect();
    assert_eq!(sig_a, sig_b, "candidates keep their ranks");
}

#[test]
fn evidence_ids_are_append_only_and_sequential() {
    let mut store = Store::new();
    seed(&mut store, &three_stations());
    let segment = object(vec![("segment_id", Json::Int(1))]);
    let id1 = db::append_evidence(&mut store, "EV", "lock_clock", &segment, "a", "t").unwrap();
    let lag = object(vec![("lag_uid", Json::Text("x".to_string()))]);
    let id2 = db::append_evidence(&mut store, "EV", "exclude_reflection", &lag, "b", "t").unwrap();
    assert_eq!(id1, "ev-EV:0001");
    assert_eq!(id2, "ev-EV:0002");
    assert_eq!(store.evidence.len(), 2);
}

#[test]
fn crash_recovery_drops_unfinished_candidates() {
    let mut store = Store::new();
    seed(&mut store, &three_stations());
    let jid = db::enqueue_job(&mut store, "EV", "fp", "t").unwrap();
    store.jobs[0].job.status = "running".to_string();
    store.candidates.push(Candidate {
        candidate_id: "fake".to_string(),
        job_id: jid,
        rank: 1,
        kind: "point".to_string(),
        point: None,
        curve: None,
        region: None,
        rms_sec: None,
        underdetermined: "".to_string(),
        score: dbl(0.0),
        signature: "x".to_string(),
        residuals: vec![],
    });
    assert!(store.is_valid());
    let claimed = db::claim_next_job(&mut store);
    assert_eq!(claimed, Some(jid));
    let n = store.candidates.iter().filter(|c| c.candidate_id == "fake").count();
    assert_eq!(n, 0, "what an unfinished job has found is not left to be shown");
    assert_eq!(store.jobs[0].job.status, "running");
}

// ---------- The seeded site ----------

fn seeded_site() -> SeedData {
    let at = [(0.0f64, 0.0f64), (40.0, 0.0), (0.0, 30.0), (40.0, 30.0)];
    let d = |i: usize, x: f64, y: f64| (at[i].0 - x).hypot(at[i].1 - y);
    let mut onsets = Vec::new();
    for (i, off) in [(0, 0.020), (1, -0.010), (2, 0.000), (3, 0.005)] {
        onsets.push(dbl(1000.0 + d(i, 24.0, 12.0) / 343.0 + off));
    }
    for (i, off) in [(0, 0.012), (2, -0.004)] {
        onsets.push(dbl(2000.0 + d(i, 14.0, 22.0) / 343.0 + off));
    }
    for i in 0..4 {
        onsets.push(dbl(3000.0 + d(i, 10.0, 10.0) / 343.0));
    }
    let lag = |i: usize, extra: f64| dbl((d(i, 24.0, 12.0) + extra - d(1, 24.0, 12.0)) / 343.0);
    let delays = vec![lag(0, 0.0), lag(0, 7.5), lag(1, 0.0), lag(2, 0.0), dbl(60.0 / 343.0)];
    build(&onsets, &delays)
}

#[test]
fn the_seeded_site_shows_a_point_free_clocks_and_an_impossible_delay() {
    let mut store = Store::new();
    seed(&mut store, &seeded_site());
    assert!(store.is_valid());
    assert_eq!((store.stations.len(), store.events.len(), store.batches.len()), (4, 3, 3));

    let a = solve_with_evidence(&mut store, "EV-A", vec![]);
    let p = a[0].point.expect("a point");
    assert!((num(p.x) - 24.0).abs() < 0.5 && (num(p.y) - 12.0).abs() < 0.5, "{:?}", p);

    let b = solve_with_evidence(&mut store, "EV-B", vec![]);
    assert_eq!(b[0].kind, "region");
    assert_eq!(b[0].underdetermined, "clock_freedom");

    let c = solve_with_evidence(&mut store, "EV-C", vec![]);
    assert!(c.iter().all(|x| x.underdetermined == "unobservable_input"));
    assert!(c.iter().all(|x| x.point.is_none() && x.score == dbl(f64::INFINITY)));
}

#[test]
fn an_excluded_reflection_leaves_one_hypothesis() {
    let mut store = Store::new();
    seed(&mut store, &seeded_site());
    let open = solve_with_evidence(&mut store, "EV-A", vec![]);
    assert!(open.iter().any(|c| c.signature == "direct"));
    let uid = Json::Text("lag:B-A:0:1".to_string());
    let judged = vec![("exclude_reflection", object(vec![("lag_uid", uid)]))];
    let after = solve_with_evidence(&mut store, "EV-A", judged);
    assert!(after.iter().all(|c| c.signature == "without:lag:B-A:0:1"));
    assert!(after[0].residuals.iter().any(
        |r| r.excluded_reason.as_deref() == Some("manual_reflection_excluded") && !r.used
    ));
}

#[test]
fn kept_candidates_are_marked_wherever_they_rank() {
    let mut store = Store::new();
    seed(&mut store, &seeded_site());
    let first = solve_with_evidence(&mut store, "EV-A", vec![]);
    assert!(first.len() >= 2, "{:?}", first);
    let ids = vec![
        Json::Text(first[0].candidate_id.clone()),
        Json::Text(first[1].candidate_id.clone()),
    ];
    let keep = vec![("keep_ambiguous", object(vec![("candidate_ids", Json::Array(ids))]))];
    let after = solve_with_evidence(&mut store, "EV-A", keep);
    for c in after.iter() {
        let kept = c.candidate_id == first[0].candidate_id
            || c.candidate_id == first[1].candidate_id;
        assert_eq!(c.underdetermined == "kept_indistinguishable", kept);
    }
}

#[test]
fn new_evidence_changes_the_fingerprint() {
    let mut store = Store::new();
    seed(&mut store, &three_stations());
    let print = |store: &Store| solved(store, "EV", 1).fingerprint;
    let before = print(&store);
    assert_eq!(before.len(), 64);
    solve_with_evidence(&mut store, "EV", vec![lock(1)]);
    assert_ne!(print(&store), before);
}

#[test]
fn a_solved_job_is_shown_and_a_later_unfinished_one_is_not() {
    let mut store = Store::new();
    seed(&mut store, &three_stations());
    let jid = db::enqueue_job(&mut store, "EV", "one", "t").unwrap();
    assert_eq!(db::claim_next_job(&mut store), Some(jid));
    let out = solved(&store, "EV", jid);
    db::complete_job(&mut store, jid, &out.candidates, "u").unwrap();
    let next = db::enqueue_job(&mut store, "EV", "two", "v").unwrap();
    assert_eq!(db::latest_completed_job(&store, "EV"), Some(jid));
    assert_eq!(db::list_candidates(&store, jid).len(), out.candidates.len());
    assert!(db::list_candidates(&store, next).is_empty());
    let jobs: Vec<JobView> = db::list_jobs(&store, "EV");
    assert_eq!(jobs.len(), 2);
    assert_eq!((jobs[0].status.as_str(), jobs[1].status.as_str()), ("completed", "pending"));
}

#[test]
fn a_search_takes_a_step_only_where_it_fits_better() {
    let seed = place(1.0, 2.0);
    let step = Step {
        chi2: dbl(4.0),
        runaway: dbl(1e9),
        solvable: true,
        next: place(3.0, 3.0),
        next_chi2: dbl(1.0),
        length: dbl(1.0),
        more_damping: dbl(0.01),
    };
    let mut s = Search::from(seed, 40);
    assert_eq!(s.advance(&step), Advice::Accept);
    assert_eq!((s.at, s.steps_left, s.over), (place(3.0, 3.0), 39, false));
    let worse = Step { next: place(9.0, 9.0), next_chi2: dbl(5.0), ..step };
    assert_eq!(s.advance(&worse), Advice::Retry);
    assert_eq!(s.at, place(3.0, 3.0));
    let stuck = Step { more_damping: dbl(1e13), ..worse };
    assert_eq!(s.advance(&stuck), Advice::Diverge);
    assert!(s.over && s.diverged);
    let mut t = Search::from(seed, 40);
    assert_eq!(t.advance(&Step { length: dbl(1e-11), ..step }), Advice::Finish);
    assert!(t.over && !t.diverged);
    let mut u = Search::from(seed, 40);
    assert_eq!(u.advance(&Step { runaway: dbl(1.0), ..step }), Advice::Diverge);
    assert_eq!(u.at, seed);
}

#[test]
fn verdicts_go_from_bad_fits_to_good_ones() {
    let b = SiteBounds { min_x: dbl(0.0), min_y: dbl(0.0), max_x: dbl(10.0), max_y: dbl(10.0) };
    let fit = Fit {
        at: place(5.0, 5.0),
        rms: dbl(1e-5),
        diverged: false,
        lambda_min: dbl(1e-6),
        condition: dbl(2.0),
    };
    assert_eq!(judge(&fit, b), Verdict::Inside);
    assert_eq!(judge(&Fit { at: place(11.0, 5.0), ..fit }, b), Verdict::Outside);
    assert_eq!(judge(&Fit { condition: dbl(1e7), ..fit }, b), Verdict::Weak);
    assert_eq!(judge(&Fit { lambda_min: dbl(1e-9), ..fit }, b), Verdict::Weak);
    assert_eq!(judge(&Fit { rms: dbl(0.005), ..fit }, b), Verdict::Inconsistent);
    assert_eq!(judge(&Fit { diverged: true, ..fit }, b), Verdict::Inconsistent);
    let penalties: Vec<f64> =
        [Verdict::Inside, Verdict::Weak, Verdict::Outside, Verdict::Inconsistent]
        .iter()
        .map(|v| num(penalty(*v)))
        .collect();
    assert_eq!(penalties, vec![0.0, 10.0, 1e3, 1e6]);
}

#[test]
fn locking_both_clocks_of_two_stations_leaves_a_curve() {
    let mut store = Store::new();
    seed(&mut store, &seeded_site());
    let onset_at = |o: f64, c: &ClockSegment| {
        num(c.t_start) <= o && c.t_end.map_or(true, |e| o < num(e))
    };
    let evidence: Vec<(&str, Json)> = store
        .segments
        .iter()
        .filter(|(c, _)| (c.station_id == "S1" || c.station_id == "S3") && onset_at(2000.1, c))
        .map(|(_, id)| lock(*id))
        .collect();
    assert_eq!(evidence.len(), 2);
    let out = solve_with_evidence(&mut store, "EV-B", evidence);
    assert_eq!((out[0].kind.as_str(), out[0].underdetermined.as_str()),
        ("curve", "sensor_geometry"));
}

#[test]
fn a_kept_reflection_shows_as_a_region_of_conflicting_paths() {
    let mut store = Store::new();
    seed(&mut store, &seeded_site());
    let out = solve_with_evidence(&mut store, "EV-A", vec![]);
    let direct = out.iter().find(|c| c.signature == "direct").unwrap();
    assert_eq!((direct.kind.as_str(), direct.underdetermined.as_str()), ("region", "multipath"));
}

#[test]
fn the_order_in_which_hypotheses_are_worked_out_does_not_count() {
    let mut store = Store::new();
    seed(&mut store, &seeded_site());
    let input = input_for(&store, "EV-A").unwrap();
    let w = workings(&input);
    let p = plan(&input, &w.minus, &w.decimals);
    let mut results: Vec<HypResult> = p
        .hypotheses
        .iter()
        .zip(workings(&input).outcomes)
        .map(|(h, o)| solve_hypothesis(&input.event, &p.measurements, h, &w.reach, o))
        .collect();
    results.reverse();
    let backwards = conclude(p, results, &w.apart, &w.gaps, "EV-A", 3);
    let forwards = solve(&input, w, 3).unwrap();
    let said = |o: &SolveOutput| -> Vec<(String, i64)> {
        o.candidates.iter().map(|c| (c.candidate_id.clone(), c.rank)).collect()
    };
    assert_eq!(said(&backwards), said(&forwards));
    assert_eq!(backwards.fingerprint, forwards.fingerprint);
    assert!(said(&forwards)[0].0.starts_with("cand-EV-A:j3:"));
    let mut names: Vec<String> = said(&forwards).into_iter().map(|c| c.0).collect();
    names.sort();
    names.dedup();
    assert_eq!(names.len(), forwards.candidates.len());
}

#[test]
fn a_candidate_is_named_by_event_job_hypothesis_and_signature() {
    let mut store = Store::new();
    let mut data = three_stations();
    for event in ["x:j7", "x:j7:01"] {
        for e in data.events.iter_mut() {
            e.event_id = event.to_string();
        }
        for b in data.batches.iter_mut() {
            b.event_id = event.to_string();
            b.batch_uid = format!("batch of {event}");
            for o in b.observations.iter_mut() {
                o.obs_uid = format!("{} of {event}", o.obs_uid);
            }
        }
        seed(&mut store, &data);
        let out = solved(&store, event, 12).candidates;
        let direct = out.iter().find(|c| c.signature == "direct").unwrap();
        // The first eight digits of the SHA-256 of "direct".
        assert_eq!(direct.candidate_id, format!("cand-{event}:j12:01:d15690f0"));
    }
}

#[test]
fn the_order_of_clock_segments_does_not_change_the_fingerprint() {
    let mut store = Store::new();
    seed(&mut store, &seeded_site());
    let mut input = input_for(&store, "EV-A").unwrap();
    assert!(input.clock_segments.len() > 1);
    let before = solve(&input, workings(&input), 1).unwrap().fingerprint;
    input.clock_segments.reverse();
    assert_eq!(solve(&input, workings(&input), 1).unwrap().fingerprint, before);
}

#[test]
fn a_curve_stays_on_the_curve_and_on_the_site() {
    let mut store = Store::new();
    seed(&mut store, &seeded_site());
    let event = input_for(&store, "EV-A").unwrap().event;
    let m = Tdoa {
        a: place(0.0, 0.0),
        b: place(40.0, 0.0),
        tau: dbl(0.02),
        c: dbl(343.0),
        weight: dbl(1.0),
        tag: "t".to_string(),
    };
    let c = hyperbola(m.a, m.b, &arc_of(&m, event.bounds), event.bounds).unwrap();
    assert!(c.points.len() >= 2);
    for p in &c.points {
        assert!(is_in(*p, event.bounds));
        assert!((dist(*p, m.a) - dist(*p, m.b) - 0.02 * 343.0).abs() <= 1e-6);
    }
}

#[test]
fn with_no_measurement_left_the_whole_site_remains() {
    let b = SiteBounds { min_x: dbl(1.0), min_y: dbl(2.0), max_x: dbl(5.0), max_y: dbl(8.0) };
    let event = SolverEvent {
        event_id: "E".to_string(),
        window_start: dbl(0.0),
        window_end: dbl(1.0),
        sound_speed_mps: dbl(343.0),
        bounds: b,
    };
    let hyp = Hypothesis { index: 0, excluded: vec![], signature: "direct".to_string() };
    let r = solve_hypothesis(&event, &vec![], &hyp, &vec![], whole_site(b)).candidate;
    let site = r.region.unwrap();
    assert_eq!((r.kind.as_str(), site.kind.as_str()), ("region", "site"));
    let corners = vec![place(1.0, 2.0), place(5.0, 2.0), place(5.0, 8.0), place(1.0, 8.0)];
    assert_eq!(site.polygon, corners);
    assert_eq!((site.center, site.semi_axes), (place(3.0, 5.0), place(2.0, 3.0)));
    assert_eq!(r.underdetermined, "sensor_geometry");
}

#[test]
fn a_region_needs_a_site_to_be_drawn_onto() {
    let mut store = Store::new();
    seed(&mut store, &seeded_site());
    let mut input = input_for(&store, "EV-A").unwrap();
    let mut w = workings(&input);
    for o in w.outcomes.iter_mut() {
        if let Outcome::Several { fit, penalised, .. } = o {
            fit.diverged = true;
            *penalised = dbl(num(fit.rms) + 1e6);
        }
    }
    input.event.bounds.min_x = dbl(1e9);
    assert_eq!(solve(&input, w, 1).err(), Some(Unsolved::NoSite));
}

#[test]
fn a_solve_is_refused_for_numbers_that_are_not_its_own() {
    let mut store = Store::new();
    seed(&mut store, &seeded_site());
    let input = input_for(&store, "EV-A").unwrap();
    let other = input_for(&store, "EV-C").unwrap();
    assert_eq!(solve(&input, workings(&other), 1).err(), Some(Unsolved::OtherNumbers));
    let mut unpenalised = workings(&input);
    for o in unpenalised.outcomes.iter_mut() {
        if let Outcome::Several { fit, penalised, .. } = o {
            fit.diverged = true;
            *penalised = fit.rms;
        }
    }
    assert_eq!(solve(&input, unpenalised, 1).err(), Some(Unsolved::OtherNumbers));
}

#[test]
fn a_score_that_is_no_number_is_refused_when_the_job_is_completed() {
    let mut store = Store::new();
    seed(&mut store, &seeded_site());
    let id = db::enqueue_job(&mut store, "EV-A", "print", "t").unwrap();
    assert_eq!(db::claim_next_job(&mut store), Some(id));
    let input = input_for(&store, "EV-A").unwrap();
    let mut w = workings(&input);
    for o in w.outcomes.iter_mut() {
        if let Outcome::Several { fit, penalised, .. } = o {
            *penalised = dbl(f64::NAN);
            fit.rms = dbl(f64::NAN);
        }
    }
    let out = solve(&input, w, id).unwrap();
    assert!(out.candidates.iter().any(|c| c.score.is_nan()));
    let ranks: Vec<i64> = out.candidates.iter().map(|c| c.rank).collect();
    assert_eq!(ranks, (1..=out.candidates.len() as i64).collect::<Vec<_>>());
    assert_eq!(
        db::complete_job(&mut store, id, &out.candidates, "u"),
        Err(Fault::CandidateScore)
    );
    assert!(store.candidates.is_empty());
    let why = "NOT NULL constraint failed: candidates.score".to_string();
    assert_eq!(finish_job(&mut store, id, &Ok(out.candidates), "u"), Err(why.clone()));
    let job = &store.jobs[0].job;
    assert_eq!((job.status.as_str(), job.error.as_ref()), ("failed", Some(&why)));
}

#[test]
fn results_rank_by_score_and_then_by_hypothesis() {
    let b = SiteBounds { min_x: dbl(0.0), min_y: dbl(0.0), max_x: dbl(1.0), max_y: dbl(1.0) };
    let event = SolverEvent {
        event_id: "E".to_string(),
        window_start: dbl(0.0),
        window_end: dbl(1.0),
        sound_speed_mps: dbl(343.0),
        bounds: b,
    };
    let none = Differences { entries: vec![] };
    let nowhere = Distances { entries: vec![] };
    let ranked = |scores: &[f64]| -> Vec<String> {
        let hypotheses: Vec<Hypothesis> = (0..scores.len())
            .map(|index| Hypothesis { index, excluded: vec![], signature: format!("h{index}") })
            .collect();
        let results: Vec<HypResult> = hypotheses
            .iter()
            .zip(scores)
            .map(|(h, score)| {
                let mut r = solve_hypothesis(&event, &vec![], h, &vec![], whole_site(b));
                r.candidate.score = dbl(*score);
                r
            })
            .collect();
        let p = Plan {
            fingerprint: String::new(),
            measurements: vec![],
            hypotheses,
            ties: vec![],
        };
        let out = conclude(p, results, &nowhere, &none, "E", 1);
        out.candidates
            .iter()
            .map(|c| c.candidate_id.split(':').nth(2).unwrap().to_string())
            .collect()
    };
    let nan = f64::NAN;
    assert_eq!(ranked(&[5.0, 1.0, 3.0]), vec!["02", "03", "01"]);
    assert_eq!(ranked(&[1.0, 1.0, 0.5]), vec!["03", "01", "02"]);
    assert_eq!(ranked(&[0.0, -0.0]), vec!["01", "02"]);
    assert_eq!(ranked(&[f64::INFINITY, 2.0]), vec!["02", "01"]);
    assert_eq!(ranked(&[nan, 1.0]), vec!["01", "02"]);
    assert_eq!(ranked(&[5.0, nan, 1.0]), vec!["01", "02", "03"]);
    assert_eq!(ranked(&[5.0, 1.0, nan]), vec!["02", "01", "03"]);
    assert_eq!(ranked(&[nan, nan]), vec!["01", "02"]);
}

#[test]
fn a_search_ends_where_it_costs_less_than_at_its_seed() {
    let mut store = Store::new();
    seed(&mut store, &seeded_site());
    let input = input_for(&store, "EV-A").unwrap();
    let w = workings(&input);
    let p = plan(&input, &w.minus, &w.decimals);
    let active = screen(&p.measurements, &p.hypotheses[0].excluded, &w.reach).active;
    let used: Vec<&Tdoa> = active.iter().map(|i| &p.measurements[*i].tdoa).collect();
    assert!(used.len() >= 2);
    for start in seeds(input.event.bounds, 5) {
        let end = search(&used, start, 40);
        assert!(end.over && end.steps_left < 40);
        assert!(end.at == start || chi2(&used, end.at) < chi2(&used, start));
    }
}

#[test]
fn there_is_a_limit_to_the_reflections_to_choose_from() {
    let mut store = Store::new();
    let mut data = three_stations();
    for i in 0..65 {
        data.batches[0].observations[0].lags.push(LagInput {
            peer_id: "S2".to_string(),
            lag_sec: dbl(0.01),
            peak_band_hz: dbl(1000.0),
            snr_db: dbl(2.0),
            hint: "reflection".to_string(),
            lag_uid: Some(format!("r{i}")),
        });
    }
    seed(&mut store, &data);
    let input = input_for(&store, "EV").unwrap();
    let w = Workings {
        minus: onset_differences(&input),
        decimals: Decimals { entries: vec![] },
        reach: vec![],
        outcomes: vec![],
        apart: Distances { entries: vec![] },
        gaps: Differences { entries: vec![] },
    };
    assert_eq!(solve(&input, w, 1).err(), Some(Unsolved::TooManyReflections));
}

#[test]
fn a_place_that_is_hardly_seen_is_uncertain_in_one_direction() {
    let normal = |least: f64| Normal {
        cross: dbl(0.0),
        gap: dbl(1e-16),
        least: dbl(least),
        ratio: dbl(400.0),
        direction: dbl(0.7),
    };
    let blind = observability(&normal(1e-16));
    assert_eq!((blind.condition, blind.angle), (dbl(f64::INFINITY), dbl(0.0)));
    let seen = observability(&Normal { cross: dbl(0.1), ..normal(1e-6) });
    assert_eq!((seen.condition, seen.angle), (dbl(400.0), dbl(0.7)));
    let spread = Spread { base: dbl(0.1), wide: dbl(10.0), scaled: dbl(2.0) };
    assert_eq!(uncertainty_axes(&blind, &spread), place(0.5, 10.0));
    assert_eq!(uncertainty_axes(&seen, &spread), place(0.5, 2.0));
    let b = SiteBounds { min_x: dbl(0.0), min_y: dbl(0.0), max_x: dbl(10.0), max_y: dbl(10.0) };
    let r = uncertainty_region(place(20.0, 5.0), &seen, &spread, &vec![place(20.5, 5.0)], b);
    assert_eq!((r.center, r.semi_axes), (place(20.0, 5.0), place(0.5, 2.0)));
    assert_eq!(r.polygon, vec![place(10.0, 5.0)]);
    let grid = grid_seeds(&vec![dbl(1.0), dbl(2.0)], &vec![dbl(3.0), dbl(4.0)]);
    assert_eq!(grid, vec![place(1.0, 3.0), place(1.0, 4.0), place(2.0, 3.0), place(2.0, 4.0)]);
}

#[test]
fn a_new_observation_or_delay_changes_the_fingerprint() {
    let mut store = Store::new();
    seed(&mut store, &three_stations());
    let before = solved(&store, "EV", 1).fingerprint;
    let late = ObservationInput {
        obs_uid: "obs:late".to_string(),
        station_id: "S1".to_string(),
        local_onset_sec: dbl(500.3),
        peak_band_hz: dbl(1200.0),
        snr_db: dbl(3.0),
        lags: vec![],
    };
    let batch = |uid: &str, o: ObservationInput| BatchInput {
        batch_uid: uid.to_string(),
        event_id: "EV".to_string(),
        observations: vec![o],
    };
    take_in(&mut store, &batch("B2", late));
    let after = solved(&store, "EV", 1).fingerprint;
    assert_ne!(after, before);
    let before = store.lags.len();
    let delayed = ObservationInput {
        obs_uid: "obs:delayed".to_string(),
        station_id: "S2".to_string(),
        local_onset_sec: dbl(500.4),
        peak_band_hz: dbl(1200.0),
        snr_db: dbl(3.0),
        lags: vec![LagInput {
            peer_id: "S1".to_string(),
            lag_sec: dbl(0.01),
            peak_band_hz: dbl(1000.0),
            snr_db: dbl(2.0),
            hint: "direct".to_string(),
            lag_uid: None,
        }],
    };
    take_in(&mut store, &batch("B3", delayed));
    assert_eq!(store.lags.len(), before + 1);
    assert_ne!(solved(&store, "EV", 1).fingerprint, after);
}

#[test]
fn the_candidates_of_an_earlier_job_stay() {
    let mut store = Store::new();
    seed(&mut store, &three_stations());
    let mut ids = Vec::new();
    for print in ["one", "two"] {
        let id = db::enqueue_job(&mut store, "EV", print, "t").unwrap();
        assert_eq!(db::claim_next_job(&mut store), Some(id));
        let out = solved(&store, "EV", id);
        db::complete_job(&mut store, id, &out.candidates, "u").unwrap();
        ids.push((id, out.candidates.len()));
    }
    for (id, n) in ids {
        assert_eq!(db::list_candidates(&store, id).len(), n);
    }
}
