//! The workbench: clock segments, solving, judgements, and what is kept.
#![allow(dead_code)]

use acoustic_review::canon::Decimals;
use acoustic_review::double::Double;
use acoustic_review::figures::{Differences, Distances, Pt, Wholes};
use acoustic_review::json::{doubles_in, Json};
use acoustic_review::workbench::clock;
use acoustic_review::workbench::clock::FREE_CLOCK_SIGMA;
use acoustic_review::workbench::db::Db;
use acoustic_review::workbench::edges::{
    all_edge_views, legs, prepare_edges, Corrected, Edge, EdgeRow,
};
use acoustic_review::workbench::evidence::add_evidence;
use acoustic_review::workbench::fitting::{
    choose_reference, first_measured, in_domain, multipath_scenarios, region_reason,
    scenario_edges, timely_edges, Fit, FullSystem, LineSystem, Move, Next, Predicted, Refinement,
    Root, Sample, ShortSystem, System,
};
use acoustic_review::workbench::ingest::{batch_value, fingerprint_of, ingest, IngestResult};
use acoustic_review::workbench::jobs::{
    crash_after_running, enqueue_and_run, fingerprint, snapshot_value, RunOutcome, Times,
};
use acoustic_review::workbench::linalg::{
    free_axis, spokes, Elimination, Pivot, SolveResult, Spoke,
};
use acoustic_review::workbench::models::{
    ClockSegment, ClockSegmentReq, CreateEventReq, CreateStationReq, EvidenceReq, IngestObs,
    IngestReq, IngestXcorr,
};
use acoustic_review::workbench::picture::{
    build_snapshot, linked_observations, onset_pairs, stations_in_event,
};
use acoustic_review::workbench::service;
use acoustic_review::workbench::service::{default_model, Given};
use acoustic_review::workbench::snapshot::{
    CandidateOut, EdgeObs, Snapshot, StationClock, StationInfo,
};
use acoustic_review::workbench::solver;
use acoustic_review::workbench::solver::{Figures, OtherNumbers};
use acoustic_review::workbench::synth;
use acoustic_review::workbench::synth::{
    Rng, SynthNumbers, DELAY_SIGMA, DRIFT_BAND, DRIFT_SNR, IMPACT_SIGMA, MIRROR_BAND, MIRROR_SNR,
    SOUND_SPEED, TWIN_BAND, TWIN_SNR,
};

/// A double of the library.
fn dbl(v: f64) -> Double {
    Double { bits: v.to_bits() }
}

/// The number that a double of the library stands for.
fn num(d: Double) -> f64 {
    f64::from_bits(d.bits)
}

fn place(x: f64, y: f64) -> Pt {
    Pt { x: dbl(x), y: dbl(y) }
}

/// Doubles as they are written into documents.
fn json_decimals(values: &[Double]) -> Decimals {
    let entries = values
        .iter()
        .map(|v| (v.bits, serde_json::to_string(&num(*v)).unwrap_or_default()))
        .collect();
    Decimals { entries }
}

/// Doubles as they are shown in messages.
fn shown_decimals(values: &[Double]) -> Decimals {
    Decimals { entries: values.iter().map(|v| (v.bits, format!("{}", num(*v)))).collect() }
}

// ---------- The linear system ----------

fn norm3(v: &[f64; 3]) -> f64 {
    (v[0] * v[0] + v[1] * v[1] + v[2] * v[2]).sqrt()
}

/// Solves normal equations by elimination with pivoting: a solution, the rank,
/// and a basis of what the equations leave open. Which rows and columns are
/// taken is decided by the library.
fn solve_normal(m: &[[f64; 3]; 3], rhs: &[f64; 3]) -> SolveResult {
    let mut a = [
        [m[0][0], m[0][1], m[0][2], rhs[0]],
        [m[1][0], m[1][1], m[1][2], rhs[1]],
        [m[2][0], m[2][1], m[2][2], rhs[2]],
    ];
    let scale = m.iter().flatten().fold(1.0f64, |acc, v| acc.max(v.abs()));
    let tol = scale * 1e-10;
    let mut elimination = Elimination::start();
    while !elimination.is_over() {
        let (rank, col) = (elimination.rank(), elimination.col);
        let column = [dbl(a[0][col]), dbl(a[1][col]), dbl(a[2][col])];
        if let Pivot::Take(row) = elimination.step(&column, dbl(tol)) {
            a.swap(row, rank);
            for i in (rank + 1)..3 {
                let f = a[i][col] / a[rank][col];
                if f.abs() < 1e-300 {
                    continue;
                }
                for j in col..4 {
                    a[i][j] -= f * a[rank][j];
                }
            }
        }
    }
    let rank = elimination.rank();
    let mut x = [0.0f64; 3];
    for k in (0..rank).rev() {
        let col = elimination.pivots[k];
        let mut sum = a[k][3];
        for j in (col + 1)..3 {
            sum -= a[k][j] * x[j];
        }
        x[col] = sum / a[k][col];
    }
    let nullspace = if rank < 3 { nullspace_of(m, tol) } else { Vec::new() };
    SolveResult {
        solution: x.map(dbl),
        rank,
        nullspace: nullspace.into_iter().map(|n| n.map(dbl)).collect(),
    }
}

fn nullspace_of(m: &[[f64; 3]; 3], tol: f64) -> Vec<[f64; 3]> {
    let mut basis: Vec<[f64; 3]> = Vec::new();
    for r in m {
        let mut v = *r;
        for b in &basis {
            let dot = v[0] * b[0] + v[1] * b[1] + v[2] * b[2];
            v = [v[0] - dot * b[0], v[1] - dot * b[1], v[2] - dot * b[2]];
        }
        let n = norm3(&v);
        if n > tol * 1e4 {
            basis.push([v[0] / n, v[1] / n, v[2] / n]);
        }
    }
    if basis.is_empty() {
        return vec![[1.0, 0.0, 0.0], [0.0, 1.0, 0.0], [0.0, 0.0, 1.0]];
    }
    if basis.len() == 1 {
        let r = basis[0];
        let mut e = [0.0; 3];
        e[free_axis(&r.map(dbl))] = 1.0;
        let dot = e[0] * r[0] + e[1] * r[1] + e[2] * r[2];
        let u = [e[0] - dot * r[0], e[1] - dot * r[1], e[2] - dot * r[2]];
        let n = norm3(&u);
        let u = [u[0] / n, u[1] / n, u[2] / n];
        return vec![u, cross(&r, &u)];
    }
    vec![cross(&basis[0], &basis[1])]
}

fn cross(a: &[f64; 3], b: &[f64; 3]) -> [f64; 3] {
    let v = [
        a[1] * b[2] - a[2] * b[1],
        a[2] * b[0] - a[0] * b[2],
        a[0] * b[1] - a[1] * b[0],
    ];
    let n = norm3(&v).max(1e-300);
    [v[0] / n, v[1] / n, v[2] / n]
}

// ---------- Positions ----------

/// A set of edges among the stations of a snapshot, with the rows for which
/// residuals are reported.
struct Bench<'a> {
    snap: &'a Snapshot,
    edges: &'a Vec<Edge>,
    rows: &'a [EdgeRow],
}

fn range(x: f64, y: f64, sx: f64, sy: f64) -> f64 {
    ((x - sx).powi(2) + (y - sy).powi(2)).sqrt()
}

impl Bench<'_> {
    fn station(&self, i: usize) -> (f64, f64) {
        (num(self.snap.stations[i].x), num(self.snap.stations[i].y))
    }

    fn speed(&self) -> f64 {
        num(self.snap.sound_speed)
    }

    fn radius(&self) -> f64 {
        num(self.snap.observable_radius)
    }

    fn predict(&self, e: &Edge, x: f64, y: f64) -> f64 {
        let (ax, ay) = self.station(e.a);
        let (bx, by) = self.station(e.b);
        (range(x, y, bx, by) - range(x, y, ax, ay)) / self.speed()
    }

    fn reference(&self) -> usize {
        let mut weights = vec![0.0f64; self.snap.stations.len()];
        for e in self.edges {
            weights[e.a] += 1.0 / num(e.sigma).powi(2);
            weights[e.b] += 1.0 / num(e.sigma).powi(2);
        }
        assert!(weights.iter().all(|w| !w.is_nan()), "a weight is not a number");
        choose_reference(self.edges, &weights.into_iter().map(dbl).collect())
    }

    /// The linear system of the edges at the reference station. Where it leaves a
    /// line, the solution is the one of smallest norm.
    fn linear_system(&self, good: &Vec<Edge>, reference: usize) -> SolveResult {
        let (rx, ry) = self.station(reference);
        let k0 = rx * rx + ry * ry;
        let mut m = [[0.0f64; 3]; 3];
        let mut rhs = [0.0f64; 3];
        for s in spokes(good, reference) {
            let e = &good[s.edge];
            let (px, py) = self.station(s.other);
            let ki = px * px + py * py;
            let sign = if s.outward { 1.0 } else { -1.0 };
            let d = sign * num(e.delay) * self.speed();
            let w = 1.0 / (num(e.sigma) * self.speed()).powi(2);
            let row = [px - rx, py - ry, d];
            let target = (ki - k0 - d * d) / 2.0;
            for i in 0..3 {
                rhs[i] += w * row[i] * target;
                for j in 0..3 {
                    m[i][j] += w * row[i] * row[j];
                }
            }
        }
        let mut sol = solve_normal(&m, &rhs);
        if let (2, [n]) = (sol.rank, sol.nullspace.as_slice()) {
            let (z, n) = (sol.solution.map(num), n.map(num));
            let t = z[0] * n[0] + z[1] * n[1] + z[2] * n[2];
            sol.solution = [z[0] - t * n[0], z[1] - t * n[1], z[2] - t * n[2]].map(dbl);
        }
        sol
    }

    /// Where a step from a place leads, with the determinant of the system.
    fn step_from(&self, x: f64, y: f64) -> (f64, f64, f64) {
        let (mut a, mut b, mut d) = (0.0f64, 0.0f64, 0.0f64);
        let mut rhs = [0.0f64; 2];
        for e in self.edges {
            let (ax, ay) = self.station(e.a);
            let (bx, by) = self.station(e.b);
            let ra = range(x, y, ax, ay).max(1e-3);
            let rb = range(x, y, bx, by).max(1e-3);
            let res = num(e.delay) - (rb - ra) / self.speed();
            let jx = ((x - bx) / rb - (x - ax) / ra) / self.speed();
            let jy = ((y - by) / rb - (y - ay) / ra) / self.speed();
            let w = 1.0 / num(e.sigma).powi(2);
            a += w * jx * jx;
            b += w * jx * jy;
            d += w * jy * jy;
            rhs[0] += w * jx * res;
            rhs[1] += w * jy * res;
        }
        let det = a * d - b * b;
        (det, (d * rhs[0] - b * rhs[1]) / det, (-b * rhs[0] + a * rhs[1]) / det)
    }

    /// Refines a position that can be observed. What becomes of a step is decided
    /// by the library.
    fn refine(&self, x: f64, y: f64) -> Option<Fit> {
        let radius = self.snap.observable_radius;
        if !in_domain(place(x, y), dbl((x * x + y * y).sqrt()), radius) {
            return None;
        }
        let mut state = Refinement::start(place(x, y));
        loop {
            let (x, y) = (num(state.at.x), num(state.at.y));
            let (det, dx, dy) = self.step_from(x, y);
            let (nx, ny) = (x + dx, y + dy);
            let step = Move {
                det: dbl(det),
                to: place(nx, ny),
                reach: dbl((nx * nx + ny * ny).sqrt()),
                length: dbl(dx.hypot(dy)),
            };
            match state.step(step, radius) {
                Next::Again(next) => state = next,
                Next::Settled(at) => return Some(self.evaluate(num(at.x), num(at.y))),
                Next::Lost => return None,
            }
        }
    }

    fn evaluate(&self, x: f64, y: f64) -> Fit {
        let mut chi2 = 0.0;
        let mut max_res: f64 = 0.0;
        for e in self.edges {
            let res = num(e.delay) - self.predict(e, x, y);
            chi2 += (res / num(e.sigma)).powi(2);
            max_res = max_res.max(res.abs());
        }
        let rms = (chi2 / self.edges.len().max(1) as f64).sqrt();
        let quantized = |v: f64| (v * 1e9).round() as i64;
        let predicted = self
            .rows
            .iter()
            .map(|r| {
                let p = self.predict(&r.edge, x, y);
                let res = num(r.edge.delay) - p;
                Predicted {
                    predicted: dbl(p),
                    residual: dbl(res),
                    quotient: dbl(res / num(r.edge.sigma)),
                }
            })
            .collect();
        Fit {
            at: place(x, y),
            reach: dbl((x * x + y * y).sqrt()),
            rms_nsigma: dbl(rms),
            max_residual_s: dbl(max_res),
            chi2: dbl(chi2),
            rank_rms: quantized(rms),
            rank_max: quantized(max_res),
            rank_x: quantized(x),
            rank_y: quantized(y),
            shown_x: format!("{:.4}", x),
            shown_y: format!("{:.4}", y),
            predicted,
        }
    }

    fn sample(&self, x: f64, y: f64) -> Sample {
        Sample { at: place(x, y), reach: dbl((x * x + y * y).sqrt()) }
    }

    fn full(&self, z: [f64; 3], reference: usize) -> FullSystem {
        let (rx, ry) = self.station(reference);
        let rref = range(z[0], z[1], rx, ry);
        FullSystem {
            at: place(z[0], z[1]),
            r0: dbl(z[2]),
            gap: dbl((z[2] - rref).abs()),
            bound: dbl(40.0_f64.max(rref * 0.6)),
            reach: dbl((z[0] * z[0] + z[1] * z[1]).sqrt()),
            refined: self.refine(z[0], z[1]),
        }
    }

    fn root(&self, z: [f64; 3], n: [f64; 3], t: f64) -> Root {
        let (x, y) = (z[0] + t * n[0], z[1] + t * n[1]);
        Root {
            at: place(x, y),
            r0: dbl(z[2] + t * n[2]),
            reach: dbl((x * x + y * y).sqrt()),
            refined: self.refine(x, y),
        }
    }

    fn line(&self, z: [f64; 3], n: [f64; 3], reference: usize) -> LineSystem {
        let (rx, ry) = self.station(reference);
        let a = n[0].powi(2) + n[1].powi(2) - n[2].powi(2);
        let b = 2.0 * (n[0] * (z[0] - rx) + n[1] * (z[1] - ry) - n[2] * z[2]);
        let c = (z[0] - rx).powi(2) + (z[1] - ry).powi(2) - z[2].powi(2);
        let disc = b * b - 4.0 * a * c;
        let q = disc.max(0.0).sqrt();
        let span = self.radius();
        let samples = (0..=80)
            .map(|i| {
                let t = -span + 2.0 * span * i as f64 / 80.0;
                self.sample(z[0] + t * n[0], z[1] + t * n[1])
            })
            .collect();
        let weight: f64 = self.edges.iter().map(|e| 1.0 / num(e.sigma).powi(2)).sum();
        LineSystem {
            a: dbl(a),
            b: dbl(b),
            disc: dbl(disc),
            single: self.root(z, n, -c / b),
            plus: self.root(z, n, (-b + q) / (2.0 * a)),
            minus: self.root(z, n, (-b - q) / (2.0 * a)),
            base: place(z[0], z[1]),
            samples,
            weight: dbl(weight),
            spread: dbl((1.0 / weight).sqrt() * self.speed()),
            fallback: dbl(self.radius() * 0.02),
        }
    }

    fn short(&self, good: &Vec<Edge>) -> ShortSystem {
        let none = ShortSystem {
            half_gap: dbl(0.0),
            focal: dbl(0.0),
            first: vec![],
            second: vec![],
            width: dbl(0.0),
        };
        let Some(k) = first_measured(good) else {
            return none;
        };
        let e = &good[k];
        let (ax, ay) = self.station(e.a);
        let (bx, by) = self.station(e.b);
        let (cx, cy) = ((ax + bx) / 2.0, (ay + by) / 2.0);
        let half_gap = (num(e.delay) * self.speed()).abs() / 2.0;
        let focal = range(ax, ay, bx, by) / 2.0;
        let (s, c) = (by - ay).atan2(bx - ax).sin_cos();
        let aa = half_gap.max(0.1);
        let bb = (focal * focal - aa * aa).sqrt();
        let vmax = (self.radius() / aa).min(6.0);
        let branch = |sign: f64| {
            (0..=60)
                .map(|i| {
                    let v = 0.05 + (vmax - 0.05) * i as f64 / 60.0;
                    let (u, w) = (sign * aa * v.cosh(), bb * v.sinh());
                    self.sample(cx + c * u - s * w, cy + s * u + c * w)
                })
                .collect()
        };
        ShortSystem {
            half_gap: dbl(half_gap),
            focal: dbl(focal),
            first: branch(-1.0),
            second: branch(1.0),
            width: dbl(num(e.sigma) * self.speed()),
        }
    }

    fn system(&self) -> System {
        let reference = self.reference();
        let good = timely_edges(self.edges);
        let sol = self.linear_system(&good, reference);
        match sol.rank {
            3 => System::Full(self.full(sol.solution.map(num), reference)),
            2 => {
                let n = sol.nullspace[0].map(num);
                System::Line(self.line(sol.solution.map(num), n, reference))
            }
            _ => System::Short(self.short(&good)),
        }
    }
}

/// The numbers that a solve of a snapshot goes by.
fn figures(snap: &Snapshot) -> Figures {
    let corrected: Vec<Corrected> = legs(snap)
        .iter()
        .map(|l| {
            let sum = num(l.sigma_s).powi(2) + num(l.sigma_a).powi(2) + num(l.sigma_b).powi(2);
            Corrected {
                delay: dbl(num(l.delay_s) + num(l.offset_a) - num(l.offset_b)),
                sigma: dbl(sum.sqrt()),
            }
        })
        .collect();
    let (active, _) = prepare_edges(snap, &corrected);
    let rows = all_edge_views(snap, &corrected);
    let systems: Vec<Option<System>> = multipath_scenarios(&active)
        .iter()
        .map(|dropped| {
            let edges = scenario_edges(&active, dropped);
            if edges.is_empty() {
                None
            } else {
                Some(Bench { snap, edges: &edges, rows: &rows }.system())
            }
        })
        .collect();
    let at: Vec<Pt> = systems.iter().flatten().flat_map(positions).collect();
    let mut entries = Vec::new();
    for p in &at {
        for q in &at {
            let d = (num(p.x) - num(q.x)).hypot(num(p.y) - num(q.y));
            entries.push((*p, *q, dbl(d)));
        }
    }
    Figures { corrected, systems, distances: Distances { entries } }
}

fn positions(s: &System) -> Vec<Pt> {
    let fits = match s {
        System::Full(f) => vec![&f.refined],
        System::Line(l) => vec![&l.single.refined, &l.plus.refined, &l.minus.refined],
        System::Short(_) => vec![],
    };
    fits.into_iter().flatten().map(|f| f.at).collect()
}

/// The doubles that a snapshot and the regions of a solve are written with.
fn written_doubles(snap: &Snapshot, w: &Figures) -> Vec<Double> {
    let mut out = doubles_in(&snapshot_value(snap));
    out.extend([dbl(0.0), dbl(1.0), snap.observable_radius]);
    for s in w.systems.iter().flatten() {
        match s {
            System::Full(_) => {}
            System::Line(l) => {
                out.extend([l.base.x, l.base.y, l.spread, l.fallback]);
                out.extend(l.samples.iter().flat_map(|p| [p.at.x, p.at.y]));
            }
            System::Short(s) => {
                out.push(s.width);
                out.extend(s.first.iter().flat_map(|p| [p.at.x, p.at.y]));
                out.extend(s.second.iter().flat_map(|p| [p.at.x, p.at.y]));
            }
        }
    }
    out
}

/// The whole numbers that judgements hold where a double is read.
fn wholes_in(db: &Db) -> Wholes {
    let mut entries = Vec::new();
    for e in &db.evidence {
        for key in ["offset_s", "sigma_s"] {
            match e.payload.get(key) {
                Some(Json::Int(n)) => entries.push((*n as i128, dbl(*n as f64))),
                Some(Json::UInt(n)) => entries.push((*n as i128, dbl(*n as f64))),
                _ => {}
            }
        }
    }
    Wholes { entries }
}

/// The middle of an event and the differences of its onsets.
fn middle_and_differences(db: &Db, event: &str) -> Result<(Double, Differences), String> {
    let (t0, t1, _, obs) = linked_observations(db, event)?;
    let stations = stations_in_event(db, &obs);
    let entries = onset_pairs(&stations, &obs)
        .into_iter()
        .map(|(a, b)| (a, b, dbl(num(a) - num(b))))
        .collect();
    Ok((dbl((num(t0) + num(t1)) / 2.0), Differences { entries }))
}

fn snapshot_of(db: &Db, event: &str) -> Result<Snapshot, String> {
    let (t_mid, diffs) = middle_and_differences(db, event)?;
    build_snapshot(db, event, default_model(), t_mid, &diffs, &wholes_in(db))
}

/// All the numbers that solving an event goes by.
fn given(db: &Db, event: &str) -> Result<Given, String> {
    let (t_mid, diffs) = middle_and_differences(db, event)?;
    let wholes = wholes_in(db);
    let snap = build_snapshot(db, event, default_model(), t_mid, &diffs, &wholes)?;
    let figures = figures(&snap);
    let decimals = json_decimals(&written_doubles(&snap, &figures));
    Ok(Given { t_mid, diffs, wholes, figures, decimals })
}

// ---------- Synthetic data ----------

fn unit(rng: &mut Rng) -> f64 {
    rng.next() as f64 / (1u64 << 53) as f64
}

/// A number drawn from a normal distribution, by the method of Box and Muller.
fn normal(rng: &mut Rng) -> f64 {
    let u1 = unit(rng).max(1e-12);
    let u2 = unit(rng);
    (-2.0 * u1.ln()).sqrt() * (std::f64::consts::TAU * u2).cos()
}

/// The numbers of the synthetic data. They are drawn in a fixed order.
fn synth_numbers() -> SynthNumbers {
    let mut rng = Rng::new();
    let c = num(Double { bits: SOUND_SPEED });
    let mut before = [dbl(0.0); 6];
    let mut after = [dbl(0.0); 6];
    for i in 0..6 {
        let off = (unit(&mut rng) - 0.5) * 0.01;
        before[i] = dbl(off);
        after[i] = dbl(off + (unit(&mut rng) - 0.5) * 0.004);
    }
    let mut onsets = [0.0f64; 4];
    let mut impact_bands = [dbl(0.0); 4];
    let mut impact_snrs = [dbl(0.0); 4];
    let masts =
        [(0.0, 40.0, 0.003), (120.0, 40.0, -0.002), (120.0, -40.0, -0.004), (60.0, 0.0, 0.0022)];
    for (i, (sx, sy, off)) in masts.into_iter().enumerate() {
        onsets[i] = 40.1 + range(90.0, 20.0, sx, sy) / c + off + normal(&mut rng) * 0.0006;
        impact_bands[i] = dbl(1250.0 + unit(&mut rng) * 400.0);
        impact_snrs[i] = dbl(18.0 + unit(&mut rng) * 6.0);
    }
    let mut impact_delays = [dbl(0.0); 6];
    let pairs = [(0, 1), (0, 2), (0, 3), (1, 2), (1, 3), (2, 3)];
    for (k, (i, j)) in pairs.into_iter().enumerate() {
        impact_delays[k] = dbl(onsets[j] - onsets[i] + normal(&mut rng) * 0.0004);
    }
    let mirror: Vec<f64> = [(0.0, 40.0, 0.003), (60.0, 40.0, 0.0010), (120.0, 40.0, -0.002)]
        .into_iter()
        .map(|(sx, sy, off)| 40.12 + range(40.0, 25.0, sx, sy) / c + off)
        .collect();
    let drift: Vec<f64> = [
        (0.0, 40.0, 0.0041),
        (0.0, -40.0, 0.0020),
        (120.0, -40.0, 0.0370),
        (60.0, 0.0, 0.0030),
    ]
    .into_iter()
    .map(|(sx, sy, off)| 120.1 + range(30.0, -10.0, sx, sy) / c + off)
    .collect();
    let between = |v: &[f64], i: usize, j: usize| dbl(v[j] - v[i]);
    SynthNumbers {
        before,
        after,
        impact_onsets: onsets.map(dbl),
        impact_bands,
        impact_snrs,
        reflected: dbl(onsets[2] - onsets[0] + 0.0082),
        impact_delays,
        mirror_onsets: [dbl(mirror[0]), dbl(mirror[1]), dbl(mirror[2])],
        mirror_delays: [between(&mirror, 0, 1), between(&mirror, 0, 2), between(&mirror, 1, 2)],
        drift_onsets: [dbl(drift[0]), dbl(drift[1]), dbl(drift[2]), dbl(drift[3])],
        drift_delays: [
            between(&drift, 0, 1),
            between(&drift, 0, 2),
            between(&drift, 0, 3),
            between(&drift, 1, 2),
            between(&drift, 2, 3),
        ],
    }
}

/// The synthetic numbers, and those that the synthetic batches have besides.
fn synth_doubles(n: &SynthNumbers) -> Vec<Double> {
    let mut out = Vec::new();
    out.extend(n.impact_onsets);
    out.extend(n.impact_bands);
    out.extend(n.impact_snrs);
    out.push(n.reflected);
    out.extend(n.impact_delays);
    out.extend(n.mirror_onsets);
    out.extend(n.mirror_delays);
    out.extend(n.drift_onsets);
    out.extend(n.drift_delays);
    for bits in [
        IMPACT_SIGMA, TWIN_BAND, TWIN_SNR, DELAY_SIGMA, MIRROR_BAND, MIRROR_SNR, DRIFT_BAND,
        DRIFT_SNR,
    ] {
        out.push(Double { bits });
    }
    out
}


// ---------- Fixtures ----------

fn object(members: Vec<(&str, Json)>) -> Json {
    Json::Object(members.into_iter().map(|(k, v)| (k.to_string(), v)).collect())
}

fn text(s: &str) -> Json {
    Json::Text(s.to_string())
}

fn generate(db: &mut Db) {
    let n = synth_numbers();
    synth::generate(db, &n, dbl(1.0), &json_decimals(&synth_doubles(&n))).unwrap();
    assert!(db.is_valid());
}

fn seeded() -> Db {
    let mut db = Db::open_memory();
    generate(&mut db);
    db
}

fn at(t: f64) -> Times {
    Times { created: dbl(t), started: dbl(t), finished: dbl(t) }
}

fn solve_event(db: &mut Db, event: &str) -> String {
    let g = given(db, event).unwrap();
    service::solve_event(db, event, &g, at(2.0)).unwrap()
}

fn judge(db: &mut Db, event: &str, kind: &str, payload: Json) -> Result<String, String> {
    let d = json_decimals(&doubles_in(&payload));
    add_evidence(db, event, &EvidenceReq { kind: kind.to_string(), payload }, dbl(3.0), &d)
}

fn solve(snap: &Snapshot) -> Vec<CandidateOut> {
    let w = figures(snap);
    solver::solve(snap, &w, &json_decimals(&written_doubles(snap, &w))).unwrap()
}

fn count(db: &Db, fp: &str) -> usize {
    db.candidates.iter().filter(|c| c.job_fp == fp).count()
}

fn db_with_station(id: &str) -> Db {
    let mut db = Db::open_memory();
    let req = CreateStationReq {
        station_id: id.to_string(),
        name: id.to_string(),
        x: dbl(0.0),
        y: dbl(0.0),
    };
    service::create_station(&mut db, &req, dbl(0.0)).unwrap();
    db
}

fn segment(start: f64, end: Option<f64>, offset: f64, note: &str) -> ClockSegmentReq {
    ClockSegmentReq {
        station_id: "A".to_string(),
        start_s: dbl(start),
        end_s: end.map(dbl),
        offset_s: dbl(offset),
        sigma_s: dbl(0.001),
        note: note.to_string(),
    }
}

fn add_segment(db: &mut Db, s: &ClockSegmentReq) -> Result<i64, String> {
    let mut values = vec![s.start_s];
    values.extend(s.end_s);
    for old in &db.segments {
        values.push(old.start_s);
        values.extend(old.end_s);
    }
    clock::add_segment(db, s, &shown_decimals(&values))
}

// ---------- Clock segments ----------

#[test]
fn touching_segments_are_allowed_and_select_the_later_one_at_join() {
    let mut db = db_with_station("A");
    add_segment(&mut db, &segment(0.0, Some(60.0), 0.010, "first")).unwrap();
    add_segment(&mut db, &segment(60.0, None, -0.020, "second")).unwrap();

    let segs = clock::list_segments(&db, "A");

    let just_before = clock::segment_at(&segs, dbl(59.9999)).unwrap();
    assert_eq!(num(just_before.offset_s), 0.010);

    let at_join = clock::segment_at(&segs, dbl(60.0)).unwrap();
    assert_eq!(num(at_join.offset_s), -0.020);
    assert_ne!(just_before.seg_id, at_join.seg_id);
}

#[test]
fn genuinely_overlapping_segments_are_rejected() {
    let mut db = db_with_station("A");
    add_segment(&mut db, &segment(0.0, Some(60.0), 0.0, "")).unwrap();
    let err = add_segment(&mut db, &segment(59.999, Some(120.0), 0.0, ""));
    assert!(err.is_err(), "overlap must be rejected: {err:?}");
}

#[test]
fn no_segment_means_free_clock() {
    let db = db_with_station("A");
    let segs = clock::list_segments(&db, "A");
    let eff = clock::effective_offset(&segs, None, dbl(40.0));
    assert!(eff.unknown);
    assert!(num(eff.sigma_s) >= num(Double { bits: FREE_CLOCK_SIGMA }));

    let locked = clock::effective_offset(&segs, Some((dbl(0.005), dbl(0.0))), dbl(40.0));
    assert!(locked.locked);
    assert_eq!(num(locked.offset_s), 0.005);
}

// ---------- Geometry ----------

fn edge(a: &str, b: &str, d: f64) -> EdgeObs {
    EdgeObs {
        station_a: a.to_string(),
        station_b: b.to_string(),
        delay_s: dbl(d),
        sigma_s: dbl(0.001),
        multipath: false,
        xc_id: None,
        peak_index: 0,
        origin: "x".to_string(),
    }
}

fn station(id: &str, x: f64, y: f64) -> StationInfo {
    StationInfo { station_id: id.to_string(), x: dbl(x), y: dbl(y) }
}

fn steady_clock(id: &str) -> StationClock {
    StationClock {
        station_id: id.to_string(),
        segments: vec![ClockSegment {
            seg_id: 1,
            station_id: id.to_string(),
            start_s: dbl(0.0),
            end_s: None,
            offset_s: dbl(0.0),
            sigma_s: dbl(0.001),
            note: String::new(),
        }],
    }
}

fn two_station_snapshot() -> Snapshot {
    Snapshot {
        event_id: "G".to_string(),
        t_mid: dbl(40.0),
        sound_speed: dbl(343.0),
        observable_radius: dbl(500.0),
        stations: vec![station("A", 0.0, 0.0), station("B", 100.0, 0.0)],
        segments: vec![steady_clock("A"), steady_clock("B")],
        edges: vec![edge("A", "B", -0.05)],
        exclude_edges: vec![],
        locks: vec![],
        kept_pairs: vec![],
    }
}

#[test]
fn single_edge_yields_hyperbola_region() {
    let out = solve(&two_station_snapshot());
    assert_eq!(out.len(), 1);
    assert_eq!(out[0].kind, "region");
    assert_eq!(out[0].status, "underdetermined");
    assert_eq!(out[0].reason, "sensor_geometry");
    let region = out[0].region.as_ref().unwrap();
    assert_eq!(region.get("shape").unwrap().as_text().unwrap(), "hyperbola");
    assert!(region.get("coordinates").unwrap().as_items().unwrap().len() > 10);
}

#[test]
fn impossible_delay_is_not_clamped_into_domain() {
    let mut s = two_station_snapshot();
    s.edges[0].delay_s = dbl(0.35);
    let out = solve(&s);
    assert_eq!(out.len(), 1);
    assert_eq!(out[0].kind, "region");
    let region = out[0].region.as_ref().unwrap();
    assert_eq!(region.get("shape").unwrap().as_text().unwrap(), "circle");
    assert!(region.get("source").unwrap().as_text().unwrap().contains("no hyperbolic locus"));
}

#[test]
fn candidate_keys_and_ranks_are_stable_across_runs() {
    let s = two_station_snapshot();
    let a = solve(&s);
    let b = solve(&s);
    assert_eq!(a.len(), b.len());
    for (x, y) in a.iter().zip(b.iter()) {
        assert_eq!(x.cand_key, y.cand_key);
        assert_eq!(x.reason, y.reason);
    }
}

fn contaminated() -> Snapshot {
    let c = 343.0f64;
    let dist = |sx: f64, sy: f64| ((90.0 - sx).powi(2) + (20.0 - sy).powi(2)).sqrt() / c;
    let d = |sx1: f64, sy1: f64, sx2: f64, sy2: f64| dist(sx2, sy2) - dist(sx1, sy1);
    Snapshot {
        event_id: "MP".to_string(),
        t_mid: dbl(40.0),
        sound_speed: dbl(c),
        observable_radius: dbl(2000.0),
        stations: vec![
            station("A", 0.0, 40.0),
            station("B", 120.0, 40.0),
            station("D", 120.0, -40.0),
            station("E", 60.0, 0.0),
        ],
        segments: vec![steady_clock("A"), steady_clock("B"), steady_clock("D"), steady_clock("E")],
        edges: vec![
            edge("A", "B", d(0.0, 40.0, 120.0, 40.0)),
            EdgeObs {
                multipath: true,
                ..edge("A", "D", d(0.0, 40.0, 120.0, -40.0) + 0.015)
            },
            edge("A", "E", d(0.0, 40.0, 60.0, 0.0)),
            edge("B", "D", d(120.0, 40.0, 120.0, -40.0)),
            edge("B", "E", d(120.0, 40.0, 60.0, 0.0)),
            edge("D", "E", d(120.0, -40.0, 60.0, 0.0)),
        ],
        exclude_edges: vec![],
        locks: vec![],
        kept_pairs: vec![],
    }
}

#[test]
fn contaminated_direct_peak_is_attributed_to_multipath() {
    let out = solve(&contaminated());
    let near_truth: Vec<&CandidateOut> = out
        .iter()
        .filter(|c| {
            c.kind == "point"
                && c.x.is_some()
                && ((num(c.x.unwrap()) - 90.0).powi(2) + (num(c.y.unwrap()) - 20.0).powi(2)).sqrt()
                    < 5.0
        })
        .collect();
    assert!(!near_truth.is_empty(), "expected a near-truth candidate: {out:?}");
    assert!(
        near_truth
            .iter()
            .any(|c| c.status == "underdetermined" && c.reason.starts_with("multipath")),
        "near-truth candidate must be attributed to multipath ambiguity: {near_truth:?}"
    );
}

// ---------- Events ----------

#[test]
fn impact_event_localizes_near_truth() {
    let mut db = seeded();
    let fp = solve_event(&mut db, "EVT-IMPACT");
    let best = db.candidates.iter().find(|c| c.job_fp == fp && c.rank_in_job == 0).unwrap();
    assert_eq!(best.kind, "point");
    assert_eq!(best.status, "determined");
    let err =
        ((num(best.x.unwrap()) - 90.0).powi(2) + (num(best.y.unwrap()) - 20.0).powi(2)).sqrt();
    assert!(err < 6.0, "impact localization error {err} m too large: {best:?}");
}

#[test]
fn mirror_event_has_two_inseparable_points() {
    let mut db = seeded();
    let fp = solve_event(&mut db, "EVT-MIRROR");
    let mut points = 0;
    for p in db.candidates.iter().filter(|c| c.job_fp == fp && c.kind == "point") {
        points += 1;
        assert_eq!(p.status, "underdetermined");
        assert!(p.reason.contains("sensor_geometry"));
    }
    assert_eq!(points, 2, "expected mirror pair, got {:?}", db.candidates);
}

#[test]
fn drift_event_is_clock_underdetermined_region() {
    let mut db = seeded();
    let fp = solve_event(&mut db, "EVT-DRIFT");
    assert_eq!(count(&db, &fp), 1);
    let c = db.candidates.iter().find(|c| c.job_fp == fp).unwrap();
    assert_eq!(c.kind, "region");
    assert_eq!(c.status, "underdetermined");
    assert_eq!(c.reason, "clock_freedom");
}

#[test]
fn keep_pair_marks_both_mirror_locations() {
    let mut db = seeded();
    let fp = solve_event(&mut db, "EVT-MIRROR");
    let keys: Vec<String> =
        db.candidates.iter().filter(|c| c.job_fp == fp).map(|c| c.cand_key.clone()).collect();
    assert_eq!(keys.len(), 2);
    let payload =
        object(vec![("candidate_a_key", text(&keys[0])), ("candidate_b_key", text(&keys[1]))]);
    judge(&mut db, "EVT-MIRROR", "keep_pair", payload).unwrap();
    let fp2 = solve_event(&mut db, "EVT-MIRROR");
    assert_ne!(fp, fp2);
    assert_eq!(count(&db, &fp2), 2, "both inseparable locations retained");
    let first = db.candidates.iter().find(|c| c.job_fp == fp2 && c.rank_in_job == 0).unwrap();
    assert!(first.metrics.get("kept_pair").is_some());
}

#[test]
fn exclude_reflected_peak_changes_only_new_job() {
    let mut db = seeded();
    let fp1 = solve_event(&mut db, "EVT-IMPACT");
    let excluded = |db: &Db, fp: &str| {
        let c = db.candidates.iter().find(|c| c.job_fp == fp && c.rank_in_job == 0).unwrap();
        c.residuals.iter().filter(|r| r.excluded).count()
    };
    let excluded_before = excluded(&db, &fp1);
    let payload = object(vec![
        ("station_a", text("A")),
        ("station_b", text("D")),
        ("peak_index", Json::UInt(0)),
    ]);
    judge(&mut db, "EVT-IMPACT", "exclude_peak", payload).unwrap();
    let fp2 = solve_event(&mut db, "EVT-IMPACT");
    assert_ne!(fp1, fp2);
    assert!(excluded(&db, &fp2) > excluded_before, "reflected peak excluded in new job");
    assert!(count(&db, &fp1) >= 1);
}

#[test]
fn parallel_runs_keep_identical_ranking() {
    let mut db = seeded();
    let event = "EVT-IMPACT";
    let run = |db: &Db| {
        let snap = snapshot_of(db, event).unwrap();
        solve(&snap)
            .iter()
            .enumerate()
            .map(|(i, c)| format!("{}:{kind}:{key}", i, kind = c.kind, key = c.cand_key))
            .collect::<Vec<_>>()
    };
    let mut rankings: Vec<Vec<String>> = (0..6).map(|_| run(&db)).collect();
    let first = rankings.pop().unwrap();
    for r in &rankings {
        assert_eq!(r, &first);
    }

    let mut ids = std::collections::HashSet::new();
    for _ in 0..4 {
        let payload = object(vec![
            ("station_a", text("A")),
            ("station_b", text("D")),
            ("peak_index", Json::UInt(1)),
        ]);
        ids.insert(judge(&mut db, event, "exclude_peak", payload).unwrap());
    }
    assert_eq!(ids.len(), 1);
}

// ---------- What is kept ----------

fn batch(station_id: &str, onset: f64) -> IngestReq {
    IngestReq {
        fingerprint: Some("fixed-batch-fp".to_string()),
        received_at: Some(dbl(1.0)),
        observations: vec![IngestObs {
            station_id: station_id.to_string(),
            event_ref: Some("EVT-X".to_string()),
            t_device: dbl(onset),
            local_onset_s: dbl(onset),
            peak_band_hz: dbl(800.0),
            snr_db: dbl(12.0),
            xcorr: vec![],
        }],
    }
}

fn take_in(db: &mut Db, req: &IngestReq) -> Result<IngestResult, String> {
    let d = json_decimals(&doubles_in(&batch_value(&req.observations)));
    ingest(db, req, dbl(1.0), &d)
}

#[test]
fn replayed_batch_does_not_duplicate_observations() {
    let mut db = db_with_station("A");
    let first = take_in(&mut db, &batch("A", 40.1)).unwrap();
    assert!(!first.already_present);
    let second = take_in(&mut db, &batch("A", 40.1)).unwrap();
    assert!(second.already_present);
    assert_eq!(first.observation_ids, second.observation_ids);
    assert_eq!(db.observations.len(), 1);
}

#[test]
fn crashed_job_is_never_auditable_and_is_recomputed() {
    let mut db = seeded();
    let event = "EVT-IMPACT";
    let snap = snapshot_of(&db, event).unwrap();
    let w = figures(&snap);
    let d = json_decimals(&written_doubles(&snap, &w));

    let fp = crash_after_running(&mut db, &snap, 1, &w, dbl(2.0), &d).unwrap();
    let state = |db: &Db| {
        let job = db.jobs.iter().find(|j| j.fingerprint == fp).unwrap();
        job.state.clone()
    };
    assert_eq!(state(&db), "running");

    let wholes = Wholes { entries: vec![] };
    let detail = service::event_detail(&db, event, &wholes).unwrap();
    assert!(matches!(detail.get("latest_done_job"), Some(Json::Null)));
    assert_eq!(detail.get("candidates").unwrap().as_items().unwrap().len(), 0);

    let recovered = db.recover_pending_jobs();
    assert_eq!(recovered, 1);
    assert_eq!(count(&db, &fp), 0);

    let done_fp = solve_event(&mut db, event);
    assert_eq!(done_fp, fp);
    let detail = service::event_detail(&db, event, &wholes).unwrap();
    assert_eq!(detail.get("latest_done_job").unwrap().as_text().unwrap(), &fp);
    assert!(!detail.get("candidates").unwrap().as_items().unwrap().is_empty());
}

#[test]
fn evidence_changes_new_run_without_touching_old_candidates() {
    let mut db = seeded();
    let event = "EVT-IMPACT";
    let fp1 = solve_event(&mut db, event);
    let before = count(&db, &fp1);

    let payload = || {
        object(vec![
            ("station_id", text("A")),
            ("offset_s", Json::Float(dbl(0.0031))),
            ("sigma_s", Json::Float(dbl(0.0002))),
        ])
    };
    judge(&mut db, event, "lock_clock", payload()).unwrap();
    let fp2 = solve_event(&mut db, event);
    assert_ne!(fp1, fp2);
    assert_eq!(before, count(&db, &fp1), "old candidate set must remain intact");

    let id1 = judge(&mut db, event, "lock_clock", payload()).unwrap();
    let id2 = judge(&mut db, event, "lock_clock", payload()).unwrap();
    assert_eq!(id1, id2);
}

// ---------- Linear equations ----------

#[test]
fn solves_identity() {
    let r = solve_normal(
        &[[1.0, 0.0, 0.0], [0.0, 1.0, 0.0], [0.0, 0.0, 1.0]],
        &[2.0, 3.0, 4.0],
    );
    assert_eq!(r.rank, 3);
    assert!((num(r.solution[0]) - 2.0).abs() < 1e-10);
    assert!((num(r.solution[1]) - 3.0).abs() < 1e-10);
    assert!((num(r.solution[2]) - 4.0).abs() < 1e-10);
}

#[test]
fn detects_rank_deficiency() {
    let m = [[1.0, 2.0, 3.0], [2.0, 4.0, 6.0], [3.0, 6.0, 9.0]];
    let r = solve_normal(&m, &[1.0, 2.0, 3.0]);
    assert_eq!(r.rank, 1);
    assert_eq!(r.nullspace.len(), 2);
    for n in &r.nullspace {
        let n = n.map(num);
        for i in 0..3 {
            let v = m[i][0] * n[0] + m[i][1] * n[1] + m[i][2] * n[2];
            assert!(v.abs() < 1e-9);
        }
    }
}

#[test]
fn full_rank_geometry() {
    let m = [[10.0, 2.0, 3.0], [2.0, 12.0, 1.0], [3.0, 1.0, 8.0]];
    let rhs = [1.0, 2.0, 3.0];
    let r = solve_normal(&m, &rhs);
    assert_eq!(r.rank, 3);
    let x = r.solution.map(num);
    for i in 0..3 {
        let v = m[i][0] * x[0] + m[i][1] * x[1] + m[i][2] * x[2];
        assert!((v - rhs[i]).abs() < 1e-9);
    }
}

#[test]
fn an_elimination_goes_by_the_largest_entry() {
    let mut e = Elimination::start();
    let column = |a: f64, b: f64, c: f64| [dbl(a), dbl(b), dbl(c)];
    assert_eq!(e.step(&column(1.0, -3.0, 3.0), dbl(1e-9)), Pivot::Take(1));
    assert_eq!(e.step(&column(9.0, 1e-10, -1e-9), dbl(1e-9)), Pivot::Pass);
    assert_eq!(e.step(&column(9.0, 0.5, 0.25), dbl(1e-9)), Pivot::Take(1));
    assert!(e.is_over());
    assert_eq!((e.rank(), e.pivots.clone()), (2, vec![0, 2]));
    assert_eq!(free_axis(&column(1.0, 2.0, 3.0)), 0);
    assert_eq!(free_axis(&column(2.0, 1.0, 3.0)), 1);
    assert_eq!(free_axis(&column(2.0, 1.0, 0.0)), 2);
}

#[test]
fn spokes_lead_from_or_to_the_reference() {
    let edge = |a: usize, b: usize| Edge {
        a,
        b,
        delay: dbl(0.0),
        sigma: dbl(0.1),
        origin_idx: 0,
        suspect: false,
    };
    let list = vec![edge(0, 1), edge(0, 2), edge(1, 2)];
    assert_eq!(
        spokes(&list, 1),
        vec![
            Spoke { edge: 0, other: 0, outward: false },
            Spoke { edge: 2, other: 2, outward: true },
        ]
    );
}

// ---------- What is refused ----------

#[test]
fn segments_are_checked_before_they_are_entered() {
    let mut db = db_with_station("A");
    let refused = |db: &mut Db, s: ClockSegmentReq| add_segment(db, &s).unwrap_err();
    assert_eq!(
        refused(&mut db, segment(f64::NAN, None, 0.0, "")),
        "start_s/offset_s must be finite"
    );
    assert_eq!(
        refused(&mut db, segment(5.0, Some(5.0), 0.0, "")),
        "end_s must be finite and strictly greater than start_s"
    );
    let unsure = ClockSegmentReq { sigma_s: dbl(-1.0), ..segment(0.0, None, 0.0, "") };
    assert_eq!(refused(&mut db, unsure), "sigma_s must be finite and non-negative");
    assert_eq!(add_segment(&mut db, &segment(0.0, None, 0.0, "")), Ok(1));
    assert_eq!(
        refused(&mut db, segment(5.5, Some(9.0), 0.0, "")),
        "half-open segment [5.5, 9) overlaps existing segment [0, ∞)"
    );
    let stranger = ClockSegmentReq { station_id: "Z".to_string(), ..segment(0.0, None, 0.0, "") };
    assert_eq!(refused(&mut db, stranger), "FOREIGN KEY constraint failed");
}

#[test]
fn stations_and_events_are_checked_before_they_are_entered() {
    let mut db = Db::open_memory();
    let station = |id: &str, x: f64| CreateStationReq {
        station_id: id.to_string(),
        name: "n".to_string(),
        x: dbl(x),
        y: dbl(0.0),
    };
    let enter = |db: &mut Db, s: CreateStationReq| service::create_station(db, &s, dbl(1.0));
    assert_eq!(enter(&mut db, station(" ", 0.0)).unwrap_err(), "station_id must be non-empty");
    assert_eq!(
        enter(&mut db, station("A", f64::INFINITY)).unwrap_err(),
        "station coordinates must be finite metres"
    );
    enter(&mut db, station("A", 1.0)).unwrap();
    enter(&mut db, station("A", 2.0)).unwrap();
    let listed = service::list_stations(&db);
    assert_eq!((listed.len(), num(listed[0].x)), (1, 1.0));

    let event = |id: &str, end: f64, speed: f64| CreateEventReq {
        event_id: id.to_string(),
        title: "t".to_string(),
        t_start: dbl(1.0),
        t_end: dbl(end),
        sound_speed: dbl(speed),
    };
    let enter = |db: &mut Db, e: CreateEventReq| service::create_event(db, &e, dbl(1.0));
    assert_eq!(enter(&mut db, event("", 2.0, 343.0)).unwrap_err(), "event_id must be non-empty");
    assert_eq!(
        enter(&mut db, event("E", 1.0, 343.0)).unwrap_err(),
        "event needs finite t_start < t_end (half-open [t_start, t_end))"
    );
    assert_eq!(
        enter(&mut db, event("E", 2.0, 2000.0)).unwrap_err(),
        "sound_speed must be finite and within 50..2000 m/s"
    );
    enter(&mut db, event("E", 2.0, 343.0)).unwrap();
    assert_eq!(
        enter(&mut db, event("E", 3.0, 343.0)).unwrap_err(),
        "UNIQUE constraint failed: events.event_id"
    );
    assert_eq!(service::list_events(&db).len(), 1);
}

#[test]
fn batches_are_checked_before_they_are_entered() {
    let mut db = db_with_station("A");
    let with = |o: IngestObs| IngestReq {
        fingerprint: None,
        received_at: None,
        observations: vec![batch("A", 1.0).observations.remove(0), o],
    };
    let second = || batch("A", 2.0).observations.remove(0);
    let link = |to: usize, sigma: f64| IngestXcorr {
        obs_index: to,
        delay_s: dbl(0.1),
        sigma_s: dbl(sigma),
        peak_index: 0,
        multipath: false,
    };
    let nothing = IngestReq { observations: vec![], ..with(second()) };
    assert_eq!(take_in(&mut db, &nothing).unwrap_err(), "batch contains no observations");
    let cases = vec![
        (
            IngestObs { t_device: dbl(f64::NAN), ..second() },
            "observation 1 has non-finite time fields",
        ),
        (
            IngestObs { peak_band_hz: dbl(-1.0), ..second() },
            "observation 1 has invalid band/SNR",
        ),
        (
            IngestObs { xcorr: vec![link(1, 0.1)], ..second() },
            "observation 1 has an out-of-range xcorr link",
        ),
        (
            IngestObs { xcorr: vec![link(0, 0.0)], ..second() },
            "observation 1 has invalid xcorr sigma",
        ),
        (
            IngestObs { station_id: "Z".to_string(), ..second() },
            "unknown station_id 'Z'",
        ),
    ];
    for (o, message) in cases {
        assert_eq!(take_in(&mut db, &with(o)).unwrap_err(), message);
        assert!(db.batches.is_empty() && db.observations.is_empty());
    }
    let linked = with(IngestObs { xcorr: vec![link(0, 0.1)], ..second() });
    let r = take_in(&mut db, &linked).unwrap();
    assert_eq!((r.observation_ids.clone(), r.fingerprint.len()), (vec![1, 2], 64));
    assert_eq!((db.xcorrs[0].obs_a, db.xcorrs[0].obs_b), (1, 2));
    let d = json_decimals(&doubles_in(&batch_value(&linked.observations)));
    assert_eq!(fingerprint_of(&linked, &d), r.fingerprint);
}

#[test]
fn judgements_are_checked_before_they_are_entered() {
    let mut db = seeded();
    let event = "EVT-IMPACT";
    assert_eq!(
        judge(&mut db, event, "guess", object(vec![])).unwrap_err(),
        "unknown evidence kind 'guess'"
    );
    assert_eq!(
        judge(&mut db, event, "lock_clock", Json::Null).unwrap_err(),
        "payload must be a JSON object"
    );
    assert_eq!(
        judge(&mut db, event, "lock_clock", object(vec![("station_id", text("A"))])).unwrap_err(),
        "payload missing field 'offset_s'"
    );
    let lock = || object(vec![("station_id", text("A")), ("offset_s", Json::Int(0))]);
    assert_eq!(
        judge(&mut db, "EVT-NONE", "lock_clock", lock()).unwrap_err(),
        "FOREIGN KEY constraint failed"
    );
    judge(&mut db, event, "lock_clock", lock()).unwrap();
    judge(&mut db, event, "lock_clock", lock()).unwrap();
    assert_eq!(db.evidence.len(), 1);
    assert_eq!(given(&db, "EVT-NONE").err().unwrap(), "Query returned no rows");
}

// ---------- Links ----------

#[test]
fn an_event_is_linked_to_what_names_it_or_falls_into_its_window() {
    let mut db = db_with_station("A");
    let window = CreateEventReq {
        event_id: "E".to_string(),
        title: "t".to_string(),
        t_start: dbl(10.0),
        t_end: dbl(20.0),
        sound_speed: dbl(343.0),
    };
    service::create_event(&mut db, &window, dbl(0.0)).unwrap();
    let one = |onset: f64, named: Option<&str>| IngestObs {
        event_ref: named.map(|s| s.to_string()),
        ..batch("A", onset).observations.remove(0)
    };
    let req = IngestReq {
        fingerprint: None,
        received_at: None,
        observations: vec![
            one(10.0, None),
            one(20.0, None),
            one(5.0, Some("E")),
            one(15.0, Some("F")),
        ],
    };
    take_in(&mut db, &req).unwrap();
    assert_eq!(service::link_window(&mut db, "E"), Ok(2));
    assert_eq!(service::link_window(&mut db, "E"), Ok(0));
    let linked: Vec<i64> =
        linked_observations(&db, "E").unwrap().3.iter().map(|o| o.obs_id).collect();
    assert_eq!(linked, vec![3, 1]);
    assert!(service::link_window(&mut db, "F").is_err());
}

// ---------- Solving ----------

#[test]
fn a_job_that_is_done_is_used_again() {
    let mut db = seeded();
    let snap = snapshot_of(&db, "EVT-MIRROR").unwrap();
    let w = figures(&snap);
    let d = json_decimals(&written_doubles(&snap, &w));
    let (fp, first) = enqueue_and_run(&mut db, &snap, "w", &w, at(1.0), &d).unwrap();
    assert!(matches!(first, RunOutcome::Created));
    let kept = db.candidates.len();
    let (again, second) = enqueue_and_run(&mut db, &snap, "w", &w, at(2.0), &d).unwrap();
    assert!(matches!(second, RunOutcome::Reused));
    assert_eq!((again, db.candidates.len()), (fp.clone(), kept));
    assert_eq!(fingerprint(&snap, &d), fp);
}

#[test]
fn each_judgement_changes_the_fingerprint() {
    let s = two_station_snapshot();
    let print = |s: &Snapshot| {
        let w = figures(s);
        fingerprint(s, &json_decimals(&written_doubles(s, &w)))
    };
    let plain = print(&s);
    let mut locked = s.copy();
    locked.locks.push(acoustic_review::workbench::snapshot::Lock {
        station_id: "A".to_string(),
        offset_s: dbl(0.0),
        sigma_s: dbl(0.0),
    });
    assert_ne!(print(&locked), plain);
    let mut excluded = s.copy();
    excluded.exclude_edges.push(acoustic_review::workbench::snapshot::ExcludedPeak {
        station_a: "A".to_string(),
        station_b: "B".to_string(),
        peak_index: 0,
    });
    assert_ne!(print(&excluded), plain);
    let mut kept = s.copy();
    kept.kept_pairs.push(acoustic_review::workbench::snapshot::KeptPair {
        a: "x".to_string(),
        b: "y".to_string(),
    });
    assert_ne!(print(&kept), plain);
    let out = solve(&excluded);
    assert!(out.is_empty(), "no edge is left: {out:?}");
}

#[test]
fn a_pair_of_stations_counts_once_and_reflections_do_not() {
    let mut s = contaminated();
    s.edges.push(edge("B", "A", 0.5));
    s.edges.push(EdgeObs { peak_index: 1, ..edge("A", "B", 0.7) });
    let corrected: Vec<Corrected> =
        legs(&s).iter().map(|l| Corrected { delay: l.delay_s, sigma: l.sigma_s }).collect();
    let (active, used) = prepare_edges(&s, &corrected);
    assert_eq!(active.len(), 6);
    assert_eq!(used, vec![true, true, true, true, true, true, true, false]);
    let rows = all_edge_views(&s, &corrected);
    assert_eq!(rows.len(), 8);
    assert_eq!(rows.iter().filter(|r| r.excluded).count(), 1);
    let turned = rows.iter().find(|r| r.edge.origin_idx == 6).unwrap();
    assert_eq!((turned.edge.a, turned.edge.b, turned.edge.delay), (0, 1, dbl(-0.5)));
    assert_eq!(multipath_scenarios(&active), vec![vec![], vec![1]]);
    let suspects: Vec<Edge> = active.iter().map(|e| Edge { suspect: true, ..e.copy() }).collect();
    assert_eq!(
        multipath_scenarios(&suspects),
        vec![vec![], vec![0], vec![1], vec![2], vec![0, 1], vec![1, 2]]
    );
}

#[test]
fn clocks_are_to_blame_only_where_edges_are_missing() {
    assert_eq!(region_reason(true, 0, 1), "clock_freedom");
    assert_eq!(region_reason(true, 2, 1), "sensor_geometry");
    assert_eq!(region_reason(true, 1, 0), "clock_freedom");
    assert_eq!(region_reason(false, 0, 0), "sensor_geometry");
    assert_eq!(region_reason(true, 0, 3), "sensor_geometry");
}

#[test]
fn a_refinement_is_given_up_outside_the_domain() {
    let radius = dbl(100.0);
    let step = |det: f64, x: f64, length: f64| Move {
        det: dbl(det),
        to: place(x, 0.0),
        reach: dbl(x.abs()),
        length: dbl(length),
    };
    assert!(in_domain(place(100.0, 0.0), dbl(100.0), radius));
    assert!(!in_domain(place(101.0, 0.0), dbl(101.0), radius));
    assert!(!in_domain(place(f64::NAN, 0.0), dbl(f64::NAN), radius));
    let start = || Refinement::start(place(1.0, 0.0));
    assert!(matches!(start().step(step(1.0, 101.0, 100.0), radius), Next::Lost));
    assert!(matches!(start().step(step(1.0, 2.0, 1e-8), radius),
        Next::Settled(p) if p == place(2.0, 0.0)));
    assert!(matches!(start().step(step(1e-19, 2.0, 1.0), radius),
        Next::Settled(p) if p == place(1.0, 0.0)));
    let mut state = start();
    for k in 0..9 {
        state = match state.step(step(1.0, 2.0 + k as f64, 1.0), radius) {
            Next::Again(next) => next,
            other => panic!("{other:?}"),
        };
    }
    assert!(matches!(state.step(step(1.0, 50.0, 1.0), radius),
        Next::Settled(p) if p == place(50.0, 0.0)));
}

// ---------- Synthetic data ----------

#[test]
fn the_generator_is_a_fixed_sequence() {
    let mut a = Rng::new();
    let mut b = Rng::new();
    let first: Vec<u64> = (0..4).map(|_| a.next()).collect();
    let second: Vec<u64> = (0..4).map(|_| b.next()).collect();
    assert_eq!(first, second);
    let mut x: u64 = 0x5eed_1116_0001;
    x ^= x << 13;
    x ^= x >> 7;
    x ^= x << 17;
    assert_eq!(first[0], x >> 11);
    assert!(first.iter().all(|v| *v < (1 << 53)));
}

#[test]
fn synthetic_data_is_entered_once() {
    let mut db = seeded();
    assert_eq!(db.stations.len(), 6);
    assert_eq!(db.segments.len(), 11);
    assert_eq!((db.events.len(), db.batches.len(), db.observations.len()), (3, 3, 12));
    assert_eq!(db.xcorrs.len(), 15);
    assert!(db.segments.iter().all(|s| s.station_id != "D" || num(s.start_s) < 60.0));
    let n = synth_numbers();
    let again = synth::generate(&mut db, &n, dbl(1.0), &json_decimals(&synth_doubles(&n)));
    assert!(again.is_err());
}

#[test]
fn what_is_shown_has_units() {
    let mut db = seeded();
    solve_event(&mut db, "EVT-DRIFT");
    let wholes = Wholes { entries: vec![] };
    let detail = service::event_detail(&db, "EVT-DRIFT", &wholes).unwrap();
    let shown = detail.get("candidates").unwrap().as_items().unwrap();
    assert_eq!(shown.len(), 1);
    assert!(service::event_detail(&db, "EVT-NONE", &wholes).is_err());
    assert_eq!(num(default_model().observable_radius), 2000.0);
    let slow = acoustic_review::workbench::units::PhysicalModel {
        sound_speed: dbl(50.0),
        ..default_model()
    };
    assert!(slow.validate().is_err());
    let blind = acoustic_review::workbench::units::PhysicalModel {
        observable_radius: dbl(0.0),
        ..default_model()
    };
    assert_eq!(
        blind.validate().unwrap_err(),
        "observable_radius must be a positive finite number of metres"
    );
}

#[test]
fn tables_of_the_workbench_that_break_a_rule_are_not_valid() {
    let mut db = seeded();
    solve_event(&mut db, "EVT-IMPACT");
    assert!(db.is_valid());
    db.jobs[0].state = "paused".to_string();
    assert!(!db.is_valid());
    db.jobs[0].state = "done".to_string();
    assert!(db.is_valid());
    db.links[0].obs_id = 99;
    assert!(!db.is_valid());
}

#[test]
fn each_station_has_what_is_known_of_its_clock() {
    let mut s = two_station_snapshot();
    s.segments[1].segments.clear();
    s.locks.push(acoustic_review::workbench::snapshot::Lock {
        station_id: "A".to_string(),
        offset_s: dbl(0.25),
        sigma_s: dbl(0.0),
    });
    let known = acoustic_review::workbench::edges::offsets(&s);
    assert_eq!(known.len(), 2);
    assert!(known[0].locked && num(known[0].offset_s) == 0.25);
    assert!(known[1].unknown && num(known[1].sigma_s) == 1.0);
}

#[test]
fn of_two_locks_the_last_one_holds() {
    let mut db = seeded();
    let lock = |offset: f64| {
        object(vec![("station_id", text("A")), ("offset_s", Json::Float(dbl(offset)))])
    };
    judge(&mut db, "EVT-IMPACT", "lock_clock", lock(0.25)).unwrap();
    let d = json_decimals(&[dbl(0.5)]);
    let req = EvidenceReq { kind: "lock_clock".to_string(), payload: lock(0.5) };
    add_evidence(&mut db, "EVT-IMPACT", &req, dbl(4.0), &d).unwrap();
    let snap = snapshot_of(&db, "EVT-IMPACT").unwrap();
    assert_eq!(snap.locks.len(), 1);
    assert_eq!((num(snap.locks[0].offset_s), num(snap.locks[0].sigma_s)), (0.5, 0.0));
}

#[test]
fn a_solve_is_refused_for_the_numbers_of_another_snapshot() {
    let s = contaminated();
    let d = json_decimals(&written_doubles(&s, &figures(&s)));
    let refused = |w: &Figures| solver::solve(&s, w, &d).err() == Some(OtherNumbers);
    assert!(!refused(&figures(&s)));
    let mut w = figures(&s);
    w.systems.clear();
    assert!(refused(&w), "no system at all");
    let mut w = figures(&s);
    w.corrected.pop();
    assert!(refused(&w), "a difference is not corrected");
    let far = |w: &mut Figures| match &mut w.systems[0] {
        Some(System::Full(f)) => {
            let fit = f.refined.as_mut().unwrap();
            fit.at = place(1e6, 0.0);
            fit.reach = dbl(1e6);
        }
        other => panic!("not determined: {other:?}"),
    };
    let mut w = figures(&s);
    far(&mut w);
    assert!(refused(&w), "a position that cannot be observed");
    let mut w = figures(&s);
    if let Some(System::Full(f)) = &mut w.systems[0] {
        f.refined.as_mut().unwrap().rank_rms = -1;
    }
    assert!(refused(&w), "a rank that does not follow the residual");
    let mut w = figures(&s);
    if let Some(System::Full(f)) = &mut w.systems[0] {
        f.refined.as_mut().unwrap().predicted.pop();
    }
    assert!(refused(&w), "a residual is missing");
    let pair = two_station_snapshot();
    let mut w = figures(&pair);
    w.systems[0] = figures(&s).systems.remove(0);
    let d = json_decimals(&written_doubles(&pair, &w));
    assert_eq!(solver::solve(&pair, &w, &d).err(), Some(OtherNumbers), "too few edges");
}

#[test]
fn a_job_waits_where_its_numbers_are_missing() {
    let mut db = seeded();
    let snap = snapshot_of(&db, "EVT-IMPACT").unwrap();
    let right = figures(&snap);
    let d = json_decimals(&written_doubles(&snap, &right));
    let wrong = Figures { systems: vec![], ..figures(&snap) };
    let at = Times { created: dbl(1.0), started: dbl(1.0), finished: dbl(1.0) };
    let r = enqueue_and_run(&mut db, &snap, "w", &wrong, at, &d);
    assert_eq!(r.err().as_deref(), Some("the numbers of another snapshot"));
    assert_eq!(db.jobs.last().unwrap().state, "created");
    assert!(db.candidates.is_empty());
    assert!(enqueue_and_run(&mut db, &snap, "w", &right, at, &d).is_ok());
    assert_eq!(db.jobs.last().unwrap().state, "done");
    assert!(!db.candidates.is_empty());
}

#[test]
fn every_point_can_be_observed_and_stands_by_its_residual() {
    for s in [contaminated(), two_station_snapshot()] {
        let out = solve(&s);
        assert!(!out.is_empty());
        let radius = num(s.observable_radius);
        let mut last = f64::NEG_INFINITY;
        for c in &out {
            match (c.x, c.y) {
                (Some(x), Some(y)) => {
                    assert_eq!(c.kind, "point");
                    assert!(num(x).hypot(num(y)) <= radius);
                    let rms = match c.metrics.get("rms_nsigma") {
                        Some(Json::Float(v)) => (num(*v) * 1e9).round(),
                        other => panic!("{other:?}"),
                    };
                    assert!(last <= rms);
                    last = rms;
                }
                _ => assert_eq!((c.kind.as_str(), out.len()), ("region", 1)),
            }
        }
    }
}
