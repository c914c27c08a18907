//! Locating a source by the differences between arrival times.
//!
//! There are two kinds of measurement: correlation delays, which do not depend
//! on the clocks, and differences of onset times, which count only where the
//! clocks of both stations are locked. Each choice of which suspected
//! reflections to leave out is a hypothesis of its own; a point that lies
//! outside the site is reported as such and never moved.
use vstd::prelude::*;
use vstd::string::*;
use vstd::utf8::encode_utf8;

use crate::canon::{canonical_fingerprint, canonical_text, Decimals, Quoting};
use crate::digest::{fingerprint, sha8};
pub use crate::solving::{solve, Unsolved, Workings};
use crate::double::Double;
use crate::figures::{Differences, Distances, Pt};
use crate::geom::{
    curve_on, hyperbola, is_in, lies_in, proper, site_region, uncertain_region, uncertainty_region,
    whole_site_region, Arc, Observability, Spread, Tdoa,
};
use crate::json::{array, json_views, Json, JsonView, Members};
use crate::model::{
    candidate_views, candidateresidual_views, copy_option, opt_text, Candidate, CandidateResidual,
    CandidateResidualView, CandidateView, ClockSegment, EvidenceRow, LagRow, ObservationRow,
    SiteBounds, Station,
};
use crate::text::{
    joined, joined_text, listed, padded, padded_text, precedes, same, same_option, signed,
    signed_text, text_lt, text_order_is_total, text_order_is_transitive, texts,
};
use crate::textset::{ascending, insert_text, listing, listing_is, listing_is_unique, lists_set};

verus! {

pub const SOLVER_VERSION: &'static str = "solver-1.0.0";

pub const MAX_HYPOTHESES: usize = 24;

/// 0.004 s: above this residual the measurements contradict each other.
pub const INCONSISTENT_RMS_SEC: u64 = 0x3f70_624d_d2f1_a9fc;

/// 1e-8: below this eigenvalue the geometry does not fix a position.
pub const WEAK_LAMBDA_MIN: u64 = 0x3e45_798e_e230_8c3a;

/// 1.0
pub const ONE: u64 = 0x3ff0_0000_0000_0000;

/// The event that is to be located.
#[derive(Debug)]
pub struct SolverEvent {
    pub event_id: String,
    pub window_start: Double,
    pub window_end: Double,
    pub sound_speed_mps: Double,
    pub bounds: SiteBounds,
}

/// All that a solve goes by.
#[derive(Debug)]
pub struct SolverInput {
    pub event: SolverEvent,
    pub stations: Vec<Station>,
    pub clock_segments: Vec<(ClockSegment, i64)>,
    pub observations: Vec<ObservationRow>,
    pub lags: Vec<LagRow>,
    pub evidence: Vec<EvidenceRow>,
}

/// A measurement with where it comes from.
#[derive(Debug)]
pub struct DerivedMeas {
    pub tdoa: Tdoa,
    pub kind: String,
    pub lag_uid: Option<String>,
    pub station_id: String,
    pub peer_id: Option<String>,
    pub measured_sec: Double,
    pub reflection: bool,
    pub clock_locked: bool,
}

/// What a [`DerivedMeas`] says.
#[verifier::ext_equal]
pub ghost struct MeasView {
    pub a: Pt,
    pub b: Pt,
    pub tau: Double,
    pub c: Double,
    pub weight: Double,
    pub tag: Seq<char>,
    pub kind: Seq<char>,
    pub lag_uid: Option<Seq<char>>,
    pub station_id: Seq<char>,
    pub peer_id: Option<Seq<char>>,
    pub measured_sec: Double,
    pub reflection: bool,
    pub clock_locked: bool,
}

impl View for DerivedMeas {
    type V = MeasView;

    open spec fn view(&self) -> MeasView {
        MeasView {
            a: self.tdoa.a,
            b: self.tdoa.b,
            tau: self.tdoa.tau,
            c: self.tdoa.c,
            weight: self.tdoa.weight,
            tag: self.tdoa.tag@,
            kind: self.kind@,
            lag_uid: opt_text(self.lag_uid),
            station_id: self.station_id@,
            peer_id: opt_text(self.peer_id),
            measured_sec: self.measured_sec,
            reflection: self.reflection,
            clock_locked: self.clock_locked,
        }
    }
}

/// What a list of measurements says.
pub open spec fn meas_views(s: Seq<DerivedMeas>) -> Seq<MeasView> {
    s.map_values(|m: DerivedMeas| m@)
}

// ---------- Evidence ----------

/// A piece of evidence says that a delay is a reflection.
pub open spec fn excludes(ev: EvidenceRow, uid: Seq<char>) -> bool {
    &&& ev.kind@ == "exclude_reflection"@
    &&& ev.payload@.member("lag_uid"@) matches Some(v) && v.text() == Some(uid)
}

/// A piece of evidence locks a clock segment.
pub open spec fn locks(ev: EvidenceRow, id: int) -> bool {
    &&& ev.kind@ == "lock_clock"@
    &&& ev.payload@.member("segment_id"@) matches Some(v) && v.whole() == Some(id)
}

/// A delay is marked as a reflection.
pub open spec fn marked(evidence: Seq<EvidenceRow>, uid: Seq<char>) -> bool {
    exists|i: int| 0 <= i < evidence.len() && excludes(#[trigger] evidence[i], uid)
}

/// A clock segment is locked.
pub open spec fn locked(evidence: Seq<EvidenceRow>, id: int) -> bool {
    exists|i: int| 0 <= i < evidence.len() && locks(#[trigger] evidence[i], id)
}

/// The texts among the items of an array, in their order.
pub open spec fn texts_among(items: Seq<JsonView>) -> Seq<Seq<char>>
    decreases items.len(),
{
    if items.len() == 0 {
        Seq::empty()
    } else {
        let before = texts_among(items.drop_last());
        match items.last().text() {
            Some(t) => before.push(t),
            None => before,
        }
    }
}

/// The pair of candidates that a piece of evidence keeps.
pub open spec fn kept_pair(ev: EvidenceRow) -> Option<(Seq<char>, Seq<char>)> {
    if ev.kind@ == "keep_ambiguous"@ {
        match ev.payload@.member("candidate_ids"@) {
            Some(v) => match v.items() {
                Some(items) => {
                    let ids = texts_among(items);
                    if ids.len() == 2 {
                        Some((ids[0], ids[1]))
                    } else {
                        None
                    }
                },
                None => None,
            },
            None => None,
        }
    } else {
        None
    }
}

/// The pairs of candidates that the evidence keeps, in the order of the evidence.
pub open spec fn kept_pairs(evidence: Seq<EvidenceRow>) -> Seq<(Seq<char>, Seq<char>)>
    decreases evidence.len(),
{
    if evidence.len() == 0 {
        Seq::empty()
    } else {
        let before = kept_pairs(evidence.drop_last());
        match kept_pair(evidence.last()) {
            Some(p) => before.push(p),
            None => before,
        }
    }
}

/// What a list of pairs of texts says.
pub open spec fn pair_texts(s: Seq<(String, String)>) -> Seq<(Seq<char>, Seq<char>)> {
    s.map_values(|p: (String, String)| (p.0@, p.1@))
}

/// What the evidence amounts to.
#[derive(Debug)]
pub struct Subjects {
    /// The delays marked as reflections, in order.
    pub excluded_lags: Vec<String>,
    /// The locked clock segments.
    pub locked_segments: Vec<i64>,
    /// The pairs of candidates that are kept.
    pub ties: Vec<(String, String)>,
}

impl Subjects {
    /// This is what the evidence amounts to.
    pub open spec fn sum_up(self, evidence: Seq<EvidenceRow>) -> bool {
        &&& ascending(texts(self.excluded_lags@))
        &&& forall|t: Seq<char>| #[trigger]
            texts(self.excluded_lags@).contains(t) <==> marked(evidence, t)
        &&& forall|i: int, j: int|
            0 <= i < j < self.locked_segments@.len() ==> self.locked_segments@[i]
                != self.locked_segments@[j]
        &&& forall|id: i64| #[trigger]
            self.locked_segments@.contains(id) <==> locked(evidence, id as int)
        &&& pair_texts(self.ties@) == kept_pairs(evidence)
    }
}

fn text_items(items: &Vec<Json>) -> (r: Vec<String>)
    ensures
        texts(r@) == texts_among(items@.map_values(|x: Json| x@)),
{
    let ghost all = items@.map_values(|x: Json| x@);
    let mut out: Vec<String> = Vec::new();
    let mut i: usize = 0;
    assert(texts(out@) =~= texts_among(all.take(0)));
    while i < items.len()
        invariant
            i <= items@.len(),
            all == items@.map_values(|x: Json| x@),
            texts(out@) =~= texts_among(all.take(i as int)),
        decreases items@.len() - i,
    {
        let ghost before = texts(out@);
        assert(all.take(i + 1).drop_last() =~= all.take(i as int));
        assert(all.take(i + 1).last() == items@[i as int]@);
        match items[i].as_text() {
            Some(t) => {
                out.push(t.clone());
                assert(texts(out@) =~= before.push(t@));
            },
            None => {},
        }
        i += 1;
    }
    assert(all.take(i as int) =~= all);
    out
}

fn kept_by(ev: &EvidenceRow) -> (r: Option<(String, String)>)
    ensures
        match r {
            Some(p) => kept_pair(*ev) == Some((p.0@, p.1@)),
            None => kept_pair(*ev) is None,
        },
{
    if !same(ev.kind.as_str(), "keep_ambiguous") {
        return None;
    }
    match ev.payload.get("candidate_ids") {
        Some(v) => match v.as_items() {
            Some(items) => {
                let ids = text_items(items);
                assert(texts(ids@).len() == ids@.len());
                if ids.len() == 2 {
                    let a = ids[0].clone();
                    let b = ids[1].clone();
                    assert(texts(ids@)[0] == a@ && texts(ids@)[1] == b@);
                    Some((a, b))
                } else {
                    None
                }
            },
            None => None,
        },
        None => None,
    }
}

fn has_id(list: &Vec<i64>, id: i64) -> (r: bool)
    ensures
        r == list@.contains(id),
{
    let mut i: usize = 0;
    while i < list.len()
        invariant
            i <= list@.len(),
            forall|j: int| 0 <= j < i ==> list@[j] != id,
        decreases list@.len() - i,
    {
        if list[i] == id {
            return true;
        }
        i += 1;
    }
    false
}

/// Sums up the evidence. Repeated judgements of one delay or one segment count
/// once.
pub fn active_subjects(evidence: &Vec<EvidenceRow>) -> (r: Subjects)
    ensures
        r.sum_up(evidence@),
{
    let mut excluded_lags: Vec<String> = Vec::new();
    let mut locked_segments: Vec<i64> = Vec::new();
    let mut ties: Vec<(String, String)> = Vec::new();
    let mut i: usize = 0;
    assert(evidence@.take(0) =~= Seq::empty());
    assert(pair_texts(ties@) =~= Seq::empty());
    while i < evidence.len()
        invariant
            i <= evidence@.len(),
            ascending(texts(excluded_lags@)),
            forall|t: Seq<char>| #[trigger]
                texts(excluded_lags@).contains(t) <==> marked(evidence@.take(i as int), t),
            forall|a: int, b: int|
                0 <= a < b < locked_segments@.len() ==> locked_segments@[a] != locked_segments@[b],
            forall|id: i64| #[trigger]
                locked_segments@.contains(id) <==> locked(evidence@.take(i as int), id as int),
            pair_texts(ties@) =~= kept_pairs(evidence@.take(i as int)),
        decreases evidence@.len() - i,
    {
        let ev = &evidence[i];
        let ghost old_list = evidence@.take(i as int);
        let ghost new_list = evidence@.take(i + 1);
        let ghost ties0 = pair_texts(ties@);
        let ghost lags0 = texts(excluded_lags@);
        let ghost segs0 = locked_segments@;
        proof {
            assert(new_list.drop_last() =~= old_list);
            assert(new_list.last() == *ev);
            assert forall|t: Seq<char>| #[trigger] marked(new_list, t) <==> marked(old_list, t)
                || excludes(*ev, t) by {
                if marked(old_list, t) {
                    let k = choose|k: int|
                        0 <= k < old_list.len() && excludes(#[trigger] old_list[k], t);
                    assert(new_list[k] == old_list[k]);
                }
                if excludes(*ev, t) {
                    assert(new_list[i as int] == *ev);
                }
                if marked(new_list, t) && !excludes(*ev, t) {
                    let k = choose|k: int|
                        0 <= k < new_list.len() && excludes(#[trigger] new_list[k], t);
                    assert(old_list[k] == new_list[k]);
                }
            }
            assert forall|id: int| #[trigger] locked(new_list, id) <==> locked(old_list, id)
                || locks(*ev, id) by {
                if locked(old_list, id) {
                    let k = choose|k: int|
                        0 <= k < old_list.len() && locks(#[trigger] old_list[k], id);
                    assert(new_list[k] == old_list[k]);
                }
                if locks(*ev, id) {
                    assert(new_list[i as int] == *ev);
                }
                if locked(new_list, id) && !locks(*ev, id) {
                    let k = choose|k: int|
                        0 <= k < new_list.len() && locks(#[trigger] new_list[k], id);
                    assert(old_list[k] == new_list[k]);
                }
            }
        }
        if same(ev.kind.as_str(), "exclude_reflection") {
            match ev.payload.get("lag_uid") {
                Some(v) => match v.as_text() {
                    Some(uid) => {
                        insert_text(&mut excluded_lags, uid.clone());
                    },
                    None => {},
                },
                None => {},
            }
        }
        if same(ev.kind.as_str(), "lock_clock") {
            match ev.payload.get("segment_id") {
                Some(v) => match v.as_whole() {
                    Some(id) => {
                        if !has_id(&locked_segments, id) {
                            locked_segments.push(id);
                            assert forall|x: i64| #[trigger]
                                locked_segments@.contains(x) <==> segs0.contains(x) || x == id by {
                                if segs0.contains(x) {
                                    let k = choose|k: int| 0 <= k < segs0.len() && segs0[k] == x;
                                    assert(locked_segments@[k] == x);
                                }
                                assert(locked_segments@[segs0.len() as int] == id);
                            }
                        }
                    },
                    None => {},
                },
                None => {},
            }
        }
        match kept_by(ev) {
            Some(p) => {
                let ghost pair = (p.0@, p.1@);
                ties.push(p);
                assert(pair_texts(ties@) =~= ties0.push(pair));
            },
            None => {},
        }
        i += 1;
    }
    assert(evidence@.take(i as int) =~= evidence@);
    Subjects { excluded_lags, locked_segments, ties }
}

// ---------- Measurements ----------

/// Where a station stands; of two entries for one station the later counts.
pub open spec fn place_of(stations: Seq<Station>, id: Seq<char>) -> Option<Pt>
    decreases stations.len(),
{
    if stations.len() == 0 {
        None
    } else if stations.last().station_id@ == id {
        Some(Pt { x: stations.last().x, y: stations.last().y })
    } else {
        place_of(stations.drop_last(), id)
    }
}

fn position(stations: &Vec<Station>, id: &str) -> (r: Option<Pt>)
    ensures
        r == place_of(stations@, id@),
{
    let mut i: usize = stations.len();
    assert(stations@.take(i as int) =~= stations@);
    while i > 0
        invariant
            i <= stations@.len(),
            place_of(stations@, id@) == place_of(stations@.take(i as int), id@),
        decreases i,
    {
        i -= 1;
        assert(stations@.take(i + 1).drop_last() =~= stations@.take(i as int));
        assert(stations@.take(i + 1).last() == stations@[i as int]);
        if same(stations[i].station_id.as_str(), id) {
            return Some(Pt { x: stations[i].x, y: stations[i].y });
        }
    }
    None
}

/// An observation counts: it is no duplicate and its onset lies in the window.
pub open spec fn eligible(o: ObservationRow, e: SolverEvent) -> bool {
    &&& o.duplicate_of is None
    &&& !o.local_onset_sec.below(e.window_start)
    &&& !e.window_end.up_to(o.local_onset_sec)
}

fn is_eligible(o: &ObservationRow, e: &SolverEvent) -> (r: bool)
    ensures
        r == eligible(*o, *e),
{
    match &o.duplicate_of {
        Some(_) => false,
        None => !o.local_onset_sec.is_below(e.window_start) && !e.window_end.is_up_to(
            o.local_onset_sec,
        ),
    }
}

/// Of the first `n` observations, number `i` stands for its station: it counts,
/// and no other that counts there has a smaller identifier.
pub open spec fn stands_for_station(
    obs: Seq<ObservationRow>,
    e: SolverEvent,
    n: int,
    i: int,
) -> bool {
    &&& 0 <= i < n
    &&& eligible(obs[i], e)
    &&& forall|j: int|
        0 <= j < n && eligible(#[trigger] obs[j], e) && obs[j].station_id@ == obs[i].station_id@
            ==> text_lt(obs[i].obs_uid@, obs[j].obs_uid@) || (obs[i].obs_uid@ == obs[j].obs_uid@
            && i <= j)
}

/// `r` lists, for each station with an observation that counts among the first
/// `n`, the one that stands for it, in the order of the stations.
pub open spec fn is_roster(
    obs: Seq<ObservationRow>,
    e: SolverEvent,
    n: int,
    r: Seq<int>,
) -> bool {
    &&& forall|k: int| 0 <= k < r.len() ==> #[trigger] stands_for_station(obs, e, n, r[k])
    &&& forall|k: int, l: int|
        0 <= k < l < r.len() ==> text_lt(
            obs[#[trigger] r[k]].station_id@,
            obs[#[trigger] r[l]].station_id@,
        )
    &&& forall|j: int|
        0 <= j < n && eligible(#[trigger] obs[j], e) ==> exists|k: int|
            0 <= k < r.len() && obs[#[trigger] r[k]].station_id@ == obs[j].station_id@
}

/// The roster of an input.
pub open spec fn roster_of(obs: Seq<ObservationRow>, e: SolverEvent) -> Seq<int> {
    choose|r: Seq<int>| is_roster(obs, e, obs.len() as int, r)
}

/// There is only one roster.
pub proof fn roster_is_unique(
    obs: Seq<ObservationRow>,
    e: SolverEvent,
    n: int,
    a: Seq<int>,
    b: Seq<int>,
)
    requires
        is_roster(obs, e, n, a),
        is_roster(obs, e, n, b),
    ensures
        a == b,
{
    let sa = a.map_values(|i: int| obs[i].station_id@);
    let sb = b.map_values(|i: int| obs[i].station_id@);
    assert(ascending(sa)) by {
        assert forall|i: int, j: int| 0 <= i < j < sa.len() implies text_lt(
            #[trigger] sa[i],
            #[trigger] sa[j],
        ) by {
            assert(text_lt(obs[a[i]].station_id@, obs[a[j]].station_id@));
        }
    }
    assert(ascending(sb)) by {
        assert forall|i: int, j: int| 0 <= i < j < sb.len() implies text_lt(
            #[trigger] sb[i],
            #[trigger] sb[j],
        ) by {
            assert(text_lt(obs[b[i]].station_id@, obs[b[j]].station_id@));
        }
    }
    assert forall|t: Seq<char>|
        #![trigger sa.contains(t)]
        #![trigger sb.contains(t)]
        sa.contains(t) <==> sb.contains(t) by {
        if sa.contains(t) {
            let k = choose|k: int| 0 <= k < sa.len() && sa[k] == t;
            assert(stands_for_station(obs, e, n, a[k]));
            assert(eligible(obs[a[k]], e));
            let l = choose|l: int|
                0 <= l < b.len() && obs[#[trigger] b[l]].station_id@ == obs[a[k]].station_id@;
            assert(sb[l] == t);
        }
        if sb.contains(t) {
            let k = choose|k: int| 0 <= k < sb.len() && sb[k] == t;
            assert(stands_for_station(obs, e, n, b[k]));
            assert(eligible(obs[b[k]], e));
            let l = choose|l: int|
                0 <= l < a.len() && obs[#[trigger] a[l]].station_id@ == obs[b[k]].station_id@;
            assert(sa[l] == t);
        }
    }
    listing_is_unique(sa, sb);
    assert forall|k: int| 0 <= k < a.len() implies a[k] == b[k] by {
        assert(sa[k] == sb[k]);
        assert(stands_for_station(obs, e, n, a[k]));
        assert(stands_for_station(obs, e, n, b[k]));
        assert(eligible(obs[a[k]], e) && eligible(obs[b[k]], e));
        text_order_is_total(obs[a[k]].obs_uid@, obs[b[k]].obs_uid@);
    }
    assert(a =~= b);
}

/// A list of positions as numbers.
pub open spec fn as_ints(s: Seq<usize>) -> Seq<int> {
    s.map_values(|i: usize| i as int)
}

proof fn roster_step(
    obs: Seq<ObservationRow>,
    e: SolverEvent,
    n: int,
    r0: Seq<int>,
    r1: Seq<int>,
    k: int,
    known: bool,
    better: bool,
)
    requires
        0 <= n < obs.len(),
        eligible(obs[n], e),
        is_roster(obs, e, n, r0),
        0 <= k <= r0.len(),
        forall|j: int| 0 <= j < k ==>
            text_lt(obs[#[trigger] r0[j]].station_id@, obs[n].station_id@),
        k < r0.len() ==> !text_lt(obs[r0[k]].station_id@, obs[n].station_id@),
        known == (k < r0.len() && obs[r0[k]].station_id@ == obs[n].station_id@),
        known ==> better == text_lt(obs[n].obs_uid@, obs[r0[k]].obs_uid@),
        known && better ==> r1 == r0.update(k, n),
        known && !better ==> r1 == r0,
        !known ==> r1 == r0.insert(k, n),
    ensures
        is_roster(obs, e, n + 1, r1),
{
    let sid = obs[n].station_id@;
    assert forall|l: int| k < l < r0.len() implies text_lt(sid, obs[#[trigger] r0[l]].station_id@)
        by {
        let a = obs[r0[k]].station_id@;
        text_order_is_total(a, sid);
        assert(text_lt(a, obs[r0[l]].station_id@));
        if a != sid {
            text_order_is_transitive(sid, a, obs[r0[l]].station_id@);
        }
    }
    if !known && k < r0.len() {
        text_order_is_total(obs[r0[k]].station_id@, sid);
        assert(text_lt(sid, obs[r0[k]].station_id@));
    }
    // Nobody else on the roster shares the station.
    assert forall|l: int| 0 <= l < r0.len()
        && (!known || l != k) implies obs[#[trigger] r0[l]].station_id@
        != sid by {
        text_order_is_total(obs[r0[l]].station_id@, sid);
    }
    if known {
        text_order_is_total(obs[n].obs_uid@, obs[r0[k]].obs_uid@);
        assert(stands_for_station(obs, e, n, r0[k]));
    }
    assert forall|m: int| 0 <= m < r1.len() implies #[trigger] stands_for_station(
        obs,
        e,
        n + 1,
        r1[m],
    ) by {
        if r1[m] == n && !(exists|l: int| 0 <= l < r0.len() && r0[l] == n) {
            assert forall|j: int|
                0 <= j < n + 1 && eligible(#[trigger] obs[j], e)
                    && obs[j].station_id@ == sid implies
                text_lt(obs[n].obs_uid@, obs[j].obs_uid@) || (obs[n].obs_uid@ == obs[j].obs_uid@
                && n <= j) by {
                if j < n {
                    let l = choose|l: int|
                        0 <= l < r0.len()
                            && obs[#[trigger] r0[l]].station_id@ == obs[j].station_id@;
                    assert(known && l == k);
                    let u = obs[r0[k]].obs_uid@;
                    assert(text_lt(obs[n].obs_uid@, u));
                    if u != obs[j].obs_uid@ {
                        text_order_is_transitive(obs[n].obs_uid@, u, obs[j].obs_uid@);
                    }
                }
            }
        } else {
            let l = if known {
                m
            } else if m < k {
                m
            } else {
                m - 1
            };
            assert(r1[m] == r0[l]);
            assert(stands_for_station(obs, e, n, r0[l]));
            let i = r0[l];
            assert forall|j: int|
                0 <= j < n + 1 && eligible(#[trigger] obs[j], e) && obs[j].station_id@
                    == obs[i].station_id@ implies text_lt(obs[i].obs_uid@, obs[j].obs_uid@) || (
            obs[i].obs_uid@ == obs[j].obs_uid@ && i <= j) by {
                if j == n {
                    assert(known && l == k);
                }
            }
        }
    }
    assert forall|m: int, l: int| 0 <= m < l < r1.len() implies text_lt(
        obs[#[trigger] r1[m]].station_id@,
        obs[#[trigger] r1[l]].station_id@,
    ) by {
        if known {
            assert(text_lt(obs[r0[m]].station_id@, obs[r0[l]].station_id@));
        } else {
            if m == k {
                assert(r1[l] == r0[l - 1]);
            } else if l == k {
                assert(r1[m] == r0[m]);
            } else {
                let m0 = if m < k { m } else { m - 1 };
                let l0 = if l < k { l } else { l - 1 };
                assert(r1[m] == r0[m0] && r1[l] == r0[l0]);
                assert(text_lt(obs[r0[m0]].station_id@, obs[r0[l0]].station_id@));
            }
        }
    }
    assert forall|j: int| 0 <= j < n + 1 && eligible(#[trigger] obs[j], e) implies exists|m: int|
        0 <= m < r1.len() && obs[#[trigger] r1[m]].station_id@ == obs[j].station_id@ by {
        if j == n {
            assert(obs[r1[k]].station_id@ == sid);
        } else {
            let l = choose|l: int|
                0 <= l < r0.len() && obs[#[trigger] r0[l]].station_id@ == obs[j].station_id@;
            if known {
                assert(obs[r1[l]].station_id@ == obs[j].station_id@);
            } else {
                let m = if l < k { l } else { l + 1 };
                assert(r1[m] == r0[l]);
            }
        }
    }
}

fn first_not_before(obs: &Vec<ObservationRow>, r: &Vec<usize>, sid: &str) -> (k: usize)
    requires
        forall|j: int| 0 <= j < r@.len() ==> #[trigger] r@[j] < obs@.len(),
    ensures
        k <= r@.len(),
        forall|j: int| 0 <= j < k ==> text_lt(obs@[#[trigger] r@[j] as int].station_id@, sid@),
        k < r@.len() ==> !text_lt(obs@[r@[k as int] as int].station_id@, sid@),
{
    let mut k: usize = 0;
    while k < r.len() && precedes(obs[r[k]].station_id.as_str(), sid)
        invariant
            k <= r@.len(),
            forall|j: int| 0 <= j < r@.len() ==> #[trigger] r@[j] < obs@.len(),
            forall|j: int| 0 <= j < k ==> text_lt(obs@[#[trigger] r@[j] as int].station_id@, sid@),
        decreases r@.len() - k,
    {
        k += 1;
    }
    k
}

proof fn slot_among(obs: Seq<ObservationRow>, r: Seq<int>, id: Seq<char>) -> (k: int)
    ensures
        0 <= k <= r.len(),
        forall|j: int| 0 <= j < k ==> text_lt(obs[#[trigger] r[j]].station_id@, id),
        k < r.len() ==> !text_lt(obs[r[k]].station_id@, id),
    decreases r.len(),
{
    if r.len() == 0 {
        0
    } else {
        let before = slot_among(obs, r.drop_last(), id);
        if before < r.len() - 1 || !text_lt(obs[r.last()].station_id@, id) {
            assert forall|j: int| 0 <= j < before implies text_lt(
                obs[#[trigger] r[j]].station_id@,
                id,
            ) by {
                assert(r.drop_last()[j] == r[j]);
            }
            before
        } else {
            assert forall|j: int| 0 <= j < r.len() implies text_lt(
                obs[#[trigger] r[j]].station_id@,
                id,
            ) by {
                if j < r.len() - 1 {
                    assert(r.drop_last()[j] == r[j]);
                }
            }
            r.len() as int
        }
    }
}

/// There is a roster of the first observations, however many are taken.
pub(crate) proof fn there_is_a_roster(obs: Seq<ObservationRow>, e: SolverEvent, n: int)
    requires
        0 <= n <= obs.len(),
    ensures
        exists|r: Seq<int>| is_roster(obs, e, n, r),
    decreases n,
{
    if n == 0 {
        assert(is_roster(obs, e, 0, Seq::empty()));
    } else {
        there_is_a_roster(obs, e, n - 1);
        let m = n - 1;
        let r0 = choose|r: Seq<int>| is_roster(obs, e, m, r);
        if eligible(obs[n - 1], e) {
            let k = slot_among(obs, r0, obs[n - 1].station_id@);
            let known = k < r0.len() && obs[r0[k]].station_id@ == obs[n - 1].station_id@;
            let better = known && text_lt(obs[n - 1].obs_uid@, obs[r0[k]].obs_uid@);
            let r1 = if known && better {
                r0.update(k, n - 1)
            } else if known {
                r0
            } else {
                r0.insert(k, n - 1)
            };
            roster_step(obs, e, n - 1, r0, r1, k, known, better);
        } else {
            assert forall|k: int| 0 <= k < r0.len() implies #[trigger] stands_for_station(
                obs,
                e,
                n,
                r0[k],
            ) by {
                assert(stands_for_station(obs, e, n - 1, r0[k]));
            }
            assert(is_roster(obs, e, n, r0));
        }
    }
}

/// Picks the observation that stands for each station.
pub fn roster(obs: &Vec<ObservationRow>, e: &SolverEvent) -> (r: Vec<usize>)
    ensures
        is_roster(obs@, *e, obs@.len() as int, as_ints(r@)),
        as_ints(r@) == roster_of(obs@, *e),
{
    let mut r: Vec<usize> = Vec::new();
    let mut i: usize = 0;
    assert(as_ints(r@) =~= Seq::empty());
    while i < obs.len()
        invariant
            i <= obs@.len(),
            is_roster(obs@, *e, i as int, as_ints(r@)),
        decreases obs@.len() - i,
    {
        let o = &obs[i];
        if is_eligible(o, e) {
            let ghost r0 = as_ints(r@);
            assert forall|j: int| 0 <= j < r@.len() implies #[trigger] r@[j] < obs@.len() by {
                assert(stands_for_station(obs@, *e, i as int, r0[j]));
            }
            let k: usize = first_not_before(obs, &r, o.station_id.as_str());
            assert forall|j: int| 0 <= j < k implies text_lt(
                obs@[#[trigger] r0[j]].station_id@,
                o.station_id@,
            ) by {
                assert(r0[j] == r@[j] as int);
            }
            if k < r.len() && same(obs[r[k]].station_id.as_str(), o.station_id.as_str()) {
                let better = precedes(o.obs_uid.as_str(), obs[r[k]].obs_uid.as_str());
                if better {
                    r.set(k, i);
                    assert(as_ints(r@) =~= r0.update(k as int, i as int));
                }
                proof {
                    roster_step(obs@, *e, i as int, r0, as_ints(r@), k as int, true, better);
                }
            } else {
                r.insert(k, i);
                assert(as_ints(r@) =~= r0.insert(k as int, i as int));
                proof {
                    roster_step(obs@, *e, i as int, r0, as_ints(r@), k as int, false, false);
                }
            }
        } else {
            assert(is_roster(obs@, *e, i + 1, as_ints(r@))) by {
                let r0 = as_ints(r@);
                assert forall|k: int| 0 <= k < r0.len() implies #[trigger] stands_for_station(
                    obs@,
                    *e,
                    i + 1,
                    r0[k],
                ) by {
                    assert(stands_for_station(obs@, *e, i as int, r0[k]));
                }
            }
        }
        i += 1;
    }
    proof {
        let n = obs@.len() as int;
        assert(exists|x: Seq<int>| is_roster(obs@, *e, n, x));
        roster_is_unique(obs@, *e, n, as_ints(r@), roster_of(obs@, *e));
    }
    r
}

/// The measurement that a correlation delay gives.
pub open spec fn ccf_measurement(lag: LagRow, p: Pt, q: Pt, c: Double) -> MeasView {
    MeasView {
        a: p,
        b: q,
        tau: lag.lag_sec,
        c,
        weight: Double { bits: ONE },
        tag: "ccf:"@ + lag.lag_uid@,
        kind: "ccf_lag"@,
        lag_uid: Some(lag.lag_uid@),
        station_id: lag.station_id@,
        peer_id: Some(lag.peer_id@),
        measured_sec: lag.lag_sec,
        reflection: lag.hint@ == "reflection"@,
        clock_locked: true,
    }
}

/// The measurements that the correlation delays give: one for each delay
/// between stations that are known.
pub open spec fn ccf_measurements(lags: Seq<LagRow>, stations: Seq<Station>, c: Double) -> Seq<
    MeasView,
>
    decreases lags.len(),
{
    if lags.len() == 0 {
        Seq::empty()
    } else {
        let before = ccf_measurements(lags.drop_last(), stations, c);
        let lag = lags.last();
        match (place_of(stations, lag.station_id@), place_of(stations, lag.peer_id@)) {
            (Some(p), Some(q)) => before.push(ccf_measurement(lag, p, q, c)),
            _ => before,
        }
    }
}

/// The clock segment of an observation is locked.
pub open spec fn clock_is_locked(o: ObservationRow, evidence: Seq<EvidenceRow>) -> bool {
    o.clock_segment_id matches Some(id) && locked(evidence, id as int)
}

/// The measurement that the onsets at a station and at the anchor give.
pub open spec fn onset_measurement(
    o: ObservationRow,
    anchor: ObservationRow,
    p: Pt,
    q: Pt,
    c: Double,
    tau: Double,
    both_locked: bool,
) -> MeasView {
    MeasView {
        a: p,
        b: q,
        tau,
        c,
        weight: Double { bits: ONE },
        tag: "onset:"@ + o.station_id@ + ":"@ + anchor.station_id@,
        kind: "onset_pair"@,
        lag_uid: None,
        station_id: o.station_id@,
        peer_id: Some(anchor.station_id@),
        measured_sec: tau,
        reflection: false,
        clock_locked: both_locked,
    }
}

/// The measurements that the onsets give: each station of the roster but the
/// first is measured against the first, where both onsets are corrected and
/// both stations are known.
pub open spec fn onset_measurements(
    input: SolverInput,
    minus: Differences,
    roster: Seq<int>,
) -> Seq<MeasView>
    decreases roster.len(),
{
    if roster.len() <= 1 {
        Seq::empty()
    } else {
        let before = onset_measurements(input, minus, roster.drop_last());
        let o = input.observations@[roster.last()];
        let anchor = input.observations@[roster[0]];
        match (o.corrected_onset_sec, anchor.corrected_onset_sec) {
            (Some(t), Some(u)) => match (
                place_of(input.stations@, o.station_id@),
                place_of(input.stations@, anchor.station_id@),
            ) {
                (Some(p), Some(q)) => before.push(
                    onset_measurement(
                        o,
                        anchor,
                        p,
                        q,
                        input.event.sound_speed_mps,
                        minus.difference(t, u),
                        clock_is_locked(anchor, input.evidence@) && clock_is_locked(
                            o,
                            input.evidence@,
                        ),
                    ),
                ),
                _ => before,
            },
            _ => before,
        }
    }
}

/// The measurements of an input.
pub open spec fn measurements(input: SolverInput, minus: Differences) -> Seq<MeasView> {
    ccf_measurements(input.lags@, input.stations@, input.event.sound_speed_mps)
        + onset_measurements(input, minus, roster_of(input.observations@, input.event))
}

fn measure_lag(lag: &LagRow, p: Pt, q: Pt, c: Double) -> (r: DerivedMeas)
    ensures
        r@ == ccf_measurement(*lag, p, q, c),
{
    let mut tag = "ccf:".to_owned();
    tag.append(lag.lag_uid.as_str());
    DerivedMeas {
        tdoa: Tdoa { a: p, b: q, tau: lag.lag_sec, c, weight: Double { bits: ONE }, tag },
        kind: "ccf_lag".to_owned(),
        lag_uid: Some(lag.lag_uid.clone()),
        station_id: lag.station_id.clone(),
        peer_id: Some(lag.peer_id.clone()),
        measured_sec: lag.lag_sec,
        reflection: same(lag.hint.as_str(), "reflection"),
        clock_locked: true,
    }
}

fn measure_onset(
    o: &ObservationRow,
    anchor: &ObservationRow,
    p: Pt,
    q: Pt,
    c: Double,
    tau: Double,
    both_locked: bool,
) -> (r: DerivedMeas)
    ensures
        r@ == onset_measurement(*o, *anchor, p, q, c, tau, both_locked),
{
    let mut tag = "onset:".to_owned();
    tag.append(o.station_id.as_str());
    tag.append(":");
    tag.append(anchor.station_id.as_str());
    DerivedMeas {
        tdoa: Tdoa { a: p, b: q, tau, c, weight: Double { bits: ONE }, tag },
        kind: "onset_pair".to_owned(),
        lag_uid: None,
        station_id: o.station_id.clone(),
        peer_id: Some(anchor.station_id.clone()),
        measured_sec: tau,
        reflection: false,
        clock_locked: both_locked,
    }
}

fn has_locked_clock(
    o: &ObservationRow,
    subjects: &Subjects,
    evidence: &Vec<EvidenceRow>,
) -> (r: bool)
    requires
        subjects.sum_up(evidence@),
    ensures
        r == clock_is_locked(*o, evidence@),
{
    match o.clock_segment_id {
        Some(id) => has_id(&subjects.locked_segments, id),
        None => false,
    }
}

/// Derives the measurements from the delays and the observations.
pub fn derive_measurements(input: &SolverInput, minus: &Differences) -> (out: Vec<DerivedMeas>)
    ensures
        meas_views(out@) == measurements(*input, *minus),
{
    let c = input.event.sound_speed_mps;
    let mut out: Vec<DerivedMeas> = Vec::new();
    let mut i: usize = 0;
    assert(meas_views(out@) =~= ccf_measurements(input.lags@.take(0), input.stations@, c));
    while i < input.lags.len()
        invariant
            i <= input.lags@.len(),
            c == input.event.sound_speed_mps,
            meas_views(out@) =~= ccf_measurements(
                input.lags@.take(i as int),
                input.stations@,
                c,
            ),
        decreases input.lags@.len() - i,
    {
        let lag = &input.lags[i];
        let ghost before = meas_views(out@);
        assert(input.lags@.take(i + 1).drop_last() =~= input.lags@.take(i as int));
        assert(input.lags@.take(i + 1).last() == *lag);
        match (
            position(&input.stations, lag.station_id.as_str()),
            position(&input.stations, lag.peer_id.as_str()),
        ) {
            (Some(p), Some(q)) => {
                let m = measure_lag(lag, p, q, c);
                let ghost v = m@;
                out.push(m);
                assert(meas_views(out@) =~= before.push(v));
            },
            _ => {},
        }
        i += 1;
    }
    assert(input.lags@.take(i as int) =~= input.lags@);
    let ghost ccf = meas_views(out@);
    let obs = &input.observations;
    let list = roster(obs, &input.event);
    let ghost all = as_ints(list@);
    let subjects = active_subjects(&input.evidence);
    if list.len() > 0 {
        assert(stands_for_station(obs@, input.event, obs@.len() as int, all[0]));
        let anchor = &obs[list[0]];
        let anchor_ok = has_locked_clock(anchor, &subjects, &input.evidence);
        let mut k: usize = 1;
        while k < list.len()
            invariant
                1 <= k <= list@.len(),
                c == input.event.sound_speed_mps,
                all == as_ints(list@),
                obs == &input.observations,
                is_roster(obs@, input.event, obs@.len() as int, all),
                *anchor == obs@[all[0]],
                subjects.sum_up(input.evidence@),
                anchor_ok == clock_is_locked(*anchor, input.evidence@),
                meas_views(out@) =~= ccf + onset_measurements(*input, *minus, all.take(k as int)),
            decreases list@.len() - k,
        {
            assert(stands_for_station(obs@, input.event, obs@.len() as int, all[k as int]));
            let o = &obs[list[k]];
            let ghost before = meas_views(out@);
            assert(all.take(k + 1).drop_last() =~= all.take(k as int));
            assert(all.take(k + 1).last() == list@[k as int] as int);
            assert(all.take(k + 1)[0] == all[0]);
            let seg_ok = has_locked_clock(o, &subjects, &input.evidence);
            match (o.corrected_onset_sec, anchor.corrected_onset_sec) {
                (Some(t), Some(u)) => match (
                    position(&input.stations, o.station_id.as_str()),
                    position(&input.stations, anchor.station_id.as_str()),
                ) {
                    (Some(p), Some(q)) => {
                        let m = measure_onset(
                            o,
                            anchor,
                            p,
                            q,
                            c,
                            minus.minus(t, u),
                            anchor_ok && seg_ok,
                        );
                        let ghost v = m@;
                        out.push(m);
                        assert(meas_views(out@) =~= before.push(v));
                    },
                    _ => {},
                },
                _ => {},
            }
            k += 1;
        }
        assert(all.take(k as int) =~= all);
    }
    assert(meas_views(out@) =~= ccf + onset_measurements(*input, *minus, all));
    out
}

// ---------- Hypotheses ----------

/// A choice of delays to leave out as reflections.
#[derive(Debug)]
pub struct Hypothesis {
    pub index: usize,
    pub excluded: Vec<String>,
    pub signature: String,
}

/// The name of a choice of delays to leave out.
pub open spec fn signature_of(excluded: Seq<Seq<char>>) -> Seq<char> {
    if excluded.len() == 0 {
        "direct"@
    } else {
        "without:"@ + joined_text(excluded, seq![','])
    }
}

/// Digit `i` of `m` in base two is 0.
pub open spec fn bit_clear(m: nat, i: nat) -> bool
    decreases i,
{
    if i == 0 {
        m % 2 == 0
    } else {
        bit_clear(m / 2, (i - 1) as nat)
    }
}

/// `2^n`, the number of subsets of `n` things.
pub open spec fn subsets(n: nat) -> nat
    decreases n,
{
    if n == 0 {
        1
    } else {
        2 * subsets((n - 1) as nat)
    }
}

/// How many hypotheses there are when `n` reflections are left to judge: the
/// one that leaves out what is marked, then one for each choice among at most
/// 20 of the others, never more than the limit.
pub open spec fn hypothesis_count(n: nat) -> nat {
    let choices = subsets(if n < 20 { n } else { 20 });
    if 1 + choices < MAX_HYPOTHESES {
        1 + choices
    } else {
        MAX_HYPOTHESES as nat
    }
}

/// A hypothesis leaves out a delay: all that are marked and, for every
/// hypothesis after the first, those of the others that its number leaves out.
pub open spec fn leaves_out(
    base: Seq<Seq<char>>,
    optional: Seq<Seq<char>>,
    k: int,
    t: Seq<char>,
) -> bool {
    base.contains(t) || (k > 0 && exists|i: int|
        0 <= i < optional.len() && #[trigger] optional[i] == t && bit_clear(
            (k - 1) as nat,
            i as nat,
        ))
}

/// These are the hypotheses, in their order, for the reflections `base` that
/// are marked and `optional` that are not.
pub open spec fn are_hypotheses(
    r: Seq<Hypothesis>,
    base: Seq<Seq<char>>,
    optional: Seq<Seq<char>>,
) -> bool {
    &&& r.len() == hypothesis_count(optional.len())
    &&& forall|k: int|
        0 <= k < r.len() ==> {
            let h = #[trigger] r[k];
            &&& h.index == k
            &&& h.signature@ == signature_of(texts(h.excluded@))
            &&& lists_set(texts(h.excluded@), |t: Seq<char>| leaves_out(base, optional, k, t))
        }
}

/// The reflections that are marked, or that are not, in order.
pub open spec fn sorted_out(
    reflections: Seq<Seq<char>>,
    manual: Seq<Seq<char>>,
    marked: bool,
) -> Seq<Seq<char>> {
    listing(|t: Seq<char>| reflections.contains(t) && manual.contains(t) == marked)
}

/// Sorts out the reflections that are marked, or those that are not.
pub fn sort_out(
    reflection_lags: &Vec<String>,
    manual_excluded: &Vec<String>,
    marked: bool,
) -> (r: Vec<String>)
    ensures
        texts(r@) == sorted_out(texts(reflection_lags@), texts(manual_excluded@), marked),
        lists_set(
            texts(r@),
            |t: Seq<char>|
                texts(reflection_lags@).contains(t) && texts(manual_excluded@).contains(t)
                    == marked,
        ),
{
    let ghost refl = texts(reflection_lags@);
    let ghost manual = texts(manual_excluded@);
    let mut r: Vec<String> = Vec::new();
    let mut i: usize = 0;
    assert(texts(r@) =~= Seq::empty());
    while i < reflection_lags.len()
        invariant
            i <= reflection_lags@.len(),
            refl == texts(reflection_lags@),
            manual == texts(manual_excluded@),
            ascending(texts(r@)),
            forall|t: Seq<char>| #[trigger]
                texts(r@).contains(t) <==> refl.take(i as int).contains(t) && manual.contains(t)
                    == marked,
        decreases reflection_lags@.len() - i,
    {
        let one = &reflection_lags[i];
        let ghost before = texts(r@);
        let ghost seen = refl.take(i as int);
        let ghost now = refl.take(i + 1);
        assert(now =~= seen.push(one@));
        assert forall|t: Seq<char>| #[trigger] now.contains(t) <==> seen.contains(t)
            || t == one@ by {
            if seen.contains(t) {
                let k = choose|k: int| 0 <= k < seen.len() && seen[k] == t;
                assert(now[k] == t);
            }
            assert(now[i as int] == one@);
        }
        if listed(manual_excluded, one.as_str()) == marked {
            insert_text(&mut r, one.clone());
        }
        i += 1;
    }
    assert(refl.take(i as int) =~= refl);
    proof {
        listing_is(
            texts(r@),
            |t: Seq<char>| refl.contains(t) && manual.contains(t) == marked,
        );
    }
    r
}

/// What the number of a hypothesis leaves out.
fn choice(base: &Vec<String>, optional: &Vec<String>, number: usize) -> (r: Vec<String>)
    requires
        ascending(texts(base@)),
    ensures
        lists_set(
            texts(r@),
            |t: Seq<char>| leaves_out(texts(base@), texts(optional@), number + 1, t),
        ),
{
    let ghost fixed = texts(base@);
    let ghost free = texts(optional@);
    let mut r: Vec<String> = Vec::new();
    let mut i: usize = 0;
    while i < base.len()
        invariant
            i <= base@.len(),
            texts(r@) =~= texts(base@).take(i as int),
        decreases base@.len() - i,
    {
        let ghost before = texts(r@);
        r.push(base[i].clone());
        assert(texts(r@) =~= before.push(base@[i as int]@));
        i += 1;
    }
    assert(texts(r@) =~= fixed);
    let mut rest: usize = number;
    let mut k: usize = 0;
    while k < optional.len()
        invariant
            k <= optional@.len(),
            fixed == texts(base@),
            free == texts(optional@),
            ascending(texts(r@)),
            forall|i: int|
                k <= i < free.len() ==> #[trigger] bit_clear(number as nat, i as nat) == bit_clear(
                    rest as nat,
                    (i - k) as nat,
                ),
            forall|t: Seq<char>| #[trigger]
                texts(r@).contains(t) <==> fixed.contains(t) || exists|i: int|
                    0 <= i < k && #[trigger] free[i] == t && bit_clear(number as nat, i as nat),
        decreases optional@.len() - k,
    {
        let ghost before = texts(r@);
        let ghost at: int = k as int;
        assert(bit_clear(number as nat, at as nat) == bit_clear(rest as nat, (at - k) as nat));
        if rest % 2 == 0 {
            insert_text(&mut r, optional[k].clone());
        }
        assert forall|i: int| k + 1 <= i < free.len() implies #[trigger] bit_clear(
            number as nat,
            i as nat,
        ) == bit_clear((rest / 2) as nat, (i - k - 1) as nat) by {
            assert(bit_clear(number as nat, i as nat) == bit_clear(rest as nat, (i - k) as nat));
        }
        assert forall|t: Seq<char>| #[trigger]
            texts(r@).contains(t) <==> fixed.contains(t) || exists|i: int|
                0 <= i < k + 1 && #[trigger] free[i] == t && bit_clear(
                    number as nat,
                    i as nat,
                ) by {
            assert(free[k as int] == optional@[k as int]@);
            if before.contains(t) && !fixed.contains(t) {
                let i = choose|i: int|
                    0 <= i < k && #[trigger] free[i] == t && bit_clear(number as nat, i as nat);
                assert(free[i] == t);
            }
        }
        rest = rest / 2;
        k += 1;
    }
    assert forall|t: Seq<char>| #[trigger] texts(r@).contains(t) <==> leaves_out(
        fixed,
        free,
        number + 1,
        t,
    ) by {
        if leaves_out(fixed, free, number + 1, t) && !fixed.contains(t) {
            let i = choose|i: int|
                0 <= i < free.len() && #[trigger] free[i] == t && bit_clear(
                    (number + 1 - 1) as nat,
                    i as nat,
                );
            assert(free[i] == t);
        }
    }
    r
}

fn signature(excluded: &Vec<String>) -> (r: String)
    ensures
        r@ == signature_of(texts(excluded@)),
{
    assert(texts(excluded@).len() == excluded@.len());
    if excluded.len() == 0 {
        "direct".to_owned()
    } else {
        proof {
            reveal_strlit(",");
            assert(","@ =~= seq![',']);
        }
        let mut s = "without:".to_owned();
        let names = joined(excluded, ",");
        s.append(names.as_str());
        s
    }
}

proof fn few_subsets(n: nat)
    ensures
        n >= 5 ==> subsets(n) >= 32,
        n == 0 ==> subsets(n) == 1,
        n == 1 ==> subsets(n) == 2,
        n == 2 ==> subsets(n) == 4,
        n == 3 ==> subsets(n) == 8,
        n == 4 ==> subsets(n) == 16,
    decreases n,
{
    reveal_with_fuel(subsets, 7);
    if n > 5 {
        few_subsets((n - 1) as nat);
    }
}

/// Enumerates the hypotheses: first the one that leaves out every reflection
/// that is marked, then each choice among the others in the order of its
/// number, up to the limit.
pub fn enumerate_hypotheses(
    reflection_lags: &Vec<String>,
    manual_excluded: &Vec<String>,
) -> (r: Vec<Hypothesis>)
    requires
        sorted_out(texts(reflection_lags@), texts(manual_excluded@), false).len() <= 64,
    ensures
        are_hypotheses(
            r@,
            sorted_out(texts(reflection_lags@), texts(manual_excluded@), true),
            sorted_out(texts(reflection_lags@), texts(manual_excluded@), false),
        ),
        1 <= r@.len() <= MAX_HYPOTHESES,
{
    let base = sort_out(reflection_lags, manual_excluded, true);
    let optional = sort_out(reflection_lags, manual_excluded, false);
    let ghost fixed = texts(base@);
    let ghost free = texts(optional@);
    assert(free.len() == optional@.len());
    let n: usize = optional.len();
    let count: usize = if n == 0 {
        2
    } else if n == 1 {
        3
    } else if n == 2 {
        5
    } else if n == 3 {
        9
    } else if n == 4 {
        17
    } else {
        MAX_HYPOTHESES
    };
    proof {
        few_subsets(if n < 20 {
            n as nat
        } else {
            20
        });
    }
    assert(count == hypothesis_count(free.len()));
    let mut hyps: Vec<Hypothesis> = Vec::new();
    let sig = signature(&base);
    let mut first: Vec<String> = Vec::new();
    let mut j: usize = 0;
    while j < base.len()
        invariant
            j <= base@.len(),
            texts(first@) =~= texts(base@).take(j as int),
        decreases base@.len() - j,
    {
        let ghost before = texts(first@);
        first.push(base[j].clone());
        assert(texts(first@) =~= before.push(base@[j as int]@));
        j += 1;
    }
    assert(texts(first@) =~= fixed);
    hyps.push(Hypothesis { index: 0, excluded: first, signature: sig });
    let mut k: usize = 1;
    while k < count
        invariant
            1 <= k <= count <= MAX_HYPOTHESES,
            fixed == texts(base@),
            free == texts(optional@),
            ascending(fixed),
            hyps@.len() == k,
            forall|i: int|
                0 <= i < k ==> {
                    let h = #[trigger] hyps@[i];
                    &&& h.index == i
                    &&& h.signature@ == signature_of(texts(h.excluded@))
                    &&& lists_set(
                        texts(h.excluded@),
                        |t: Seq<char>| leaves_out(fixed, free, i, t),
                    )
                },
        decreases count - k,
    {
        let excluded = choice(&base, &optional, k - 1);
        let sig = signature(&excluded);
        hyps.push(Hypothesis { index: k, excluded, signature: sig });
        k += 1;
    }
    hyps
}

// ---------- One hypothesis ----------

/// How far a measured delay reaches, and how far it can: the distance that
/// sound covers in the delay, and the distance between the two stations with
/// the tolerance added.
#[derive(Clone, Copy, Debug)]
pub struct Reach {
    pub range: Double,
    pub limit: Double,
}

/// Why a measurement is left out under a hypothesis; `None` where it is used.
pub open spec fn objection(m: MeasView, excluded: Seq<Seq<char>>, reach: Reach) -> Option<
    Seq<char>,
> {
    if m.lag_uid matches Some(uid) && excluded.contains(uid) {
        Some("manual_reflection_excluded"@)
    } else if m.kind == "onset_pair"@ && !m.clock_locked {
        Some("clock_segment_unlocked"@)
    } else if reach.limit.below(reach.range) {
        Some("superluminal_lag"@)
    } else {
        None
    }
}

/// The objections to the measurements, one by one.
pub open spec fn objections(
    meas: Seq<MeasView>,
    excluded: Seq<Seq<char>>,
    reach: Seq<Reach>,
) -> Seq<Option<Seq<char>>> {
    Seq::new(meas.len(), |i: int| objection(meas[i], excluded, reach[i]))
}

/// The positions of the measurements that nothing speaks against.
pub open spec fn unopposed(list: Seq<Option<Seq<char>>>) -> Seq<int>
    decreases list.len(),
{
    if list.len() == 0 {
        Seq::empty()
    } else {
        let before = unopposed(list.drop_last());
        if list.last() is None {
            before.push(list.len() - 1)
        } else {
            before
        }
    }
}

/// What is unopposed is exactly what nothing speaks against.
pub(crate) proof fn unopposed_have_no_objection(list: Seq<Option<Seq<char>>>)
    ensures
        forall|k: int|
            0 <= k < unopposed(list).len() ==> 0 <= #[trigger] unopposed(list)[k] < list.len()
                && list[unopposed(list)[k]] is None,
        forall|i: int|
            0 <= i < list.len() && (#[trigger] list[i]) is None ==> unopposed(list).contains(i),
    decreases list.len(),
{
    if list.len() > 0 {
        let before = list.drop_last();
        unopposed_have_no_objection(before);
        let now = unopposed(list);
        assert forall|i: int| 0 <= i < list.len()
            && (#[trigger] list[i]) is None implies now.contains(
            i,
        ) by {
            if i < list.len() - 1 {
                assert(before[i] is None);
                let k = choose|k: int| 0 <= k < unopposed(before).len()
                    && unopposed(before)[k] == i;
                assert(now[k] == i);
            } else {
                assert(now[now.len() - 1] == i);
            }
        }
    }
}

/// Which measurements a hypothesis uses.
#[derive(Debug)]
pub struct Screening {
    pub used: Vec<bool>,
    pub reasons: Vec<Option<String>>,
    pub active: Vec<usize>,
}

/// What a list of optional texts says.
pub open spec fn opt_texts(s: Seq<Option<String>>) -> Seq<Option<Seq<char>>> {
    s.map_values(|o: Option<String>| opt_text(o))
}

impl Screening {
    /// This is what is left of the measurements.
    pub open spec fn comes_from(
        self,
        meas: Seq<MeasView>,
        excluded: Seq<Seq<char>>,
        reach: Seq<Reach>,
    ) -> bool {
        let list = objections(meas, excluded, reach);
        &&& opt_texts(self.reasons@) == list
        &&& self.used@ == list.map_values(|o: Option<Seq<char>>| o is None)
        &&& as_ints(self.active@) == unopposed(list)
    }
}

fn object_to(m: &DerivedMeas, excluded: &Vec<String>, reach: Reach) -> (r: Option<String>)
    ensures
        opt_text(r) == objection(m@, texts(excluded@), reach),
{
    match &m.lag_uid {
        Some(uid) => {
            if listed(excluded, uid.as_str()) {
                return Some("manual_reflection_excluded".to_owned());
            }
        },
        None => {},
    }
    if same(m.kind.as_str(), "onset_pair") && !m.clock_locked {
        return Some("clock_segment_unlocked".to_owned());
    }
    if reach.limit.is_below(reach.range) {
        return Some("superluminal_lag".to_owned());
    }
    None
}

/// Screens the measurements for a hypothesis. A delay that sound cannot cover
/// between the two stations is set aside, not adapted.
pub fn screen(meas: &Vec<DerivedMeas>, excluded: &Vec<String>, reach: &Vec<Reach>) -> (r: Screening)
    requires
        meas@.len() == reach@.len(),
    ensures
        r.comes_from(meas_views(meas@), texts(excluded@), reach@),
{
    let ghost list = objections(meas_views(meas@), texts(excluded@), reach@);
    let mut used: Vec<bool> = Vec::new();
    let mut reasons: Vec<Option<String>> = Vec::new();
    let mut active: Vec<usize> = Vec::new();
    let mut i: usize = 0;
    assert(as_ints(active@) =~= unopposed(list.take(0)));
    while i < meas.len()
        invariant
            i <= meas@.len(),
            meas@.len() == reach@.len(),
            list == objections(meas_views(meas@), texts(excluded@), reach@),
            opt_texts(reasons@) =~= list.take(i as int),
            used@ =~= list.take(i as int).map_values(|o: Option<Seq<char>>| o is None),
            as_ints(active@) =~= unopposed(list.take(i as int)),
        decreases meas@.len() - i,
    {
        let ghost reasons0 = opt_texts(reasons@);
        let ghost active0 = as_ints(active@);
        let why = object_to(&meas[i], excluded, reach[i]);
        assert(opt_text(why) == list[i as int]);
        assert(list.take(i + 1).drop_last() =~= list.take(i as int));
        let free = match &why {
            Some(_) => false,
            None => true,
        };
        used.push(free);
        reasons.push(why);
        assert(opt_texts(reasons@) =~= reasons0.push(opt_text(why)));
        if free {
            active.push(i);
            assert(as_ints(active@) =~= active0.push(i as int));
        }
        i += 1;
    }
    assert(list.take(i as int) =~= list);
    Screening { used, reasons, active }
}

/// What a position predicts for a measurement, and by how much it misses.
#[derive(Clone, Copy, Debug)]
pub struct Prediction {
    pub predicted_sec: Double,
    pub residual_sec: Double,
}

/// How a measurement fits, with or without a position.
pub open spec fn residual_of(
    m: MeasView,
    prediction: Option<Prediction>,
    reason: Option<Seq<char>>,
) -> CandidateResidualView {
    CandidateResidualView {
        kind: m.kind,
        lag_uid: m.lag_uid,
        station_id: m.station_id,
        peer_id: m.peer_id,
        measured_sec: m.measured_sec,
        predicted_sec: match prediction {
            Some(p) => Some(p.predicted_sec),
            None => None,
        },
        residual_sec: match prediction {
            Some(p) => Some(p.residual_sec),
            None => None,
        },
        weight: m.weight,
        used: reason is None,
        excluded_reason: reason,
    }
}

/// How all measurements fit, the ones left out among them.
pub open spec fn residuals_of(
    meas: Seq<MeasView>,
    predictions: Option<Seq<Prediction>>,
    reasons: Seq<Option<Seq<char>>>,
) -> Seq<CandidateResidualView> {
    Seq::new(
        meas.len(),
        |i: int|
            residual_of(
                meas[i],
                match predictions {
                    Some(p) => Some(p[i]),
                    None => None,
                },
                reasons[i],
            ),
    )
}

/// What an optional list holds.
pub open spec fn opt_list(o: Option<&Vec<Prediction>>) -> Option<Seq<Prediction>> {
    match o {
        Some(v) => Some(v@),
        None => None,
    }
}

/// Lists how the measurements fit.
pub fn residuals_for(
    meas: &Vec<DerivedMeas>,
    predictions: Option<&Vec<Prediction>>,
    used: &Vec<bool>,
    reasons: &Vec<Option<String>>,
) -> (r: Vec<CandidateResidual>)
    requires
        predictions matches Some(p) ==> p@.len() == meas@.len(),
        used@.len() == meas@.len(),
        reasons@.len() == meas@.len(),
        forall|i: int| 0 <= i < used@.len() ==> used@[i] == (#[trigger] reasons@[i] is None),
    ensures
        candidateresidual_views(r@) == residuals_of(
            meas_views(meas@),
            opt_list(predictions),
            opt_texts(reasons@),
        ),
{
    let ghost want = residuals_of(meas_views(meas@), opt_list(predictions), opt_texts(reasons@));
    let mut out: Vec<CandidateResidual> = Vec::new();
    let mut i: usize = 0;
    while i < meas.len()
        invariant
            i <= meas@.len(),
            predictions matches Some(p) ==> p@.len() == meas@.len(),
            used@.len() == meas@.len(),
            reasons@.len() == meas@.len(),
            forall|i: int| 0 <= i < used@.len() ==> used@[i] == (#[trigger] reasons@[i] is None),
            want == residuals_of(meas_views(meas@), opt_list(predictions), opt_texts(reasons@)),
            candidateresidual_views(out@) =~= want.take(i as int),
        decreases meas@.len() - i,
    {
        let ghost before = candidateresidual_views(out@);
        let m = &meas[i];
        let (predicted_sec, residual_sec) = match predictions {
            Some(p) => (Some(p[i].predicted_sec), Some(p[i].residual_sec)),
            None => (None, None),
        };
        let one = CandidateResidual {
            kind: m.kind.clone(),
            lag_uid: copy_option(&m.lag_uid),
            station_id: m.station_id.clone(),
            peer_id: copy_option(&m.peer_id),
            measured_sec: m.measured_sec,
            predicted_sec,
            residual_sec,
            weight: m.tdoa.weight,
            used: used[i],
            excluded_reason: copy_option(&reasons[i]),
        };
        let ghost v = one@;
        assert(used@[i as int] == (reasons@[i as int] is None));
        assert(v == want[i as int]);
        out.push(one);
        assert(candidateresidual_views(out@) =~= before.push(v));
        i += 1;
    }
    assert(want.take(i as int) =~= want);
    out
}

/// The clocks alone keep an event from being located: there are onsets with
/// unlocked clocks and no correlation delays.
pub open spec fn clocks_dominate(meas: Seq<MeasView>) -> bool {
    &&& exists|i: int|
        0 <= i < meas.len() && (#[trigger] meas[i]).kind == "onset_pair"@ && !meas[i].clock_locked
    &&& !exists|i: int| 0 <= i < meas.len() && (#[trigger] meas[i]).kind == "ccf_lag"@
}

/// Whether free clocks are all that stands in the way: there are onsets whose clocks
/// are not locked, and no correlation delay.
pub fn clock_freedom_dominates(meas: &Vec<DerivedMeas>) -> (r: bool)
    ensures
        r == clocks_dominate(meas_views(meas@)),
{
    let ghost all = meas_views(meas@);
    let mut open_clock = false;
    let mut delay = false;
    let mut i: usize = 0;
    while i < meas.len()
        invariant
            i <= meas@.len(),
            all == meas_views(meas@),
            open_clock == exists|j: int|
                0 <= j < i && (#[trigger] all[j]).kind == "onset_pair"@ && !all[j].clock_locked,
            delay == exists|j: int| 0 <= j < i && (#[trigger] all[j]).kind == "ccf_lag"@,
        decreases meas@.len() - i,
    {
        assert(all[i as int] == meas@[i as int]@);
        if same(meas[i].kind.as_str(), "onset_pair") && !meas[i].clock_locked {
            open_clock = true;
        }
        if same(meas[i].kind.as_str(), "ccf_lag") {
            delay = true;
        }
        i += 1;
    }
    open_clock && !delay
}

/// A suspected reflection is among the measurements that are used.
pub open spec fn reflection_in_use(meas: Seq<MeasView>, used: Seq<bool>) -> bool {
    exists|i: int| 0 <= i < meas.len() && used[i] && (#[trigger] meas[i]).reflection
}

/// Whether a suspected reflection is among the measurements that are used.
pub fn has_reflection_tension(meas: &Vec<DerivedMeas>, used: &Vec<bool>) -> (r: bool)
    requires
        used@.len() == meas@.len(),
    ensures
        r == reflection_in_use(meas_views(meas@), used@),
{
    let ghost all = meas_views(meas@);
    let mut i: usize = 0;
    while i < meas.len()
        invariant
            i <= meas@.len(),
            used@.len() == meas@.len(),
            all == meas_views(meas@),
            forall|j: int| 0 <= j < i ==> !(used@[j] && (#[trigger] all[j]).reflection),
        decreases meas@.len() - i,
    {
        assert(all[i as int] == meas@[i as int]@);
        if used[i] && meas[i].reflection {
            return true;
        }
        i += 1;
    }
    false
}

/// A position that a search ended at.
#[derive(Clone, Copy, Debug)]
pub struct Trial {
    pub at: Pt,
    pub rms: Double,
}

/// 1e-12 s: residuals that are closer count as equal.
pub const EQUAL_RMS_SEC: u64 = 0x3d71_9799_812d_ea11;

/// 1e-9 m: coordinates that are closer count as equal.
pub const EQUAL_COORDINATE_M: u64 = 0x3e11_2e0b_e826_d695;

/// Of two positions that fit equally well, `a` is taken.
pub open spec fn goes_first(a: Pt, b: Pt, minus: Differences) -> bool {
    if (Double { bits: EQUAL_COORDINATE_M }).below(minus.difference(a.x, b.x).size()) {
        a.x.below(b.x)
    } else {
        a.y.below(b.y)
    }
}

/// Whether a place goes before another: farther left or, in one column, farther
/// down.
pub fn tiebreak(a: Pt, b: Pt, minus: &Differences) -> (r: bool)
    ensures
        r == goes_first(a, b, *minus),
{
    if (Double { bits: EQUAL_COORDINATE_M }).is_below(minus.minus(a.x, b.x).absolute()) {
        a.x.is_below(b.x)
    } else {
        a.y.is_below(b.y)
    }
}

/// A trial takes the place of the best one so far: it fits better, or equally
/// well and goes first.
pub open spec fn displaces(t: Trial, best: Trial, minus: Differences) -> bool {
    t.rms.below(best.rms) || (minus.within(t.rms, best.rms, Double { bits: EQUAL_RMS_SEC })
        && goes_first(t.at, best.at, minus))
}

/// The best of the first `n` trials.
pub open spec fn best_trial(trials: Seq<Trial>, minus: Differences, n: int) -> int
    decreases n,
{
    if n <= 1 {
        0
    } else {
        let b = best_trial(trials, minus, n - 1);
        if displaces(trials[n - 1], trials[b], minus) {
            n - 1
        } else {
            b
        }
    }
}

/// Chooses among the positions that the searches from all seeds ended at.
pub fn choose_best(trials: &Vec<Trial>, minus: &Differences) -> (r: usize)
    requires
        trials@.len() > 0,
    ensures
        r == best_trial(trials@, *minus, trials@.len() as int),
        r < trials@.len(),
{
    let mut best: usize = 0;
    let mut i: usize = 1;
    while i < trials.len()
        invariant
            1 <= i <= trials@.len(),
            best < i,
            best == best_trial(trials@, *minus, i as int),
        decreases trials@.len() - i,
    {
        let t = trials[i];
        let b = trials[best];
        if t.rms.is_below(b.rms) || (minus.is_within(t.rms, b.rms, Double { bits: EQUAL_RMS_SEC })
            && tiebreak(t.at, b.at, minus)) {
            best = i;
        }
        i += 1;
    }
    best
}

/// The position that fits the measurements best, and how well it is fixed.
#[derive(Clone, Copy, Debug)]
pub struct Fit {
    pub at: Pt,
    pub rms: Double,
    pub diverged: bool,
    pub lambda_min: Double,
    pub condition: Double,
}

/// 1e6: above this condition number the geometry does not fix a position.
pub const WEAK_CONDITION: u64 = 0x412e_8480_0000_0000;

/// What a fit amounts to.
#[derive(Clone, Copy, Debug, PartialEq, Eq, Structural)]
pub enum Verdict {
    /// No position satisfies the measurements.
    Inconsistent,
    /// The measurements do not fix a position.
    Weak,
    /// A position outside the site.
    Outside,
    /// A position on the site.
    Inside,
}

/// What a fit amounts to.
pub open spec fn verdict_on(fit: Fit, bounds: SiteBounds) -> Verdict {
    if (Double { bits: INCONSISTENT_RMS_SEC }).below(fit.rms) || fit.diverged {
        Verdict::Inconsistent
    } else if fit.lambda_min.below(Double { bits: WEAK_LAMBDA_MIN }) || !fit.condition.finite()
        || (Double { bits: WEAK_CONDITION }).below(fit.condition) {
        Verdict::Weak
    } else if !lies_in(fit.at, bounds) {
        Verdict::Outside
    } else {
        Verdict::Inside
    }
}

/// Judges a fit.
pub fn judge(fit: &Fit, bounds: SiteBounds) -> (r: Verdict)
    ensures
        r == verdict_on(*fit, bounds),
{
    if (Double { bits: INCONSISTENT_RMS_SEC }).is_below(fit.rms) || fit.diverged {
        Verdict::Inconsistent
    } else if fit.lambda_min.is_below(Double { bits: WEAK_LAMBDA_MIN })
        || !fit.condition.is_finite() || (Double { bits: WEAK_CONDITION }).is_below(
        fit.condition,
    ) {
        Verdict::Weak
    } else if !is_in(fit.at, bounds) {
        Verdict::Outside
    } else {
        Verdict::Inside
    }
}

/// What is added to the residual to rank a candidate behind the better ones: a
/// million, ten, a thousand or nothing.
pub open spec fn penalty_for(v: Verdict) -> Double {
    match v {
        Verdict::Inconsistent => Double { bits: 0x412e_8480_0000_0000 },
        Verdict::Weak => Double { bits: 0x4024_0000_0000_0000 },
        Verdict::Outside => Double { bits: 0x408f_4000_0000_0000 },
        Verdict::Inside => Double { bits: 0 },
    }
}

/// What a verdict adds to a residual.
pub fn penalty(v: Verdict) -> (r: Double)
    ensures
        r == penalty_for(v),
{
    match v {
        Verdict::Inconsistent => Double { bits: 0x412e_8480_0000_0000 },
        Verdict::Weak => Double { bits: 0x4024_0000_0000_0000 },
        Verdict::Outside => Double { bits: 0x408f_4000_0000_0000 },
        Verdict::Inside => Double { bits: 0 },
    }
}

/// The numbers of the region that a position is uncertain in: the direction that
/// is observed well, how far the position may be off, and the corners.
#[derive(Debug)]
pub struct Round {
    pub angle: Double,
    pub spread: Spread,
    pub corners: Vec<Pt>,
}

/// What the numeric side makes of the measurements that are used.
#[derive(Debug)]
pub enum Outcome {
    /// There are none: the middle of the site, and how far it is to its sides.
    Nothing { center: Pt, semi_axes: Pt },
    /// There is one: the numbers of its curve.
    Single { arc: Arc },
    /// There are several: the best fit, what is round it, the residual with the
    /// penalty of the verdict added, and what the position predicts.
    Several { fit: Fit, round: Round, penalised: Double, predictions: Vec<Prediction> },
}

/// How well the place of a fit can be observed.
pub open spec fn observed_in(fit: Fit, angle: Double) -> Observability {
    Observability { lambda_min: fit.lambda_min, condition: fit.condition, angle }
}

/// A verdict that leaves a region and no point.
pub open spec fn leaves_region(v: Verdict) -> bool {
    v == Verdict::Inconsistent || v == Verdict::Weak
}

impl Outcome {
    /// The outcome is one for `active` measurements of `n`.
    pub open spec fn fits(self, active: nat, n: nat) -> bool {
        match self {
            Outcome::Nothing { .. } => active == 0,
            Outcome::Single { .. } => active == 1,
            Outcome::Several { predictions, .. } => active >= 2 && predictions@.len() == n,
        }
    }

    /// The residual with the penalty of the verdict added is no smaller than
    /// either of the two.
    pub open spec fn weighs(self, bounds: SiteBounds) -> bool {
        self matches Outcome::Several { fit, penalised, .. } ==> if penalised.nan() {
            fit.rms.nan()
        } else {
            fit.rms.up_to(penalised) && penalty_for(verdict_on(fit, bounds)).up_to(penalised)
        }
    }

    /// A region has to be drawn onto the site.
    pub open spec fn draws(self, bounds: SiteBounds) -> bool {
        self matches Outcome::Several { fit, .. } && leaves_region(verdict_on(fit, bounds))
    }
}

/// +infinity
pub const LAST_SCORE: u64 = 0x7ff0_0000_0000_0000;

/// A quarter of the largest double.
pub const CURVE_SCORE: u64 = 0x7fcf_ffff_ffff_ffff;

/// The identifier of the candidate of a hypothesis: its event, the job, the
/// number of the hypothesis and the beginning of the fingerprint of what the
/// hypothesis leaves out.
pub open spec fn candidate_id_of(
    event_id: Seq<char>,
    job_id: int,
    index: int,
    signature: Seq<char>,
) -> Seq<char> {
    "cand-"@ + event_id + ":j"@ + signed_text(job_id) + ":"@ + padded_text((index + 1) as nat, 2)
        + ":"@ + fingerprint(encode_utf8(signature)).take(8)
}

/// Why the candidate is no more than it is.
pub open spec fn shortcoming(
    meas: Seq<MeasView>,
    reasons: Seq<Option<Seq<char>>>,
    outcome: Outcome,
    bounds: SiteBounds,
) -> Seq<char> {
    match outcome {
        Outcome::Nothing { .. } => if reasons.contains(Some("superluminal_lag"@)) {
            "unobservable_input"@
        } else if clocks_dominate(meas) {
            "clock_freedom"@
        } else {
            "sensor_geometry"@
        },
        Outcome::Single { .. } => "sensor_geometry"@,
        Outcome::Several { fit, .. } => match verdict_on(fit, bounds) {
            Verdict::Inconsistent => if reflection_in_use(
                meas,
                reasons.map_values(|o: Option<Seq<char>>| o is None),
            ) {
                "multipath"@
            } else {
                "inconsistent_measurements"@
            },
            Verdict::Weak => "sensor_geometry"@,
            Verdict::Outside => "outside_observable_geometry"@,
            Verdict::Inside => ""@,
        },
    }
}

/// The candidate of a hypothesis, before it has a job, a rank and a name.
pub open spec fn candidate_of(
    event: SolverEvent,
    meas: Seq<MeasView>,
    excluded: Seq<Seq<char>>,
    signature: Seq<char>,
    reach: Seq<Reach>,
    outcome: Outcome,
) -> CandidateView {
    let reasons = objections(meas, excluded, reach);
    let none = CandidateView {
        candidate_id: Seq::empty(),
        job_id: 0,
        rank: 0,
        kind: "region"@,
        point: None,
        curve: None,
        region: None,
        rms_sec: None,
        underdetermined: shortcoming(meas, reasons, outcome, event.bounds),
        score: Double { bits: LAST_SCORE },
        signature,
        residuals: residuals_of(meas, None, reasons),
    };
    match outcome {
        Outcome::Nothing { center, semi_axes } => CandidateView {
            region: Some(site_region(event.bounds, center, semi_axes)),
            ..none
        },
        Outcome::Single { arc } => {
            let only = meas[unopposed(reasons)[0]];
            CandidateView {
                kind: "curve"@,
                curve: curve_on(only.a, only.b, arc, event.bounds),
                score: Double { bits: CURVE_SCORE },
                ..none
            }
        },
        Outcome::Several { fit, round, penalised, predictions } => {
            let v = verdict_on(fit, event.bounds);
            CandidateView {
                kind: if leaves_region(v) {
                    "region"@
                } else {
                    "point"@
                },
                point: if v == Verdict::Inconsistent {
                    None
                } else {
                    Some(fit.at)
                },
                region: if leaves_region(v) {
                    Some(
                        uncertain_region(
                            fit.at,
                            observed_in(fit, round.angle),
                            round.spread,
                            round.corners@,
                            event.bounds,
                        ),
                    )
                } else {
                    None
                },
                rms_sec: Some(fit.rms),
                score: if v == Verdict::Inside {
                    fit.rms
                } else {
                    penalised
                },
                residuals: residuals_of(meas, Some(predictions@), reasons),
                ..none
            }
        },
    }
}

/// The result of a hypothesis.
#[derive(Debug)]
pub struct HypResult {
    pub hyp_index: usize,
    pub signature: String,
    pub candidate: Candidate,
}

fn candidate_id(event_id: &str, job_id: i64, index: usize, signature: &str) -> (r: String)
    requires
        index < u64::MAX,
    ensures
        r@ == candidate_id_of(event_id@, job_id as int, index as int, signature@),
{
    let mut s = "cand-".to_owned();
    s.append(event_id);
    s.append(":j");
    s.append(signed(job_id).as_str());
    s.append(":");
    s.append(padded(index as u64 + 1, 2).as_str());
    s.append(":");
    s.append(sha8(signature).as_str());
    s
}

fn has_reason(reasons: &Vec<Option<String>>, why: &str) -> (r: bool)
    ensures
        r == opt_texts(reasons@).contains(Some(why@)),
{
    let mut i: usize = 0;
    while i < reasons.len()
        invariant
            i <= reasons@.len(),
            forall|j: int| 0 <= j < i ==> opt_texts(reasons@)[j] != Some(why@),
        decreases reasons@.len() - i,
    {
        if same_option(&reasons[i], why) {
            assert(opt_texts(reasons@)[i as int] == Some(why@));
            return true;
        }
        i += 1;
    }
    false
}

/// Makes the candidate of a hypothesis from what the numeric side found. A
/// position is reported where it was found; what cannot be satisfied comes
/// before what is not fixed, and that before where the position lies.
pub fn solve_hypothesis(
    event: &SolverEvent,
    meas: &Vec<DerivedMeas>,
    hyp: &Hypothesis,
    reach: &Vec<Reach>,
    outcome: Outcome,
) -> (r: HypResult)
    requires
        meas@.len() == reach@.len(),
        outcome.draws(event.bounds) ==> proper(event.bounds),
        outcome.fits(
            unopposed(objections(meas_views(meas@), texts(hyp.excluded@), reach@)).len(),
            meas@.len(),
        ),
    ensures
        r.hyp_index == hyp.index,
        r.signature@ == hyp.signature@,
        r.candidate@ == candidate_of(
            *event,
            meas_views(meas@),
            texts(hyp.excluded@),
            hyp.signature@,
            reach@,
            outcome,
        ),
{
    let screening = screen(meas, &hyp.excluded, reach);
    let ghost views = meas_views(meas@);
    let ghost reasons = objections(views, texts(hyp.excluded@), reach@);
    assert(opt_texts(screening.reasons@).len() == screening.reasons@.len());
    assert forall|i: int| 0 <= i < screening.used@.len() implies screening.used@[i] == (
    #[trigger] screening.reasons@[i] is None) by {
        assert(opt_texts(screening.reasons@)[i] == reasons[i]);
    }
    let candidate_id = String::new();
    assert(candidate_id@ =~= Seq::<char>::empty());
    let candidate = match outcome {
        Outcome::Nothing { center, semi_axes } => {
            let site = whole_site_region(event.bounds, center, semi_axes);
            let underdetermined = if has_reason(&screening.reasons, "superluminal_lag") {
                "unobservable_input".to_owned()
            } else if clock_freedom_dominates(meas) {
                "clock_freedom".to_owned()
            } else {
                "sensor_geometry".to_owned()
            };
            let residuals = residuals_for(meas, None, &screening.used, &screening.reasons);
            Candidate {
                candidate_id,
                job_id: 0,
                rank: 0,
                kind: "region".to_owned(),
                point: None,
                curve: None,
                region: Some(site),
                rms_sec: None,
                underdetermined,
                score: Double { bits: LAST_SCORE },
                signature: hyp.signature.clone(),
                residuals,
            }
        },
        Outcome::Single { arc } => {
            proof {
                unopposed_have_no_objection(reasons);
                assert(as_ints(screening.active@).len() == 1);
                assert(unopposed(reasons)[0] == screening.active@[0] as int);
            }
            let only: usize = screening.active[0];
            assert(views[only as int] == meas@[only as int]@);
            let curve = hyperbola(meas[only].tdoa.a, meas[only].tdoa.b, &arc, event.bounds);
            let residuals = residuals_for(meas, None, &screening.used, &screening.reasons);
            Candidate {
                candidate_id,
                job_id: 0,
                rank: 0,
                kind: "curve".to_owned(),
                point: None,
                curve,
                region: None,
                rms_sec: None,
                underdetermined: "sensor_geometry".to_owned(),
                score: Double { bits: CURVE_SCORE },
                signature: hyp.signature.clone(),
                residuals,
            }
        },
        Outcome::Several { fit, round, penalised, predictions } => {
            let residuals = residuals_for(
                meas,
                Some(&predictions),
                &screening.used,
                &screening.reasons,
            );
            let v = judge(&fit, event.bounds);
            let region = match v {
                Verdict::Inconsistent | Verdict::Weak => {
                    let o = Observability {
                        lambda_min: fit.lambda_min,
                        condition: fit.condition,
                        angle: round.angle,
                    };
                    Some(
                        uncertainty_region(
                            fit.at,
                            &o,
                            &round.spread,
                            &round.corners,
                            event.bounds,
                        ),
                    )
                },
                Verdict::Outside | Verdict::Inside => None,
            };
            let (kind, point, underdetermined, score) = match v {
                Verdict::Inconsistent => (
                    "region".to_owned(),
                    None,
                    if has_reflection_tension(meas, &screening.used) {
                        "multipath".to_owned()
                    } else {
                        "inconsistent_measurements".to_owned()
                    },
                    penalised,
                ),
                Verdict::Weak => (
                    "region".to_owned(),
                    Some(fit.at),
                    "sensor_geometry".to_owned(),
                    penalised,
                ),
                Verdict::Outside => (
                    "point".to_owned(),
                    Some(fit.at),
                    "outside_observable_geometry".to_owned(),
                    penalised,
                ),
                Verdict::Inside => ("point".to_owned(), Some(fit.at), "".to_owned(), fit.rms),
            };
            Candidate {
                candidate_id,
                job_id: 0,
                rank: 0,
                kind,
                point,
                curve: None,
                region,
                rms_sec: Some(fit.rms),
                underdetermined,
                score,
                signature: hyp.signature.clone(),
                residuals,
            }
        },
    };
    HypResult { hyp_index: hyp.index, signature: hyp.signature.clone(), candidate }
}

// ---------- Ranking ----------

/// What a [`HypResult`] says.
#[verifier::ext_equal]
pub ghost struct HypResultView {
    pub hyp_index: int,
    pub signature: Seq<char>,
    pub candidate: CandidateView,
}

impl View for HypResult {
    type V = HypResultView;

    open spec fn view(&self) -> HypResultView {
        HypResultView {
            hyp_index: self.hyp_index as int,
            signature: self.signature@,
            candidate: self.candidate@,
        }
    }
}

/// What a list of results says.
pub open spec fn result_views(s: Seq<HypResult>) -> Seq<HypResultView> {
    s.map_values(|r: HypResult| r@)
}

/// There is one result for each hypothesis.
pub open spec fn complete(results: Seq<HypResultView>) -> bool {
    &&& forall|i: int| 0 <= i < results.len() ==>
        0 <= (#[trigger] results[i]).hyp_index < results.len()
    &&& forall|i: int, j: int|
        0 <= i < j < results.len() ==> results[i].hyp_index != results[j].hyp_index
}

/// The results in the order of the hypotheses.
pub open spec fn in_hyp_order(results: Seq<HypResultView>, ordered: Seq<HypResultView>) -> bool {
    &&& ordered.len() == results.len()
    &&& forall|i: int|
        0 <= i < results.len() ==> ordered[(#[trigger] results[i]).hyp_index] == results[i]
}

/// 0.05 m: points that are closer are one position.
pub const SAME_POINT_M: u64 = 0x3fa9_9999_9999_999a;

/// A result repeats an earlier one: their points coincide or, where not both
/// have a point, their signatures are the same.
pub open spec fn repeats(d: HypResultView, r: HypResultView, apart: Distances) -> bool {
    match (d.candidate.point, r.candidate.point) {
        (Some(a), Some(b)) => apart.distance(a, b).below(Double { bits: SAME_POINT_M }),
        _ => d.signature == r.signature,
    }
}

/// The results that repeat none before them.
pub open spec fn distinct(results: Seq<HypResultView>, apart: Distances) -> Seq<HypResultView>
    decreases results.len(),
{
    if results.len() == 0 {
        Seq::empty()
    } else {
        let before = distinct(results.drop_last(), apart);
        if exists|i: int|
            0 <= i < before.len() && repeats(#[trigger] before[i], results.last(), apart) {
            before
        } else {
            before.push(results.last())
        }
    }
}

/// A result ranks before another: by its score, then by its hypothesis. A score
/// that is not a number is neither above nor below any other.
pub open spec fn outranks(a: HypResultView, b: HypResultView) -> bool {
    ||| a.candidate.score.below(b.candidate.score)
    ||| !b.candidate.score.below(a.candidate.score) && a.hyp_index < b.hyp_index
}

/// Where a result goes in a ranking: from the end past all that it outranks, up
/// to the first that it does not.
pub open spec fn berth(ranking: Seq<HypResultView>, x: HypResultView) -> int
    decreases ranking.len(),
{
    if ranking.len() == 0 || !outranks(x, ranking.last()) {
        ranking.len() as int
    } else {
        berth(ranking.drop_last(), x)
    }
}

/// The results from the best to the worst: each in turn is put where it goes.
pub open spec fn ranked(kept: Seq<HypResultView>) -> Seq<HypResultView>
    decreases kept.len(),
{
    if kept.len() == 0 {
        Seq::empty()
    } else {
        let before = ranked(kept.drop_last());
        before.insert(berth(before, kept.last()), kept.last())
    }
}

/// `s` is `kept` from the best to the worst.
pub open spec fn is_ranking(kept: Seq<HypResultView>, s: Seq<HypResultView>) -> bool {
    &&& s.to_multiset() == kept.to_multiset()
    &&& forall|i: int, j: int| 0 <= i < j < s.len() ==> outranks(#[trigger] s[i], #[trigger] s[j])
}

/// The results with their ranks, their job and their names.
pub open spec fn numbered(s: Seq<HypResultView>, event_id: Seq<char>, job_id: int) -> Seq<
    CandidateView,
> {
    Seq::new(
        s.len(),
        |k: int|
            CandidateView {
                rank: k + 1,
                job_id,
                candidate_id: candidate_id_of(
                    event_id,
                    job_id,
                    s[k].hyp_index,
                    s[k].signature,
                ),
                ..s[k].candidate
            },
    )
}

/// 0.0008 s: scores that are closer do not tell two points apart.
pub const AMBIGUOUS_GAP_SEC: u64 = 0x3f4a_36e2_eb1c_432d;

/// The first two candidates are points that fit equally well.
pub open spec fn top_two_tie(c: Seq<CandidateView>, minus: Differences) -> bool {
    c.len() >= 2 && c[0].kind == "point"@ && c[1].kind == "point"@ && minus.within(
        c[0].score,
        c[1].score,
        Double { bits: AMBIGUOUS_GAP_SEC },
    )
}

/// The candidates with the first two marked where they tie.
pub open spec fn tie_marked(c: Seq<CandidateView>, minus: Differences) -> Seq<CandidateView> {
    if top_two_tie(c, minus) {
        Seq::new(
            c.len(),
            |k: int|
                if k < 2 {
                    CandidateView { underdetermined: "ambiguous_pair"@, ..c[k] }
                } else {
                    c[k]
                },
        )
    } else {
        c
    }
}

/// The list holds a candidate with this identifier.
pub open spec fn has_candidate(c: Seq<CandidateView>, id: Seq<char>) -> bool {
    exists|k: int| 0 <= k < c.len() && (#[trigger] c[k]).candidate_id == id
}

/// A pair that is kept names this candidate, and both of the pair are listed.
pub open spec fn kept_by_pair(
    c: Seq<CandidateView>,
    ties: Seq<(Seq<char>, Seq<char>)>,
    id: Seq<char>,
) -> bool {
    exists|t: int|
        0 <= t < ties.len() && has_candidate(c, (#[trigger] ties[t]).0) && has_candidate(
            c,
            ties[t].1,
        ) && (ties[t].0 == id || ties[t].1 == id)
}

/// The candidates with those marked that the engineer keeps.
pub open spec fn kept_marked(
    c: Seq<CandidateView>,
    ties: Seq<(Seq<char>, Seq<char>)>,
) -> Seq<CandidateView> {
    Seq::new(
        c.len(),
        |k: int|
            if kept_by_pair(c, ties, c[k].candidate_id) {
                CandidateView { underdetermined: "kept_indistinguishable"@, ..c[k] }
            } else {
                c[k]
            },
    )
}

/// `c` is what the results come to.
pub open spec fn is_outcome(
    results: Seq<HypResultView>,
    apart: Distances,
    minus: Differences,
    event_id: Seq<char>,
    job_id: int,
    ties: Seq<(Seq<char>, Seq<char>)>,
    c: Seq<CandidateView>,
) -> bool {
    exists|ordered: Seq<HypResultView>|
        {
            let ranking = ranked(distinct(ordered, apart));
            &&& #[trigger] in_hyp_order(results, ordered)
            &&& c == kept_marked(tie_marked(numbered(ranking, event_id, job_id), minus), ties)
        }
}

proof fn berths_are_in_range(ranking: Seq<HypResultView>, x: HypResultView)
    ensures
        0 <= berth(ranking, x) <= ranking.len(),
        forall|k: int|
            berth(ranking, x) <= k < ranking.len() ==> outranks(x, #[trigger] ranking[k]),
        berth(ranking, x) > 0 ==> !outranks(x, ranking[berth(ranking, x) - 1]),
    decreases ranking.len(),
{
    if ranking.len() > 0 && outranks(x, ranking.last()) {
        let rest = ranking.drop_last();
        berths_are_in_range(rest, x);
        assert forall|k: int| berth(ranking, x) <= k < ranking.len() implies outranks(
            x,
            #[trigger] ranking[k],
        ) by {
            if k < rest.len() {
                assert(rest[k] == ranking[k]);
            }
        }
    }
}

/// Ranking keeps all results, each as often as it was there.
pub(crate) proof fn ranking_holds_the_same(kept: Seq<HypResultView>)
    ensures
        ranked(kept).to_multiset() == kept.to_multiset(),
        ranked(kept).len() == kept.len(),
    decreases kept.len(),
{
    broadcast use vstd::seq_lib::group_to_multiset_ensures;

    if kept.len() > 0 {
        let rest = kept.drop_last();
        ranking_holds_the_same(rest);
        berths_are_in_range(ranked(rest), kept.last());
        assert(kept =~= rest.push(kept.last()));
    } else {
        assert(ranked(kept) =~= kept);
    }
}

/// Results with scores that are numbers, and different hypotheses, are ranked
/// from the best to the worst.
pub(crate) proof fn ranking_is_in_order(kept: Seq<HypResultView>)
    requires
        forall|i: int| 0 <= i < kept.len() ==> !(#[trigger] kept[i]).candidate.score.nan(),
        forall|i: int, j: int|
            0 <= i < j < kept.len() ==> (#[trigger] kept[i]).hyp_index != (
            #[trigger] kept[j]).hyp_index,
    ensures
        is_ranking(kept, ranked(kept)),
    decreases kept.len(),
{
    broadcast use vstd::seq_lib::group_to_multiset_ensures;

    ranking_holds_the_same(kept);
    if kept.len() > 0 {
        let rest = kept.drop_last();
        let x = kept.last();
        let last = kept.len() - 1;
        assert forall|i: int| 0 <= i < rest.len() implies !(
        #[trigger] rest[i]).candidate.score.nan() by {
            assert(rest[i] == kept[i]);
        }
        assert forall|i: int, j: int| 0 <= i < j < rest.len() implies (
        #[trigger] rest[i]).hyp_index != (#[trigger] rest[j]).hyp_index by {
            assert(rest[i] == kept[i] && rest[j] == kept[j]);
        }
        ranking_is_in_order(rest);
        let before = ranked(rest);
        let at = berth(before, x);
        berths_are_in_range(before, x);
        assert(!kept[last].candidate.score.nan());
        assert forall|k: int| 0 <= k < before.len() implies !(
        #[trigger] before[k]).candidate.score.nan() && before[k].hyp_index != x.hyp_index by {
            assert(before.contains(before[k]));
            assert(rest.to_multiset().count(before[k]) > 0);
            assert(rest.contains(before[k]));
            let i = choose|i: int| 0 <= i < rest.len() && rest[i] == before[k];
            assert(kept[i] == before[k] && kept[last] == x);
        }
        let now = ranked(kept);
        assert forall|i: int, j: int| 0 <= i < j < now.len() implies outranks(
            #[trigger] now[i],
            #[trigger] now[j],
        ) by {
            let k = if i < at {
                i
            } else {
                i - 1
            };
            let l = if j < at {
                j
            } else {
                j - 1
            };
            if i == at {
                assert(now[j] == before[l]);
            } else if j == at {
                assert(now[i] == before[k]);
                assert(outranks(before[at - 1], x));
                if k < at - 1 {
                    assert(outranks(before[k], before[at - 1]));
                }
            } else {
                assert(now[i] == before[k] && now[j] == before[l]);
                assert(outranks(before[k], before[l]));
            }
        }
    }
}

fn does_outrank(a: &HypResult, b: &HypResult) -> (r: bool)
    ensures
        r == outranks(a@, b@),
{
    a.candidate.score.is_below(b.candidate.score) || (!b.candidate.score.is_below(
        a.candidate.score,
    ) && a.hyp_index < b.hyp_index)
}

fn backfill(results: Vec<HypResult>) -> (r: Vec<HypResult>)
    requires
        complete(result_views(results@)),
    ensures
        in_hyp_order(result_views(results@), result_views(r@)),
        forall|k: int| 0 <= k < r@.len() ==> (#[trigger] r@[k]).hyp_index == k,
{
    let ghost given = results@;
    let ghost views = result_views(given);
    let n: usize = results.len();
    let mut slots: Vec<Option<HypResult>> = Vec::new();
    let mut i: usize = 0;
    while i < n
        invariant
            i <= n,
            slots@.len() == i,
            forall|k: int| 0 <= k < i ==> (#[trigger] slots@[k]) is None,
        decreases n - i,
    {
        slots.push(None);
        i += 1;
    }
    let mut rest = results;
    while rest.len() > 0
        invariant
            views == result_views(given),
            complete(views),
            n == given.len(),
            slots@.len() == n,
            rest@.len() <= n,
            rest@ == given.take(rest@.len() as int),
            forall|j: int|
                rest@.len() <= j < n ==> slots@[(#[trigger] given[j]).hyp_index as int] == Some(
                    given[j],
                ),
        decreases rest@.len(),
    {
        let one = rest.pop().unwrap();
        let ghost m = rest@.len();
        assert(one == given[m as int]);
        assert(views[m as int].hyp_index == one.hyp_index);
        let at: usize = one.hyp_index;
        assert forall|j: int| m < j < n implies (#[trigger] given[j]).hyp_index != at by {
            assert(views[m as int].hyp_index != views[j].hyp_index);
        }
        let ghost slots0 = slots@;
        slots.set(at, Some(one));
        assert(rest@ =~= given.take(m as int));
        assert forall|j: int| m <= j < n implies slots@[(#[trigger] given[j]).hyp_index as int]
            == Some(given[j]) by {
            assert(views[j].hyp_index == given[j].hyp_index);
            if j > m {
                assert(slots0[given[j].hyp_index as int] == Some(given[j]));
            }
        }
    }
    proof {
        one_for_each(views);
    }
    let mut out: Vec<HypResult> = Vec::new();
    let ghost all = slots@;
    assert forall|k: int| 0 <= k < n implies (#[trigger] all[k]) is Some && (all[k]->0).hyp_index
        == k by {
        assert(has_result(views, k));
        let j = choose|j: int| 0 <= j < views.len() && (#[trigger] views[j]).hyp_index == k;
        assert(given[j].hyp_index == k);
    }
    while slots.len() > 0
        invariant
            n == given.len(),
            all.len() == n,
            out@.len() + slots@.len() == n,
            slots@ == all.skip(out@.len() as int),
            forall|k: int| 0 <= k < n ==> (#[trigger] all[k]) is Some,
            forall|k: int| 0 <= k < out@.len() ==> all[k] == Some(#[trigger] out@[k]),
        decreases slots@.len(),
    {
        let ghost k = out@.len() as int;
        assert(all[k] == slots@[0]);
        let one = slots.remove(0);
        assert(slots@ =~= all.skip(k + 1));
        match one {
            Some(r) => {
                out.push(r);
            },
            None => {
                assert(false);
            },
        }
    }
    proof {
        let r = result_views(out@);
        assert forall|k: int| 0 <= k < out@.len() implies (#[trigger] out@[k]).hyp_index == k by {
            assert(all[k] == Some(out@[k]));
        }
        assert forall|i: int| 0 <= i < views.len() implies r[(#[trigger] views[i]).hyp_index]
            == views[i] by {
            let k = given[i].hyp_index as int;
            assert(views[i].hyp_index == k);
            assert(all[k] == Some(given[i]));
            assert(all[k] == Some(out@[k]));
        }
    }
    out
}

/// One of the results belongs to hypothesis `k`.
pub open spec fn has_result(views: Seq<HypResultView>, k: int) -> bool {
    exists|j: int| 0 <= j < views.len() && (#[trigger] views[j]).hyp_index == k
}

/// Where each number occurs at most once and all are below the count, each
/// number occurs.
pub proof fn one_for_each(views: Seq<HypResultView>)
    requires
        complete(views),
    ensures
        forall|k: int| 0 <= k < views.len() ==> #[trigger] has_result(views, k),
{
    let n = views.len();
    let s = views.map_values(|v: HypResultView| v.hyp_index);
    assert(s.no_duplicates()) by {
        assert forall|i: int, j: int| 0 <= i < s.len() && 0 <= j < s.len() && i != j implies s[i]
            != s[j] by {
            if i < j {
                assert(views[i].hyp_index != views[j].hyp_index);
            } else {
                assert(views[j].hyp_index != views[i].hyp_index);
            }
        }
    }
    s.unique_seq_to_set();
    let range = vstd::set_lib::set_int_range(0, n as int);
    vstd::set_lib::lemma_int_range(0, n as int);
    assert(s.to_set().subset_of(range)) by {
        assert forall|x: int| s.to_set().contains(x) implies range.contains(x) by {
            let i = choose|i: int| 0 <= i < s.len() && s[i] == x;
            assert(views[i].hyp_index == x);
        }
    }
    vstd::set_lib::lemma_subset_equality(s.to_set(), range);
    assert forall|k: int| 0 <= k < n implies #[trigger] has_result(views, k) by {
        assert(s.to_set().contains(k));
        let j = choose|j: int| 0 <= j < s.len() && s[j] == k;
        assert(views[j].hyp_index == k);
    }
}

fn repeats_any(list: &Vec<HypResult>, r: &HypResult, apart: &Distances) -> (b: bool)
    ensures
        b == exists|i: int|
            0 <= i < list@.len() && repeats(#[trigger] result_views(list@)[i], r@, *apart),
{
    let ghost views = result_views(list@);
    let mut i: usize = 0;
    while i < list.len()
        invariant
            i <= list@.len(),
            views == result_views(list@),
            forall|j: int| 0 <= j < i ==> !repeats(#[trigger] views[j], r@, *apart),
        decreases list@.len() - i,
    {
        let d = &list[i];
        assert(views[i as int] == d@);
        let dup = match (d.candidate.point, r.candidate.point) {
            (Some(a), Some(b)) => apart.between(a, b).is_below(Double { bits: SAME_POINT_M }),
            _ => same(d.signature.as_str(), r.signature.as_str()),
        };
        if dup {
            return true;
        }
        i += 1;
    }
    false
}

/// What repeats nothing before it comes from the results, in their order.
pub(crate) proof fn distinct_come_from(results: Seq<HypResultView>, apart: Distances)
    requires
        forall|k: int| 0 <= k < results.len() ==> (#[trigger] results[k]).hyp_index == k,
    ensures
        forall|i: int|
            0 <= i < distinct(results, apart).len() ==> 0 <= (#[trigger] distinct(
                results,
                apart,
            )[i]).hyp_index < results.len() && results[distinct(results, apart)[i].hyp_index]
                == distinct(results, apart)[i],
        forall|i: int, j: int|
            0 <= i < j < distinct(results, apart).len() ==> (#[trigger] distinct(
                results,
                apart,
            )[i]).hyp_index < (#[trigger] distinct(results, apart)[j]).hyp_index,
    decreases results.len(),
{
    if results.len() > 0 {
        distinct_come_from(results.drop_last(), apart);
    }
}

/// Takes out the results that repeat an earlier one.
fn dedup(results: Vec<HypResult>, apart: &Distances) -> (r: Vec<HypResult>)
    requires
        forall|k: int| 0 <= k < results@.len() ==> (#[trigger] results@[k]).hyp_index == k,
    ensures
        result_views(r@) == distinct(result_views(results@), *apart),
{
    let ghost given = result_views(results@);
    let mut rest = results;
    let mut out: Vec<HypResult> = Vec::new();
    let ghost mut done: int = 0;
    assert(given.take(0) =~= Seq::empty());
    assert(result_views(out@) =~= Seq::empty());
    while rest.len() > 0
        invariant
            0 <= done <= given.len(),
            result_views(rest@) =~= given.skip(done),
            result_views(out@) == distinct(given.take(done), *apart),
        decreases rest@.len(),
    {
        let ghost r0 = result_views(rest@);
        assert(r0.len() == rest@.len());
        let one = rest.remove(0);
        let ghost before = result_views(out@);
        proof {
            assert(r0[0] == one@);
            assert(given[done] == one@);
            assert(given.take(done + 1).drop_last() =~= given.take(done));
            assert(result_views(rest@) =~= r0.drop_first());
            assert(given.skip(done).drop_first() =~= given.skip(done + 1));
        }
        if !repeats_any(&out, &one, apart) {
            let ghost v = one@;
            out.push(one);
            assert(result_views(out@) =~= before.push(v));
        }
        proof {
            done = done + 1;
        }
    }
    assert(given.take(done) =~= given) by {
        assert(given.skip(done).len() == 0);
    }
    out
}

/// Puts the results in order, from the best to the worst.
fn rank(list: Vec<HypResult>) -> (r: Vec<HypResult>)
    ensures
        result_views(r@) == ranked(result_views(list@)),
{
    let ghost given = result_views(list@);
    let mut rest = list;
    let mut out: Vec<HypResult> = Vec::new();
    let ghost mut done: int = 0;
    assert(given.take(0) =~= Seq::empty());
    assert(given.skip(0) =~= given);
    assert(result_views(out@) =~= Seq::empty());
    while rest.len() > 0
        invariant
            0 <= done <= given.len(),
            result_views(rest@) =~= given.skip(done),
            result_views(out@) == ranked(given.take(done)),
        decreases rest@.len(),
    {
        let ghost r0 = result_views(rest@);
        let ghost before = result_views(out@);
        assert(r0.len() == rest@.len());
        let x = rest.remove(0);
        let ghost v = x@;
        proof {
            assert(r0[0] == v);
            assert(given[done] == v);
            assert(given.take(done + 1).drop_last() =~= given.take(done));
            assert(result_views(rest@) =~= r0.drop_first());
            assert(given.skip(done).drop_first() =~= given.skip(done + 1));
            assert(before.take(before.len() as int) =~= before);
        }
        let mut at: usize = out.len();
        while at > 0 && does_outrank(&x, &out[at - 1])
            invariant
                at <= out@.len(),
                x@ == v,
                before == result_views(out@),
                berth(before, v) == berth(before.take(at as int), v),
            decreases at,
        {
            assert(before.take(at as int).last() == out@[at - 1]@);
            assert(before.take(at as int).drop_last() =~= before.take(at - 1));
            at -= 1;
        }
        proof {
            if at > 0 {
                assert(before.take(at as int).last() == out@[at - 1]@);
            }
            assert(before.take(at as int).len() == at);
            assert(berth(before, v) == at);
        }
        out.insert(at, x);
        assert(result_views(out@) =~= before.insert(at as int, v));
        proof {
            assert(given.take(done + 1).last() == v);
            done = done + 1;
        }
    }
    assert(given.take(done) =~= given) by {
        assert(given.skip(done).len() == 0);
    }
    out
}

fn number(list: Vec<HypResult>, event_id: &str, job_id: i64) -> (r: Vec<Candidate>)
    requires
        list@.len() < i64::MAX,
        forall|i: int| 0 <= i < list@.len() ==> (#[trigger] list@[i]).hyp_index < u64::MAX,
    ensures
        candidate_views(r@) == numbered(result_views(list@), event_id@, job_id as int),
{
    let ghost given = result_views(list@);
    let ghost want = numbered(given, event_id@, job_id as int);
    let n: usize = list.len();
    let mut rest = list;
    let mut out: Vec<Candidate> = Vec::new();
    while rest.len() > 0
        invariant
            out@.len() + rest@.len() == n,
            n == given.len(),
            n < i64::MAX,
            forall|i: int| 0 <= i < rest@.len() ==> (#[trigger] rest@[i]).hyp_index < u64::MAX,
            want == numbered(given, event_id@, job_id as int),
            result_views(rest@) =~= given.skip(out@.len() as int),
            candidate_views(out@) =~= want.take(out@.len() as int),
        decreases rest@.len(),
    {
        let ghost k = out@.len() as int;
        let ghost r0 = result_views(rest@);
        let ghost before = candidate_views(out@);
        assert(rest@[0].hyp_index < u64::MAX);
        let one = rest.remove(0);
        proof {
            assert(r0[0] == one@);
            assert(given[k] == one@);
            assert(result_views(rest@) =~= r0.drop_first());
            assert(given.skip(k).drop_first() =~= given.skip(k + 1));
        }
        let name = candidate_id(event_id, job_id, one.hyp_index, one.signature.as_str());
        let rank: i64 = out.len() as i64 + 1;
        let mut c = one.candidate;
        c.rank = rank;
        c.job_id = job_id;
        c.candidate_id = name;
        let ghost v = c@;
        assert(v == want[k]);
        out.push(c);
        assert(candidate_views(out@) =~= before.push(v));
    }
    assert(want.take(out@.len() as int) =~= want);
    out
}

fn mark(list: &mut Vec<Candidate>, i: usize, why: &str)
    requires
        i < old(list)@.len(),
    ensures
        final(list)@.len() == old(list)@.len(),
        candidate_views(final(list)@) == candidate_views(old(list)@).update(
            i as int,
            CandidateView {
                underdetermined: why@,
                ..candidate_views(old(list)@)[i as int]
            },
        ),
{
    let ghost before = candidate_views(list@);
    list[i].underdetermined = why.to_owned();
    assert(candidate_views(list@) =~= before.update(
        i as int,
        CandidateView { underdetermined: why@, ..before[i as int] },
    ));
}

fn mark_tie(list: &mut Vec<Candidate>, minus: &Differences)
    ensures
        candidate_views(final(list)@) == tie_marked(candidate_views(old(list)@), *minus),
{
    let ghost before = candidate_views(list@);
    assert(before.len() == list@.len());
    if list.len() >= 2 && same(list[0].kind.as_str(), "point") && same(
        list[1].kind.as_str(),
        "point",
    ) {
        assert(before[0] == list@[0]@ && before[1] == list@[1]@);
        if minus.is_within(list[0].score, list[1].score, Double { bits: AMBIGUOUS_GAP_SEC }) {
            mark(list, 0, "ambiguous_pair");
            mark(list, 1, "ambiguous_pair");
            assert(candidate_views(list@) =~= tie_marked(before, *minus));
        }
    }
}

fn lists_candidate(list: &Vec<Candidate>, id: &str) -> (r: bool)
    ensures
        r == has_candidate(candidate_views(list@), id@),
{
    let ghost views = candidate_views(list@);
    let mut i: usize = 0;
    while i < list.len()
        invariant
            i <= list@.len(),
            views == candidate_views(list@),
            forall|j: int| 0 <= j < i ==> (#[trigger] views[j]).candidate_id != id@,
        decreases list@.len() - i,
    {
        assert(views[i as int] == list@[i as int]@);
        if same(list[i].candidate_id.as_str(), id) {
            return true;
        }
        i += 1;
    }
    false
}

fn is_kept(list: &Vec<Candidate>, ties: &Vec<(String, String)>, id: &str) -> (r: bool)
    ensures
        r == kept_by_pair(candidate_views(list@), pair_texts(ties@), id@),
{
    let ghost pairs = pair_texts(ties@);
    let ghost views = candidate_views(list@);
    let mut i: usize = 0;
    while i < ties.len()
        invariant
            i <= ties@.len(),
            pairs == pair_texts(ties@),
            views == candidate_views(list@),
            forall|t: int|
                0 <= t < i ==> !(has_candidate(views, (#[trigger] pairs[t]).0) && has_candidate(
                    views,
                    pairs[t].1,
                ) && (pairs[t].0 == id@ || pairs[t].1 == id@)),
        decreases ties@.len() - i,
    {
        assert(pairs[i as int] == (ties@[i as int].0@, ties@[i as int].1@));
        if (same(ties[i].0.as_str(), id) || same(ties[i].1.as_str(), id)) && lists_candidate(
            list,
            ties[i].0.as_str(),
        ) && lists_candidate(list, ties[i].1.as_str()) {
            return true;
        }
        i += 1;
    }
    false
}

proof fn marking_keeps_identifiers(
    c: Seq<CandidateView>,
    d: Seq<CandidateView>,
    ties: Seq<(Seq<char>, Seq<char>)>,
    id: Seq<char>,
)
    requires
        c.len() == d.len(),
        forall|k: int| 0 <= k < c.len() ==> (#[trigger] c[k]).candidate_id == d[k].candidate_id,
    ensures
        kept_by_pair(c, ties, id) == kept_by_pair(d, ties, id),
{
    assert forall|x: Seq<char>| has_candidate(c, x) == has_candidate(d, x) by {
        if has_candidate(c, x) {
            let k = choose|k: int| 0 <= k < c.len() && (#[trigger] c[k]).candidate_id == x;
            assert(d[k].candidate_id == x);
        }
        if has_candidate(d, x) {
            let k = choose|k: int| 0 <= k < d.len() && (#[trigger] d[k]).candidate_id == x;
            assert(c[k].candidate_id == x);
        }
    }
    if kept_by_pair(c, ties, id) {
        let t = choose|t: int|
            0 <= t < ties.len() && has_candidate(c, (#[trigger] ties[t]).0) && has_candidate(
                c,
                ties[t].1,
            ) && (ties[t].0 == id || ties[t].1 == id);
        assert(has_candidate(d, ties[t].0) && has_candidate(d, ties[t].1));
    }
    if kept_by_pair(d, ties, id) {
        let t = choose|t: int|
            0 <= t < ties.len() && has_candidate(d, (#[trigger] ties[t]).0) && has_candidate(
                d,
                ties[t].1,
            ) && (ties[t].0 == id || ties[t].1 == id);
        assert(has_candidate(c, ties[t].0) && has_candidate(c, ties[t].1));
    }
}

fn mark_kept(list: &mut Vec<Candidate>, ties: &Vec<(String, String)>)
    ensures
        candidate_views(final(list)@) == kept_marked(
            candidate_views(old(list)@),
            pair_texts(ties@),
        ),
{
    let ghost before = candidate_views(list@);
    let ghost pairs = pair_texts(ties@);
    let ghost want = kept_marked(before, pairs);
    let mut i: usize = 0;
    while i < list.len()
        invariant
            i <= list@.len(),
            list@.len() == before.len(),
            pairs == pair_texts(ties@),
            want == kept_marked(before, pairs),
            candidate_views(list@) =~= want.take(i as int) + before.skip(i as int),
        decreases list@.len() - i,
    {
        let ghost now = candidate_views(list@);
        assert(now[i as int] == list@[i as int]@);
        assert(now[i as int] == before[i as int]);
        proof {
            assert forall|k: int| 0 <= k < now.len() implies (#[trigger] now[k]).candidate_id
                == before[k].candidate_id by {
                if k < i {
                    assert(now[k] == want[k]);
                } else {
                    assert(now[k] == before[k]);
                }
            }
            marking_keeps_identifiers(now, before, pairs, before[i as int].candidate_id);
        }
        let kept = is_kept(list, ties, list[i].candidate_id.as_str());
        if kept {
            mark(list, i, "kept_indistinguishable");
        }
        assert(candidate_views(list@) =~= want.take(i + 1) + before.skip(i + 1));
        i += 1;
    }
    assert(candidate_views(list@) =~= want);
}

/// Ranks the results of all hypotheses: repeated positions are taken out, the
/// rest is ordered by score and then by hypothesis, numbered for the job, and
/// marked where two positions cannot be told apart.
pub fn rank_results(
    results: Vec<HypResult>,
    apart: &Distances,
    minus: &Differences,
    event_id: &str,
    job_id: i64,
    ties: &Vec<(String, String)>,
) -> (r: Vec<Candidate>)
    requires
        complete(result_views(results@)),
        results@.len() < i64::MAX,
    ensures
        is_outcome(
            result_views(results@),
            *apart,
            *minus,
            event_id@,
            job_id as int,
            pair_texts(ties@),
            candidate_views(r@),
        ),
{
    let ghost given = result_views(results@);
    let in_order = backfill(results);
    let ghost ordered = result_views(in_order@);
    proof {
        assert forall|k: int| 0 <= k < ordered.len() implies (#[trigger] ordered[k]).hyp_index
            == k by {
            assert(in_order@[k].hyp_index == k);
        }
        distinct_come_from(ordered, *apart);
    }
    let kept = dedup(in_order, apart);
    let ghost kept_views = result_views(kept@);
    assert(kept_views.len() <= ordered.len()) by {
        distinct_is_no_longer(ordered, *apart);
    }
    let best_first = rank(kept);
    let ghost ranking = result_views(best_first@);
    proof {
        broadcast use vstd::seq_lib::group_to_multiset_ensures;

        ranking_holds_the_same(kept_views);
        assert(ranking.len() == best_first@.len());
        assert forall|i: int| 0 <= i < best_first@.len() implies (
        #[trigger] best_first@[i]).hyp_index < u64::MAX by {
            assert(ranking[i] == best_first@[i]@);
            assert(ranking.contains(ranking[i]));
            assert(kept_views.to_multiset().count(ranking[i]) > 0);
            assert(kept_views.contains(ranking[i]));
        }
    }
    let mut list = number(best_first, event_id, job_id);
    mark_tie(&mut list, minus);
    mark_kept(&mut list, ties);
    assert(in_hyp_order(given, ordered));
    list
}

pub(crate) proof fn distinct_is_no_longer(results: Seq<HypResultView>, apart: Distances)
    ensures
        distinct(results, apart).len() <= results.len(),
    decreases results.len(),
{
    if results.len() > 0 {
        distinct_is_no_longer(results.drop_last(), apart);
    }
}

// ---------- What a solve goes by ----------

/// Where a segment goes among segments in the order of their identifiers:
/// behind those with an identifier that is no larger.
pub open spec fn slot_for(ids: Seq<i64>, order: Seq<int>, id: i64) -> int
    decreases order.len(),
{
    if order.len() == 0 || ids[order[0]] > id {
        0
    } else {
        1 + slot_for(ids, order.drop_first(), id)
    }
}

/// The first `n` positions in the order of their identifiers.
pub open spec fn id_order(ids: Seq<i64>, n: int) -> Seq<int>
    decreases n,
{
    if n <= 0 {
        Seq::empty()
    } else {
        let before = id_order(ids, n - 1);
        before.insert(slot_for(ids, before, ids[n - 1]), n - 1)
    }
}

/// The identifiers of the segments.
pub open spec fn segment_ids(segs: Seq<(ClockSegment, i64)>) -> Seq<i64> {
    segs.map_values(|s: (ClockSegment, i64)| s.1)
}

proof fn slot_is_in_range(ids: Seq<i64>, order: Seq<int>, id: i64)
    ensures
        0 <= slot_for(ids, order, id) <= order.len(),
    decreases order.len(),
{
    if order.len() > 0 && ids[order[0]] <= id {
        slot_is_in_range(ids, order.drop_first(), id);
    }
}

/// The order lists positions, as many as it is asked for.
pub proof fn id_order_is_in_range(ids: Seq<i64>, n: int)
    requires
        0 <= n <= ids.len(),
    ensures
        id_order(ids, n).len() == n,
        forall|k: int| 0 <= k < n ==> 0 <= #[trigger] id_order(ids, n)[k] < n,
    decreases n,
{
    if n > 0 {
        id_order_is_in_range(ids, n - 1);
        slot_is_in_range(ids, id_order(ids, n - 1), ids[n - 1]);
        let before = id_order(ids, n - 1);
        let at = slot_for(ids, before, ids[n - 1]);
        assert forall|k: int| 0 <= k < n implies 0 <= #[trigger] id_order(ids, n)[k] < n by {
            if k < at {
                assert(id_order(ids, n)[k] == before[k]);
            } else if k > at {
                assert(id_order(ids, n)[k] == before[k - 1]);
            }
        }
    }
}

fn order_by_id(segs: &Vec<(ClockSegment, i64)>) -> (r: Vec<usize>)
    ensures
        as_ints(r@) == id_order(segment_ids(segs@), segs@.len() as int),
        forall|k: int| 0 <= k < r@.len() ==> #[trigger] r@[k] < segs@.len(),
{
    let ghost ids = segment_ids(segs@);
    let mut out: Vec<usize> = Vec::new();
    let mut i: usize = 0;
    assert(as_ints(out@) =~= Seq::empty());
    while i < segs.len()
        invariant
            i <= segs@.len(),
            ids == segment_ids(segs@),
            as_ints(out@) == id_order(ids, i as int),
            forall|k: int| 0 <= k < out@.len() ==> #[trigger] out@[k] < i,
        decreases segs@.len() - i,
    {
        let id: i64 = segs[i].1;
        let ghost order = as_ints(out@);
        let mut at: usize = 0;
        assert(order.skip(0) =~= order);
        while at < out.len() && segs[out[at]].1 <= id
            invariant
                at <= out@.len(),
                i < segs@.len(),
                ids == segment_ids(segs@),
                order == as_ints(out@),
                forall|k: int| 0 <= k < out@.len() ==> #[trigger] out@[k] < i,
                slot_for(ids, order, id) == at + slot_for(ids, order.skip(at as int), id),
            decreases out@.len() - at,
        {
            assert(order.skip(at as int).drop_first() =~= order.skip(at + 1));
            assert(order[at as int] == out@[at as int] as int);
            at += 1;
        }
        assert(at < out@.len() ==> order.skip(at as int)[0] == out@[at as int] as int);
        out.insert(at, i);
        assert(as_ints(out@) =~= order.insert(at as int, i as int));
        i += 1;
    }
    out
}

/// An optional number as JSON.
pub open spec fn opt_number(o: Option<Double>) -> JsonView {
    match o {
        Some(f) => JsonView::Float(f),
        None => JsonView::Null,
    }
}

/// An optional text as JSON.
pub open spec fn opt_json_text(o: Option<Seq<char>>) -> JsonView {
    match o {
        Some(t) => JsonView::Text(t),
        None => JsonView::Null,
    }
}

/// A station as it is hashed.
pub open spec fn station_json(s: Station) -> JsonView {
    JsonView::Object(
        seq![
            ("station_id"@, JsonView::Text(s.station_id@)),
            ("x"@, JsonView::Float(s.x)),
            ("y"@, JsonView::Float(s.y)),
            ("label"@, JsonView::Text(s.label@)),
        ],
    )
}

/// A clock segment as it is hashed.
pub open spec fn segment_json(s: (ClockSegment, i64)) -> JsonView {
    JsonView::Object(
        seq![
            ("id"@, JsonView::Int(s.1 as int)),
            ("station"@, JsonView::Text(s.0.station_id@)),
            ("start"@, JsonView::Float(s.0.t_start)),
            ("end"@, opt_number(s.0.t_end)),
            ("offset"@, JsonView::Float(s.0.offset_sec)),
        ],
    )
}

/// An observation as it is hashed.
pub open spec fn observation_json(o: ObservationRow) -> JsonView {
    JsonView::Object(
        seq![
            ("uid"@, JsonView::Text(o.obs_uid@)),
            ("station"@, JsonView::Text(o.station_id@)),
            ("local"@, JsonView::Float(o.local_onset_sec)),
            ("corrected"@, opt_number(o.corrected_onset_sec)),
            ("duplicate_of"@, opt_json_text(opt_text(o.duplicate_of))),
        ],
    )
}

/// A delay as it is hashed.
pub open spec fn lag_json(l: LagRow) -> JsonView {
    JsonView::Object(
        seq![
            ("uid"@, JsonView::Text(l.lag_uid@)),
            ("station"@, JsonView::Text(l.station_id@)),
            ("peer"@, JsonView::Text(l.peer_id@)),
            ("lag"@, JsonView::Float(l.lag_sec)),
            ("hint"@, JsonView::Text(l.hint@)),
            ("snr"@, JsonView::Float(l.snr_db)),
        ],
    )
}

/// Evidence as it is hashed.
pub open spec fn evidence_json(e: EvidenceRow) -> JsonView {
    JsonView::Object(
        seq![
            ("id"@, JsonView::Text(e.evidence_id@)),
            ("kind"@, JsonView::Text(e.kind@)),
            ("payload"@, e.payload@),
        ],
    )
}

/// The bounds of a site as they are hashed.
pub open spec fn bounds_json(b: SiteBounds) -> JsonView {
    JsonView::Array(
        seq![
            JsonView::Float(b.min_x),
            JsonView::Float(b.min_y),
            JsonView::Float(b.max_x),
            JsonView::Float(b.max_y),
        ],
    )
}

/// The segments in the order of their identifiers.
pub open spec fn segments_json(segs: Seq<(ClockSegment, i64)>) -> JsonView {
    JsonView::Array(
        id_order(segment_ids(segs), segs.len() as int).map_values(|i: int| segment_json(segs[i])),
    )
}

/// All that a solve goes by, as JSON.
pub open spec fn input_json(input: SolverInput) -> JsonView {
    JsonView::Object(
        seq![
            ("solver_version"@, JsonView::Text(SOLVER_VERSION@)),
            ("event_id"@, JsonView::Text(input.event.event_id@)),
            ("sound_speed_mps"@, JsonView::Float(input.event.sound_speed_mps)),
            ("bounds"@, bounds_json(input.event.bounds)),
            (
                "stations"@,
                JsonView::Array(input.stations@.map_values(|s: Station| station_json(s))),
            ),
            ("clock_segments"@, segments_json(input.clock_segments@)),
            (
                "observations"@,
                JsonView::Array(
                    input.observations@.map_values(|o: ObservationRow| observation_json(o)),
                ),
            ),
            ("lags"@, JsonView::Array(input.lags@.map_values(|l: LagRow| lag_json(l)))),
            (
                "evidence"@,
                JsonView::Array(input.evidence@.map_values(|e: EvidenceRow| evidence_json(e))),
            ),
        ],
    )
}

fn number_or_null(o: Option<Double>) -> (r: Json)
    ensures
        r@ == opt_number(o),
{
    match o {
        Some(f) => Json::Float(f),
        None => Json::Null,
    }
}

fn text_or_null(o: &Option<String>) -> (r: Json)
    ensures
        r@ == opt_json_text(opt_text(*o)),
{
    match o {
        Some(s) => Json::Text(s.clone()),
        None => Json::Null,
    }
}

fn station_to_json(s: &Station) -> (r: Json)
    ensures
        r@ == station_json(*s),
{
    let mut m = Members::new();
    m.put("station_id", Json::Text(s.station_id.clone()));
    m.put("x", Json::Float(s.x));
    m.put("y", Json::Float(s.y));
    m.put("label", Json::Text(s.label.clone()));
    let r = m.object();
    assert(r@->Object_0 =~= station_json(*s)->Object_0);
    r
}

fn segment_to_json(s: &(ClockSegment, i64)) -> (r: Json)
    ensures
        r@ == segment_json(*s),
{
    let mut m = Members::new();
    m.put("id", Json::Int(s.1));
    m.put("station", Json::Text(s.0.station_id.clone()));
    m.put("start", Json::Float(s.0.t_start));
    m.put("end", number_or_null(s.0.t_end));
    m.put("offset", Json::Float(s.0.offset_sec));
    let r = m.object();
    assert(r@->Object_0 =~= segment_json(*s)->Object_0);
    r
}

fn observation_to_json(o: &ObservationRow) -> (r: Json)
    ensures
        r@ == observation_json(*o),
{
    let mut m = Members::new();
    m.put("uid", Json::Text(o.obs_uid.clone()));
    m.put("station", Json::Text(o.station_id.clone()));
    m.put("local", Json::Float(o.local_onset_sec));
    m.put("corrected", number_or_null(o.corrected_onset_sec));
    m.put("duplicate_of", text_or_null(&o.duplicate_of));
    let r = m.object();
    assert(r@->Object_0 =~= observation_json(*o)->Object_0);
    r
}

fn lag_to_json(l: &LagRow) -> (r: Json)
    ensures
        r@ == lag_json(*l),
{
    let mut m = Members::new();
    m.put("uid", Json::Text(l.lag_uid.clone()));
    m.put("station", Json::Text(l.station_id.clone()));
    m.put("peer", Json::Text(l.peer_id.clone()));
    m.put("lag", Json::Float(l.lag_sec));
    m.put("hint", Json::Text(l.hint.clone()));
    m.put("snr", Json::Float(l.snr_db));
    let r = m.object();
    assert(r@->Object_0 =~= lag_json(*l)->Object_0);
    r
}

fn evidence_to_json(e: &EvidenceRow) -> (r: Json)
    ensures
        r@ == evidence_json(*e),
{
    let mut m = Members::new();
    m.put("id", Json::Text(e.evidence_id.clone()));
    m.put("kind", Json::Text(e.kind.clone()));
    m.put("payload", e.payload.copy());
    let r = m.object();
    assert(r@->Object_0 =~= evidence_json(*e)->Object_0);
    r
}

fn bounds_to_json(b: SiteBounds) -> (r: Json)
    ensures
        r@ == bounds_json(b),
{
    let mut items: Vec<Json> = Vec::new();
    items.push(Json::Float(b.min_x));
    items.push(Json::Float(b.min_y));
    items.push(Json::Float(b.max_x));
    items.push(Json::Float(b.max_y));
    let r = array(items);
    assert(r@->Array_0 =~= bounds_json(b)->Array_0);
    r
}

/// Writes down all that a solve goes by.
pub fn input_to_json(input: &SolverInput) -> (r: Json)
    ensures
        r@ == input_json(*input),
{
    let mut stations: Vec<Json> = Vec::new();
    let mut i: usize = 0;
    while i < input.stations.len()
        invariant
            i <= input.stations@.len(),
            stations@.len() == i,
            forall|j: int|
                0 <= j < i ==> (#[trigger] stations@[j])@ == station_json(input.stations@[j]),
        decreases input.stations@.len() - i,
    {
        stations.push(station_to_json(&input.stations[i]));
        i += 1;
    }
    let order = order_by_id(&input.clock_segments);
    let ghost want = id_order(
        segment_ids(input.clock_segments@),
        input.clock_segments@.len() as int,
    );
    let mut segments: Vec<Json> = Vec::new();
    let mut k: usize = 0;
    while k < order.len()
        invariant
            k <= order@.len(),
            segments@.len() == k,
            want == as_ints(order@),
            forall|j: int|
                0 <= j < order@.len() ==> #[trigger] order@[j] < input.clock_segments@.len(),
            forall|j: int|
                0 <= j < k ==> (#[trigger] segments@[j])@ == segment_json(
                    input.clock_segments@[want[j]],
                ),
        decreases order@.len() - k,
    {
        segments.push(segment_to_json(&input.clock_segments[order[k]]));
        k += 1;
    }
    let mut observations: Vec<Json> = Vec::new();
    let mut o: usize = 0;
    while o < input.observations.len()
        invariant
            o <= input.observations@.len(),
            observations@.len() == o,
            forall|j: int|
                0 <= j < o ==> (#[trigger] observations@[j])@ == observation_json(
                    input.observations@[j],
                ),
        decreases input.observations@.len() - o,
    {
        observations.push(observation_to_json(&input.observations[o]));
        o += 1;
    }
    let mut lags: Vec<Json> = Vec::new();
    let mut l: usize = 0;
    while l < input.lags.len()
        invariant
            l <= input.lags@.len(),
            lags@.len() == l,
            forall|j: int| 0 <= j < l ==> (#[trigger] lags@[j])@ == lag_json(input.lags@[j]),
        decreases input.lags@.len() - l,
    {
        lags.push(lag_to_json(&input.lags[l]));
        l += 1;
    }
    let mut evidence: Vec<Json> = Vec::new();
    let mut e: usize = 0;
    while e < input.evidence.len()
        invariant
            e <= input.evidence@.len(),
            evidence@.len() == e,
            forall|j: int|
                0 <= j < e ==> (#[trigger] evidence@[j])@ == evidence_json(input.evidence@[j]),
        decreases input.evidence@.len() - e,
    {
        evidence.push(evidence_to_json(&input.evidence[e]));
        e += 1;
    }
    assert(json_views(stations@) =~= input.stations@.map_values(|s: Station| station_json(s)));
    assert(json_views(segments@) =~= want.map_values(
        |i: int| segment_json(input.clock_segments@[i]),
    ));
    assert(json_views(observations@) =~= input.observations@.map_values(
        |o: ObservationRow| observation_json(o),
    ));
    assert(json_views(lags@) =~= input.lags@.map_values(|l: LagRow| lag_json(l)));
    assert(json_views(evidence@) =~= input.evidence@.map_values(
        |e: EvidenceRow| evidence_json(e),
    ));
    let mut m = Members::new();
    m.put("solver_version", Json::Text(SOLVER_VERSION.to_owned()));
    m.put("event_id", Json::Text(input.event.event_id.clone()));
    m.put("sound_speed_mps", Json::Float(input.event.sound_speed_mps));
    m.put("bounds", bounds_to_json(input.event.bounds));
    m.put("stations", array(stations));
    m.put("clock_segments", array(segments));
    m.put("observations", array(observations));
    m.put("lags", array(lags));
    m.put("evidence", array(evidence));
    let r = m.object();
    assert(r@->Object_0 =~= input_json(*input)->Object_0);
    r
}

/// The fingerprint of what a solve goes by.
pub fn input_fingerprint(input: &SolverInput, decimals: &Decimals) -> (r: String)
    ensures
        r@ == fingerprint(
            encode_utf8(canonical_text(input_json(*input), *decimals, Quoting::Full)),
        ),
        r@.len() == 64,
{
    let value = input_to_json(input);
    canonical_fingerprint(&value, decimals)
}

/// The delays that may be reflections, in the order of the measurements.
pub open spec fn reflections(meas: Seq<MeasView>) -> Seq<Seq<char>>
    decreases meas.len(),
{
    if meas.len() == 0 {
        Seq::empty()
    } else {
        let before = reflections(meas.drop_last());
        let m = meas.last();
        match m.lag_uid {
            Some(uid) => if m.reflection {
                before.push(uid)
            } else {
                before
            },
            None => before,
        }
    }
}

fn reflection_lags(meas: &Vec<DerivedMeas>) -> (r: Vec<String>)
    ensures
        texts(r@) == reflections(meas_views(meas@)),
{
    let ghost views = meas_views(meas@);
    let mut out: Vec<String> = Vec::new();
    let mut i: usize = 0;
    assert(texts(out@) =~= reflections(views.take(0)));
    while i < meas.len()
        invariant
            i <= meas@.len(),
            views == meas_views(meas@),
            texts(out@) =~= reflections(views.take(i as int)),
        decreases meas@.len() - i,
    {
        let ghost before = texts(out@);
        assert(views.take(i + 1).drop_last() =~= views.take(i as int));
        assert(views.take(i + 1).last() == meas@[i as int]@);
        if meas[i].reflection {
            match &meas[i].lag_uid {
                Some(uid) => {
                    out.push(uid.clone());
                    assert(texts(out@) =~= before.push(uid@));
                },
                None => {},
            }
        }
        i += 1;
    }
    assert(views.take(i as int) =~= views);
    out
}

/// The delays that the evidence marks as reflections, in order.
pub open spec fn marked_lags(evidence: Seq<EvidenceRow>) -> Seq<Seq<char>> {
    listing(|t: Seq<char>| marked(evidence, t))
}

/// The suspected reflections of an input that are marked, or that are not.
pub open spec fn suspects(input: SolverInput, minus: Differences, marked: bool) -> Seq<
    Seq<char>,
> {
    sorted_out(reflections(measurements(input, minus)), marked_lags(input.evidence@), marked)
}

/// What there is to solve.
#[derive(Debug)]
pub struct Plan {
    pub fingerprint: String,
    pub measurements: Vec<DerivedMeas>,
    pub hypotheses: Vec<Hypothesis>,
    pub ties: Vec<(String, String)>,
}

/// The suspected reflections that nobody has judged yet.
pub fn unjudged(input: &SolverInput, minus: &Differences) -> (r: Vec<String>)
    ensures
        texts(r@) == suspects(*input, *minus, false),
{
    let meas = derive_measurements(input, minus);
    let lags = reflection_lags(&meas);
    let subjects = active_subjects(&input.evidence);
    proof {
        listing_is(
            texts(subjects.excluded_lags@),
            |t: Seq<char>| marked(input.evidence@, t),
        );
    }
    sort_out(&lags, &subjects.excluded_lags, false)
}

/// Lays out a solve: the measurements, the hypotheses and the pairs to keep.
pub fn plan(input: &SolverInput, minus: &Differences, decimals: &Decimals) -> (r: Plan)
    requires
        suspects(*input, *minus, false).len() <= 64,
    ensures
        r.fingerprint@ == fingerprint(
            encode_utf8(canonical_text(input_json(*input), *decimals, Quoting::Full)),
        ),
        meas_views(r.measurements@) == measurements(*input, *minus),
        are_hypotheses(
            r.hypotheses@,
            suspects(*input, *minus, true),
            suspects(*input, *minus, false),
        ),
        1 <= r.hypotheses@.len() <= MAX_HYPOTHESES,
        pair_texts(r.ties@) == kept_pairs(input.evidence@),
{
    let fingerprint = input_fingerprint(input, decimals);
    let measurements = derive_measurements(input, minus);
    let subjects = active_subjects(&input.evidence);
    proof {
        listing_is(
            texts(subjects.excluded_lags@),
            |t: Seq<char>| marked(input.evidence@, t),
        );
    }
    let lags = reflection_lags(&measurements);
    let hypotheses = enumerate_hypotheses(&lags, &subjects.excluded_lags);
    Plan { fingerprint, measurements, hypotheses, ties: subjects.ties }
}

/// The result of a solve.
#[derive(Debug)]
pub struct SolveOutput {
    pub fingerprint: String,
    pub candidates: Vec<Candidate>,
}

/// Brings a solve to its end.
pub fn conclude(
    plan: Plan,
    results: Vec<HypResult>,
    apart: &Distances,
    minus: &Differences,
    event_id: &str,
    job_id: i64,
) -> (r: SolveOutput)
    requires
        results@.len() == plan.hypotheses@.len() <= MAX_HYPOTHESES,
        complete(result_views(results@)),
    ensures
        r.fingerprint == plan.fingerprint,
        is_outcome(
            result_views(results@),
            *apart,
            *minus,
            event_id@,
            job_id as int,
            pair_texts(plan.ties@),
            candidate_views(r.candidates@),
        ),
{
    let candidates = rank_results(results, apart, minus, event_id, job_id, &plan.ties);
    SolveOutput { fingerprint: plan.fingerprint, candidates }
}

} // verus!
