//! What the measurements of an event say of its delays, its observations and
//! the evidence, and what becomes of them under a hypothesis.
use vstd::prelude::*;

use crate::double::Double;
use crate::figures::{Differences, Pt};
use crate::json::JsonView;
use crate::model::{EvidenceRow, LagRow, ObservationRow, Station};
use crate::solver::{
    ccf_measurements, clock_is_locked, eligible, is_roster, locks, measurements, objections, onset_measurements, place_of,
    residuals_of, roster_of, stands_for_station, there_is_a_roster, unopposed,
    unopposed_have_no_objection, MeasView, Prediction, Reach, SolverEvent, SolverInput,
};
use crate::text::{text_lt, text_order_is_total};

verus! {

// ---------- Stations ----------

/// A station stands at a place: its last entry says so.
pub open spec fn stands_at(stations: Seq<Station>, id: Seq<char>, p: Pt) -> bool {
    exists|s: int|
        0 <= s < stations.len() && (#[trigger] stations[s]).station_id@ == id && stations[s].x
            == p.x && stations[s].y == p.y && forall|t: int|
            s < t < stations.len() ==> (#[trigger] stations[t]).station_id@ != id
}

/// Some entry names a station.
pub open spec fn is_entered(stations: Seq<Station>, id: Seq<char>) -> bool {
    exists|s: int| 0 <= s < stations.len() && (#[trigger] stations[s]).station_id@ == id
}

/// A station is placed if and only if it is entered, and where its last entry
/// puts it.
pub proof fn places_are_those_of_the_last_entries(stations: Seq<Station>, id: Seq<char>)
    ensures
        place_of(stations, id) is Some <==> is_entered(stations, id),
        place_of(stations, id) matches Some(p) ==> stands_at(stations, id, p),
        forall|p: Pt| #[trigger] stands_at(stations, id, p) ==> place_of(stations, id) == Some(p),
    decreases stations.len(),
{
    if stations.len() > 0 {
        let rest = stations.drop_last();
        let n = stations.len() - 1;
        places_are_those_of_the_last_entries(rest, id);
        if stations[n].station_id@ == id {
        } else {
            if is_entered(rest, id) {
                let s = choose|s: int| 0 <= s < rest.len() && (
                #[trigger] rest[s]).station_id@ == id;
                assert(stations[s].station_id@ == id);
            }
            if is_entered(stations, id) {
                let s = choose|s: int|
                    0 <= s < stations.len() && (#[trigger] stations[s]).station_id@ == id;
                assert(rest[s].station_id@ == id);
            }
            assert forall|p: Pt| stands_at(rest, id, p) == #[trigger] stands_at(
                stations,
                id,
                p,
            ) by {
                if stands_at(rest, id, p) {
                    let s = choose|s: int|
                        0 <= s < rest.len() && (#[trigger] rest[s]).station_id@ == id && rest[s].x
                            == p.x && rest[s].y == p.y && forall|t: int|
                            s < t < rest.len() ==> (#[trigger] rest[t]).station_id@ != id;
                    assert(stations[s] == rest[s]);
                    assert forall|t: int| s < t < stations.len() implies (
                    #[trigger] stations[t]).station_id@ != id by {
                        if t < n {
                            assert(rest[t].station_id@ != id);
                        }
                    }
                }
                if stands_at(stations, id, p) {
                    let s = choose|s: int|
                        0 <= s < stations.len() && (#[trigger] stations[s]).station_id@ == id
                            && stations[s].x == p.x && stations[s].y == p.y && forall|t: int|
                            s < t < stations.len() ==> (#[trigger] stations[t]).station_id@ != id;
                    assert(rest[s] == stations[s]);
                    assert forall|t: int| s < t < rest.len() implies (
                    #[trigger] rest[t]).station_id@ != id by {
                        assert(stations[t].station_id@ != id);
                    }
                }
            }
        }
    }
}

// ---------- Onsets ----------

/// A piece of evidence with the kind `lock_clock` names the clock segment that
/// an observation was timed by.
pub open spec fn segment_is_named(o: ObservationRow, evidence: Seq<EvidenceRow>) -> bool {
    exists|k: int|
        0 <= k < evidence.len() && (#[trigger] evidence[k]).kind@ == "lock_clock"@
            && o.clock_segment_id is Some && evidence[k].payload@.member("segment_id"@) == Some(
            JsonView::Int(o.clock_segment_id->0 as int),
        )
}

/// An observation is no duplicate, and its onset is neither before the window
/// nor at its end or after it.
pub open spec fn takes_part(o: ObservationRow, e: SolverEvent) -> bool {
    &&& o.duplicate_of is None
    &&& !o.local_onset_sec.below(e.window_start)
    &&& !(e.window_end.below(o.local_onset_sec) || e.window_end.same_number(o.local_onset_sec))
}

/// Observation `i` takes part, and of those at its station that do it has the
/// smallest identifier.
pub open spec fn speaks_for_its_station(input: SolverInput, i: int) -> bool {
    &&& 0 <= i < input.observations@.len()
    &&& takes_part(input.observations@[i], input.event)
    &&& forall|k: int|
        0 <= k < input.observations@.len() && takes_part(
            #[trigger] input.observations@[k],
            input.event,
        ) && input.observations@[k].station_id@ == input.observations@[i].station_id@ ==> text_lt(
            input.observations@[i].obs_uid@,
            input.observations@[k].obs_uid@,
        ) || (input.observations@[i].obs_uid@ == input.observations@[k].obs_uid@ && i <= k)
}

/// Observation `j` speaks for its station, and no station that takes part comes
/// before that one.
pub open spec fn is_anchor(input: SolverInput, j: int) -> bool {
    &&& speaks_for_its_station(input, j)
    &&& forall|k: int|
        0 <= k < input.observations@.len() && takes_part(
            #[trigger] input.observations@[k],
            input.event,
        ) ==> !text_lt(input.observations@[k].station_id@, input.observations@[j].station_id@)
}

/// A measurement is that of the onset at the station of observation `i` against
/// the one at the anchor, observation `j`.
pub open spec fn is_onset_pair(
    input: SolverInput,
    minus: Differences,
    i: int,
    j: int,
    m: MeasView,
) -> bool {
    let o = input.observations@[i];
    let anchor = input.observations@[j];
    &&& speaks_for_its_station(input, i)
    &&& is_anchor(input, j)
    &&& o.station_id@ != anchor.station_id@
    &&& o.corrected_onset_sec is Some
    &&& anchor.corrected_onset_sec is Some
    &&& m.measured_sec == minus.difference(o.corrected_onset_sec->0, anchor.corrected_onset_sec->0)
    &&& m.tau == m.measured_sec
    &&& stands_at(input.stations@, o.station_id@, m.a)
    &&& stands_at(input.stations@, anchor.station_id@, m.b)
    &&& m.c == input.event.sound_speed_mps
    &&& m.weight.bits == 0x3ff0_0000_0000_0000
    &&& m.tag == "onset:"@ + o.station_id@ + ":"@ + anchor.station_id@
    &&& m.kind == "onset_pair"@
    &&& m.lag_uid is None
    &&& m.station_id == o.station_id@
    &&& m.peer_id == Some(anchor.station_id@)
    &&& !m.reflection
    &&& m.clock_locked <==> segment_is_named(o, input.evidence@) && segment_is_named(
        anchor,
        input.evidence@,
    )
}

proof fn naming_is_locking(o: ObservationRow, evidence: Seq<EvidenceRow>)
    ensures
        clock_is_locked(o, evidence) == segment_is_named(o, evidence),
{
    if clock_is_locked(o, evidence) {
        let id = o.clock_segment_id->0 as int;
        let k = choose|k: int|
            0 <= k < evidence.len() && locks(#[trigger] evidence[k], id);
        let v = evidence[k].payload@.member("segment_id"@)->0;
        assert(v == JsonView::Int(id));
    }
    if segment_is_named(o, evidence) {
        let k = choose|k: int|
            0 <= k < evidence.len() && (#[trigger] evidence[k]).kind@ == "lock_clock"@
                && o.clock_segment_id is Some && evidence[k].payload@.member("segment_id"@) == Some(
                JsonView::Int(o.clock_segment_id->0 as int),
            );
        assert(locks(evidence[k], o.clock_segment_id->0 as int));
    }
}

proof fn listed_speaks(input: SolverInput, r: Seq<int>, k: int)
    requires
        is_roster(input.observations@, input.event, input.observations@.len() as int, r),
        0 <= k < r.len(),
    ensures
        speaks_for_its_station(input, r[k]),
{
    let obs = input.observations@;
    let e = input.event;
    assert(stands_for_station(obs, e, obs.len() as int, r[k]));
    assert forall|j: int|
        0 <= j < obs.len() && takes_part(#[trigger] obs[j], e) && obs[j].station_id@
            == obs[r[k]].station_id@ implies text_lt(obs[r[k]].obs_uid@, obs[j].obs_uid@) || (
    obs[r[k]].obs_uid@ == obs[j].obs_uid@ && r[k] <= j) by {
        assert(eligible(obs[j], e));
    }
}

proof fn speaker_is_listed(input: SolverInput, r: Seq<int>, i: int) -> (k: int)
    requires
        is_roster(input.observations@, input.event, input.observations@.len() as int, r),
        speaks_for_its_station(input, i),
    ensures
        0 <= k < r.len(),
        r[k] == i,
{
    let obs = input.observations@;
    let e = input.event;
    assert(eligible(obs[i], e));
    let k = choose|k: int|
        0 <= k < r.len() && obs[#[trigger] r[k]].station_id@ == obs[i].station_id@;
    listed_speaks(input, r, k);
    assert(takes_part(obs[r[k]], e));
    assert(takes_part(obs[i], e));
    text_order_is_total(obs[i].obs_uid@, obs[r[k]].obs_uid@);
    k
}

proof fn first_is_anchor(input: SolverInput, r: Seq<int>)
    requires
        is_roster(input.observations@, input.event, input.observations@.len() as int, r),
        r.len() > 0,
    ensures
        is_anchor(input, r[0]),
{
    let obs = input.observations@;
    let e = input.event;
    listed_speaks(input, r, 0);
    assert forall|k: int| 0 <= k < obs.len() && takes_part(#[trigger] obs[k], e) implies !text_lt(
        obs[k].station_id@,
        obs[r[0]].station_id@,
    ) by {
        assert(eligible(obs[k], e));
        let l = choose|l: int|
            0 <= l < r.len() && obs[#[trigger] r[l]].station_id@ == obs[k].station_id@;
        text_order_is_total(obs[k].station_id@, obs[r[0]].station_id@);
        if l > 0 {
            assert(text_lt(obs[r[0]].station_id@, obs[r[l]].station_id@));
        }
    }
}

proof fn anchor_is_first(input: SolverInput, r: Seq<int>, j: int)
    requires
        is_roster(input.observations@, input.event, input.observations@.len() as int, r),
        is_anchor(input, j),
    ensures
        r.len() > 0,
        r[0] == j,
{
    let obs = input.observations@;
    let k = speaker_is_listed(input, r, j);
    if k > 0 {
        assert(text_lt(obs[r[0]].station_id@, obs[r[k]].station_id@));
        listed_speaks(input, r, 0);
        assert(takes_part(obs[r[0]], input.event));
    }
}

/// Observation `i` can be measured against observation `j`: both onsets are
/// corrected and both stations are entered.
pub open spec fn can_be_measured(input: SolverInput, i: int, j: int) -> bool {
    &&& input.observations@[i].corrected_onset_sec is Some
    &&& input.observations@[j].corrected_onset_sec is Some
    &&& is_entered(input.stations@, input.observations@[i].station_id@)
    &&& is_entered(input.stations@, input.observations@[j].station_id@)
}

proof fn onsets_in_turn(input: SolverInput, minus: Differences, r: Seq<int>, m: int) -> (src: Seq<
    int,
>)
    requires
        is_roster(input.observations@, input.event, input.observations@.len() as int, r),
        1 <= m <= r.len(),
    ensures
        src.len() == onset_measurements(input, minus, r.take(m)).len(),
        forall|k: int|
            0 <= k < src.len() ==> 1 <= #[trigger] src[k] < m && is_onset_pair(
                input,
                minus,
                r[src[k]],
                r[0],
                onset_measurements(input, minus, r.take(m))[k],
            ),
        forall|k: int, l: int| 0 <= k < l < src.len() ==> #[trigger] src[k] < #[trigger] src[l],
        forall|l: int|
            1 <= l < m && can_be_measured(input, #[trigger] r[l], r[0]) ==> src.contains(l),
    decreases m,
{
    let q = r.take(m);
    let out = onset_measurements(input, minus, q);
    if m == 1 {
        Seq::empty()
    } else {
        let before = onsets_in_turn(input, minus, r, m - 1);
        assert(q.drop_last() =~= r.take(m - 1));
        let i = r[m - 1];
        let j = r[0];
        let o = input.observations@[i];
        let anchor = input.observations@[j];
        places_are_those_of_the_last_entries(input.stations@, o.station_id@);
        places_are_those_of_the_last_entries(input.stations@, anchor.station_id@);
        naming_is_locking(o, input.evidence@);
        naming_is_locking(anchor, input.evidence@);
        listed_speaks(input, r, m - 1);
        first_is_anchor(input, r);
        assert(text_lt(anchor.station_id@, o.station_id@));
        text_order_is_total(anchor.station_id@, o.station_id@);
        if can_be_measured(input, i, j) {
            let src = before.push(m - 1);
            assert(is_onset_pair(input, minus, i, j, out[out.len() - 1]));
            assert forall|l: int|
                1 <= l < m && can_be_measured(input, #[trigger] r[l], r[0]) implies src.contains(
                l,
            ) by {
                if l < m - 1 {
                    let k = choose|k: int| 0 <= k < before.len() && before[k] == l;
                    assert(src[k] == l);
                } else {
                    assert(src[src.len() - 1] == l);
                }
            }
            src
        } else {
            before
        }
    }
}


proof fn delays_in_turn(lags: Seq<LagRow>, stations: Seq<Station>, c: Double) -> (src: Seq<int>)
    ensures
        src.len() == ccf_measurements(lags, stations, c).len(),
        forall|k: int|
            0 <= k < src.len() ==> 0 <= #[trigger] src[k] < lags.len() && is_delay(
                lags[src[k]],
                stations,
                c,
                ccf_measurements(lags, stations, c)[k],
            ),
        forall|k: int, l: int| 0 <= k < l < src.len() ==> #[trigger] src[k] < #[trigger] src[l],
        forall|l: int|
            0 <= l < lags.len() && is_entered(stations, (#[trigger] lags[l]).station_id@)
                && is_entered(stations, lags[l].peer_id@) ==> src.contains(l),
    decreases lags.len(),
{
    if lags.len() == 0 {
        Seq::empty()
    } else {
        let rest = lags.drop_last();
        let before = delays_in_turn(rest, stations, c);
        let n = lags.len() - 1;
        let lag = lags[n];
        let out = ccf_measurements(lags, stations, c);
        places_are_those_of_the_last_entries(stations, lag.station_id@);
        places_are_those_of_the_last_entries(stations, lag.peer_id@);
        assert forall|k: int| 0 <= k < before.len() implies lags[#[trigger] before[k]]
            == rest[before[k]] by {}
        if is_entered(stations, lag.station_id@) && is_entered(stations, lag.peer_id@) {
            let src = before.push(n);
            assert(is_delay(lag, stations, c, out[out.len() - 1]));
            assert forall|l: int|
                0 <= l < lags.len() && is_entered(stations, (#[trigger] lags[l]).station_id@)
                    && is_entered(stations, lags[l].peer_id@) implies src.contains(l) by {
                if l < n {
                    assert(rest[l] == lags[l]);
                    let k = choose|k: int| 0 <= k < before.len() && before[k] == l;
                    assert(src[k] == l);
                } else {
                    assert(src[src.len() - 1] == l);
                }
            }
            src
        } else {
            assert forall|l: int|
                0 <= l < lags.len() && is_entered(stations, (#[trigger] lags[l]).station_id@)
                    && is_entered(stations, lags[l].peer_id@) implies before.contains(l) by {
                assert(rest[l] == lags[l]);
            }
            before
        }
    }
}

/// A measurement is that of a delay: the delay itself, from its station to its
/// peer, with nothing taken from a clock.
pub open spec fn is_delay(lag: LagRow, stations: Seq<Station>, c: Double, m: MeasView) -> bool {
    &&& m.measured_sec == lag.lag_sec
    &&& m.tau == lag.lag_sec
    &&& stands_at(stations, lag.station_id@, m.a)
    &&& stands_at(stations, lag.peer_id@, m.b)
    &&& m.c == c
    &&& m.weight.bits == 0x3ff0_0000_0000_0000
    &&& m.tag == "ccf:"@ + lag.lag_uid@
    &&& m.kind == "ccf_lag"@
    &&& m.lag_uid == Some(lag.lag_uid@)
    &&& m.station_id == lag.station_id@
    &&& m.peer_id == Some(lag.peer_id@)
    &&& m.reflection <==> lag.hint@ == "reflection"@
    &&& m.clock_locked
}

proof fn the_kinds_differ()
    ensures
        "onset_pair"@ != "ccf_lag"@,
{
    reveal_strlit("onset_pair");
    reveal_strlit("ccf_lag");
    assert("onset_pair"@.len() == 10);
    assert("ccf_lag"@.len() == 7);
}

/// Where each measurement comes from: the delays come first, `lags[k]` being the
/// one of measurement `k`, in their order and each with entered stations once;
/// the onsets follow, `pairs[k]` being the observation of the `k`-th of them and
/// `anchor` the one they are all taken against, in the order of the stations.
/// Every delay and every observation that can be measured is among them.
pub open spec fn sources_are(
    input: SolverInput,
    minus: Differences,
    lags: Seq<int>,
    pairs: Seq<int>,
    anchor: int,
) -> bool {
    let all = measurements(input, minus);
    &&& all.len() == lags.len() + pairs.len()
    &&& forall|k: int|
        0 <= k < lags.len() ==> 0 <= #[trigger] lags[k] < input.lags@.len() && is_delay(
            input.lags@[lags[k]],
            input.stations@,
            input.event.sound_speed_mps,
            all[k],
        )
    &&& forall|k: int, l: int| 0 <= k < l < lags.len() ==> #[trigger] lags[k] < #[trigger] lags[l]
    &&& forall|l: int|
        0 <= l < input.lags@.len() && is_entered(
            input.stations@,
            (#[trigger] input.lags@[l]).station_id@,
        ) && is_entered(input.stations@, input.lags@[l].peer_id@) ==> lags.contains(l)
    &&& forall|k: int|
        0 <= k < pairs.len() ==> is_onset_pair(
            input,
            minus,
            #[trigger] pairs[k],
            anchor,
            all[lags.len() + k],
        )
    &&& forall|k: int, l: int|
        0 <= k < l < pairs.len() ==> text_lt(
            input.observations@[#[trigger] pairs[k]].station_id@,
            input.observations@[#[trigger] pairs[l]].station_id@,
        )
    &&& forall|i: int, j: int|
        #![trigger speaks_for_its_station(input, i), is_anchor(input, j)]
        speaks_for_its_station(input, i) && is_anchor(input, j) && i != j && can_be_measured(
            input,
            i,
            j,
        ) ==> j == anchor && pairs.contains(i)
}

/// Every measurement is that of a delay or of an onset against the anchor, and
/// every delay and onset that can be measured is one.
pub proof fn measurements_have_sources(input: SolverInput, minus: Differences)
    ensures
        exists|lags: Seq<int>, pairs: Seq<int>, anchor: int|
            sources_are(input, minus, lags, pairs, anchor),
{
    let obs = input.observations@;
    let e = input.event;
    let n = obs.len() as int;
    there_is_a_roster(obs, e, n);
    let r = roster_of(obs, e);
    assert(is_roster(obs, e, n, r));
    let lags = delays_in_turn(input.lags@, input.stations@, e.sound_speed_mps);
    let all = measurements(input, minus);
    if r.len() <= 1 {
        assert forall|i: int, j: int|
            #![trigger speaks_for_its_station(input, i), is_anchor(input, j)]
            speaks_for_its_station(input, i) && is_anchor(input, j) && i != j implies false by {
            let k = speaker_is_listed(input, r, i);
            anchor_is_first(input, r, j);
        }
        assert(sources_are(input, minus, lags, Seq::empty(), 0));
    } else {
        let src = onsets_in_turn(input, minus, r, r.len() as int);
        assert(r.take(r.len() as int) =~= r);
        let pairs = src.map_values(|k: int| r[k]);
        assert forall|k: int| 0 <= k < pairs.len() implies is_onset_pair(
            input,
            minus,
            #[trigger] pairs[k],
            r[0],
            all[lags.len() + k],
        ) by {
            assert(pairs[k] == r[src[k]]);
        }
        assert forall|k: int, l: int| 0 <= k < l < pairs.len() implies text_lt(
            obs[#[trigger] pairs[k]].station_id@,
            obs[#[trigger] pairs[l]].station_id@,
        ) by {
            assert(src[k] < src[l]);
            assert(text_lt(obs[r[src[k]]].station_id@, obs[r[src[l]]].station_id@));
        }
        assert forall|i: int, j: int|
            #![trigger speaks_for_its_station(input, i), is_anchor(input, j)]
            speaks_for_its_station(input, i) && is_anchor(input, j) && i != j && can_be_measured(
                input,
                i,
                j,
            ) implies j == r[0] && pairs.contains(i) by {
            anchor_is_first(input, r, j);
            let k = speaker_is_listed(input, r, i);
            assert(can_be_measured(input, r[k], r[0]));
            let l = choose|l: int| 0 <= l < src.len() && src[l] == k;
            assert(pairs[l] == i);
        }
        assert(sources_are(input, minus, lags, pairs, r[0]));
    }
}

/// An onset counts as locked if and only if the evidence locks both the segment
/// that the station's observation was timed by and the one of the anchor's.
pub proof fn onsets_need_both_clocks(input: SolverInput, minus: Differences, k: int)
    requires
        0 <= k < measurements(input, minus).len(),
        measurements(input, minus)[k].kind == "onset_pair"@,
    ensures
        exists|i: int, j: int|
            #[trigger] is_onset_pair(input, minus, i, j, measurements(input, minus)[k]),
        forall|i: int, j: int|
            #![trigger is_onset_pair(input, minus, i, j, measurements(input, minus)[k])]
            is_onset_pair(input, minus, i, j, measurements(input, minus)[k]) ==> (
            measurements(input, minus)[k].clock_locked <==> segment_is_named(
                input.observations@[i],
                input.evidence@,
            ) && segment_is_named(input.observations@[j], input.evidence@)),
{
    the_kinds_differ();
    measurements_have_sources(input, minus);
    let (lags, pairs, anchor) = choose|lags: Seq<int>, pairs: Seq<int>, anchor: int|
        sources_are(input, minus, lags, pairs, anchor);
    let all = measurements(input, minus);
    if k < lags.len() {
        assert(is_delay(
            input.lags@[lags[k]],
            input.stations@,
            input.event.sound_speed_mps,
            all[k],
        ));
    } else {
        let l = k - lags.len();
        assert(is_onset_pair(input, minus, pairs[l], anchor, all[lags.len() + l]));
    }
}

/// Where the evidence does not lock the segments of two stations both, no
/// hypothesis uses the onsets of the two, whatever it leaves out and however
/// far they reach.
pub proof fn onsets_of_unlocked_clocks_are_not_used(
    input: SolverInput,
    minus: Differences,
    excluded: Seq<Seq<char>>,
    reach: Seq<Reach>,
    k: int,
)
    requires
        unopposed(objections(measurements(input, minus), excluded, reach)).contains(k),
        measurements(input, minus)[k].kind == "onset_pair"@,
    ensures
        exists|i: int, j: int|
            #[trigger] is_onset_pair(input, minus, i, j, measurements(input, minus)[k])
                && segment_is_named(input.observations@[i], input.evidence@) && segment_is_named(
                input.observations@[j],
                input.evidence@,
            ),
{
    let all = measurements(input, minus);
    let list = objections(all, excluded, reach);
    unopposed_have_no_objection(list);
    let at = choose|at: int| 0 <= at < unopposed(list).len() && unopposed(list)[at] == k;
    assert(list[unopposed(list)[at]] is None);
    assert(list[k] is None);
    onsets_need_both_clocks(input, minus, k);
}

// ---------- Screening ----------

proof fn the_objections_differ()
    ensures
        "manual_reflection_excluded"@ != "clock_segment_unlocked"@,
        "manual_reflection_excluded"@ != "superluminal_lag"@,
        "clock_segment_unlocked"@ != "superluminal_lag"@,
{
    reveal_strlit("manual_reflection_excluded");
    reveal_strlit("clock_segment_unlocked");
    reveal_strlit("superluminal_lag");
    assert("manual_reflection_excluded"@.len() == 26);
    assert("clock_segment_unlocked"@.len() == 22);
    assert("superluminal_lag"@.len() == 16);
}

/// A measurement is used under a hypothesis if and only if the hypothesis does
/// not leave its delay out, its clocks are locked where it is one of onsets,
/// and it does not reach beyond its limit. The first of these that fails is
/// what is given as the reason.
pub proof fn what_is_used_is_allowed(
    meas: Seq<MeasView>,
    excluded: Seq<Seq<char>>,
    reach: Seq<Reach>,
    k: int,
)
    requires
        0 <= k < meas.len(),
    ensures
        ({
            let left_out = meas[k].lag_uid is Some && excluded.contains(meas[k].lag_uid->0);
            let unlocked = meas[k].kind == "onset_pair"@ && !meas[k].clock_locked;
            let too_far = reach[k].limit.below(reach[k].range);
            let list = objections(meas, excluded, reach);
            &&& unopposed(list).contains(k) <==> !left_out && !unlocked && !too_far
            &&& list[k] == Some("manual_reflection_excluded"@) <==> left_out
            &&& list[k] == Some("clock_segment_unlocked"@) <==> !left_out && unlocked
            &&& list[k] == Some("superluminal_lag"@) <==> !left_out && !unlocked && too_far
        }),
{
    the_objections_differ();
    let list = objections(meas, excluded, reach);
    unopposed_have_no_objection(list);
    if unopposed(list).contains(k) {
        let at = choose|at: int| 0 <= at < unopposed(list).len() && unopposed(list)[at] == k;
        assert(list[unopposed(list)[at]] is None);
    }
    if list[k] is None {
        assert(unopposed(list).contains(k));
    }
}

/// What is used stands in the order of the measurements, each once.
pub proof fn what_is_used_is_in_order(list: Seq<Option<Seq<char>>>)
    ensures
        forall|k: int, l: int|
            0 <= k < l < unopposed(list).len() ==> #[trigger] unopposed(list)[k]
                < #[trigger] unopposed(list)[l],
        forall|k: int|
            0 <= k < unopposed(list).len() ==> 0 <= #[trigger] unopposed(list)[k] < list.len(),
    decreases list.len(),
{
    unopposed_have_no_objection(list);
    if list.len() > 0 {
        what_is_used_is_in_order(list.drop_last());
        let before = unopposed(list.drop_last());
        let now = unopposed(list);
        assert forall|k: int, l: int| 0 <= k < l < now.len() implies #[trigger] now[k]
            < #[trigger] now[l] by {
            assert(before[k] == now[k]);
            if l < before.len() {
                assert(before[l] == now[l]);
            }
        }
    }
}

// ---------- Residuals ----------

/// Each row of residuals belongs to the measurement with its number: it names
/// what was measured, gives what was predicted for that measurement and what
/// the prediction misses by, and says whether and why it is left out.
pub proof fn residuals_are_those_of_the_predictions(
    meas: Seq<MeasView>,
    predictions: Seq<Prediction>,
    reasons: Seq<Option<Seq<char>>>,
    i: int,
)
    requires
        0 <= i < meas.len(),
    ensures
        ({
            let rows = residuals_of(meas, Some(predictions), reasons);
            &&& rows.len() == meas.len()
            &&& rows[i].predicted_sec == Some(predictions[i].predicted_sec)
            &&& rows[i].residual_sec == Some(predictions[i].residual_sec)
            &&& rows[i].measured_sec == meas[i].measured_sec
            &&& rows[i].weight == meas[i].weight
            &&& rows[i].kind == meas[i].kind
            &&& rows[i].lag_uid == meas[i].lag_uid
            &&& rows[i].station_id == meas[i].station_id
            &&& rows[i].peer_id == meas[i].peer_id
            &&& rows[i].used <==> reasons[i] is None
            &&& rows[i].excluded_reason == reasons[i]
        }),
{
}

/// Where each prediction misses by what was measured less what was predicted,
/// so does each row of residuals.
pub proof fn residuals_are_measured_less_predicted(
    meas: Seq<MeasView>,
    predictions: Seq<Prediction>,
    reasons: Seq<Option<Seq<char>>>,
    minus: Differences,
)
    requires
        predictions.len() == meas.len(),
        forall|i: int|
            0 <= i < meas.len() ==> (#[trigger] predictions[i]).residual_sec == minus.difference(
                meas[i].measured_sec,
                predictions[i].predicted_sec,
            ),
    ensures
        forall|i: int|
            #![trigger residuals_of(meas, Some(predictions), reasons)[i]]
            0 <= i < meas.len() ==> ({
                let row = residuals_of(meas, Some(predictions), reasons)[i];
                row.predicted_sec is Some && row.residual_sec == Some(
                    minus.difference(row.measured_sec, row.predicted_sec->0),
                )
            }),
{
    assert forall|i: int|
        #![trigger residuals_of(meas, Some(predictions), reasons)[i]]
        0 <= i < meas.len() implies ({
        let row = residuals_of(meas, Some(predictions), reasons)[i];
        row.predicted_sec is Some && row.residual_sec == Some(
            minus.difference(row.measured_sec, row.predicted_sec->0),
        )
    }) by {
        residuals_are_those_of_the_predictions(meas, predictions, reasons, i);
        assert(predictions[i].residual_sec == minus.difference(
            meas[i].measured_sec,
            predictions[i].predicted_sec,
        ));
    }
}

/// Without a position nothing is predicted and nothing missed.
pub proof fn without_a_position_nothing_is_predicted(
    meas: Seq<MeasView>,
    reasons: Seq<Option<Seq<char>>>,
    i: int,
)
    requires
        0 <= i < meas.len(),
    ensures
        ({
            let rows = residuals_of(meas, None, reasons);
            &&& rows.len() == meas.len()
            &&& rows[i].predicted_sec is None
            &&& rows[i].residual_sec is None
            &&& rows[i].measured_sec == meas[i].measured_sec
            &&& rows[i].weight == meas[i].weight
            &&& rows[i].kind == meas[i].kind
            &&& rows[i].lag_uid == meas[i].lag_uid
            &&& rows[i].station_id == meas[i].station_id
            &&& rows[i].peer_id == meas[i].peer_id
            &&& rows[i].used <==> reasons[i] is None
            &&& rows[i].excluded_reason == reasons[i]
        }),
{
}

} // verus!
