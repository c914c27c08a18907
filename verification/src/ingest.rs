//! Taking in a batch of observations.
use vstd::prelude::*;
use vstd::string::*;
use vstd::utf8::encode_utf8;

use crate::canon::{canonical_fingerprint, canonical_text, Decimals, Quoting};
use crate::db::{all_corrected, apply_clock_corrections, find_event, find_station};
use crate::digest::fingerprint;
use crate::double::Double;
use crate::figures::Differences;
use crate::json::Json;
use crate::model::{
    copy_observationrows, observationrow_views, opt_text, BatchInput, BatchInputView, LagInput,
    LagInputView, LagRow, LagRowView, ObservationInput, ObservationInputView, ObservationRow,
    ObservationRowView, StationView,
};
use crate::store::{
    batches_ok, batchrow_views, copy_lagrecords, knows_batch, knows_event, knows_lag,
    knows_observation, knows_segment, knows_station, lagrecord_views, lags_ok, observations_ok,
    BatchRow, BatchRowView, Fault, LagRecord, LagRecordView, Store, StoreView,
};
use crate::text::{decimal, decimal_text, precedes, same, text_lt};

verus! {

/// What became of a batch.
#[derive(Clone, Copy, Debug, PartialEq, Eq, Structural)]
pub enum IngestResult {
    Inserted { observations_added: usize },
    DuplicateBatch,
}

/// 5e-6 s: onsets at one station that are closer are one onset.
pub const TWIN_SEC: u64 = 0x3ed4_f8b5_88e3_68f1;

/// An observation that is kept reports the onset of `o` at its station.
pub open spec fn is_twin(
    r: ObservationRowView,
    event_id: Seq<char>,
    o: ObservationInputView,
    minus: Differences,
) -> bool {
    &&& r.event_id == event_id
    &&& r.station_id == o.station_id
    &&& minus.within(r.local_onset_sec, o.local_onset_sec, Double { bits: TWIN_SEC })
}

/// The first, by identifier, of the observations that report the onset of `o`.
pub open spec fn twin_of(
    obs: Seq<ObservationRowView>,
    event_id: Seq<char>,
    o: ObservationInputView,
    minus: Differences,
) -> Option<Seq<char>>
    decreases obs.len(),
{
    if obs.len() == 0 {
        None
    } else {
        let before = twin_of(obs.drop_last(), event_id, o, minus);
        let r = obs.last();
        if !is_twin(r, event_id, o, minus) {
            before
        } else {
            match before {
                Some(u) => if text_lt(r.obs_uid, u) {
                    Some(r.obs_uid)
                } else {
                    before
                },
                None => Some(r.obs_uid),
            }
        }
    }
}

/// What is found is one of the observations that report the onset, and none
/// that does has a smaller identifier.
pub proof fn twin_is_the_first(
    obs: Seq<ObservationRowView>,
    event_id: Seq<char>,
    o: ObservationInputView,
    minus: Differences,
)
    ensures
        twin_of(obs, event_id, o, minus) matches Some(u) ==> exists|i: int|
            0 <= i < obs.len() && is_twin(#[trigger] obs[i], event_id, o, minus) && obs[i].obs_uid
                == u,
        twin_of(obs, event_id, o, minus) is None ==> forall|i: int|
            0 <= i < obs.len() ==> !is_twin(#[trigger] obs[i], event_id, o, minus),
        forall|i: int|
            0 <= i < obs.len() && is_twin(#[trigger] obs[i], event_id, o, minus) ==> !text_lt(
                obs[i].obs_uid,
                twin_of(obs, event_id, o, minus)->0,
            ),
    decreases obs.len(),
{
    if obs.len() > 0 {
        let rest = obs.drop_last();
        twin_is_the_first(rest, event_id, o, minus);
        let now = twin_of(obs, event_id, o, minus);
        let before = twin_of(rest, event_id, o, minus);
        if now is Some {
            if now == before {
                let i = choose|i: int|
                    0 <= i < rest.len() && is_twin(#[trigger] rest[i], event_id, o, minus)
                        && rest[i].obs_uid == now->0;
                assert(obs[i] == rest[i]);
            } else {
                assert(obs[obs.len() - 1] == obs.last());
            }
        }
        assert forall|i: int|
            0 <= i < obs.len() && is_twin(#[trigger] obs[i], event_id, o, minus) implies !text_lt(
            obs[i].obs_uid,
            now->0,
        ) by {
            if i < rest.len() {
                assert(rest[i] == obs[i]);
                if now != before {
                    crate::text::text_order_is_total(obs[i].obs_uid, before->0);
                    crate::text::text_order_is_total(obs[i].obs_uid, now->0);
                    if text_lt(obs[i].obs_uid, now->0) {
                        crate::text::text_order_is_transitive(
                            obs[i].obs_uid,
                            now->0,
                            before->0,
                        );
                    }
                }
            } else {
                if now == before {
                } else {
                    crate::text::text_order_is_total(obs[i].obs_uid, obs[i].obs_uid);
                }
            }
        }
        if now is None {
            assert forall|i: int| 0 <= i < obs.len() implies !is_twin(
                #[trigger] obs[i],
                event_id,
                o,
                minus,
            ) by {
                if i < rest.len() {
                    assert(rest[i] == obs[i]);
                }
            }
        }
    }
}

/// A new observation as it is kept.
pub open spec fn observation_row(
    batch: BatchInputView,
    o: ObservationInputView,
    twin: Option<Seq<char>>,
) -> ObservationRowView {
    ObservationRowView {
        obs_uid: o.obs_uid,
        batch_uid: batch.batch_uid,
        event_id: batch.event_id,
        station_id: o.station_id,
        local_onset_sec: o.local_onset_sec,
        corrected_onset_sec: None,
        clock_locked: false,
        clock_segment_id: None,
        peak_band_hz: o.peak_band_hz,
        snr_db: o.snr_db,
        duplicate_of: twin,
    }
}

/// Why an observation is refused.
pub open spec fn observation_fault(o: ObservationInputView, stations: Seq<StationView>) -> Option<
    Fault,
> {
    if o.local_onset_sec.nan() {
        Some(Fault::ObservationOnset)
    } else if o.peak_band_hz.nan() {
        Some(Fault::ObservationBand)
    } else if o.snr_db.nan() {
        Some(Fault::ObservationSnr)
    } else if !knows_station(stations, o.station_id) {
        Some(Fault::ForeignKey)
    } else {
        None
    }
}

/// The identifier of a delay: its own, or one made of the batch, the observation,
/// the place among the delays of the observation and the peer.
pub open spec fn lag_uid_of(
    batch_uid: Seq<char>,
    obs_uid: Seq<char>,
    j: int,
    l: LagInputView,
) -> Seq<char> {
    match l.lag_uid {
        Some(u) => u,
        None => "lag:"@ + batch_uid + ":"@ + obs_uid + ":"@ + decimal_text(j as nat) + ":"@
            + l.peer_id,
    }
}

/// A delay as it is kept.
pub open spec fn lag_record(
    batch: BatchInputView,
    o: ObservationInputView,
    uid: Seq<char>,
    l: LagInputView,
) -> LagRecordView {
    LagRecordView {
        event_id: batch.event_id,
        lag: LagRowView {
            lag_uid: uid,
            obs_uid: o.obs_uid,
            station_id: o.station_id,
            peer_id: l.peer_id,
            lag_sec: l.lag_sec,
            peak_band_hz: l.peak_band_hz,
            snr_db: l.snr_db,
            hint: l.hint,
        },
    }
}

/// The delays after the first `n` of an observation are entered. One that
/// lacks a number, or whose identifier is taken, is passed over; one whose
/// peer is unknown makes the batch fail.
pub open spec fn lags_entered(
    lags: Seq<LagRecordView>,
    stations: Seq<StationView>,
    batch: BatchInputView,
    idx: int,
    n: int,
) -> Result<Seq<LagRecordView>, Fault>
    decreases n,
{
    if n <= 0 {
        Ok(lags)
    } else {
        match lags_entered(lags, stations, batch, idx, n - 1) {
            Err(f) => Err(f),
            Ok(before) => {
                let o = batch.observations[idx];
                let l = o.lags[n - 1];
                let uid = lag_uid_of(batch.batch_uid, o.obs_uid, n - 1, l);
                if l.lag_sec.nan() || l.peak_band_hz.nan() || l.snr_db.nan() || knows_lag(
                    before,
                    uid,
                ) {
                    Ok(before)
                } else if !knows_station(stations, l.peer_id) {
                    Err(Fault::ForeignKey)
                } else {
                    Ok(before.push(lag_record(batch, o, uid, l)))
                }
            },
        }
    }
}

/// The tables that a batch fills.
#[verifier::ext_equal]
pub ghost struct Entered {
    pub observations: Seq<ObservationRowView>,
    pub lags: Seq<LagRecordView>,
    pub added: int,
}

/// The observation that is reported again is marked as its own duplicate,
/// unless it already counts as one.
pub open spec fn reported_again(obs: Seq<ObservationRowView>, uid: Seq<char>) -> Seq<
    ObservationRowView,
> {
    obs.map_values(
        |r: ObservationRowView|
            if r.obs_uid == uid && r.duplicate_of is None {
                ObservationRowView { duplicate_of: Some(uid), ..r }
            } else {
                r
            },
    )
}

/// The tables after the first `n` observations of a batch.
pub open spec fn entered(v: StoreView, batch: BatchInputView, minus: Differences, n: int) -> Result<
    Entered,
    Fault,
>
    decreases n,
{
    if n <= 0 {
        Ok(Entered { observations: v.observations, lags: v.lags, added: 0 })
    } else {
        match entered(v, batch, minus, n - 1) {
            Err(f) => Err(f),
            Ok(t) => {
                let o = batch.observations[n - 1];
                if knows_observation(t.observations, o.obs_uid) {
                    Ok(
                        Entered {
                            observations: reported_again(t.observations, o.obs_uid),
                            ..t
                        },
                    )
                } else {
                    match observation_fault(o, v.stations) {
                        Some(f) => Err(f),
                        None => match lags_entered(
                            t.lags,
                            v.stations,
                            batch,
                            n - 1,
                            o.lags.len() as int,
                        ) {
                            Err(f) => Err(f),
                            Ok(lags) => Ok(
                                Entered {
                                    observations: t.observations.push(
                                        observation_row(
                                            batch,
                                            o,
                                            twin_of(t.observations, batch.event_id, o, minus),
                                        ),
                                    ),
                                    lags,
                                    added: t.added + 1,
                                },
                            ),
                        },
                    }
                }
            },
        }
    }
}

/// A batch that came in once more.
pub open spec fn counted_again(batches: Seq<BatchRowView>, uid: Seq<char>) -> Seq<BatchRowView> {
    batches.map_values(
        |b: BatchRowView|
            if b.batch_uid == uid && b.duplicate_count < i64::MAX {
                BatchRowView { duplicate_count: b.duplicate_count + 1, ..b }
            } else {
                b
            },
    )
}

fn find_batch(batches: &Vec<BatchRow>, uid: &str) -> (r: Option<usize>)
    ensures
        match r {
            Some(i) => i < batches@.len() && batches@[i as int].batch_uid@ == uid@ && knows_batch(
                batchrow_views(batches@),
                uid@,
            ),
            None => !knows_batch(batchrow_views(batches@), uid@),
        },
{
    let ghost views = batchrow_views(batches@);
    let mut i: usize = 0;
    while i < batches.len()
        invariant
            i <= batches@.len(),
            views == batchrow_views(batches@),
            forall|j: int| 0 <= j < i ==> (#[trigger] views[j]).batch_uid != uid@,
        decreases batches@.len() - i,
    {
        assert(views[i as int] == batches@[i as int]@);
        if same(batches[i].batch_uid.as_str(), uid) {
            return Some(i);
        }
        i += 1;
    }
    None
}

fn find_observation(obs: &Vec<ObservationRow>, uid: &str) -> (r: Option<usize>)
    ensures
        match r {
            Some(i) => i < obs@.len() && obs@[i as int].obs_uid@ == uid@ && knows_observation(
                observationrow_views(obs@),
                uid@,
            ),
            None => !knows_observation(observationrow_views(obs@), uid@),
        },
{
    let ghost views = observationrow_views(obs@);
    let mut i: usize = 0;
    while i < obs.len()
        invariant
            i <= obs@.len(),
            views == observationrow_views(obs@),
            forall|j: int| 0 <= j < i ==> (#[trigger] views[j]).obs_uid != uid@,
        decreases obs@.len() - i,
    {
        assert(views[i as int] == obs@[i as int]@);
        if same(obs[i].obs_uid.as_str(), uid) {
            return Some(i);
        }
        i += 1;
    }
    None
}

fn has_lag(lags: &Vec<LagRecord>, uid: &str) -> (r: bool)
    ensures
        r == knows_lag(lagrecord_views(lags@), uid@),
{
    let ghost views = lagrecord_views(lags@);
    let mut i: usize = 0;
    while i < lags.len()
        invariant
            i <= lags@.len(),
            views == lagrecord_views(lags@),
            forall|j: int| 0 <= j < i ==> (#[trigger] views[j]).lag.lag_uid != uid@,
        decreases lags@.len() - i,
    {
        assert(views[i as int] == lags@[i as int]@);
        if same(lags[i].lag.lag_uid.as_str(), uid) {
            return true;
        }
        i += 1;
    }
    false
}

fn find_twin(
    obs: &Vec<ObservationRow>,
    event_id: &str,
    o: &ObservationInput,
    minus: &Differences,
) -> (r: Option<String>)
    ensures
        opt_text(r) == twin_of(observationrow_views(obs@), event_id@, o@, *minus),
{
    let ghost views = observationrow_views(obs@);
    let mut best: Option<String> = None;
    let mut i: usize = 0;
    assert(views.take(0) =~= Seq::empty());
    while i < obs.len()
        invariant
            i <= obs@.len(),
            views == observationrow_views(obs@),
            opt_text(best) == twin_of(views.take(i as int), event_id@, o@, *minus),
        decreases obs@.len() - i,
    {
        let r = &obs[i];
        assert(views.take(i + 1).drop_last() =~= views.take(i as int));
        assert(views.take(i + 1).last() == r@);
        if same(r.event_id.as_str(), event_id) && same(
            r.station_id.as_str(),
            o.station_id.as_str(),
        ) && minus.is_within(
            r.local_onset_sec,
            o.local_onset_sec,
            Double { bits: TWIN_SEC },
        ) {
            let better = match &best {
                Some(u) => precedes(r.obs_uid.as_str(), u.as_str()),
                None => true,
            };
            if better {
                best = Some(r.obs_uid.clone());
            }
        }
        i += 1;
    }
    assert(views.take(i as int) =~= views);
    best
}

fn refuse_observation(
    o: &ObservationInput,
    stations: &Vec<crate::model::Station>,
) -> (r: Option< Fault, >)
    ensures
        r == observation_fault(o@, crate::model::station_views(stations@)),
{
    if o.local_onset_sec.is_nan() {
        Some(Fault::ObservationOnset)
    } else if o.peak_band_hz.is_nan() {
        Some(Fault::ObservationBand)
    } else if o.snr_db.is_nan() {
        Some(Fault::ObservationSnr)
    } else if find_station(stations, o.station_id.as_str()).is_none() {
        Some(Fault::ForeignKey)
    } else {
        None
    }
}

fn name_lag(batch_uid: &str, obs_uid: &str, j: usize, l: &LagInput) -> (r: String)
    ensures
        r@ == lag_uid_of(batch_uid@, obs_uid@, j as int, l@),
{
    match &l.lag_uid {
        Some(u) => u.clone(),
        None => {
            let mut s = "lag:".to_owned();
            s.append(batch_uid);
            s.append(":");
            s.append(obs_uid);
            s.append(":");
            s.append(decimal(j as u64).as_str());
            s.append(":");
            s.append(l.peer_id.as_str());
            s
        },
    }
}

proof fn lags_stay_refused(
    lags: Seq<LagRecordView>,
    stations: Seq<StationView>,
    batch: BatchInputView,
    idx: int,
    m: int,
    n: int,
)
    requires
        m <= n,
        lags_entered(lags, stations, batch, idx, m) is Err,
    ensures
        lags_entered(lags, stations, batch, idx, n) == lags_entered(lags, stations, batch, idx, m),
    decreases n - m,
{
    if m < n {
        lags_stay_refused(lags, stations, batch, idx, m, n - 1);
    }
}

proof fn batch_stays_refused(
    v: StoreView,
    batch: BatchInputView,
    minus: Differences,
    m: int,
    n: int,
)
    requires
        m <= n,
        entered(v, batch, minus, m) is Err,
    ensures
        entered(v, batch, minus, n) == entered(v, batch, minus, m),
    decreases n - m,
{
    if m < n {
        batch_stays_refused(v, batch, minus, m, n - 1);
    }
}

/// Enters the delays of an observation.
fn enter_lags(
    lags: &mut Vec<LagRecord>,
    stations: &Vec<crate::model::Station>,
    batch: &BatchInput,
    idx: usize,
    obs: Ghost<Seq<ObservationRowView>>,
    events: Ghost<Seq<crate::store::EventRowView>>,
) -> (r: Result<(), Fault>)
    requires
        idx < batch.observations@.len(),
        lags_ok(
            lagrecord_views(old(lags)@),
            obs@,
            events@,
            crate::model::station_views(stations@),
        ),
        knows_observation(obs@, batch@.observations[idx as int].obs_uid),
        knows_event(events@, batch@.event_id),
        knows_station(
            crate::model::station_views(stations@),
            batch@.observations[idx as int].station_id,
        ),
    ensures
        match r {
            Ok(_) => lags_entered(
                lagrecord_views(old(lags)@),
                crate::model::station_views(stations@),
                batch@,
                idx as int,
                batch@.observations[idx as int].lags.len() as int,
            ) == Ok::<Seq<LagRecordView>, Fault>(lagrecord_views(final(lags)@)) && lags_ok(
                lagrecord_views(final(lags)@),
                obs@,
                events@,
                crate::model::station_views(stations@),
            ),
            Err(f) => lags_entered(
                lagrecord_views(old(lags)@),
                crate::model::station_views(stations@),
                batch@,
                idx as int,
                batch@.observations[idx as int].lags.len() as int,
            ) == Err::<Seq<LagRecordView>, Fault>(f),
        },
{
    let o = &batch.observations[idx];
    let ghost given = lagrecord_views(lags@);
    let ghost known = crate::model::station_views(stations@);
    assert(batch@.observations[idx as int] == o@);
    let ghost total = o@.lags.len() as int;
    let mut j: usize = 0;
    while j < o.lags.len()
        invariant
            j <= o.lags@.len(),
            idx < batch.observations@.len(),
            *o == batch.observations@[idx as int],
            batch@.observations[idx as int] == o@,
            known == crate::model::station_views(stations@),
            total == o@.lags.len(),
            given == lagrecord_views(old(lags)@),
            knows_observation(obs@, o@.obs_uid),
            knows_event(events@, batch@.event_id),
            knows_station(known, o@.station_id),
            lags_ok(lagrecord_views(lags@), obs@, events@, known),
            lags_entered(given, known, batch@, idx as int, j as int) == Ok::<
                Seq<LagRecordView>,
                Fault,
            >(lagrecord_views(lags@)),
        decreases o.lags@.len() - j,
    {
        let l = &o.lags[j];
        assert(o@.lags[j as int] == l@);
        let ghost before = lagrecord_views(lags@);
        let uid = name_lag(batch.batch_uid.as_str(), o.obs_uid.as_str(), j, l);
        if !l.lag_sec.is_nan() && !l.peak_band_hz.is_nan() && !l.snr_db.is_nan() && !has_lag(
            lags,
            uid.as_str(),
        ) {
            if find_station(stations, l.peer_id.as_str()).is_none() {
                proof {
                    assert(lags_entered(given, known, batch@, idx as int, j + 1) == Err::<
                        Seq<LagRecordView>,
                        Fault,
                    >(Fault::ForeignKey));
                    lags_stay_refused(given, known, batch@, idx as int, j + 1, total);
                }
                return Err(Fault::ForeignKey);
            }
            let record = LagRecord {
                event_id: batch.event_id.clone(),
                lag: LagRow {
                    lag_uid: uid,
                    obs_uid: o.obs_uid.clone(),
                    station_id: o.station_id.clone(),
                    peer_id: l.peer_id.clone(),
                    lag_sec: l.lag_sec,
                    peak_band_hz: l.peak_band_hz,
                    snr_db: l.snr_db,
                    hint: l.hint.clone(),
                },
            };
            let ghost v = record@;
            lags.push(record);
            assert(lagrecord_views(lags@) =~= before.push(v));
            proof {
                let now = lagrecord_views(lags@);
                assert forall|a: int, b: int| 0 <= a < b < now.len() implies (
                #[trigger] now[a]).lag.lag_uid != (#[trigger] now[b]).lag.lag_uid by {
                    assert(now[a] == before[a]);
                    if b < before.len() {
                        assert(now[b] == before[b]);
                    }
                }
                assert forall|k: int| 0 <= k < now.len() implies {
                    let l = #[trigger] now[k];
                    &&& knows_observation(obs@, l.lag.obs_uid)
                    &&& knows_event(events@, l.event_id)
                    &&& knows_station(known, l.lag.station_id)
                    &&& knows_station(known, l.lag.peer_id)
                } by {
                    if k < before.len() {
                        assert(now[k] == before[k]);
                    }
                }
            }
        }
        j += 1;
    }
    Ok(())
}

proof fn again_keeps_the_rules(
    obs: Seq<ObservationRowView>,
    uid: Seq<char>,
    batches: Seq<BatchRowView>,
    events: Seq<crate::store::EventRowView>,
    stations: Seq<StationView>,
    segments: Seq<(crate::model::ClockSegmentView, int)>,
    lags: Seq<LagRecordView>,
)
    requires
        observations_ok(obs, batches, events, stations, segments),
        lags_ok(lags, obs, events, stations),
        knows_observation(obs, uid),
    ensures
        observations_ok(reported_again(obs, uid), batches, events, stations, segments),
        lags_ok(lags, reported_again(obs, uid), events, stations),
{
    let now = reported_again(obs, uid);
    assert forall|u: Seq<char>| knows_observation(obs, u) implies knows_observation(now, u) by {
        let k = choose|k: int| 0 <= k < obs.len() && (#[trigger] obs[k]).obs_uid == u;
        assert(now[k].obs_uid == u);
    }
    assert forall|i: int, j: int| 0 <= i < j < now.len() implies (#[trigger] now[i]).obs_uid != (
    #[trigger] now[j]).obs_uid by {
        assert(obs[i].obs_uid != obs[j].obs_uid);
    }
    assert forall|i: int| 0 <= i < now.len() implies {
        let o = #[trigger] now[i];
        &&& knows_batch(batches, o.batch_uid)
        &&& knows_event(events, o.event_id)
        &&& knows_station(stations, o.station_id)
        &&& !o.local_onset_sec.nan()
        &&& o.clock_locked == (o.clock_segment_id is Some)
        &&& o.clock_segment_id matches Some(id) ==> knows_segment(segments, id as int)
        &&& o.duplicate_of matches Some(d) ==> knows_observation(now, d)
    } by {
        assert(now[i].batch_uid == obs[i].batch_uid);
    }
}

proof fn new_row_keeps_the_rules(
    obs: Seq<ObservationRowView>,
    row: ObservationRowView,
    batches: Seq<BatchRowView>,
    events: Seq<crate::store::EventRowView>,
    stations: Seq<StationView>,
    segments: Seq<(crate::model::ClockSegmentView, int)>,
    lags: Seq<LagRecordView>,
)
    requires
        observations_ok(obs, batches, events, stations, segments),
        lags_ok(lags, obs, events, stations),
        !knows_observation(obs, row.obs_uid),
        knows_batch(batches, row.batch_uid),
        knows_event(events, row.event_id),
        knows_station(stations, row.station_id),
        !row.local_onset_sec.nan(),
        !row.clock_locked,
        row.clock_segment_id is None,
        row.duplicate_of matches Some(d) ==> knows_observation(obs, d),
    ensures
        observations_ok(obs.push(row), batches, events, stations, segments),
        lags_ok(lags, obs.push(row), events, stations),
        knows_observation(obs.push(row), row.obs_uid),
{
    let now = obs.push(row);
    assert(now[obs.len() as int] == row);
    assert forall|u: Seq<char>| knows_observation(obs, u) implies knows_observation(now, u) by {
        let k = choose|k: int| 0 <= k < obs.len() && (#[trigger] obs[k]).obs_uid == u;
        assert(now[k].obs_uid == u);
    }
    assert forall|i: int, j: int| 0 <= i < j < now.len() implies (#[trigger] now[i]).obs_uid != (
    #[trigger] now[j]).obs_uid by {
        assert(now[i] == obs[i]);
        if j < obs.len() {
            assert(now[j] == obs[j]);
        }
    }
    assert forall|i: int| 0 <= i < now.len() implies {
        let o = #[trigger] now[i];
        &&& knows_batch(batches, o.batch_uid)
        &&& knows_event(events, o.event_id)
        &&& knows_station(stations, o.station_id)
        &&& !o.local_onset_sec.nan()
        &&& o.clock_locked == (o.clock_segment_id is Some)
        &&& o.clock_segment_id matches Some(id) ==> knows_segment(segments, id as int)
        &&& o.duplicate_of matches Some(d) ==> knows_observation(now, d)
    } by {
        if i < obs.len() {
            assert(now[i] == obs[i]);
        }
    }
}

fn mark_again(obs: &mut Vec<ObservationRow>, i: usize, uid: &str)
    requires
        i < old(obs)@.len(),
        old(obs)@[i as int].obs_uid@ == uid@,
        forall|a: int, b: int|
            0 <= a < b < old(obs)@.len() ==> (#[trigger] observationrow_views(old(obs)@)[a]).obs_uid
                != (#[trigger] observationrow_views(old(obs)@)[b]).obs_uid,
    ensures
        observationrow_views(final(obs)@) == reported_again(
            observationrow_views(old(obs)@),
            uid@,
        ),
{
    let ghost before = observationrow_views(obs@);
    let mut row = obs[i].copy();
    assert(before[i as int] == row@);
    if row.duplicate_of.is_none() {
        row.duplicate_of = Some(uid.to_owned());
        let ghost v = row@;
        obs.set(i, row);
        assert(observationrow_views(obs@) =~= before.update(i as int, v));
    }
    proof {
        assert forall|k: int| 0 <= k < before.len() && k != i implies (#[trigger] before[k]).obs_uid
            != uid@ by {
            if k < i {
                assert(before[k].obs_uid != before[i as int].obs_uid);
            } else {
                assert(before[i as int].obs_uid != before[k].obs_uid);
            }
        }
        assert(observationrow_views(obs@) =~= reported_again(before, uid@));
    }
}

fn new_row(batch: &BatchInput, o: &ObservationInput, twin: Option<String>) -> (r: ObservationRow)
    ensures
        r@ == observation_row(batch@, o@, opt_text(twin)),
{
    ObservationRow {
        obs_uid: o.obs_uid.clone(),
        batch_uid: batch.batch_uid.clone(),
        event_id: batch.event_id.clone(),
        station_id: o.station_id.clone(),
        local_onset_sec: o.local_onset_sec,
        corrected_onset_sec: None,
        clock_locked: false,
        clock_segment_id: None,
        peak_band_hz: o.peak_band_hz,
        snr_db: o.snr_db,
        duplicate_of: twin,
    }
}

fn count_again(store: &mut Store, i: usize)
    requires
        old(store)@.valid(),
        i < old(store).batches@.len(),
    ensures
        final(store)@.valid(),
        final(store)@ == (StoreView {
            batches: counted_again(
                old(store)@.batches,
                old(store)@.batches[i as int].batch_uid,
            ),
            ..old(store)@
        }),
{
    let ghost before = store@;
    let ghost uid = before.batches[i as int].batch_uid;
    let count: i64 = store.batches[i].duplicate_count;
    let mut row = store.batches[i].copy();
    assert(before.batches[i as int] == row@);
    if count < i64::MAX {
        row.duplicate_count = count + 1;
    }
    let ghost v = row@;
    store.batches.set(i, row);
    proof {
        let now = store@.batches;
        assert(now =~= before.batches.update(i as int, v));
        assert forall|k: int| 0 <= k < before.batches.len() && k != i implies (
        #[trigger] before.batches[k]).batch_uid != uid by {
            if k < i {
                assert(before.batches[k].batch_uid != before.batches[i as int].batch_uid);
            } else {
                assert(before.batches[i as int].batch_uid != before.batches[k].batch_uid);
            }
        }
        assert(now =~= counted_again(before.batches, uid));
        assert forall|u: Seq<char>| knows_batch(before.batches, u) implies knows_batch(now, u) by {
            let k = choose|k: int|
                0 <= k < before.batches.len() && (#[trigger] before.batches[k]).batch_uid == u;
            assert(now[k].batch_uid == u);
        }
        assert forall|a: int, b: int| 0 <= a < b < now.len() implies (#[trigger] now[a]).batch_uid
            != (#[trigger] now[b]).batch_uid by {
            assert(before.batches[a].batch_uid != before.batches[b].batch_uid);
        }
        assert forall|k: int| 0 <= k < now.len() implies knows_event(
            before.events,
            (#[trigger] now[k]).event_id,
        ) && now[k].duplicate_count >= 0 by {
            assert(knows_event(before.events, before.batches[k].event_id));
        }
    }
}

/// The record of a batch that comes in for the first time.
pub open spec fn batch_row(
    batch: BatchInputView,
    payload: Seq<char>,
    received_at: Seq<char>,
) -> BatchRowView {
    BatchRowView {
        batch_uid: batch.batch_uid,
        event_id: batch.event_id,
        payload_fingerprint: fingerprint(encode_utf8(payload)),
        received_at,
        duplicate_count: 0,
    }
}

/// What a batch that is new fills the tables with, or why it is refused.
pub open spec fn intake(v: StoreView, batch: BatchInputView, minus: Differences) -> Result<
    Entered,
    Fault,
> {
    if !knows_event(v.events, batch.event_id) {
        Err(Fault::ForeignKey)
    } else {
        entered(v, batch, minus, batch.observations.len() as int)
    }
}

/// The tables after a batch.
pub open spec fn taken_in(
    v: StoreView,
    batch: BatchInputView,
    payload: Seq<char>,
    received_at: Seq<char>,
    minus: Differences,
) -> StoreView {
    if knows_batch(v.batches, batch.batch_uid) {
        StoreView { batches: counted_again(v.batches, batch.batch_uid), ..v }
    } else {
        match intake(v, batch, minus) {
            Err(f) => v,
            Ok(t) => StoreView {
                batches: v.batches.push(batch_row(batch, payload, received_at)),
                observations: all_corrected(t.observations, v.segments, minus),
                lags: t.lags,
                ..v
            },
        }
    }
}

/// A batch counts once: after it was taken in, sending it again, even with
/// other contents, changes nothing but the count of how often it came.
pub proof fn a_batch_counts_once(
    v: StoreView,
    batch: BatchInputView,
    payload: Seq<char>,
    received_at: Seq<char>,
    minus: Differences,
    again: BatchInputView,
    payload2: Seq<char>,
    received_at2: Seq<char>,
    minus2: Differences,
)
    requires
        intake(v, batch, minus) is Ok || knows_batch(v.batches, batch.batch_uid),
        again.batch_uid == batch.batch_uid,
    ensures
        ({
            let w = taken_in(v, batch, payload, received_at, minus);
            let x = taken_in(w, again, payload2, received_at2, minus2);
            &&& knows_batch(w.batches, batch.batch_uid)
            &&& x == (StoreView { batches: counted_again(w.batches, batch.batch_uid), ..w })
            &&& x.observations == w.observations
            &&& x.lags == w.lags
        }),
{
    let w = taken_in(v, batch, payload, received_at, minus);
    if knows_batch(v.batches, batch.batch_uid) {
        let k = choose|k: int|
            0 <= k < v.batches.len() && (#[trigger] v.batches[k]).batch_uid == batch.batch_uid;
        assert(w.batches[k].batch_uid == batch.batch_uid);
    } else {
        assert(w.batches[v.batches.len() as int].batch_uid == batch.batch_uid);
    }
}

proof fn entered_keeps(v: StoreView, batch: BatchInputView, minus: Differences, n: int)
    requires
        entered(v, batch, minus, n) is Ok,
    ensures
        ({
            let t = entered(v, batch, minus, n)->Ok_0;
            &&& t.observations.len() >= v.observations.len()
            &&& t.observations.len() == v.observations.len() + t.added
            &&& forall|i: int|
                0 <= i < v.observations.len() ==> (#[trigger] t.observations[i])
                    == (ObservationRowView {
                    duplicate_of: t.observations[i].duplicate_of,
                    ..v.observations[i]
                }) && (v.observations[i].duplicate_of is Some ==> t.observations[i]
                    == v.observations[i])
        }),
    decreases n,
{
    if n > 0 {
        entered_keeps(v, batch, minus, n - 1);
    }
}

/// Taking in a batch removes no observation and changes nothing of what an
/// observation reported; an old one can at most come to count as a duplicate,
/// and have its correction worked out anew.
pub proof fn intake_keeps_what_was_reported(
    v: StoreView,
    batch: BatchInputView,
    payload: Seq<char>,
    received_at: Seq<char>,
    minus: Differences,
    i: int,
)
    requires
        0 <= i < v.observations.len(),
    ensures
        ({
            let w = taken_in(v, batch, payload, received_at, minus);
            let (a, b) = (v.observations[i], w.observations[i]);
            &&& w.observations.len() >= v.observations.len()
            &&& b.obs_uid == a.obs_uid
            &&& b.batch_uid == a.batch_uid
            &&& b.event_id == a.event_id
            &&& b.station_id == a.station_id
            &&& b.local_onset_sec == a.local_onset_sec
            &&& b.peak_band_hz == a.peak_band_hz
            &&& b.snr_db == a.snr_db
            &&& a.duplicate_of is Some ==> b.duplicate_of == a.duplicate_of
        }),
{
    if !knows_batch(v.batches, batch.batch_uid) && intake(v, batch, minus) is Ok {
        entered_keeps(v, batch, minus, batch.observations.len() as int);
    }
}

/// Takes in a batch. A batch that came before is counted and otherwise without
/// effect. An observation that came before is no new one; one that repeats the
/// onset of another at its station is kept as its duplicate. Where anything in
/// the batch is refused, nothing of it is kept.
pub fn ingest_batch(
    store: &mut Store,
    batch: &BatchInput,
    raw: &Json,
    decimals: &Decimals,
    minus: &Differences,
    received_at: &str,
) -> (r: Result<IngestResult, Fault>)
    requires
        old(store)@.valid(),
    ensures
        final(store)@.valid(),
        final(store)@ == taken_in(
            old(store)@,
            batch@,
            canonical_text(raw@, *decimals, Quoting::Full),
            received_at@,
            *minus,
        ),
        match r {
            Ok(IngestResult::DuplicateBatch) => knows_batch(old(store)@.batches, batch@.batch_uid),
            Ok(IngestResult::Inserted { observations_added }) => !knows_batch(
                old(store)@.batches,
                batch@.batch_uid,
            ) && (intake(old(store)@, batch@, *minus) matches Ok(t) && t.added
                == observations_added),
            Err(f) => !knows_batch(old(store)@.batches, batch@.batch_uid) && intake(
                old(store)@,
                batch@,
                *minus,
            ) == Err::<Entered, Fault>(f),
        },
{
    let ghost v = store@;
    match find_batch(&store.batches, batch.batch_uid.as_str()) {
        Some(i) => {
            assert(v.batches[i as int] == store.batches@[i as int]@);
            count_again(store, i);
            return Ok(IngestResult::DuplicateBatch);
        },
        None => {},
    }
    if find_event(&store.events, batch.event_id.as_str()).is_none() {
        return Err(Fault::ForeignKey);
    }
    let payload_fingerprint = canonical_fingerprint(raw, decimals);
    let row = BatchRow {
        batch_uid: batch.batch_uid.clone(),
        event_id: batch.event_id.clone(),
        payload_fingerprint,
        received_at: received_at.to_owned(),
        duplicate_count: 0,
    };
    let ghost batches = v.batches.push(row@);
    proof {
        assert(batches[v.batches.len() as int] == row@);
        assert forall|u: Seq<char>| knows_batch(v.batches, u) implies knows_batch(batches, u) by {
            let k = choose|k: int|
                0 <= k < v.batches.len() && (#[trigger] v.batches[k]).batch_uid == u;
            assert(batches[k].batch_uid == u);
        }
        assert(batches_ok(batches, v.events)) by {
            assert forall|a: int, b: int| 0 <= a < b < batches.len() implies (
            #[trigger] batches[a]).batch_uid != (#[trigger] batches[b]).batch_uid by {
                assert(batches[a] == v.batches[a]);
                if b < v.batches.len() {
                    assert(batches[b] == v.batches[b]);
                }
            }
            assert forall|k: int| 0 <= k < batches.len() implies knows_event(
                v.events,
                (#[trigger] batches[k]).event_id,
            ) && batches[k].duplicate_count >= 0 by {
                if k < v.batches.len() {
                    assert(batches[k] == v.batches[k]);
                }
            }
        }
        assert(observations_ok(v.observations, batches, v.events, v.stations, v.segments));
    }
    let mut obs = copy_observationrows(&store.observations);
    let mut lags = copy_lagrecords(&store.lags);
    let ghost total = batch@.observations.len() as int;
    let mut added: usize = 0;
    let mut i: usize = 0;
    while i < batch.observations.len()
        invariant
            i <= batch.observations@.len(),
            added <= i,
            total == batch@.observations.len(),
            v == store@,
            v == old(store)@,
            v.valid(),
            !knows_batch(v.batches, batch@.batch_uid),
            knows_event(v.events, batch@.event_id),
            knows_batch(batches, batch@.batch_uid),
            observations_ok(
                observationrow_views(obs@),
                batches,
                v.events,
                v.stations,
                v.segments,
            ),
            lags_ok(
                lagrecord_views(lags@),
                observationrow_views(obs@),
                v.events,
                v.stations,
            ),
            entered(v, batch@, *minus, i as int) == Ok::<Entered, Fault>(
                Entered {
                    observations: observationrow_views(obs@),
                    lags: lagrecord_views(lags@),
                    added: added as int,
                },
            ),
        decreases batch.observations@.len() - i,
    {
        let o = &batch.observations[i];
        assert(batch@.observations[i as int] == o@);
        let ghost obs0 = observationrow_views(obs@);
        let ghost lags0 = lagrecord_views(lags@);
        match find_observation(&obs, o.obs_uid.as_str()) {
            Some(k) => {
                proof {
                    again_keeps_the_rules(
                        obs0,
                        o@.obs_uid,
                        batches,
                        v.events,
                        v.stations,
                        v.segments,
                        lags0,
                    );
                }
                mark_again(&mut obs, k, o.obs_uid.as_str());
            },
            None => {
                match refuse_observation(o, &store.stations) {
                    Some(f) => {
                        proof {
                            assert(entered(v, batch@, *minus, i + 1) == Err::<Entered, Fault>(f));
                            batch_stays_refused(v, batch@, *minus, i + 1, total);
                        }
                        return Err(f);
                    },
                    None => {},
                }
                let twin = find_twin(&obs, batch.event_id.as_str(), o, minus);
                let ghost t = opt_text(twin);
                let row = new_row(batch, o, twin);
                let ghost rv = row@;
                proof {
                    twin_is_the_first(obs0, batch@.event_id, o@, *minus);
                    new_row_keeps_the_rules(
                        obs0,
                        rv,
                        batches,
                        v.events,
                        v.stations,
                        v.segments,
                        lags0,
                    );
                }
                obs.push(row);
                assert(observationrow_views(obs@) =~= obs0.push(rv));
                added += 1;
                match enter_lags(
                    &mut lags,
                    &store.stations,
                    batch,
                    i,
                    Ghost(observationrow_views(obs@)),
                    Ghost(v.events),
                ) {
                    Ok(_) => {},
                    Err(f) => {
                        proof {
                            assert(entered(v, batch@, *minus, i + 1) == Err::<Entered, Fault>(f));
                            batch_stays_refused(v, batch@, *minus, i + 1, total);
                        }
                        return Err(f);
                    },
                }
            },
        }
        i += 1;
    }
    store.batches.push(row);
    assert(store@.batches =~= batches);
    store.observations = obs;
    store.lags = lags;
    assert(store@.valid());
    apply_clock_corrections(store, minus);
    Ok(IngestResult::Inserted { observations_added: added })
}

} // verus!
