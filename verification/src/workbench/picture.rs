//! The picture that a solve goes by, taken from the tables.
use vstd::prelude::*;
use vstd::string::*;

use crate::arrange::{
    arrange, arranged, is_arrangement, no_number, one_number, picked_rows_differ, place_lt, rows_of,
    said, PlaceView, Placed,
};
use crate::double::Double;
use crate::figures::{Differences, NO_RESULT, Wholes};
use crate::json::{Json, JsonView};
use crate::order::filter_of_push;
use crate::text::{precedes, same, text_lt};
use crate::workbench::clock::{list_segments, segments_of};
use crate::workbench::db::{
    eventrow_views, has_event, has_link, knows_link, obsrow_views, stationrow_views, xcorrrow_views,
    Db, DbView, EventRow, EventRowView, LinkRowView, ObsRow, ObsRowView, StationRow, StationRowView,
    XcorrRow, XcorrRowView,
};
use crate::workbench::evidence::{
    evidence_of, evidence_views, list_evidence, Evidence, EvidenceView,
};
use crate::workbench::snapshot::{
    edgeobs_views, excludedpeak_views, keptpair_views, lock_views, stationclock_views,
    stationinfo_views, EdgeObs, EdgeObsView, ExcludedPeak, ExcludedPeakView, KeptPair, KeptPairView,
    Lock, LockView, Snapshot, SnapshotView, StationClock, StationClockView, StationInfo,
    StationInfoView,
};
use crate::workbench::units::PhysicalModel;

verus! {

/// 0.004 s: the uncertainty of a difference of onsets.
pub const ONSET_EDGE_SIGMA: u64 = 0x3f70_624d_d2f1_a9fc;

// ---------- Observations of an event ----------

/// An observation that belongs to an event.
#[derive(Debug)]
pub struct LinkedObs {
    pub obs_id: i64,
    pub station_id: String,
    pub local_onset_s: Double,
    pub peak_band_hz: Double,
    pub snr_db: Double,
}

/// What a [`LinkedObs`] says.
#[verifier::ext_equal]
pub ghost struct LinkedObsView {
    pub obs_id: int,
    pub station_id: Seq<char>,
    pub local_onset_s: Double,
    pub peak_band_hz: Double,
    pub snr_db: Double,
}

impl View for LinkedObs {
    type V = LinkedObsView;

    open spec fn view(&self) -> LinkedObsView {
        LinkedObsView {
            obs_id: self.obs_id as int,
            station_id: self.station_id@,
            local_onset_s: self.local_onset_s,
            peak_band_hz: self.peak_band_hz,
            snr_db: self.snr_db,
        }
    }
}

impl LinkedObs {
    /// A second value that says the same.
    pub fn copy(&self) -> (r: LinkedObs)
        ensures
            r@ == self@,
    {
        LinkedObs {
            obs_id: self.obs_id,
            station_id: self.station_id.clone(),
            local_onset_s: self.local_onset_s,
            peak_band_hz: self.peak_band_hz,
            snr_db: self.snr_db,
        }
    }
}

/// What a list of observations says.
pub open spec fn linkedobs_views(s: Seq<LinkedObs>) -> Seq<LinkedObsView> {
    s.map_values(|v: LinkedObs| v@)
}

/// The event with an identifier.
pub open spec fn event_row(events: Seq<EventRowView>, id: Seq<char>) -> Option<EventRowView>
    decreases events.len(),
{
    if events.len() == 0 {
        None
    } else if events[0].header.event_id == id {
        Some(events[0])
    } else {
        event_row(events.drop_first(), id)
    }
}

/// An event has a row if and only if it is known.
pub proof fn known_events_have_rows(events: Seq<EventRowView>, id: Seq<char>)
    ensures
        event_row(events, id) is Some <==> has_event(events, id),
    decreases events.len(),
{
    if events.len() > 0 {
        let rest = events.drop_first();
        known_events_have_rows(rest, id);
        if has_event(rest, id) {
            let k = choose|k: int| 0 <= k < rest.len()
                && (#[trigger] rest[k]).header.event_id == id;
            assert(events[k + 1].header.event_id == id);
        }
        if has_event(events, id) && events[0].header.event_id != id {
            let k = choose|k: int|
                0 <= k < events.len() && (#[trigger] events[k]).header.event_id == id;
            assert(rest[k - 1].header.event_id == id);
        }
    }
}

pub(crate) fn find_event(events: &Vec<EventRow>, id: &str) -> (r: Option<usize>)
    ensures
        match r {
            Some(i) => i < events@.len() && event_row(eventrow_views(events@), id@) == Some(
                events@[i as int]@,
            ),
            None => event_row(eventrow_views(events@), id@) is None,
        },
{
    let ghost all = eventrow_views(events@);
    let mut i: usize = 0;
    assert(all.skip(0) =~= all);
    while i < events.len()
        invariant
            i <= events@.len(),
            all == eventrow_views(events@),
            event_row(all, id@) == event_row(all.skip(i as int), id@),
        decreases events@.len() - i,
    {
        assert(all.skip(i as int)[0] == events@[i as int]@);
        if same(events[i].header.event_id.as_str(), id) {
            return Some(i);
        }
        assert(all.skip(i as int).drop_first() =~= all.skip(i + 1));
        i += 1;
    }
    None
}

/// The observations that belong to an event.
pub open spec fn linked_to(links: Seq<LinkRowView>, event_id: Seq<char>) -> spec_fn(
    ObsRowView,
) -> bool {
    |o: ObsRowView| has_link(links, event_id, o.obs_id)
}

/// Observations stand in the order of their onsets.
pub open spec fn by_onset() -> spec_fn(ObsRowView) -> PlaceView {
    |o: ObsRowView|
        (seq![o.local_onset_s.rank()], Seq::<char>::empty(), Seq::<char>::empty(), seq![o.obs_id])
}

/// The rows of the observations of an event, in the order of their onsets.
pub open spec fn linked_rows(v: DbView, event_id: Seq<char>) -> Seq<ObsRowView> {
    arranged(v.observations.filter(linked_to(v.links, event_id)), by_onset())
}

pub open spec fn linked_view(o: ObsRowView) -> LinkedObsView {
    LinkedObsView {
        obs_id: o.obs_id,
        station_id: o.station_id,
        local_onset_s: o.local_onset_s,
        peak_band_hz: o.peak_band_hz,
        snr_db: o.snr_db,
    }
}

/// The observations of an event, in the order of their onsets.
pub open spec fn linked_obs(v: DbView, event_id: Seq<char>) -> Seq<LinkedObsView> {
    linked_rows(v, event_id).map_values(|o: ObsRowView| linked_view(o))
}

pub(crate) fn listed_linked(db: &Db, event_id: &str) -> (r: Vec<ObsRow>)
    requires
        db@.valid(),
    ensures
        obsrow_views(r@) == linked_rows(db@, event_id@),
        is_arrangement(
            db@.observations.filter(linked_to(db@.links, event_id@)),
            obsrow_views(r@),
            by_onset(),
        ),
{
    let ghost all = obsrow_views(db.observations@);
    let ghost pick = linked_to(db@.links, event_id@);
    let ghost place = by_onset();
    let mut out: Vec<Placed<ObsRow>> = Vec::new();
    let mut i: usize = 0;
    proof {
        reveal(Seq::filter);
        assert(all.take(0) =~= Seq::empty());
    }
    assert(rows_of(out@) =~= all.take(0).filter(pick));
    while i < db.observations.len()
        invariant
            i <= db.observations@.len(),
            all == obsrow_views(db.observations@),
            pick == linked_to(db@.links, event_id@),
            place == by_onset(),
            db@.valid(),
            rows_of(out@) == all.take(i as int).filter(pick),
            forall|k: int|
                0 <= k < out@.len() ==> (#[trigger] out@[k]).place() == place(out@[k].item@),
        decreases db.observations@.len() - i,
    {
        let x = &db.observations[i];
        let ghost before = rows_of(out@);
        assert(all.take(i + 1) =~= all.take(i as int).push(x@));
        proof {
            filter_of_push(all.take(i as int), x@, pick);
        }
        if knows_link(&db.links, event_id, x.obs_id) {
            assert(pick(x@));
            out.push(
                Placed {
                    lead: one_number(x.local_onset_s.rank_number()),
                    a: String::new(),
                    b: String::new(),
                    tail: one_number(x.obs_id as i128),
                    item: x.copy(),
                },
            );
            assert(rows_of(out@) =~= before.push(x@));
        } else {
            assert(!pick(x@));
        }
        i += 1;
    }
    assert(all.take(i as int) =~= all);
    proof {
        assert forall|j: int, k: int|
            0 <= j < k < all.len() && pick(#[trigger] all[j])
                && pick(#[trigger] all[k]) implies place(
            all[j],
        ) != place(all[k]) by {
            assert(all[j].obs_id < all[k].obs_id);
            assert(seq![all[j].obs_id][0] == all[j].obs_id);
            assert(seq![all[k].obs_id][0] == all[k].obs_id);
        }
        picked_rows_differ(all, pick, place);
        assert forall|j: int, k: int| 0 <= j < k < out@.len() implies (
            #[trigger] out@[j]).place() != (
        #[trigger] out@[k]).place() by {
            assert(rows_of(out@)[j] == out@[j].item@ && rows_of(out@)[k] == out@[k].item@);
        }
    }
    let r = arrange(out, Ghost(place));
    assert(obsrow_views(r@) =~= said(r@));
    r
}

/// The window, the speed of sound and the observations of an event.
pub fn linked_observations(
    db: &Db,
    event_id: &str,
) -> (r: Result< (Double, Double, Double, Vec<LinkedObs>), String, >)
    requires
        db@.valid(),
    ensures
        match r {
            Ok(t) => event_row(db@.events, event_id@) matches Some(e) && t.0 == e.header.t_start
                && t.1 == e.header.t_end && t.2 == e.header.sound_speed && linkedobs_views(t.3@)
                == linked_obs(db@, event_id@),
            Err(m) => event_row(db@.events, event_id@) is None && m@ == "Query returned no rows"@,
        },
{
    match find_event(&db.events, event_id) {
        Some(i) => {
            let rows = listed_linked(db, event_id);
            let mut out: Vec<LinkedObs> = Vec::new();
            let mut k: usize = 0;
            while k < rows.len()
                invariant
                    k <= rows@.len(),
                    out@.len() == k,
                    forall|j: int| 0 <= j < k ==> (#[trigger] out@[j])@ == linked_view(rows@[j]@),
                decreases rows@.len() - k,
            {
                let o = &rows[k];
                out.push(
                    LinkedObs {
                        obs_id: o.obs_id,
                        station_id: o.station_id.clone(),
                        local_onset_s: o.local_onset_s,
                        peak_band_hz: o.peak_band_hz,
                        snr_db: o.snr_db,
                    },
                );
                k += 1;
            }
            proof {
                let rv = obsrow_views(rows@);
                assert forall|j: int| 0 <= j < rv.len() implies rv[j] == rows@[j]@ by {}
                assert(linkedobs_views(out@) =~= linked_obs(db@, event_id@));
            }
            let e = &db.events[i];
            Ok((e.header.t_start, e.header.t_end, e.header.sound_speed, out))
        },
        None => Err("Query returned no rows".to_owned()),
    }
}

// ---------- Stations of an event ----------

/// A station has reported an observation of the list.
pub open spec fn has_report(obs: Seq<LinkedObsView>, id: Seq<char>) -> bool {
    exists|k: int| 0 <= k < obs.len() && (#[trigger] obs[k]).station_id == id
}

pub open spec fn reported(obs: Seq<LinkedObsView>) -> spec_fn(StationRowView) -> bool {
    |s: StationRowView| has_report(obs, s.station.station_id)
}

/// Stations stand in the order of their identifiers.
pub open spec fn by_station() -> spec_fn(StationRowView) -> PlaceView {
    |s: StationRowView|
        (Seq::<int>::empty(), s.station.station_id, Seq::<char>::empty(), Seq::<int>::empty())
}

pub open spec fn info_view(s: StationRowView) -> StationInfoView {
    StationInfoView { station_id: s.station.station_id, x: s.station.x, y: s.station.y }
}

/// The stations that have reported, in the order of their identifiers.
pub open spec fn stations_for(v: DbView, obs: Seq<LinkedObsView>) -> Seq<StationInfoView> {
    arranged(v.stations.filter(reported(obs)), by_station()).map_values(
        |s: StationRowView| info_view(s),
    )
}

fn has_reported(obs: &Vec<LinkedObs>, id: &str) -> (r: bool)
    ensures
        r == has_report(linkedobs_views(obs@), id@),
{
    let ghost all = linkedobs_views(obs@);
    let mut i: usize = 0;
    while i < obs.len()
        invariant
            i <= obs@.len(),
            all == linkedobs_views(obs@),
            forall|k: int| 0 <= k < i ==> (#[trigger] all[k]).station_id != id@,
        decreases obs@.len() - i,
    {
        assert(all[i as int] == obs@[i as int]@);
        if same(obs[i].station_id.as_str(), id) {
            return true;
        }
        i += 1;
    }
    false
}

fn listed_stations(db: &Db, obs: &Vec<LinkedObs>) -> (r: Vec<StationRow>)
    requires
        db@.valid(),
    ensures
        stationrow_views(r@) == arranged(
            db@.stations.filter(reported(linkedobs_views(obs@))),
            by_station(),
        ),
{
    let ghost all = stationrow_views(db.stations@);
    let ghost pick = reported(linkedobs_views(obs@));
    let ghost place = by_station();
    let mut out: Vec<Placed<StationRow>> = Vec::new();
    let mut i: usize = 0;
    proof {
        reveal(Seq::filter);
        assert(all.take(0) =~= Seq::empty());
    }
    assert(rows_of(out@) =~= all.take(0).filter(pick));
    while i < db.stations.len()
        invariant
            i <= db.stations@.len(),
            all == stationrow_views(db.stations@),
            pick == reported(linkedobs_views(obs@)),
            place == by_station(),
            db@.valid(),
            rows_of(out@) == all.take(i as int).filter(pick),
            forall|k: int|
                0 <= k < out@.len() ==> (#[trigger] out@[k]).place() == place(out@[k].item@),
        decreases db.stations@.len() - i,
    {
        let x = &db.stations[i];
        let ghost before = rows_of(out@);
        assert(all.take(i + 1) =~= all.take(i as int).push(x@));
        proof {
            filter_of_push(all.take(i as int), x@, pick);
        }
        if has_reported(obs, x.station.station_id.as_str()) {
            assert(pick(x@));
            out.push(
                Placed {
                    lead: no_number(),
                    a: x.station.station_id.clone(),
                    b: String::new(),
                    tail: no_number(),
                    item: x.copy(),
                },
            );
            assert(rows_of(out@) =~= before.push(x@));
        } else {
            assert(!pick(x@));
        }
        i += 1;
    }
    assert(all.take(i as int) =~= all);
    proof {
        assert forall|j: int, k: int|
            0 <= j < k < all.len() && pick(#[trigger] all[j])
                && pick(#[trigger] all[k]) implies place(
            all[j],
        ) != place(all[k]) by {
            assert(all[j].station.station_id != all[k].station.station_id);
        }
        picked_rows_differ(all, pick, place);
        assert forall|j: int, k: int| 0 <= j < k < out@.len() implies (
            #[trigger] out@[j]).place() != (
        #[trigger] out@[k]).place() by {
            assert(rows_of(out@)[j] == out@[j].item@ && rows_of(out@)[k] == out@[k].item@);
        }
    }
    let r = arrange(out, Ghost(place));
    assert(stationrow_views(r@) =~= said(r@));
    r
}

/// Lists the stations that have reported.
pub fn stations_in_event(db: &Db, obs: &Vec<LinkedObs>) -> (r: Vec<StationInfo>)
    requires
        db@.valid(),
    ensures
        stationinfo_views(r@) == stations_for(db@, linkedobs_views(obs@)),
{
    let rows = listed_stations(db, obs);
    let mut out: Vec<StationInfo> = Vec::new();
    let mut k: usize = 0;
    while k < rows.len()
        invariant
            k <= rows@.len(),
            out@.len() == k,
            forall|j: int| 0 <= j < k ==> (#[trigger] out@[j])@ == info_view(rows@[j]@),
        decreases rows@.len() - k,
    {
        let s = &rows[k].station;
        out.push(StationInfo { station_id: s.station_id.clone(), x: s.x, y: s.y });
        k += 1;
    }
    proof {
        let rv = stationrow_views(rows@);
        assert forall|j: int| 0 <= j < rv.len() implies rv[j] == rows@[j]@ by {}
        assert(stationinfo_views(out@) =~= stations_for(db@, linkedobs_views(obs@)));
    }
    out
}

// ---------- Delays of an event ----------

/// An observation is on the list.
pub open spec fn on_list(obs: Seq<LinkedObsView>, id: int) -> bool {
    exists|k: int| 0 <= k < obs.len() && (#[trigger] obs[k]).obs_id == id
}

/// The delays between observations of the list.
pub open spec fn between(obs: Seq<LinkedObsView>) -> spec_fn(XcorrRowView) -> bool {
    |x: XcorrRowView| on_list(obs, x.obs_a) && on_list(obs, x.obs_b)
}

/// Delays stand in the order of their peaks and numbers.
pub open spec fn by_peak() -> spec_fn(XcorrRowView) -> PlaceView {
    |x: XcorrRowView|
        (seq![x.peak_index], Seq::<char>::empty(), Seq::<char>::empty(), seq![x.xc_id])
}

/// The station of an observation.
pub open spec fn station_of(observations: Seq<ObsRowView>, id: int) -> Seq<char>
    decreases observations.len(),
{
    if observations.len() == 0 {
        Seq::empty()
    } else if observations[0].obs_id == id {
        observations[0].station_id
    } else {
        station_of(observations.drop_first(), id)
    }
}

/// A delay as an edge.
pub open spec fn xcorr_edge(v: DbView, x: XcorrRowView) -> EdgeObsView {
    EdgeObsView {
        station_a: station_of(v.observations, x.obs_a),
        station_b: station_of(v.observations, x.obs_b),
        delay_s: x.delay_s,
        sigma_s: x.sigma_s,
        multipath: x.multipath,
        xc_id: Some(x.xc_id as i64),
        peak_index: x.peak_index,
        origin: "xcorr"@,
    }
}

/// The delays between the observations as edges.
pub open spec fn xcorr_edges(v: DbView, obs: Seq<LinkedObsView>) -> Seq<EdgeObsView> {
    arranged(v.xcorrs.filter(between(obs)), by_peak()).map_values(
        |x: XcorrRowView| xcorr_edge(v, x),
    )
}

fn has_obs_id(obs: &Vec<LinkedObs>, id: i64) -> (r: bool)
    ensures
        r == on_list(linkedobs_views(obs@), id as int),
{
    let ghost all = linkedobs_views(obs@);
    let mut i: usize = 0;
    while i < obs.len()
        invariant
            i <= obs@.len(),
            all == linkedobs_views(obs@),
            forall|k: int| 0 <= k < i ==> (#[trigger] all[k]).obs_id != id,
        decreases obs@.len() - i,
    {
        assert(all[i as int] == obs@[i as int]@);
        if obs[i].obs_id == id {
            return true;
        }
        i += 1;
    }
    false
}

pub(crate) fn find_station_of(rows: &Vec<ObsRow>, id: i64) -> (r: String)
    ensures
        r@ == station_of(obsrow_views(rows@), id as int),
{
    let ghost all = obsrow_views(rows@);
    let mut i: usize = 0;
    assert(all.skip(0) =~= all);
    while i < rows.len()
        invariant
            i <= rows@.len(),
            all == obsrow_views(rows@),
            station_of(all, id as int) == station_of(all.skip(i as int), id as int),
        decreases rows@.len() - i,
    {
        assert(all.skip(i as int)[0] == rows@[i as int]@);
        if rows[i].obs_id == id {
            return rows[i].station_id.clone();
        }
        assert(all.skip(i as int).drop_first() =~= all.skip(i + 1));
        i += 1;
    }
    let r = String::new();
    assert(r@ =~= Seq::empty());
    r
}

fn listed_xcorrs(db: &Db, obs: &Vec<LinkedObs>) -> (r: Vec<XcorrRow>)
    requires
        db@.valid(),
    ensures
        xcorrrow_views(r@) == arranged(
            db@.xcorrs.filter(between(linkedobs_views(obs@))),
            by_peak(),
        ),
{
    let ghost all = xcorrrow_views(db.xcorrs@);
    let ghost pick = between(linkedobs_views(obs@));
    let ghost place = by_peak();
    let mut out: Vec<Placed<XcorrRow>> = Vec::new();
    let mut i: usize = 0;
    proof {
        reveal(Seq::filter);
        assert(all.take(0) =~= Seq::empty());
    }
    assert(rows_of(out@) =~= all.take(0).filter(pick));
    while i < db.xcorrs.len()
        invariant
            i <= db.xcorrs@.len(),
            all == xcorrrow_views(db.xcorrs@),
            pick == between(linkedobs_views(obs@)),
            place == by_peak(),
            db@.valid(),
            rows_of(out@) == all.take(i as int).filter(pick),
            forall|k: int|
                0 <= k < out@.len() ==> (#[trigger] out@[k]).place() == place(out@[k].item@),
        decreases db.xcorrs@.len() - i,
    {
        let x = &db.xcorrs[i];
        let ghost before = rows_of(out@);
        assert(all.take(i + 1) =~= all.take(i as int).push(x@));
        proof {
            filter_of_push(all.take(i as int), x@, pick);
        }
        if has_obs_id(obs, x.obs_a) && has_obs_id(obs, x.obs_b) {
            assert(pick(x@));
            out.push(
                Placed {
                    lead: one_number(x.peak_index as i128),
                    a: String::new(),
                    b: String::new(),
                    tail: one_number(x.xc_id as i128),
                    item: x.copy(),
                },
            );
            assert(rows_of(out@) =~= before.push(x@));
        } else {
            assert(!pick(x@));
        }
        i += 1;
    }
    assert(all.take(i as int) =~= all);
    proof {
        assert forall|j: int, k: int|
            0 <= j < k < all.len() && pick(#[trigger] all[j])
                && pick(#[trigger] all[k]) implies place(
            all[j],
        ) != place(all[k]) by {
            assert(all[j].xc_id < all[k].xc_id);
            assert(seq![all[j].xc_id][0] == all[j].xc_id);
            assert(seq![all[k].xc_id][0] == all[k].xc_id);
        }
        picked_rows_differ(all, pick, place);
        assert forall|j: int, k: int| 0 <= j < k < out@.len() implies (
            #[trigger] out@[j]).place() != (
        #[trigger] out@[k]).place() by {
            assert(rows_of(out@)[j] == out@[j].item@ && rows_of(out@)[k] == out@[k].item@);
        }
    }
    let r = arrange(out, Ghost(place));
    assert(xcorrrow_views(r@) =~= said(r@));
    r
}

/// The first onset that a station reports.
pub open spec fn first_onset(obs: Seq<LinkedObsView>, id: Seq<char>) -> Double
    decreases obs.len(),
{
    if obs.len() == 0 {
        Double { bits: NO_RESULT }
    } else if obs[0].station_id == id {
        obs[0].local_onset_s
    } else {
        first_onset(obs.drop_first(), id)
    }
}

fn find_onset(obs: &Vec<LinkedObs>, id: &str) -> (r: Double)
    ensures
        r == first_onset(linkedobs_views(obs@), id@),
{
    let ghost all = linkedobs_views(obs@);
    let mut i: usize = 0;
    assert(all.skip(0) =~= all);
    while i < obs.len()
        invariant
            i <= obs@.len(),
            all == linkedobs_views(obs@),
            first_onset(all, id@) == first_onset(all.skip(i as int), id@),
        decreases obs@.len() - i,
    {
        assert(all.skip(i as int)[0] == obs@[i as int]@);
        if same(obs[i].station_id.as_str(), id) {
            return obs[i].local_onset_s;
        }
        assert(all.skip(i as int).drop_first() =~= all.skip(i + 1));
        i += 1;
    }
    Double { bits: NO_RESULT }
}

/// The difference of the first onsets of two stations as an edge.
pub open spec fn onset_edge(
    obs: Seq<LinkedObsView>,
    a: Seq<char>,
    b: Seq<char>,
    diffs: Differences,
) -> EdgeObsView {
    EdgeObsView {
        station_a: a,
        station_b: b,
        delay_s: diffs.difference(first_onset(obs, b), first_onset(obs, a)),
        sigma_s: Double { bits: ONSET_EDGE_SIGMA },
        multipath: false,
        xc_id: None,
        peak_index: 0,
        origin: "onset"@,
    }
}

/// The differences between stations that follow each other.
pub open spec fn onset_edges(
    stations: Seq<StationInfoView>,
    obs: Seq<LinkedObsView>,
    diffs: Differences,
) -> Seq<EdgeObsView> {
    Seq::new(
        if stations.len() == 0 {
            0
        } else {
            (stations.len() - 1) as nat
        },
        |k: int| onset_edge(obs, stations[k].station_id, stations[k + 1].station_id, diffs),
    )
}

/// The onsets that are taken from each other, the later station first.
pub fn onset_pairs(stations: &Vec<StationInfo>, obs: &Vec<LinkedObs>) -> (r: Vec<(Double, Double)>)
    ensures
        r@ == Seq::new(
            if stations@.len() == 0 {
                0
            } else {
                (stations@.len() - 1) as nat
            },
            |k: int|
                (
                    first_onset(
                        linkedobs_views(obs@),
                        stationinfo_views(stations@)[k + 1].station_id,
                    ),
                    first_onset(linkedobs_views(obs@), stationinfo_views(stations@)[k].station_id),
                ),
        ),
{
    let ghost sv = stationinfo_views(stations@);
    let ghost ov = linkedobs_views(obs@);
    let mut out: Vec<(Double, Double)> = Vec::new();
    let mut k: usize = 1;
    while k < stations.len()
        invariant
            1 <= k,
            k <= stations@.len() || k == 1,
            sv == stationinfo_views(stations@),
            ov == linkedobs_views(obs@),
            out@.len() == k - 1,
            forall|j: int|
                0 <= j < k - 1 ==> #[trigger] out@[j] == (
                    first_onset(ov, sv[j + 1].station_id),
                    first_onset(ov, sv[j].station_id),
                ),
        decreases stations@.len() - k,
    {
        assert(sv[k - 1] == stations@[k - 1]@ && sv[k as int] == stations@[k as int]@);
        let a = find_onset(obs, stations[k - 1].station_id.as_str());
        let b = find_onset(obs, stations[k].station_id.as_str());
        out.push((b, a));
        k += 1;
    }
    out
}

/// All edges of an event: the delays that were reported, then the differences
/// of onsets.
pub open spec fn edges_for(v: DbView, obs: Seq<LinkedObsView>, diffs: Differences) -> Seq<
    EdgeObsView,
> {
    xcorr_edges(v, obs) + onset_edges(stations_for(v, obs), obs, diffs)
}

fn make_edges(db: &Db, obs: &Vec<LinkedObs>, stations: &Vec<StationInfo>, diffs: &Differences)
    -> (r: Vec<EdgeObs>)
    requires
        db@.valid(),
        stationinfo_views(stations@) == stations_for(db@, linkedobs_views(obs@)),
    ensures
        edgeobs_views(r@) == edges_for(db@, linkedobs_views(obs@), *diffs),
{
    let ghost v = db@;
    let ghost ov = linkedobs_views(obs@);
    let ghost sv = stationinfo_views(stations@);
    let rows = listed_xcorrs(db, obs);
    let ghost rv = xcorrrow_views(rows@);
    let mut out: Vec<EdgeObs> = Vec::new();
    let mut k: usize = 0;
    while k < rows.len()
        invariant
            k <= rows@.len(),
            v == db@,
            rv == xcorrrow_views(rows@),
            out@.len() == k,
            forall|j: int| 0 <= j < k ==> (#[trigger] out@[j])@ == xcorr_edge(v, rv[j]),
        decreases rows@.len() - k,
    {
        let x = &rows[k];
        assert(rv[k as int] == x@);
        out.push(
            EdgeObs {
                station_a: find_station_of(&db.observations, x.obs_a),
                station_b: find_station_of(&db.observations, x.obs_b),
                delay_s: x.delay_s,
                sigma_s: x.sigma_s,
                multipath: x.multipath,
                xc_id: Some(x.xc_id),
                peak_index: x.peak_index,
                origin: "xcorr".to_owned(),
            },
        );
        k += 1;
    }
    let ghost n = out@.len() as int;
    assert(edgeobs_views(out@) =~= xcorr_edges(v, ov));
    let ghost first = edgeobs_views(out@);
    let mut i: usize = 1;
    assert(first =~= first + onset_edges(sv, ov, *diffs).take(0));
    while i < stations.len()
        invariant
            1 <= i,
            i <= stations@.len() || i == 1,
            sv == stationinfo_views(stations@),
            ov == linkedobs_views(obs@),
            edgeobs_views(out@) =~= first + onset_edges(sv, ov, *diffs).take(i - 1),
        decreases stations@.len() - i,
    {
        assert(sv[i - 1] == stations@[i - 1]@ && sv[i as int] == stations@[i as int]@);
        let a = find_onset(obs, stations[i - 1].station_id.as_str());
        let b = find_onset(obs, stations[i].station_id.as_str());
        let ghost before = edgeobs_views(out@);
        let ghost all = onset_edges(sv, ov, *diffs);
        let e = EdgeObs {
            station_a: stations[i - 1].station_id.clone(),
            station_b: stations[i].station_id.clone(),
            delay_s: diffs.minus(b, a),
            sigma_s: Double { bits: ONSET_EDGE_SIGMA },
            multipath: false,
            xc_id: None,
            peak_index: 0,
            origin: "onset".to_owned(),
        };
        assert(e@ == all[i - 1]);
        let ghost ev = e@;
        out.push(e);
        assert(edgeobs_views(out@) =~= before.push(ev));
        assert(all.take(i as int) =~= all.take(i - 1).push(all[i - 1]));
        i += 1;
    }
    proof {
        let all = onset_edges(sv, ov, *diffs);
        assert(all.take(i - 1) =~= all);
    }
    out
}

// ---------- Judgements ----------

/// A text in a payload; empty if there is none.
pub open spec fn text_under(payload: JsonView, key: Seq<char>) -> Seq<char> {
    match payload.member(key) {
        Some(JsonView::Text(s)) => s,
        _ => Seq::empty(),
    }
}

/// A whole number in a payload; zero if there is none.
pub open spec fn whole_under(payload: JsonView, key: Seq<char>) -> int {
    match payload.member(key) {
        Some(v) => match v.whole() {
            Some(n) => n,
            None => 0,
        },
        None => 0,
    }
}

/// A number in a payload; zero if there is none.
pub open spec fn number_under(payload: JsonView, key: Seq<char>, wholes: Wholes) -> Double {
    match payload.member(key) {
        Some(v) => match v.number(wholes) {
            Some(f) => f,
            None => Double { bits: 0 },
        },
        None => Double { bits: 0 },
    }
}

fn read_text(payload: &Json, key: &str) -> (r: String)
    ensures
        r@ == text_under(payload@, key@),
{
    match payload.get(key) {
        Some(v) => match v.as_text() {
            Some(s) => s.clone(),
            None => {
                let r = String::new();
                assert(r@ =~= Seq::empty());
                r
            },
        },
        None => {
            let r = String::new();
            assert(r@ =~= Seq::empty());
            r
        },
    }
}

fn read_whole(payload: &Json, key: &str) -> (r: i64)
    ensures
        r == whole_under(payload@, key@),
{
    match payload.get(key) {
        Some(v) => match v.as_whole() {
            Some(n) => n,
            None => 0,
        },
        None => 0,
    }
}

fn read_number(payload: &Json, key: &str, wholes: &Wholes) -> (r: Double)
    ensures
        r == number_under(payload@, key@, *wholes),
{
    match payload.get(key) {
        Some(v) => match v.as_number(wholes) {
            Some(f) => f,
            None => Double { bits: 0 },
        },
        None => Double { bits: 0 },
    }
}

/// Where a peak stands among excluded ones.
pub open spec fn peak_place(p: ExcludedPeakView) -> PlaceView {
    (Seq::<int>::empty(), p.station_a, p.station_b, seq![p.peak_index])
}

/// Excluded peaks, each once and in order, with one more.
pub open spec fn with_peak(list: Seq<ExcludedPeakView>, p: ExcludedPeakView) -> Seq<
    ExcludedPeakView,
>
    decreases list.len(),
{
    if list.len() == 0 {
        seq![p]
    } else if list[0] == p {
        list
    } else if place_lt(peak_place(p), peak_place(list[0])) {
        seq![p] + list
    } else {
        seq![list[0]] + with_peak(list.drop_first(), p)
    }
}

/// Locked offsets, one for each station and in order, with one more: a later one
/// replaces an earlier one.
pub open spec fn with_lock(list: Seq<LockView>, l: LockView) -> Seq<LockView>
    decreases list.len(),
{
    if list.len() == 0 {
        seq![l]
    } else if list[0].station_id == l.station_id {
        seq![l] + list.drop_first()
    } else if text_lt(l.station_id, list[0].station_id) {
        seq![l] + list
    } else {
        seq![list[0]] + with_lock(list.drop_first(), l)
    }
}

pub open spec fn peak_in(payload: JsonView) -> ExcludedPeakView {
    ExcludedPeakView {
        station_a: text_under(payload, "station_a"@),
        station_b: text_under(payload, "station_b"@),
        peak_index: whole_under(payload, "peak_index"@),
    }
}

pub open spec fn lock_in(payload: JsonView, wholes: Wholes) -> LockView {
    LockView {
        station_id: text_under(payload, "station_id"@),
        offset_s: number_under(payload, "offset_s"@, wholes),
        sigma_s: number_under(payload, "sigma_s"@, wholes),
    }
}

pub open spec fn pair_in(payload: JsonView) -> KeptPairView {
    KeptPairView {
        a: text_under(payload, "candidate_a_key"@),
        b: text_under(payload, "candidate_b_key"@),
    }
}

/// The peaks that judgements exclude.
pub open spec fn peaks_of(ev: Seq<EvidenceView>) -> Seq<ExcludedPeakView>
    decreases ev.len(),
{
    if ev.len() == 0 {
        Seq::empty()
    } else {
        let before = peaks_of(ev.drop_last());
        if ev.last().kind == "exclude_peak"@ {
            with_peak(before, peak_in(ev.last().payload))
        } else {
            before
        }
    }
}

/// The offsets that judgements lock.
pub open spec fn locks_of(ev: Seq<EvidenceView>, wholes: Wholes) -> Seq<LockView>
    decreases ev.len(),
{
    if ev.len() == 0 {
        Seq::empty()
    } else {
        let before = locks_of(ev.drop_last(), wholes);
        if ev.last().kind == "lock_clock"@ {
            with_lock(before, lock_in(ev.last().payload, wholes))
        } else {
            before
        }
    }
}

/// The pairs that judgements keep.
pub open spec fn pairs_of(ev: Seq<EvidenceView>) -> Seq<KeptPairView>
    decreases ev.len(),
{
    if ev.len() == 0 {
        Seq::empty()
    } else {
        let before = pairs_of(ev.drop_last());
        if ev.last().kind == "keep_pair"@ {
            before.push(pair_in(ev.last().payload))
        } else {
            before
        }
    }
}

fn peak_precedes(p: &ExcludedPeak, q: &ExcludedPeak) -> (r: bool)
    ensures
        r == place_lt(peak_place(p@), peak_place(q@)),
{
    proof {
        let a = seq![p@.peak_index];
        let b = seq![q@.peak_index];
        assert(a[0] == p@.peak_index && b[0] == q@.peak_index);
        reveal_with_fuel(crate::arrange::numbers_lt, 2);
        assert(a.drop_first() =~= Seq::empty() && b.drop_first() =~= Seq::empty());
        assert(crate::arrange::numbers_lt(a, b) == (p@.peak_index < q@.peak_index));
    }
    if !same(p.station_a.as_str(), q.station_a.as_str()) {
        precedes(p.station_a.as_str(), q.station_a.as_str())
    } else if !same(p.station_b.as_str(), q.station_b.as_str()) {
        precedes(p.station_b.as_str(), q.station_b.as_str())
    } else {
        p.peak_index < q.peak_index
    }
}

fn put_peak(list: &mut Vec<ExcludedPeak>, p: ExcludedPeak)
    ensures
        excludedpeak_views(final(list)@) == with_peak(excludedpeak_views(old(list)@), p@),
{
    let ghost all = excludedpeak_views(list@);
    let ghost want = with_peak(all, p@);
    let mut i: usize = 0;
    assert(all.skip(0) =~= all);
    assert(all.take(0) + with_peak(all.skip(0), p@) =~= want);
    while i < list.len()
        invariant
            i <= list@.len(),
            all == excludedpeak_views(list@),
            all == excludedpeak_views(old(list)@),
            want == with_peak(all, p@),
            all.take(i as int) + with_peak(all.skip(i as int), p@) == want,
        decreases list@.len() - i,
    {
        let q = &list[i];
        let ghost rest = all.skip(i as int);
        assert(rest[0] == q@);
        assert(rest.drop_first() =~= all.skip(i + 1));
        if p.peak_index == q.peak_index && same(p.station_a.as_str(), q.station_a.as_str()) && same(
            p.station_b.as_str(),
            q.station_b.as_str(),
        ) {
            assert(p@ == q@);
            assert(all.take(i as int) + rest =~= all);
            return;
        }
        if peak_precedes(&p, q) {
            let ghost pv = p@;
            list.insert(i, p);
            assert(excludedpeak_views(list@) =~= all.insert(i as int, pv));
            assert(all.insert(i as int, pv) =~= all.take(i as int) + (seq![pv] + rest));
            return;
        }
        assert(all.take(i + 1) + with_peak(all.skip(i + 1), p@) =~= all.take(i as int) + (
        seq![rest[0]] + with_peak(all.skip(i + 1), p@)));
        i += 1;
    }
    let ghost pv = p@;
    list.push(p);
    assert(all.skip(i as int) =~= Seq::empty());
    assert(excludedpeak_views(list@) =~= all.push(pv));
    assert(all.take(i as int) + seq![pv] =~= all.push(pv));
}

fn put_lock(list: &mut Vec<Lock>, l: Lock)
    ensures
        lock_views(final(list)@) == with_lock(lock_views(old(list)@), l@),
{
    let ghost all = lock_views(list@);
    let ghost want = with_lock(all, l@);
    let mut i: usize = 0;
    assert(all.skip(0) =~= all);
    assert(all.take(0) + with_lock(all.skip(0), l@) =~= want);
    while i < list.len()
        invariant
            i <= list@.len(),
            all == lock_views(list@),
            all == lock_views(old(list)@),
            want == with_lock(all, l@),
            all.take(i as int) + with_lock(all.skip(i as int), l@) == want,
        decreases list@.len() - i,
    {
        let ghost rest = all.skip(i as int);
        assert(rest[0] == list@[i as int]@);
        assert(rest.drop_first() =~= all.skip(i + 1));
        if same(list[i].station_id.as_str(), l.station_id.as_str()) {
            let ghost lv = l@;
            list.set(i, l);
            assert(lock_views(list@) =~= all.update(i as int, lv));
            assert(all.update(i as int, lv) =~= all.take(i as int) + (seq![lv] + all.skip(i + 1)));
            return;
        }
        if precedes(l.station_id.as_str(), list[i].station_id.as_str()) {
            let ghost lv = l@;
            list.insert(i, l);
            assert(lock_views(list@) =~= all.insert(i as int, lv));
            assert(all.insert(i as int, lv) =~= all.take(i as int) + (seq![lv] + rest));
            return;
        }
        assert(all.take(i + 1) + with_lock(all.skip(i + 1), l@) =~= all.take(i as int) + (
        seq![rest[0]] + with_lock(all.skip(i + 1), l@)));
        i += 1;
    }
    let ghost lv = l@;
    list.push(l);
    assert(all.skip(i as int) =~= Seq::empty());
    assert(lock_views(list@) =~= all.push(lv));
    assert(all.take(i as int) + seq![lv] =~= all.push(lv));
}

/// The kinds of judgements are three.
proof fn kinds_differ()
    ensures
        "exclude_peak"@ != "lock_clock"@,
        "exclude_peak"@ != "keep_pair"@,
        "lock_clock"@ != "keep_pair"@,
{
    reveal_strlit("exclude_peak");
    reveal_strlit("lock_clock");
    reveal_strlit("keep_pair");
    assert("exclude_peak"@.len() == 12);
    assert("lock_clock"@.len() == 10);
    assert("keep_pair"@.len() == 9);
}

fn read_judgements(ev: &Vec<Evidence>, wholes: &Wholes) -> (r: (
    Vec<ExcludedPeak>,
    Vec<Lock>,
    Vec<KeptPair>,
))
    ensures
        excludedpeak_views(r.0@) == peaks_of(evidence_views(ev@)),
        lock_views(r.1@) == locks_of(evidence_views(ev@), *wholes),
        keptpair_views(r.2@) == pairs_of(evidence_views(ev@)),
{
    let ghost all = evidence_views(ev@);
    let mut peaks: Vec<ExcludedPeak> = Vec::new();
    let mut locks: Vec<Lock> = Vec::new();
    let mut pairs: Vec<KeptPair> = Vec::new();
    let mut i: usize = 0;
    assert(all.take(0) =~= Seq::empty());
    assert(excludedpeak_views(peaks@) =~= Seq::empty());
    assert(lock_views(locks@) =~= Seq::empty());
    assert(keptpair_views(pairs@) =~= Seq::empty());
    proof {
        kinds_differ();
    }
    while i < ev.len()
        invariant
            i <= ev@.len(),
            all == evidence_views(ev@),
            excludedpeak_views(peaks@) == peaks_of(all.take(i as int)),
            lock_views(locks@) == locks_of(all.take(i as int), *wholes),
            keptpair_views(pairs@) == pairs_of(all.take(i as int)),
            "exclude_peak"@ != "lock_clock"@,
            "exclude_peak"@ != "keep_pair"@,
            "lock_clock"@ != "keep_pair"@,
        decreases ev@.len() - i,
    {
        let e = &ev[i];
        assert(all.take(i + 1).drop_last() =~= all.take(i as int));
        assert(all.take(i + 1).last() == e@);
        if same(e.kind.as_str(), "exclude_peak") {
            let p = ExcludedPeak {
                station_a: read_text(&e.payload, "station_a"),
                station_b: read_text(&e.payload, "station_b"),
                peak_index: read_whole(&e.payload, "peak_index"),
            };
            assert(p@ == peak_in(e@.payload));
            put_peak(&mut peaks, p);
        } else if same(e.kind.as_str(), "lock_clock") {
            let l = Lock {
                station_id: read_text(&e.payload, "station_id"),
                offset_s: read_number(&e.payload, "offset_s", wholes),
                sigma_s: read_number(&e.payload, "sigma_s", wholes),
            };
            assert(l@ == lock_in(e@.payload, *wholes));
            put_lock(&mut locks, l);
        } else if same(e.kind.as_str(), "keep_pair") {
            let p = KeptPair {
                a: read_text(&e.payload, "candidate_a_key"),
                b: read_text(&e.payload, "candidate_b_key"),
            };
            assert(p@ == pair_in(e@.payload));
            let ghost before = keptpair_views(pairs@);
            let ghost pv = p@;
            pairs.push(p);
            assert(keptpair_views(pairs@) =~= before.push(pv));
        }
        i += 1;
    }
    assert(all.take(i as int) =~= all);
    (peaks, locks, pairs)
}

// ---------- The picture ----------

/// The clocks of stations.
pub open spec fn clocks_for(v: DbView, stations: Seq<StationInfoView>) -> Seq<StationClockView> {
    stations.map_values(
        |s: StationInfoView|
            StationClockView { station_id: s.station_id, segments: segments_of(v, s.station_id) },
    )
}

/// The picture of an event. `t_mid` is the middle of its window.
pub open spec fn picture(
    v: DbView,
    event_id: Seq<char>,
    model: PhysicalModel,
    t_mid: Double,
    diffs: Differences,
    wholes: Wholes,
) -> SnapshotView {
    let obs = linked_obs(v, event_id);
    let stations = stations_for(v, obs);
    let ev = evidence_of(v, event_id);
    SnapshotView {
        event_id,
        t_mid,
        sound_speed: event_row(v.events, event_id)->0.header.sound_speed,
        observable_radius: model.observable_radius,
        stations,
        segments: clocks_for(v, stations),
        edges: edges_for(v, obs, diffs),
        exclude_edges: peaks_of(ev),
        locks: locks_of(ev, wholes),
        kept_pairs: pairs_of(ev),
    }
}

/// Takes the picture of an event.
pub fn build_snapshot(
    db: &Db,
    event_id: &str,
    model: PhysicalModel,
    t_mid: Double,
    diffs: &Differences,
    wholes: &Wholes,
) -> (r: Result<Snapshot, String>)
    requires
        db@.valid(),
    ensures
        match r {
            Ok(s) => event_row(db@.events, event_id@) is Some && s@ == picture(
                db@,
                event_id@,
                model,
                t_mid,
                *diffs,
                *wholes,
            ),
            Err(m) => event_row(db@.events, event_id@) is None && m@ == "Query returned no rows"@,
        },
{
    let ghost v = db@;
    let (_t0, _t1, speed, obs) = match linked_observations(db, event_id) {
        Ok(t) => t,
        Err(m) => {
            return Err(m);
        },
    };
    let stations = stations_in_event(db, &obs);
    let ghost sv = stationinfo_views(stations@);
    let mut clocks: Vec<StationClock> = Vec::new();
    let mut i: usize = 0;
    while i < stations.len()
        invariant
            i <= stations@.len(),
            v == db@,
            v.valid(),
            sv == stationinfo_views(stations@),
            clocks@.len() == i,
            forall|k: int|
                0 <= k < i ==> (#[trigger] clocks@[k])@ == (StationClockView {
                    station_id: sv[k].station_id,
                    segments: segments_of(v, sv[k].station_id),
                }),
        decreases stations@.len() - i,
    {
        assert(sv[i as int] == stations@[i as int]@);
        let segments = list_segments(db, stations[i].station_id.as_str());
        clocks.push(StationClock { station_id: stations[i].station_id.clone(), segments });
        i += 1;
    }
    assert(stationclock_views(clocks@) =~= clocks_for(v, sv));
    let edges = make_edges(db, &obs, &stations, diffs);
    let ev = list_evidence(db, event_id);
    let (exclude_edges, locks, kept_pairs) = read_judgements(&ev, wholes);
    let s = Snapshot {
        event_id: event_id.to_owned(),
        t_mid,
        sound_speed: speed,
        observable_radius: model.observable_radius,
        stations,
        segments: clocks,
        edges,
        exclude_edges,
        locks,
        kept_pairs,
    };
    assert(s@ == picture(v, event_id@, model, t_mid, *diffs, *wholes));
    Ok(s)
}

} // verus!
