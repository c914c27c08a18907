//! What the workbench does for its users: stations, events, the observations of
//! an event, and solving.
use vstd::prelude::*;
use vstd::string::*;

use crate::arrange::{
    arrange, arranged, no_number, one_number, picked_rows_differ, rows_of, said, PlaceView, Placed,
};
use crate::canon::Decimals;
use crate::double::Double;
use crate::figures::{Differences, Wholes};
use crate::order::{filter_of_push, picked_items_keep_their_order, picked_positions};
use crate::text::{blank, is_blank, same};
use crate::workbench::db::{
    eventrow_views, has_event, has_link, has_obs, has_station, job_in_state, knows_event,
    knows_link, knows_station, linkrow_views, obsrow_views, stationrow_views, Db, DbView, EventRow,
    EventRowView, LinkRow, LinkRowView, ObsRowView, StationRow, StationRowView,
};
pub use crate::workbench::detail::event_detail;
use crate::workbench::jobs::{
    enqueue_and_run, enqueue_objection, entry_objection, new_job, picture_fingerprint, with_job,
    with_result, Times,
};
use crate::workbench::models::{
    eventheader_views, station_views, CreateEventReq, CreateEventReqView, CreateStationReq,
    CreateStationReqView, EventHeader, EventHeaderView, Station, StationView,
};
use crate::workbench::picture::{
    build_snapshot, by_station, event_row, known_events_have_rows, linked_observations, picture,
};
use crate::workbench::solver::{belong, solved, Figures};
use crate::workbench::units::{
    AIR_SPEED, COORDINATE_UNIT, OBSERVABLE_RADIUS, PhysicalModel, TIME_UNIT,
};

verus! {

/// The model that is taken where none is given.
pub open spec fn usual_model() -> PhysicalModel {
    PhysicalModel {
        sound_speed: Double { bits: AIR_SPEED },
        observable_radius: Double { bits: OBSERVABLE_RADIUS },
    }
}

/// The model that events are solved by.
pub fn default_model() -> (r: PhysicalModel)
    ensures
        r == usual_model(),
{
    PhysicalModel::default()
}

// ---------- Stations ----------

pub open spec fn every_station() -> spec_fn(StationRowView) -> bool {
    |s: StationRowView| true
}

/// The stations, in the order of their identifiers.
pub open spec fn stations_listed(v: DbView) -> Seq<StationView> {
    arranged(v.stations.filter(every_station()), by_station()).map_values(
        |s: StationRowView| s.station,
    )
}

fn ordered_stations(db: &Db) -> (r: Vec<StationRow>)
    requires
        db@.valid(),
    ensures
        stationrow_views(r@) == arranged(db@.stations.filter(every_station()), by_station()),
{
    let ghost all = stationrow_views(db.stations@);
    let ghost pick = every_station();
    let ghost place = by_station();
    let mut out: Vec<Placed<StationRow>> = Vec::new();
    let mut i: usize = 0;
    proof {
        reveal(Seq::filter);
        assert(all.take(0) =~= Seq::empty());
    }
    assert(rows_of(out@) =~= all.take(0).filter(pick));
    while i < db.stations.len()
        invariant
            i <= db.stations@.len(),
            all == stationrow_views(db.stations@),
            pick == every_station(),
            place == by_station(),
            db@.valid(),
            rows_of(out@) == all.take(i as int).filter(pick),
            forall|k: int|
                0 <= k < out@.len() ==> (#[trigger] out@[k]).place() == place(out@[k].item@),
        decreases db.stations@.len() - i,
    {
        let x = &db.stations[i];
        let ghost before = rows_of(out@);
        assert(all.take(i + 1) =~= all.take(i as int).push(x@));
        proof {
            filter_of_push(all.take(i as int), x@, pick);
        }
        assert(pick(x@));
        out.push(
                Placed {
                    lead: no_number(),
                    a: x.station.station_id.clone(),
                    b: String::new(),
                    tail: no_number(),
                    item: x.copy(),
                },
            );
        assert(rows_of(out@) =~= before.push(x@));
        i += 1;
    }
    assert(all.take(i as int) =~= all);
    proof {
        assert forall|j: int, k: int|
            0 <= j < k < all.len() && pick(#[trigger] all[j])
                && pick(#[trigger] all[k]) implies place(
            all[j],
        ) != place(all[k]) by {
            assert(all[j].station.station_id != all[k].station.station_id);
        }
        picked_rows_differ(all, pick, place);
        assert forall|j: int, k: int| 0 <= j < k < out@.len() implies (
            #[trigger] out@[j]).place() != (
        #[trigger] out@[k]).place() by {
            assert(rows_of(out@)[j] == out@[j].item@ && rows_of(out@)[k] == out@[k].item@);
        }
    }
    let r = arrange(out, Ghost(place));
    assert(stationrow_views(r@) =~= said(r@));
    r
}

/// Lists the stations.
pub fn list_stations(db: &Db) -> (r: Vec<Station>)
    requires
        db@.valid(),
    ensures
        station_views(r@) == stations_listed(db@),
{
    let rows = ordered_stations(db);
    let mut out: Vec<Station> = Vec::new();
    let mut k: usize = 0;
    while k < rows.len()
        invariant
            k <= rows@.len(),
            out@.len() == k,
            forall|j: int| 0 <= j < k ==> (#[trigger] out@[j])@ == rows@[j]@.station,
        decreases rows@.len() - k,
    {
        out.push(rows[k].station.copy());
        k += 1;
    }
    proof {
        let rv = stationrow_views(rows@);
        assert forall|j: int| 0 <= j < rv.len() implies rv[j] == rows@[j]@ by {}
        assert(station_views(out@) =~= stations_listed(db@));
    }
    out
}

/// Why a station is refused.
pub open spec fn station_objection(req: CreateStationReqView) -> Option<Seq<char>> {
    if blank(req.station_id) {
        Some("station_id must be non-empty"@)
    } else if !req.x.finite() || !req.y.finite() {
        Some("station coordinates must be finite metres"@)
    } else {
        None
    }
}

/// The tables with a station. One that there is stays as it is.
pub open spec fn with_station(v: DbView, req: CreateStationReqView, now: Double) -> DbView {
    if has_station(v.stations, req.station_id) || now.nan() {
        v
    } else {
        DbView {
            stations: v.stations.push(
                StationRowView {
                    station: StationView {
                        station_id: req.station_id,
                        name: req.name,
                        x: req.x,
                        y: req.y,
                    },
                    created_at: now,
                },
            ),
            ..v
        }
    }
}

/// Enters a station. Without a time nothing is entered.
pub fn create_station(db: &mut Db, req: &CreateStationReq, now: Double) -> (r: Result<(), String>)
    requires
        old(db)@.valid(),
    ensures
        final(db)@.valid(),
        match r {
            Ok(_) => station_objection(req@) is None && final(db)@ == with_station(
                old(db)@,
                req@,
                now,
            ),
            Err(m) => station_objection(req@) == Some(m@) && final(db)@ == old(db)@,
        },
{
    let ghost v = db@;
    if is_blank(req.station_id.as_str()) {
        return Err("station_id must be non-empty".to_owned());
    }
    if !req.x.is_finite() || !req.y.is_finite() {
        return Err("station coordinates must be finite metres".to_owned());
    }
    if knows_station(&db.stations, req.station_id.as_str()) || now.is_nan() {
        return Ok(());
    }
    db.stations.push(
        StationRow {
            station: Station {
                station_id: req.station_id.clone(),
                name: req.name.clone(),
                x: req.x,
                y: req.y,
            },
            created_at: now,
        },
    );
    proof {
        let w = with_station(v, req@, now);
        assert(db@.stations =~= w.stations);
        assert forall|k: Seq<char>| has_station(v.stations, k) implies has_station(
            db@.stations,
            k,
        ) by {
            let i = choose|i: int|
                0 <= i < v.stations.len() && (#[trigger] v.stations[i]).station.station_id == k;
            assert(db@.stations[i].station.station_id == k);
        }
    }
    Ok(())
}

// ---------- Events ----------

pub open spec fn every_event() -> spec_fn(EventRowView) -> bool {
    |e: EventRowView| true
}

/// Events stand in the order of their starts.
pub open spec fn by_start_and_id() -> spec_fn(EventRowView) -> PlaceView {
    |e: EventRowView|
        (
            seq![e.header.t_start.rank()],
            e.header.event_id,
            Seq::<char>::empty(),
            Seq::<int>::empty(),
        )
}

/// The events, in the order of their starts.
pub open spec fn events_listed(v: DbView) -> Seq<EventHeaderView> {
    arranged(v.events.filter(every_event()), by_start_and_id()).map_values(
        |e: EventRowView| e.header,
    )
}

fn ordered_events(db: &Db) -> (r: Vec<EventRow>)
    requires
        db@.valid(),
    ensures
        eventrow_views(r@) == arranged(db@.events.filter(every_event()), by_start_and_id()),
{
    let ghost all = eventrow_views(db.events@);
    let ghost pick = every_event();
    let ghost place = by_start_and_id();
    let mut out: Vec<Placed<EventRow>> = Vec::new();
    let mut i: usize = 0;
    proof {
        reveal(Seq::filter);
        assert(all.take(0) =~= Seq::empty());
    }
    assert(rows_of(out@) =~= all.take(0).filter(pick));
    while i < db.events.len()
        invariant
            i <= db.events@.len(),
            all == eventrow_views(db.events@),
            pick == every_event(),
            place == by_start_and_id(),
            db@.valid(),
            rows_of(out@) == all.take(i as int).filter(pick),
            forall|k: int|
                0 <= k < out@.len() ==> (#[trigger] out@[k]).place() == place(out@[k].item@),
        decreases db.events@.len() - i,
    {
        let x = &db.events[i];
        let ghost before = rows_of(out@);
        assert(all.take(i + 1) =~= all.take(i as int).push(x@));
        proof {
            filter_of_push(all.take(i as int), x@, pick);
        }
        assert(pick(x@));
        out.push(
                Placed {
                    lead: one_number(x.header.t_start.rank_number()),
                    a: x.header.event_id.clone(),
                    b: String::new(),
                    tail: no_number(),
                    item: x.copy(),
                },
            );
        assert(rows_of(out@) =~= before.push(x@));
        i += 1;
    }
    assert(all.take(i as int) =~= all);
    proof {
        assert forall|j: int, k: int|
            0 <= j < k < all.len() && pick(#[trigger] all[j])
                && pick(#[trigger] all[k]) implies place(
            all[j],
        ) != place(all[k]) by {
            assert(all[j].header.event_id != all[k].header.event_id);
        }
        picked_rows_differ(all, pick, place);
        assert forall|j: int, k: int| 0 <= j < k < out@.len() implies (
            #[trigger] out@[j]).place() != (
        #[trigger] out@[k]).place() by {
            assert(rows_of(out@)[j] == out@[j].item@ && rows_of(out@)[k] == out@[k].item@);
        }
    }
    let r = arrange(out, Ghost(place));
    assert(eventrow_views(r@) =~= said(r@));
    r
}

/// Lists the events.
pub fn list_events(db: &Db) -> (r: Vec<EventHeader>)
    requires
        db@.valid(),
    ensures
        eventheader_views(r@) == events_listed(db@),
{
    let rows = ordered_events(db);
    let mut out: Vec<EventHeader> = Vec::new();
    let mut k: usize = 0;
    while k < rows.len()
        invariant
            k <= rows@.len(),
            out@.len() == k,
            forall|j: int| 0 <= j < k ==> (#[trigger] out@[j])@ == rows@[j]@.header,
        decreases rows@.len() - k,
    {
        out.push(rows[k].header.copy());
        k += 1;
    }
    proof {
        let rv = eventrow_views(rows@);
        assert forall|j: int| 0 <= j < rv.len() implies rv[j] == rows@[j]@ by {}
        assert(eventheader_views(out@) =~= events_listed(db@));
    }
    out
}

/// Why an event is refused.
pub open spec fn event_objection(v: DbView, req: CreateEventReqView, now: Double) -> Option<
    Seq<char>,
> {
    let model = PhysicalModel { sound_speed: req.sound_speed, ..usual_model() };
    if blank(req.event_id) {
        Some("event_id must be non-empty"@)
    } else if !req.t_start.finite() || !req.t_end.finite() || req.t_end.up_to(req.t_start) {
        Some("event needs finite t_start < t_end (half-open [t_start, t_end))"@)
    } else if model.objection() is Some {
        model.objection()
    } else if now.nan() {
        Some("NOT NULL constraint failed: events.created_at"@)
    } else if has_event(v.events, req.event_id) {
        Some("UNIQUE constraint failed: events.event_id"@)
    } else {
        None
    }
}

/// An event as it is kept.
pub open spec fn new_event(req: CreateEventReqView, now: Double) -> EventRowView {
    EventRowView {
        header: EventHeaderView {
            event_id: req.event_id,
            title: req.title,
            t_start: req.t_start,
            t_end: req.t_end,
            sound_speed: req.sound_speed,
            coordinate_unit: COORDINATE_UNIT@,
            time_unit: TIME_UNIT@,
        },
        created_at: now,
    }
}

/// Enters an event.
pub fn create_event(db: &mut Db, req: &CreateEventReq, now: Double) -> (r: Result<(), String>)
    requires
        old(db)@.valid(),
    ensures
        final(db)@.valid(),
        match r {
            Ok(_) => event_objection(old(db)@, req@, now) is None && final(db)@ == (DbView {
                events: old(db)@.events.push(new_event(req@, now)),
                ..old(db)@
            }),
            Err(m) => event_objection(old(db)@, req@, now) == Some(m@) && final(db)@ == old(db)@,
        },
{
    let ghost v = db@;
    if is_blank(req.event_id.as_str()) {
        return Err("event_id must be non-empty".to_owned());
    }
    if !req.t_start.is_finite() || !req.t_end.is_finite() || req.t_end.is_up_to(req.t_start) {
        return Err(
            "event needs finite t_start < t_end (half-open [t_start, t_end))".to_owned(),
        );
    }
    let usual = default_model();
    let model = PhysicalModel {
        sound_speed: req.sound_speed,
        observable_radius: usual.observable_radius,
    };
    match model.validate() {
        Ok(_) => {},
        Err(m) => {
            return Err(m);
        },
    }
    if now.is_nan() {
        return Err("NOT NULL constraint failed: events.created_at".to_owned());
    }
    if knows_event(&db.events, req.event_id.as_str()) {
        return Err("UNIQUE constraint failed: events.event_id".to_owned());
    }
    let row = EventRow {
        header: EventHeader {
            event_id: req.event_id.clone(),
            title: req.title.clone(),
            t_start: req.t_start,
            t_end: req.t_end,
            sound_speed: req.sound_speed,
            coordinate_unit: COORDINATE_UNIT.to_owned(),
            time_unit: TIME_UNIT.to_owned(),
        },
        created_at: now,
    };
    let ghost rv = row@;
    db.events.push(row);
    proof {
        assert(db@.events =~= v.events.push(rv));
        assert forall|k: Seq<char>| has_event(v.events, k) implies has_event(db@.events, k) by {
            let i = choose|i: int|
                0 <= i < v.events.len() && (#[trigger] v.events[i]).header.event_id == k;
            assert(db@.events[i].header.event_id == k);
        }
    }
    Ok(())
}

// ---------- The observations of an event ----------

/// An observation belongs to an event: it names it, or it names none and falls
/// into the half-open window.
pub open spec fn belongs(o: ObsRowView, event_id: Seq<char>, t0: Double, t1: Double) -> bool {
    match o.event_ref {
        Some(e) => e == event_id,
        None => t0.up_to(o.local_onset_s) && o.local_onset_s.below(t1),
    }
}

/// The observations that are still to be linked to an event.
pub open spec fn unlinked(v: DbView, event_id: Seq<char>, t0: Double, t1: Double) -> spec_fn(
    ObsRowView,
) -> bool {
    |o: ObsRowView| belongs(o, event_id, t0, t1) && !has_link(v.links, event_id, o.obs_id)
}

/// The links that an event gains.
pub open spec fn new_links(v: DbView, event_id: Seq<char>) -> Seq<LinkRowView> {
    let h = event_row(v.events, event_id)->0.header;
    v.observations.filter(unlinked(v, event_id, h.t_start, h.t_end)).map_values(
        |o: ObsRowView| LinkRowView { event_id, obs_id: o.obs_id },
    )
}

/// Links keep the rules when an event gains some.
proof fn links_stay_in_order(v: DbView, event_id: Seq<char>)
    requires
        v.valid(),
        event_row(v.events, event_id) is Some,
    ensures
        (DbView { links: v.links + new_links(v, event_id), ..v }).valid(),
{
    let h = event_row(v.events, event_id)->0.header;
    let pick = unlinked(v, event_id, h.t_start, h.t_end);
    let f = v.observations.filter(pick);
    let new = new_links(v, event_id);
    let all = v.links + new;
    let n = v.links.len() as int;
    let p = picked_positions(v.observations, pick);
    picked_items_keep_their_order(v.observations, pick);
    known_events_have_rows(v.events, event_id);
    assert forall|i: int| 0 <= i < all.len() implies has_event(
        v.events,
        (#[trigger] all[i]).event_id,
    ) && has_obs(v.observations, all[i].obs_id) by {
        if i < n {
            assert(all[i] == v.links[i]);
        } else {
            assert(f[i - n] == v.observations[p[i - n]]);
            assert(v.observations[p[i - n]].obs_id == all[i].obs_id);
        }
    }
    assert forall|i: int, j: int| 0 <= i < j < all.len() implies !((#[trigger] all[i]).event_id == (
    #[trigger] all[j]).event_id && all[i].obs_id == all[j].obs_id) by {
        if j < n {
            assert(!(v.links[i].event_id == v.links[j].event_id && v.links[i].obs_id
                == v.links[j].obs_id));
        } else if i < n {
            assert(pick(f[j - n]));
            assert(!has_link(v.links, event_id, f[j - n].obs_id));
            assert(v.links[i] == all[i]);
        } else {
            assert(p[i - n] < p[j - n]);
            assert(f[i - n] == v.observations[p[i - n]] && f[j - n] == v.observations[p[j - n]]);
        }
    }
}

/// Links the observations that belong to an event, and says how many were not
/// linked before.
pub fn link_window(db: &mut Db, event_id: &str) -> (r: Result<usize, String>)
    requires
        old(db)@.valid(),
    ensures
        final(db)@.valid(),
        match r {
            Ok(n) => event_row(old(db)@.events, event_id@) is Some && final(db)@ == (DbView {
                links: old(db)@.links + new_links(old(db)@, event_id@),
                ..old(db)@
            }) && n == new_links(old(db)@, event_id@).len(),
            Err(m) => event_row(old(db)@.events, event_id@) is None && m@
                == "Query returned no rows"@ && final(db)@ == old(db)@,
        },
{
    let ghost v = db@;
    let (t0, t1, _speed, _obs) = match linked_observations(db, event_id) {
        Ok(t) => t,
        Err(m) => {
            return Err(m);
        },
    };
    let ghost all = obsrow_views(db.observations@);
    let ghost pick = unlinked(v, event_id@, t0, t1);
    let ghost link = |o: ObsRowView| LinkRowView { event_id: event_id@, obs_id: o.obs_id };
    let mut new: Vec<LinkRow> = Vec::new();
    let mut i: usize = 0;
    proof {
        reveal(Seq::filter);
        assert(all.take(0) =~= Seq::empty());
    }
    assert(linkrow_views(new@) =~= all.take(0).filter(pick).map_values(link));
    while i < db.observations.len()
        invariant
            i <= db.observations@.len(),
            v == db@,
            all == obsrow_views(db.observations@),
            pick == unlinked(v, event_id@, t0, t1),
            link == (|o: ObsRowView| LinkRowView { event_id: event_id@, obs_id: o.obs_id }),
            linkrow_views(new@) == all.take(i as int).filter(pick).map_values(link),
        decreases db.observations@.len() - i,
    {
        let x = &db.observations[i];
        let ghost before = linkrow_views(new@);
        let ghost f = all.take(i as int).filter(pick);
        assert(all.take(i + 1) =~= all.take(i as int).push(x@));
        proof {
            filter_of_push(all.take(i as int), x@, pick);
        }
        let mine = match &x.event_ref {
            Some(e) => same(e.as_str(), event_id),
            None => t0.is_up_to(x.local_onset_s) && x.local_onset_s.is_below(t1),
        };
        assert(mine == belongs(x@, event_id@, t0, t1));
        if mine && !knows_link(&db.links, event_id, x.obs_id) {
            assert(pick(x@));
            new.push(LinkRow { event_id: event_id.to_owned(), obs_id: x.obs_id });
            assert(linkrow_views(new@) =~= before.push(link(x@)));
            assert(f.push(x@).map_values(link) =~= f.map_values(link).push(link(x@)));
        } else {
            assert(!pick(x@));
        }
        i += 1;
    }
    assert(all.take(i as int) =~= all);
    proof {
        links_stay_in_order(v, event_id@);
    }
    let ghost nv = linkrow_views(new@);
    assert(nv =~= new_links(v, event_id@));
    let n: usize = new.len();
    db.links.append(&mut new);
    assert(db@.links =~= v.links + nv);
    Ok(n)
}

/// After linking, an event has every observation that belongs to it, and keeps
/// those that it had.
pub proof fn what_belongs_is_linked(v: DbView, event_id: Seq<char>, k: int)
    requires
        event_row(v.events, event_id) is Some,
        0 <= k < v.observations.len(),
        ({
            let h = event_row(v.events, event_id)->0.header;
            belongs(v.observations[k], event_id, h.t_start, h.t_end)
        }) || has_link(v.links, event_id, v.observations[k].obs_id),
    ensures
        has_link(v.links + new_links(v, event_id), event_id, v.observations[k].obs_id),
{
    let o = v.observations[k];
    let all = v.links + new_links(v, event_id);
    let h = event_row(v.events, event_id)->0.header;
    let pick = unlinked(v, event_id, h.t_start, h.t_end);
    if has_link(v.links, event_id, o.obs_id) {
        let i = choose|i: int|
            0 <= i < v.links.len() && (#[trigger] v.links[i]).event_id == event_id
                && v.links[i].obs_id == o.obs_id;
        assert(all[i] == v.links[i]);
    } else {
        broadcast use vstd::seq_lib::group_filter_ensures;

        let f = v.observations.filter(pick);
        assert(pick(o));
        assert(v.observations.contains(o));
        assert(f.contains(o));
        let i = choose|i: int| 0 <= i < f.len() && f[i] == o;
        assert(all[v.links.len() + i].obs_id == o.obs_id);
        assert(all[v.links.len() + i].event_id == event_id);
    }
}

/// Linking again links nothing.
pub proof fn linking_again_links_nothing(v: DbView, event_id: Seq<char>)
    requires
        event_row(v.events, event_id) is Some,
    ensures
        new_links(
            (DbView { links: v.links + new_links(v, event_id), ..v }),
            event_id,
        ).len() == 0,
{
    let w = DbView { links: v.links + new_links(v, event_id), ..v };
    let h = event_row(v.events, event_id)->0.header;
    let pick = unlinked(w, event_id, h.t_start, h.t_end);
    let f = w.observations.filter(pick);
    picked_items_keep_their_order(w.observations, pick);
    if f.len() > 0 {
        let k = picked_positions(w.observations, pick)[0];
        assert(f[0] == v.observations[k]);
        assert(pick(f[0]));
        what_belongs_is_linked(v, event_id, k);
    }
}

// ---------- Solving ----------

/// The numbers that a solve of an event goes by: the middle of its window,
/// differences of onsets, whole numbers as doubles, and what was worked out for
/// the picture.
#[derive(Debug)]
pub struct Given {
    pub t_mid: Double,
    pub diffs: Differences,
    pub wholes: Wholes,
    pub figures: Figures,
    pub decimals: Decimals,
}

/// Solves an event with the judgements that there are, and returns the
/// fingerprint of the job.
pub fn solve_event(db: &mut Db, event_id: &str, g: &Given, at: Times) -> (r: Result<String, String>)
    requires
        old(db)@.valid(),
    ensures
        final(db)@.valid(),
        ({
            let v = old(db)@;
            let s = picture(v, event_id@, usual_model(), g.t_mid, g.diffs, g.wholes);
            let fp = picture_fingerprint(s, g.decimals);
            let queued = with_job(v, new_job(fp, event_id@, at.created));
            let list = solved(s, g.figures, g.decimals);
            if event_row(v.events, event_id@) is None {
                r matches Err(e) && e@ == "Query returned no rows"@ && final(db)@ == v
            } else {
                match enqueue_objection(v, fp, event_id@, at.created) {
                    Some(m) => r matches Err(e) && e@ == m && final(db)@ == v,
                    None => if job_in_state(v.jobs, fp, "done"@) {
                        r matches Ok(f) && f@ == fp && final(db)@ == v
                    } else if !belong(g.figures, s) {
                        r matches Err(e) && e@ == "the numbers of another snapshot"@ && final(db)@
                            == queued
                    } else {
                        match entry_objection(queued, fp, event_id@, list) {
                            Some(m) => r matches Err(e) && e@ == m && final(db)@ == queued,
                            None => r matches Ok(f) && f@ == fp && final(db)@ == with_result(
                                queued,
                                fp,
                                event_id@,
                                list,
                                "http-worker"@,
                                at.started,
                                at.finished,
                            ),
                        }
                    },
                }
            }
        }),
{
    let model = default_model();
    let snap = match build_snapshot(db, event_id, model, g.t_mid, &g.diffs, &g.wholes) {
        Ok(s) => s,
        Err(m) => {
            return Err(m);
        },
    };
    match enqueue_and_run(db, &snap, "http-worker", &g.figures, at, &g.decimals) {
        Ok(t) => Ok(t.0),
        Err(m) => Err(m),
    }
}

} // verus!
