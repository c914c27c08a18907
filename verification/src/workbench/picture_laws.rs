//! What the picture of an event says of the tables that it is taken from.
use vstd::prelude::*;

use crate::arrange::{arranged, numbers_lt, picked_rows_are_arranged, place_lt};
use crate::double::Double;
use crate::figures::{Differences, Wholes};
use crate::json::JsonView;
use crate::text::{text_lt, text_order_is_total};
use crate::workbench::clock::{by_start, of_station, segments_of};
use crate::workbench::db::{has_link, DbView, ObsRowView, XcorrRowView};
use crate::workbench::evidence::EvidenceView;
use crate::workbench::laws::{an_excluded_peak_is_listed, the_last_lock_holds};
use crate::workbench::models::ClockSegmentView;
use crate::workbench::picture::{
    between, by_onset, by_peak, by_station, event_row, first_onset, has_report, linked_obs,
    linked_rows, linked_to, lock_in, locks_of, on_list, pairs_of, peak_in, peaks_of, picture,
    reported, station_of, stations_for, text_under, with_lock, with_peak, xcorr_edges,
    LinkedObsView,
};
use crate::workbench::snapshot::{
    EdgeObsView, ExcludedPeakView, KeptPairView, LockView, StationInfoView,
};
use crate::workbench::units::PhysicalModel;

verus! {

// ---------- Observations ----------

/// Observation `i` of the tables belongs to an event.
pub open spec fn belongs(v: DbView, event_id: Seq<char>, i: int) -> bool {
    &&& 0 <= i < v.observations.len()
    &&& exists|l: int|
        0 <= l < v.links.len() && (#[trigger] v.links[l]).event_id == event_id && v.links[l].obs_id
            == v.observations[i].obs_id
}

/// The first onset that an event has at a station: that of an observation of the
/// event there, and no other one there is before it. Of equal ones the one that
/// was entered first counts.
pub open spec fn is_first_onset(v: DbView, event_id: Seq<char>, id: Seq<char>, i: int) -> bool {
    &&& belongs(v, event_id, i)
    &&& v.observations[i].station_id == id
    &&& forall|j: int| #[trigger]
        belongs(v, event_id, j) && v.observations[j].station_id == id ==> {
            ||| v.observations[i].local_onset_s.below(v.observations[j].local_onset_s)
            ||| v.observations[i].local_onset_s.same_number(v.observations[j].local_onset_s)
                && v.observations[i].obs_id <= v.observations[j].obs_id
        }
}

/// A station has reported an observation of an event.
pub open spec fn has_reported(v: DbView, event_id: Seq<char>, id: Seq<char>) -> bool {
    exists|i: int| #[trigger] belongs(v, event_id, i) && v.observations[i].station_id == id
}

proof fn one_number_decides(a: int, b: int)
    ensures
        numbers_lt(seq![a], seq![b]) == (a < b),
        seq![a] == seq![b] <==> a == b,
{
    reveal_with_fuel(numbers_lt, 2);
    assert(seq![a].drop_first() =~= Seq::<int>::empty());
    assert(seq![b].drop_first() =~= Seq::<int>::empty());
    assert(seq![a][0] == a && seq![b][0] == b);
}

proof fn onset_places(v: DbView, event_id: Seq<char>)
    requires
        v.valid(),
    ensures
        ({
            let r = linked_rows(v, event_id);
            &&& forall|x: ObsRowView| #[trigger]
                r.contains(x) <==> v.observations.contains(x) && has_link(
                    v.links,
                    event_id,
                    x.obs_id,
                )
            &&& forall|j: int, k: int|
                0 <= j < k < r.len() ==> (#[trigger] r[j]).local_onset_s.rank() < (
                #[trigger] r[k]).local_onset_s.rank() || (r[j].local_onset_s.rank()
                    == r[k].local_onset_s.rank() && r[j].obs_id < r[k].obs_id)
        }),
{
    let all = v.observations;
    let pick = linked_to(v.links, event_id);
    let place = by_onset();
    assert forall|j: int, k: int|
        0 <= j < k < all.len() && pick(#[trigger] all[j]) && pick(#[trigger] all[k]) implies place(
        all[j],
    ) != place(all[k]) by {
        one_number_decides(all[j].obs_id, all[k].obs_id);
    }
    picked_rows_are_arranged(all, pick, place);
    let r = linked_rows(v, event_id);
    assert forall|x: ObsRowView| #[trigger]
        r.contains(x) <==> v.observations.contains(x) && has_link(v.links, event_id, x.obs_id) by {
        assert(r.contains(x) <==> all.contains(x) && pick(x));
    }
    assert forall|j: int, k: int| 0 <= j < k < r.len() implies (
    #[trigger] r[j]).local_onset_s.rank() < (#[trigger] r[k]).local_onset_s.rank() || (
    r[j].local_onset_s.rank() == r[k].local_onset_s.rank() && r[j].obs_id < r[k].obs_id) by {
        assert(place_lt(place(r[j]), place(r[k])));
        one_number_decides(r[j].local_onset_s.rank(), r[k].local_onset_s.rank());
        one_number_decides(r[j].obs_id, r[k].obs_id);
    }
}

proof fn first_onset_is_the_first(obs: Seq<LinkedObsView>, id: Seq<char>) -> (k: int)
    requires
        has_report(obs, id),
    ensures
        0 <= k < obs.len(),
        obs[k].station_id == id,
        obs[k].local_onset_s == first_onset(obs, id),
        forall|j: int| 0 <= j < k ==> (#[trigger] obs[j]).station_id != id,
    decreases obs.len(),
{
    if obs[0].station_id == id {
        0
    } else {
        let rest = obs.drop_first();
        let m = choose|m: int| 0 <= m < obs.len() && (#[trigger] obs[m]).station_id == id;
        assert(rest[m - 1] == obs[m]);
        let k = first_onset_is_the_first(rest, id);
        assert forall|j: int| 0 <= j < k + 1 implies (#[trigger] obs[j]).station_id != id by {
            if j > 0 {
                assert(rest[j - 1] == obs[j]);
            }
        }
        k + 1
    }
}

proof fn linked_is_belonging(v: DbView, event_id: Seq<char>, i: int)
    requires
        0 <= i < v.observations.len(),
    ensures
        has_link(v.links, event_id, v.observations[i].obs_id) == belongs(v, event_id, i),
{
    if has_link(v.links, event_id, v.observations[i].obs_id) {
        let l = choose|l: int|
            0 <= l < v.links.len() && (#[trigger] v.links[l]).event_id == event_id
                && v.links[l].obs_id == v.observations[i].obs_id;
        assert(v.links[l].event_id == event_id);
    }
}

proof fn reports_are_those_of_the_tables(v: DbView, event_id: Seq<char>, id: Seq<char>)
    requires
        v.valid(),
    ensures
        has_report(linked_obs(v, event_id), id) == has_reported(v, event_id, id),
{
    onset_places(v, event_id);
    let r = linked_rows(v, event_id);
    let obs = linked_obs(v, event_id);
    if has_report(obs, id) {
        let k = choose|k: int| 0 <= k < obs.len() && (#[trigger] obs[k]).station_id == id;
        assert(r.contains(r[k]));
        let i = choose|i: int| 0 <= i < v.observations.len() && v.observations[i] == r[k];
        linked_is_belonging(v, event_id, i);
        assert(belongs(v, event_id, i));
    }
    if has_reported(v, event_id, id) {
        let i = choose|i: int| #[trigger]
            belongs(v, event_id, i) && v.observations[i].station_id == id;
        linked_is_belonging(v, event_id, i);
        assert(v.observations.contains(v.observations[i]));
        assert(r.contains(v.observations[i]));
        let k = choose|k: int| 0 <= k < r.len() && r[k] == v.observations[i];
        assert(obs[k].station_id == id);
    }
}

proof fn first_onset_of_the_tables(v: DbView, event_id: Seq<char>, id: Seq<char>) -> (i: int)
    requires
        v.valid(),
        has_reported(v, event_id, id),
    ensures
        is_first_onset(v, event_id, id, i),
        v.observations[i].local_onset_s == first_onset(linked_obs(v, event_id), id),
{
    reports_are_those_of_the_tables(v, event_id, id);
    onset_places(v, event_id);
    let r = linked_rows(v, event_id);
    let obs = linked_obs(v, event_id);
    let k = first_onset_is_the_first(obs, id);
    assert(r.contains(r[k]));
    let i = choose|i: int| 0 <= i < v.observations.len() && v.observations[i] == r[k];
    linked_is_belonging(v, event_id, i);
    assert forall|j: int| #[trigger]
        belongs(v, event_id, j) && v.observations[j].station_id == id implies {
        ||| v.observations[i].local_onset_s.below(v.observations[j].local_onset_s)
        ||| v.observations[i].local_onset_s.same_number(v.observations[j].local_onset_s)
            && v.observations[i].obs_id <= v.observations[j].obs_id
    } by {
        linked_is_belonging(v, event_id, j);
        assert(v.observations.contains(v.observations[j]));
        assert(r.contains(v.observations[j]));
        let m = choose|m: int| 0 <= m < r.len() && r[m] == v.observations[j];
        assert(obs[m].station_id == id);
        assert(k <= m);
        assert(v.observations[i].local_onset_s.finite());
        assert(v.observations[j].local_onset_s.finite());
        if k < m {
            assert(r[k].local_onset_s.rank() < r[m].local_onset_s.rank() || (
            r[k].local_onset_s.rank() == r[m].local_onset_s.rank() && r[k].obs_id < r[m].obs_id));
        }
    }
    i
}

// ---------- Stations ----------

/// The stations of a picture are those that have reported, each once, in the
/// order of their names, and where the tables put them.
pub open spec fn shows_the_stations(v: DbView, event_id: Seq<char>, s: Seq<StationInfoView>) -> bool {
    &&& forall|k: int|
        0 <= k < s.len() ==> has_reported(v, event_id, (#[trigger] s[k]).station_id) && exists|
            i: int,
        |
            0 <= i < v.stations.len() && (#[trigger] v.stations[i]).station.station_id
                == s[k].station_id && v.stations[i].station.x == s[k].x && v.stations[i].station.y
                == s[k].y
    &&& forall|j: int, k: int|
        0 <= j < k < s.len() ==> text_lt(
            (#[trigger] s[j]).station_id,
            (#[trigger] s[k]).station_id,
        )
    &&& forall|i: int|
        0 <= i < v.stations.len() && has_reported(
            v,
            event_id,
            (#[trigger] v.stations[i]).station.station_id,
        ) ==> exists|k: int|
            0 <= k < s.len() && (#[trigger] s[k]).station_id == v.stations[i].station.station_id
}

proof fn stations_are_shown(v: DbView, event_id: Seq<char>)
    requires
        v.valid(),
    ensures
        shows_the_stations(v, event_id, stations_for(v, linked_obs(v, event_id))),
{
    let obs = linked_obs(v, event_id);
    let all = v.stations;
    let pick = reported(obs);
    let place = by_station();
    assert forall|j: int, k: int|
        0 <= j < k < all.len() && pick(#[trigger] all[j]) && pick(#[trigger] all[k]) implies place(
        all[j],
    ) != place(all[k]) by {
        assert(all[j].station.station_id != all[k].station.station_id);
    }
    picked_rows_are_arranged(all, pick, place);
    let r = arranged(all.filter(pick), place);
    let s = stations_for(v, obs);
    assert forall|k: int| 0 <= k < s.len() implies has_reported(
        v,
        event_id,
        (#[trigger] s[k]).station_id,
    ) && exists|i: int|
        0 <= i < v.stations.len() && (#[trigger] v.stations[i]).station.station_id
            == s[k].station_id && v.stations[i].station.x == s[k].x && v.stations[i].station.y
            == s[k].y by {
        assert(r.contains(r[k]));
        assert(all.contains(r[k]) && pick(r[k]));
        let i = choose|i: int| 0 <= i < all.len() && all[i] == r[k];
        reports_are_those_of_the_tables(v, event_id, s[k].station_id);
        assert(v.stations[i].station.station_id == s[k].station_id);
    }
    assert forall|j: int, k: int| 0 <= j < k < s.len() implies text_lt(
        (#[trigger] s[j]).station_id,
        (#[trigger] s[k]).station_id,
    ) by {
        assert(place_lt(place(r[j]), place(r[k])));
        text_order_is_total(s[j].station_id, s[k].station_id);
    }
    assert forall|i: int|
        0 <= i < v.stations.len() && has_reported(
            v,
            event_id,
            (#[trigger] v.stations[i]).station.station_id,
        ) implies exists|k: int|
        0 <= k < s.len() && (#[trigger] s[k]).station_id == v.stations[i].station.station_id by {
        reports_are_those_of_the_tables(v, event_id, v.stations[i].station.station_id);
        assert(all.contains(all[i]) && pick(all[i]));
        assert(r.contains(all[i]));
        let k = choose|k: int| 0 <= k < r.len() && r[k] == all[i];
        assert(s[k].station_id == v.stations[i].station.station_id);
    }
}

/// The picture of an event shows the stations that have reported.
pub proof fn a_picture_shows_the_stations(
    v: DbView,
    event_id: Seq<char>,
    model: PhysicalModel,
    t_mid: Double,
    diffs: Differences,
    wholes: Wholes,
)
    requires
        v.valid(),
    ensures
        shows_the_stations(
            v,
            event_id,
            picture(v, event_id, model, t_mid, diffs, wholes).stations,
        ),
{
    stations_are_shown(v, event_id);
}

// ---------- Edges ----------

/// An edge is the difference of the first onsets at two stations: the one at
/// `station_b`, observation `j`, less the one at `station_a`, observation `i`.
pub open spec fn is_difference_of_onsets(
    v: DbView,
    event_id: Seq<char>,
    diffs: Differences,
    i: int,
    j: int,
    e: EdgeObsView,
) -> bool {
    &&& is_first_onset(v, event_id, e.station_a, i)
    &&& is_first_onset(v, event_id, e.station_b, j)
    &&& e.delay_s == diffs.difference(
        v.observations[j].local_onset_s,
        v.observations[i].local_onset_s,
    )
    &&& e.sigma_s.bits == 0x3f70_624d_d2f1_a9fc
    &&& !e.multipath
    &&& e.xc_id is None
    &&& e.peak_index == 0
    &&& e.origin == "onset"@
}

/// An edge is a delay that was reported, row `x` of the tables, between the
/// stations of its two observations `i` and `j`.
pub open spec fn is_reported_delay(
    v: DbView,
    event_id: Seq<char>,
    x: int,
    i: int,
    j: int,
    e: EdgeObsView,
) -> bool {
    &&& 0 <= x < v.xcorrs.len()
    &&& belongs(v, event_id, i)
    &&& belongs(v, event_id, j)
    &&& v.observations[i].obs_id == v.xcorrs[x].obs_a
    &&& v.observations[j].obs_id == v.xcorrs[x].obs_b
    &&& e.station_a == v.observations[i].station_id
    &&& e.station_b == v.observations[j].station_id
    &&& e.delay_s == v.xcorrs[x].delay_s
    &&& e.sigma_s == v.xcorrs[x].sigma_s
    &&& e.multipath == v.xcorrs[x].multipath
    &&& e.xc_id == Some(v.xcorrs[x].xc_id as i64)
    &&& e.peak_index == v.xcorrs[x].peak_index
    &&& e.origin == "xcorr"@
}

/// An edge is a delay that was reported between two observations of an event.
pub open spec fn was_reported(v: DbView, event_id: Seq<char>, e: EdgeObsView) -> bool {
    exists|x: int, i: int, j: int| #[trigger] is_reported_delay(v, event_id, x, i, j, e)
}

proof fn the_origins_differ()
    ensures
        "onset"@ != "xcorr"@,
{
    reveal_strlit("onset");
    reveal_strlit("xcorr");
    assert("onset"@[0] == 'o');
    assert("xcorr"@[0] == 'x');
}

proof fn station_of_is_that_of_the_row(rows: Seq<ObsRowView>, i: int)
    requires
        0 <= i < rows.len(),
        forall|j: int, k: int|
            0 <= j < k < rows.len() ==> (#[trigger] rows[j]).obs_id < (#[trigger] rows[k]).obs_id,
    ensures
        station_of(rows, rows[i].obs_id) == rows[i].station_id,
    decreases rows.len(),
{
    if i > 0 {
        let rest = rows.drop_first();
        assert(rows[0].obs_id < rows[i].obs_id);
        assert(rest[i - 1] == rows[i]);
        assert forall|j: int, k: int| 0 <= j < k < rest.len() implies (#[trigger] rest[j]).obs_id < (
        #[trigger] rest[k]).obs_id by {
            assert(rows[j + 1].obs_id < rows[k + 1].obs_id);
        }
        station_of_is_that_of_the_row(rest, i - 1);
    }
}

proof fn listing_is_belonging(v: DbView, event_id: Seq<char>, id: int)
    requires
        v.valid(),
    ensures
        on_list(linked_obs(v, event_id), id) <==> exists|i: int| #[trigger]
            belongs(v, event_id, i) && v.observations[i].obs_id == id,
{
    onset_places(v, event_id);
    let r = linked_rows(v, event_id);
    let obs = linked_obs(v, event_id);
    if on_list(obs, id) {
        let k = choose|k: int| 0 <= k < obs.len() && (#[trigger] obs[k]).obs_id == id;
        assert(r.contains(r[k]));
        let i = choose|i: int| 0 <= i < v.observations.len() && v.observations[i] == r[k];
        linked_is_belonging(v, event_id, i);
        assert(belongs(v, event_id, i) && v.observations[i].obs_id == id);
    }
    if exists|i: int| #[trigger] belongs(v, event_id, i) && v.observations[i].obs_id == id {
        let i = choose|i: int| #[trigger]
            belongs(v, event_id, i) && v.observations[i].obs_id == id;
        linked_is_belonging(v, event_id, i);
        assert(v.observations.contains(v.observations[i]));
        assert(r.contains(v.observations[i]));
        let k = choose|k: int| 0 <= k < r.len() && r[k] == v.observations[i];
        assert(obs[k].obs_id == id);
    }
}

proof fn numbers_of_delays_are_small(v: DbView, x: XcorrRowView)
    requires
        v.valid(),
        v.last_xcorr <= i64::MAX,
        v.xcorrs.contains(x),
    ensures
        0 < x.xc_id <= i64::MAX,
{
    let i = choose|i: int| 0 <= i < v.xcorrs.len() && v.xcorrs[i] == x;
    assert(1 <= v.xcorrs[i].xc_id <= v.last_xcorr);
}

spec fn lists_the_delays(v: DbView, event_id: Seq<char>, out: Seq<EdgeObsView>) -> bool {
    &&& forall|k: int|
        0 <= k < out.len() ==> was_reported(
            v,
            event_id,
            #[trigger] out[k],
        )
    &&& forall|x: int, i: int, j: int|
        #![trigger v.xcorrs[x], belongs(v, event_id, i), belongs(v, event_id, j)]
        0 <= x < v.xcorrs.len() && belongs(v, event_id, i) && belongs(v, event_id, j)
            && v.observations[i].obs_id == v.xcorrs[x].obs_a && v.observations[j].obs_id
            == v.xcorrs[x].obs_b ==> exists|k: int|
            0 <= k < out.len() && is_reported_delay(
                v,
                event_id,
                x,
                i,
                j,
                #[trigger] out[k],
            )
    &&& forall|k: int, l: int|
        0 <= k < l < out.len() ==> (#[trigger] out[k]).peak_index < (
        #[trigger] out[l]).peak_index || (out[k].peak_index == out[l].peak_index
            && out[k].xc_id->0 < out[l].xc_id->0)
}

proof fn delays_of_the_tables(v: DbView, event_id: Seq<char>)
    requires
        v.valid(),
        v.last_xcorr <= i64::MAX,
    ensures
        lists_the_delays(v, event_id, xcorr_edges(v, linked_obs(v, event_id))),
{
    let obs = linked_obs(v, event_id);
    let all = v.xcorrs;
    let pick = between(obs);
    let place = by_peak();
    assert forall|j: int, k: int|
        0 <= j < k < all.len() && pick(#[trigger] all[j]) && pick(#[trigger] all[k]) implies place(
        all[j],
    ) != place(all[k]) by {
        one_number_decides(all[j].xc_id, all[k].xc_id);
    }
    picked_rows_are_arranged(all, pick, place);
    let r = arranged(all.filter(pick), place);
    let out = xcorr_edges(v, obs);
    assert forall|k: int| 0 <= k < out.len() implies was_reported(
        v,
        event_id,
        #[trigger] out[k],
    ) by {
        assert(r.contains(r[k]));
        let x = choose|x: int| 0 <= x < all.len() && all[x] == r[k];
        listing_is_belonging(v, event_id, r[k].obs_a);
        listing_is_belonging(v, event_id, r[k].obs_b);
        let i = choose|i: int| #[trigger]
            belongs(v, event_id, i) && v.observations[i].obs_id == r[k].obs_a;
        let j = choose|j: int| #[trigger]
            belongs(v, event_id, j) && v.observations[j].obs_id == r[k].obs_b;
        station_of_is_that_of_the_row(v.observations, i);
        station_of_is_that_of_the_row(v.observations, j);
        assert(is_reported_delay(v, event_id, x, i, j, out[k]));
    }
    assert forall|x: int, i: int, j: int|
        #![trigger v.xcorrs[x], belongs(v, event_id, i), belongs(v, event_id, j)]
        0 <= x < v.xcorrs.len() && belongs(v, event_id, i) && belongs(v, event_id, j)
            && v.observations[i].obs_id == v.xcorrs[x].obs_a && v.observations[j].obs_id
            == v.xcorrs[x].obs_b implies exists|k: int|
        0 <= k < out.len() && is_reported_delay(v, event_id, x, i, j, #[trigger] out[k]) by {
        listing_is_belonging(v, event_id, v.xcorrs[x].obs_a);
        listing_is_belonging(v, event_id, v.xcorrs[x].obs_b);
        assert(pick(all[x]) && all.contains(all[x]));
        assert(r.contains(all[x]));
        let k = choose|k: int| 0 <= k < r.len() && r[k] == all[x];
        station_of_is_that_of_the_row(v.observations, i);
        station_of_is_that_of_the_row(v.observations, j);
        assert(is_reported_delay(v, event_id, x, i, j, out[k]));
    }
    assert forall|k: int, l: int| 0 <= k < l < out.len() implies (#[trigger] out[k]).peak_index < (
    #[trigger] out[l]).peak_index || (out[k].peak_index == out[l].peak_index && out[k].xc_id->0
        < out[l].xc_id->0) by {
        assert(place_lt(place(r[k]), place(r[l])));
        one_number_decides(r[k].peak_index, r[l].peak_index);
        one_number_decides(r[k].xc_id, r[l].xc_id);
        assert(r.contains(r[k]) && r.contains(r[l]));
        numbers_of_delays_are_small(v, r[k]);
        numbers_of_delays_are_small(v, r[l]);
    }
}

/// The edges of a picture that come from onsets are differences of first onsets
/// between stations that follow each other, one for each two that do.
pub proof fn onset_edges_are_differences_of_onsets(
    v: DbView,
    event_id: Seq<char>,
    model: PhysicalModel,
    t_mid: Double,
    diffs: Differences,
    wholes: Wholes,
    k: int,
)
    requires
        v.valid(),
        0 <= k < picture(v, event_id, model, t_mid, diffs, wholes).edges.len(),
        picture(v, event_id, model, t_mid, diffs, wholes).edges[k].origin == "onset"@,
    ensures
        ({
            let s = picture(v, event_id, model, t_mid, diffs, wholes);
            &&& exists|i: int, j: int| #[trigger]
                is_difference_of_onsets(v, event_id, diffs, i, j, s.edges[k])
            &&& exists|m: int|
                0 <= m < s.stations.len() - 1 && s.edges[k].station_a == (
                #[trigger] s.stations[m]).station_id && s.edges[k].station_b == s.stations[m
                    + 1].station_id
        }),
{
    the_origins_differ();
    let obs = linked_obs(v, event_id);
    let s = picture(v, event_id, model, t_mid, diffs, wholes);
    let n = xcorr_edges(v, obs).len();
    let m = k - n;
    if k < n {
        assert(s.edges[k] == xcorr_edges(v, obs)[k]);
    }
    stations_are_shown(v, event_id);
    assert(has_reported(v, event_id, s.stations[m].station_id));
    assert(has_reported(v, event_id, s.stations[m + 1].station_id));
    let i = first_onset_of_the_tables(v, event_id, s.stations[m].station_id);
    let j = first_onset_of_the_tables(v, event_id, s.stations[m + 1].station_id);
    assert(is_difference_of_onsets(v, event_id, diffs, i, j, s.edges[k]));
    assert(s.edges[k].station_a == s.stations[m].station_id);
}

/// A table tells which of two numbers is the smaller: their difference is below
/// zero, above it or equal to it.
pub open spec fn tells_apart(diffs: Differences, a: Double, b: Double) -> bool {
    let zero = Double { bits: 0 };
    let d = diffs.difference(a, b);
    &&& d.below(zero) <==> a.below(b)
    &&& zero.below(d) <==> b.below(a)
    &&& d.same_number(zero) <==> a.same_number(b)
}

/// Where the table holds true differences, an edge from onsets is below zero
/// exactly where the first onset at its second station comes before the one at
/// its first station, and above zero exactly where it comes after it.
pub proof fn the_sign_of_an_edge_tells_who_heard_first(
    v: DbView,
    event_id: Seq<char>,
    model: PhysicalModel,
    t_mid: Double,
    diffs: Differences,
    wholes: Wholes,
    k: int,
    i: int,
    j: int,
)
    requires
        v.valid(),
        0 <= k < picture(v, event_id, model, t_mid, diffs, wholes).edges.len(),
        picture(v, event_id, model, t_mid, diffs, wholes).edges[k].origin == "onset"@,
        is_first_onset(
            v,
            event_id,
            picture(v, event_id, model, t_mid, diffs, wholes).edges[k].station_a,
            i,
        ),
        is_first_onset(
            v,
            event_id,
            picture(v, event_id, model, t_mid, diffs, wholes).edges[k].station_b,
            j,
        ),
        tells_apart(diffs, v.observations[j].local_onset_s, v.observations[i].local_onset_s),
    ensures
        ({
            let d = picture(v, event_id, model, t_mid, diffs, wholes).edges[k].delay_s;
            let at_a = v.observations[i].local_onset_s;
            let at_b = v.observations[j].local_onset_s;
            &&& d == diffs.difference(at_b, at_a)
            &&& d.below(Double { bits: 0 }) <==> at_b.below(at_a)
            &&& (Double { bits: 0 }).below(d) <==> at_a.below(at_b)
        }),
{
    onset_edges_are_differences_of_onsets(v, event_id, model, t_mid, diffs, wholes, k);
    let e = picture(v, event_id, model, t_mid, diffs, wholes).edges[k];
    let (a, b) = choose|a: int, b: int| #[trigger]
        is_difference_of_onsets(v, event_id, diffs, a, b, e);
    first_onsets_are_one(v, event_id, e.station_a, a, i);
    first_onsets_are_one(v, event_id, e.station_b, b, j);
}

/// A station has one first onset.
pub proof fn first_onsets_are_one(v: DbView, event_id: Seq<char>, id: Seq<char>, i: int, j: int)
    requires
        v.valid(),
        is_first_onset(v, event_id, id, i),
        is_first_onset(v, event_id, id, j),
    ensures
        i == j,
{
    assert(belongs(v, event_id, i) && belongs(v, event_id, j));
    if i < j {
        assert(v.observations[i].obs_id < v.observations[j].obs_id);
    } else if j < i {
        assert(v.observations[j].obs_id < v.observations[i].obs_id);
    }
}

/// Every two stations of a picture that follow each other have an edge from
/// their onsets.
pub proof fn stations_in_a_row_have_an_edge(
    v: DbView,
    event_id: Seq<char>,
    model: PhysicalModel,
    t_mid: Double,
    diffs: Differences,
    wholes: Wholes,
    m: int,
)
    requires
        v.valid(),
        0 <= m < picture(v, event_id, model, t_mid, diffs, wholes).stations.len() - 1,
    ensures
        ({
            let s = picture(v, event_id, model, t_mid, diffs, wholes);
            exists|k: int|
                0 <= k < s.edges.len() && (#[trigger] s.edges[k]).origin == "onset"@
                    && s.edges[k].station_a == s.stations[m].station_id && s.edges[k].station_b
                    == s.stations[m + 1].station_id
        }),
{
    let s = picture(v, event_id, model, t_mid, diffs, wholes);
    let n = xcorr_edges(v, linked_obs(v, event_id)).len();
    assert(s.edges[n + m].origin == "onset"@);
}

/// The edges of a picture that come from delays are those that were reported
/// between two observations of the event, each as the tables have it, and every
/// such delay is one.
pub proof fn delay_edges_are_the_reported_ones(
    v: DbView,
    event_id: Seq<char>,
    model: PhysicalModel,
    t_mid: Double,
    diffs: Differences,
    wholes: Wholes,
)
    requires
        v.valid(),
        v.last_xcorr <= i64::MAX,
    ensures
        ({
            let s = picture(v, event_id, model, t_mid, diffs, wholes);
            &&& forall|k: int|
                0 <= k < s.edges.len() && (#[trigger] s.edges[k]).origin == "xcorr"@ ==> was_reported(
                    v,
                    event_id,
                    s.edges[k],
                )
            &&& forall|k: int|
                0 <= k < s.edges.len() ==> (#[trigger] s.edges[k]).origin == "xcorr"@
                    || s.edges[k].origin == "onset"@
            &&& forall|x: int, i: int, j: int|
                #![trigger v.xcorrs[x], belongs(v, event_id, i), belongs(v, event_id, j)]
                0 <= x < v.xcorrs.len() && belongs(v, event_id, i) && belongs(v, event_id, j)
                    && v.observations[i].obs_id == v.xcorrs[x].obs_a && v.observations[j].obs_id
                    == v.xcorrs[x].obs_b ==> exists|k: int|
                    0 <= k < s.edges.len() && is_reported_delay(
                        v,
                        event_id,
                        x,
                        i,
                        j,
                        #[trigger] s.edges[k],
                    )
            &&& forall|k: int, l: int|
                0 <= k < l < s.edges.len() && (#[trigger] s.edges[k]).origin == "xcorr"@ && (
                #[trigger] s.edges[l]).origin == "xcorr"@ ==> s.edges[k].peak_index
                    < s.edges[l].peak_index || (s.edges[k].peak_index == s.edges[l].peak_index
                    && s.edges[k].xc_id->0 < s.edges[l].xc_id->0)
            &&& forall|k: int, l: int|
                0 <= k < l < s.edges.len() && (#[trigger] s.edges[l]).origin == "xcorr"@ ==> (
                #[trigger] s.edges[k]).origin == "xcorr"@
        }),
{
    the_origins_differ();
    delays_of_the_tables(v, event_id);
    let s = picture(v, event_id, model, t_mid, diffs, wholes);
    let out = xcorr_edges(v, linked_obs(v, event_id));
    assert forall|k: int| 0 <= k < s.edges.len() implies (k < out.len() ==> (
    #[trigger] s.edges[k]) == out[k] && s.edges[k].origin == "xcorr"@) && (k >= out.len()
        ==> s.edges[k].origin == "onset"@) by {}
    assert forall|k: int| 0 <= k < s.edges.len() && (#[trigger] s.edges[k]).origin
        == "xcorr"@ implies was_reported(
        v,
        event_id,
        s.edges[k],
    ) by {
        assert(s.edges[k] == out[k]);
    }
    assert forall|x: int, i: int, j: int|
        #![trigger v.xcorrs[x], belongs(v, event_id, i), belongs(v, event_id, j)]
        0 <= x < v.xcorrs.len() && belongs(v, event_id, i) && belongs(v, event_id, j)
            && v.observations[i].obs_id == v.xcorrs[x].obs_a && v.observations[j].obs_id
            == v.xcorrs[x].obs_b implies exists|k: int|
        0 <= k < s.edges.len() && is_reported_delay(
            v,
            event_id,
            x,
            i,
            j,
            #[trigger] s.edges[k],
        ) by {
        let k = choose|k: int|
            0 <= k < out.len() && is_reported_delay(v, event_id, x, i, j, #[trigger] out[k]);
        assert(s.edges[k] == out[k]);
    }
}

// ---------- Judgements ----------

/// A judgement excludes a peak: its kind is `exclude_peak`, and its payload names
/// the two stations and the number of the peak.
pub open spec fn excludes_the_peak(e: EvidenceView, a: Seq<char>, b: Seq<char>, n: int) -> bool {
    &&& e.kind == "exclude_peak"@
    &&& e.payload.member("station_a"@) == Some(JsonView::Text(a))
    &&& e.payload.member("station_b"@) == Some(JsonView::Text(b))
    &&& e.payload.member("peak_index"@) == Some(JsonView::Int(n))
    &&& i64::MIN <= n <= i64::MAX
}

/// Every peak that a judgement excludes is excluded in the picture.
pub proof fn excluded_peaks_are_in_the_picture(
    ev: Seq<EvidenceView>,
    k: int,
    a: Seq<char>,
    b: Seq<char>,
    n: int,
)
    requires
        0 <= k < ev.len(),
        excludes_the_peak(ev[k], a, b, n),
    ensures
        peaks_of(ev).contains((ExcludedPeakView { station_a: a, station_b: b, peak_index: n })),
    decreases ev.len(),
{
    let p = ExcludedPeakView { station_a: a, station_b: b, peak_index: n };
    let before = peaks_of(ev.drop_last());
    if k < ev.len() - 1 {
        excluded_peaks_are_in_the_picture(ev.drop_last(), k, a, b, n);
        if ev.last().kind == "exclude_peak"@ {
            an_excluded_peak_is_listed(before, peak_in(ev.last().payload), p);
        }
    } else {
        assert(peak_in(ev.last().payload) == p);
        an_excluded_peak_is_listed(before, p, p);
    }
}

/// Every peak that is excluded in the picture comes from a judgement of its
/// kind.
pub proof fn no_peak_is_excluded_without_a_judgement(
    ev: Seq<EvidenceView>,
    p: ExcludedPeakView,
)
    requires
        peaks_of(ev).contains(p),
    ensures
        exists|k: int|
            0 <= k < ev.len() && (#[trigger] ev[k]).kind == "exclude_peak"@ && peak_in(
                ev[k].payload,
            ) == p,
    decreases ev.len(),
{
    if ev.len() > 0 {
        let rest = ev.drop_last();
        let before = peaks_of(rest);
        let n = ev.len() - 1;
        if before.contains(p) {
            no_peak_is_excluded_without_a_judgement(rest, p);
            let k = choose|k: int|
                0 <= k < rest.len() && (#[trigger] rest[k]).kind == "exclude_peak"@ && peak_in(
                    rest[k].payload,
                ) == p;
            assert(ev[k] == rest[k]);
        } else {
            only_the_new_peak_comes_in(before, peak_in(ev[n].payload), p);
            assert(ev[n].kind == "exclude_peak"@);
        }
    }
}

proof fn only_the_new_peak_comes_in(
    list: Seq<ExcludedPeakView>,
    p: ExcludedPeakView,
    q: ExcludedPeakView,
)
    ensures
        with_peak(list, p).contains(q) ==> q == p || list.contains(q),
    decreases list.len(),
{
    let now = with_peak(list, p);
    if now.contains(q) && q != p && list.len() > 0 {
        let k = choose|k: int| 0 <= k < now.len() && now[k] == q;
        if list[0] == p {
        } else if place_lt(crate::workbench::picture::peak_place(p), crate::workbench::picture::peak_place(list[0])) {
            assert(list[k - 1] == q);
        } else if k == 0 {
            assert(list[0] == q);
        } else {
            let rest = list.drop_first();
            let more = with_peak(rest, p);
            assert(more[k - 1] == q);
            only_the_new_peak_comes_in(rest, p, q);
            let j = choose|j: int| 0 <= j < rest.len() && rest[j] == q;
            assert(list[j + 1] == q);
        }
    }
}

/// A judgement locks a clock: its kind is `lock_clock`, and its payload names the
/// station, the offset and the uncertainty.
pub open spec fn locks_the_clock(
    e: EvidenceView,
    id: Seq<char>,
    offset: Double,
    sigma: Double,
) -> bool {
    &&& e.kind == "lock_clock"@
    &&& e.payload.member("station_id"@) == Some(JsonView::Text(id))
    &&& e.payload.member("offset_s"@) == Some(JsonView::Float(offset))
    &&& e.payload.member("sigma_s"@) == Some(JsonView::Float(sigma))
}

/// A judgement is about the clock of a station.
pub open spec fn is_about_the_clock(e: EvidenceView, id: Seq<char>) -> bool {
    e.kind == "lock_clock"@ && text_under(e.payload, "station_id"@) == id
}

/// The last judgement on the clock of a station is the one that holds in the
/// picture.
pub proof fn the_last_judgement_on_a_clock_holds(
    ev: Seq<EvidenceView>,
    wholes: Wholes,
    k: int,
    id: Seq<char>,
    offset: Double,
    sigma: Double,
)
    requires
        0 <= k < ev.len(),
        locks_the_clock(ev[k], id, offset, sigma),
        forall|j: int| k < j < ev.len() ==> !is_about_the_clock(#[trigger] ev[j], id),
    ensures
        crate::workbench::edges::lock_for(locks_of(ev, wholes), id) == Some((offset, sigma)),
    decreases ev.len(),
{
    let rest = ev.drop_last();
    let before = locks_of(rest, wholes);
    let n = ev.len() - 1;
    if k < n {
        assert forall|j: int| k < j < rest.len() implies !is_about_the_clock(
            #[trigger] rest[j],
            id,
        ) by {
            assert(rest[j] == ev[j]);
        }
        the_last_judgement_on_a_clock_holds(rest, wholes, k, id, offset, sigma);
        assert(!is_about_the_clock(ev[n], id));
        if ev[n].kind == "lock_clock"@ {
            another_lock_does_not_count(before, lock_in(ev[n].payload, wholes), id);
        }
    } else {
        let l = lock_in(ev[n].payload, wholes);
        assert(l.station_id == id && l.offset_s == offset && l.sigma_s == sigma);
        the_last_lock_holds(before, l);
    }
}

proof fn another_lock_does_not_count(list: Seq<LockView>, l: LockView, id: Seq<char>)
    requires
        l.station_id != id,
    ensures
        crate::workbench::edges::lock_for(with_lock(list, l), id)
            == crate::workbench::edges::lock_for(list, id),
    decreases list.len(),
{
    let now = with_lock(list, l);
    if list.len() == 0 {
        assert(now.drop_first() =~= Seq::empty());
    } else if list[0].station_id == l.station_id {
        assert(now.drop_first() =~= list.drop_first());
    } else if text_lt(l.station_id, list[0].station_id) {
        assert(now.drop_first() =~= list);
    } else {
        another_lock_does_not_count(list.drop_first(), l, id);
        assert(now.drop_first() =~= with_lock(list.drop_first(), l));
    }
}

/// Every pair that a judgement keeps is kept in the picture, in the order in
/// which it names the two, and no other.
pub proof fn kept_pairs_are_in_the_picture(ev: Seq<EvidenceView>, p: KeptPairView)
    ensures
        pairs_of(ev).contains(p) <==> exists|k: int|
            0 <= k < ev.len() && (#[trigger] ev[k]).kind == "keep_pair"@ && text_under(
                ev[k].payload,
                "candidate_a_key"@,
            ) == p.a && text_under(ev[k].payload, "candidate_b_key"@) == p.b,
    decreases ev.len(),
{
    if ev.len() > 0 {
        let rest = ev.drop_last();
        let n = ev.len() - 1;
        let before = pairs_of(rest);
        let now = pairs_of(ev);
        kept_pairs_are_in_the_picture(rest, p);
        if before.contains(p) {
            let j = choose|j: int| 0 <= j < before.len() && before[j] == p;
            assert(now[j] == p);
            let k = choose|k: int|
                0 <= k < rest.len() && (#[trigger] rest[k]).kind == "keep_pair"@ && text_under(
                    rest[k].payload,
                    "candidate_a_key"@,
                ) == p.a && text_under(rest[k].payload, "candidate_b_key"@) == p.b;
            assert(ev[k] == rest[k]);
        }
        if now.contains(p) && !before.contains(p) {
            let j = choose|j: int| 0 <= j < now.len() && now[j] == p;
            if j < before.len() {
                assert(before[j] == p);
            }
            assert(ev[n].kind == "keep_pair"@);
        }
        if exists|k: int|
            0 <= k < ev.len() && (#[trigger] ev[k]).kind == "keep_pair"@ && text_under(
                ev[k].payload,
                "candidate_a_key"@,
            ) == p.a && text_under(ev[k].payload, "candidate_b_key"@) == p.b {
            let k = choose|k: int|
                0 <= k < ev.len() && (#[trigger] ev[k]).kind == "keep_pair"@ && text_under(
                    ev[k].payload,
                    "candidate_a_key"@,
                ) == p.a && text_under(ev[k].payload, "candidate_b_key"@) == p.b;
            if k < n {
                assert(rest[k] == ev[k]);
            } else {
                assert(now[before.len() as int] == p);
            }
        }
    }
}

/// The picture of an event has its name, its speed of sound, the middle of its
/// window and the radius of the model, and the clocks of its stations.
pub proof fn a_picture_has_what_it_was_taken_with(
    v: DbView,
    event_id: Seq<char>,
    model: PhysicalModel,
    t_mid: Double,
    diffs: Differences,
    wholes: Wholes,
    i: int,
)
    requires
        v.valid(),
        0 <= i < v.events.len(),
        v.events[i].header.event_id == event_id,
    ensures
        ({
            let s = picture(v, event_id, model, t_mid, diffs, wholes);
            &&& s.event_id == event_id
            &&& s.t_mid == t_mid
            &&& s.sound_speed == v.events[i].header.sound_speed
            &&& s.observable_radius == model.observable_radius
            &&& s.segments.len() == s.stations.len()
            &&& forall|k: int|
                0 <= k < s.stations.len() ==> (#[trigger] s.segments[k]).station_id
                    == s.stations[k].station_id
        }),
{
    the_row_of_an_event(v.events, event_id, i);
}

proof fn the_row_of_an_event(
    events: Seq<crate::workbench::db::EventRowView>,
    id: Seq<char>,
    i: int,
)
    requires
        forall|j: int, k: int|
            0 <= j < k < events.len() ==> (#[trigger] events[j]).header.event_id != (
            #[trigger] events[k]).header.event_id,
        0 <= i < events.len(),
        events[i].header.event_id == id,
    ensures
        event_row(events, id) == Some(events[i]),
    decreases events.len(),
{
    if i > 0 {
        assert(events[0].header.event_id != events[i].header.event_id);
        let rest = events.drop_first();
        assert(rest[i - 1] == events[i]);
        assert forall|j: int, k: int| 0 <= j < k < rest.len() implies (
        #[trigger] rest[j]).header.event_id != (#[trigger] rest[k]).header.event_id by {
            assert(events[j + 1].header.event_id != events[k + 1].header.event_id);
        }
        the_row_of_an_event(rest, id, i - 1);
    }
}

/// The clocks of a station in a picture are its segments in the tables, each
/// once, in the order of their starts.
pub proof fn the_clocks_of_a_picture_are_those_of_the_tables(v: DbView, id: Seq<char>)
    requires
        v.valid(),
    ensures
        ({
            let r = segments_of(v, id);
            &&& forall|x: ClockSegmentView| #[trigger]
                r.contains(x) <==> v.segments.contains(x) && x.station_id == id
            &&& forall|j: int, k: int|
                0 <= j < k < r.len() ==> (#[trigger] r[j]).start_s.rank() < (
                #[trigger] r[k]).start_s.rank()
        }),
{
    let pick = of_station(id);
    let place = by_start();
    let all = v.segments;
    assert forall|j: int, k: int|
        0 <= j < k < all.len() && pick(#[trigger] all[j]) && pick(#[trigger] all[k]) implies place(
        all[j],
    ) != place(all[k]) by {
        one_number_decides(all[j].start_s.rank(), all[k].start_s.rank());
        starts_differ(v, j, k);
    }
    picked_rows_are_arranged(all, pick, place);
    let r = segments_of(v, id);
    assert forall|x: ClockSegmentView| #[trigger] r.contains(x) <==> v.segments.contains(x)
        && x.station_id == id by {
        assert(r.contains(x) <==> all.contains(x) && pick(x));
    }
    assert forall|j: int, k: int| 0 <= j < k < r.len() implies (#[trigger] r[j]).start_s.rank() < (
    #[trigger] r[k]).start_s.rank() by {
        assert(place_lt(place(r[j]), place(r[k])));
        one_number_decides(r[j].start_s.rank(), r[k].start_s.rank());
    }
}

proof fn starts_differ(v: DbView, j: int, k: int)
    requires
        v.valid(),
        0 <= j < k < v.segments.len(),
        v.segments[j].station_id == v.segments[k].station_id,
    ensures
        v.segments[j].start_s.rank() != v.segments[k].start_s.rank(),
{
    let a = v.segments[j];
    let b = v.segments[k];
    assert(!crate::workbench::clock::intervals_overlap(
        a.start_s,
        crate::workbench::clock::end_of(a.end_s),
        b.start_s,
        crate::workbench::clock::end_of(b.end_s),
    ));
    assert(a.start_s.finite() && b.start_s.finite());
}

} // verus!
