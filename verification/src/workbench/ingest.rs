//! Taking in batches.
//!
//! A batch is known by its fingerprint. Sending it again enters nothing and
//! answers with the rows of the first time.
use vstd::prelude::*;
use vstd::string::*;

use crate::canon::{barred, canonical_json, canonical_text, json_fingerprint, Decimals, Quoting};
use crate::digest::{fingerprint, framed, slices};
use crate::double::Double;
use crate::json::{array, json_views, Json, JsonView, Members};
use crate::model::copy_option;
use crate::order::{filter_of_push, picked_items_keep_their_order, picked_positions};
use crate::text::{decimal, decimal_text, same};
use crate::workbench::db::{
    has_batch, has_obs, has_station, knows_batch, knows_station, obsrow_views, xcorrrow_views,
    BatchRow, BatchRowView, Db, DbView, ObsRow, ObsRowView, XcorrRow, XcorrRowView,
};
use crate::workbench::models::{
    ingestobs_views, ingestxcorr_views, IngestObs, IngestObsView, IngestReq, IngestReqView,
    IngestXcorr, IngestXcorrView,
};

verus! {

/// What taking in a batch comes to.
#[derive(Debug)]
pub struct IngestResult {
    pub fingerprint: String,
    pub already_present: bool,
    pub observation_ids: Vec<i64>,
}

// ---------- What a batch says ----------

pub open spec fn xcorr_json(x: IngestXcorrView) -> JsonView {
    JsonView::Object(
        seq![
            ("obs_index"@, JsonView::Int(x.obs_index)),
            ("delay_s"@, JsonView::Float(x.delay_s)),
            ("sigma_s"@, JsonView::Float(x.sigma_s)),
            ("peak_index"@, JsonView::Int(x.peak_index)),
            ("multipath"@, JsonView::Bool(x.multipath)),
        ],
    )
}

pub open spec fn text_or_null(t: Option<Seq<char>>) -> JsonView {
    match t {
        Some(s) => JsonView::Text(s),
        None => JsonView::Null,
    }
}

pub open spec fn obs_json(o: IngestObsView) -> JsonView {
    JsonView::Object(
        seq![
            ("station_id"@, JsonView::Text(o.station_id)),
            ("event_ref"@, text_or_null(o.event_ref)),
            ("t_device"@, JsonView::Float(o.t_device)),
            ("local_onset_s"@, JsonView::Float(o.local_onset_s)),
            ("peak_band_hz"@, JsonView::Float(o.peak_band_hz)),
            ("snr_db"@, JsonView::Float(o.snr_db)),
            ("xcorr"@, JsonView::Array(o.xcorr.map_values(|x: IngestXcorrView| xcorr_json(x)))),
        ],
    )
}

/// The observations of a batch as a JSON value.
pub open spec fn batch_json(obs: Seq<IngestObsView>) -> JsonView {
    JsonView::Array(obs.map_values(|o: IngestObsView| obs_json(o)))
}

fn xcorr_value(x: &IngestXcorr) -> (r: Json)
    ensures
        r@ == xcorr_json(x@),
{
    let mut m = Members::new();
    m.put("obs_index", Json::UInt(x.obs_index as u64));
    m.put("delay_s", Json::Float(x.delay_s));
    m.put("sigma_s", Json::Float(x.sigma_s));
    m.put("peak_index", Json::Int(x.peak_index));
    m.put("multipath", Json::Bool(x.multipath));
    let r = m.object();
    assert(r@->Object_0 =~= xcorr_json(x@)->Object_0);
    r
}

fn obs_value(o: &IngestObs) -> (r: Json)
    ensures
        r@ == obs_json(o@),
{
    let mut links: Vec<Json> = Vec::new();
    let mut i: usize = 0;
    while i < o.xcorr.len()
        invariant
            i <= o.xcorr@.len(),
            links@.len() == i,
            forall|k: int| 0 <= k < i ==> (#[trigger] links@[k])@ == xcorr_json(o.xcorr@[k]@),
        decreases o.xcorr@.len() - i,
    {
        links.push(xcorr_value(&o.xcorr[i]));
        i += 1;
    }
    let event_ref = match &o.event_ref {
        Some(s) => Json::Text(s.clone()),
        None => Json::Null,
    };
    assert(json_views(links@) =~= o@.xcorr.map_values(|x: IngestXcorrView| xcorr_json(x)));
    let mut m = Members::new();
    m.put("station_id", Json::Text(o.station_id.clone()));
    m.put("event_ref", event_ref);
    m.put("t_device", Json::Float(o.t_device));
    m.put("local_onset_s", Json::Float(o.local_onset_s));
    m.put("peak_band_hz", Json::Float(o.peak_band_hz));
    m.put("snr_db", Json::Float(o.snr_db));
    m.put("xcorr", array(links));
    let r = m.object();
    assert(r@->Object_0 =~= obs_json(o@)->Object_0);
    r
}

/// Writes the observations of a batch as a JSON value.
pub fn batch_value(obs: &Vec<IngestObs>) -> (r: Json)
    ensures
        r@ == batch_json(ingestobs_views(obs@)),
{
    let mut list: Vec<Json> = Vec::new();
    let mut i: usize = 0;
    while i < obs.len()
        invariant
            i <= obs@.len(),
            list@.len() == i,
            forall|k: int| 0 <= k < i ==> (#[trigger] list@[k])@ == obs_json(obs@[k]@),
        decreases obs@.len() - i,
    {
        list.push(obs_value(&obs[i]));
        i += 1;
    }
    assert(json_views(list@) =~= ingestobs_views(obs@).map_values(
        |o: IngestObsView| obs_json(o),
    ));
    array(list)
}

/// The fingerprint of a batch: the one that it names, else one of its
/// observations.
pub open spec fn batch_fingerprint(req: IngestReqView, d: Decimals) -> Seq<char> {
    match req.fingerprint {
        Some(fp) => fp,
        None => fingerprint(
            framed(
                seq![
                    barred(seq!["batch-v1"@]),
                    canonical_text(batch_json(req.observations), d, Quoting::Plain),
                ],
            ),
        ),
    }
}

/// The fingerprint of a batch: its own, or that of what it holds.
pub fn fingerprint_of(req: &IngestReq, d: &Decimals) -> (r: String)
    ensures
        r@ == batch_fingerprint(req@, *d),
{
    match &req.fingerprint {
        Some(fp) => fp.clone(),
        None => {
            let parts: [&str; 1] = ["batch-v1"];
            assert(slices(parts@) =~= seq!["batch-v1"@]);
            let value = batch_value(&req.observations);
            json_fingerprint(&parts, &value, d)
        },
    }
}

// ---------- What a batch must be ----------

/// A message about an observation of a batch.
pub open spec fn about(i: int, what: Seq<char>) -> Seq<char> {
    "observation "@ + decimal_text(i as nat) + what
}

fn message_about(i: usize, what: &str) -> (r: String)
    ensures
        r@ == about(i as int, what@),
{
    let mut m = "observation ".to_owned();
    m.append(decimal(i as u64).as_str());
    m.append(what);
    m
}

/// What is wrong with a delay of the observation `i` of `n`.
pub open spec fn link_objection(x: IngestXcorrView, i: int, n: int) -> Option<Seq<char>> {
    if x.obs_index >= n || x.obs_index == i {
        Some(about(i, " has an out-of-range xcorr link"@))
    } else if !x.sigma_s.finite() || x.sigma_s.up_to(Double { bits: 0 }) {
        Some(about(i, " has invalid xcorr sigma"@))
    } else {
        None
    }
}

/// The first thing that is wrong with the delays of an observation.
pub open spec fn first_link_objection(links: Seq<IngestXcorrView>, i: int, n: int) -> Option<
    Seq<char>,
>
    decreases links.len(),
{
    if links.len() == 0 {
        None
    } else if link_objection(links[0], i, n) is Some {
        link_objection(links[0], i, n)
    } else {
        first_link_objection(links.drop_first(), i, n)
    }
}

/// What is wrong with the observation `i` of `n`.
pub open spec fn obs_objection(o: IngestObsView, i: int, n: int) -> Option<Seq<char>> {
    if !o.local_onset_s.finite() || !o.t_device.finite() {
        Some(about(i, " has non-finite time fields"@))
    } else if o.peak_band_hz.below(Double { bits: 0 }) || !o.snr_db.finite() {
        Some(about(i, " has invalid band/SNR"@))
    } else {
        first_link_objection(o.xcorr, i, n)
    }
}

/// The first thing that is wrong with the observations from `from` on.
pub open spec fn first_objection(obs: Seq<IngestObsView>, from: int) -> Option<Seq<char>>
    decreases obs.len() - from,
{
    if from >= obs.len() {
        None
    } else if obs_objection(obs[from], from, obs.len() as int) is Some {
        obs_objection(obs[from], from, obs.len() as int)
    } else {
        first_objection(obs, from + 1)
    }
}

/// Why a batch is refused for itself.
pub open spec fn batch_objection(obs: Seq<IngestObsView>) -> Option<Seq<char>> {
    if obs.len() == 0 {
        Some("batch contains no observations"@)
    } else {
        first_objection(obs, 0)
    }
}

fn check_links(links: &Vec<IngestXcorr>, i: usize, n: usize) -> (r: Result<(), String>)
    ensures
        match r {
            Ok(_) => first_link_objection(ingestxcorr_views(links@), i as int, n as int) is None,
            Err(m) => first_link_objection(ingestxcorr_views(links@), i as int, n as int) == Some(
                m@,
            ),
        },
{
    let ghost all = ingestxcorr_views(links@);
    let mut j: usize = 0;
    assert(all.skip(0) =~= all);
    while j < links.len()
        invariant
            j <= links@.len(),
            all == ingestxcorr_views(links@),
            first_link_objection(all, i as int, n as int) == first_link_objection(
                all.skip(j as int),
                i as int,
                n as int,
            ),
        decreases links@.len() - j,
    {
        let x = &links[j];
        assert(all.skip(j as int)[0] == x@);
        if x.obs_index >= n || x.obs_index == i {
            return Err(message_about(i, " has an out-of-range xcorr link"));
        }
        if !x.sigma_s.is_finite() || x.sigma_s.is_up_to(Double { bits: 0 }) {
            return Err(message_about(i, " has invalid xcorr sigma"));
        }
        assert(all.skip(j as int).drop_first() =~= all.skip(j + 1));
        j += 1;
    }
    Ok(())
}

/// Checks the observations of a batch.
pub fn check_batch(obs: &Vec<IngestObs>) -> (r: Result<(), String>)
    ensures
        match r {
            Ok(_) => batch_objection(ingestobs_views(obs@)) is None,
            Err(m) => batch_objection(ingestobs_views(obs@)) == Some(m@),
        },
{
    if obs.len() == 0 {
        return Err("batch contains no observations".to_owned());
    }
    let ghost all = ingestobs_views(obs@);
    let mut i: usize = 0;
    while i < obs.len()
        invariant
            i <= obs@.len(),
            all == ingestobs_views(obs@),
            first_objection(all, 0) == first_objection(all, i as int),
        decreases obs@.len() - i,
    {
        let o = &obs[i];
        assert(all[i as int] == o@);
        if !o.local_onset_s.is_finite() || !o.t_device.is_finite() {
            return Err(message_about(i, " has non-finite time fields"));
        }
        if o.peak_band_hz.is_below(Double { bits: 0 }) || !o.snr_db.is_finite() {
            return Err(message_about(i, " has invalid band/SNR"));
        }
        match check_links(&o.xcorr, i, obs.len()) {
            Ok(_) => {},
            Err(m) => {
                return Err(m);
            },
        }
        i += 1;
    }
    Ok(())
}

// ---------- What is entered ----------

/// An observation as it is kept.
pub open spec fn obs_row(fp: Seq<char>, o: IngestObsView, id: int, place: int) -> ObsRowView {
    ObsRowView {
        obs_id: id,
        batch_fp: fp,
        station_id: o.station_id,
        event_ref: o.event_ref,
        t_device: o.t_device,
        local_onset_s: o.local_onset_s,
        peak_band_hz: o.peak_band_hz,
        snr_db: o.snr_db,
        created_seq: place,
    }
}

/// The observations of a batch as they are kept, numbered from the next number
/// on.
pub open spec fn obs_rows(last: int, fp: Seq<char>, obs: Seq<IngestObsView>) -> Seq<ObsRowView> {
    Seq::new(obs.len(), |k: int| obs_row(fp, obs[k], last + 1 + k, k))
}

/// A delay between two observations of a batch, the one that stands first in
/// the batch first.
#[verifier::ext_equal]
pub ghost struct BatchLink {
    pub a: int,
    pub b: int,
    pub x: IngestXcorrView,
}

/// The delays that the observation `i` names.
pub open spec fn links_from(o: IngestObsView, i: int) -> Seq<BatchLink> {
    o.xcorr.map_values(
        |x: IngestXcorrView|
            if i < x.obs_index {
                BatchLink { a: i, b: x.obs_index, x }
            } else {
                BatchLink { a: x.obs_index, b: i, x }
            },
    )
}

/// The delays that the first `n` observations name.
pub open spec fn batch_links(obs: Seq<IngestObsView>, n: int) -> Seq<BatchLink>
    decreases n,
{
    if n <= 0 {
        Seq::empty()
    } else {
        batch_links(obs, n - 1) + links_from(obs[n - 1], n - 1)
    }
}

/// A delay as it is kept.
pub open spec fn link_row(l: BatchLink, id: int, last_obs: int) -> XcorrRowView {
    XcorrRowView {
        xc_id: id,
        obs_a: last_obs + 1 + l.a,
        obs_b: last_obs + 1 + l.b,
        delay_s: l.x.delay_s,
        sigma_s: l.x.sigma_s,
        peak_index: l.x.peak_index,
        multipath: l.x.multipath,
    }
}

/// The delays of a batch as they are kept.
pub open spec fn link_rows(last: int, last_obs: int, links: Seq<BatchLink>) -> Seq<XcorrRowView> {
    Seq::new(links.len(), |k: int| link_row(links[k], last + 1 + k, last_obs))
}

/// The first reason why observations cannot be kept.
pub open spec fn first_row_fault(v: DbView, obs: Seq<IngestObsView>, from: int) -> Option<Seq<char>>
    decreases obs.len() - from,
{
    if from >= obs.len() {
        None
    } else if !has_station(v.stations, obs[from].station_id) {
        Some("unknown station_id '"@ + obs[from].station_id + "'"@)
    } else if v.last_obs + from >= i64::MAX {
        Some("database or disk is full"@)
    } else if obs[from].peak_band_hz.nan() {
        Some("NOT NULL constraint failed: observations.peak_band_hz"@)
    } else {
        first_row_fault(v, obs, from + 1)
    }
}

/// The first reason why delays cannot be kept.
pub open spec fn first_link_fault(last: int, links: Seq<BatchLink>, from: int) -> Option<Seq<char>>
    decreases links.len() - from,
{
    if from >= links.len() {
        None
    } else if last + from >= i64::MAX {
        Some("database or disk is full"@)
    } else if links[from].x.delay_s.nan() {
        Some("NOT NULL constraint failed: xcorr_delays.delay_s"@)
    } else {
        first_link_fault(last, links, from + 1)
    }
}

/// When a batch was received.
pub open spec fn received(req: IngestReqView, now: Double) -> Double {
    match req.received_at {
        Some(t) => t,
        None => now,
    }
}

/// Why a batch that is not known yet cannot be kept.
pub open spec fn keeping_fault(v: DbView, req: IngestReqView, now: Double) -> Option<Seq<char>> {
    if received(req, now).nan() {
        Some("NOT NULL constraint failed: batches.received_at"@)
    } else {
        match first_row_fault(v, req.observations, 0) {
            Some(m) => Some(m),
            None => first_link_fault(
                v.last_xcorr,
                batch_links(req.observations, req.observations.len() as int),
                0,
            ),
        }
    }
}

/// Why a batch is not taken in.
pub open spec fn ingest_objection(
    v: DbView,
    req: IngestReqView,
    now: Double,
    d: Decimals,
) -> Option<
    Seq<char>,
> {
    match batch_objection(req.observations) {
        Some(m) => Some(m),
        None => if has_batch(v.batches, batch_fingerprint(req, d)) {
            None
        } else {
            keeping_fault(v, req, now)
        },
    }
}

/// The observations as the batch keeps them.
pub open spec fn payload_json(obs: Seq<IngestObsView>) -> JsonView {
    JsonView::Object(seq![("observations"@, batch_json(obs)), ("received_at"@, JsonView::Null)])
}

/// The tables with a batch. One that is known stays as it is.
pub open spec fn with_batch(v: DbView, req: IngestReqView, now: Double, d: Decimals) -> DbView {
    let fp = batch_fingerprint(req, d);
    let obs = req.observations;
    let links = batch_links(obs, obs.len() as int);
    if has_batch(v.batches, fp) {
        v
    } else {
        DbView {
            batches: v.batches.push(
                BatchRowView {
                    fingerprint: fp,
                    received_at: received(req, now),
                    payload_json: canonical_text(payload_json(obs), d, Quoting::Plain),
                },
            ),
            observations: v.observations + obs_rows(v.last_obs, fp, obs),
            last_obs: v.last_obs + obs.len(),
            xcorrs: v.xcorrs + link_rows(v.last_xcorr, v.last_obs, links),
            last_xcorr: v.last_xcorr + links.len(),
            ..v
        }
    }
}

/// The observations of a batch.
pub open spec fn in_batch(fp: Seq<char>) -> spec_fn(ObsRowView) -> bool {
    |o: ObsRowView| o.batch_fp == fp
}

/// The numbers of the observations of a batch, in order.
pub open spec fn batch_ids(v: DbView, fp: Seq<char>) -> Seq<int> {
    v.observations.filter(in_batch(fp)).map_values(|o: ObsRowView| o.obs_id)
}

/// What a list of numbers says.
pub open spec fn ids(s: Seq<i64>) -> Seq<int> {
    s.map_values(|n: i64| n as int)
}

fn stored_ids(rows: &Vec<ObsRow>, fp: &str) -> (r: Vec<i64>)
    ensures
        ids(r@) == obsrow_views(rows@).filter(in_batch(fp@)).map_values(|o: ObsRowView| o.obs_id),
{
    let ghost all = obsrow_views(rows@);
    let ghost pick = in_batch(fp@);
    let ghost id = |o: ObsRowView| o.obs_id;
    let mut out: Vec<i64> = Vec::new();
    let mut i: usize = 0;
    proof {
        reveal(Seq::filter);
        assert(all.take(0) =~= Seq::empty());
    }
    assert(ids(out@) =~= all.take(0).filter(pick).map_values(id));
    while i < rows.len()
        invariant
            i <= rows@.len(),
            all == obsrow_views(rows@),
            pick == in_batch(fp@),
            id == (|o: ObsRowView| o.obs_id),
            ids(out@) == all.take(i as int).filter(pick).map_values(id),
        decreases rows@.len() - i,
    {
        let x = &rows[i];
        let ghost before = ids(out@);
        let ghost f = all.take(i as int).filter(pick);
        assert(all.take(i + 1) =~= all.take(i as int).push(x@));
        proof {
            filter_of_push(all.take(i as int), x@, pick);
        }
        if same(x.batch_fp.as_str(), fp) {
            assert(pick(x@));
            out.push(x.obs_id);
            assert(ids(out@) =~= before.push(x@.obs_id));
            assert(f.push(x@).map_values(id) =~= f.map_values(id).push(x@.obs_id));
        } else {
            assert(!pick(x@));
        }
        i += 1;
    }
    assert(all.take(i as int) =~= all);
    out
}

/// Where nothing is wrong with the delays of an observation, nothing is wrong
/// with each.
proof fn no_link_objection(links: Seq<IngestXcorrView>, i: int, n: int, k: int)
    requires
        first_link_objection(links, i, n) is None,
        0 <= k < links.len(),
    ensures
        link_objection(links[k], i, n) is None,
    decreases links.len(),
{
    if k > 0 {
        no_link_objection(links.drop_first(), i, n, k - 1);
        assert(links.drop_first()[k - 1] == links[k]);
    }
}

/// Where nothing is wrong with a batch, nothing is wrong with each observation.
proof fn no_obs_objection(obs: Seq<IngestObsView>, from: int, k: int)
    requires
        first_objection(obs, from) is None,
        0 <= from <= k < obs.len(),
    ensures
        obs_objection(obs[k], k, obs.len() as int) is None,
    decreases obs.len() - from,
{
    if k > from {
        no_obs_objection(obs, from + 1, k);
    }
}

/// The delays of a batch name observations by numbers of items.
pub open spec fn indexed(obs: Seq<IngestObsView>) -> bool {
    forall|i: int, k: int|
        0 <= i < obs.len() && 0 <= k < obs[i].xcorr.len() ==> (#[trigger] obs[i].xcorr[k]).obs_index
            >= 0
}

/// The delays of a sound batch join two different observations of it, the
/// earlier one first.
proof fn batch_links_join_observations(obs: Seq<IngestObsView>, n: int)
    requires
        batch_objection(obs) is None,
        indexed(obs),
        0 <= n <= obs.len(),
    ensures
        forall|k: int|
            0 <= k < batch_links(obs, n).len() ==> 0 <= (#[trigger] batch_links(obs, n)[k]).a
                < batch_links(obs, n)[k].b < obs.len(),
    decreases n,
{
    if n > 0 {
        batch_links_join_observations(obs, n - 1);
        let more = links_from(obs[n - 1], n - 1);
        no_obs_objection(obs, 0, n - 1);
        assert forall|k: int| 0 <= k < more.len() implies 0 <= (#[trigger] more[k]).a < more[k].b
            < obs.len() by {
            no_link_objection(obs[n - 1].xcorr, n - 1, obs.len() as int, k);
            assert(obs[n - 1].xcorr[k].obs_index >= 0);
        }
        let before = batch_links(obs, n - 1);
        let all = batch_links(obs, n);
        assert(all == before + more);
        assert forall|k: int| 0 <= k < all.len() implies 0 <= (#[trigger] all[k]).a < all[k].b
            < obs.len() by {
            if k < before.len() {
                assert(all[k] == before[k]);
            } else {
                assert(all[k] == more[k - before.len()]);
            }
        }
    }
}

/// Keys that are known stay known when rows are added.
proof fn added_rows_keep_keys(v: DbView, w: DbView)
    requires
        v.batches.is_prefix_of(w.batches),
        v.observations.is_prefix_of(w.observations),
    ensures
        forall|k: Seq<char>| has_batch(v.batches, k) ==> has_batch(w.batches, k),
        forall|k: int| has_obs(v.observations, k) ==> has_obs(w.observations, k),
{
    assert forall|k: Seq<char>| has_batch(v.batches, k) implies has_batch(w.batches, k) by {
        let i = choose|i: int| 0 <= i < v.batches.len()
            && (#[trigger] v.batches[i]).fingerprint == k;
        assert(w.batches[i].fingerprint == k);
    }
    assert forall|k: int| has_obs(v.observations, k) implies has_obs(w.observations, k) by {
        let i = choose|i: int|
            0 <= i < v.observations.len() && (#[trigger] v.observations[i]).obs_id == k;
        assert(w.observations[i].obs_id == k);
    }
}

/// Where nothing keeps the observations from being entered, their stations are
/// known.
proof fn no_row_fault(v: DbView, obs: Seq<IngestObsView>, from: int, k: int)
    requires
        first_row_fault(v, obs, from) is None,
        0 <= from <= k < obs.len(),
    ensures
        has_station(v.stations, obs[k].station_id),
        v.last_obs + k < i64::MAX,
        !obs[k].peak_band_hz.nan(),
    decreases obs.len() - from,
{
    if k > from {
        no_row_fault(v, obs, from + 1, k);
    }
}

/// The tables keep the rules when a batch is taken in.
proof fn batch_keeps_the_rules(v: DbView, req: IngestReqView, now: Double, d: Decimals)
    requires
        v.valid(),
        ingest_objection(v, req, now, d) is None,
        indexed(req.observations),
    ensures
        with_batch(v, req, now, d).valid(),
{
    let fp = batch_fingerprint(req, d);
    let w = with_batch(v, req, now, d);
    let obs = req.observations;
    if !has_batch(v.batches, fp) {
        let n = v.observations.len() as int;
        let m = v.xcorrs.len() as int;
        let links = batch_links(obs, obs.len() as int);
        added_rows_keep_keys(v, w);
        batch_links_join_observations(obs, obs.len() as int);
        assert(w.batches[v.batches.len() as int].fingerprint == fp);
        assert(has_batch(w.batches, fp));
        assert forall|i: int| 0 <= i < w.observations.len() implies {
            &&& 1 <= (#[trigger] w.observations[i]).obs_id <= w.last_obs
            &&& has_batch(w.batches, w.observations[i].batch_fp)
            &&& has_station(w.stations, w.observations[i].station_id)
            &&& w.observations[i].local_onset_s.finite()
        } by {
            if i < n {
                assert(w.observations[i] == v.observations[i]);
            } else {
                assert(w.observations[i]
                    == obs_row(fp, obs[i - n], v.last_obs + 1 + (i - n), i - n));
                no_row_fault(v, obs, 0, i - n);
                no_obs_objection(obs, 0, i - n);
            }
        }
        assert forall|i: int, j: int| 0 <= i < j < w.observations.len() implies (
        #[trigger] w.observations[i]).obs_id < (#[trigger] w.observations[j]).obs_id by {
            if j < n {
                assert(v.observations[i].obs_id < v.observations[j].obs_id);
            } else if i < n {
                assert(v.observations[i].obs_id <= v.last_obs);
            }
        }
        assert forall|k: int| 0 <= k < obs.len() implies has_obs(
            w.observations,
            #[trigger] (v.last_obs + 1 + k),
        ) by {
            assert(w.observations[n + k].obs_id == v.last_obs + 1 + k);
        }
        assert forall|i: int| 0 <= i < w.xcorrs.len() implies {
            &&& 1 <= (#[trigger] w.xcorrs[i]).xc_id <= w.last_xcorr
            &&& w.xcorrs[i].obs_a != w.xcorrs[i].obs_b
            &&& has_obs(w.observations, w.xcorrs[i].obs_a)
            &&& has_obs(w.observations, w.xcorrs[i].obs_b)
        } by {
            if i < m {
                assert(w.xcorrs[i] == v.xcorrs[i]);
            } else {
                let l = links[i - m];
                assert(w.xcorrs[i] == link_row(l, v.last_xcorr + 1 + (i - m), v.last_obs));
                assert(has_obs(w.observations, v.last_obs + 1 + l.a));
                assert(has_obs(w.observations, v.last_obs + 1 + l.b));
            }
        }
        assert forall|i: int, j: int| 0 <= i < j < w.xcorrs.len() implies (
            #[trigger] w.xcorrs[i]).xc_id
            < (#[trigger] w.xcorrs[j]).xc_id by {
            if j < m {
                assert(v.xcorrs[i].xc_id < v.xcorrs[j].xc_id);
            } else if i < m {
                assert(v.xcorrs[i].xc_id <= v.last_xcorr);
            }
        }
    }
}

fn new_obs_rows(db: &Db, fp: &str, obs: &Vec<IngestObs>) -> (r: Result<Vec<ObsRow>, String>)
    requires
        db@.valid(),
    ensures
        match r {
            Ok(rows) => first_row_fault(db@, ingestobs_views(obs@), 0) is None && obsrow_views(
                rows@,
            ) == obs_rows(db@.last_obs, fp@, ingestobs_views(obs@)),
            Err(m) => first_row_fault(db@, ingestobs_views(obs@), 0) == Some(m@),
        },
{
    let ghost v = db@;
    let ghost all = ingestobs_views(obs@);
    let mut rows: Vec<ObsRow> = Vec::new();
    let mut i: usize = 0;
    while i < obs.len()
        invariant
            i <= obs@.len(),
            v == db@,
            v.valid(),
            all == ingestobs_views(obs@),
            rows@.len() == i,
            forall|k: int|
                0 <= k < i ==> (#[trigger] rows@[k])@ == obs_row(
                    fp@,
                    all[k],
                    v.last_obs + 1 + k,
                    k,
                ),
            first_row_fault(v, all, 0) == first_row_fault(v, all, i as int),
        decreases obs@.len() - i,
    {
        let o = &obs[i];
        assert(all[i as int] == o@);
        if !knows_station(&db.stations, o.station_id.as_str()) {
            let mut m = "unknown station_id '".to_owned();
            m.append(o.station_id.as_str());
            m.append("'");
            return Err(m);
        }
        let left: u64 = (i64::MAX - db.last_obs) as u64;
        if i as u64 >= left {
            return Err("database or disk is full".to_owned());
        }
        if o.peak_band_hz.is_nan() {
            return Err("NOT NULL constraint failed: observations.peak_band_hz".to_owned());
        }
        let place: i64 = i as i64;
        rows.push(
            ObsRow {
                obs_id: db.last_obs + 1 + place,
                batch_fp: fp.to_owned(),
                station_id: o.station_id.clone(),
                event_ref: copy_option(&o.event_ref),
                t_device: o.t_device,
                local_onset_s: o.local_onset_s,
                peak_band_hz: o.peak_band_hz,
                snr_db: o.snr_db,
                created_seq: place,
            },
        );
        i += 1;
    }
    assert(obsrow_views(rows@) =~= obs_rows(v.last_obs, fp@, all));
    Ok(rows)
}

/// The links from `n` on leave those before as they are.
proof fn links_grow(obs: Seq<IngestObsView>, n: int, m: int)
    requires
        0 <= n <= m,
    ensures
        batch_links(obs, n).is_prefix_of(batch_links(obs, m)),
    decreases m,
{
    if n < m {
        links_grow(obs, n, m - 1);
    }
}

fn new_link_rows(db: &Db, obs: &Vec<IngestObs>) -> (r: Result<Vec<XcorrRow>, String>)
    requires
        db@.valid(),
        batch_objection(ingestobs_views(obs@)) is None,
        first_row_fault(db@, ingestobs_views(obs@), 0) is None,
        indexed(ingestobs_views(obs@)),
    ensures
        ({
            let links = batch_links(ingestobs_views(obs@), obs@.len() as int);
            match r {
                Ok(rows) => first_link_fault(db@.last_xcorr, links, 0) is None && xcorrrow_views(
                    rows@,
                ) == link_rows(db@.last_xcorr, db@.last_obs, links) && db@.last_xcorr + rows@.len()
                    <= i64::MAX,
                Err(m) => first_link_fault(db@.last_xcorr, links, 0) == Some(m@),
            }
        }),
{
    let ghost v = db@;
    let ghost all = ingestobs_views(obs@);
    let ghost links = batch_links(all, all.len() as int);
    let mut rows: Vec<XcorrRow> = Vec::new();
    let mut i: usize = 0;
    proof {
        batch_links_join_observations(all, all.len() as int);
    }
    while i < obs.len()
        invariant
            i <= obs@.len(),
            v == db@,
            v.valid(),
            all == ingestobs_views(obs@),
            links == batch_links(all, all.len() as int),
            indexed(all),
            first_row_fault(v, all, 0) is None,
            forall|k: int|
                0 <= k < links.len() ==> 0 <= (#[trigger] links[k]).a < links[k].b < all.len(),
            rows@.len() == batch_links(all, i as int).len(),
            v.last_xcorr + rows@.len() <= i64::MAX,
            forall|k: int|
                0 <= k < rows@.len() ==> (#[trigger] rows@[k])@ == link_row(
                    links[k],
                    v.last_xcorr + 1 + k,
                    v.last_obs,
                ),
            first_link_fault(v.last_xcorr, links, 0) == first_link_fault(
                v.last_xcorr,
                links,
                rows@.len() as int,
            ),
        decreases obs@.len() - i,
    {
        let o = &obs[i];
        assert(all[i as int] == o@);
        let ghost start = rows@.len() as int;
        let ghost mine = links_from(o@, i as int);
        let mut j: usize = 0;
        proof {
            links_grow(all, i + 1, all.len() as int);
        }
        while j < o.xcorr.len()
            invariant
                i < obs@.len(),
                j <= o.xcorr@.len(),
                o == &obs@[i as int],
                all[i as int] == o@,
                mine == links_from(o@, i as int),
                v == db@,
                v.valid(),
                all == ingestobs_views(obs@),
                links == batch_links(all, all.len() as int),
                batch_links(all, i + 1).is_prefix_of(links),
                batch_links(all, i + 1) == batch_links(all, i as int) + mine,
                start == batch_links(all, i as int).len(),
                indexed(all),
                first_row_fault(v, all, 0) is None,
                forall|k: int|
                    0 <= k < links.len() ==> 0 <= (#[trigger] links[k]).a < links[k].b < all.len(),
                rows@.len() == start + j,
                v.last_xcorr + rows@.len() <= i64::MAX,
                forall|k: int|
                    0 <= k < rows@.len() ==> (#[trigger] rows@[k])@ == link_row(
                        links[k],
                        v.last_xcorr + 1 + k,
                        v.last_obs,
                    ),
                first_link_fault(v.last_xcorr, links, 0) == first_link_fault(
                    v.last_xcorr,
                    links,
                    rows@.len() as int,
                ),
            decreases o.xcorr@.len() - j,
        {
            let x = &o.xcorr[j];
            let ghost at = rows@.len() as int;
            assert(o@.xcorr[j as int] == x@);
            assert(mine[j as int] == batch_links(all, i + 1)[at]);
            assert(links[at] == mine[j as int]);
            let n: usize = rows.len();
            let left: u64 = (i64::MAX - db.last_xcorr) as u64;
            if n as u64 >= left {
                return Err("database or disk is full".to_owned());
            }
            if x.delay_s.is_nan() {
                return Err("NOT NULL constraint failed: xcorr_delays.delay_s".to_owned());
            }
            let (a, b): (usize, usize) = if i < x.obs_index {
                (i, x.obs_index)
            } else {
                (x.obs_index, i)
            };
            proof {
                no_row_fault(v, all, 0, a as int);
                no_row_fault(v, all, 0, b as int);
            }
            rows.push(
                XcorrRow {
                    xc_id: db.last_xcorr + 1 + n as i64,
                    obs_a: db.last_obs + 1 + a as i64,
                    obs_b: db.last_obs + 1 + b as i64,
                    delay_s: x.delay_s,
                    sigma_s: x.sigma_s,
                    peak_index: x.peak_index,
                    multipath: x.multipath,
                },
            );
            j += 1;
        }
        i += 1;
    }
    assert(xcorrrow_views(rows@) =~= link_rows(v.last_xcorr, v.last_obs, links));
    Ok(rows)
}

/// Takes in a batch. A batch that is known enters nothing; one of which a part
/// cannot be kept is not kept at all.
pub fn ingest(
    db: &mut Db,
    req: &IngestReq,
    now: Double,
    d: &Decimals,
) -> (r: Result< IngestResult, String, >)
    requires
        old(db)@.valid(),
    ensures
        final(db)@.valid(),
        match r {
            Ok(res) => {
                &&& ingest_objection(old(db)@, req@, now, *d) is None
                &&& final(db)@ == with_batch(old(db)@, req@, now, *d)
                &&& res.fingerprint@ == batch_fingerprint(req@, *d)
                &&& res.already_present == has_batch(old(db)@.batches, res.fingerprint@)
                &&& ids(res.observation_ids@) == batch_ids(final(db)@, res.fingerprint@)
            },
            Err(m) => ingest_objection(old(db)@, req@, now, *d) == Some(m@) && final(db)@ == old(
                db,
            )@,
        },
{
    let ghost v = db@;
    let ghost all = ingestobs_views(req.observations@);
    assert(indexed(all)) by {
        assert forall|i: int, k: int| 0 <= i < all.len() && 0 <= k < all[i].xcorr.len() implies (
        #[trigger] all[i].xcorr[k]).obs_index >= 0 by {
            assert(all[i] == req.observations@[i]@);
            assert(all[i].xcorr[k] == req.observations@[i].xcorr@[k]@);
        }
    }
    match check_batch(&req.observations) {
        Ok(_) => {},
        Err(m) => {
            return Err(m);
        },
    }
    let fp = fingerprint_of(req, d);
    if knows_batch(&db.batches, fp.as_str()) {
        let known = stored_ids(&db.observations, fp.as_str());
        return Ok(IngestResult { fingerprint: fp, already_present: true, observation_ids: known });
    }
    let when = match req.received_at {
        Some(t) => t,
        None => now,
    };
    if when.is_nan() {
        return Err("NOT NULL constraint failed: batches.received_at".to_owned());
    }
    let mut rows = match new_obs_rows(db, fp.as_str(), &req.observations) {
        Ok(rows) => rows,
        Err(m) => {
            return Err(m);
        },
    };
    let mut links = match new_link_rows(db, &req.observations) {
        Ok(links) => links,
        Err(m) => {
            return Err(m);
        },
    };
    let mut m = Members::new();
    m.put("observations", batch_value(&req.observations));
    m.put("received_at", Json::Null);
    let payload = m.object();
    assert(payload@->Object_0 =~= payload_json(all)->Object_0);
    proof {
        batch_keeps_the_rules(v, req@, now, *d);
    }
    let ghost want = with_batch(v, req@, now, *d);
    let n: usize = rows.len();
    let k: usize = links.len();
    proof {
        no_row_fault(v, all, 0, all.len() - 1);
    }
    let ghost row_views = obsrow_views(rows@);
    let ghost link_views = xcorrrow_views(links@);
    db.batches.push(
        BatchRow {
            fingerprint: fp.clone(),
            received_at: when,
            payload_json: canonical_json(&payload, d),
        },
    );
    db.observations.append(&mut rows);
    db.xcorrs.append(&mut links);
    db.last_obs = db.last_obs + n as i64;
    db.last_xcorr = db.last_xcorr + k as i64;
    assert(db@.batches =~= want.batches);
    assert(db@.observations =~= v.observations + row_views);
    assert(db@.xcorrs =~= v.xcorrs + link_views);
    assert(db@ == want);
    let new = stored_ids(&db.observations, fp.as_str());
    Ok(IngestResult { fingerprint: fp, already_present: false, observation_ids: new })
}

/// A batch that is sent again changes nothing, and the same numbers come back.
pub proof fn a_batch_is_taken_in_once(
    v: DbView,
    req: IngestReqView,
    first: Double,
    second: Double,
    d: Decimals,
)
    requires
        ingest_objection(v, req, first, d) is None,
    ensures
        ({
            let w = with_batch(v, req, first, d);
            &&& has_batch(w.batches, batch_fingerprint(req, d))
            &&& ingest_objection(w, req, second, d) is None
            &&& with_batch(w, req, second, d) == w
        }),
{
    let w = with_batch(v, req, first, d);
    if !has_batch(v.batches, batch_fingerprint(req, d)) {
        assert(w.batches[v.batches.len() as int].fingerprint == batch_fingerprint(req, d));
    }
}

/// Taking in a batch changes nothing that was there: it only adds batches,
/// observations and delays.
pub proof fn a_batch_only_adds(v: DbView, req: IngestReqView, now: Double, d: Decimals)
    ensures
        ({
            let w = with_batch(v, req, now, d);
            &&& v.batches.is_prefix_of(w.batches)
            &&& v.observations.is_prefix_of(w.observations)
            &&& v.xcorrs.is_prefix_of(w.xcorrs)
            &&& w == (DbView {
                batches: w.batches,
                observations: w.observations,
                xcorrs: w.xcorrs,
                last_obs: w.last_obs,
                last_xcorr: w.last_xcorr,
                ..v
            })
        }),
{
}

/// A batch that was not known gets the next numbers, in the order in which its
/// observations stand.
pub proof fn a_new_batch_gets_the_next_numbers(
    v: DbView,
    req: IngestReqView,
    now: Double,
    d: Decimals,
)
    requires
        v.valid(),
        !has_batch(v.batches, batch_fingerprint(req, d)),
    ensures
        batch_ids(with_batch(v, req, now, d), batch_fingerprint(req, d)) == Seq::new(
            req.observations.len(),
            |k: int| v.last_obs + 1 + k,
        ),
{
    let fp = batch_fingerprint(req, d);
    let obs = req.observations;
    let new = obs_rows(v.last_obs, fp, obs);
    let pick = in_batch(fp);
    Seq::filter_distributes_over_add(v.observations, new, pick);
    let old_part = v.observations.filter(pick);
    if old_part.len() > 0 {
        picked_items_keep_their_order(v.observations, pick);
        let p = picked_positions(v.observations, pick);
        assert(old_part[0] == v.observations[p[0]] && pick(old_part[0]));
        assert(has_batch(v.batches, v.observations[p[0]].batch_fp));
    }
    assert(old_part =~= Seq::empty());
    all_are_picked(new, pick);
    assert(old_part + new =~= new);
}

/// Where all items are picked, nothing is left out.
proof fn all_are_picked<A>(s: Seq<A>, pick: spec_fn(A) -> bool)
    requires
        forall|i: int| 0 <= i < s.len() ==> pick(#[trigger] s[i]),
    ensures
        s.filter(pick) == s,
    decreases s.len(),
{
    reveal(Seq::filter);
    if s.len() > 0 {
        let rest = s.drop_last();
        assert forall|i: int| 0 <= i < rest.len() implies pick(#[trigger] rest[i]) by {
            assert(rest[i] == s[i]);
        }
        all_are_picked(rest, pick);
        assert(s =~= rest.push(s.last()));
    } else {
        assert(s.filter(pick) =~= s);
    }
}

} // verus!
