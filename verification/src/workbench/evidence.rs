//! What the analyst judges. It is appended and read by the next solve; it
//! changes no observation and no earlier candidate.
use vstd::prelude::*;
use vstd::string::*;

use crate::arrange::{
    arrange, arranged, no_number, one_number, picked_rows_differ, rows_of, said, PlaceView, Placed,
};
use crate::canon::{barred, canonical_text, json_fingerprint, Decimals, Quoting};
use crate::digest::{fingerprint, framed, slices};
use crate::double::Double;
use crate::json::{Json, JsonView};
use crate::order::filter_of_push;
use crate::text::same;
use crate::workbench::db::{
    evidencerow_views, has_event, has_evidence, knows_event, knows_evidence, Db, DbView,
    EvidenceRow, EvidenceRowView,
};
use crate::workbench::models::{EvidenceReq, EvidenceReqView};

verus! {

/// A judgement as a solve reads it.
#[derive(Debug)]
pub struct Evidence {
    pub content_id: String,
    pub kind: String,
    pub payload: Json,
}

/// What an [`Evidence`] says.
#[verifier::ext_equal]
pub ghost struct EvidenceView {
    pub content_id: Seq<char>,
    pub kind: Seq<char>,
    pub payload: JsonView,
}

impl View for Evidence {
    type V = EvidenceView;

    open spec fn view(&self) -> EvidenceView {
        EvidenceView { content_id: self.content_id@, kind: self.kind@, payload: self.payload@ }
    }
}

/// What a list of judgements says.
pub open spec fn evidence_views(s: Seq<Evidence>) -> Seq<EvidenceView> {
    s.map_values(|e: Evidence| e@)
}

/// The first of the fields that a payload lacks.
pub open spec fn first_missing(payload: JsonView, fields: Seq<Seq<char>>) -> Option<Seq<char>>
    decreases fields.len(),
{
    if fields.len() == 0 {
        None
    } else if payload.member(fields[0]) is None {
        Some(fields[0])
    } else {
        first_missing(payload, fields.drop_first())
    }
}

/// What a payload lacks of the fields that its kind asks for.
pub open spec fn fields_objection(payload: JsonView, fields: Seq<Seq<char>>) -> Option<Seq<char>> {
    if !(payload is Object) {
        Some("payload must be a JSON object"@)
    } else {
        match first_missing(payload, fields) {
            Some(f) => Some("payload missing field '"@ + f + "'"@),
            None => None,
        }
    }
}

/// Why a judgement is refused.
pub open spec fn evidence_objection(kind: Seq<char>, payload: JsonView) -> Option<Seq<char>> {
    if kind == "exclude_peak"@ {
        fields_objection(payload, seq!["station_a"@, "station_b"@, "peak_index"@])
    } else if kind == "lock_clock"@ {
        fields_objection(payload, seq!["station_id"@, "offset_s"@])
    } else if kind == "keep_pair"@ {
        fields_objection(payload, seq!["candidate_a_key"@, "candidate_b_key"@])
    } else {
        Some("unknown evidence kind '"@ + kind + "'"@)
    }
}

/// Checks that a payload is an object with the fields.
pub fn require_fields(payload: &Json, fields: &[&str]) -> (r: Result<(), String>)
    ensures
        match r {
            Ok(_) => fields_objection(payload@, slices(fields@)) is None,
            Err(m) => fields_objection(payload@, slices(fields@)) == Some(m@),
        },
{
    match payload {
        Json::Object(_) => {},
        _ => {
            return Err("payload must be a JSON object".to_owned());
        },
    }
    let ghost list = slices(fields@);
    let mut i: usize = 0;
    assert(list.skip(0) =~= list);
    while i < fields.len()
        invariant
            i <= fields@.len(),
            list == slices(fields@),
            payload@ is Object,
            first_missing(payload@, list) == first_missing(payload@, list.skip(i as int)),
        decreases fields@.len() - i,
    {
        assert(list.skip(i as int)[0] == fields@[i as int]@);
        if payload.get(fields[i]).is_none() {
            let mut m = "payload missing field '".to_owned();
            m.append(fields[i]);
            m.append("'");
            return Err(m);
        }
        assert(list.skip(i as int).drop_first() =~= list.skip(i + 1));
        i += 1;
    }
    Ok(())
}

/// Checks a judgement.
pub fn validate(kind: &str, payload: &Json) -> (r: Result<(), String>)
    ensures
        match r {
            Ok(_) => evidence_objection(kind@, payload@) is None,
            Err(m) => evidence_objection(kind@, payload@) == Some(m@),
        },
{
    if same(kind, "exclude_peak") {
        let fields: [&str; 3] = ["station_a", "station_b", "peak_index"];
        assert(slices(fields@) =~= seq!["station_a"@, "station_b"@, "peak_index"@]);
        require_fields(payload, &fields)
    } else if same(kind, "lock_clock") {
        let fields: [&str; 2] = ["station_id", "offset_s"];
        assert(slices(fields@) =~= seq!["station_id"@, "offset_s"@]);
        require_fields(payload, &fields)
    } else if same(kind, "keep_pair") {
        let fields: [&str; 2] = ["candidate_a_key", "candidate_b_key"];
        assert(slices(fields@) =~= seq!["candidate_a_key"@, "candidate_b_key"@]);
        require_fields(payload, &fields)
    } else {
        let mut m = "unknown evidence kind '".to_owned();
        m.append(kind);
        m.append("'");
        Err(m)
    }
}

/// The number of a judgement: a fingerprint of the event, the kind and the
/// payload, so that the same judgement has the same number.
pub open spec fn content_number(event_id: Seq<char>, req: EvidenceReqView, d: Decimals) -> Seq<
    char,
> {
    fingerprint(
        framed(
            seq![
                barred(seq!["evidence-v1"@, event_id, req.kind]),
                canonical_text(req.payload, d, Quoting::Plain),
            ],
        ),
    )
}

/// Why a judgement is not entered.
pub open spec fn add_objection(
    v: DbView,
    event_id: Seq<char>,
    req: EvidenceReqView,
    now: Double,
    d: Decimals,
) -> Option<Seq<char>> {
    match evidence_objection(req.kind, req.payload) {
        Some(m) => Some(m),
        None => if !has_evidence(v.evidence, content_number(event_id, req, d)) && !now.nan()
            && !has_event(v.events, event_id) {
            Some("FOREIGN KEY constraint failed"@)
        } else {
            None
        },
    }
}

/// The tables with a judgement. One that there is stays as it is.
pub open spec fn with_evidence(
    v: DbView,
    event_id: Seq<char>,
    req: EvidenceReqView,
    now: Double,
    d: Decimals,
) -> DbView {
    let id = content_number(event_id, req, d);
    if has_evidence(v.evidence, id) || now.nan() {
        v
    } else {
        DbView {
            evidence: v.evidence.push(
                EvidenceRowView {
                    content_id: id,
                    event_id,
                    kind: req.kind,
                    payload: req.payload,
                    created_at: now,
                },
            ),
            ..v
        }
    }
}

/// Appends a judgement and returns its number. Without a time nothing is
/// entered.
pub fn add_evidence(db: &mut Db, event_id: &str, req: &EvidenceReq, now: Double, d: &Decimals)
    -> (r: Result<String, String>)
    requires
        old(db)@.valid(),
    ensures
        final(db)@.valid(),
        match r {
            Ok(id) => add_objection(old(db)@, event_id@, req@, now, *d) is None && id@
                == content_number(event_id@, req@, *d) && final(db)@ == with_evidence(
                old(db)@,
                event_id@,
                req@,
                now,
                *d,
            ),
            Err(m) => add_objection(old(db)@, event_id@, req@, now, *d) == Some(m@) && final(db)@
                == old(db)@,
        },
{
    let ghost v = db@;
    match validate(req.kind.as_str(), &req.payload) {
        Ok(_) => {},
        Err(m) => {
            return Err(m);
        },
    }
    let parts: [&str; 3] = ["evidence-v1", event_id, req.kind.as_str()];
    assert(slices(parts@) =~= seq!["evidence-v1"@, event_id@, req@.kind]);
    let id = json_fingerprint(&parts, &req.payload, d);
    if knows_evidence(&db.evidence, id.as_str()) || now.is_nan() {
        return Ok(id);
    }
    if !knows_event(&db.events, event_id) {
        return Err("FOREIGN KEY constraint failed".to_owned());
    }
    db.evidence.push(
        EvidenceRow {
            content_id: id.clone(),
            event_id: event_id.to_owned(),
            kind: req.kind.clone(),
            payload: req.payload.copy(),
            created_at: now,
        },
    );
    assert(db@.evidence =~= with_evidence(v, event_id@, req@, now, *d).evidence);
    Ok(id)
}

/// The judgements of one event.
pub open spec fn of_event(id: Seq<char>) -> spec_fn(EvidenceRowView) -> bool {
    |e: EvidenceRowView| e.event_id == id
}

/// Judgements stand in the order in which they were entered; those entered at
/// one time stand by their numbers.
pub open spec fn by_time() -> spec_fn(EvidenceRowView) -> PlaceView {
    |e: EvidenceRowView|
        (seq![e.created_at.rank()], e.content_id, Seq::<char>::empty(), Seq::<int>::empty())
}

/// The rows of the judgements of an event, in order.
pub open spec fn evidence_rows(v: DbView, event_id: Seq<char>) -> Seq<EvidenceRowView> {
    arranged(v.evidence.filter(of_event(event_id)), by_time())
}

/// The judgements of an event, in order.
pub open spec fn evidence_of(v: DbView, event_id: Seq<char>) -> Seq<EvidenceView> {
    evidence_rows(v, event_id).map_values(
        |e: EvidenceRowView|
            EvidenceView { content_id: e.content_id, kind: e.kind, payload: e.payload },
    )
}

fn listed_evidence(db: &Db, event_id: &str) -> (r: Vec<EvidenceRow>)
    requires
        db@.valid(),
    ensures
        evidencerow_views(r@) == evidence_rows(db@, event_id@),
{
    let ghost all = evidencerow_views(db.evidence@);
    let ghost pick = of_event(event_id@);
    let ghost place = by_time();
    let mut out: Vec<Placed<EvidenceRow>> = Vec::new();
    let mut i: usize = 0;
    proof {
        reveal(Seq::filter);
        assert(all.take(0) =~= Seq::empty());
    }
    assert(rows_of(out@) =~= all.take(0).filter(pick));
    while i < db.evidence.len()
        invariant
            i <= db.evidence@.len(),
            all == evidencerow_views(db.evidence@),
            pick == of_event(event_id@),
            place == by_time(),
            db@.valid(),
            rows_of(out@) == all.take(i as int).filter(pick),
            forall|k: int|
                0 <= k < out@.len() ==> (#[trigger] out@[k]).place() == place(out@[k].item@),
        decreases db.evidence@.len() - i,
    {
        let x = &db.evidence[i];
        let ghost before = rows_of(out@);
        assert(all.take(i + 1) =~= all.take(i as int).push(x@));
        proof {
            filter_of_push(all.take(i as int), x@, pick);
        }
        if same(x.event_id.as_str(), event_id) {
            assert(pick(x@));
            out.push(
                Placed {
                    lead: one_number(x.created_at.rank_number()),
                    a: x.content_id.clone(),
                    b: String::new(),
                    tail: no_number(),
                    item: x.copy(),
                },
            );
            assert(rows_of(out@) =~= before.push(x@));
        } else {
            assert(!pick(x@));
        }
        i += 1;
    }
    assert(all.take(i as int) =~= all);
    proof {
        assert forall|j: int, k: int|
            0 <= j < k < all.len() && pick(#[trigger] all[j])
                && pick(#[trigger] all[k]) implies place(
            all[j],
        ) != place(all[k]) by {
            assert(all[j].content_id != all[k].content_id);
        }
        picked_rows_differ(all, pick, place);
        assert forall|j: int, k: int| 0 <= j < k < out@.len() implies (
            #[trigger] out@[j]).place() != (
        #[trigger] out@[k]).place() by {
            assert(rows_of(out@)[j] == out@[j].item@ && rows_of(out@)[k] == out@[k].item@);
        }
    }
    let r = arrange(out, Ghost(place));
    assert(evidencerow_views(r@) =~= said(r@));
    r
}

/// Lists the judgements of an event.
pub fn list_evidence(db: &Db, event_id: &str) -> (r: Vec<Evidence>)
    requires
        db@.valid(),
    ensures
        evidence_views(r@) == evidence_of(db@, event_id@),
{
    let rows = listed_evidence(db, event_id);
    let mut out: Vec<Evidence> = Vec::new();
    let mut i: usize = 0;
    while i < rows.len()
        invariant
            i <= rows@.len(),
            out@.len() == i,
            forall|k: int|
                0 <= k < i ==> (#[trigger] out@[k])@ == (EvidenceView {
                    content_id: rows@[k]@.content_id,
                    kind: rows@[k]@.kind,
                    payload: rows@[k]@.payload,
                }),
        decreases rows@.len() - i,
    {
        let e = &rows[i];
        out.push(
            Evidence {
                content_id: e.content_id.clone(),
                kind: e.kind.clone(),
                payload: e.payload.copy(),
            },
        );
        i += 1;
    }
    proof {
        let rv = evidencerow_views(rows@);
        assert forall|k: int| 0 <= k < rows@.len() implies rv[k] == rows@[k]@ by {}
        assert(evidence_views(out@) =~= evidence_of(db@, event_id@));
    }
    out
}

/// A judgement that is passed again changes nothing and has the number that it
/// had.
pub proof fn judging_again_changes_nothing(
    v: DbView,
    event_id: Seq<char>,
    req: EvidenceReqView,
    first: Double,
    second: Double,
    d: Decimals,
)
    requires
        add_objection(v, event_id, req, first, d) is None,
        !first.nan(),
    ensures
        ({
            let w = with_evidence(v, event_id, req, first, d);
            &&& has_evidence(w.evidence, content_number(event_id, req, d))
            &&& add_objection(w, event_id, req, second, d) is None
            &&& with_evidence(w, event_id, req, second, d) == w
        }),
{
    let w = with_evidence(v, event_id, req, first, d);
    if !has_evidence(v.evidence, content_number(event_id, req, d)) {
        assert(w.evidence[v.evidence.len() as int].content_id == content_number(event_id, req, d));
    }
}

/// A judgement changes no table but its own, and there it only appends: what
/// was observed, what was solved and what was judged before stays.
pub proof fn judgements_are_appended(
    v: DbView,
    event_id: Seq<char>,
    req: EvidenceReqView,
    now: Double,
    d: Decimals,
)
    ensures
        ({
            let w = with_evidence(v, event_id, req, now, d);
            &&& w == (DbView { evidence: w.evidence, ..v })
            &&& v.evidence.is_prefix_of(w.evidence)
        }),
{
}

} // verus!
