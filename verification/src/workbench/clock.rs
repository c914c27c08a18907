//! The clock model of the workbench: half-open segments `[start, end)` that do
//! not overlap.
//!
//! At the instant at which two segments touch the earlier one has ended and the
//! later one holds, so that at most one segment holds at any time.
use vstd::prelude::*;
use vstd::string::*;

use crate::arrange::{
    arrange, arranged, arrangement_holds_the_same, is_arrangement, no_number, one_number,
    picked_rows_differ, rows_of, said, PlaceView, Placed,
};
use crate::canon::Decimals;
use crate::double::Double;
use crate::order::filter_of_push;
use crate::text::same;
use crate::workbench::db::{has_station, knows_station, Db, DbView};
use crate::workbench::models::{
    clocksegment_views, ClockSegment, ClockSegmentReq, ClockSegmentReqView, ClockSegmentView,
};

verus! {

/// A segment holds at a time.
pub open spec fn covers(s: ClockSegmentView, t: Double) -> bool {
    s.start_s.up_to(t) && (s.end_s matches Some(e) ==> t.below(e))
}

/// The first segment that holds at a time.
pub open spec fn first_covering(segs: Seq<ClockSegmentView>, t: Double) -> Option<ClockSegmentView>
    decreases segs.len(),
{
    if segs.len() == 0 {
        None
    } else if covers(segs[0], t) {
        Some(segs[0])
    } else {
        first_covering(segs.drop_first(), t)
    }
}

/// Finds the segment that holds at a time.
pub fn segment_at(segs: &Vec<ClockSegment>, t: Double) -> (r: Option<&ClockSegment>)
    ensures
        match r {
            Some(s) => first_covering(clocksegment_views(segs@), t) == Some(s@),
            None => first_covering(clocksegment_views(segs@), t) is None,
        },
{
    let ghost all = clocksegment_views(segs@);
    let mut i: usize = 0;
    assert(all.skip(0) =~= all);
    while i < segs.len()
        invariant
            i <= segs@.len(),
            all == clocksegment_views(segs@),
            first_covering(all, t) == first_covering(all.skip(i as int), t),
        decreases segs@.len() - i,
    {
        assert(all.skip(i as int)[0] == segs@[i as int]@);
        let before_end = match segs[i].end_s {
            Some(end) => t.is_below(end),
            None => true,
        };
        if segs[i].start_s.is_up_to(t) && before_end {
            return Some(&segs[i]);
        }
        assert(all.skip(i as int).drop_first() =~= all.skip(i + 1));
        i += 1;
    }
    None
}

/// Half-open intervals overlap: each begins before the other ends. Intervals
/// that touch do not.
pub open spec fn intervals_overlap(a0: Double, a1: Double, b0: Double, b1: Double) -> bool {
    a0.below(b1) && b0.below(a1)
}

/// Whether two half-open intervals overlap. Intervals that touch do not.
pub fn overlaps(a0: Double, a1: Double, b0: Double, b1: Double) -> (r: bool)
    ensures
        r == intervals_overlap(a0, a1, b0, b1),
{
    a0.is_below(b1) && b0.is_below(a1)
}

/// +infinity, where a segment without an end ends.
pub const FOREVER: u64 = 0x7ff0_0000_0000_0000;

/// Where a segment ends.
pub open spec fn end_of(e: Option<Double>) -> Double {
    match e {
        Some(x) => x,
        None => Double { bits: FOREVER },
    }
}

pub(crate) fn end_or_forever(e: Option<Double>) -> (r: Double)
    ensures
        r == end_of(e),
{
    match e {
        Some(x) => x,
        None => Double { bits: FOREVER },
    }
}

/// A requested segment overlaps one that there is.
pub open spec fn collides(input: ClockSegmentReqView, s: ClockSegmentView) -> bool {
    intervals_overlap(input.start_s, end_of(input.end_s), s.start_s, end_of(s.end_s))
}

/// Why a request for a segment is refused for itself.
pub open spec fn request_objection(input: ClockSegmentReqView) -> Option<Seq<char>> {
    if !input.start_s.finite() || !input.offset_s.finite() {
        Some("start_s/offset_s must be finite"@)
    } else if input.end_s matches Some(e) && !(e.finite() && input.start_s.below(e)) {
        Some("end_s must be finite and strictly greater than start_s"@)
    } else if !(input.sigma_s.finite() && (Double { bits: 0 }).up_to(input.sigma_s)) {
        Some("sigma_s must be finite and non-negative"@)
    } else {
        None
    }
}

/// How the end of a segment is shown.
pub open spec fn end_shown(e: Option<Double>, shown: Decimals) -> Seq<char> {
    match e {
        Some(x) => shown.written(x),
        None => "∞"@,
    }
}

/// How an overlap is reported.
pub open spec fn overlap_text(
    input: ClockSegmentReqView,
    s: ClockSegmentView,
    shown: Decimals,
) -> Seq<char> {
    "half-open segment ["@ + shown.written(input.start_s) + ", "@ + end_shown(input.end_s, shown)
        + ") overlaps existing segment ["@ + shown.written(s.start_s) + ", "@ + end_shown(
        s.end_s,
        shown,
    ) + ")"@
}

/// The first of the segments that a request collides with.
pub open spec fn first_collision(
    input: ClockSegmentReqView,
    segs: Seq<ClockSegmentView>,
) -> Option<ClockSegmentView>
    decreases segs.len(),
{
    if segs.len() == 0 {
        None
    } else if collides(input, segs[0]) {
        Some(segs[0])
    } else {
        first_collision(input, segs.drop_first())
    }
}

/// Why a request for a segment is refused, beside the segments that there are.
pub open spec fn segment_objection(
    input: ClockSegmentReqView,
    segs: Seq<ClockSegmentView>,
    shown: Decimals,
) -> Option<Seq<char>> {
    match request_objection(input) {
        Some(m) => Some(m),
        None => match first_collision(input, segs) {
            Some(s) => Some(overlap_text(input, s, shown)),
            None => None,
        },
    }
}

fn show_end(e: Option<Double>, shown: &Decimals) -> (r: String)
    ensures
        r@ == end_shown(e, *shown),
{
    match e {
        Some(x) => shown.write(x),
        None => "∞".to_owned(),
    }
}

/// Checks a request for a segment against the segments of its station.
pub fn check_segment(
    input: &ClockSegmentReq,
    segs: &Vec<ClockSegment>,
    shown: &Decimals,
) -> (r: Result<(), String>)
    ensures
        match r {
            Ok(_) => segment_objection(input@, clocksegment_views(segs@), *shown) is None,
            Err(m) => segment_objection(input@, clocksegment_views(segs@), *shown) == Some(m@),
        },
{
    if !input.start_s.is_finite() || !input.offset_s.is_finite() {
        return Err("start_s/offset_s must be finite".to_owned());
    }
    match input.end_s {
        Some(end) => {
            if !end.is_finite() || !input.start_s.is_below(end) {
                return Err("end_s must be finite and strictly greater than start_s".to_owned());
            }
        },
        None => {},
    }
    if !(input.sigma_s.is_finite() && (Double { bits: 0 }).is_up_to(input.sigma_s)) {
        return Err("sigma_s must be finite and non-negative".to_owned());
    }
    let new_end = end_or_forever(input.end_s);
    let ghost all = clocksegment_views(segs@);
    assert(request_objection(input@) is None);
    let mut i: usize = 0;
    assert(all.skip(0) =~= all);
    while i < segs.len()
        invariant
            i <= segs@.len(),
            all == clocksegment_views(segs@),
            new_end == end_of(input.end_s),
            request_objection(input@) is None,
            first_collision(input@, all) == first_collision(input@, all.skip(i as int)),
        decreases segs@.len() - i,
    {
        let s = &segs[i];
        assert(all.skip(i as int)[0] == s@);
        let old_end = end_or_forever(s.end_s);
        if overlaps(input.start_s, new_end, s.start_s, old_end) {
            let mut m = "half-open segment [".to_owned();
            m.append(shown.write(input.start_s).as_str());
            m.append(", ");
            m.append(show_end(input.end_s, shown).as_str());
            m.append(") overlaps existing segment [");
            m.append(shown.write(s.start_s).as_str());
            m.append(", ");
            m.append(show_end(s.end_s, shown).as_str());
            m.append(")");
            assert(m@ =~= overlap_text(input@, s@, *shown));
            return Err(m);
        }
        assert(all.skip(i as int).drop_first() =~= all.skip(i + 1));
        i += 1;
    }
    Ok(())
}

/// The segments of one station.
pub open spec fn of_station(id: Seq<char>) -> spec_fn(ClockSegmentView) -> bool {
    |s: ClockSegmentView| s.station_id == id
}

/// Segments stand in the order of their starts.
pub open spec fn by_start() -> spec_fn(ClockSegmentView) -> PlaceView {
    |s: ClockSegmentView| (seq![s.start_s.rank()], Seq::<char>::empty(), Seq::<char>::empty(),
        Seq::<int>::empty())
}

/// The segments of a station, in the order of their starts.
pub open spec fn segments_of(v: DbView, id: Seq<char>) -> Seq<ClockSegmentView> {
    arranged(v.segments.filter(of_station(id)), by_start())
}

/// Lists the segments of a station.
pub fn list_segments(db: &Db, station_id: &str) -> (r: Vec<ClockSegment>)
    requires
        db@.valid(),
    ensures
        clocksegment_views(r@) == segments_of(db@, station_id@),
        is_arrangement(
            db@.segments.filter(of_station(station_id@)),
            clocksegment_views(r@),
            by_start(),
        ),
{
    let ghost all = clocksegment_views(db.segments@);
    let ghost pick = of_station(station_id@);
    let ghost place = by_start();
    let mut out: Vec<Placed<ClockSegment>> = Vec::new();
    let mut i: usize = 0;
    proof {
        reveal(Seq::filter);
        assert(all.take(0) =~= Seq::empty());
    }
    assert(rows_of(out@) =~= all.take(0).filter(pick));
    while i < db.segments.len()
        invariant
            i <= db.segments@.len(),
            all == clocksegment_views(db.segments@),
            pick == of_station(station_id@),
            place == by_start(),
            db@.valid(),
            rows_of(out@) == all.take(i as int).filter(pick),
            forall|k: int|
                0 <= k < out@.len() ==> (#[trigger] out@[k]).place() == place(out@[k].item@),
        decreases db.segments@.len() - i,
    {
        let x = &db.segments[i];
        let ghost before = rows_of(out@);
        assert(all.take(i + 1) =~= all.take(i as int).push(x@));
        proof {
            filter_of_push(all.take(i as int), x@, pick);
        }
        if same(x.station_id.as_str(), station_id) {
            assert(pick(x@));
            out.push(
                Placed {
                    lead: one_number(x.start_s.rank_number()),
                    a: String::new(),
                    b: String::new(),
                    tail: no_number(),
                    item: x.copy(),
                },
            );
            assert(rows_of(out@) =~= before.push(x@));
        } else {
            assert(!pick(x@));
        }
        i += 1;
    }
    assert(all.take(i as int) =~= all);
    proof {
        assert forall|j: int, k: int|
            0 <= j < k < all.len() && pick(#[trigger] all[j])
                && pick(#[trigger] all[k]) implies place(
            all[j],
        ) != place(all[k]) by {
            let (p, q) = (all[j], all[k]);
            assert(p.station_id == q.station_id);
            assert(!intervals_overlap(p.start_s, end_of(p.end_s), q.start_s, end_of(q.end_s)));
            assert(seq![p.start_s.rank()][0] == p.start_s.rank());
            assert(seq![q.start_s.rank()][0] == q.start_s.rank());
        }
        picked_rows_differ(all, pick, place);
        assert forall|j: int, k: int| 0 <= j < k < out@.len() implies (
            #[trigger] out@[j]).place() != (
        #[trigger] out@[k]).place() by {
            assert(rows_of(out@)[j] == out@[j].item@ && rows_of(out@)[k] == out@[k].item@);
        }
    }
    let r = arrange(out, Ghost(place));
    assert(clocksegment_views(r@) =~= said(r@));
    r
}

/// A segment as it is kept.
pub open spec fn segment_row(input: ClockSegmentReqView, id: int) -> ClockSegmentView {
    ClockSegmentView {
        seg_id: id,
        station_id: input.station_id,
        start_s: input.start_s,
        end_s: input.end_s,
        offset_s: input.offset_s,
        sigma_s: input.sigma_s,
        note: input.note,
    }
}

/// Why a segment is not entered.
pub open spec fn entry_objection(
    v: DbView,
    input: ClockSegmentReqView,
    shown: Decimals,
) -> Option<Seq<char>> {
    match segment_objection(input, segments_of(v, input.station_id), shown) {
        Some(m) => Some(m),
        None => if v.last_segment >= i64::MAX {
            Some("database or disk is full"@)
        } else if !has_station(v.stations, input.station_id) {
            Some("FOREIGN KEY constraint failed"@)
        } else {
            None
        },
    }
}

/// Where nothing in a list collides with a request, no item does.
proof fn nothing_collides(input: ClockSegmentReqView, segs: Seq<ClockSegmentView>, k: int)
    requires
        first_collision(input, segs) is None,
        0 <= k < segs.len(),
    ensures
        !collides(input, segs[k]),
    decreases segs.len(),
{
    if k > 0 {
        nothing_collides(input, segs.drop_first(), k - 1);
        assert(segs.drop_first()[k - 1] == segs[k]);
    }
}

/// Enters a segment, unless it overlaps another of its station. Returns its
/// number.
pub fn add_segment(
    db: &mut Db,
    input: &ClockSegmentReq,
    shown: &Decimals,
) -> (r: Result< i64, String, >)
    requires
        old(db)@.valid(),
    ensures
        final(db)@.valid(),
        match r {
            Ok(id) => entry_objection(old(db)@, input@, *shown) is None && id == old(
                db,
            )@.last_segment + 1 && final(db)@ == (DbView {
                segments: old(db)@.segments.push(segment_row(input@, id as int)),
                last_segment: id as int,
                ..old(db)@
            }),
            Err(m) => entry_objection(old(db)@, input@, *shown) == Some(m@) && final(db)@ == old(
                db,
            )@,
        },
{
    let ghost v = db@;
    let existing = list_segments(db, input.station_id.as_str());
    match check_segment(input, &existing, shown) {
        Ok(_) => {},
        Err(m) => {
            return Err(m);
        },
    }
    if db.last_segment == i64::MAX {
        return Err("database or disk is full".to_owned());
    }
    if !knows_station(&db.stations, input.station_id.as_str()) {
        return Err("FOREIGN KEY constraint failed".to_owned());
    }
    let id: i64 = db.last_segment + 1;
    let row = ClockSegment {
        seg_id: id,
        station_id: input.station_id.clone(),
        start_s: input.start_s,
        end_s: input.end_s,
        offset_s: input.offset_s,
        sigma_s: input.sigma_s,
        note: input.note.clone(),
    };
    let ghost new = row@;
    db.segments.push(row);
    db.last_segment = id;
    proof {
        assert(db@.segments =~= v.segments.push(new));
        let of = of_station(input@.station_id);
        let mine = v.segments.filter(of);
        let listed = clocksegment_views(existing@);
        assert forall|i: int, j: int|
            0 <= i < j < db@.segments.len() && (#[trigger] db@.segments[i]).station_id == (
            #[trigger] db@.segments[j]).station_id implies !intervals_overlap(
            db@.segments[i].start_s,
            end_of(db@.segments[i].end_s),
            db@.segments[j].start_s,
            end_of(db@.segments[j].end_s),
        ) by {
            if j < v.segments.len() {
                assert(v.segments[i].station_id == v.segments[j].station_id);
            } else {
                let s = v.segments[i];
                broadcast use vstd::seq_lib::group_filter_ensures;

                assert(of(s));
                assert(mine.contains(s));
                arrangement_holds_the_same(mine, listed, s);
                let k = choose|k: int| 0 <= k < listed.len() && listed[k] == s;
                nothing_collides(input@, listed, k);
            }
        }
    }
    Ok(id)
}

/// What is known of the offset of a clock.
#[derive(Clone, Copy, Debug, PartialEq, Eq, Structural)]
pub struct EffectiveOffset {
    pub offset_s: Double,
    pub sigma_s: Double,
    /// The analyst has locked the offset.
    pub locked: bool,
    /// No segment holds: the offset is free.
    pub unknown: bool,
}

/// 1 s: the uncertainty of a free clock.
pub const FREE_CLOCK_SIGMA: u64 = 0x3ff0_0000_0000_0000;

/// What is known of the offset of a clock at a time: what the analyst locked
/// comes first, then the segment that holds; without either the clock is free.
pub open spec fn offset_at(
    segs: Seq<ClockSegmentView>,
    lock: Option<(Double, Double)>,
    t: Double,
) -> EffectiveOffset {
    match lock {
        Some(l) => EffectiveOffset { offset_s: l.0, sigma_s: l.1, locked: true, unknown: false },
        None => match first_covering(segs, t) {
            Some(s) => EffectiveOffset {
                offset_s: s.offset_s,
                sigma_s: s.sigma_s,
                locked: false,
                unknown: false,
            },
            None => EffectiveOffset {
                offset_s: Double { bits: 0 },
                sigma_s: Double { bits: FREE_CLOCK_SIGMA },
                locked: false,
                unknown: true,
            },
        },
    }
}

/// Works out what is known of the offset of a clock at a time.
pub fn effective_offset(segments: &Vec<ClockSegment>, lock: Option<(Double, Double)>, t: Double)
    -> (r: EffectiveOffset)
    ensures
        r == offset_at(clocksegment_views(segments@), lock, t),
{
    match lock {
        Some(l) => EffectiveOffset { offset_s: l.0, sigma_s: l.1, locked: true, unknown: false },
        None => match segment_at(segments, t) {
            Some(s) => EffectiveOffset {
                offset_s: s.offset_s,
                sigma_s: s.sigma_s,
                locked: false,
                unknown: false,
            },
            None => EffectiveOffset {
                offset_s: Double { bits: 0 },
                sigma_s: Double { bits: FREE_CLOCK_SIGMA },
                locked: false,
                unknown: true,
            },
        },
    }
}

/// No two segments of a station overlap.
pub open spec fn apart(segs: Seq<ClockSegmentView>) -> bool {
    forall|i: int, j: int|
        0 <= i < j < segs.len() && (#[trigger] segs[i]).station_id == (
        #[trigger] segs[j]).station_id ==> !intervals_overlap(
            segs[i].start_s,
            end_of(segs[i].end_s),
            segs[j].start_s,
            end_of(segs[j].end_s),
        )
}

/// Where no two segments of a station overlap, at most one of them holds at any
/// time.
pub proof fn at_most_one_covers(segs: Seq<ClockSegmentView>, i: int, j: int, t: Double)
    requires
        apart(segs),
        0 <= i < segs.len(),
        0 <= j < segs.len(),
        segs[i].station_id == segs[j].station_id,
        covers(segs[i], t),
        covers(segs[j], t),
        t.finite(),
    ensures
        i == j,
{
    if i < j {
        assert(segs[i].station_id == segs[j].station_id);
    } else if j < i {
        assert(segs[j].station_id == segs[i].station_id);
    }
}

/// Where two segments touch, the later one holds at the time at which they
/// touch, and the earlier one does not.
pub proof fn join_belongs_to_the_later(a: ClockSegmentView, b: ClockSegmentView, t: Double)
    requires
        a.end_s matches Some(e) && e.same_number(b.start_s),
        t.same_number(b.start_s),
        b.end_s matches Some(e) ==> b.start_s.below(e),
    ensures
        !covers(a, t),
        covers(b, t),
        !intervals_overlap(a.start_s, end_of(a.end_s), b.start_s, end_of(b.end_s)),
{
}

} // verus!
