//! Clock segments: which one holds at a time, and whether the segments of a
//! station divide time without overlap.
use vstd::prelude::*;
use vstd::relations::*;
use vstd::string::*;

use crate::canon::{shuffle, Decimals};
use crate::double::Double;
use crate::model::{ClockSegment, ClockSegmentView};
use crate::order::{filter_of_push, keys, sort, Sortable};
use crate::store::segment_views;
use crate::text::{precedes, same, text_lt, text_order_is_total, text_order_is_transitive};

verus! {

/// A segment holds at a time: from its start on, until just before its end.
pub open spec fn holds_at(s: ClockSegmentView, t: Double) -> bool {
    s.t_start.up_to(t) && (s.t_end matches Some(e) ==> t.below(e))
}

/// The segments of a station that hold at a time.
pub open spec fn active_at(
    segs: Seq<(ClockSegmentView, int)>,
    station_id: Seq<char>,
    t: Double,
) -> Seq<(ClockSegmentView, int)> {
    segs.filter(|s: (ClockSegmentView, int)| s.0.station_id == station_id && holds_at(s.0, t))
}

/// Picks the segments of a station that hold at a time. The time at which one
/// segment ends and the next begins belongs to the next alone.
pub fn clock_segments_at(
    segs: &Vec<(ClockSegment, i64)>,
    station_id: &str,
    t: Double,
) -> (r: Vec< (ClockSegment, i64), >)
    ensures
        segment_views(r@) == active_at(segment_views(segs@), station_id@, t),
{
    let ghost all = segment_views(segs@);
    let ghost pick = |s: (ClockSegmentView, int)|
        s.0.station_id == station_id@ && holds_at(s.0, t);
    let mut out: Vec<(ClockSegment, i64)> = Vec::new();
    let mut i: usize = 0;
    proof {
        assert(all.take(0) =~= Seq::empty());
        reveal(Seq::filter);
        assert(segment_views(out@) =~= Seq::empty());
    }
    while i < segs.len()
        invariant
            i <= segs@.len(),
            all == segment_views(segs@),
            pick == (|s: (ClockSegmentView, int)|
                s.0.station_id == station_id@ && holds_at(s.0, t)),
            segment_views(out@) == all.take(i as int).filter(pick),
        decreases segs@.len() - i,
    {
        let s = &segs[i];
        let ghost before = segment_views(out@);
        let ghost v = (s.0@, s.1 as int);
        assert(all[i as int] == v);
        assert(all.take(i + 1) =~= all.take(i as int).push(v));
        proof {
            filter_of_push(all.take(i as int), v, pick);
        }
        let ended = match s.0.t_end {
            Some(e) => !t.is_below(e),
            None => false,
        };
        if same(s.0.station_id.as_str(), station_id) && s.0.t_start.is_up_to(t) && !ended {
            assert(pick(v));
            out.push((s.0.copy(), s.1));
            assert(segment_views(out@) =~= before.push(v));
        } else {
            assert(!pick(v));
        }
        i += 1;
    }
    assert(all.take(i as int) =~= all);
    out
}

/// In what way two segments get into each other's way.
#[derive(Clone, Copy, Debug, PartialEq, Eq, Structural)]
pub enum Clash {
    Overlap,
    SameStart,
}

/// How two segments, the first of which begins no later, clash.
pub open spec fn clash(a: ClockSegmentView, b: ClockSegmentView) -> Option<Clash> {
    if a.station_id != b.station_id {
        None
    } else if a.t_end matches Some(e) && b.t_start.below(e) {
        Some(Clash::Overlap)
    } else if a.t_start.same_number(b.t_start) {
        Some(Clash::SameStart)
    } else if a.t_end is None {
        Some(Clash::Overlap)
    } else {
        None
    }
}

/// The segments of each station follow one another: no two begin together, and
/// each ends before or when a later one begins.
pub open spec fn is_partition(segs: Seq<ClockSegmentView>) -> bool {
    forall|i: int, j: int|
        0 <= i < segs.len() && 0 <= j < segs.len() && i != j && (#[trigger] segs[i]).station_id == (
        #[trigger] segs[j]).station_id ==> {
            &&& !segs[i].t_start.same_number(segs[j].t_start)
            &&& segs[i].t_start.below(segs[j].t_start) ==> segs[i].t_end is Some
                && !segs[j].t_start.below(segs[i].t_end->0)
        }
}

/// What segments are looked through by: station, start and place in the list.
pub type ClockKey = (Seq<char>, int, int);

pub open spec fn clock_key(segs: Seq<ClockSegmentView>, i: int) -> ClockKey {
    (segs[i].station_id, segs[i].t_start.rank(), i)
}

pub open spec fn clock_lt(a: ClockKey, b: ClockKey) -> bool {
    if a.0 != b.0 {
        text_lt(a.0, b.0)
    } else if a.1 != b.1 {
        a.1 < b.1
    } else {
        a.2 < b.2
    }
}

/// `p` is the order in which the segments are looked through: station by
/// station, and in each by the start.
pub open spec fn in_clock_order(segs: Seq<ClockSegmentView>, p: Seq<int>) -> bool {
    &&& shuffle(p, segs.len())
    &&& forall|i: int, j: int|
        0 <= i < j < p.len() ==> clock_lt(
            clock_key(segs, #[trigger] p[i]),
            clock_key(segs, #[trigger] p[j]),
        )
}

/// Why a list of segments is refused.
#[derive(Debug)]
pub struct PartitionFault {
    pub station: String,
    pub first: Double,
    pub second: Double,
    pub clash: Clash,
}

impl PartitionFault {
    /// How the fault is reported.
    pub open spec fn text(self, shown: Decimals) -> Seq<char> {
        match self.clash {
            Clash::Overlap => "station "@ + self.station@ + ": segments overlap ("@
                + shown.written(self.first) + ", "@ + shown.written(self.second) + ")"@,
            Clash::SameStart => "station "@ + self.station@ + ": two segments start at "@
                + shown.written(self.first),
        }
    }

    /// Says how the fault is reported.
    pub fn message(&self, shown: &Decimals) -> (r: String)
        ensures
            r@ == self.text(*shown),
    {
        let mut s = "station ".to_owned();
        s.append(self.station.as_str());
        match self.clash {
            Clash::Overlap => {
                s.append(": segments overlap (");
                s.append(shown.write(self.first).as_str());
                s.append(", ");
                s.append(shown.write(self.second).as_str());
                s.append(")");
            },
            Clash::SameStart => {
                s.append(": two segments start at ");
                s.append(shown.write(self.first).as_str());
            },
        }
        s
    }
}

/// What a list of segments says.
pub open spec fn bare_views(s: Seq<ClockSegment>) -> Seq<ClockSegmentView> {
    s.map_values(|c: ClockSegment| c@)
}

struct Place {
    index: usize,
    station: String,
    start: Double,
}

proof fn clock_order_is_total_ordering()
    ensures
        total_ordering(|a: ClockKey, b: ClockKey| a == b || clock_lt(a, b)),
{
    let le = |a: ClockKey, b: ClockKey| a == b || clock_lt(a, b);
    assert forall|a: ClockKey, b: ClockKey| #[trigger] le(a, b) && #[trigger] le(b, a) implies a
        == b by {
        text_order_is_total(a.0, b.0);
    }
    assert forall|a: ClockKey, b: ClockKey, c: ClockKey| #[trigger]
        le(a, b) && #[trigger] le(b, c) implies le(a, c) by {
        text_order_is_total(a.0, b.0);
        text_order_is_total(b.0, c.0);
        if a.0 != b.0 && b.0 != c.0 {
            text_order_is_transitive(a.0, b.0, c.0);
            text_order_is_total(a.0, c.0);
        }
    }
    assert forall|a: ClockKey, b: ClockKey| #[trigger] le(a, b) || #[trigger] le(b, a) by {
        text_order_is_total(a.0, b.0);
    }
}

impl Sortable for Place {
    type Key = ClockKey;

    closed spec fn key(&self) -> ClockKey {
        (self.station@, self.start.rank(), self.index as int)
    }

    closed spec fn in_order(a: ClockKey, b: ClockKey) -> bool {
        a == b || clock_lt(a, b)
    }

    proof fn order_is_total() {
        clock_order_is_total_ordering();
        assert((|a: ClockKey, b: ClockKey| a == b || clock_lt(a, b)) =~= (|a: ClockKey, b: ClockKey|
            Self::in_order(a, b)));
    }

    fn goes_after(&self, other: &Self) -> (r: bool) {
        proof {
            text_order_is_total(self.station@, other.station@);
        }
        if !same(self.station.as_str(), other.station.as_str()) {
            precedes(other.station.as_str(), self.station.as_str())
        } else if other.start.ranks_below(self.start) {
            true
        } else if self.start.ranks_below(other.start) {
            false
        } else {
            other.index < self.index
        }
    }
}

fn order_places(segs: &Vec<ClockSegment>) -> (r: Vec<Place>)
    ensures
        in_clock_order(bare_views(segs@), r@.map_values(|p: Place| p.index as int)),
{
    let ghost views = bare_views(segs@);
    let mut list: Vec<Place> = Vec::new();
    let mut i: usize = 0;
    while i < segs.len()
        invariant
            i <= segs@.len(),
            views == bare_views(segs@),
            list@.len() == i,
            forall|k: int|
                0 <= k < i ==> (#[trigger] list@[k]).index == k && list@[k].key() == clock_key(
                    views,
                    k,
                ),
        decreases segs@.len() - i,
    {
        list.push(
            Place { index: i, station: segs[i].station_id.clone(), start: segs[i].t_start },
        );
        i += 1;
    }
    let ghost given = list@;
    let sorted = sort(list);
    proof {
        broadcast use vstd::seq_lib::group_to_multiset_ensures;

        let f = |p: Place| p.index as int;
        let p = sorted@.map_values(f);
        let n = views.len();
        crate::order::mapping_keeps_multisets(sorted@, given, f);
        let g = given.map_values(f);
        assert(g.no_duplicates());
        g.lemma_multiset_has_no_duplicates();
        p.lemma_multiset_has_no_duplicates_conv();
        assert(p.len() == n);
        assert forall|k: int| 0 <= k < n implies 0 <= #[trigger] p[k] < n && sorted@[k].key()
            == clock_key(views, p[k]) by {
            assert(sorted@.contains(sorted@[k]));
            assert(given.to_multiset().count(sorted@[k]) > 0);
            assert(given.contains(sorted@[k]));
            let j = choose|j: int| 0 <= j < given.len() && given[j] == sorted@[k];
            assert(given[j].index == j);
        }
        assert forall|a: int, b: int| 0 <= a < b < p.len() implies clock_lt(
            clock_key(views, #[trigger] p[a]),
            clock_key(views, #[trigger] p[b]),
        ) by {
            let ks = keys(sorted@);
            assert(ks[a] == sorted@[a].key() && ks[b] == sorted@[b].key());
            let leq = |x: ClockKey, y: ClockKey| Place::in_order(x, y);
            assert(leq(ks[a], ks[b]));
            assert(Place::in_order(ks[a], ks[b]));
            assert(p[a] != p[b]);
        }
    }
    sorted
}

proof fn neighbours_suffice(segs: Seq<ClockSegmentView>, p: Seq<int>, i: int, j: int)
    requires
        in_clock_order(segs, p),
        0 <= i < j < p.len(),
        segs[p[i]].station_id == segs[p[j]].station_id,
        forall|k: int|
            0 <= k < p.len() ==> !(#[trigger] segs[p[k]]).t_start.nan() || segs[p[k]].station_id
                != segs[p[i]].station_id,
        forall|k: int|
            0 <= k < p.len() - 1 ==> (#[trigger] clash(segs[p[k]], segs[p[k + 1]])) is None,
    ensures
        segs[p[i]].t_start.below(segs[p[j]].t_start),
        segs[p[i]].t_end is Some,
        !segs[p[j]].t_start.below(segs[p[i]].t_end->0),
    decreases j - i,
{
    assert(clash(segs[p[i]], segs[p[i + 1]]) is None);
    assert(clock_lt(clock_key(segs, p[i]), clock_key(segs, p[i + 1])));
    if j > i + 1 {
        assert(clock_lt(clock_key(segs, p[i + 1]), clock_key(segs, p[j])));
        let s = segs[p[i]].station_id;
        let m = segs[p[i + 1]].station_id;
        text_order_is_total(s, m);
        text_order_is_total(m, s);
        assert(m == s);
        neighbours_suffice(segs, p, i + 1, j);
    }
}

/// Checks that the segments of each station follow one another. Segments that
/// touch are in order: the time at which they touch belongs to the later one.
/// The first clash is reported, by station and then by start.
pub fn validate_clock_partition(segs: &Vec<ClockSegment>) -> (r: Result<(), PartitionFault>)
    requires
        forall|i: int, j: int|
            0 <= i < segs@.len() && 0 <= j < segs@.len() && i != j && (
            #[trigger] segs@[i]).station_id@ == (#[trigger] segs@[j]).station_id@
                ==> !segs@[i].t_start.nan(),
    ensures
        r is Ok <==> is_partition(bare_views(segs@)),
        r matches Err(f) ==> exists|p: Seq<int>, k: int|
            #![trigger in_clock_order(bare_views(segs@), p), p[k]]
            {
                let v = bare_views(segs@);
                &&& in_clock_order(v, p)
                &&& 0 <= k < p.len() - 1
                &&& clash(v[p[k]], v[p[k + 1]]) == Some(f.clash)
                &&& forall|j: int|
                    0 <= j < k ==> (#[trigger] clash(v[p[j]], v[p[j + 1]])) is None
                &&& f.station@ == v[p[k]].station_id
                &&& f.first == v[p[k]].t_start
                &&& f.second == v[p[k + 1]].t_start
            },
{
    let ghost v = bare_views(segs@);
    let order = order_places(segs);
    let ghost p = order@.map_values(|x: Place| x.index as int);
    assert forall|k: int| 0 <= k < order@.len() implies (#[trigger] order@[k]).index < segs@.len()
        && p[k] == order@[k].index by {
        assert(0 <= p[k] < v.len());
    }
    let mut i: usize = 0;
    let n: usize = order.len();
    while n > 0 && i < n - 1
        invariant
            n == order@.len(),
            i < n || n == 0 && i == 0,
            v == bare_views(segs@),
            p == order@.map_values(|x: Place| x.index as int),
            in_clock_order(v, p),
            forall|i: int, j: int|
                0 <= i < segs@.len() && 0 <= j < segs@.len() && i != j && (
                #[trigger] segs@[i]).station_id@ == (#[trigger] segs@[j]).station_id@
                    ==> !segs@[i].t_start.nan(),
            forall|k: int|
                0 <= k < order@.len() ==> (#[trigger] order@[k]).index < segs@.len() && p[k]
                    == order@[k].index,
            forall|j: int| 0 <= j < i ==> (#[trigger] clash(v[p[j]], v[p[j + 1]])) is None,
        decreases order@.len() - i,
    {
        let a = &segs[order[i].index];
        let b = &segs[order[i + 1].index];
        assert(p[i as int] == order@[i as int].index && p[i + 1] == order@[i + 1].index);
        assert(v[p[i as int]] == a@ && v[p[i + 1]] == b@);
        if same(a.station_id.as_str(), b.station_id.as_str()) {
            let reaches = match a.t_end {
                Some(e) => b.t_start.is_below(e),
                None => false,
            };
            let together = a.t_start.is_same_number(b.t_start);
            let endless = a.t_end.is_none();
            if reaches || together || endless {
                let kind = if !reaches && together {
                    Clash::SameStart
                } else {
                    Clash::Overlap
                };
                proof {
                    let x = p[i as int];
                    let y = p[i + 1];
                    assert(clash(v[x], v[y]) == Some(kind));
                    assert(x != y);
                    assert(!segs@[x].t_start.nan() && !segs@[y].t_start.nan());
                    assert(clock_lt(clock_key(v, x), clock_key(v, y)));
                    assert(!is_partition(v));
                }
                return Err(
                    PartitionFault {
                        station: a.station_id.clone(),
                        first: a.t_start,
                        second: b.t_start,
                        clash: kind,
                    },
                );
            }
        }
        i += 1;
    }
    proof {
        assert(is_partition(v)) by {
            assert forall|x: int, y: int|
                0 <= x < v.len() && 0 <= y < v.len() && x != y && (#[trigger] v[x]).station_id == (
                #[trigger] v[y]).station_id implies {
                &&& !v[x].t_start.same_number(v[y].t_start)
                &&& v[x].t_start.below(v[y].t_start) ==> v[x].t_end is Some && !v[y].t_start.below(
                    v[x].t_end->0,
                )
            } by {
                shuffle_covers(p, v.len(), x);
                shuffle_covers(p, v.len(), y);
                let a = choose|a: int| 0 <= a < p.len() && p[a] == x;
                let b = choose|b: int| 0 <= b < p.len() && p[b] == y;
                assert(segs@[x].station_id@ == segs@[y].station_id@);
                assert forall|k: int| 0 <= k < p.len() implies !(#[trigger] v[p[k]]).t_start.nan()
                    || v[p[k]].station_id != v[x].station_id by {
                    let z = p[k];
                    if v[z].station_id == v[x].station_id {
                        if z == x {
                            assert(segs@[x].station_id@ == segs@[y].station_id@);
                            assert(!segs@[x].t_start.nan());
                        } else {
                            assert(segs@[z].station_id@ == segs@[x].station_id@);
                            assert(!segs@[z].t_start.nan());
                        }
                    }
                }
                if a < b {
                    neighbours_suffice(v, p, a, b);
                } else {
                    neighbours_suffice(v, p, b, a);
                }
            }
        }
    }
    Ok(())
}

proof fn shuffle_covers(p: Seq<int>, n: nat, x: int)
    requires
        shuffle(p, n),
        0 <= x < n,
    ensures
        exists|k: int| 0 <= k < p.len() && p[k] == x,
{
    assert(p.no_duplicates());
    p.unique_seq_to_set();
    let range = vstd::set_lib::set_int_range(0, n as int);
    vstd::set_lib::lemma_int_range(0, n as int);
    assert(p.to_set().subset_of(range)) by {
        assert forall|y: int| p.to_set().contains(y) implies range.contains(y) by {
            let i = choose|i: int| 0 <= i < p.len() && p[i] == y;
            assert(0 <= p[i] < n);
        }
    }
    vstd::set_lib::lemma_subset_equality(p.to_set(), range);
    assert(p.to_set().contains(x));
}

/// Where two segments touch, the time at which they touch belongs to the later
/// one and not to the earlier one.
pub proof fn boundary_belongs_to_the_later(a: ClockSegmentView, b: ClockSegmentView, t: Double)
    requires
        a.t_end matches Some(e) && e.same_number(b.t_start),
        t.same_number(b.t_start),
        b.t_end matches Some(e) ==> b.t_start.below(e),
    ensures
        !holds_at(a, t),
        holds_at(b, t),
{
}

/// Where the segments of each station follow one another, at most one of a
/// station holds at any time.
pub proof fn at_most_one_holds(
    segs: Seq<ClockSegmentView>,
    station_id: Seq<char>,
    t: Double,
    i: int,
    j: int,
)
    requires
        is_partition(segs),
        0 <= i < segs.len(),
        0 <= j < segs.len(),
        segs[i].station_id == station_id,
        segs[j].station_id == station_id,
        holds_at(segs[i], t),
        holds_at(segs[j], t),
    ensures
        i == j,
{
    if i != j {
        let a = segs[i];
        let b = segs[j];
        assert(a.station_id == b.station_id);
        if a.t_start.below(b.t_start) {
        } else {
            assert(b.t_start.below(a.t_start));
        }
    }
}

} // verus!
