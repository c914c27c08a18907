//! Rows in the order of their places.
//!
//! A place is made of numbers, two texts and further numbers, as far as the
//! rows need them, and is compared part by part.
use vstd::prelude::*;
use vstd::relations::*;

use crate::order::{
    keys, mapping_keeps_multisets, picked_items_keep_their_order, picked_positions, sort, Sortable,
};
use crate::text::{precedes, same, text_lt, text_order_is_total, text_order_is_transitive};

verus! {

/// Where a row stands.
pub type PlaceView = (Seq<int>, Seq<char>, Seq<char>, Seq<int>);

/// Lists of numbers compare by the first numbers that differ; a list comes
/// before those that it begins.
pub open spec fn numbers_lt(a: Seq<int>, b: Seq<int>) -> bool
    decreases a.len(),
{
    if b.len() == 0 {
        false
    } else if a.len() == 0 {
        true
    } else if a[0] != b[0] {
        a[0] < b[0]
    } else {
        numbers_lt(a.drop_first(), b.drop_first())
    }
}

proof fn number_order_is_total(a: Seq<int>, b: Seq<int>)
    ensures
        numbers_lt(a, b) || numbers_lt(b, a) || a == b,
        !(numbers_lt(a, b) && numbers_lt(b, a)),
        numbers_lt(a, b) ==> a != b,
    decreases a.len(),
{
    if a.len() > 0 && b.len() > 0 && a[0] == b[0] {
        number_order_is_total(a.drop_first(), b.drop_first());
        if a.drop_first() == b.drop_first() {
            assert(a =~= seq![a[0]] + a.drop_first());
            assert(b =~= seq![b[0]] + b.drop_first());
        }
    } else if a.len() == 0 && b.len() == 0 {
        assert(a =~= b);
    }
}

proof fn number_order_is_transitive(a: Seq<int>, b: Seq<int>, c: Seq<int>)
    requires
        numbers_lt(a, b),
        numbers_lt(b, c),
    ensures
        numbers_lt(a, c),
    decreases a.len(),
{
    if a.len() > 0 && b.len() > 0 && c.len() > 0 && a[0] == b[0] && b[0] == c[0] {
        number_order_is_transitive(a.drop_first(), b.drop_first(), c.drop_first());
    }
}

/// A place comes before another.
pub open spec fn place_lt(a: PlaceView, b: PlaceView) -> bool {
    if a.0 != b.0 {
        numbers_lt(a.0, b.0)
    } else if a.1 != b.1 {
        text_lt(a.1, b.1)
    } else if a.2 != b.2 {
        text_lt(a.2, b.2)
    } else {
        numbers_lt(a.3, b.3)
    }
}

pub open spec fn place_le(a: PlaceView, b: PlaceView) -> bool {
    a == b || place_lt(a, b)
}

/// Of two places one comes first, or they are the same.
pub proof fn place_order_is_total(a: PlaceView, b: PlaceView)
    ensures
        place_lt(a, b) || place_lt(b, a) || a == b,
        !(place_lt(a, b) && place_lt(b, a)),
        place_lt(a, b) ==> a != b,
{
    number_order_is_total(a.0, b.0);
    text_order_is_total(a.1, b.1);
    text_order_is_total(a.2, b.2);
    number_order_is_total(a.3, b.3);
}

/// What comes before a place comes before everything after that place.
pub proof fn place_order_is_transitive(a: PlaceView, b: PlaceView, c: PlaceView)
    requires
        place_lt(a, b),
        place_lt(b, c),
    ensures
        place_lt(a, c),
{
    number_order_is_total(a.0, b.0);
    number_order_is_total(b.0, c.0);
    text_order_is_total(a.1, b.1);
    text_order_is_total(b.1, c.1);
    text_order_is_total(a.2, b.2);
    text_order_is_total(b.2, c.2);
    if a.0 != b.0 && b.0 != c.0 {
        number_order_is_transitive(a.0, b.0, c.0);
        number_order_is_total(a.0, c.0);
    } else if a.0 == b.0 && b.0 == c.0 {
        if a.1 != b.1 && b.1 != c.1 {
            text_order_is_transitive(a.1, b.1, c.1);
            text_order_is_total(a.1, c.1);
        } else if a.1 == b.1 && b.1 == c.1 {
            if a.2 != b.2 && b.2 != c.2 {
                text_order_is_transitive(a.2, b.2, c.2);
                text_order_is_total(a.2, c.2);
            } else if a.2 == b.2 && b.2 == c.2 {
                number_order_is_transitive(a.3, b.3, c.3);
            }
        }
    }
}

proof fn place_order_is_a_total_ordering()
    ensures
        total_ordering(|a: PlaceView, b: PlaceView| place_le(a, b)),
{
    let le = |a: PlaceView, b: PlaceView| place_le(a, b);
    assert forall|a: PlaceView, b: PlaceView| #[trigger] le(a, b) && #[trigger] le(b, a) implies a
        == b by {
        place_order_is_total(a, b);
    }
    assert forall|a: PlaceView, b: PlaceView, c: PlaceView| #[trigger] le(a, b) && #[trigger] le(
        b,
        c,
    ) implies le(a, c) by {
        if a != b && b != c {
            place_order_is_transitive(a, b, c);
        }
    }
    assert forall|a: PlaceView, b: PlaceView| #[trigger] le(a, b) || #[trigger] le(b, a) by {
        place_order_is_total(a, b);
    }
}

/// `r` holds the rows of `s` in the order of their places, no place twice.
pub open spec fn is_arrangement<V>(s: Seq<V>, r: Seq<V>, place: spec_fn(V) -> PlaceView) -> bool {
    &&& r.to_multiset() == s.to_multiset()
    &&& forall|i: int, j: int|
        0 <= i < j < r.len() ==> place_lt(place(#[trigger] r[i]), place(#[trigger] r[j]))
}

/// The rows in the order of their places.
pub open spec fn arranged<V>(s: Seq<V>, place: spec_fn(V) -> PlaceView) -> Seq<V> {
    choose|r: Seq<V>| is_arrangement(s, r, place)
}

/// How many rows at the front of a list come before a place.
spec fn spot<V>(r: Seq<V>, p: PlaceView, place: spec_fn(V) -> PlaceView) -> int
    decreases r.len(),
{
    if r.len() == 0 || !place_lt(place(r[0]), p) {
        0
    } else {
        1 + spot(r.drop_first(), p, place)
    }
}

proof fn spots_split_the_list<V>(r: Seq<V>, p: PlaceView, place: spec_fn(V) -> PlaceView)
    ensures
        0 <= spot(r, p, place) <= r.len(),
        forall|k: int| 0 <= k < spot(r, p, place) ==> place_lt(place(#[trigger] r[k]), p),
        spot(r, p, place) < r.len() ==> !place_lt(place(r[spot(r, p, place)]), p),
    decreases r.len(),
{
    if r.len() > 0 && place_lt(place(r[0]), p) {
        let rest = r.drop_first();
        spots_split_the_list(rest, p, place);
        let n = spot(r, p, place);
        assert forall|k: int| 0 <= k < n implies place_lt(place(#[trigger] r[k]), p) by {
            if k > 0 {
                assert(r[k] == rest[k - 1]);
            }
        }
        if n < r.len() {
            assert(r[n] == rest[n - 1]);
        }
    }
}

/// Rows that stand in different places can be arranged.
proof fn some_arrangement<V>(s: Seq<V>, place: spec_fn(V) -> PlaceView) -> (r: Seq<V>)
    requires
        forall|i: int, j: int|
            0 <= i < j < s.len() ==> place(#[trigger] s[i]) != place(#[trigger] s[j]),
    ensures
        is_arrangement(s, r, place),
    decreases s.len(),
{
    broadcast use vstd::seq_lib::group_to_multiset_ensures;

    if s.len() == 0 {
        s
    } else {
        let rest = s.drop_last();
        let x = s.last();
        let before = some_arrangement(rest, place);
        spots_split_the_list(before, place(x), place);
        let at = spot(before, place(x), place);
        let r = before.insert(at, x);
        assert(s =~= rest.push(x));
        assert forall|k: int| 0 <= k < before.len() implies place(#[trigger] before[k]) != place(
            x,
        ) by {
            assert(before.contains(before[k]));
            arrangement_holds_the_same(rest, before, before[k]);
            let i = choose|i: int| 0 <= i < rest.len() && rest[i] == before[k];
            assert(place(s[i]) != place(s[s.len() - 1]));
        }
        assert forall|i: int, j: int| 0 <= i < j < r.len() implies place_lt(
            place(#[trigger] r[i]),
            place(#[trigger] r[j]),
        ) by {
            let k = if i < at {
                i
            } else {
                i - 1
            };
            let l = if j < at {
                j
            } else {
                j - 1
            };
            if i != at {
                assert(r[i] == before[k]);
            }
            if j != at {
                assert(r[j] == before[l]);
            }
            if i == at {
                place_order_is_total(place(before[at]), place(x));
                if at < l {
                    assert(place_lt(place(before[at]), place(before[l])));
                    place_order_is_transitive(place(x), place(before[at]), place(before[l]));
                }
            } else if j == at {
                assert(place_lt(place(before[k]), place(x)));
            } else {
                assert(place_lt(place(before[k]), place(before[l])));
            }
        }
        r
    }
}

/// Rows that stand in different places stand in order once they are arranged.
pub proof fn rows_are_arranged<V>(s: Seq<V>, place: spec_fn(V) -> PlaceView)
    requires
        forall|i: int, j: int|
            0 <= i < j < s.len() ==> place(#[trigger] s[i]) != place(#[trigger] s[j]),
    ensures
        is_arrangement(s, arranged(s, place), place),
{
    let r = some_arrangement(s, place);
    assert(is_arrangement(s, r, place));
}

/// Rows can be arranged in one way only.
pub proof fn arrangement_is<V>(s: Seq<V>, r: Seq<V>, place: spec_fn(V) -> PlaceView)
    requires
        is_arrangement(s, r, place),
    ensures
        r == arranged(s, place),
{
    broadcast use vstd::seq_lib::group_to_multiset_ensures;

    let a = r;
    let b = arranged(s, place);
    let le = |x: PlaceView, y: PlaceView| place_le(x, y);
    place_order_is_a_total_ordering();
    mapping_keeps_multisets(a, b, place);
    let ka = a.map_values(place);
    let kb = b.map_values(place);
    assert(sorted_by(ka, le)) by {
        assert forall|i: int, j: int| 0 <= i < j < ka.len() implies #[trigger] le(ka[i], ka[j]) by {
            assert(place_lt(place(a[i]), place(a[j])));
        }
    }
    assert(sorted_by(kb, le)) by {
        assert forall|i: int, j: int| 0 <= i < j < kb.len() implies #[trigger] le(kb[i], kb[j]) by {
            assert(place_lt(place(b[i]), place(b[j])));
        }
    }
    vstd::seq_lib::lemma_sorted_unique(ka, kb, le);
    assert forall|i: int| 0 <= i < a.len() implies a[i] == b[i] by {
        assert(ka[i] == kb[i]);
        assert(b.contains(b[i]));
        assert(a.to_multiset().count(b[i]) > 0);
        assert(a.contains(b[i]));
        let j = choose|j: int| 0 <= j < a.len() && a[j] == b[i];
        place_order_is_total(place(a[i]), place(a[j]));
        if i < j {
            assert(place_lt(place(a[i]), place(a[j])));
        } else if j < i {
            assert(place_lt(place(a[j]), place(a[i])));
        }
    }
    assert(a =~= b);
}

/// What an arrangement holds is what it was made of.
pub proof fn arrangement_holds_the_same<V>(s: Seq<V>, r: Seq<V>, x: V)
    requires
        r.to_multiset() == s.to_multiset(),
    ensures
        r.contains(x) <==> s.contains(x),
        r.len() == s.len(),
{
    broadcast use vstd::seq_lib::group_to_multiset_ensures;

    assert(r.to_multiset().len() == r.len());
    assert(s.to_multiset().len() == s.len());
    assert(r.contains(x) <==> r.to_multiset().count(x) > 0);
    assert(s.contains(x) <==> s.to_multiset().count(x) > 0);
}

/// What a list of numbers says.
pub open spec fn whole(s: Seq<i128>) -> Seq<int> {
    s.map_values(|n: i128| n as int)
}

/// A row with the place where it stands.
#[derive(Debug)]
pub struct Placed<T> {
    pub lead: Vec<i128>,
    pub a: String,
    pub b: String,
    pub tail: Vec<i128>,
    pub item: T,
}

impl<T> Placed<T> {
    pub open spec fn place(&self) -> PlaceView {
        (whole(self.lead@), self.a@, self.b@, whole(self.tail@))
    }
}

/// No number.
pub(crate) fn no_number() -> (r: Vec<i128>)
    ensures
        whole(r@) == Seq::<int>::empty(),
{
    let r: Vec<i128> = Vec::new();
    assert(whole(r@) =~= Seq::<int>::empty());
    r
}

/// One number.
pub(crate) fn one_number(n: i128) -> (r: Vec<i128>)
    ensures
        whole(r@) == seq![n as int],
{
    let mut r: Vec<i128> = Vec::new();
    r.push(n);
    assert(whole(r@) =~= seq![n as int]);
    r
}

fn numbers_precede(a: &Vec<i128>, b: &Vec<i128>) -> (r: bool)
    ensures
        r == numbers_lt(whole(a@), whole(b@)),
{
    let ghost x = whole(a@);
    let ghost y = whole(b@);
    let mut i: usize = 0;
    assert(x.skip(0) =~= x && y.skip(0) =~= y);
    while i < a.len() && i < b.len()
        invariant
            i <= a@.len(),
            i <= b@.len(),
            x == whole(a@),
            y == whole(b@),
            numbers_lt(x, y) == numbers_lt(x.skip(i as int), y.skip(i as int)),
        decreases a@.len() - i,
    {
        assert(x.skip(i as int)[0] == a@[i as int] && y.skip(i as int)[0] == b@[i as int]);
        if a[i] != b[i] {
            return a[i] < b[i];
        }
        assert(x.skip(i as int).drop_first() =~= x.skip(i + 1));
        assert(y.skip(i as int).drop_first() =~= y.skip(i + 1));
        i += 1;
    }
    i < b.len()
}

impl<T> Sortable for Placed<T> {
    type Key = PlaceView;

    open spec fn key(&self) -> PlaceView {
        self.place()
    }

    open spec fn in_order(a: PlaceView, b: PlaceView) -> bool {
        place_le(a, b)
    }

    proof fn order_is_total() {
        place_order_is_a_total_ordering();
        assert((|a: PlaceView, b: PlaceView| place_le(a, b)) =~= (|a: PlaceView, b: PlaceView|
            Self::in_order(a, b)));
    }

    fn goes_after(&self, other: &Self) -> (r: bool) {
        proof {
            place_order_is_total(self.place(), other.place());
            number_order_is_total(whole(self.lead@), whole(other.lead@));
            number_order_is_total(whole(self.tail@), whole(other.tail@));
        }
        if numbers_precede(&other.lead, &self.lead) {
            true
        } else if numbers_precede(&self.lead, &other.lead) {
            false
        } else if !same(self.a.as_str(), other.a.as_str()) {
            precedes(other.a.as_str(), self.a.as_str())
        } else if !same(self.b.as_str(), other.b.as_str()) {
            precedes(other.b.as_str(), self.b.as_str())
        } else {
            numbers_precede(&other.tail, &self.tail)
        }
    }
}

/// The rows among placed ones.
pub open spec fn rows_of<T: View>(s: Seq<Placed<T>>) -> Seq<T::V> {
    s.map_values(|p: Placed<T>| p.item@)
}

/// What a list of rows says.
pub open spec fn said<T: View>(s: Seq<T>) -> Seq<T::V> {
    s.map_values(|x: T| x@)
}

/// Each row stands where `place` puts it, and no two stand in one place.
pub open spec fn well_placed<T: View>(
    s: Seq<Placed<T>>,
    place: spec_fn(T::V) -> PlaceView,
) -> bool {
    &&& forall|i: int| 0 <= i < s.len() ==> (#[trigger] s[i]).place() == place(s[i].item@)
    &&& forall|i: int, j: int|
        0 <= i < j < s.len() ==> (#[trigger] s[i]).place() != (#[trigger] s[j]).place()
}

/// Puts rows in order.
pub(crate) fn arrange<T: View>(list: Vec<Placed<T>>, place: Ghost<spec_fn(T::V) -> PlaceView>)
    -> (r: Vec<T>)
    requires
        well_placed(list@, place@),
    ensures
        said(r@) == arranged(rows_of(list@), place@),
        is_arrangement(rows_of(list@), said(r@), place@),
{
    let ghost given = list@;
    let mut sorted = sort(list);
    let ghost done = sorted@;
    proof {
        let item = |p: Placed<T>| p.item@;
        mapping_keeps_multisets(done, given, item);
        let ks = keys(done);
        let kk = keys(given);
        assert(kk.no_duplicates()) by {
            assert forall|i: int, j: int|
                0 <= i < kk.len() && 0 <= j < kk.len() && i != j implies kk[i] != kk[j] by {
                if i < j {
                    assert(given[i].place() != given[j].place());
                } else {
                    assert(given[j].place() != given[i].place());
                }
            }
        }
        kk.lemma_multiset_has_no_duplicates();
        ks.lemma_multiset_has_no_duplicates_conv();
        let r = rows_of(done);
        assert forall|i: int, j: int| 0 <= i < j < r.len() implies place_lt(
            (place@)(#[trigger] r[i]),
            (place@)(#[trigger] r[j]),
        ) by {
            broadcast use vstd::seq_lib::group_to_multiset_ensures;

            assert(ks[i] == done[i].place() && ks[j] == done[j].place());
            assert(ks[i] != ks[j]);
            let leq = |a: PlaceView, b: PlaceView| Placed::<T>::in_order(a, b);
            assert(leq(ks[i], ks[j]));
            assert(done.contains(done[i]) && done.contains(done[j]));
            arrangement_holds_the_same(given, done, done[i]);
            arrangement_holds_the_same(given, done, done[j]);
        }
        assert(is_arrangement(rows_of(given), r, place@));
        arrangement_is(rows_of(given), r, place@);
    }
    let mut back: Vec<T> = Vec::new();
    while sorted.len() > 0
        invariant
            sorted@ =~= done.take(sorted@.len() as int),
            sorted@.len() <= done.len(),
            back@.len() == done.len() - sorted@.len(),
            forall|k: int|
                0 <= k < back@.len() ==> #[trigger] back@[k] == done[done.len() - 1 - k].item,
        decreases sorted@.len(),
    {
        let p = sorted.pop().unwrap();
        back.push(p.item);
    }
    let mut out: Vec<T> = Vec::new();
    while back.len() > 0
        invariant
            out@.len() + back@.len() == done.len(),
            forall|k: int|
                0 <= k < back@.len() ==> #[trigger] back@[k] == done[done.len() - 1 - k].item,
            forall|k: int| 0 <= k < out@.len() ==> #[trigger] out@[k] == done[k].item,
        decreases back@.len(),
    {
        let x = back.pop().unwrap();
        out.push(x);
    }
    assert(said(out@) =~= rows_of(done));
    out
}

/// Picks rows out of a list that hold different places.
pub proof fn picked_rows_differ<V>(
    s: Seq<V>,
    pick: spec_fn(V) -> bool,
    place: spec_fn(V) -> PlaceView,
)
    requires
        forall|i: int, j: int|
            0 <= i < j < s.len() && pick(#[trigger] s[i]) && pick(#[trigger] s[j]) ==> place(s[i])
                != place(s[j]),
    ensures
        forall|i: int, j: int|
            0 <= i < j < s.filter(pick).len() ==> place(#[trigger] s.filter(pick)[i]) != place(
                #[trigger] s.filter(pick)[j],
            ),
{
    picked_items_keep_their_order(s, pick);
    let p = picked_positions(s, pick);
    let f = s.filter(pick);
    assert forall|i: int, j: int| 0 <= i < j < f.len() implies place(#[trigger] f[i]) != place(
        #[trigger] f[j],
    ) by {
        assert(p[i] < p[j]);
        assert(f[i] == s[p[i]] && f[j] == s[p[j]]);
    }
}

/// The rows that are picked are all there once they are arranged, and nothing
/// else is; they stand in the order of their places.
pub proof fn picked_rows_are_arranged<V>(
    s: Seq<V>,
    pick: spec_fn(V) -> bool,
    place: spec_fn(V) -> PlaceView,
)
    requires
        forall|i: int, j: int|
            0 <= i < j < s.len() && pick(#[trigger] s[i]) && pick(#[trigger] s[j]) ==> place(s[i])
                != place(s[j]),
    ensures
        ({
            let r = arranged(s.filter(pick), place);
            &&& forall|x: V| #[trigger] r.contains(x) <==> s.contains(x) && pick(x)
            &&& forall|i: int, j: int|
                0 <= i < j < r.len() ==> place_lt(place(#[trigger] r[i]), place(#[trigger] r[j]))
        }),
{
    picked_rows_differ(s, pick, place);
    let f = s.filter(pick);
    rows_are_arranged(f, place);
    let r = arranged(f, place);
    picked_items_keep_their_order(s, pick);
    let p = picked_positions(s, pick);
    assert forall|x: V| #[trigger] r.contains(x) <==> s.contains(x) && pick(x) by {
        arrangement_holds_the_same(f, r, x);
        if f.contains(x) {
            let k = choose|k: int| 0 <= k < f.len() && f[k] == x;
            assert(s[p[k]] == x);
        }
        if s.contains(x) && pick(x) {
            let i = choose|i: int| 0 <= i < s.len() && s[i] == x;
            s.lemma_filter_contains(pick, i);
        }
    }
}

} // verus!
