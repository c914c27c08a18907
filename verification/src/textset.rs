//! Sets of texts, held as lists in the order of texts.
use vstd::prelude::*;

use crate::text::{precedes, same, text_lt, text_order_is_total, text_order_is_transitive, texts};

verus! {

/// Each text comes before the next ones: in order, and none twice.
pub open spec fn ascending(s: Seq<Seq<char>>) -> bool {
    forall|i: int, j: int| 0 <= i < j < s.len() ==> text_lt(#[trigger] s[i], #[trigger] s[j])
}

/// `list` holds, in order, the texts that `member` picks.
pub open spec fn lists_set(list: Seq<Seq<char>>, member: spec_fn(Seq<char>) -> bool) -> bool {
    &&& ascending(list)
    &&& forall|t: Seq<char>| #[trigger] list.contains(t) <==> member(t)
}

/// A set of texts is listed in one way only.
pub proof fn listing_is_unique(a: Seq<Seq<char>>, b: Seq<Seq<char>>)
    requires
        ascending(a),
        ascending(b),
        forall|t: Seq<char>|
            #![trigger a.contains(t)]
            #![trigger b.contains(t)]
            a.contains(t) <==> b.contains(t),
    ensures
        a == b,
    decreases a.len(),
{
    if a.len() == 0 {
        if b.len() > 0 {
            assert(b.contains(b[0]));
        }
        assert(a =~= b);
    } else {
        assert(a.contains(a.last()));
        assert(b.len() > 0);
        assert(b.contains(b.last()));
        let i = choose|i: int| 0 <= i < b.len() && b[i] == a.last();
        let j = choose|j: int| 0 <= j < a.len() && a[j] == b.last();
        if i != b.len() - 1 {
            assert(text_lt(b[i], b.last()));
            if j != a.len() - 1 {
                assert(text_lt(a[j], a.last()));
                text_order_is_total(a.last(), b.last());
            }
            text_order_is_total(a.last(), b.last());
        }
        assert(a.last() == b.last());
        let a2 = a.drop_last();
        let b2 = b.drop_last();
        assert forall|t: Seq<char>|
            #![trigger a2.contains(t)]
            #![trigger b2.contains(t)]
            a2.contains(t) <==> b2.contains(t) by {
            if a2.contains(t) {
                let k = choose|k: int| 0 <= k < a2.len() && a2[k] == t;
                assert(a[k] == t);
                assert(a.contains(t));
                assert(text_lt(a[k], a.last()));
                text_order_is_total(t, a.last());
                let m = choose|m: int| 0 <= m < b.len() && b[m] == t;
                assert(m < b.len() - 1);
                assert(b2[m] == t);
            }
            if b2.contains(t) {
                let k = choose|k: int| 0 <= k < b2.len() && b2[k] == t;
                assert(b[k] == t);
                assert(b.contains(t));
                assert(text_lt(b[k], b.last()));
                text_order_is_total(t, b.last());
                let m = choose|m: int| 0 <= m < a.len() && a[m] == t;
                assert(m < a.len() - 1);
                assert(a2[m] == t);
            }
        }
        listing_is_unique(a2, b2);
        assert(a =~= a2.push(a.last()));
        assert(b =~= b2.push(b.last()));
    }
}

/// The listing of a set of texts.
pub open spec fn listing(member: spec_fn(Seq<char>) -> bool) -> Seq<Seq<char>> {
    choose|list: Seq<Seq<char>>| lists_set(list, member)
}

/// What lists a set is its listing.
pub proof fn listing_is(list: Seq<Seq<char>>, member: spec_fn(Seq<char>) -> bool)
    requires
        lists_set(list, member),
    ensures
        list == listing(member),
{
    listing_is_unique(list, listing(member));
}

/// Puts a text into a set.
pub fn insert_text(list: &mut Vec<String>, t: String)
    requires
        ascending(texts(old(list)@)),
    ensures
        ascending(texts(final(list)@)),
        forall|x: Seq<char>| #[trigger]
            texts(final(list)@).contains(x) <==> texts(old(list)@).contains(x) || x == t@,
        final(list)@.len() <= old(list)@.len() + 1,
{
    let ghost before = texts(list@);
    let mut i: usize = 0;
    while i < list.len() && precedes(list[i].as_str(), t.as_str())
        invariant
            i <= list@.len(),
            before == texts(list@),
            forall|j: int| 0 <= j < i ==> text_lt(#[trigger] before[j], t@),
        decreases list@.len() - i,
    {
        assert(before[i as int] == list@[i as int]@);
        i += 1;
    }
    if i < list.len() && same(list[i].as_str(), t.as_str()) {
        assert(before[i as int] == t@);
        assert(before.contains(t@));
        return;
    }
    let ghost word = t@;
    list.insert(i, t);
    proof {
        let after = texts(list@);
        assert(after =~= before.insert(i as int, word));
        assert(i < before.len() ==> text_lt(word, before[i as int])) by {
            text_order_is_total(word, before[i as int]);
        }
        assert forall|a: int, b: int| 0 <= a < b < after.len() implies text_lt(
            #[trigger] after[a],
            #[trigger] after[b],
        ) by {
            if a == i {
                assert(after[b] == before[b - 1]);
                if b - 1 > i {
                    assert(text_lt(before[i as int], before[b - 1]));
                    text_order_is_transitive(word, before[i as int], before[b - 1]);
                }
            } else if b == i {
                assert(after[a] == before[a]);
            } else {
                let a0 = if a < i { a } else { a - 1 };
                let b0 = if b < i { b } else { b - 1 };
                assert(after[a] == before[a0] && after[b] == before[b0]);
            }
        }
        assert forall|x: Seq<char>| #[trigger] after.contains(x) <==> before.contains(x) || x
            == word by {
            if before.contains(x) {
                let k = choose|k: int| 0 <= k < before.len() && before[k] == x;
                assert(after[if k < i { k } else { k + 1 }] == x);
            }
            if x == word {
                assert(after[i as int] == x);
            }
            if after.contains(x) && x != word {
                let k = choose|k: int| 0 <= k < after.len() && after[k] == x;
                assert(before[if k < i { k } else { k - 1 }] == x);
            }
        }
    }
}

} // verus!
