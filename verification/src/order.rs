//! Sorting.
use vstd::prelude::*;
use vstd::relations::*;

verus! {

/// What a list can be sorted by: each item has a key, and keys are ordered.
pub trait Sortable: Sized {
    type Key;

    /// What the item is sorted by.
    spec fn key(&self) -> Self::Key;

    /// Keys that may stand next to each other in this order.
    spec fn in_order(a: Self::Key, b: Self::Key) -> bool;

    /// The order on the keys is total: a sorted list of keys is determined by
    /// which keys it holds.
    proof fn order_is_total()
        ensures
            total_ordering(|a: Self::Key, b: Self::Key| Self::in_order(a, b)),
    ;

    fn goes_after(&self, other: &Self) -> (r: bool)
        ensures
            r == !Self::in_order(self.key(), other.key()),
    ;
}

/// The keys of a list.
pub open spec fn keys<T: Sortable>(s: Seq<T>) -> Seq<T::Key> {
    s.map_values(|x: T| x.key())
}

/// `r` holds the items of `s`, and their keys are in order.
pub open spec fn is_sorted_form<T: Sortable>(s: Seq<T>, r: Seq<T>) -> bool {
    &&& r.to_multiset() == s.to_multiset()
    &&& keys(r).to_multiset() == keys(s).to_multiset()
    &&& sorted_by(keys(r), |a: T::Key, b: T::Key| T::in_order(a, b))
}

/// Two sorted lists of the same items have the same keys in the same places.
pub proof fn sorted_form_is_unique<T: Sortable>(s: Seq<T>, t: Seq<T>, a: Seq<T>, b: Seq<T>)
    requires
        keys(s).to_multiset() == keys(t).to_multiset(),
        is_sorted_form(s, a),
        is_sorted_form(t, b),
    ensures
        keys(a) == keys(b),
{
    T::order_is_total();
    vstd::seq_lib::lemma_sorted_unique(
        keys(a),
        keys(b),
        |x: T::Key, y: T::Key| T::in_order(x, y),
    );
}

/// Two lists that hold the same hold the same after each item is replaced by
/// what `f` makes of it.
pub proof fn mapping_keeps_multisets<A, B>(s: Seq<A>, t: Seq<A>, f: spec_fn(A) -> B)
    requires
        s.to_multiset() == t.to_multiset(),
    ensures
        s.map_values(f).to_multiset() == t.map_values(f).to_multiset(),
        s.len() == t.len(),
    decreases s.len(),
{
    broadcast use vstd::seq_lib::group_to_multiset_ensures;

    assert(s.len() == t.len()) by {
        assert(s.to_multiset().len() == s.len());
        assert(t.to_multiset().len() == t.len());
    }
    if s.len() == 0 {
        assert(s.map_values(f) =~= t.map_values(f));
    } else {
        let x = s.last();
        assert(s.contains(x));
        assert(t.to_multiset().count(x) > 0);
        assert(t.contains(x));
        let k = choose|k: int| 0 <= k < t.len() && t[k] == x;
        let s2 = s.drop_last();
        let t2 = t.remove(k);
        assert(s =~= s2.push(x));
        assert(t =~= t2.insert(k, x));
        assert(s2.to_multiset() =~= s.to_multiset().remove(x));
        assert(t2.to_multiset() =~= t.to_multiset().remove(x));
        mapping_keeps_multisets(s2, t2, f);
        assert(s.map_values(f) =~= s2.map_values(f).push(f(x)));
        assert(t.map_values(f) =~= t2.map_values(f).insert(k, f(x)));
    }
}

/// What is picked out of a list with one more item.
pub proof fn filter_of_push<A>(s: Seq<A>, x: A, pick: spec_fn(A) -> bool)
    ensures
        s.push(x).filter(pick) == if pick(x) {
            s.filter(pick).push(x)
        } else {
            s.filter(pick)
        },
{
    reveal(Seq::filter);
    assert(s.push(x).drop_last() =~= s);
}

/// Where the items that are picked stand.
pub open spec fn picked_positions<A>(s: Seq<A>, pick: spec_fn(A) -> bool) -> Seq<int>
    decreases s.len(),
{
    if s.len() == 0 {
        Seq::empty()
    } else {
        let before = picked_positions(s.drop_last(), pick);
        if pick(s.last()) {
            before.push(s.len() - 1)
        } else {
            before
        }
    }
}

/// What is picked stands in the list, in the same order.
pub proof fn picked_items_keep_their_order<A>(s: Seq<A>, pick: spec_fn(A) -> bool)
    ensures
        ({
            let p = picked_positions(s, pick);
            let f = s.filter(pick);
            &&& p.len() == f.len()
            &&& forall|k: int|
                0 <= k < f.len() ==> 0 <= #[trigger] p[k] < s.len() && f[k] == s[p[k]] && pick(f[k])
            &&& forall|k: int, l: int| 0 <= k < l < p.len() ==> p[k] < p[l]
        }),
    decreases s.len(),
{
    reveal(Seq::filter);
    if s.len() > 0 {
        picked_items_keep_their_order(s.drop_last(), pick);
    }
}

/// Sorts a list.
pub fn sort<T: Sortable>(items: Vec<T>) -> (r: Vec<T>)
    ensures
        is_sorted_form(items@, r@),
{
    let ghost leq = |a: T::Key, b: T::Key| T::in_order(a, b);
    let mut rest = items;
    let mut out: Vec<T> = Vec::new();
    proof {
        T::order_is_total();
        broadcast use vstd::seq_lib::group_to_multiset_ensures;
    }
    assert(out@.to_multiset().add(rest@.to_multiset()) =~= items@.to_multiset());
    assert(keys(out@) =~= Seq::<T::Key>::empty());
    assert(keys(out@).to_multiset().add(keys(rest@).to_multiset()) =~= keys(
        items@,
    ).to_multiset());
    while rest.len() > 0
        invariant
            leq == (|a: T::Key, b: T::Key| T::in_order(a, b)),
            total_ordering(leq),
            sorted_by(keys(out@), leq),
            out@.to_multiset().add(rest@.to_multiset()) == items@.to_multiset(),
            keys(out@).to_multiset().add(keys(rest@).to_multiset()) == keys(items@).to_multiset(),
        decreases rest@.len(),
    {
        let ghost out0 = out@;
        let ghost rest0 = rest@;
        let x = rest.pop().unwrap();
        let mut i: usize = 0;
        while i < out.len() && x.goes_after(&out[i])
            invariant
                i <= out@.len(),
                forall|j: int| 0 <= j < i ==> !T::in_order(x.key(), #[trigger] out@[j].key()),
            decreases out@.len() - i,
        {
            i += 1;
        }
        out.insert(i, x);
        proof {
            broadcast use vstd::seq_lib::group_to_multiset_ensures;
            let k0 = keys(out0);
            let k1 = keys(out@);
            assert(k1 =~= k0.insert(i as int, x.key()));
            assert(keys(rest0) =~= keys(rest@).push(x.key()));
            assert(rest0 =~= rest@.push(x));
            assert(out@.to_multiset() =~= out0.to_multiset().insert(x));
            assert(k1.to_multiset() =~= k0.to_multiset().insert(x.key()));
            assert(out@.to_multiset().add(rest@.to_multiset()) =~= items@.to_multiset());
            assert(k1.to_multiset().add(keys(rest@).to_multiset()) =~= keys(items@).to_multiset());
            assert forall|a: int, b: int| 0 <= a < b < k1.len() implies leq(
                #[trigger] k1[a],
                #[trigger] k1[b],
            ) by {
                if a == i {
                    assert(k1[b] == k0[b - 1]);
                    assert(leq(x.key(), k0[i as int]));
                    if i < b - 1 {
                        assert(leq(k0[i as int], k0[b - 1]));
                    }
                } else if b == i {
                    assert(k1[a] == k0[a]);
                    assert(out0[a].key() == k0[a]);
                    assert(!T::in_order(x.key(), out0[a].key()));
                    assert(leq(x.key(), k0[a]) || leq(k0[a], x.key()));
                } else {
                    let a0 = if a < i { a } else { a - 1 };
                    let b0 = if b < i { b } else { b - 1 };
                    assert(k1[a] == k0[a0]);
                    assert(k1[b] == k0[b0]);
                }
            }
        }
    }
    proof {
        broadcast use vstd::seq_lib::group_to_multiset_ensures;
        assert(rest@ =~= Seq::empty());
        assert(keys(rest@) =~= Seq::empty());
        assert(out@.to_multiset() =~= items@.to_multiset());
        assert(keys(out@).to_multiset() =~= keys(items@).to_multiset());
    }
    out
}

} // verus!
