//! When two values have different canonical texts.
use vstd::prelude::*;
use vstd::relations::*;
use vstd::utf8::{encode_utf8, encode_utf8_decode_utf8};

use crate::canon::{
    canonical_text, escape, escaped, in_key_order, item_texts, member_le, member_lines,
    member_order_is_total, member_texts, quoted_text, Decimals, Quoting,
};
use crate::json::JsonView;
use crate::order::mapping_keeps_multisets;
use crate::text::{joined_text, text_le, text_order_is_total, text_order_is_transitive};

verus! {

// ---------- Lists of texts ----------

/// A text without a comma.
pub open spec fn comma_free(t: Seq<char>) -> bool {
    forall|i: int| 0 <= i < t.len() ==> #[trigger] t[i] != ','
}

proof fn common_ends_cancel(p: Seq<char>, a: Seq<char>, b: Seq<char>, s: Seq<char>)
    requires
        p + a + s == p + b + s,
    ensures
        a == b,
{
    let x = p + a + s;
    let y = p + b + s;
    assert(x.len() == p.len() + a.len() + s.len());
    assert(y.len() == p.len() + b.len() + s.len());
    assert(x == y);
    assert(a.len() == b.len());
    assert forall|i: int| 0 <= i < a.len() implies a[i] == b[i] by {
        assert(x[p.len() + i] == a[i]);
        assert(y[p.len() + i] == b[i]);
    }
    assert(a =~= b);
}

/// What stands behind the last comma is known from the whole.
proof fn the_last_comma_splits(x: Seq<char>, a: Seq<char>, y: Seq<char>, b: Seq<char>)
    requires
        comma_free(a),
        comma_free(b),
        x + seq![','] + a == y + seq![','] + b,
    ensures
        x == y,
        a == b,
{
    let s = x + seq![','] + a;
    let t = y + seq![','] + b;
    assert(s[x.len() as int] == ',');
    assert(t[y.len() as int] == ',');
    assert(s.len() == x.len() + 1 + a.len());
    assert(t.len() == y.len() + 1 + b.len());
    if x.len() < y.len() {
        assert(s[y.len() as int] == a[y.len() - x.len() - 1]);
    } else if y.len() < x.len() {
        assert(t[x.len() as int] == b[x.len() - y.len() - 1]);
    }
    assert forall|i: int| 0 <= i < x.len() implies x[i] == y[i] by {
        assert(s[i] == x[i] && t[i] == y[i]);
    }
    assert(x =~= y);
    assert forall|i: int| 0 <= i < a.len() implies a[i] == b[i] by {
        assert(s[x.len() + 1 + i] == a[i] && t[x.len() + 1 + i] == b[i]);
    }
    assert(a =~= b);
}

/// Two lists that differ in one text, whatever it holds, are put together
/// differently.
proof fn one_other_text_shows(a: Seq<Seq<char>>, b: Seq<Seq<char>>, k: int)
    requires
        a.len() == b.len(),
        0 <= k < a.len(),
        a[k] != b[k],
        forall|i: int| 0 <= i < a.len() && i != k ==> #[trigger] a[i] == b[i],
    ensures
        joined_text(a, seq![',']) != joined_text(b, seq![',']),
    decreases a.len(),
{
    let sep = seq![','];
    if a.len() > 1 {
        let x = a.drop_last();
        let y = b.drop_last();
        let n = a.len() - 1;
        let jx = joined_text(x, sep);
        let jy = joined_text(y, sep);
        if k < n {
            one_other_text_shows(x, y, k);
            assert(a[n] == b[n]);
            if joined_text(a, sep) == joined_text(b, sep) {
                assert(jx + sep + a[n] =~= Seq::empty() + jx + (sep + a[n]));
                assert(jy + sep + b[n] =~= Seq::empty() + jy + (sep + b[n]));
                common_ends_cancel(Seq::empty(), jx, jy, sep + a[n]);
            }
        } else {
            assert(x =~= y);
            if joined_text(a, sep) == joined_text(b, sep) {
                assert(jx + sep + a[n] =~= (jx + sep) + a[n] + Seq::empty());
                assert(jy + sep + b[n] =~= (jx + sep) + b[n] + Seq::empty());
                common_ends_cancel(jx + sep, a[n], b[n], Seq::empty());
            }
        }
    }
}

/// Two lists that differ in texts without commas only are put together
/// differently.
proof fn other_texts_without_commas_show(a: Seq<Seq<char>>, b: Seq<Seq<char>>, k: int)
    requires
        a.len() == b.len(),
        0 <= k < a.len(),
        a[k] != b[k],
        forall|i: int|
            0 <= i < a.len() ==> #[trigger] a[i] == b[i] || (comma_free(a[i]) && comma_free(b[i])),
    ensures
        joined_text(a, seq![',']) != joined_text(b, seq![',']),
    decreases a.len(),
{
    let sep = seq![','];
    if a.len() > 1 {
        let x = a.drop_last();
        let y = b.drop_last();
        let n = a.len() - 1;
        let jx = joined_text(x, sep);
        let jy = joined_text(y, sep);
        if joined_text(a, sep) == joined_text(b, sep) {
            assert(a[n] == b[n] || (comma_free(a[n]) && comma_free(b[n])));
            if a[n] == b[n] {
                assert(jx + sep + a[n] =~= Seq::empty() + jx + (sep + a[n]));
                assert(jy + sep + b[n] =~= Seq::empty() + jy + (sep + b[n]));
                common_ends_cancel(Seq::empty(), jx, jy, sep + a[n]);
            } else {
                the_last_comma_splits(jx, a[n], jy, b[n]);
            }
            assert forall|i: int| 0 <= i < x.len() implies #[trigger] x[i] == y[i] || (comma_free(
                x[i],
            ) && comma_free(y[i])) by {
                assert(a[i] == b[i] || (comma_free(a[i]) && comma_free(b[i])));
            }
            assert(k < n);
            other_texts_without_commas_show(x, y, k);
        }
    }
}

// ---------- Arrays ----------

/// Two arrays that differ in one item, in a way that shows in the text of the
/// item, have different texts.
pub proof fn one_other_item_shows(
    x: Seq<JsonView>,
    y: Seq<JsonView>,
    k: int,
    d: Decimals,
    q: Quoting,
)
    requires
        x.len() == y.len(),
        0 <= k < x.len(),
        forall|i: int| 0 <= i < x.len() && i != k ==> #[trigger] x[i] == y[i],
        canonical_text(x[k], d, q) != canonical_text(y[k], d, q),
    ensures
        canonical_text(JsonView::Array(x), d, q) != canonical_text(JsonView::Array(y), d, q),
{
    let a = item_texts(x, d, q);
    let b = item_texts(y, d, q);
    assert forall|i: int| 0 <= i < a.len() && i != k implies #[trigger] a[i] == b[i] by {
        assert(x[i] == y[i]);
    }
    one_other_text_shows(a, b, k);
    if canonical_text(JsonView::Array(x), d, q) == canonical_text(JsonView::Array(y), d, q) {
        common_ends_cancel(
            seq!['['],
            joined_text(a, seq![',']),
            joined_text(b, seq![',']),
            seq![']'],
        );
    }
}

/// Two arrays that differ only in items whose texts hold no comma have different
/// texts where one of these texts differs.
pub proof fn other_items_without_commas_show(
    x: Seq<JsonView>,
    y: Seq<JsonView>,
    k: int,
    d: Decimals,
    q: Quoting,
)
    requires
        x.len() == y.len(),
        0 <= k < x.len(),
        forall|i: int|
            0 <= i < x.len() ==> #[trigger] x[i] == y[i] || (comma_free(canonical_text(x[i], d, q))
                && comma_free(canonical_text(y[i], d, q))),
        canonical_text(x[k], d, q) != canonical_text(y[k], d, q),
    ensures
        canonical_text(JsonView::Array(x), d, q) != canonical_text(JsonView::Array(y), d, q),
{
    let a = item_texts(x, d, q);
    let b = item_texts(y, d, q);
    assert forall|i: int| 0 <= i < a.len() implies #[trigger] a[i] == b[i] || (comma_free(a[i])
        && comma_free(b[i])) by {
        assert(x[i] == y[i] || comma_free(canonical_text(x[i], d, q)));
    }
    other_texts_without_commas_show(a, b, k);
    if canonical_text(JsonView::Array(x), d, q) == canonical_text(JsonView::Array(y), d, q) {
        common_ends_cancel(
            seq!['['],
            joined_text(a, seq![',']),
            joined_text(b, seq![',']),
            seq![']'],
        );
    }
}

// ---------- Objects ----------

proof fn text_order_is_a_total_ordering()
    ensures
        total_ordering(|a: Seq<char>, b: Seq<char>| text_le(a, b)),
{
    let le = |a: Seq<char>, b: Seq<char>| text_le(a, b);
    assert forall|a: Seq<char>, b: Seq<char>| #[trigger] le(a, b) && #[trigger] le(b, a) implies a
        == b by {
        text_order_is_total(a, b);
    }
    assert forall|a: Seq<char>, b: Seq<char>, c: Seq<char>| #[trigger] le(a, b) && #[trigger] le(
        b,
        c,
    ) implies le(a, c) by {
        if a != b && b != c {
            text_order_is_transitive(a, b, c);
        }
    }
    assert forall|a: Seq<char>, b: Seq<char>| #[trigger] le(a, b) || #[trigger] le(b, a) by {
        text_order_is_total(a, b);
    }
}

proof fn keys_are_in_order(s: Seq<(Seq<char>, Seq<char>)>)
    ensures
        in_key_order(s).to_multiset() == s.to_multiset(),
        sorted_by(
            in_key_order(s).map_values(|m: (Seq<char>, Seq<char>)| m.0),
            |a: Seq<char>, b: Seq<char>| text_le(a, b),
        ),
        in_key_order(s).map_values(|m: (Seq<char>, Seq<char>)| m.0).to_multiset() == s.map_values(
            |m: (Seq<char>, Seq<char>)| m.0,
        ).to_multiset(),
        in_key_order(s).len() == s.len(),
{
    let le = |a: (Seq<char>, Seq<char>), b: (Seq<char>, Seq<char>)| member_le(a, b);
    let tle = |a: Seq<char>, b: Seq<char>| text_le(a, b);
    let f = |m: (Seq<char>, Seq<char>)| m.0;
    member_order_is_total();
    s.lemma_sort_by_ensures(le);
    let r = in_key_order(s);
    let ks = r.map_values(f);
    assert forall|i: int, j: int| 0 <= i < j < ks.len() implies #[trigger] tle(ks[i], ks[j]) by {
        assert(le(r[i], r[j]));
    }
    mapping_keeps_multisets(r, s, f);
}

/// The members of an object have different keys.
pub open spec fn keys_differ(x: Seq<(Seq<char>, JsonView)>) -> bool {
    forall|i: int, j: int| 0 <= i < j < x.len() ==> (#[trigger] x[i]).0 != (#[trigger] x[j]).0
}

/// Two objects have the same keys in the same order.
pub open spec fn keys_agree(x: Seq<(Seq<char>, JsonView)>, y: Seq<(Seq<char>, JsonView)>) -> bool {
    &&& x.len() == y.len()
    &&& forall|i: int| 0 <= i < x.len() ==> (#[trigger] x[i]).0 == y[i].0
}

proof fn places_agree(
    x: Seq<(Seq<char>, JsonView)>,
    y: Seq<(Seq<char>, JsonView)>,
    d: Decimals,
    q: Quoting,
) -> (p: Seq<int>)
    requires
        keys_agree(x, y),
        keys_differ(x),
    ensures
        p.len() == x.len(),
        in_key_order(member_texts(x, d, q)).len() == x.len(),
        in_key_order(member_texts(y, d, q)).len() == x.len(),
        forall|i: int|
            0 <= i < p.len() ==> 0 <= #[trigger] p[i] < x.len() && in_key_order(
                member_texts(x, d, q),
            )[i] == member_texts(x, d, q)[p[i]] && in_key_order(member_texts(y, d, q))[i]
                == member_texts(y, d, q)[p[i]],
        forall|k: int| 0 <= k < x.len() ==> #[trigger] p.contains(k),
        forall|i: int, j: int| 0 <= i < j < p.len() ==> #[trigger] p[i] != #[trigger] p[j],
{
    broadcast use vstd::seq_lib::group_to_multiset_ensures;

    let f = |m: (Seq<char>, Seq<char>)| m.0;
    let tle = |a: Seq<char>, b: Seq<char>| text_le(a, b);
    let s = member_texts(x, d, q);
    let t = member_texts(y, d, q);
    let a = in_key_order(s);
    let b = in_key_order(t);
    keys_are_in_order(s);
    keys_are_in_order(t);
    text_order_is_a_total_ordering();
    assert(s.map_values(f) =~= t.map_values(f)) by {
        assert forall|i: int| 0 <= i < s.len() implies s.map_values(f)[i] == t.map_values(f)[i] by {
            assert(x[i].0 == y[i].0);
        }
    }
    vstd::seq_lib::lemma_sorted_unique(a.map_values(f), b.map_values(f), tle);
    assert(s.no_duplicates()) by {
        assert forall|i: int, j: int| 0 <= i < s.len() && 0 <= j < s.len() && i != j implies s[i]
            != s[j] by {
            if i < j {
                assert(x[i].0 != x[j].0);
            } else {
                assert(x[j].0 != x[i].0);
            }
        }
    }
    s.lemma_multiset_has_no_duplicates();
    a.lemma_multiset_has_no_duplicates_conv();
    let p = Seq::new(a.len(), |i: int| choose|j: int| 0 <= j < s.len() && s[j] == a[i]);
    assert forall|i: int| 0 <= i < p.len() implies 0 <= #[trigger] p[i] < x.len() && a[i] == s[p[i]]
        && b[i] == t[p[i]] by {
        assert(a.contains(a[i]));
        assert(s.to_multiset().count(a[i]) > 0);
        assert(s.contains(a[i]));
        assert(b.contains(b[i]));
        assert(t.to_multiset().count(b[i]) > 0);
        assert(t.contains(b[i]));
        let m = choose|m: int| 0 <= m < t.len() && t[m] == b[i];
        let j = p[i];
        assert(a.map_values(f)[i] == b.map_values(f)[i]);
        assert(x[j].0 == y[m].0);
        assert(x[m].0 == y[m].0);
        if j < m {
            assert(x[j].0 != x[m].0);
        } else if m < j {
            assert(x[m].0 != x[j].0);
        }
    }
    assert forall|k: int| 0 <= k < x.len() implies #[trigger] p.contains(k) by {
        assert(s.contains(s[k]));
        assert(a.to_multiset().count(s[k]) > 0);
        assert(a.contains(s[k]));
        let i = choose|i: int| 0 <= i < a.len() && a[i] == s[k];
        assert(s[p[i]] == s[k]);
        assert(x[p[i]].0 == x[k].0);
        assert(p[i] == k);
    }
    assert forall|i: int, j: int| 0 <= i < j < p.len() implies #[trigger] p[i] != #[trigger] p[j] by {
        assert(a[i] != a[j]);
    }
    p
}

/// Two objects that differ in the value of one member, in a way that shows in
/// the text of the value, have different texts.
pub proof fn one_other_member_shows(
    x: Seq<(Seq<char>, JsonView)>,
    y: Seq<(Seq<char>, JsonView)>,
    k: int,
    d: Decimals,
    q: Quoting,
)
    requires
        keys_agree(x, y),
        keys_differ(x),
        0 <= k < x.len(),
        forall|i: int| 0 <= i < x.len() && i != k ==> #[trigger] x[i] == y[i],
        canonical_text(x[k].1, d, q) != canonical_text(y[k].1, d, q),
    ensures
        canonical_text(JsonView::Object(x), d, q) != canonical_text(JsonView::Object(y), d, q),
{
    let p = places_agree(x, y, d, q);
    let s = member_texts(x, d, q);
    let t = member_texts(y, d, q);
    let a = in_key_order(s);
    let b = in_key_order(t);
    let la = member_lines(a, q);
    let lb = member_lines(b, q);
    let at = choose|at: int| 0 <= at < p.len() && p[at] == k;
    assert(p.contains(k));
    assert forall|i: int| 0 <= i < la.len() && i != at implies #[trigger] la[i] == lb[i] by {
        if i < at {
            assert(p[i] != p[at]);
        } else {
            assert(p[at] != p[i]);
        }
        assert(x[p[i]] == y[p[i]]);
        assert(a[i] == s[p[i]] && b[i] == t[p[i]]);
    }
    let lead = quoted_text(x[k].0, q) + seq![':'];
    assert(a[at] == s[p[at]] && b[at] == t[p[at]]);
    assert(x[k].0 == y[k].0);
    assert(la[at] == lead + s[k].1);
    assert(lb[at] == lead + t[k].1);
    if la[at] == lb[at] {
        assert(lead + s[k].1 =~= lead + s[k].1 + Seq::empty());
        assert(lead + t[k].1 =~= lead + t[k].1 + Seq::empty());
        common_ends_cancel(lead, s[k].1, t[k].1, Seq::empty());
    }
    one_other_text_shows(la, lb, at);
    if canonical_text(JsonView::Object(x), d, q) == canonical_text(JsonView::Object(y), d, q) {
        common_ends_cancel(
            seq!['{'],
            joined_text(la, seq![',']),
            joined_text(lb, seq![',']),
            seq!['}'],
        );
    }
}

/// Two objects that differ only in values whose texts hold no comma, under keys
/// that hold none, have different texts where one of these texts differs.
pub proof fn other_members_without_commas_show(
    x: Seq<(Seq<char>, JsonView)>,
    y: Seq<(Seq<char>, JsonView)>,
    k: int,
    d: Decimals,
    q: Quoting,
)
    requires
        keys_agree(x, y),
        keys_differ(x),
        0 <= k < x.len(),
        forall|i: int|
            0 <= i < x.len() ==> #[trigger] x[i] == y[i] || (comma_free(quoted_text(x[i].0, q))
                && comma_free(canonical_text(x[i].1, d, q)) && comma_free(
                canonical_text(y[i].1, d, q),
            )),
        canonical_text(x[k].1, d, q) != canonical_text(y[k].1, d, q),
    ensures
        canonical_text(JsonView::Object(x), d, q) != canonical_text(JsonView::Object(y), d, q),
{
    let p = places_agree(x, y, d, q);
    let s = member_texts(x, d, q);
    let t = member_texts(y, d, q);
    let a = in_key_order(s);
    let b = in_key_order(t);
    let la = member_lines(a, q);
    let lb = member_lines(b, q);
    let at = choose|at: int| 0 <= at < p.len() && p[at] == k;
    assert(p.contains(k));
    assert forall|i: int| 0 <= i < la.len() implies #[trigger] la[i] == lb[i] || (comma_free(la[i])
        && comma_free(lb[i])) by {
        let j = p[i];
        assert(a[i] == s[j] && b[i] == t[j]);
        assert(x[j].0 == y[j].0);
        assert(x[j] == y[j] || comma_free(quoted_text(x[j].0, q)));
        if x[j] != y[j] {
            let lead = quoted_text(x[j].0, q);
            assert(la[i] == lead + seq![':'] + s[j].1);
            assert(lb[i] == lead + seq![':'] + t[j].1);
            a_line_is_comma_free(lead, s[j].1);
            a_line_is_comma_free(lead, t[j].1);
        }
    }
    let lead = quoted_text(x[k].0, q) + seq![':'];
    assert(a[at] == s[p[at]] && b[at] == t[p[at]]);
    assert(x[k].0 == y[k].0);
    assert(la[at] == lead + s[k].1);
    assert(lb[at] == lead + t[k].1);
    if la[at] == lb[at] {
        assert(lead + s[k].1 =~= lead + s[k].1 + Seq::empty());
        assert(lead + t[k].1 =~= lead + t[k].1 + Seq::empty());
        common_ends_cancel(lead, s[k].1, t[k].1, Seq::empty());
    }
    other_texts_without_commas_show(la, lb, at);
    if canonical_text(JsonView::Object(x), d, q) == canonical_text(JsonView::Object(y), d, q) {
        common_ends_cancel(
            seq!['{'],
            joined_text(la, seq![',']),
            joined_text(lb, seq![',']),
            seq!['}'],
        );
    }
}

proof fn a_line_is_comma_free(lead: Seq<char>, value: Seq<char>)
    requires
        comma_free(lead),
        comma_free(value),
    ensures
        comma_free(lead + seq![':'] + value),
{
    let t = lead + seq![':'] + value;
    assert forall|i: int| 0 <= i < t.len() implies #[trigger] t[i] != ',' by {
        if i < lead.len() {
            assert(t[i] == lead[i]);
        } else if i > lead.len() {
            assert(t[i] == value[i - lead.len() - 1]);
        }
    }
}

// ---------- Quoted texts ----------

proof fn escapes_come_first(s: Seq<char>, q: Quoting)
    requires
        s.len() > 0,
    ensures
        escaped(s, q) == escape(s[0], q) + escaped(s.drop_first(), q),
    decreases s.len(),
{
    if s.len() == 1 {
        assert(s.drop_last() =~= Seq::empty());
        assert(s.drop_first() =~= Seq::empty());
        assert(escaped(s, q) =~= escape(s[0], q) + escaped(s.drop_first(), q));
    } else {
        let rest = s.drop_last();
        escapes_come_first(rest, q);
        assert(rest.drop_first() =~= s.drop_first().drop_last());
        assert(s.drop_first().last() == s.last());
        assert(escaped(s, q) =~= escape(s[0], q) + escaped(s.drop_first(), q));
    }
}

proof fn hex_digits_differ(m: int, n: int)
    requires
        0 <= m < 16,
        0 <= n < 16,
        crate::digest::hex_digit(m) == crate::digest::hex_digit(n),
    ensures
        m == n,
{
}

/// Where two texts begin with escapes of two characters and go on somehow, and
/// are the same, so are the characters.
proof fn escapes_tell(c: char, e: char, x: Seq<char>, y: Seq<char>, q: Quoting)
    requires
        escape(c, q) + x == escape(e, q) + y,
    ensures
        c == e,
        x == y,
{
    let a = escape(c, q) + x;
    let b = escape(e, q) + y;
    assert(a[0] == escape(c, q)[0]);
    assert(b[0] == escape(e, q)[0]);
    if escape(c, q).len() > 1 {
        assert(a[1] == escape(c, q)[1]);
    }
    if escape(e, q).len() > 1 {
        assert(b[1] == escape(e, q)[1]);
    }
    if escape(c, q).len() == 6 && escape(e, q).len() == 6 {
        assert(a[4] == escape(c, q)[4] && a[5] == escape(c, q)[5]);
        assert(b[4] == escape(e, q)[4] && b[5] == escape(e, q)[5]);
        let m = (c as u32) as int;
        let n = (e as u32) as int;
        hex_digits_differ(m / 16, n / 16);
        hex_digits_differ(m % 16, n % 16);
    }
    assert(c == e);
    assert(a =~= escape(c, q) + x + Seq::empty());
    assert(b =~= escape(c, q) + y + Seq::empty());
    common_ends_cancel(escape(c, q), x, y, Seq::empty());
}

proof fn escaped_texts_differ(a: Seq<char>, b: Seq<char>, q: Quoting)
    requires
        escaped(a, q) == escaped(b, q),
    ensures
        a == b,
    decreases a.len(),
{
    if a.len() == 0 {
        if b.len() > 0 {
            escapes_come_first(b, q);
            assert(escape(b[0], q).len() > 0);
        }
        assert(a =~= b);
    } else if b.len() == 0 {
        escapes_come_first(a, q);
        assert(escape(a[0], q).len() > 0);
    } else {
        escapes_come_first(a, q);
        escapes_come_first(b, q);
        escapes_tell(a[0], b[0], escaped(a.drop_first(), q), escaped(b.drop_first(), q), q);
        escaped_texts_differ(a.drop_first(), b.drop_first(), q);
        assert(a =~= seq![a[0]] + a.drop_first());
        assert(b =~= seq![b[0]] + b.drop_first());
    }
}

/// Two texts that differ differ when they are quoted, whatever they hold.
pub proof fn other_texts_are_quoted_differently(a: Seq<char>, b: Seq<char>, q: Quoting)
    requires
        a != b,
    ensures
        quoted_text(a, q) != quoted_text(b, q),
{
    if quoted_text(a, q) == quoted_text(b, q) {
        common_ends_cancel(seq!['"'], escaped(a, q), escaped(b, q), seq!['"']);
        escaped_texts_differ(a, b, q);
    }
}

/// A text without a comma is quoted without one.
pub proof fn quoting_brings_no_comma(s: Seq<char>, q: Quoting)
    requires
        comma_free(s),
    ensures
        comma_free(quoted_text(s, q)),
{
    escaping_brings_no_comma(s, q);
    let t = quoted_text(s, q);
    assert forall|i: int| 0 <= i < t.len() implies #[trigger] t[i] != ',' by {
        if 0 < i < t.len() - 1 {
            assert(t[i] == escaped(s, q)[i - 1]);
        }
    }
}

proof fn escaping_brings_no_comma(s: Seq<char>, q: Quoting)
    requires
        comma_free(s),
    ensures
        comma_free(escaped(s, q)),
    decreases s.len(),
{
    if s.len() > 0 {
        let rest = s.drop_last();
        assert forall|i: int| 0 <= i < rest.len() implies #[trigger] rest[i] != ',' by {
            assert(rest[i] == s[i]);
        }
        escaping_brings_no_comma(rest, q);
        let c = s[s.len() - 1];
        let x = escaped(rest, q);
        let e = escape(c, q);
        let t = escaped(s, q);
        assert(c != ',');
        assert forall|i: int| 0 <= i < t.len() implies #[trigger] t[i] != ',' by {
            if i < x.len() {
                assert(t[i] == x[i]);
            } else {
                assert(t[i] == e[i - x.len()]);
            }
        }
    }
}

/// Two different texts are different bytes.
pub proof fn other_texts_are_other_bytes(a: Seq<char>, b: Seq<char>)
    requires
        a != b,
    ensures
        encode_utf8(a) != encode_utf8(b),
{
    encode_utf8_decode_utf8(a);
    encode_utf8_decode_utf8(b);
}

} // verus!
