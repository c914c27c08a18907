//! Canonical texts of JSON values: what a fingerprint is taken of.
//!
//! An object is written with its keys in the order of texts, so that the order
//! in which the members came does not matter.
use vstd::prelude::*;
use vstd::relations::*;
use vstd::string::*;
use vstd::utf8::{encode_utf8, encode_utf8_decode_utf8};

use crate::digest::{fingerprint, framed, hex_digit, sha256_hex, slices, text_fingerprint};
use crate::double::Double;
use crate::json::{Json, JsonView};
use crate::order::{keys, sort, Sortable};
use crate::text::{
    chars_of, joined, joined_text, same, signed, signed_text, text_le, text_lt, text_order_is_total,
    text_order_is_transitive, texts,
};

verus! {

/// The decimal texts of the doubles that occur in a value, as the numeric side
/// of the program writes them.
#[derive(Debug)]
pub struct Decimals {
    pub entries: Vec<(u64, String)>,
}

/// The text of the first entry for a bit pattern; empty if there is none.
pub open spec fn first_entry(entries: Seq<(u64, String)>, bits: u64) -> Seq<char>
    decreases entries.len(),
{
    if entries.len() == 0 {
        Seq::empty()
    } else if entries[0].0 == bits {
        entries[0].1@
    } else {
        first_entry(entries.drop_first(), bits)
    }
}

impl Decimals {
    /// How a double is written: `null` for what is no finite number, else the
    /// text that the table holds for it.
    pub open spec fn written(self, f: Double) -> Seq<char> {
        if f.finite() {
            first_entry(self.entries@, f.bits)
        } else {
            "null"@
        }
    }

    /// Writes a double out.
    pub fn write(&self, f: Double) -> (r: String)
        ensures
            r@ == self.written(f),
    {
        if !f.is_finite() {
            return "null".to_owned();
        }
        let mut i: usize = 0;
        assert(self.entries@.skip(0) =~= self.entries@);
        while i < self.entries.len()
            invariant
                i <= self.entries@.len(),
                f.finite(),
                first_entry(self.entries@, f.bits) == first_entry(
                    self.entries@.skip(i as int),
                    f.bits,
                ),
            decreases self.entries@.len() - i,
        {
            assert(self.entries@.skip(i as int)[0] == self.entries@[i as int]);
            if self.entries[i].0 == f.bits {
                return self.entries[i].1.clone();
            }
            assert(self.entries@.skip(i as int).drop_first() =~= self.entries@.skip(i + 1));
            i += 1;
        }
        String::new()
    }
}

/// The two ways in which a canonical text quotes strings.
#[derive(Clone, Copy, Debug, PartialEq, Eq, Structural)]
pub enum Quoting {
    /// As JSON writers do, with short escapes for backspace and form feed.
    Full,
    /// With short escapes for the quote, the backslash, line feed, carriage
    /// return and tab only.
    Plain,
}

/// A control character as an escape of four hexadecimal digits.
pub open spec fn unicode_escape(c: char) -> Seq<char> {
    seq!['\\', 'u', '0', '0', hex_digit((c as u32) as int / 16), hex_digit((c as u32) as int % 16)]
}

/// How a character stands inside a quoted string.
pub open spec fn escape(c: char, q: Quoting) -> Seq<char> {
    if c == '"' {
        seq!['\\', '"']
    } else if c == '\\' {
        seq!['\\', '\\']
    } else if c == '\n' {
        seq!['\\', 'n']
    } else if c == '\r' {
        seq!['\\', 'r']
    } else if c == '\t' {
        seq!['\\', 't']
    } else if q == Quoting::Full && c as u32 == 8 {
        seq!['\\', 'b']
    } else if q == Quoting::Full && c as u32 == 12 {
        seq!['\\', 'f']
    } else if (c as u32) < 0x20 {
        unicode_escape(c)
    } else {
        seq![c]
    }
}

pub open spec fn escaped(s: Seq<char>, q: Quoting) -> Seq<char>
    decreases s.len(),
{
    if s.len() == 0 {
        Seq::empty()
    } else {
        escaped(s.drop_last(), q) + escape(s.last(), q)
    }
}

/// A string between quotes.
pub open spec fn quoted_text(s: Seq<char>, q: Quoting) -> Seq<char> {
    seq!['"'] + escaped(s, q) + seq!['"']
}

/// `serde_json::to_string` on a string: the string between quotes, with `"` and
/// `\` behind a backslash, the short escapes for backspace, tab, line feed, form
/// feed and carriage return, and four hexadecimal digits for every other
/// character below the space. Writing a string does not fail.
#[verifier::external_body]
pub(crate) fn json_string(s: &str) -> (r: String)
    ensures
        r@ == quoted_text(s@, Quoting::Full),
{
    serde_json::to_string(s).unwrap_or_default()
}

fn hex_char(n: u32) -> (r: char)
    requires
        n < 16,
    ensures
        r == hex_digit(n as int),
{
    if n == 0 {
        '0'
    } else if n == 1 {
        '1'
    } else if n == 2 {
        '2'
    } else if n == 3 {
        '3'
    } else if n == 4 {
        '4'
    } else if n == 5 {
        '5'
    } else if n == 6 {
        '6'
    } else if n == 7 {
        '7'
    } else if n == 8 {
        '8'
    } else if n == 9 {
        '9'
    } else if n == 10 {
        'a'
    } else if n == 11 {
        'b'
    } else if n == 12 {
        'c'
    } else if n == 13 {
        'd'
    } else if n == 14 {
        'e'
    } else {
        'f'
    }
}

fn plain_string(s: &str) -> (r: String)
    ensures
        r@ == quoted_text(s@, Quoting::Plain),
{
    let chars = chars_of(s);
    let mut out = String::new();
    out.push('"');
    let mut i: usize = 0;
    while i < chars.len()
        invariant
            i <= chars@.len(),
            chars@ == s@,
            out@ =~= seq!['"'] + escaped(chars@.take(i as int), Quoting::Plain),
        decreases chars@.len() - i,
    {
        let c = chars[i];
        let ghost before = out@;
        if c == '"' {
            out.push('\\');
            out.push('"');
        } else if c == '\\' {
            out.push('\\');
            out.push('\\');
        } else if c == '\n' {
            out.push('\\');
            out.push('n');
        } else if c == '\r' {
            out.push('\\');
            out.push('r');
        } else if c == '\t' {
            out.push('\\');
            out.push('t');
        } else if (c as u32) < 0x20 {
            let u: u32 = c as u32;
            out.push('\\');
            out.push('u');
            out.push('0');
            out.push('0');
            out.push(hex_char(u / 16));
            out.push(hex_char(u % 16));
        } else {
            out.push(c);
        }
        assert(out@ =~= before + escape(c, Quoting::Plain));
        assert(chars@.take(i + 1).drop_last() =~= chars@.take(i as int));
        i += 1;
    }
    assert(chars@.take(i as int) =~= chars@);
    out.push('"');
    assert(out@ =~= quoted_text(s@, Quoting::Plain));
    out
}

fn quote(s: &str, q: Quoting) -> (r: String)
    ensures
        r@ == quoted_text(s@, q),
{
    match q {
        Quoting::Full => json_string(s),
        Quoting::Plain => plain_string(s),
    }
}

/// The order of the members of an object: by key, and by text where one key
/// occurs twice.
pub open spec fn member_le(
    a: (Seq<char>, Seq<char>),
    b: (Seq<char>, Seq<char>),
) -> bool {
    if a.0 == b.0 {
        text_le(a.1, b.1)
    } else {
        text_lt(a.0, b.0)
    }
}

/// Members are totally ordered.
pub proof fn member_order_is_total()
    ensures
        total_ordering(|a: (Seq<char>, Seq<char>), b: (Seq<char>, Seq<char>)| member_le(a, b)),
{
    let le = |a: (Seq<char>, Seq<char>), b: (Seq<char>, Seq<char>)| member_le(a, b);
    assert forall|a: (Seq<char>, Seq<char>), b: (Seq<char>, Seq<char>)| #[trigger]
        le(a, b) && #[trigger] le(b, a) implies a == b by {
        text_order_is_total(a.0, b.0);
        text_order_is_total(a.1, b.1);
    }
    assert forall|
        a: (Seq<char>, Seq<char>),
        b: (Seq<char>, Seq<char>),
        c: (Seq<char>, Seq<char>),
    | #[trigger]
        le(a, b) && #[trigger] le(b, c) implies le(a, c) by {
        if a.0 == b.0 && b.0 == c.0 {
            if a.1 != b.1 && b.1 != c.1 {
                text_order_is_transitive(a.1, b.1, c.1);
            }
        } else if a.0 != b.0 && b.0 != c.0 {
            text_order_is_transitive(a.0, b.0, c.0);
            text_order_is_total(a.0, c.0);
        }
    }
    assert forall|a: (Seq<char>, Seq<char>), b: (Seq<char>, Seq<char>)| #[trigger]
        le(a, b) || #[trigger] le(b, a) by {
        text_order_is_total(a.0, b.0);
        text_order_is_total(a.1, b.1);
    }
}

/// The members in their order.
pub open spec fn in_key_order(members: Seq<(Seq<char>, Seq<char>)>) -> Seq<
    (Seq<char>, Seq<char>),
> {
    members.sort_by(|a: (Seq<char>, Seq<char>), b: (Seq<char>, Seq<char>)| member_le(a, b))
}

/// Each member as its quoted key, a colon and its value.
pub open spec fn member_lines(members: Seq<(Seq<char>, Seq<char>)>, q: Quoting) -> Seq<
    Seq<char>,
> {
    members.map_values(|m: (Seq<char>, Seq<char>)| quoted_text(m.0, q) + seq![':'] + m.1)
}

/// The canonical text of a value.
pub open spec fn canonical_text(v: JsonView, d: Decimals, q: Quoting) -> Seq<char>
    decreases v,
{
    match v {
        JsonView::Null => "null"@,
        JsonView::Bool(b) => if b {
            "true"@
        } else {
            "false"@
        },
        JsonView::Int(n) => signed_text(n),
        JsonView::Float(f) => d.written(f),
        JsonView::Text(s) => quoted_text(s, q),
        JsonView::Array(items) => seq!['['] + joined_text(item_texts(items, d, q), seq![','])
            + seq![']'],
        JsonView::Object(members) => seq!['{'] + joined_text(
            member_lines(in_key_order(member_texts(members, d, q)), q),
            seq![','],
        ) + seq!['}'],
    }
}

/// The canonical texts of the items of an array.
pub open spec fn item_texts(items: Seq<JsonView>, d: Decimals, q: Quoting) -> Seq<Seq<char>>
    decreases items,
{
    Seq::new(
        items.len(),
        |i: int|
            if 0 <= i < items.len() {
                canonical_text(items[i], d, q)
            } else {
                Seq::empty()
            },
    )
}

/// The members of an object with their values written out.
pub open spec fn member_texts(
    members: Seq<(Seq<char>, JsonView)>,
    d: Decimals,
    q: Quoting,
) -> Seq<(Seq<char>, Seq<char>)>
    decreases members,
{
    Seq::new(
        members.len(),
        |i: int|
            if 0 <= i < members.len() {
                (members[i].0, canonical_text(members[i].1, d, q))
            } else {
                (Seq::empty(), Seq::empty())
            },
    )
}

struct Member {
    key: String,
    value: String,
}

impl Sortable for Member {
    type Key = (Seq<char>, Seq<char>);

    closed spec fn key(&self) -> (Seq<char>, Seq<char>) {
        (self.key@, self.value@)
    }

    closed spec fn in_order(a: (Seq<char>, Seq<char>), b: (Seq<char>, Seq<char>)) -> bool {
        member_le(a, b)
    }

    proof fn order_is_total() {
        member_order_is_total();
        assert((|a: (Seq<char>, Seq<char>), b: (Seq<char>, Seq<char>)| member_le(a, b)) =~= (|
            a: (Seq<char>, Seq<char>),
            b: (Seq<char>, Seq<char>),
        | Self::in_order(a, b)));
    }

    fn goes_after(&self, other: &Self) -> (r: bool) {
        proof {
            text_order_is_total(self.key@, other.key@);
            text_order_is_total(self.value@, other.value@);
        }
        if same(self.key.as_str(), other.key.as_str()) {
            crate::text::precedes(other.value.as_str(), self.value.as_str())
        } else {
            crate::text::precedes(other.key.as_str(), self.key.as_str())
        }
    }
}

fn written_value(v: &Json, d: &Decimals, q: Quoting) -> (r: String)
    ensures
        r@ == canonical_text(v@, *d, q),
    decreases v,
{
    match v {
        Json::Null => "null".to_owned(),
        Json::Bool(b) => if *b {
            "true".to_owned()
        } else {
            "false".to_owned()
        },
        Json::Int(n) => signed(*n),
        Json::UInt(n) => crate::text::decimal(*n),
        Json::Float(f) => d.write(*f),
        Json::Text(s) => quote(s.as_str(), q),
        Json::Array(items) => {
            let mut list: Vec<String> = Vec::new();
            let mut i: usize = 0;
            while i < items.len()
                invariant
                    i <= items@.len(),
                    *v == Json::Array(*items),
                    list@.len() == i,
                    forall|j: int|
                        0 <= j < i ==> (#[trigger] list@[j])@ == canonical_text(items@[j]@, *d, q),
                decreases items@.len() - i,
            {
                assert(decreases_to!(*v => v->Array_0@[i as int]));
                let one = written_value(&items[i], d, q);
                list.push(one);
                i += 1;
            }
            let mut out = String::new();
            out.push('[');
            let body = joined(&list, ",");
            out.append(body.as_str());
            out.push(']');
            proof {
                reveal_strlit(",");
                assert(","@ =~= seq![',']);
                assert(texts(list@) =~= item_texts(v@->Array_0, *d, q));
            }
            assert(out@ =~= seq!['['] + body@ + seq![']']);
            out
        },
        Json::Object(members) => {
            let mut list: Vec<Member> = Vec::new();
            let mut i: usize = 0;
            while i < members.len()
                invariant
                    i <= members@.len(),
                    *v == Json::Object(*members),
                    list@.len() == i,
                    forall|j: int|
                        0 <= j < i ==> (#[trigger] list@[j]).key() == (
                            members@[j].0@,
                            canonical_text(members@[j].1@, *d, q),
                        ),
                decreases members@.len() - i,
            {
                assert(decreases_to!(*v => v->Object_0@[i as int].1));
                let one = written_value(&members[i].1, d, q);
                list.push(Member { key: members[i].0.clone(), value: one });
                i += 1;
            }
            let ghost given = list@;
            let sorted = sort(list);
            let ghost pairs = member_texts(v@->Object_0, *d, q);
            proof {
                let le = |a: (Seq<char>, Seq<char>), b: (Seq<char>, Seq<char>)| member_le(a, b);
                member_order_is_total();
                assert(keys(given) =~= pairs);
                pairs.lemma_sort_by_ensures(le);
                assert(le =~= (|a: (Seq<char>, Seq<char>), b: (Seq<char>, Seq<char>)|
                    Member::in_order(a, b)));
                vstd::seq_lib::lemma_sorted_unique(keys(sorted@), in_key_order(pairs), le);
            }
            let mut lines: Vec<String> = Vec::new();
            let mut k: usize = 0;
            while k < sorted.len()
                invariant
                    k <= sorted@.len(),
                    lines@.len() == k,
                    forall|j: int|
                        0 <= j < k ==> (#[trigger] lines@[j])@ == quoted_text(
                            sorted@[j].key().0,
                            q,
                        ) + seq![':'] + sorted@[j].key().1,
                decreases sorted@.len() - k,
            {
                let mut line = quote(sorted[k].key.as_str(), q);
                line.push(':');
                line.append(sorted[k].value.as_str());
                assert(line@ =~= quoted_text(sorted@[k as int].key().0, q) + seq![':']
                    + sorted@[k as int].key().1);
                lines.push(line);
                k += 1;
            }
            let mut out = String::new();
            out.push('{');
            let body = joined(&lines, ",");
            out.append(body.as_str());
            out.push('}');
            proof {
                reveal_strlit(",");
                assert(","@ =~= seq![',']);
                assert forall|j: int| 0 <= j < lines@.len() implies texts(lines@)[j]
                    == member_lines(in_key_order(pairs), q)[j] by {
                    assert(keys(sorted@)[j] == sorted@[j].key());
                    assert(lines@[j]@ == quoted_text(sorted@[j].key().0, q) + seq![':']
                        + sorted@[j].key().1);
                }
                assert(keys(sorted@).len() == sorted@.len());
                assert(texts(lines@) =~= member_lines(in_key_order(pairs), q));
            }
            assert(out@ =~= seq!['{'] + body@ + seq!['}']);
            out
        },
    }
}

/// The canonical text that batches and solver inputs are fingerprinted by.
pub fn canonical_string(v: &Json, d: &Decimals) -> (r: String)
    ensures
        r@ == canonical_text(v@, *d, Quoting::Full),
{
    written_value(v, d, Quoting::Full)
}

/// The canonical text that the workbench fingerprints by.
pub fn canonical_json(v: &Json, d: &Decimals) -> (r: String)
    ensures
        r@ == canonical_text(v@, *d, Quoting::Plain),
{
    written_value(v, d, Quoting::Plain)
}

/// The fingerprint of a value: of its canonical text.
pub fn canonical_fingerprint(v: &Json, d: &Decimals) -> (r: String)
    ensures
        r@ == fingerprint(encode_utf8(canonical_text(v@, *d, Quoting::Full))),
        r@.len() == 64,
{
    let text = canonical_string(v, d);
    text_fingerprint(text.as_str())
}

/// The texts of `parts`, each followed by a bar.
pub open spec fn barred(parts: Seq<Seq<char>>) -> Seq<char>
    decreases parts.len(),
{
    if parts.len() == 0 {
        Seq::empty()
    } else {
        barred(parts.drop_last()) + parts.last() + seq!['|']
    }
}

/// The fingerprint of a value under a list of labels.
pub fn json_fingerprint(parts: &[&str], v: &Json, d: &Decimals) -> (r: String)
    ensures
        r@ == fingerprint(
            framed(seq![barred(slices(parts@)), canonical_text(v@, *d, Quoting::Plain)]),
        ),
        r@.len() == 64,
{
    let mut preamble = String::new();
    let mut i: usize = 0;
    let ghost list = slices(parts@);
    while i < parts.len()
        invariant
            i <= parts@.len(),
            list == slices(parts@),
            preamble@ =~= barred(list.take(i as int)),
        decreases parts@.len() - i,
    {
        preamble.append(parts[i]);
        preamble.push('|');
        assert(list.take(i + 1).drop_last() =~= list.take(i as int));
        i += 1;
    }
    assert(list.take(i as int) =~= list);
    let text = canonical_json(v, d);
    let both: [&str; 2] = [preamble.as_str(), text.as_str()];
    assert(slices(both@) =~= seq![barred(list), canonical_text(v@, *d, Quoting::Plain)]);
    sha256_hex(&both)
}

/// `p` is a rearrangement of the first `n` numbers.
pub open spec fn shuffle(p: Seq<int>, n: nat) -> bool {
    &&& p.len() == n
    &&& forall|i: int| 0 <= i < n ==> 0 <= #[trigger] p[i] < n
    &&& forall|i: int, j: int| 0 <= i < j < n ==> p[i] != p[j]
}

/// Two values that differ at most in the order in which their objects, at any
/// depth, list their members.
pub open spec fn rearranged(a: JsonView, b: JsonView) -> bool
    decreases a,
{
    match (a, b) {
        (JsonView::Array(x), JsonView::Array(y)) => {
            &&& x.len() == y.len()
            &&& forall|i: int|
                #![trigger x[i]]
                #![trigger y[i]]
                0 <= i < x.len() ==> rearranged(x[i], y[i])
        },
        (JsonView::Object(x), JsonView::Object(y)) => {
            &&& x.len() == y.len()
            &&& exists|p: Seq<int>| #[trigger]
                shuffle(p, x.len()) && forall|i: int|
                    0 <= i < x.len() ==> (#[trigger] x[i]).0 == y[p[i]].0 && rearranged(
                        x[i].1,
                        y[p[i]].1,
                    )
        },
        _ => a == b,
    }
}

proof fn shuffled_lists_hold_the_same<T>(s: Seq<T>, t: Seq<T>, p: Seq<int>)
    requires
        s.len() == t.len(),
        shuffle(p, s.len()),
        forall|i: int| 0 <= i < s.len() ==> #[trigger] s[i] == t[p[i]],
    ensures
        s.to_multiset() == t.to_multiset(),
    decreases s.len(),
{
    broadcast use vstd::seq_lib::group_to_multiset_ensures;

    if s.len() == 0 {
        assert(s =~= t);
    } else {
        let n = s.len() - 1;
        let k = p[n];
        let s2 = s.drop_last();
        let t2 = t.remove(k);
        let p2 = Seq::new(n as nat, |i: int| if p[i] < k { p[i] } else { p[i] - 1 });
        assert forall|i: int, j: int| 0 <= i < j < n implies p2[i] != p2[j] by {
            assert(p[i] != p[j] && p[i] != p[n] && p[j] != p[n]);
        }
        assert forall|i: int| 0 <= i < n implies 0 <= #[trigger] p2[i] < n by {
            assert(p[i] != p[n]);
        }
        assert forall|i: int| 0 <= i < s2.len() implies #[trigger] s2[i] == t2[p2[i]] by {
            assert(p[i] != p[n]);
            assert(s[i] == t[p[i]]);
        }
        shuffled_lists_hold_the_same(s2, t2, p2);
        assert(s =~= s2.push(s[n]));
        assert(s[n] == t[k]);
        assert(t =~= t2.insert(k, t[k]));
    }
}

/// The order in which objects list their members does not show in the
/// canonical text, at any depth.
pub proof fn key_order_does_not_matter(a: JsonView, b: JsonView, d: Decimals, q: Quoting)
    requires
        rearranged(a, b),
    ensures
        canonical_text(a, d, q) == canonical_text(b, d, q),
    decreases a,
{
    match (a, b) {
        (JsonView::Array(x), JsonView::Array(y)) => {
            assert forall|i: int| 0 <= i < x.len() implies item_texts(x, d, q)[i] == item_texts(
                y,
                d,
                q,
            )[i] by {
                assert(rearranged(x[i], y[i]));
                key_order_does_not_matter(x[i], y[i], d, q);
            }
            assert(item_texts(x, d, q) =~= item_texts(y, d, q));
        },
        (JsonView::Object(x), JsonView::Object(y)) => {
            let p = choose|p: Seq<int>| #[trigger]
                shuffle(p, x.len()) && forall|i: int|
                    0 <= i < x.len() ==> (#[trigger] x[i]).0 == y[p[i]].0 && rearranged(
                        x[i].1,
                        y[p[i]].1,
                    );
            let s = member_texts(x, d, q);
            let t = member_texts(y, d, q);
            assert forall|i: int| 0 <= i < s.len() implies #[trigger] s[i] == t[p[i]] by {
                assert(x[i].0 == y[p[i]].0);
                key_order_does_not_matter(x[i].1, y[p[i]].1, d, q);
            }
            shuffled_lists_hold_the_same(s, t, p);
            let le = |a: (Seq<char>, Seq<char>), b: (Seq<char>, Seq<char>)| member_le(a, b);
            member_order_is_total();
            s.lemma_sort_by_ensures(le);
            t.lemma_sort_by_ensures(le);
            vstd::seq_lib::lemma_sorted_unique(in_key_order(s), in_key_order(t), le);
        },
        _ => {},
    }
}

/// The sum of a list of numbers.
pub open spec fn sum(s: Seq<int>) -> int
    decreases s.len(),
{
    if s.len() == 0 {
        0
    } else {
        sum(s.drop_last()) + s.last()
    }
}

proof fn sum_of_insert(s: Seq<int>, k: int, x: int)
    requires
        0 <= k <= s.len(),
    ensures
        sum(s.insert(k, x)) == sum(s) + x,
    decreases s.len(),
{
    if k == s.len() {
        assert(s.insert(k, x).drop_last() =~= s);
    } else {
        sum_of_insert(s.drop_last(), k, x);
        assert(s.insert(k, x).drop_last() =~= s.drop_last().insert(k, x));
        assert(s.insert(k, x).last() == s.last());
    }
}

proof fn sum_ignores_order(s: Seq<int>, t: Seq<int>)
    requires
        s.to_multiset() == t.to_multiset(),
    ensures
        sum(s) == sum(t),
    decreases s.len(),
{
    broadcast use vstd::seq_lib::group_to_multiset_ensures;

    assert(s.to_multiset().len() == s.len());
    assert(t.to_multiset().len() == t.len());
    if s.len() > 0 {
        let x = s.last();
        assert(s.contains(x));
        assert(t.to_multiset().count(x) > 0);
        assert(t.contains(x));
        let k = choose|k: int| 0 <= k < t.len() && t[k] == x;
        let s2 = s.drop_last();
        let t2 = t.remove(k);
        assert(s =~= s2.push(x));
        assert(t =~= t2.insert(k, x));
        assert(s2.to_multiset() =~= s.to_multiset().remove(x));
        assert(t2.to_multiset() =~= t.to_multiset().remove(x));
        sum_ignores_order(s2, t2);
        sum_of_insert(t2, k, x);
    }
}

/// The lengths of a list of texts.
pub open spec fn lengths(list: Seq<Seq<char>>) -> Seq<int> {
    list.map_values(|t: Seq<char>| t.len() as int)
}

proof fn length_of_joined(list: Seq<Seq<char>>)
    ensures
        joined_text(list, seq![',']).len() == sum(lengths(list)) + if list.len() == 0 {
            0
        } else {
            list.len() - 1
        },
    decreases list.len(),
{
    if list.len() == 1 {
        assert(lengths(list).drop_last() =~= Seq::empty());
        assert(sum(Seq::<int>::empty()) == 0);
        assert(lengths(list).last() == list[0].len());
    } else if list.len() > 1 {
        length_of_joined(list.drop_last());
        assert(lengths(list).drop_last() =~= lengths(list.drop_last()));
        assert(lengths(list).last() == list.last().len());
        assert(seq![','].len() == 1);
    }
}

/// The lengths of the members of an object when they are written out.
pub open spec fn member_lengths(members: Seq<(Seq<char>, Seq<char>)>, q: Quoting) -> Seq<int> {
    members.map_values(
        |m: (Seq<char>, Seq<char>)| quoted_text(m.0, q).len() + 1 + m.1.len() as int,
    )
}

proof fn length_of_object(members: Seq<(Seq<char>, JsonView)>, d: Decimals, q: Quoting)
    requires
        members.len() > 0,
    ensures
        canonical_text(JsonView::Object(members), d, q).len() == sum(
            member_lengths(member_texts(members, d, q), q),
        ) + members.len() + 1,
{
    let s = member_texts(members, d, q);
    let t = in_key_order(s);
    let le = |a: (Seq<char>, Seq<char>), b: (Seq<char>, Seq<char>)| member_le(a, b);
    member_order_is_total();
    s.lemma_sort_by_ensures(le);
    let f = |m: (Seq<char>, Seq<char>)| quoted_text(m.0, q).len() + 1 + m.1.len() as int;
    crate::order::mapping_keeps_multisets(s, t, f);
    sum_ignores_order(member_lengths(s, q), member_lengths(t, q));
    length_of_joined(member_lines(t, q));
    assert(lengths(member_lines(t, q)) =~= member_lengths(t, q));
}

/// An object in which one value is replaced by an array with an item more is
/// written out longer.
pub proof fn a_further_item_lengthens(
    before: Seq<(Seq<char>, JsonView)>,
    after: Seq<(Seq<char>, JsonView)>,
    k: int,
    items: Seq<JsonView>,
    at: int,
    item: JsonView,
    d: Decimals,
    q: Quoting,
)
    requires
        0 <= k < before.len(),
        before[k].1 == JsonView::Array(items),
        0 <= at <= items.len(),
        item is Object || item is Array,
        after == before.update(k, (before[k].0, JsonView::Array(items.insert(at, item)))),
    ensures
        canonical_text(JsonView::Object(after), d, q).len() > canonical_text(
            JsonView::Object(before),
            d,
            q,
        ).len(),
        encode_utf8(canonical_text(JsonView::Object(after), d, q)) != encode_utf8(
            canonical_text(JsonView::Object(before), d, q),
        ),
{
    length_of_object(before, d, q);
    length_of_object(after, d, q);
    let x = item_texts(items, d, q);
    let y = item_texts(items.insert(at, item), d, q);
    assert(y =~= x.insert(at, canonical_text(item, d, q)));
    assert(lengths(y) =~= lengths(x).insert(at, canonical_text(item, d, q).len() as int));
    sum_of_insert(lengths(x), at, canonical_text(item, d, q).len() as int);
    length_of_joined(x);
    length_of_joined(y);
    assert(canonical_text(item, d, q).len() > 0);
    let s = member_texts(before, d, q);
    let t = member_texts(after, d, q);
    assert(s[k].1 == canonical_text(JsonView::Array(items), d, q));
    assert(t[k].1 == canonical_text(JsonView::Array(items.insert(at, item)), d, q));
    let a = member_lengths(s, q);
    let b = member_lengths(t, q);
    let grown = t[k].1.len() - s[k].1.len();
    assert(b =~= a.update(k, a[k] + grown)) by {
        assert forall|i: int| 0 <= i < a.len() && i != k implies b[i] == a[i] by {
            assert(after[i] == before[i]);
        }
    }
    let rest = a.remove(k);
    assert(a =~= rest.insert(k, a[k]));
    assert(b =~= rest.insert(k, b[k]));
    sum_of_insert(rest, k, a[k]);
    sum_of_insert(rest, k, b[k]);
    encode_utf8_decode_utf8(canonical_text(JsonView::Object(after), d, q));
    encode_utf8_decode_utf8(canonical_text(JsonView::Object(before), d, q));
}

} // verus!
