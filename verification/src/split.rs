//! Taking texts apart: searching, splitting, trimming, reading numbers.
use vstd::prelude::*;
use vstd::string::*;

use crate::text::{chars_of, is_white, occurs_at, stands_at, text_of, texts, white};

verus! {

/// Where a part first stands in a text.
pub open spec fn find_text(s: Seq<char>, part: Seq<char>) -> Option<int>
    decreases s.len(),
{
    if part.is_prefix_of(s) {
        Some(0)
    } else if s.len() == 0 {
        None
    } else {
        match find_text(s.drop_first(), part) {
            Some(i) => Some(i + 1),
            None => None,
        }
    }
}

/// A place found lies inside the text, the part stands there and at no earlier
/// place; where none is found, the part stands nowhere.
pub proof fn find_text_finds_the_first(s: Seq<char>, part: Seq<char>)
    ensures
        find_text(s, part) matches Some(i) ==> stands_at(s, part, i) && forall|j: int|
            0 <= j < i ==> !stands_at(s, part, j),
        find_text(s, part) is None ==> forall|j: int| !stands_at(s, part, j),
    decreases s.len(),
{
    if part.is_prefix_of(s) {
        assert(s.subrange(0, part.len() as int) =~= part);
    } else {
        assert(!stands_at(s, part, 0)) by {
            if stands_at(s, part, 0) {
                assert(s.subrange(0, part.len() as int) =~= part);
            }
        }
        if s.len() > 0 {
            let t = s.drop_first();
            find_text_finds_the_first(t, part);
            assert forall|j: int| j > 0 implies stands_at(s, part, j) == stands_at(
                t,
                part,
                j - 1,
            ) by {
                if j + part.len() <= s.len() {
                    assert(s.subrange(j, j + part.len()) =~= t.subrange(
                        j - 1,
                        j - 1 + part.len(),
                    ));
                }
            }
            match find_text(t, part) {
                Some(i) => {
                    assert(stands_at(s, part, i + 1));
                    assert forall|j: int| 0 <= j < i + 1 implies !stands_at(s, part, j) by {
                        if j > 0 {
                            assert(!stands_at(t, part, j - 1));
                        }
                    }
                },
                None => {
                    assert forall|j: int| !stands_at(s, part, j) by {
                        if j > 0 {
                            assert(!stands_at(t, part, j - 1));
                        }
                    }
                },
            }
        } else {
            assert forall|j: int| !stands_at(s, part, j) by {}
        }
    }
}

fn find_from(x: &Vec<char>, part: &Vec<char>, from: usize) -> (r: Option<usize>)
    requires
        from <= x@.len(),
    ensures
        match r {
            Some(i) => from <= i && i + part@.len() <= x@.len() && find_text(
                x@.skip(from as int),
                part@,
            ) == Some(i - from),
            None => find_text(x@.skip(from as int), part@) is None,
        },
{
    let mut i: usize = from;
    while i < x.len()
        invariant
            from <= i <= x@.len(),
            match find_text(x@.skip(i as int), part@) {
                Some(k) => find_text(x@.skip(from as int), part@) == Some(k + i - from),
                None => find_text(x@.skip(from as int), part@) is None,
            },
        decreases x@.len() - i,
    {
        let here = occurs_at(x, part, i);
        assert(here == part@.is_prefix_of(x@.skip(i as int))) by {
            if i + part@.len() <= x@.len() {
                assert(x@.subrange(i as int, i + part@.len()) =~= x@.skip(i as int).subrange(
                    0,
                    part@.len() as int,
                ));
            }
        }
        if here {
            return Some(i);
        }
        assert(x@.skip(i as int).drop_first() =~= x@.skip(i + 1));
        i += 1;
    }
    if part.len() == 0 {
        Some(i)
    } else {
        None
    }
}

/// A text cut in two at the first place where a separator stands.
pub open spec fn cut_text(s: Seq<char>, sep: Seq<char>) -> Option<(Seq<char>, Seq<char>)> {
    match find_text(s, sep) {
        Some(i) => Some((s.take(i), s.skip(i + sep.len()))),
        None => None,
    }
}

/// Cuts a text in two at a separator.
pub fn cut(s: &str, sep: &str) -> (r: Option<(String, String)>)
    ensures
        match r {
            Some((a, b)) => cut_text(s@, sep@) == Some((a@, b@)),
            None => cut_text(s@, sep@) is None,
        },
{
    let x = chars_of(s);
    let y = chars_of(sep);
    let n: usize = x.len();
    let found = find_from(&x, &y, 0);
    assert(x@.skip(0) =~= x@);
    match found {
        Some(i) => {
            let a = text_of(&x, 0, i);
            let b = text_of(&x, i + y.len(), n);
            assert(a@ =~= s@.take(i as int));
            assert(b@ =~= s@.skip(i + sep@.len()));
            Some((a, b))
        },
        None => None,
    }
}

/// The pieces of a text between separators.
pub open spec fn pieces(s: Seq<char>, sep: Seq<char>) -> Seq<Seq<char>>
    decreases s.len(),
{
    if sep.len() == 0 {
        seq![s]
    } else {
        match find_text(s, sep) {
            Some(i) => {
                proof {
                    find_text_finds_the_first(s, sep);
                }
                seq![s.take(i)] + pieces(s.skip(i + sep.len()), sep)
            },
            None => seq![s],
        }
    }
}

/// Splits a text at every separator.
pub fn split(s: &str, sep: &str) -> (r: Vec<String>)
    requires
        sep@.len() > 0,
    ensures
        texts(r@) == pieces(s@, sep@),
{
    let x = chars_of(s);
    let y = chars_of(sep);
    let mut out: Vec<String> = Vec::new();
    let mut from: usize = 0;
    let n: usize = x.len();
    assert(x@.skip(0) =~= x@);
    assert(texts(out@) =~= Seq::empty());
    loop
        invariant
            from <= x@.len(),
            n == x@.len(),
            x@ == s@,
            y@ == sep@,
            y@.len() > 0,
            texts(out@) + pieces(x@.skip(from as int), sep@) =~= pieces(s@, sep@),
        decreases x@.len() - from,
    {
        match find_from(&x, &y, from) {
            Some(i) => {
                let ghost before = texts(out@);
                let ghost rest = x@.skip(from as int);
                let one = text_of(&x, from, i);
                assert(one@ =~= rest.take(i - from));
                out.push(one);
                assert(texts(out@) =~= before.push(one@));
                assert(rest.skip(i - from + y@.len()) =~= x@.skip(i + y@.len()));
                from = i + y.len();
            },
            None => {
                let ghost before = texts(out@);
                let one = text_of(&x, from, x.len());
                assert(one@ =~= x@.skip(from as int));
                out.push(one);
                assert(texts(out@) =~= before.push(one@));
                return out;
            },
        }
    }
}

/// A text with every occurrence of `from` replaced, searching from the left.
pub open spec fn replaced(s: Seq<char>, from: Seq<char>, to: Seq<char>) -> Seq<char>
    decreases s.len(),
{
    if from.len() == 0 {
        s
    } else {
        match find_text(s, from) {
            Some(i) => {
                proof {
                    find_text_finds_the_first(s, from);
                }
                s.take(i) + to + replaced(s.skip(i + from.len()), from, to)
            },
            None => s,
        }
    }
}

/// Replaces every occurrence of a text.
pub fn replace(s: &str, from: &str, to: &str) -> (r: String)
    requires
        from@.len() > 0,
    ensures
        r@ == replaced(s@, from@, to@),
{
    let x = chars_of(s);
    let y = chars_of(from);
    let mut out = String::new();
    let mut at: usize = 0;
    let n: usize = x.len();
    assert(x@.skip(0) =~= x@);
    loop
        invariant
            at <= x@.len(),
            n == x@.len(),
            x@ == s@,
            y@ == from@,
            y@.len() > 0,
            out@ + replaced(x@.skip(at as int), from@, to@) =~= replaced(s@, from@, to@),
        decreases x@.len() - at,
    {
        match find_from(&x, &y, at) {
            Some(i) => {
                let ghost before = out@;
                let ghost rest = x@.skip(at as int);
                let one = text_of(&x, at, i);
                assert(one@ =~= rest.take(i - at));
                out.append(one.as_str());
                out.append(to);
                assert(out@ =~= before + one@ + to@);
                assert(rest.skip(i - at + y@.len()) =~= x@.skip(i + y@.len()));
                at = i + y.len();
            },
            None => {
                let ghost before = out@;
                let one = text_of(&x, at, x.len());
                assert(one@ =~= x@.skip(at as int));
                out.append(one.as_str());
                assert(out@ =~= before + one@);
                return out;
            },
        }
    }
}

/// A text without any copies of `p` at its front.
pub open spec fn without_prefixes(s: Seq<char>, p: Seq<char>) -> Seq<char>
    decreases s.len(),
{
    if p.len() > 0 && p.is_prefix_of(s) {
        without_prefixes(s.skip(p.len() as int), p)
    } else {
        s
    }
}

/// A text without any copies of `p` at its end.
pub open spec fn without_suffixes(s: Seq<char>, p: Seq<char>) -> Seq<char>
    decreases s.len(),
{
    if p.len() > 0 && p.is_suffix_of(s) {
        without_suffixes(s.take(s.len() - p.len()), p)
    } else {
        s
    }
}

/// What is left of a text between copies of `p` at its front and copies of `q`
/// at its end.
pub fn between(s: &str, p: &str, q: &str) -> (r: String)
    ensures
        r@ == without_suffixes(without_prefixes(s@, p@), q@),
{
    let x = chars_of(s);
    let y = chars_of(p);
    let z = chars_of(q);
    let mut from: usize = 0;
    let n: usize = x.len();
    assert(x@.skip(0) =~= x@);
    while y.len() > 0 && occurs_at(&x, &y, from)
        invariant
            from <= x@.len(),
            n == x@.len(),
            x@ == s@,
            y@ == p@,
            without_prefixes(s@, p@) == without_prefixes(x@.skip(from as int), p@),
        decreases x@.len() - from,
    {
        assert(y@.is_prefix_of(x@.skip(from as int))) by {
            assert(x@.subrange(from as int, from + y@.len()) =~= x@.skip(from as int).subrange(
                0,
                y@.len() as int,
            ));
        }
        assert(x@.skip(from as int).skip(y@.len() as int) =~= x@.skip(from + y@.len()));
        from += y.len();
    }
    assert(y@.len() > 0 ==> !y@.is_prefix_of(x@.skip(from as int))) by {
        if y@.len() > 0 && y@.is_prefix_of(x@.skip(from as int)) {
            assert(x@.subrange(from as int, from + y@.len()) =~= x@.skip(from as int).subrange(
                0,
                y@.len() as int,
            ));
        }
    }
    let ghost mid = x@.skip(from as int);
    let mut to: usize = x.len();
    assert(x@.subrange(from as int, to as int) =~= mid);
    while z.len() > 0 && to - from >= z.len() && occurs_at(&x, &z, to - z.len())
        invariant
            from <= to <= x@.len(),
            z@ == q@,
            without_suffixes(mid, q@) == without_suffixes(
                x@.subrange(from as int, to as int),
                q@,
            ),
        decreases to,
    {
        let ghost part = x@.subrange(from as int, to as int);
        assert(z@.is_suffix_of(part)) by {
            assert(x@.subrange(to - z@.len(), to as int) =~= part.subrange(
                part.len() - z@.len(),
                part.len() as int,
            ));
        }
        assert(part.take(part.len() - z@.len()) =~= x@.subrange(from as int, to - z@.len()));
        to -= z.len();
    }
    let ghost part = x@.subrange(from as int, to as int);
    assert(z@.len() > 0 ==> !z@.is_suffix_of(part)) by {
        if z@.len() > 0 && z@.is_suffix_of(part) {
            assert(x@.subrange(to - z@.len(), to as int) =~= part.subrange(
                part.len() - z@.len(),
                part.len() as int,
            ));
        }
    }
    text_of(&x, from, to)
}

/// A text without the white space at its front.
pub open spec fn from_first_dark(s: Seq<char>) -> Seq<char>
    decreases s.len(),
{
    if s.len() > 0 && white(s[0]) {
        from_first_dark(s.drop_first())
    } else {
        s
    }
}

/// A text without the white space at its end.
pub open spec fn to_last_dark(s: Seq<char>) -> Seq<char>
    decreases s.len(),
{
    if s.len() > 0 && white(s.last()) {
        to_last_dark(s.drop_last())
    } else {
        s
    }
}

/// A text without the white space around it.
pub open spec fn trimmed(s: Seq<char>) -> Seq<char> {
    to_last_dark(from_first_dark(s))
}

/// The number of characters before the first white space.
pub open spec fn word_len(s: Seq<char>) -> int
    decreases s.len(),
{
    if s.len() == 0 || white(s[0]) {
        0
    } else {
        1 + word_len(s.drop_first())
    }
}

/// The first word of a text; empty if it has none.
pub open spec fn first_word(s: Seq<char>) -> Seq<char> {
    let t = from_first_dark(s);
    t.take(word_len(t))
}

/// What follows the first word of a text.
pub open spec fn after_word(s: Seq<char>) -> Seq<char> {
    let t = from_first_dark(s);
    t.skip(word_len(t))
}

fn dark_from(x: &Vec<char>, from: usize) -> (r: usize)
    requires
        from <= x@.len(),
    ensures
        from <= r <= x@.len(),
        x@.skip(r as int) == from_first_dark(x@.skip(from as int)),
{
    let mut i: usize = from;
    while i < x.len() && is_white(x[i])
        invariant
            from <= i <= x@.len(),
            from_first_dark(x@.skip(from as int)) == from_first_dark(x@.skip(i as int)),
        decreases x@.len() - i,
    {
        assert(x@.skip(i as int).drop_first() =~= x@.skip(i + 1));
        i += 1;
    }
    i
}

fn word_end(x: &Vec<char>, from: usize) -> (r: usize)
    requires
        from <= x@.len(),
    ensures
        from <= r <= x@.len(),
        word_len(x@.skip(from as int)) == r - from,
{
    let mut i: usize = from;
    while i < x.len() && !is_white(x[i])
        invariant
            from <= i <= x@.len(),
            word_len(x@.skip(from as int)) == i - from + word_len(x@.skip(i as int)),
        decreases x@.len() - i,
    {
        assert(x@.skip(i as int).drop_first() =~= x@.skip(i + 1));
        i += 1;
    }
    i
}

/// Takes the first word off a text.
pub fn take_word(s: &str) -> (r: (String, String))
    ensures
        r.0@ == first_word(s@),
        r.1@ == after_word(s@),
{
    let x = chars_of(s);
    assert(x@.skip(0) =~= x@);
    let from: usize = dark_from(&x, 0);
    let to: usize = word_end(&x, from);
    let a = text_of(&x, from, to);
    let b = text_of(&x, to, x.len());
    assert(a@ =~= first_word(s@));
    assert(b@ =~= after_word(s@));
    (a, b)
}

/// Removes the white space around a text.
pub fn trim(s: &str) -> (r: String)
    ensures
        r@ == trimmed(s@),
{
    let x = chars_of(s);
    assert(x@.skip(0) =~= x@);
    let from: usize = dark_from(&x, 0);
    let ghost mid = x@.skip(from as int);
    let mut to: usize = x.len();
    assert(x@.subrange(from as int, to as int) =~= mid);
    while to > from && is_white(x[to - 1])
        invariant
            from <= to <= x@.len(),
            to_last_dark(mid) == to_last_dark(x@.subrange(from as int, to as int)),
        decreases to,
    {
        assert(x@.subrange(from as int, to as int).drop_last() =~= x@.subrange(
            from as int,
            to - 1,
        ));
        to -= 1;
    }
    text_of(&x, from, to)
}

/// The value of a decimal digit.
pub open spec fn digit_value(c: char) -> Option<int> {
    if '0' <= c && c <= '9' {
        Some(c as int - '0' as int)
    } else {
        None
    }
}

/// The number that a row of decimal digits stands for.
pub open spec fn digits_value(s: Seq<char>) -> Option<int>
    decreases s.len(),
{
    if s.len() == 0 {
        Some(0)
    } else {
        match (digits_value(s.drop_last()), digit_value(s.last())) {
            (Some(a), Some(d)) => Some(a * 10 + d),
            _ => None,
        }
    }
}

/// The number that a text stands for: digits, after a plus sign or not.
pub open spec fn number_value(s: Seq<char>) -> Option<int> {
    let t = if s.len() > 0 && s[0] == '+' {
        s.drop_first()
    } else {
        s
    };
    if t.len() == 0 {
        None
    } else {
        digits_value(t)
    }
}

proof fn digits_value_grows(s: Seq<char>, n: int)
    requires
        0 <= n <= s.len(),
        digits_value(s) is Some,
    ensures
        digits_value(s.take(n)) is Some,
        0 <= digits_value(s.take(n))->0 <= digits_value(s)->0,
    decreases s.len(),
{
    if n == s.len() {
        assert(s.take(n) =~= s);
        if s.len() > 0 {
            digits_value_grows(s.drop_last(), s.len() - 1);
            assert(s.drop_last().take(s.len() - 1) =~= s.drop_last());
        }
    } else {
        digits_value_grows(s.drop_last(), n);
        assert(s.drop_last().take(n) =~= s.take(n));
    }
}

/// Reads a number that fits the machine's word.
pub fn read_number(s: &str) -> (r: Option<usize>)
    ensures
        match r {
            Some(n) => number_value(s@) == Some(n as int),
            None => number_value(s@) is None || number_value(s@)->0 > usize::MAX,
        },
{
    let x = chars_of(s);
    let mut i: usize = 0;
    if x.len() > 0 && x[0] == '+' {
        i = 1;
    }
    let ghost t = x@.skip(i as int);
    assert(i == 1 ==> t =~= s@.drop_first());
    assert(i == 0 ==> t =~= s@);
    let start: usize = i;
    if start == x.len() {
        return None;
    }
    let mut v: usize = 0;
    assert(t.take(0) =~= Seq::empty());
    while i < x.len()
        invariant
            start <= i <= x@.len(),
            start < x@.len(),
            t == x@.skip(start as int),
            number_value(s@) == digits_value(t),
            digits_value(t.take(i - start)) == Some(v as int),
        decreases x@.len() - i,
    {
        let c = x[i];
        let ghost next = t.take(i - start + 1);
        assert(next.drop_last() =~= t.take(i - start));
        assert(next.last() == c);
        assert(digits_value(next) is None ==> digits_value(t) is None) by {
            if digits_value(t) is Some {
                digits_value_grows(t, i - start + 1);
            }
        }
        if !('0' <= c && c <= '9') {
            return None;
        }
        let d: usize = (c as u32 - '0' as u32) as usize;
        if v > (usize::MAX - d) / 10 {
            proof {
                assert(digits_value(next) == Some(v * 10 + d));
                if digits_value(t) is Some {
                    digits_value_grows(t, i - start + 1);
                }
            }
            return None;
        }
        v = v * 10 + d;
        i += 1;
    }
    assert(t.take(i - start) =~= t);
    Some(v)
}

} // verus!
