//! What holds of texts that are cut up and written out, of the head of a request,
//! and of the times of a clock.
use vstd::prelude::*;
use vstd::utf8::encode_utf8;

use crate::clocks::{holds_at, is_partition};
use crate::digest::{framed, hex_text};
use crate::double::Double;
use crate::model::ClockSegmentView;
use crate::server::{
    announced_length, declared_length, hex_value, routed, same_letter, under_header, Intake, Route,
};
use crate::split::{
    cut_text, digits_value, find_text, find_text_finds_the_first, first_word, from_first_dark,
    number_value, pieces, to_last_dark, trimmed, without_prefixes, without_suffixes, word_len,
};
use crate::text::{decimal_text, digit, joined_text, padded_text, stands_at, white, zeros};

verus! {

// ---------- Numbers as texts ----------

/// Digits that are written are read back: the text of a whole number is that number,
/// and starts with a digit.
pub proof fn a_whole_number_is_read_as_written(n: nat)
    ensures
        number_value(decimal_text(n)) == Some(n as int),
        digits_value(decimal_text(n)) == Some(n as int),
        decimal_text(n).len() > 0,
        '0' <= decimal_text(n)[0] && decimal_text(n)[0] <= '9',
    decreases n,
{
    let t = decimal_text(n);
    if n < 10 {
        assert(t.drop_last() =~= Seq::<char>::empty());
        assert(t.last() == digit(n as int));
        assert(digits_value(Seq::<char>::empty()) == Some(0int));
    } else {
        a_whole_number_is_read_as_written(n / 10);
        assert(t.drop_last() =~= decimal_text(n / 10));
        assert(t.last() == digit((n % 10) as int));
        assert(t[0] == decimal_text(n / 10)[0]);
    }
}

proof fn zeros_add_nothing(k: nat, t: Seq<char>)
    requires
        t.len() > 0,
    ensures
        digits_value(zeros(k) + t) == digits_value(t),
    decreases t.len(),
{
    let s = zeros(k) + t;
    assert(s.last() == t.last());
    assert(s.drop_last() =~= zeros(k) + t.drop_last());
    if t.len() == 1 {
        assert(t.drop_last() =~= Seq::<char>::empty());
        assert(s.drop_last() =~= zeros(k));
        zeros_are_nothing(k);
    } else {
        zeros_add_nothing(k, t.drop_last());
    }
}

proof fn zeros_are_nothing(k: nat)
    ensures
        digits_value(zeros(k)) == Some(0int),
    decreases k,
{
    if k > 0 {
        assert(zeros(k).drop_last() =~= zeros((k - 1) as nat));
        zeros_are_nothing((k - 1) as nat);
    }
}

/// A number that is padded is read back, and its text is as wide as was asked, or
/// wider.
pub proof fn a_padded_number_is_read_as_written(n: nat, width: nat)
    ensures
        number_value(padded_text(n, width)) == Some(n as int),
        padded_text(n, width).len() >= width,
        padded_text(n, width).len() == width || padded_text(n, width) == decimal_text(n),
{
    let t = decimal_text(n);
    a_whole_number_is_read_as_written(n);
    if t.len() < width {
        let k = (width - t.len()) as nat;
        zeros_add_nothing(k, t);
        assert((zeros(k) + t)[0] == '0');
    }
}

/// Two digits stand for each byte, and are read back as it.
pub proof fn bytes_are_read_as_written(data: Seq<u8>, i: int)
    requires
        0 <= i < data.len(),
    ensures
        hex_text(data).len() == 2 * data.len(),
        hex_value(hex_text(data)[2 * i] as u8) * 16 + hex_value(hex_text(data)[2 * i + 1] as u8)
            == data[i],
{
    let k = 2 * i;
    assert(k % 2 == 0 && k / 2 == i);
    assert((k + 1) % 2 == 1 && (k + 1) / 2 == i);
}

/// In a frame each text takes eight bytes and its own.
pub proof fn a_frame_has_room_for_each_text(parts: Seq<Seq<char>>, p: Seq<char>)
    ensures
        framed(parts.push(p)).len() == framed(parts).len() + 8 + encode_utf8(p).len(),
        framed(parts).is_prefix_of(framed(parts.push(p))),
        encode_utf8(p).is_suffix_of(framed(parts.push(p))),
{
    let all = parts.push(p);
    assert(all.drop_last() =~= parts);
    assert(all.last() == p);
    vstd::bytes::lemma_auto_spec_u64_to_from_le_bytes();
}

// ---------- Texts that are cut up ----------

/// A text is cut at the first place where the separator stands: put together again
/// it is the whole, and what is before holds no separator.
pub proof fn a_cut_loses_nothing(s: Seq<char>, sep: Seq<char>)
    ensures
        cut_text(s, sep) matches Some((a, b)) ==> {
            &&& a + sep + b == s
            &&& forall|j: int| 0 <= j < a.len() ==> !stands_at(s, sep, j)
        },
        cut_text(s, sep) is None ==> forall|j: int| !stands_at(s, sep, j),
{
    find_text_finds_the_first(s, sep);
    if find_text(s, sep) is Some {
        let i = find_text(s, sep)->0;
        assert(s.take(i) + sep + s.skip(i + sep.len()) =~= s);
    }
}

proof fn joining_from_the_front(list: Seq<Seq<char>>, sep: Seq<char>)
    requires
        list.len() >= 2,
    ensures
        joined_text(list, sep) == list[0] + sep + joined_text(list.drop_first(), sep),
    decreases list.len(),
{
    if list.len() == 2 {
        assert(list.drop_last().len() == 1);
        assert(list.drop_first().len() == 1);
        assert(joined_text(list.drop_last(), sep) == list[0]);
        assert(joined_text(list.drop_first(), sep) == list[1]);
    } else {
        let init = list.drop_last();
        joining_from_the_front(init, sep);
        assert(init.drop_first() =~= list.drop_first().drop_last());
        assert(list.drop_first().last() == list.last());
        assert(init[0] == list[0]);
        let x = list[0] + sep;
        let y = joined_text(init.drop_first(), sep);
        assert(x + y + sep + list.last() =~= x + (y + sep + list.last()));
    }
}

/// The pieces of a text, joined by the separator, are the text.
pub proof fn pieces_joined_are_the_whole(s: Seq<char>, sep: Seq<char>)
    requires
        sep.len() > 0,
    ensures
        joined_text(pieces(s, sep), sep) == s,
        pieces(s, sep).len() > 0,
    decreases s.len(),
{
    find_text_finds_the_first(s, sep);
    if find_text(s, sep) is Some {
        let i = find_text(s, sep)->0;
        let rest = s.skip(i + sep.len());
        pieces_joined_are_the_whole(rest, sep);
        let p = pieces(s, sep);
        assert(p =~= seq![s.take(i)] + pieces(rest, sep));
        assert(p.drop_first() =~= pieces(rest, sep));
        joining_from_the_front(p, sep);
        assert(s.take(i) + sep + rest =~= s);
    }
}

/// A piece holds no separator, where that is one character.
pub proof fn no_piece_holds_the_separator(s: Seq<char>, c: char, k: int, j: int)
    requires
        0 <= k < pieces(s, seq![c]).len(),
        0 <= j < pieces(s, seq![c])[k].len(),
    ensures
        pieces(s, seq![c])[k][j] != c,
    decreases s.len(),
{
    let sep = seq![c];
    find_text_finds_the_first(s, sep);
    if find_text(s, sep) is Some {
        let i = find_text(s, sep)->0;
        let rest = s.skip(i + sep.len());
        if k > 0 {
            assert(pieces(s, sep)[k] == pieces(rest, sep)[k - 1]);
            no_piece_holds_the_separator(rest, c, k - 1, j);
        } else if s[j] == c {
            assert(s.subrange(j, j + 1) =~= sep);
            assert(stands_at(s, sep, j));
        }
    } else if s[j] == c {
        assert(s.subrange(j, j + 1) =~= sep);
        assert(stands_at(s, sep, j));
    }
}

proof fn dark_from_the_front(s: Seq<char>)
    ensures
        from_first_dark(s).len() <= s.len(),
        from_first_dark(s) == s.skip(s.len() - from_first_dark(s).len()),
        from_first_dark(s).len() > 0 ==> !white(from_first_dark(s)[0]),
        forall|i: int| 0 <= i < s.len() - from_first_dark(s).len() ==> white(#[trigger] s[i]),
    decreases s.len(),
{
    if s.len() > 0 && white(s[0]) {
        let t = s.drop_first();
        dark_from_the_front(t);
        let r = from_first_dark(s);
        assert(r =~= s.skip(s.len() - r.len()));
        assert forall|i: int| 0 <= i < s.len() - r.len() implies white(#[trigger] s[i]) by {
            if i > 0 {
                assert(s[i] == t[i - 1]);
            }
        }
    } else {
        assert(s.skip(0) =~= s);
    }
}

proof fn dark_to_the_back(s: Seq<char>)
    ensures
        to_last_dark(s).len() <= s.len(),
        to_last_dark(s) == s.take(to_last_dark(s).len() as int),
        to_last_dark(s).len() > 0 ==> !white(to_last_dark(s).last()),
        forall|i: int| to_last_dark(s).len() <= i < s.len() ==> white(#[trigger] s[i]),
    decreases s.len(),
{
    if s.len() > 0 && white(s.last()) {
        let t = s.drop_last();
        dark_to_the_back(t);
        let r = to_last_dark(s);
        assert(r =~= s.take(r.len() as int));
        assert forall|i: int| r.len() <= i < s.len() implies white(#[trigger] s[i]) by {
            if i < t.len() {
                assert(s[i] == t[i]);
            }
        }
    } else {
        assert(s.take(s.len() as int) =~= s);
    }
}

/// A text that is trimmed neither starts nor ends with white space, is a part of the
/// whole, and only white space was left out.
pub proof fn trimming_leaves_out_white_space_only(s: Seq<char>)
    ensures
        trimmed(s).len() > 0 ==> !white(trimmed(s)[0]) && !white(trimmed(s).last()),
        exists|at: int|
            #![trigger s.subrange(at, at + trimmed(s).len())]
            0 <= at <= at + trimmed(s).len() <= s.len() && s.subrange(at, at + trimmed(s).len())
                == trimmed(s) && (forall|i: int|
                (0 <= i < at || at + trimmed(s).len() <= i < s.len()) ==> white(#[trigger] s[i])),
{
    let t = from_first_dark(s);
    let r = trimmed(s);
    dark_from_the_front(s);
    dark_to_the_back(t);
    let at = s.len() - t.len();
    assert(s.subrange(at, at + r.len()) =~= r);
    if r.len() > 0 {
        assert(r[0] == t[0]);
    }
    assert forall|i: int| (0 <= i < at || at + r.len() <= i < s.len()) implies white(
        #[trigger] s[i],
    ) by {
        if i >= at {
            assert(s[i] == t[i - at]);
        }
    }
}

proof fn a_word_ends_at_white_space(s: Seq<char>)
    ensures
        0 <= word_len(s) <= s.len(),
        forall|i: int| 0 <= i < word_len(s) ==> !white(#[trigger] s[i]),
        word_len(s) < s.len() ==> white(s[word_len(s)]),
    decreases s.len(),
{
    if s.len() > 0 && !white(s[0]) {
        let t = s.drop_first();
        a_word_ends_at_white_space(t);
        assert forall|i: int| 0 <= i < word_len(s) implies !white(#[trigger] s[i]) by {
            if i > 0 {
                assert(s[i] == t[i - 1]);
            }
        }
        if word_len(s) < s.len() {
            assert(s[word_len(s)] == t[word_len(t)]);
        }
    }
}

/// The first word holds no white space, and is empty only where there is nothing
/// else.
pub proof fn a_word_holds_no_white_space(s: Seq<char>)
    ensures
        forall|i: int| 0 <= i < first_word(s).len() ==> !white(#[trigger] first_word(s)[i]),
        first_word(s).len() == 0 ==> forall|i: int| 0 <= i < s.len() ==> white(#[trigger] s[i]),
{
    let t = from_first_dark(s);
    dark_from_the_front(s);
    a_word_ends_at_white_space(t);
    assert forall|i: int| 0 <= i < first_word(s).len() implies !white(
        #[trigger] first_word(s)[i],
    ) by {
        assert(first_word(s)[i] == t[i]);
    }
}

/// Beginnings are taken away until none is left, and endings too; putting one more
/// there changes nothing.
pub proof fn beginnings_and_endings_are_taken_away(s: Seq<char>, p: Seq<char>)
    requires
        p.len() > 0,
    ensures
        !p.is_prefix_of(without_prefixes(s, p)),
        !p.is_prefix_of(s) ==> without_prefixes(s, p) == s,
        without_prefixes(p + s, p) == without_prefixes(s, p),
        !p.is_suffix_of(without_suffixes(s, p)),
        !p.is_suffix_of(s) ==> without_suffixes(s, p) == s,
        without_suffixes(s + p, p) == without_suffixes(s, p),
    decreases s.len(),
{
    if p.is_prefix_of(s) {
        beginnings_and_endings_are_taken_away(s.skip(p.len() as int), p);
    }
    if p.is_suffix_of(s) {
        beginnings_and_endings_are_taken_away(s.take(s.len() - p.len()), p);
    }
    assert((p + s).subrange(0, p.len() as int) =~= p);
    assert((p + s).skip(p.len() as int) =~= s);
    assert((s + p).subrange(s.len() as int, (s + p).len() as int) =~= p);
    assert((s + p).take((s + p).len() - p.len()) =~= s);
}

// ---------- The head of a request ----------

/// A name at the head of a line counts in either case.
pub proof fn a_header_counts_in_either_case(line: Seq<char>, other: Seq<char>, name: Seq<char>)
    requires
        line.len() == other.len(),
        forall|i: int|
            0 <= i < line.len() ==> (#[trigger] other[i]) == line[i] || ('A' <= other[i]
                && other[i] <= 'Z' && other[i] as u32 + 32 == line[i] as u32),
        name.len() <= line.len(),
        forall|i: int| 0 <= i < name.len() ==> line[i] == #[trigger] name[i],
    ensures
        under_header(other, name),
{
    assert forall|i: int| 0 <= i < name.len() implies same_letter(#[trigger] other[i], name[i]) by {
        assert(line[i] == name[i]);
    }
}

/// The last length that is announced before the empty line counts.
pub proof fn the_last_length_counts(lines: Seq<Seq<char>>, k: int, seen: int)
    requires
        0 <= k < lines.len(),
        announced_length(lines[k]) is Some,
        forall|i: int| 0 <= i <= k ==> (#[trigger] lines[i]).len() > 0,
        forall|i: int|
            k < i < lines.len() ==> announced_length(#[trigger] lines[i]) is None,
    ensures
        declared_length(lines, seen) == announced_length(lines[k])->0,
    decreases lines.len(),
{
    let rest = lines.drop_first();
    assert(lines[0].len() > 0);
    if k > 0 {
        assert(rest[k - 1] == lines[k]);
        assert forall|i: int| 0 <= i <= k - 1 implies (#[trigger] rest[i]).len() > 0 by {
            assert(rest[i] == lines[i + 1]);
        }
        assert forall|i: int| k - 1 < i < rest.len() implies announced_length(
            #[trigger] rest[i],
        ) is None by {
            assert(rest[i] == lines[i + 1]);
        }
        let next = match announced_length(lines[0]) {
            Some(n) => n,
            None => seen,
        };
        the_last_length_counts(rest, k - 1, next);
    } else {
        assert forall|i: int| 0 <= i < rest.len() implies announced_length(
            #[trigger] rest[i],
        ) is None by {
            assert(rest[i] == lines[i + 1]);
        }
        without_an_announcement_nothing_changes(rest, announced_length(lines[0])->0);
    }
}

/// Where no line announces a length, the length is as it was.
pub proof fn without_an_announcement_nothing_changes(lines: Seq<Seq<char>>, seen: int)
    requires
        forall|i: int| 0 <= i < lines.len() ==> announced_length(#[trigger] lines[i]) is None,
    ensures
        declared_length(lines, seen) == seen,
    decreases lines.len(),
{
    if lines.len() > 0 && lines[0].len() > 0 {
        let rest = lines.drop_first();
        assert forall|i: int| 0 <= i < rest.len() implies announced_length(
            #[trigger] rest[i],
        ) is None by {
            assert(rest[i] == lines[i + 1]);
        }
        without_an_announcement_nothing_changes(rest, seen);
    }
}

/// What is missing of a body fills it up to the length that was announced; nothing
/// is missing of a longer one.
pub proof fn what_is_missing_fills_the_body(i: Intake)
    ensures
        encode_utf8(i.body@).len() <= i.content_length ==> encode_utf8(i.body@).len() + i.missing()
            == i.content_length,
        encode_utf8(i.body@).len() >= i.content_length ==> i.missing() == 0,
{
}

/// What is asked for with `GET` changes nothing, what is asked for with `POST` shows
/// nothing, and nothing is asked for otherwise.
pub proof fn the_method_tells_what_may_change(method: Seq<char>, path: Seq<char>)
    ensures
        ({
            let r = routed(method, path);
            &&& r == Route::PutStation || r == Route::PutEvent || r == Route::PutSegment || r
                == Route::PutBatch || r == Route::PutEvidence || r == Route::Solve ==> method
                == "POST"@
            &&& r == Route::Page || r == Route::Script || r == Route::Health || r
                == Route::ListStations || r == Route::ListEvents || r == Route::ShowEvent
                ==> method == "GET"@
            &&& method != "GET"@ && method != "POST"@ ==> r == Route::Missing
        }),
{
    reveal_strlit("GET");
    reveal_strlit("POST");
    assert("GET"@.len() == 3 && "POST"@.len() == 4);
}

// ---------- The times of a clock ----------

/// Two segments of one clock hold at one time.
pub open spec fn meet(segs: Seq<ClockSegmentView>, i: int, j: int, t: Double) -> bool {
    &&& 0 <= i < segs.len()
    &&& 0 <= j < segs.len()
    &&& i != j
    &&& segs[i].station_id == segs[j].station_id
    &&& holds_at(segs[i], t)
    &&& holds_at(segs[j], t)
}

/// Segments, none of them empty, are refused exactly when two of one clock hold at
/// one time.
pub proof fn segments_are_refused_where_they_meet(segs: Seq<ClockSegmentView>)
    requires
        forall|i: int| 0 <= i < segs.len() ==> !(#[trigger] segs[i]).t_start.nan(),
        forall|i: int|
            0 <= i < segs.len() ==> ((#[trigger] segs[i]).t_end matches Some(e)
                ==> segs[i].t_start.below(e)),
    ensures
        !is_partition(segs) <==> exists|i: int, j: int, t: Double| #[trigger] meet(segs, i, j, t),
{
    if !is_partition(segs) {
        let (i, j) = choose|i: int, j: int|
            0 <= i < segs.len() && 0 <= j < segs.len() && i != j && (
            #[trigger] segs[i]).station_id == (#[trigger] segs[j]).station_id && !({
                &&& !segs[i].t_start.same_number(segs[j].t_start)
                &&& segs[i].t_start.below(segs[j].t_start) ==> segs[i].t_end is Some
                    && !segs[j].t_start.below(segs[i].t_end->0)
            });
        let t = segs[j].t_start;
        assert(!segs[i].t_start.nan() && !segs[j].t_start.nan());
        assert(holds_at(segs[j], t));
        assert(holds_at(segs[i], t));
        assert(meet(segs, i, j, t));
    }
    if exists|i: int, j: int, t: Double| #[trigger] meet(segs, i, j, t) {
        let (i, j, t) = choose|i: int, j: int, t: Double| #[trigger] meet(segs, i, j, t);
        if is_partition(segs) {
            crate::clocks::at_most_one_holds(segs, segs[i].station_id, t, i, j);
        }
    }
}

} // verus!
