//! What holds of texts in URLs.
use vstd::prelude::*;
use vstd::utf8::{
    char_u32_cast, decode_utf8, encode_scalar, encode_utf8, encode_utf8_decode_utf8,
    encode_utf8_valid_utf8, valid_utf8,
};

use crate::server::{hex_value, percent_decoded, url_meaning};
use crate::split::{find_text, find_text_finds_the_first, replaced};

verus! {

/// A byte with `+` turned into a space.
pub open spec fn spaced(b: u8) -> u8 {
    if b == 0x2b {
        0x20
    } else {
        b
    }
}

pub open spec fn is_hex_digit(b: u8) -> bool {
    0x30 <= b <= 0x39 || 0x61 <= b <= 0x66 || 0x41 <= b <= 0x46
}

/// `e` spells the bytes `b` as a URL may: each byte as `%` and two hexadecimal
/// digits, or as itself where it is neither `%` nor `+`, or, where it is a
/// space, as `+`.
pub open spec fn spells(e: Seq<u8>, b: Seq<u8>) -> bool
    decreases b.len(),
{
    if b.len() == 0 {
        e.len() == 0
    } else {
        ||| e.len() >= 3 && e[0] == 0x25 && is_hex_digit(e[1]) && is_hex_digit(e[2])
            && hex_value(e[1]) * 16 + hex_value(e[2]) == b[0] && spells(e.skip(3), b.skip(1))
        ||| e.len() >= 1 && e[0] == b[0] && b[0] != 0x25 && b[0] != 0x2b && spells(
            e.skip(1),
            b.skip(1),
        )
        ||| e.len() >= 1 && e[0] == 0x2b && b[0] == 0x20 && spells(e.skip(1), b.skip(1))
    }
}

/// A character with `+` turned into a space.
spec fn spaced_char(c: char) -> char {
    if c == '+' {
        ' '
    } else {
        c
    }
}

proof fn plus_signs_are_spaced(s: Seq<char>)
    ensures
        replaced(s, seq!['+'], seq![' ']) == s.map_values(|c: char| spaced_char(c)),
    decreases s.len(),
{
    let from = seq!['+'];
    let to = seq![' '];
    let f = |c: char| spaced_char(c);
    if s.len() == 0 {
        assert(find_text(s, from) is None);
        assert(replaced(s, from, to) =~= s.map_values(f));
    } else {
        let t = s.drop_first();
        plus_signs_are_spaced(t);
        find_text_finds_the_first(t, from);
        if s[0] == '+' {
            assert(from.is_prefix_of(s)) by {
                assert(s.subrange(0, 1) =~= from);
            }
            assert(find_text(s, from) == Some(0int));
            assert(s.skip(1) =~= t);
            assert(replaced(s, from, to) =~= to + replaced(t, from, to));
            assert(s.map_values(f) =~= to + t.map_values(f));
        } else {
            assert(!from.is_prefix_of(s)) by {
                if from.is_prefix_of(s) {
                    assert(from[0] == s[0]);
                }
            }
            match find_text(t, from) {
                Some(i) => {
                    assert(find_text(s, from) == Some(i + 1));
                    assert(s.skip(i + 2) =~= t.skip(i + 1));
                    assert(s.take(i + 1) =~= seq![s[0]] + t.take(i));
                    assert(replaced(s, from, to) =~= seq![s[0]] + replaced(t, from, to));
                },
                None => {
                    assert(find_text(s, from) is None);
                    assert(replaced(s, from, to) =~= seq![s[0]] + replaced(t, from, to));
                },
            }
            assert(s.map_values(f) =~= seq![s[0]] + t.map_values(f));
        }
    }
}

/// The bytes of a character beyond ASCII are none of ASCII, and the byte of an
/// ASCII character is its number.
proof fn bytes_of_a_character(c: u32)
    ensures
        c < 0x80 ==> encode_scalar(c) == seq![c as u8],
        c >= 0x80 ==> forall|i: int|
            0 <= i < encode_scalar(c).len() ==> #[trigger] encode_scalar(c)[i] >= 0x80,
{
    if c < 0x80 {
        assert((c & 0x7F) as u8 == c as u8) by (bit_vector)
            requires
                c < 0x80,
        ;
        assert(encode_scalar(c) =~= seq![c as u8]);
    } else {
        assert(forall|b: u8| #[trigger] (0xC0u8 | b) >= 0x80u8) by (bit_vector);
        assert(forall|b: u8| #[trigger] (0xE0u8 | b) >= 0x80u8) by (bit_vector);
        assert(forall|b: u8| #[trigger] (0xF0u8 | b) >= 0x80u8) by (bit_vector);
        assert(forall|b: u8| #[trigger] (0x80u8 | b) >= 0x80u8) by (bit_vector);
    }
}

proof fn spacing_bytes_is_spacing_characters(s: Seq<char>)
    ensures
        encode_utf8(s.map_values(|c: char| spaced_char(c))) == encode_utf8(s).map_values(
            |b: u8| spaced(b),
        ),
    decreases s.len(),
{
    let f = |c: char| spaced_char(c);
    let g = |b: u8| spaced(b);
    if s.len() > 0 {
        let t = s.drop_first();
        spacing_bytes_is_spacing_characters(t);
        assert(s.map_values(f).drop_first() =~= t.map_values(f));
        let one = encode_scalar(s[0] as u32);
        let two = encode_scalar(f(s[0]) as u32);
        bytes_of_a_character(s[0] as u32);
        bytes_of_a_character(f(s[0]) as u32);
        assert(one.map_values(g) =~= two);
        assert((one + encode_utf8(t)).map_values(g) =~= one.map_values(g) + encode_utf8(
            t,
        ).map_values(g));
    } else {
        assert(s.map_values(f) =~= s);
        assert(encode_utf8(s).map_values(g) =~= encode_utf8(s));
    }
}

proof fn what_is_spelt_is_decoded(e: Seq<u8>, b: Seq<u8>)
    requires
        spells(e, b),
    ensures
        percent_decoded(e.map_values(|x: u8| spaced(x))) == b,
    decreases b.len(),
{
    let g = |x: u8| spaced(x);
    let m = e.map_values(g);
    if b.len() == 0 {
        assert(percent_decoded(m) =~= b);
    } else {
        let rest = b.skip(1);
        if e.len() >= 3 && e[0] == 0x25 && is_hex_digit(e[1]) && is_hex_digit(e[2]) && hex_value(
            e[1],
        ) * 16 + hex_value(e[2]) == b[0] && spells(e.skip(3), rest) {
            what_is_spelt_is_decoded(e.skip(3), rest);
            assert(e.skip(3).map_values(g) =~= m.skip(3));
            assert(m.len() <= 3 ==> m.skip(3) =~= Seq::empty());
            assert(m[0] == 0x25 && m[1] == e[1] && m[2] == e[2]);
            assert(percent_decoded(m) =~= seq![b[0]] + rest);
        } else {
            what_is_spelt_is_decoded(e.skip(1), rest);
            assert(e.skip(1).map_values(g) =~= m.skip(1));
            assert(m[0] == b[0] && m[0] != 0x25);
            assert(percent_decoded(m) =~= seq![b[0]] + rest);
        }
        assert(seq![b[0]] + rest =~= b);
    }
}

/// Decoding undoes encoding: a text whose bytes spell those of another, in any
/// of the ways in which a URL may, is decoded to that other text.
pub proof fn decoding_undoes_encoding(s: Seq<char>, u: Seq<char>)
    requires
        spells(encode_utf8(s), encode_utf8(u)),
    ensures
        url_meaning(s) == encode_utf8(u),
        valid_utf8(url_meaning(s)),
        decode_utf8(url_meaning(s)) == u,
{
    plus_signs_are_spaced(s);
    spacing_bytes_is_spacing_characters(s);
    what_is_spelt_is_decoded(encode_utf8(s), encode_utf8(u));
    encode_utf8_valid_utf8(u);
    encode_utf8_decode_utf8(u);
}

/// A hexadecimal digit.
pub open spec fn hex_letter(n: int) -> char {
    if n < 10 {
        (0x30 + n) as char
    } else {
        (0x41 + n - 10) as char
    }
}

/// Bytes with each written as `%` and two hexadecimal digits.
pub open spec fn percent_encoded(b: Seq<u8>) -> Seq<char>
    decreases b.len(),
{
    if b.len() == 0 {
        Seq::empty()
    } else {
        seq!['%', hex_letter(b[0] as int / 16), hex_letter(b[0] as int % 16)] + percent_encoded(
            b.skip(1),
        )
    }
}

proof fn encoded_bytes_are_spelt(b: Seq<u8>)
    ensures
        spells(encode_utf8(percent_encoded(b)), b),
    decreases b.len(),
{
    if b.len() > 0 {
        let rest = b.skip(1);
        encoded_bytes_are_spelt(rest);
        let s = percent_encoded(b);
        let t = percent_encoded(rest);
        let (h, l) = (hex_letter(b[0] as int / 16), hex_letter(b[0] as int % 16));
        reveal_with_fuel(encode_utf8, 4);
        bytes_of_a_character('%' as u32);
        bytes_of_a_character(h as u32);
        bytes_of_a_character(l as u32);
        assert(s.drop_first() =~= seq![h, l] + t);
        assert(s.drop_first().drop_first() =~= seq![l] + t);
        assert(s.drop_first().drop_first().drop_first() =~= t);
        let e = encode_utf8(s);
        assert(e =~= seq![0x25u8, h as u8, l as u8] + encode_utf8(t));
        assert(e.skip(3) =~= encode_utf8(t));
        assert(e[0] == 0x25 && is_hex_digit(e[1]) && is_hex_digit(e[2]));
        assert(hex_value(e[1]) == b[0] as int / 16);
        assert(hex_value(e[2]) == b[0] as int % 16);
    }
}

/// The percent-encoded bytes of a text are decoded to the text.
pub proof fn percent_encoding_is_undone(u: Seq<char>)
    ensures
        valid_utf8(url_meaning(percent_encoded(encode_utf8(u)))),
        decode_utf8(url_meaning(percent_encoded(encode_utf8(u)))) == u,
{
    encoded_bytes_are_spelt(encode_utf8(u));
    decoding_undoes_encoding(percent_encoded(encode_utf8(u)), u);
}

proof fn plain_bytes_spell_themselves(b: Seq<u8>)
    requires
        forall|i: int| 0 <= i < b.len() ==> #[trigger] b[i] != 0x25 && b[i] != 0x2b,
    ensures
        spells(b, b),
    decreases b.len(),
{
    if b.len() > 0 {
        assert forall|i: int| 0 <= i < b.skip(1).len() implies #[trigger] b.skip(1)[i] != 0x25
            && b.skip(1)[i] != 0x2b by {
            assert(b.skip(1)[i] == b[i + 1]);
        }
        plain_bytes_spell_themselves(b.skip(1));
        assert(b[0] != 0x25);
    }
}

proof fn plain_characters_have_plain_bytes(u: Seq<char>)
    requires
        !u.contains('%'),
        !u.contains('+'),
    ensures
        forall|i: int|
            0 <= i < encode_utf8(u).len() ==> #[trigger] encode_utf8(u)[i] != 0x25 && encode_utf8(
                u,
            )[i] != 0x2b,
    decreases u.len(),
{
    if u.len() > 0 {
        let t = u.drop_first();
        assert forall|c: char| t.contains(c) implies u.contains(c) by {
            let k = choose|k: int| 0 <= k < t.len() && t[k] == c;
            assert(u[k + 1] == c);
        }
        plain_characters_have_plain_bytes(t);
        assert(u.contains(u[0]));
        assert(u[0] != '%' && u[0] != '+');
        char_u32_cast(u[0], u[0] as u32);
        bytes_of_a_character(u[0] as u32);
        let one = encode_scalar(u[0] as u32);
        let e = encode_utf8(u);
        assert forall|i: int| 0 <= i < e.len() implies #[trigger] e[i] != 0x25 && e[i] != 0x2b by {
            if i < one.len() {
                assert(e[i] == one[i]);
                assert(one[i] != 0x25 && one[i] != 0x2b);
            } else {
                assert(e[i] == encode_utf8(t)[i - one.len()]);
            }
        }
    }
}

/// A text with neither `%` nor `+` is decoded to itself.
pub proof fn plain_text_is_decoded_to_itself(u: Seq<char>)
    requires
        !u.contains('%'),
        !u.contains('+'),
    ensures
        valid_utf8(url_meaning(u)),
        decode_utf8(url_meaning(u)) == u,
{
    plain_characters_have_plain_bytes(u);
    plain_bytes_spell_themselves(encode_utf8(u));
    decoding_undoes_encoding(u, u);
}

} // verus!
