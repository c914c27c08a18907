//! Fingerprints: SHA-256, written in hexadecimal.
use vstd::bytes::{spec_u64_to_le_bytes, u64_to_le_bytes};
use vstd::prelude::*;
use vstd::string::*;
use vstd::utf8::encode_utf8;

verus! {

/// The SHA-256 digest of a byte string.
pub uninterp spec fn sha256_of(data: Seq<u8>) -> Seq<u8>;

/// `sha2::Sha256::digest`: the digest of `data`, which is 32 bytes long and
/// depends on `data` alone. Which bytes they are is left to the algorithm.
#[verifier::external_body]
fn sha256(data: &Vec<u8>) -> (r: Vec<u8>)
    ensures
        r@ == sha256_of(data@),
        r@.len() == 32,
{
    <sha2::Sha256 as sha2::Digest>::digest(data).to_vec()
}

/// A hexadecimal digit, in lower case.
pub open spec fn hex_digit(n: int) -> char {
    if n == 10 {
        'a'
    } else if n == 11 {
        'b'
    } else if n == 12 {
        'c'
    } else if n == 13 {
        'd'
    } else if n == 14 {
        'e'
    } else if n == 15 {
        'f'
    } else {
        crate::text::digit(n)
    }
}

/// Each byte as two hexadecimal digits, the high one first.
pub open spec fn hex_text(data: Seq<u8>) -> Seq<char> {
    Seq::new(
        2 * data.len(),
        |i: int|
            if i % 2 == 0 {
                hex_digit(data[i / 2] as int / 16)
            } else {
                hex_digit(data[i / 2] as int % 16)
            },
    )
}

/// `hex::encode`: two lower-case hexadecimal digits for each byte.
#[verifier::external_body]
fn hex_encode(data: &Vec<u8>) -> (r: String)
    ensures
        r@ == hex_text(data@),
{
    hex::encode(data)
}

/// The fingerprint of a byte string.
pub open spec fn fingerprint(data: Seq<u8>) -> Seq<char> {
    hex_text(sha256_of(data))
}

/// The fingerprint of a text: of its UTF-8 bytes.
pub fn text_fingerprint(s: &str) -> (r: String)
    ensures
        r@ == fingerprint(encode_utf8(s@)),
        r@.len() == 64,
{
    let bytes = s.as_bytes_vec();
    let d = sha256(&bytes);
    hex_encode(&d)
}

/// The first eight digits of the fingerprint of a text.
pub fn sha8(s: &str) -> (r: String)
    ensures
        r@ == fingerprint(encode_utf8(s@)).take(8),
        r@.len() == 8,
{
    let bytes = s.as_bytes_vec();
    let mut d = sha256(&bytes);
    let ghost whole = d@;
    d.truncate(4);
    let r = hex_encode(&d);
    assert(r@ =~= hex_text(whole).take(8));
    r
}

/// The parts one after the other, each behind its length in bytes.
pub open spec fn framed(parts: Seq<Seq<char>>) -> Seq<u8>
    decreases parts.len(),
{
    if parts.len() == 0 {
        Seq::empty()
    } else {
        let p = encode_utf8(parts.last());
        framed(parts.drop_last()) + spec_u64_to_le_bytes(p.len() as u64) + p
    }
}

/// What a list of string slices says.
pub open spec fn slices(parts: Seq<&str>) -> Seq<Seq<char>> {
    parts.map_values(|p: &str| p@)
}

/// The fingerprint of a list of texts. Each text goes in behind its length,
/// so that moving a character from one text to the next changes what is hashed.
pub fn sha256_hex(parts: &[&str]) -> (r: String)
    ensures
        r@ == fingerprint(framed(slices(parts@))),
        r@.len() == 64,
{
    let mut bytes: Vec<u8> = Vec::new();
    let mut i: usize = 0;
    let ghost list = slices(parts@);
    assert(list.take(0) =~= Seq::empty());
    while i < parts.len()
        invariant
            i <= parts@.len(),
            list == slices(parts@),
            bytes@ == framed(list.take(i as int)),
        decreases parts@.len() - i,
    {
        let part = parts[i];
        let mut body = part.as_bytes_vec();
        let mut length = u64_to_le_bytes(body.len() as u64);
        let ghost body0 = body@;
        let ghost len0 = length@;
        let ghost before = bytes@;
        bytes.append(&mut length);
        bytes.append(&mut body);
        assert(list.take(i + 1).drop_last() =~= list.take(i as int));
        assert(bytes@ =~= before + len0 + body0);
        i += 1;
    }
    assert(list.take(i as int) =~= list);
    let d = sha256(&bytes);
    hex_encode(&d)
}

} // verus!
