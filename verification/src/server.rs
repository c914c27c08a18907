//! The HTTP side of the survey: reading requests, framing answers, choosing
//! what a request asks for.
use vstd::hash_map::StringHashMap;
use vstd::prelude::*;
use vstd::string::*;
use vstd::utf8::{decode_utf8, encode_utf8, valid_utf8};

use crate::canon::{json_string, quoted_text, Quoting};
use crate::split::{
    after_word, cut, cut_text, first_word, number_value, pieces, read_number, replace, replaced,
    split, take_word, trim, trimmed,
};
use crate::text::{chars_of, decimal, decimal_text, same, text_of, texts};

verus! {

/// The text of a byte string in which what is no UTF-8 is replaced.
pub uninterp spec fn lossy_text(bytes: Seq<u8>) -> Seq<char>;

/// `String::from_utf8_lossy`: the text of `bytes`. Where they are valid UTF-8
/// it is what they encode; how a broken sequence is replaced is left to std.
#[verifier::external_body]
fn text_from_bytes(bytes: &Vec<u8>) -> (r: String)
    ensures
        r@ == lossy_text(bytes@),
        valid_utf8(bytes@) ==> r@ == decode_utf8(bytes@),
{
    String::from_utf8_lossy(bytes).to_string()
}

/// The head of an answer: the status line and the headers, up to the empty
/// line before the body.
pub open spec fn head_text(
    status: int,
    reason: Seq<char>,
    content_type: Seq<char>,
    length: nat,
) -> Seq<char> {
    "HTTP/1.1 "@ + decimal_text(status as nat) + " "@ + reason + "\r\nContent-Type: "@
        + content_type + "\r\nContent-Length: "@ + decimal_text(length)
        + "\r\nConnection: close\r\n\r\n"@
}

/// A whole answer.
pub open spec fn answer(
    status: int,
    reason: Seq<char>,
    content_type: Seq<char>,
    body: Seq<u8>,
) -> Seq<u8> {
    encode_utf8(head_text(status, reason, content_type, body.len())) + body
}

/// Frames an answer.
pub fn response(status: u16, reason: &str, content_type: &str, body: Vec<u8>) -> (r: Vec<u8>)
    ensures
        r@ == answer(status as int, reason@, content_type@, body@),
{
    let ghost given = body@;
    let length: usize = body.len();
    let mut head = "HTTP/1.1 ".to_owned();
    head.append(decimal(status as u64).as_str());
    head.append(" ");
    head.append(reason);
    head.append("\r\nContent-Type: ");
    head.append(content_type);
    head.append("\r\nContent-Length: ");
    head.append(decimal(length as u64).as_str());
    head.append("\r\nConnection: close\r\n\r\n");
    assert(head@ =~= head_text(status as int, reason@, content_type@, given.len()));
    let mut out = head.as_str().as_bytes_vec();
    let mut rest = body;
    out.append(&mut rest);
    assert(out@ =~= encode_utf8(head@) + given);
    out
}

/// An answer that carries a page or a script.
pub fn serve_static(content_type: &str, body: &str) -> (r: Vec<u8>)
    ensures
        r@ == answer(200, "OK"@, content_type@, encode_utf8(body@)),
{
    response(200, "OK", content_type, body.as_bytes_vec())
}

/// An answer that carries a JSON document.
pub fn json_200(body: Vec<u8>) -> (r: Vec<u8>)
    ensures
        r@ == answer(200, "OK"@, "application/json; charset=utf-8"@, body@),
{
    response(200, "OK", "application/json; charset=utf-8", body)
}

/// The document that reports an error.
pub open spec fn error_text(msg: Seq<char>) -> Seq<char> {
    "{\"error\":"@ + quoted_text(msg, Quoting::Full) + "}"@
}

/// An answer that reports an error.
pub fn json_err(status: u16, reason: &str, msg: &str) -> (r: Vec<u8>)
    ensures
        r@ == answer(
            status as int,
            reason@,
            "application/json; charset=utf-8"@,
            encode_utf8(error_text(msg@)),
        ),
{
    let mut body = "{\"error\":".to_owned();
    body.append(json_string(msg).as_str());
    body.append("}");
    assert(body@ =~= error_text(msg@));
    response(status, reason, "application/json; charset=utf-8", body.as_str().as_bytes_vec())
}

/// The value of a hexadecimal digit; 0 for what is none.
pub open spec fn hex_value(b: u8) -> int {
    if 0x30 <= b <= 0x39 {
        b - 0x30
    } else if 0x61 <= b <= 0x66 {
        b - 0x61 + 10
    } else if 0x41 <= b <= 0x46 {
        b - 0x41 + 10
    } else {
        0
    }
}

/// A byte string with each `%` and the two digits behind it replaced by the
/// byte they stand for; a digit that is missing counts as 0.
pub open spec fn percent_decoded(b: Seq<u8>) -> Seq<u8>
    decreases b.len(),
{
    if b.len() == 0 {
        Seq::empty()
    } else if b[0] == 0x25 {
        let h = if b.len() > 1 {
            hex_value(b[1])
        } else {
            0
        };
        let l = if b.len() > 2 {
            hex_value(b[2])
        } else {
            0
        };
        let rest = if b.len() > 3 {
            b.skip(3)
        } else {
            Seq::empty()
        };
        seq![(h * 16 + l) as u8] + percent_decoded(rest)
    } else {
        seq![b[0]] + percent_decoded(b.skip(1))
    }
}

fn hex_digit_value(b: u8) -> (r: u8)
    ensures
        r == hex_value(b),
        r < 16,
{
    if 0x30 <= b && b <= 0x39 {
        b - 0x30
    } else if 0x61 <= b && b <= 0x66 {
        b - 0x61 + 10
    } else if 0x41 <= b && b <= 0x46 {
        b - 0x41 + 10
    } else {
        0
    }
}

/// What a text in a URL stands for: `+` is a space, `%` introduces a byte.
pub open spec fn url_meaning(s: Seq<char>) -> Seq<u8> {
    percent_decoded(encode_utf8(replaced(s, seq!['+'], seq![' '])))
}

/// Decodes a text in a URL.
pub fn url_decode(s: &str) -> (r: String)
    ensures
        r@ == lossy_text(url_meaning(s@)),
        valid_utf8(url_meaning(s@)) ==> r@ == decode_utf8(url_meaning(s@)),
{
    proof {
        reveal_strlit("+");
        reveal_strlit(" ");
        assert("+"@ =~= seq!['+']);
        assert(" "@ =~= seq![' ']);
    }
    let spaced = replace(s, "+", " ");
    let bytes = spaced.as_str().as_bytes_vec();
    let mut out: Vec<u8> = Vec::new();
    let mut i: usize = 0;
    assert(bytes@.skip(0) =~= bytes@);
    while i < bytes.len()
        invariant
            i <= bytes@.len(),
            out@ + percent_decoded(bytes@.skip(i as int)) == percent_decoded(bytes@),
        decreases bytes@.len() - i,
    {
        let ghost rest = bytes@.skip(i as int);
        let ghost before = out@;
        if bytes[i] == 0x25 {
            let n: usize = bytes.len() - i;
            let h: u8 = if n > 1 {
                hex_digit_value(bytes[i + 1])
            } else {
                0
            };
            let l: u8 = if n > 2 {
                hex_digit_value(bytes[i + 2])
            } else {
                0
            };
            out.push(h * 16 + l);
            let step: usize = if n > 3 {
                3
            } else {
                n
            };
            assert(bytes@.skip(i + step) =~= if rest.len() > 3 {
                rest.skip(3)
            } else {
                Seq::empty()
            });
            assert(out@ + percent_decoded(bytes@.skip(i + step)) =~= before
                + percent_decoded(rest));
            i += step;
        } else {
            out.push(bytes[i]);
            assert(rest.skip(1) =~= bytes@.skip(i + 1));
            assert(out@ + percent_decoded(bytes@.skip(i + 1)) =~= before + percent_decoded(rest));
            i += 1;
        }
    }
    assert(bytes@.skip(i as int) =~= Seq::empty());
    assert(out@ =~= percent_decoded(bytes@));
    text_from_bytes(&out)
}

/// The parameters of a query: a later value takes the place of an earlier one,
/// and a piece without `=` counts for nothing.
pub open spec fn params(list: Seq<Seq<char>>) -> Map<Seq<char>, Seq<char>>
    decreases list.len(),
{
    if list.len() == 0 {
        Map::empty()
    } else {
        let before = params(list.drop_last());
        match cut_text(list.last(), seq!['=']) {
            Some((k, v)) => before.insert(
                lossy_text(url_meaning(k)),
                lossy_text(url_meaning(v)),
            ),
            None => before,
        }
    }
}

/// The parameters of a query, by name.
pub fn query_params(q: &str) -> (r: StringHashMap<String>)
    ensures
        r@.map_values(|v: String| v@) == params(pieces(q@, seq!['&'])),
{
    proof {
        reveal_strlit("&");
        reveal_strlit("=");
        assert("&"@ =~= seq!['&']);
        assert("="@ =~= seq!['=']);
    }
    let list = split(q, "&");
    let mut m: StringHashMap<String> = StringHashMap::new();
    let mut i: usize = 0;
    let ghost all = texts(list@);
    assert(all.take(0) =~= Seq::empty());
    while i < list.len()
        invariant
            i <= list@.len(),
            all == texts(list@),
            "="@ == seq!['='],
            m@.map_values(|v: String| v@) =~= params(all.take(i as int)),
        decreases list@.len() - i,
    {
        let ghost before = m@;
        assert(all.take(i + 1).drop_last() =~= all.take(i as int));
        match cut(list[i].as_str(), "=") {
            Some((k, v)) => {
                let name = url_decode(k.as_str());
                let value = url_decode(v.as_str());
                let ghost key = name@;
                m.insert(name, value);
                assert(m@.map_values(|v: String| v@) =~= before.map_values(
                    |v: String| v@,
                ).insert(key, value@));
            },
            None => {},
        }
        i += 1;
    }
    assert(all.take(i as int) =~= all);
    m
}

/// A character against a lower-case one, without regard to ASCII case.
pub open spec fn same_letter(c: char, t: char) -> bool {
    c == t || ('A' <= c && c <= 'Z' && c as u32 + 32 == t as u32)
}

/// A line begins with a header name, written in any case.
pub open spec fn under_header(line: Seq<char>, name: Seq<char>) -> bool {
    line.len() >= name.len() && forall|i: int|
        0 <= i < name.len() ==> same_letter(#[trigger] line[i], name[i])
}

/// What a header line says of the length of the body.
pub open spec fn announced_length(line: Seq<char>) -> Option<int> {
    let name = "content-length:"@;
    if under_header(line, name) {
        match number_value(trimmed(line.skip(name.len() as int))) {
            Some(n) => if n <= usize::MAX {
                Some(n)
            } else {
                Some(0)
            },
            None => Some(0),
        }
    } else {
        None
    }
}

/// The length of the body by the lines of a request, up to the first empty
/// one; the last header counts.
pub open spec fn declared_length(lines: Seq<Seq<char>>, seen: int) -> int
    decreases lines.len(),
{
    if lines.len() == 0 || lines[0].len() == 0 {
        seen
    } else {
        declared_length(
            lines.drop_first(),
            match announced_length(lines[0]) {
                Some(n) => n,
                None => seen,
            },
        )
    }
}

fn read_length(line: &str) -> (r: Option<usize>)
    ensures
        match r {
            Some(n) => announced_length(line@) == Some(n as int),
            None => announced_length(line@) is None,
        },
{
    let x = chars_of(line);
    let name = chars_of("content-length:");
    if x.len() < name.len() {
        return None;
    }
    let mut i: usize = 0;
    while i < name.len()
        invariant
            i <= name@.len() <= x@.len(),
            x@ == line@,
            name@ == "content-length:"@,
            forall|j: int| 0 <= j < i ==> same_letter(#[trigger] x@[j], name@[j]),
        decreases name@.len() - i,
    {
        let c = x[i];
        let t = name[i];
        if c != t && !('A' <= c && c <= 'Z' && c as u32 + 32 == t as u32) {
            assert(!same_letter(x@[i as int], name@[i as int]));
            return None;
        }
        i += 1;
    }
    let rest = text_of(&x, name.len(), x.len());
    assert(rest@ =~= line@.skip(name@.len() as int));
    let value = trim(rest.as_str());
    match read_number(value.as_str()) {
        Some(n) => Some(n),
        None => Some(0),
    }
}

fn body_length(lines: &Vec<String>) -> (r: usize)
    ensures
        r == declared_length(texts(lines@), 0),
{
    let ghost all = texts(lines@);
    let mut seen: usize = 0;
    let mut i: usize = 0;
    assert(all.skip(0) =~= all);
    while i < lines.len()
        invariant
            i <= lines@.len(),
            all == texts(lines@),
            declared_length(all, 0) == declared_length(all.skip(i as int), seen as int),
        decreases lines@.len() - i,
    {
        assert(all.skip(i as int)[0] == lines@[i as int]@);
        if lines[i].as_str().is_empty() {
            return seen;
        }
        match read_length(lines[i].as_str()) {
            Some(n) => {
                seen = n;
            },
            None => {},
        }
        assert(all.skip(i as int).drop_first() =~= all.skip(i + 1));
        i += 1;
    }
    seen
}

/// A request whose body is still coming in.
#[derive(Debug)]
pub struct Intake {
    pub method: String,
    pub path: String,
    pub query: String,
    pub content_length: usize,
    pub body: String,
}

/// The first line of a request.
pub open spec fn request_line(raw: Seq<char>) -> Seq<char> {
    pieces(raw, "\r\n"@)[0]
}

/// A text, or another one where it is empty.
pub open spec fn or_else(s: Seq<char>, other: Seq<char>) -> Seq<char> {
    if s.len() == 0 {
        other
    } else {
        s
    }
}

/// What a request is about: its path with the query.
pub open spec fn target(raw: Seq<char>) -> Seq<char> {
    or_else(first_word(after_word(request_line(raw))), "/"@)
}

impl Intake {
    /// This is what the first part of a request says.
    pub open spec fn begun_with(self, raw: Seq<char>) -> bool {
        &&& self.method@ == or_else(first_word(request_line(raw)), "GET"@)
        &&& match cut_text(target(raw), "?"@) {
            Some((p, q)) => self.path@ == p && self.query@ == q,
            None => self.path@ == target(raw) && self.query@.len() == 0,
        }
        &&& self.content_length == declared_length(pieces(raw, "\r\n"@), 0)
        &&& self.body@ == match cut_text(raw, "\r\n\r\n"@) {
            Some((_, rest)) => if self.content_length > 0 {
                rest
            } else {
                Seq::empty()
            },
            None => Seq::empty(),
        }
    }

    /// Reads the first part of a request.
    pub fn begin(raw: &str) -> (r: Intake)
        ensures
            r.begun_with(raw@),
    {
        proof {
            reveal_strlit("\r\n");
        }
        let lines = split(raw, "\r\n");
        assert(lines@.len() == texts(lines@).len());
        assert(lines@.len() > 0) by {
            assert(pieces(raw@, "\r\n"@).len() > 0);
        }
        let line = lines[0].as_str();
        assert(line@ == texts(lines@)[0]);
        let (first, rest) = take_word(line);
        let (second, _) = take_word(rest.as_str());
        let method = if first.as_str().is_empty() {
            "GET".to_owned()
        } else {
            first
        };
        let whole = if second.as_str().is_empty() {
            "/".to_owned()
        } else {
            second
        };
        let content_length: usize = body_length(&lines);
        let (path, query) = match cut(whole.as_str(), "?") {
            Some((p, q)) => (p, q),
            None => (whole, String::new()),
        };
        let body = if content_length > 0 {
            match cut(raw, "\r\n\r\n") {
                Some((_, tail)) => tail,
                None => String::new(),
            }
        } else {
            String::new()
        };
        assert(content_length == 0 ==> body@ =~= Seq::empty());
        Intake { method, path, query, content_length, body }
    }

    /// Reads the first part of a request off the wire.
    pub fn begin_bytes(bytes: &Vec<u8>) -> (r: Intake)
        ensures
            r.begun_with(lossy_text(bytes@)),
            valid_utf8(bytes@) ==> r.begun_with(decode_utf8(bytes@)),
    {
        let raw = text_from_bytes(bytes);
        Intake::begin(raw.as_str())
    }

    /// The number of bytes of the body that are still to come.
    pub open spec fn missing(self) -> int {
        let have = encode_utf8(self.body@).len();
        if have < self.content_length {
            self.content_length - have
        } else {
            0
        }
    }

    /// How many bytes of the body are still to come.
    pub fn wanted(&self) -> (r: usize)
        ensures
            r == self.missing(),
    {
        let have: usize = self.body.as_str().as_bytes_vec().len();
        if have < self.content_length {
            self.content_length - have
        } else {
            0
        }
    }

    /// Takes in a further part of the body.
    pub fn receive(&mut self, part: &Vec<u8>)
        ensures
            final(self).body@ == old(self).body@ + lossy_text(part@),
            valid_utf8(part@) ==> final(self).body@ == old(self).body@ + decode_utf8(part@),
            final(self).method == old(self).method,
            final(self).path == old(self).path,
            final(self).query == old(self).query,
            final(self).content_length == old(self).content_length,
    {
        let more = text_from_bytes(part);
        self.body.append(more.as_str());
    }
}

/// What a request asks for.
#[derive(Clone, Copy, Debug, PartialEq, Eq, Structural)]
pub enum Route {
    Page,
    Script,
    Health,
    ListStations,
    ListEvents,
    ShowEvent,
    PutStation,
    PutEvent,
    PutSegment,
    PutBatch,
    PutEvidence,
    Solve,
    Missing,
}

/// The routes of the survey.
pub open spec fn routed(method: Seq<char>, path: Seq<char>) -> Route {
    if method == "GET"@ {
        if path == "/"@ {
            Route::Page
        } else if path == "/static/app.js"@ {
            Route::Script
        } else if path == "/api/health"@ {
            Route::Health
        } else if path == "/api/stations"@ {
            Route::ListStations
        } else if path == "/api/events"@ {
            Route::ListEvents
        } else if path == "/api/event"@ {
            Route::ShowEvent
        } else {
            Route::Missing
        }
    } else if method == "POST"@ {
        if path == "/api/stations"@ {
            Route::PutStation
        } else if path == "/api/events"@ {
            Route::PutEvent
        } else if path == "/api/clock-segments"@ {
            Route::PutSegment
        } else if path == "/api/batches"@ {
            Route::PutBatch
        } else if path == "/api/evidence"@ {
            Route::PutEvidence
        } else if path == "/api/solve"@ {
            Route::Solve
        } else {
            Route::Missing
        }
    } else {
        Route::Missing
    }
}

/// Chooses what a request asks for.
pub fn route(method: &str, path: &str) -> (r: Route)
    ensures
        r == routed(method@, path@),
{
    if same(method, "GET") {
        if same(path, "/") {
            Route::Page
        } else if same(path, "/static/app.js") {
            Route::Script
        } else if same(path, "/api/health") {
            Route::Health
        } else if same(path, "/api/stations") {
            Route::ListStations
        } else if same(path, "/api/events") {
            Route::ListEvents
        } else if same(path, "/api/event") {
            Route::ShowEvent
        } else {
            Route::Missing
        }
    } else if same(method, "POST") {
        if same(path, "/api/stations") {
            Route::PutStation
        } else if same(path, "/api/events") {
            Route::PutEvent
        } else if same(path, "/api/clock-segments") {
            Route::PutSegment
        } else if same(path, "/api/batches") {
            Route::PutBatch
        } else if same(path, "/api/evidence") {
            Route::PutEvidence
        } else if same(path, "/api/solve") {
            Route::Solve
        } else {
            Route::Missing
        }
    } else {
        Route::Missing
    }
}

} // verus!
