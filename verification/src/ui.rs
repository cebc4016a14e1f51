//! What the pages for people answer.
use crate::discovery_capture::{byte_hex, hex_of_byte, split_target, target_parts};
use crate::labels::{lookup, with_label, Labels, Pair};
use crate::report::text_option;
use crate::text::{
    chars_of, decimal, decimal_of, glue3, glue5, halves, lines, lines_of, lossy_text, same, split,
    split_at_each, split_once, string_of, text_from_bytes, text_from_lossy, views, words, words_of,
};
use vstd::prelude::*;

verus! {

/// The pages are for this machine alone, whatever the configuration says.
pub const ADDRESS: &'static str = "127.0.0.1:3000";

/// The value of two bytes after a percent sign: a hexadecimal number, whose first digit may be a
/// plus sign.
pub open spec fn pair_value(a: u8, b: u8) -> Option<u8> {
    match (byte_hex(a), byte_hex(b)) {
        (Some(high), Some(low)) => Some((high * 16 + low) as u8),
        (None, Some(low)) => if a == 43 {
            Some(low)
        } else {
            None
        },
        _ => None,
    }
}

fn read_pair_value(a: u8, b: u8) -> (r: Option<u8>)
    ensures
        r == pair_value(a, b),
{
    match (hex_of_byte(a), hex_of_byte(b)) {
        (Some(high), Some(low)) => Some(high * 16 + low),
        (None, Some(low)) => if a == 43 {
            Some(low)
        } else {
            None
        },
        _ => None,
    }
}

/// The bytes that an encoded text stands for, from position `i` on: none where an escape is broken.
pub open spec fn decoded_from(s: Seq<u8>, i: int) -> Option<Seq<u8>>
    decreases s.len() - i,
{
    if i < 0 || i >= s.len() {
        Some(Seq::empty())
    } else if s[i] == 37 {
        if i + 2 < s.len() {
            match (pair_value(s[i + 1], s[i + 2]), decoded_from(s, i + 3)) {
                (Some(b), Some(rest)) => Some(seq![b] + rest),
                _ => None,
            }
        } else {
            None
        }
    } else {
        match decoded_from(s, i + 1) {
            Some(rest) => Some(
                seq![
                    if s[i] == 43 {
                        32u8
                    } else {
                        s[i]
                    },
                ] + rest,
            ),
            None => None,
        }
    }
}

/// The text that an encoded text stands for.
pub open spec fn decoded_text(value: Seq<char>) -> Option<Seq<char>> {
    match decoded_from(vstd::utf8::encode_utf8(value), 0) {
        Some(bytes) => if vstd::utf8::valid_utf8(bytes) {
            Some(vstd::utf8::decode_utf8(bytes))
        } else {
            None
        },
        None => None,
    }
}

pub fn percent_decode(value: &str) -> (r: Option<String>)
    ensures
        text_option(r) == decoded_text(value@),
{
    let bytes = value.as_bytes();
    let mut decoded: Vec<u8> = Vec::new();
    let mut i: usize = 0;
    let ghost whole = decoded_from(bytes@, 0);
    proof {
        if whole is Some {
            assert(Seq::<u8>::empty() + whole->0 == whole->0);
        }
    }
    let length = bytes.len();
    while i < length
        invariant
            i <= length,
            length == bytes@.len(),
            bytes@ == vstd::utf8::encode_utf8(value@),
            whole == decoded_from(bytes@, 0),
            whole == (match decoded_from(bytes@, i as int) {
                Some(rest) => Some(decoded@ + rest),
                None => None,
            }),
        decreases length - i,
    {
        let ghost was = decoded@;
        if bytes[i] == 37 {
            if length - i <= 2 {
                return None;
            }
            match read_pair_value(bytes[i + 1], bytes[i + 2]) {
                Some(b) => {
                    decoded.push(b);
                    proof {
                        match decoded_from(bytes@, i + 3) {
                            Some(rest) => {
                                assert(was + (seq![b] + rest) == decoded@ + rest);
                            },
                            None => {},
                        }
                    }
                    i += 3;
                },
                None => {
                    return None;
                },
            }
        } else {
            let b: u8 = if bytes[i] == 43 {
                32
            } else {
                bytes[i]
            };
            decoded.push(b);
            proof {
                match decoded_from(bytes@, i + 1) {
                    Some(rest) => {
                        assert(was + (seq![b] + rest) == decoded@ + rest);
                    },
                    None => {},
                }
            }
            i += 1;
        }
    }
    assert(decoded@ + Seq::<u8>::empty() == decoded@);
    text_from_bytes(decoded.as_slice())
}

/// A part of a query as a name and its value.
pub open spec fn query_pair(part: Seq<char>) -> Option<Pair> {
    let (key, value) = match split_once(part, "="@) {
        Some(parts) => parts,
        None => (part, Seq::empty()),
    };
    match (decoded_text(key), decoded_text(value)) {
        (Some(k), Some(v)) => Some((k, v)),
        _ => None,
    }
}

/// The parameters of a query. A later one wins over an earlier one, and broken ones are passed over.
pub open spec fn params_in(parts: Seq<Seq<char>>) -> Seq<Pair>
    decreases parts.len(),
{
    if parts.len() == 0 {
        Seq::empty()
    } else {
        let before = params_in(parts.drop_last());
        if parts.last().len() == 0 {
            before
        } else {
            match query_pair(parts.last()) {
                Some((key, value)) => with_label(before, key, value),
                None => before,
            }
        }
    }
}

fn read_query_pair(part: &[char]) -> (r: Option<(String, String)>)
    ensures
        match r {
            Some((key, value)) => query_pair(part@) == Some((key@, value@)),
            None => query_pair(part@) is None,
        },
{
    let (key, value) = match halves(part, chars_of("=").as_slice()) {
        Some((key, value)) => (string_of(key.as_slice()), string_of(value.as_slice())),
        None => {
            let none: Vec<char> = Vec::new();
            assert(none@ == Seq::<char>::empty());
            (string_of(part), string_of(none.as_slice()))
        },
    };
    match (percent_decode(key.as_str()), percent_decode(value.as_str())) {
        (Some(k), Some(v)) => Some((k, v)),
        _ => None,
    }
}

/// Reads the parameters of a query.
pub fn query_params(query: &str) -> (r: Labels)
    ensures
        r@ == params_in(split(query@, '&')),
{
    let parts = split_at_each(chars_of(query).as_slice(), '&');
    let ghost all = split(query@, '&');
    let mut out: Labels = Labels::new();
    let mut i: usize = 0;
    assert(all.take(0) == Seq::<Seq<char>>::empty());
    while i < parts.len()
        invariant
            i <= parts@.len(),
            all == views(parts@),
            out@ == params_in(all.take(i as int)),
        decreases parts.len() - i,
    {
        proof {
            assert(all[i as int] == parts@[i as int]@);
            assert(all.take(i + 1).drop_last() == all.take(i as int));
            assert(all.take(i + 1).last() == all[i as int]);
        }
        if parts[i].len() > 0 {
            match read_query_pair(parts[i].as_slice()) {
                Some((key, value)) => {
                    out.insert(key, value);
                },
                None => {},
            }
        }
        i += 1;
    }
    assert(all.take(i as int) == all);
    out
}

/// What a request asks of the pages.
#[derive(Clone, Debug)]
pub enum Wanted {
    BadRequest,
    MethodNotAllowed,
    LatestPage,
    LatestJson,
    /// The comparison of two runs.
    DiffPage(String, String),
    /// The choice of two runs.
    DiffForm,
    DiffJson(String, String),
    /// A comparison that does not name its runs.
    DiffJsonWithoutRuns,
    Icon,
    NotFound,
}

#[verifier::ext_equal]
pub enum WantedView {
    BadRequest,
    MethodNotAllowed,
    LatestPage,
    LatestJson,
    DiffPage(Seq<char>, Seq<char>),
    DiffForm,
    DiffJson(Seq<char>, Seq<char>),
    DiffJsonWithoutRuns,
    Icon,
    NotFound,
}

impl View for Wanted {
    type V = WantedView;

    open spec fn view(&self) -> WantedView {
        match self {
            Wanted::BadRequest => WantedView::BadRequest,
            Wanted::MethodNotAllowed => WantedView::MethodNotAllowed,
            Wanted::LatestPage => WantedView::LatestPage,
            Wanted::LatestJson => WantedView::LatestJson,
            Wanted::DiffPage(a, b) => WantedView::DiffPage(a@, b@),
            Wanted::DiffForm => WantedView::DiffForm,
            Wanted::DiffJson(a, b) => WantedView::DiffJson(a@, b@),
            Wanted::DiffJsonWithoutRuns => WantedView::DiffJsonWithoutRuns,
            Wanted::Icon => WantedView::Icon,
            Wanted::NotFound => WantedView::NotFound,
        }
    }
}

/// What a path and its parameters ask for.
pub open spec fn wanted_path(path: Seq<char>, params: Seq<Pair>) -> WantedView {
    let runs = (lookup(params, "base"@), lookup(params, "candidate"@));
    if path == "/"@ || path == "/index.html"@ {
        WantedView::LatestPage
    } else if path == "/api/report"@ {
        WantedView::LatestJson
    } else if path == "/diff"@ {
        match runs {
            (Some(base), Some(candidate)) => WantedView::DiffPage(base, candidate),
            _ => WantedView::DiffForm,
        }
    } else if path == "/api/diff"@ {
        match runs {
            (Some(base), Some(candidate)) => WantedView::DiffJson(base, candidate),
            _ => WantedView::DiffJsonWithoutRuns,
        }
    } else if path == "/favicon.ico"@ {
        WantedView::Icon
    } else {
        WantedView::NotFound
    }
}

/// The word at a place, or nothing.
pub open spec fn word_at(parts: Seq<Seq<char>>, i: int) -> Seq<char> {
    if 0 <= i < parts.len() {
        parts[i]
    } else {
        Seq::empty()
    }
}

/// What a request asks for.
pub open spec fn wanted_of(request: Seq<char>) -> WantedView {
    let all = lines(request);
    if all.len() == 0 {
        WantedView::BadRequest
    } else {
        let parts = words(all[0]);
        if word_at(parts, 0) != "GET"@ {
            WantedView::MethodNotAllowed
        } else {
            let (path, query) = target_parts(word_at(parts, 1));
            wanted_path(path, params_in(split(query, '&')))
        }
    }
}

fn runs_in(params: &Labels) -> (r: Option<(String, String)>)
    ensures
        match r {
            Some((a, b)) => lookup(params@, "base"@) == Some(a@) && lookup(
                params@,
                "candidate"@,
            ) == Some(b@),
            None => lookup(params@, "base"@) is None || lookup(params@, "candidate"@) is None,
        },
{
    match (params.get("base"), params.get("candidate")) {
        (Some(a), Some(b)) => Some((a.clone(), b.clone())),
        _ => None,
    }
}

fn route_path(path: &str, params: &Labels) -> (r: Wanted)
    ensures
        r@ == wanted_path(path@, params@),
{
    if same(path, "/") || same(path, "/index.html") {
        Wanted::LatestPage
    } else if same(path, "/api/report") {
        Wanted::LatestJson
    } else if same(path, "/diff") {
        match runs_in(params) {
            Some((base, candidate)) => Wanted::DiffPage(base, candidate),
            None => Wanted::DiffForm,
        }
    } else if same(path, "/api/diff") {
        match runs_in(params) {
            Some((base, candidate)) => Wanted::DiffJson(base, candidate),
            None => Wanted::DiffJsonWithoutRuns,
        }
    } else if same(path, "/favicon.ico") {
        Wanted::Icon
    } else {
        Wanted::NotFound
    }
}

/// Finds out what the bytes of a request ask for.
pub fn route(request: &[u8]) -> (r: Wanted)
    ensures
        r@ == wanted_of(lossy_text(request@)),
{
    let text = text_from_lossy(request);
    let all = lines_of(chars_of(text.as_str()).as_slice());
    assert(views(all@).len() == all@.len());
    if all.len() == 0 {
        return Wanted::BadRequest;
    }
    assert(views(all@)[0] == all@[0]@);
    let parts = words_of(all[0].as_slice());
    assert(views(parts@).len() == parts@.len());
    let none: Vec<char> = Vec::new();
    assert(none@ == Seq::<char>::empty());
    let method = if parts.len() > 0 {
        assert(views(parts@)[0] == parts@[0]@);
        string_of(parts[0].as_slice())
    } else {
        string_of(none.as_slice())
    };
    if !same(method.as_str(), "GET") {
        return Wanted::MethodNotAllowed;
    }
    let (path, query) = if parts.len() > 1 {
        assert(views(parts@)[1] == parts@[1]@);
        split_target(parts[1].as_slice())
    } else {
        split_target(none.as_slice())
    };
    let params = query_params(query.as_str());
    route_path(path.as_str(), &params)
}

/// An answer without what has to be looked up.
#[derive(Clone, Debug)]
pub struct Reply {
    pub status: u16,
    pub content_type: &'static str,
    pub body: String,
}

/// The answer to a request that needs no run, where it is one.
pub open spec fn plain_reply(wanted: WantedView) -> Option<(u16, Seq<char>, Seq<char>)> {
    match wanted {
        WantedView::BadRequest => Some((400, "text/plain; charset=utf-8"@, "bad request"@)),
        WantedView::MethodNotAllowed => Some(
            (405, "text/plain; charset=utf-8"@, "method not allowed"@),
        ),
        WantedView::DiffJsonWithoutRuns => Some(
            (
                400,
                "application/json; charset=utf-8"@,
                "{\"error\":\"base and candidate query parameters are required\"}"@,
            ),
        ),
        WantedView::Icon => Some((204, "image/x-icon"@, ""@)),
        WantedView::NotFound => Some((404, "text/plain; charset=utf-8"@, "not found"@)),
        _ => None,
    }
}

fn make_reply(status: u16, content_type: &'static str, body: &str) -> (r: Reply)
    ensures
        r.status == status,
        r.content_type@ == content_type@,
        r.body@ == body@,
{
    Reply { status, content_type, body: body.to_owned() }
}

/// Answers a request that needs no run.
pub fn reply_without_runs(wanted: &Wanted) -> (r: Option<Reply>)
    ensures
        match r {
            Some(reply) => plain_reply(wanted@) == Some(
                (reply.status, reply.content_type@, reply.body@),
            ),
            None => plain_reply(wanted@) is None,
        },
{
    match wanted {
        Wanted::BadRequest => Some(make_reply(400, "text/plain; charset=utf-8", "bad request")),
        Wanted::MethodNotAllowed => Some(
            make_reply(405, "text/plain; charset=utf-8", "method not allowed"),
        ),
        Wanted::DiffJsonWithoutRuns => Some(
            make_reply(
                400,
                "application/json; charset=utf-8",
                "{\"error\":\"base and candidate query parameters are required\"}",
            ),
        ),
        Wanted::Icon => Some(make_reply(204, "image/x-icon", "")),
        Wanted::NotFound => Some(make_reply(404, "text/plain; charset=utf-8", "not found")),
        _ => None,
    }
}

/// The answer to a request whose runs cannot be read. Pages say so in words, and the others in
/// JSON, which is given.
pub open spec fn failed_reply(wanted: WantedView, error: Seq<char>, json: Seq<char>) -> (
    u16,
    Seq<char>,
    Seq<char>,
) {
    match wanted {
        WantedView::LatestPage => (
            500,
            "text/plain; charset=utf-8"@,
            "isuscope UI is unavailable: "@ + error + "\n"@,
        ),
        WantedView::DiffPage(_, _) => (
            500,
            "text/plain; charset=utf-8"@,
            "isuscope diff is unavailable: "@ + error + "\n"@,
        ),
        _ => (500, "application/json; charset=utf-8"@, json),
    }
}

pub fn reply_to_failure(wanted: &Wanted, error: &str, json: &str) -> (r: Reply)
    ensures
        (r.status, r.content_type@, r.body@) == failed_reply(wanted@, error@, json@),
{
    match wanted {
        Wanted::LatestPage => make_reply(
            500,
            "text/plain; charset=utf-8",
            glue3("isuscope UI is unavailable: ", error, "\n").as_str(),
        ),
        Wanted::DiffPage(_, _) => make_reply(
            500,
            "text/plain; charset=utf-8",
            glue3("isuscope diff is unavailable: ", error, "\n").as_str(),
        ),
        _ => make_reply(500, "application/json; charset=utf-8", json),
    }
}

/// The words for a status.
pub open spec fn reason_of(status: u16) -> Seq<char> {
    if status == 200 {
        "OK"@
    } else if status == 204 {
        "No Content"@
    } else if status == 400 {
        "Bad Request"@
    } else if status == 404 {
        "Not Found"@
    } else if status == 405 {
        "Method Not Allowed"@
    } else {
        "Internal Server Error"@
    }
}

/// The head of an answer. Nothing may be stored, and the page may load nothing.
pub open spec fn header_text(status: u16, content_type: Seq<char>, length: nat) -> Seq<char> {
    "HTTP/1.1 "@ + decimal(status as nat) + " "@ + reason_of(status) + "\r\nContent-Type: "@
        + content_type + "\r\nContent-Length: "@ + decimal(length)
        + "\r\nCache-Control: no-store\r\nX-Content-Type-Options: nosniff\r\nContent-Security-Policy: default-src 'none'; style-src 'unsafe-inline'; form-action 'self'\r\nConnection: close\r\n\r\n"@
}

/// Writes the head of an answer.
pub fn response_header(status: u16, content_type: &str, length: usize) -> (r: String)
    ensures
        r@ == header_text(status, content_type@, length as nat),
{
    let reason = if status == 200 {
        "OK"
    } else if status == 204 {
        "No Content"
    } else if status == 400 {
        "Bad Request"
    } else if status == 404 {
        "Not Found"
    } else if status == 405 {
        "Method Not Allowed"
    } else {
        "Internal Server Error"
    };
    let code = string_of(decimal_of(status as u64).as_slice());
    let size = string_of(decimal_of(length as u64).as_slice());
    let head = glue5("HTTP/1.1 ", code.as_str(), " ", reason, "\r\nContent-Type: ");
    glue5(
        head.as_str(),
        content_type,
        "\r\nContent-Length: ",
        size.as_str(),
        "\r\nCache-Control: no-store\r\nX-Content-Type-Options: nosniff\r\nContent-Security-Policy: default-src 'none'; style-src 'unsafe-inline'; form-action 'self'\r\nConnection: close\r\n\r\n",
    )
}

/// Only `GET` requests are answered with a run: every other method is turned away, whatever it asks
/// for.
pub proof fn other_methods_are_turned_away(request: Seq<char>)
    requires
        lines(request).len() > 0,
        word_at(words(lines(request)[0]), 0) != "GET"@,
    ensures
        plain_reply(wanted_of(request)) == Some(
            (405u16, "text/plain; charset=utf-8"@, "method not allowed"@),
        ),
{
}

} // verus!
