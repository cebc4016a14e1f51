//! HTTP messages that pass through the capture proxy, and what is kept of them.
use crate::benchmark::{ascii_lowered, lower_ascii};
use crate::bytes::{
    append_bytes, bytes_at, bytes_between, find_bytes, find_bytes_bounds, find_in_bytes,
    finds_stay,
};
use crate::digest::{fingerprint, fingerprint_of, hex, hex_text, sha256, sha256_of};
use crate::inventory::{label_name, label_value, LabelPair};
use crate::join::{grouped, ref_views, value_views, with_key, with_key_holds};
use crate::json::{item_views, member_views, parsed_bytes, read_bytes, Json, JsonView};
use crate::labels::{lookup, with_label, Labels, Pair};
use crate::order::{distinct_sorted, models};
use crate::protocol::picked;
use crate::report::text_option;
use crate::text::{
    append, append_str, chars_of, contains_text, glue2, halves, lines, lines_of, lossy_text,
    number_of, parsed_number, same, same_chars, slice_of, split, split_at_each, split_once, starts,
    starts_with, string_of, strip_ends, strip_prefix, stripped_ends, stripped_prefix,
    text_from_lossy, texts, trim, trimmed, views, words, words_of,
};
use crate::transition::has_text;
use vstd::prelude::*;

verus! {

/// What the proxy is told.
#[derive(Clone, Debug)]
pub struct CaptureOptions {
    pub listen: String,
    pub upstream: String,
    pub max_body_bytes: usize,
    pub session_cookie: Option<String>,
    pub session_key: Vec<u8>,
}

pub open spec fn crlf() -> Seq<u8> {
    seq![13u8, 10u8]
}

pub open spec fn header_end() -> Seq<u8> {
    seq![13u8, 10u8, 13u8, 10u8]
}

fn line_end() -> (r: Vec<u8>)
    ensures
        r@ == crlf(),
{
    let mut r: Vec<u8> = Vec::new();
    r.push(13);
    r.push(10);
    assert(r@ == crlf());
    r
}

fn blank_line() -> (r: Vec<u8>)
    ensures
        r@ == header_end(),
{
    let mut r: Vec<u8> = Vec::new();
    r.push(13);
    r.push(10);
    r.push(13);
    r.push(10);
    assert(r@ == header_end());
    r
}

/// Where the head of a message ends, if all of it has come.
pub fn find_header_end(raw: &[u8]) -> (r: Option<usize>)
    ensures
        match r {
            Some(end) => find_bytes(raw@, header_end()) == Some(end - 4) && 4 <= end <= raw@.len(),
            None => find_bytes(raw@, header_end()) is None,
        },
{
    let mark = blank_line();
    proof {
        find_bytes_bounds(raw@, header_end(), 0);
    }
    let length = raw.len();
    match find_in_bytes(raw, mark.as_slice()) {
        Some(at) => {
            assert(at + 4 <= length);
            Some(at + 4)
        },
        None => None,
    }
}

/// The value of a hexadecimal digit.
pub open spec fn hex_value(c: char) -> Option<nat> {
    if '0' <= c <= '9' {
        Some((c as u32 - '0' as u32) as nat)
    } else if 'a' <= c <= 'f' {
        Some((c as u32 - 'a' as u32 + 10) as nat)
    } else if 'A' <= c <= 'F' {
        Some((c as u32 - 'A' as u32 + 10) as nat)
    } else {
        None
    }
}

/// The value of some hexadecimal digits.
pub open spec fn hex_number(s: Seq<char>) -> Option<nat>
    decreases s.len(),
{
    if s.len() == 0 {
        Some(0)
    } else {
        match (hex_number(s.drop_last()), hex_value(s.last())) {
            (Some(head), Some(digit)) => Some(head * 16 + digit),
            _ => None,
        }
    }
}

/// The number that a text writes in hexadecimal notation, with or without a plus sign.
pub open spec fn parsed_hex(s: Seq<char>) -> Option<nat> {
    let digits = if s.len() > 1 && s[0] == '+' {
        s.skip(1)
    } else {
        s
    };
    if digits.len() == 0 {
        None
    } else {
        match hex_number(digits) {
            Some(n) => if n <= usize::MAX {
                Some(n)
            } else {
                None
            },
            None => None,
        }
    }
}

fn digit_value(c: char) -> (r: Option<u8>)
    ensures
        match r {
            Some(n) => hex_value(c) == Some(n as nat) && n < 16,
            None => hex_value(c) is None,
        },
{
    if '0' <= c && c <= '9' {
        Some((c as u8) - 48)
    } else if 'a' <= c && c <= 'f' {
        Some((c as u8) - 87)
    } else if 'A' <= c && c <= 'F' {
        Some((c as u8) - 55)
    } else {
        None
    }
}

/// The digits before one that is none, or that makes the number too large, do so too.
proof fn hex_prefix(s: Seq<char>, i: int)
    requires
        0 <= i <= s.len(),
    ensures
        hex_number(s.take(i)) is None ==> hex_number(s) is None,
        hex_number(s.take(i)) is Some && hex_number(s) is Some ==> hex_number(s.take(i))->0
            <= hex_number(s)->0,
    decreases s.len(),
{
    if i < s.len() {
        hex_prefix(s.drop_last(), i);
        assert(s.drop_last().take(i) == s.take(i));
    } else {
        assert(s.take(i) == s);
    }
}

fn read_hex(s: &[char]) -> (r: Option<usize>)
    ensures
        match r {
            Some(n) => parsed_hex(s@) == Some(n as nat),
            None => parsed_hex(s@) is None,
        },
{
    let start: usize = if s.len() > 1 && s[0] == '+' {
        1
    } else {
        0
    };
    let digits = slice_of(s, start, s.len());
    proof {
        if start == 1 {
            assert(digits@ == s@.skip(1));
        } else {
            assert(digits@ == s@);
        }
    }
    if digits.len() == 0 {
        return None;
    }
    let mut n: usize = 0;
    let mut i: usize = 0;
    assert(digits@.take(0) == Seq::<char>::empty());
    while i < digits.len()
        invariant
            i <= digits@.len(),
            hex_number(digits@.take(i as int)) == Some(n as nat),
            digits@.len() > 0,
            parsed_hex(s@) == (match hex_number(digits@) {
                Some(n) => if n <= usize::MAX {
                    Some(n)
                } else {
                    None
                },
                None => None,
            }),
        decreases digits.len() - i,
    {
        proof {
            hex_prefix(digits@, i + 1);
            assert(digits@.take(i + 1).drop_last() == digits@.take(i as int));
            assert(digits@.take(i + 1).last() == digits@[i as int]);
        }
        match digit_value(digits[i]) {
            Some(d) => {
                if n > (usize::MAX - d as usize) / 16 {
                    return None;
                }
                n = n * 16 + d as usize;
            },
            None => {
                return None;
            },
        }
        i += 1;
    }
    assert(digits@.take(i as int) == digits@);
    Some(n)
}

/// The size that the first line of a chunk names, and what follows the line.
pub open spec fn chunk_head(body: Seq<u8>) -> Option<(nat, Seq<u8>)> {
    match find_bytes(body, crlf()) {
        Some(end) => match parsed_hex(trim(split(lossy_text(body.take(end)), ';')[0])) {
            Some(size) => Some((size, body.skip(end + 2))),
            None => None,
        },
        None => None,
    }
}

/// What follows the first line of a chunk is shorter.
proof fn chunk_shrinks(body: Seq<u8>)
    ensures
        chunk_head(body) matches Some((_, rest)) ==> rest.len() + 2 <= body.len(),
{
    find_bytes_bounds(body, crlf(), 0);
}

/// The body that some chunks hold, up to the empty one.
pub open spec fn unchunked(body: Seq<u8>) -> Option<Seq<u8>>
    decreases body.len(),
    via unchunked_shrinks
{
    match chunk_head(body) {
        Some((size, rest)) => if size == 0 {
            Some(Seq::empty())
        } else if rest.len() < size + 2 {
            None
        } else {
            match unchunked(rest.skip(size as int + 2)) {
                Some(more) => Some(rest.take(size as int) + more),
                None => None,
            }
        },
        None => None,
    }
}

#[via_fn]
proof fn unchunked_shrinks(body: Seq<u8>) {
    chunk_shrinks(body);
}

/// All chunks have come, and the end of the message after them.
pub open spec fn has_all_chunks(body: Seq<u8>) -> bool
    decreases body.len(),
    via has_all_chunks_shrinks
{
    match chunk_head(body) {
        Some((size, rest)) => if size == 0 {
            find_bytes(rest, header_end()) is Some || bytes_at(rest, crlf(), 0)
        } else if rest.len() < size + 2 {
            false
        } else {
            has_all_chunks(rest.skip(size as int + 2))
        },
        None => false,
    }
}

#[via_fn]
proof fn has_all_chunks_shrinks(body: Seq<u8>) {
    chunk_shrinks(body);
}

/// A body that is read to its end can be decoded.
pub proof fn complete_bodies_decode(body: Seq<u8>)
    requires
        has_all_chunks(body),
    ensures
        unchunked(body) is Some,
    decreases body.len(),
{
    chunk_shrinks(body);
    match chunk_head(body) {
        Some((size, rest)) => {
            if size > 0 {
                complete_bodies_decode(rest.skip(size as int + 2));
            }
        },
        None => {},
    }
}

proof fn chunk_heads_stay(body: Seq<u8>, more: Seq<u8>)
    ensures
        chunk_head(body) matches Some((size, rest)) ==> chunk_head(body + more) == Some(
            (size, rest + more),
        ),
{
    find_bytes_bounds(body, crlf(), 0);
    if let Some(end) = find_bytes(body, crlf()) {
        finds_stay(body, body + more, crlf(), 0);
        assert((body + more).take(end) == body.take(end));
        assert((body + more).skip(end + 2) == body.skip(end + 2) + more);
    }
}

/// Bytes that follow a complete body change nothing: it stays complete, and holds the same.
pub proof fn complete_bodies_stay(body: Seq<u8>, more: Seq<u8>)
    requires
        has_all_chunks(body),
    ensures
        has_all_chunks(body + more),
        unchunked(body + more) == unchunked(body),
    decreases body.len(),
{
    chunk_shrinks(body);
    chunk_heads_stay(body, more);
    match chunk_head(body) {
        Some((size, rest)) => {
            if size == 0 {
                find_bytes_bounds(rest, header_end(), 0);
                if find_bytes(rest, header_end()) is Some {
                    finds_stay(rest, rest + more, header_end(), 0);
                }
                if bytes_at(rest, crlf(), 0) {
                    assert((rest + more).subrange(0, 2) == rest.subrange(0, 2));
                }
            } else {
                let next = rest.skip(size as int + 2);
                complete_bodies_stay(next, more);
                assert((rest + more).skip(size as int + 2) == next + more);
                assert((rest + more).take(size as int) == rest.take(size as int));
            }
        },
        None => {},
    }
}

fn read_chunk_head(body: &[u8]) -> (r: Option<(usize, usize)>)
    ensures
        match r {
            Some((size, start)) => start <= body@.len() && chunk_head(body@) == Some(
                (size as nat, body@.skip(start as int)),
            ),
            None => chunk_head(body@) is None,
        },
{
    let mark = line_end();
    proof {
        find_bytes_bounds(body@, crlf(), 0);
    }
    let length = body.len();
    match find_in_bytes(body, mark.as_slice()) {
        Some(end) => {
            assert(end + 2 <= length);
            let head = bytes_between(body, 0, end);
            assert(head@ == body@.take(end as int));
            let text = text_from_lossy(head.as_slice());
            let parts = split_at_each(chars_of(text.as_str()).as_slice(), ';');
            assert(views(parts@)[0] == parts@[0]@);
            let short = trimmed(parts[0].as_slice());
            match read_hex(short.as_slice()) {
                Some(size) => Some((size, end + 2)),
                None => None,
            }
        },
        None => None,
    }
}

/// Tells whether all of a chunked body has come.
pub fn chunked_complete(body: &[u8]) -> (r: bool)
    ensures
        r == has_all_chunks(body@),
{
    let mut at: usize = 0;
    assert(body@.skip(0) == body@);
    loop
        invariant
            at <= body@.len(),
            has_all_chunks(body@) == has_all_chunks(body@.skip(at as int)),
        decreases body@.len() - at,
    {
        let rest = bytes_between(body, at, body.len());
        assert(rest@ == body@.skip(at as int));
        proof {
            chunk_shrinks(rest@);
        }
        match read_chunk_head(rest.as_slice()) {
            Some((size, start)) => {
                let tail = bytes_between(rest.as_slice(), start, rest.len());
                assert(tail@ == rest@.skip(start as int));
                if size == 0 {
                    let mark = blank_line();
                    if find_in_bytes(tail.as_slice(), mark.as_slice()).is_some() {
                        return true;
                    }
                    let ended = tail.len() >= 2 && tail[0] == 13 && tail[1] == 10;
                    proof {
                        if tail@.len() >= 2 {
                            if ended {
                                assert(tail@.subrange(0, 2) == crlf());
                            } else if bytes_at(tail@, crlf(), 0) {
                                assert(tail@.subrange(0, 2)[0] == 13);
                                assert(tail@.subrange(0, 2)[1] == 10);
                            }
                        }
                    }
                    return ended;
                }
                if tail.len() < 2 || tail.len() - 2 < size {
                    return false;
                }
                proof {
                    assert(tail@.skip(size as int + 2) == body@.skip(at + start + size + 2));
                }
                at = at + start + size + 2;
            },
            None => {
                return false;
            },
        }
    }
}

/// Decodes a chunked body.
pub fn decode_chunked(body: &[u8]) -> (r: Option<Vec<u8>>)
    ensures
        match r {
            Some(out) => unchunked(body@) == Some(out@),
            None => unchunked(body@) is None,
        },
{
    let mut decoded: Vec<u8> = Vec::new();
    let mut at: usize = 0;
    assert(body@.skip(0) == body@);
    proof {
        if unchunked(body@) is Some {
            assert(Seq::<u8>::empty() + unchunked(body@)->0 == unchunked(body@)->0);
        }
    }
    loop
        invariant
            at <= body@.len(),
            unchunked(body@) == (match unchunked(body@.skip(at as int)) {
                Some(more) => Some(decoded@ + more),
                None => None,
            }),
        decreases body@.len() - at,
    {
        let rest = bytes_between(body, at, body.len());
        assert(rest@ == body@.skip(at as int));
        proof {
            chunk_shrinks(rest@);
        }
        match read_chunk_head(rest.as_slice()) {
            Some((size, start)) => {
                if size == 0 {
                    assert(decoded@ + Seq::<u8>::empty() == decoded@);
                    return Some(decoded);
                }
                let tail = bytes_between(rest.as_slice(), start, rest.len());
                assert(tail@ == rest@.skip(start as int));
                if tail.len() < 2 || tail.len() - 2 < size {
                    return None;
                }
                let ghost was = decoded@;
                let part = bytes_between(tail.as_slice(), 0, size);
                assert(part@ == tail@.take(size as int));
                append_bytes(&mut decoded, part.as_slice());
                proof {
                    let next = tail@.skip(size as int + 2);
                    assert(next == body@.skip(at + start + size + 2));
                    match unchunked(next) {
                        Some(more) => {
                            assert(was + (part@ + more) == decoded@ + more);
                        },
                        None => {},
                    }
                }
                at = at + start + size + 2;
            },
            None => {
                return None;
            },
        }
    }
}

/// The headers that some lines name. A later line wins over an earlier one.
pub open spec fn headers_in(lines: Seq<Seq<char>>) -> Seq<Pair>
    decreases lines.len(),
{
    if lines.len() == 0 {
        Seq::empty()
    } else {
        let before = headers_in(lines.drop_last());
        match split_once(lines.last(), ":"@) {
            Some((key, value)) => with_label(before, ascii_lowered(trim(key)), trim(value)),
            None => before,
        }
    }
}

/// The lines of a head after the first.
pub open spec fn header_lines_of(head: Seq<char>) -> Seq<Seq<char>> {
    let all = lines(head);
    if all.len() == 0 {
        all
    } else {
        all.skip(1)
    }
}

/// Reads the headers of a head, by their names in lower case.
pub fn parse_headers(head: &str) -> (r: Labels)
    ensures
        r@ == headers_in(header_lines_of(head@)),
{
    let all = lines_of(chars_of(head).as_slice());
    let ghost body = header_lines_of(head@);
    let mut headers: Labels = Labels::new();
    let mut i: usize = 1;
    assert(body.take(0) == Seq::<Seq<char>>::empty());
    assert(views(all@).len() == all@.len());
    while i < all.len()
        invariant
            1 <= i,
            views(all@) == lines(head@),
            all@.len() >= 1 ==> body.len() == all@.len() - 1,
            body == header_lines_of(head@),
            i <= all@.len() || i == 1,
            headers@ == headers_in(body.take(i - 1)),
        decreases all.len() - i,
    {
        proof {
            assert(body[i - 1] == all@[i as int]@);
            assert(body.take(i as int).drop_last() == body.take(i - 1));
            assert(body.take(i as int).last() == body[i - 1]);
        }
        match halves(all[i].as_slice(), chars_of(":").as_slice()) {
            Some((key, value)) => {
                let name = lower_ascii(trimmed(key.as_slice()).as_slice());
                let text = trimmed(value.as_slice());
                headers.insert(string_of(name.as_slice()), string_of(text.as_slice()));
            },
            None => {},
        }
        i += 1;
    }
    proof {
        if all@.len() <= 1 {
            assert(body.len() == 0);
            assert(body.take(i - 1) == body);
        } else {
            assert(body.take(i - 1) == body);
        }
    }
    headers
}

/// How the body of a message is told apart from what follows it.
#[derive(Clone, Copy, Debug, PartialEq, Eq, Structural)]
pub enum BodyRule {
    Chunked,
    Length(usize),
    /// The body of a response ends with the connection.
    UntilClose,
    Nothing,
}

pub open spec fn is_chunked(headers: Seq<Pair>) -> bool {
    lookup(headers, "transfer-encoding"@) matches Some(value) && contains_text(
        ascii_lowered(value),
        "chunked"@,
    )
}

pub open spec fn body_rule_of(headers: Seq<Pair>, response: bool) -> BodyRule {
    if is_chunked(headers) {
        BodyRule::Chunked
    } else {
        match lookup(headers, "content-length"@) {
            Some(value) => match parsed_number(value, usize::MAX as nat) {
                Some(length) => BodyRule::Length(length as usize),
                None => if response {
                    BodyRule::UntilClose
                } else {
                    BodyRule::Nothing
                },
            },
            None => if response {
                BodyRule::UntilClose
            } else {
                BodyRule::Nothing
            },
        }
    }
}

/// Finds out how the body of a message ends.
pub fn body_rule(headers: &Labels, response: bool) -> (r: BodyRule)
    ensures
        r == body_rule_of(headers@, response),
{
    match headers.get("transfer-encoding") {
        Some(value) => {
            let lower = string_of(lower_ascii(chars_of(value.as_str()).as_slice()).as_slice());
            if has_text(lower.as_str(), "chunked") {
                return BodyRule::Chunked;
            }
        },
        None => {},
    }
    match headers.get("content-length") {
        Some(value) => match number_of(chars_of(value.as_str()).as_slice(), usize::MAX as u64) {
            Some(length) => {
                return BodyRule::Length(length as usize);
            },
            None => {},
        },
        None => {},
    }
    if response {
        BodyRule::UntilClose
    } else {
        BodyRule::Nothing
    }
}

/// The body of a message: what the chunks hold, or everything after the head where it has none or
/// they are broken.
pub open spec fn body_of(rule: BodyRule, encoded: Seq<u8>) -> Seq<u8> {
    if rule == BodyRule::Chunked {
        match unchunked(encoded) {
            Some(body) => body,
            None => encoded,
        }
    } else {
        encoded
    }
}

/// Takes the body out of a message.
pub fn message_body(raw: &[u8], body_start: usize, rule: BodyRule) -> (r: Vec<u8>)
    requires
        body_start <= raw@.len(),
    ensures
        r@ == body_of(rule, raw@.skip(body_start as int)),
{
    let encoded = bytes_between(raw, body_start, raw.len());
    assert(encoded@ == raw@.skip(body_start as int));
    if rule == BodyRule::Chunked {
        match decode_chunked(encoded.as_slice()) {
            Some(body) => body,
            None => encoded,
        }
    } else {
        encoded
    }
}

/// What a request asks for.
#[derive(Clone, Debug)]
pub struct RequestLine {
    pub method: String,
    pub path: String,
    pub query: String,
}

/// What is missing in a message.
#[derive(Clone, Copy, Debug, PartialEq, Eq, Structural)]
pub enum HttpError {
    NoRequestLine,
    NoMethod,
    NoTarget,
    NoStatusLine,
    NoStatus,
    BadStatus,
}

impl HttpError {
    pub open spec fn text(self) -> Seq<char> {
        match self {
            HttpError::NoRequestLine => "HTTP request line is missing"@,
            HttpError::NoMethod => "HTTP method is missing"@,
            HttpError::NoTarget => "HTTP target is missing"@,
            HttpError::NoStatusLine => "HTTP status line is missing"@,
            HttpError::NoStatus => "HTTP status is missing"@,
            HttpError::BadStatus => "HTTP status is not a number"@,
        }
    }

    pub fn message(self) -> (r: String)
        ensures
            r@ == self.text(),
    {
        match self {
            HttpError::NoRequestLine => "HTTP request line is missing".to_owned(),
            HttpError::NoMethod => "HTTP method is missing".to_owned(),
            HttpError::NoTarget => "HTTP target is missing".to_owned(),
            HttpError::NoStatusLine => "HTTP status line is missing".to_owned(),
            HttpError::NoStatus => "HTTP status is missing".to_owned(),
            HttpError::BadStatus => "HTTP status is not a number".to_owned(),
        }
    }
}

/// A target without its query, and the query.
pub open spec fn target_parts(target: Seq<char>) -> (Seq<char>, Seq<char>) {
    match split_once(target, "?"@) {
        Some(parts) => parts,
        None => (target, Seq::empty()),
    }
}

pub fn split_target(target: &[char]) -> (r: (String, String))
    ensures
        r.0@ == target_parts(target@).0,
        r.1@ == target_parts(target@).1,
{
    match halves(target, chars_of("?").as_slice()) {
        Some((path, query)) => (string_of(path.as_slice()), string_of(query.as_slice())),
        None => {
            let none: Vec<char> = Vec::new();
            assert(none@ == Seq::<char>::empty());
            (string_of(target), string_of(none.as_slice()))
        },
    }
}

/// Reads what a request asks for.
pub fn read_request_line(head: &str) -> (r: Result<RequestLine, HttpError>)
    ensures
        ({
            let all = lines(head@);
            match r {
                Ok(line) => {
                    &&& all.len() > 0
                    &&& words(all[0]).len() >= 2
                    &&& line.method@ == words(all[0])[0]
                    &&& line.path@ == target_parts(words(all[0])[1]).0
                    &&& line.query@ == target_parts(words(all[0])[1]).1
                },
                Err(HttpError::NoRequestLine) => all.len() == 0,
                Err(HttpError::NoMethod) => all.len() > 0 && words(all[0]).len() == 0,
                Err(HttpError::NoTarget) => all.len() > 0 && words(all[0]).len() == 1,
                Err(_) => false,
            }
        }),
{
    let all = lines_of(chars_of(head).as_slice());
    assert(views(all@).len() == all@.len());
    if all.len() == 0 {
        return Err(HttpError::NoRequestLine);
    }
    assert(views(all@)[0] == all@[0]@);
    let parts = words_of(all[0].as_slice());
    assert(views(parts@).len() == parts@.len());
    if parts.len() == 0 {
        return Err(HttpError::NoMethod);
    }
    if parts.len() == 1 {
        return Err(HttpError::NoTarget);
    }
    assert(views(parts@)[0] == parts@[0]@);
    assert(views(parts@)[1] == parts@[1]@);
    let (path, query) = split_target(parts[1].as_slice());
    Ok(RequestLine { method: string_of(parts[0].as_slice()), path, query })
}

/// Reads the status of a response.
pub fn read_status(head: &str) -> (r: Result<u16, HttpError>)
    ensures
        ({
            let all = lines(head@);
            match r {
                Ok(status) => {
                    &&& all.len() > 0
                    &&& words(all[0]).len() >= 2
                    &&& parsed_number(words(all[0])[1], 0xffff) == Some(status as nat)
                },
                Err(HttpError::NoStatusLine) => all.len() == 0,
                Err(HttpError::NoStatus) => all.len() > 0 && words(all[0]).len() < 2,
                Err(HttpError::BadStatus) => {
                    &&& all.len() > 0
                    &&& words(all[0]).len() >= 2
                    &&& parsed_number(words(all[0])[1], 0xffff) is None
                },
                Err(_) => false,
            }
        }),
{
    let all = lines_of(chars_of(head).as_slice());
    assert(views(all@).len() == all@.len());
    if all.len() == 0 {
        return Err(HttpError::NoStatusLine);
    }
    assert(views(all@)[0] == all@[0]@);
    let parts = words_of(all[0].as_slice());
    assert(views(parts@).len() == parts@.len());
    if parts.len() < 2 {
        return Err(HttpError::NoStatus);
    }
    assert(views(parts@)[1] == parts@[1]@);
    match number_of(parts[1].as_slice(), 0xffff) {
        Some(n) => Ok(n as u16),
        None => Err(HttpError::BadStatus),
    }
}

/// The value of a byte that is a hexadecimal digit.
pub open spec fn byte_hex(b: u8) -> Option<u8> {
    if 48 <= b <= 57 {
        Some((b - 48) as u8)
    } else if 97 <= b <= 102 {
        Some((b - 87) as u8)
    } else if 65 <= b <= 70 {
        Some((b - 55) as u8)
    } else {
        None
    }
}

pub fn hex_of_byte(b: u8) -> (r: Option<u8>)
    ensures
        r == byte_hex(b),
        r matches Some(n) ==> n < 16,
{
    if 48 <= b && b <= 57 {
        Some(b - 48)
    } else if 97 <= b && b <= 102 {
        Some(b - 87)
    } else if 65 <= b && b <= 70 {
        Some(b - 55)
    } else {
        None
    }
}

/// The bytes that an encoded text stands for, from position `i` on. What is no escape stands for
/// itself.
pub open spec fn unescaped_from(s: Seq<u8>, i: int) -> Seq<u8>
    decreases s.len() - i,
{
    if i < 0 || i >= s.len() {
        Seq::empty()
    } else if s[i] == 43 {
        seq![32u8] + unescaped_from(s, i + 1)
    } else if s[i] == 37 && i + 2 < s.len() && byte_hex(s[i + 1]) is Some && byte_hex(s[i + 2]) is Some {
        seq![(byte_hex(s[i + 1])->0 * 16 + byte_hex(s[i + 2])->0) as u8] + unescaped_from(s, i + 3)
    } else {
        seq![s[i]] + unescaped_from(s, i + 1)
    }
}

pub open spec fn percent_decoded(value: Seq<char>) -> Seq<char> {
    lossy_text(unescaped_from(vstd::utf8::encode_utf8(value), 0))
}

pub fn percent_decode(value: &str) -> (r: String)
    ensures
        r@ == percent_decoded(value@),
{
    let bytes = value.as_bytes();
    let mut decoded: Vec<u8> = Vec::new();
    let mut i: usize = 0;
    let ghost whole = unescaped_from(bytes@, 0);
    assert(Seq::<u8>::empty() + whole == whole);
    let length = bytes.len();
    while i < length
        invariant
            i <= length,
            length == bytes@.len(),
            whole == decoded@ + unescaped_from(bytes@, i as int),
        decreases length - i,
    {
        let ghost was = decoded@;
        if bytes[i] == 43 {
            decoded.push(32);
            assert(was + (seq![32u8] + unescaped_from(bytes@, i + 1)) == decoded@ + unescaped_from(
                bytes@,
                i + 1,
            ));
            i += 1;
        } else if bytes[i] == 37 && length - i > 2 {
            match (hex_of_byte(bytes[i + 1]), hex_of_byte(bytes[i + 2])) {
                (Some(high), Some(low)) => {
                    let b: u8 = high * 16 + low;
                    decoded.push(b);
                    assert(was + (seq![b] + unescaped_from(bytes@, i + 3)) == decoded@
                        + unescaped_from(bytes@, i + 3));
                    i += 3;
                },
                _ => {
                    decoded.push(bytes[i]);
                    assert(was + (seq![bytes@[i as int]] + unescaped_from(bytes@, i + 1))
                        == decoded@ + unescaped_from(bytes@, i + 1));
                    i += 1;
                },
            }
        } else {
            decoded.push(bytes[i]);
            assert(was + (seq![bytes@[i as int]] + unescaped_from(bytes@, i + 1)) == decoded@
                + unescaped_from(bytes@, i + 1));
            i += 1;
        }
    }
    assert(decoded@ + Seq::<u8>::empty() == decoded@);
    text_from_lossy(decoded.as_slice())
}

/// A pair of an encoded list.
pub open spec fn decoded_pair(part: Seq<char>) -> Pair {
    match split_once(part, "="@) {
        Some((key, value)) => (percent_decoded(key), percent_decoded(value)),
        None => (percent_decoded(part), percent_decoded(Seq::empty())),
    }
}

pub open spec fn pick_pair() -> spec_fn(Seq<char>) -> Option<Pair> {
    |part: Seq<char>|
        if part.len() == 0 {
            None
        } else {
            Some(decoded_pair(part))
        }
}

/// The pairs of an encoded list, in their order.
pub open spec fn encoded_pairs(encoded: Seq<char>) -> Seq<Pair> {
    picked(split(encoded, '&'), pick_pair())
}

/// The values of each key, the keys in their order and the values of one key in theirs.
pub open spec fn values_by_key(pairs: Seq<Pair>) -> Seq<(Seq<char>, Seq<Seq<char>>)> {
    distinct_sorted::<String>(pairs.map_values(label_name())).map_values(
        |k: Seq<char>| (k, with_key(pairs, label_name(), k).map_values(label_value())),
    )
}

fn read_pair(part: &[char]) -> (r: LabelPair)
    ensures
        r@ == decoded_pair(part@),
{
    match halves(part, chars_of("=").as_slice()) {
        Some((key, value)) => LabelPair {
            name: percent_decode(string_of(key.as_slice()).as_str()),
            value: percent_decode(string_of(value.as_slice()).as_str()),
        },
        None => {
            let none: Vec<char> = Vec::new();
            assert(none@ == Seq::<char>::empty());
            LabelPair {
                name: percent_decode(string_of(part).as_str()),
                value: percent_decode(string_of(none.as_slice()).as_str()),
            }
        },
    }
}

fn read_pairs(encoded: &str) -> (r: Vec<LabelPair>)
    ensures
        value_views(r@) == encoded_pairs(encoded@),
{
    let parts = split_at_each(chars_of(encoded).as_slice(), '&');
    let ghost all = split(encoded@, '&');
    let mut out: Vec<LabelPair> = Vec::new();
    let mut i: usize = 0;
    assert(all.take(0) == Seq::<Seq<char>>::empty());
    assert(value_views(out@) == picked(all.take(0), pick_pair()));
    while i < parts.len()
        invariant
            i <= parts@.len(),
            all == views(parts@),
            value_views(out@) == picked(all.take(i as int), pick_pair()),
        decreases parts.len() - i,
    {
        proof {
            assert(all[i as int] == parts@[i as int]@);
            assert(all.take(i + 1).drop_last() == all.take(i as int));
            assert(all.take(i + 1).last() == all[i as int]);
        }
        if parts[i].len() > 0 {
            let ghost was = out@;
            let pair = read_pair(parts[i].as_slice());
            let ghost added = pair@;
            out.push(pair);
            assert(value_views(out@) == value_views(was).push(added));
        }
        i += 1;
    }
    assert(all.take(i as int) == all);
    out
}

/// The values of one key.
#[derive(Clone, Debug)]
pub struct KeyValues {
    pub key: String,
    pub values: Vec<String>,
}

impl View for KeyValues {
    type V = (Seq<char>, Seq<Seq<char>>);

    open spec fn view(&self) -> (Seq<char>, Seq<Seq<char>>) {
        (self.key@, texts(self.values@))
    }
}

/// Reads an encoded list by key.
pub fn parse_pairs(encoded: &str) -> (r: Vec<KeyValues>)
    ensures
        value_views(r@) == values_by_key(encoded_pairs(encoded@)),
{
    let pairs = read_pairs(encoded);
    let ghost all = value_views(pairs@);
    let ghost key = label_name();
    let keys = crate::inventory::pair_names(&pairs);
    assert(models(keys@) == texts(keys@));
    let groups = grouped(pairs.as_slice(), &keys, Ghost(key));
    let ghost names = distinct_sorted::<String>(all.map_values(key));
    let ghost each = |k: Seq<char>| (k, with_key(all, label_name(), k).map_values(label_value()));
    let ghost rows = names.map_values(each);
    let mut out: Vec<KeyValues> = Vec::new();
    let mut g: usize = 0;
    assert(value_views(out@) == rows.take(0));
    while g < groups.len()
        invariant
            g <= groups@.len(),
            all == value_views(pairs@),
            key == label_name(),
            names == distinct_sorted::<String>(all.map_values(key)),
            each == (|k: Seq<char>|
                (k, with_key(all, label_name(), k).map_values(label_value()))),
            rows == names.map_values(each),
            groups@.len() == names.len(),
            forall|j: int|
                0 <= j < groups@.len() ==> ref_views((#[trigger] groups@[j])@) == with_key(
                    all,
                    key,
                    names[j],
                ) && groups@[j]@.len() > 0,
            value_views(out@) == rows.take(g as int),
        decreases groups.len() - g,
    {
        let group = &groups[g];
        let ghost k = names[g as int];
        proof {
            with_key_holds(all, key, k, 0);
            assert(ref_views(group@)[0] == group@[0]@);
        }
        let ghost was = out@;
        let row = KeyValues {
            key: group[0].name.clone(),
            values: crate::inventory::pair_values(group),
        };
        let ghost added = row@;
        assert(added == each(k));
        out.push(row);
        assert(value_views(out@) == value_views(was).push(added));
        assert(rows.take(g + 1) == rows.take(g as int).push(rows[g as int]));
        g += 1;
    }
    assert(rows.take(g as int) == rows);
    out
}

/// Why the body of a message is not kept.
#[derive(Clone, Copy, Debug, PartialEq, Eq, Structural)]
pub enum Omission {
    TooLarge,
    UnsupportedContentType,
}

impl Omission {
    pub open spec fn name(self) -> Seq<char> {
        match self {
            Omission::TooLarge => "too_large"@,
            Omission::UnsupportedContentType => "unsupported_content_type"@,
        }
    }

    pub fn as_str(self) -> (r: &'static str)
        ensures
            r@ == self.name(),
    {
        match self {
            Omission::TooLarge => "too_large",
            Omission::UnsupportedContentType => "unsupported_content_type",
        }
    }
}

/// What is kept of the body of a message.
#[derive(Debug)]
pub struct BodyEvidence {
    pub content_type: Option<String>,
    pub bytes: usize,
    pub sha256: String,
    pub body: Option<Json>,
    pub omitted: Option<Omission>,
    pub parse_error: Option<String>,
}

/// Bodies of these types are kept: text, JSON and forms, and those without a type.
pub open spec fn is_capturable(content_type: Option<Seq<char>>) -> bool {
    match content_type {
        Some(value) => starts(value, "text/"@) || contains_text(value, "json"@) || starts(
            value,
            "application/x-www-form-urlencoded"@,
        ),
        None => true,
    }
}

fn begins(value: &str, head: &str) -> (r: bool)
    ensures
        r == starts(value@, head@),
{
    starts_with(chars_of(value).as_slice(), chars_of(head).as_slice())
}

pub fn capturable(content_type: &Option<String>) -> (r: bool)
    ensures
        r == is_capturable(text_option(*content_type)),
{
    match content_type {
        Some(value) => begins(value.as_str(), "text/") || has_text(value.as_str(), "json")
            || begins(value.as_str(), "application/x-www-form-urlencoded"),
        None => true,
    }
}

pub open spec fn is_json_type(content_type: Option<Seq<char>>) -> bool {
    content_type matches Some(value) && contains_text(value, "json"@)
}

pub open spec fn is_form_type(content_type: Option<Seq<char>>) -> bool {
    content_type matches Some(value) && starts(value, "application/x-www-form-urlencoded"@)
}

/// A form as JSON: the values of each field.
pub open spec fn form_json(rows: Seq<(Seq<char>, Seq<Seq<char>>)>) -> JsonView {
    JsonView::Object(
        rows.map_values(
            |row: (Seq<char>, Seq<Seq<char>>)|
                (row.0, JsonView::List(row.1.map_values(|v: Seq<char>| JsonView::Text(v)))),
        ),
    )
}

/// What is kept of a body, and what is said of JSON that is none.
pub open spec fn kept_body(content_type: Option<Seq<char>>, bytes: Seq<u8>) -> (
    JsonView,
    Option<Seq<char>>,
) {
    if bytes.len() == 0 {
        (JsonView::Null, None)
    } else if is_json_type(content_type) {
        match parsed_bytes(bytes) {
            Ok(value) => (value, None),
            Err(error) => (JsonView::Text(lossy_text(bytes)), Some(error)),
        }
    } else if is_form_type(content_type) {
        (form_json(values_by_key(encoded_pairs(lossy_text(bytes)))), None)
    } else {
        (JsonView::Text(lossy_text(bytes)), None)
    }
}

/// Why a body is not kept.
pub open spec fn omission_of(content_type: Option<Seq<char>>, length: nat, limit: nat) -> Option<
    Omission,
> {
    if length > limit {
        Some(Omission::TooLarge)
    } else if !is_capturable(content_type) {
        Some(Omission::UnsupportedContentType)
    } else {
        None
    }
}

pub open spec fn evidence_of(
    bytes: Seq<u8>,
    content_type: Option<Seq<char>>,
    limit: nat,
    e: BodyEvidence,
) -> bool {
    let omitted = omission_of(content_type, bytes.len(), limit);
    &&& text_option(e.content_type) == content_type
    &&& e.bytes == bytes.len()
    &&& e.sha256@ == fingerprint_of(bytes)
    &&& e.omitted == omitted
    &&& if omitted is Some {
        e.body is None && e.parse_error is None
    } else {
        e.body matches Some(body) && body@ == kept_body(content_type, bytes).0 && text_option(
            e.parse_error,
        ) == kept_body(content_type, bytes).1
    }
}

fn form_value(row: &KeyValues) -> (r: Json)
    ensures
        r@ == JsonView::List(texts(row.values@).map_values(|v: Seq<char>| JsonView::Text(v))),
{
    let mut items: Vec<Json> = Vec::new();
    let ghost text = |v: Seq<char>| JsonView::Text(v);
    let ghost all = texts(row.values@).map_values(text);
    let mut i: usize = 0;
    assert(item_views(items@) == all.take(0));
    while i < row.values.len()
        invariant
            i <= row.values@.len(),
            text == (|v: Seq<char>| JsonView::Text(v)),
            all == texts(row.values@).map_values(text),
            item_views(items@) == all.take(i as int),
        decreases row.values.len() - i,
    {
        let ghost was = items@;
        let value = Json::Text(row.values[i].clone());
        let ghost added = value@;
        assert(added == all[i as int]);
        items.push(value);
        assert(item_views(items@) == item_views(was).push(added));
        assert(all.take(i + 1) == all.take(i as int).push(all[i as int]));
        i += 1;
    }
    assert(all.take(i as int) == all);
    let list = Json::List(items);
    proof {
        list.parts();
    }
    list
}

fn form_object(rows: &Vec<KeyValues>) -> (r: Json)
    ensures
        r@ == form_json(value_views(rows@)),
{
    let ghost each = |row: (Seq<char>, Seq<Seq<char>>)|
        (row.0, JsonView::List(row.1.map_values(|v: Seq<char>| JsonView::Text(v))));
    let ghost all = value_views(rows@).map_values(each);
    let mut members: Vec<(String, Json)> = Vec::new();
    let mut i: usize = 0;
    assert(member_views(members@) == all.take(0));
    while i < rows.len()
        invariant
            i <= rows@.len(),
            each == (|row: (Seq<char>, Seq<Seq<char>>)|
                (row.0, JsonView::List(row.1.map_values(|v: Seq<char>| JsonView::Text(v))))),
            all == value_views(rows@).map_values(each),
            member_views(members@) == all.take(i as int),
        decreases rows.len() - i,
    {
        let ghost was = members@;
        let value = form_value(&rows[i]);
        let key = rows[i].key.clone();
        let ghost added = (key@, value@);
        assert(all[i as int] == each(rows@[i as int]@));
        assert(added == all[i as int]);
        members.push((key, value));
        assert(member_views(members@) == member_views(was).push(added));
        assert(all.take(i + 1) == all.take(i as int).push(all[i as int]));
        i += 1;
    }
    assert(all.take(i as int) == all);
    let object = Json::Object(members);
    proof {
        object.parts();
    }
    object
}

fn keep_body(content_type: &Option<String>, bytes: &[u8]) -> (r: (Json, Option<String>))
    ensures
        r.0@ == kept_body(text_option(*content_type), bytes@).0,
        text_option(r.1) == kept_body(text_option(*content_type), bytes@).1,
{
    if bytes.len() == 0 {
        return (Json::Null, None);
    }
    let (json, form) = match content_type {
        Some(value) => (
            has_text(value.as_str(), "json"),
            begins(value.as_str(), "application/x-www-form-urlencoded"),
        ),
        None => (false, false),
    };
    if json {
        return match read_bytes(bytes) {
            Ok(value) => (value, None),
            Err(error) => (Json::Text(text_from_lossy(bytes)), Some(error)),
        };
    }
    if form {
        let text = text_from_lossy(bytes);
        let rows = parse_pairs(text.as_str());
        return (form_object(&rows), None);
    }
    (Json::Text(text_from_lossy(bytes)), None)
}

/// Says what is kept of the body of a message.
pub fn body_evidence(bytes: &[u8], content_type: Option<String>, limit: usize) -> (r: BodyEvidence)
    ensures
        evidence_of(bytes@, text_option(content_type), limit as nat, r),
{
    let sha256 = string_of(fingerprint(bytes).as_slice());
    let omitted = if bytes.len() > limit {
        Some(Omission::TooLarge)
    } else if !capturable(&content_type) {
        Some(Omission::UnsupportedContentType)
    } else {
        None
    };
    if omitted.is_some() {
        return BodyEvidence {
            content_type,
            bytes: bytes.len(),
            sha256,
            body: None,
            omitted,
            parse_error: None,
        };
    }
    let (body, parse_error) = keep_body(&content_type, bytes);
    BodyEvidence {
        content_type,
        bytes: bytes.len(),
        sha256,
        body: Some(body),
        omitted: None,
        parse_error,
    }
}

/// The key of a message digest, filled up to a block.
pub open spec fn key_block(key: Seq<u8>) -> Seq<u8> {
    let short = if key.len() > 64 {
        sha256_of(key)
    } else {
        key
    };
    short + Seq::new((64 - short.len()) as nat, |i: int| 0u8)
}

/// A block combined with a constant.
pub open spec fn padded(block: Seq<u8>, pad: u8) -> Seq<u8> {
    block.map_values(|b: u8| pad ^ b)
}

/// The keyed digest of a message.
pub open spec fn hmac_of(key: Seq<u8>, message: Seq<u8>) -> Seq<u8> {
    let block = key_block(key);
    sha256_of(padded(block, 0x5c) + sha256_of(padded(block, 0x36) + message))
}

fn pad_block(block: &Vec<u8>, pad: u8) -> (r: Vec<u8>)
    ensures
        r@ == padded(block@, pad),
{
    let mut out: Vec<u8> = Vec::new();
    let ghost all = padded(block@, pad);
    let mut i: usize = 0;
    while i < block.len()
        invariant
            i <= block@.len(),
            all == padded(block@, pad),
            out@ == all.take(i as int),
        decreases block.len() - i,
    {
        out.push(pad ^ block[i]);
        assert(all.take(i + 1) == all.take(i as int).push(all[i as int]));
        i += 1;
    }
    assert(all.take(i as int) == all);
    out
}

fn fill_block(key: &[u8]) -> (r: Vec<u8>)
    ensures
        r@ == key_block(key@),
{
    let mut block = if key.len() > 64 {
        sha256(key)
    } else {
        let whole = bytes_between(key, 0, key.len());
        assert(whole@ == key@);
        whole
    };
    let ghost short = block@;
    let ghost all = key_block(key@);
    assert(short.len() <= 64);
    assert(block@ == all.take(short.len() as int));
    while block.len() < 64
        invariant
            short.len() <= block@.len() <= 64,
            short.len() <= 64,
            all == short + Seq::new((64 - short.len()) as nat, |i: int| 0u8),
            block@ == all.take(block@.len() as int),
        decreases 64 - block.len(),
    {
        let ghost n = block@.len() as int;
        block.push(0);
        assert(all[n] == 0);
        assert(all.take(n + 1) == all.take(n).push(all[n]));
    }
    assert(all.take(64) == all);
    block
}

/// Computes the keyed digest of a message, in hexadecimal notation.
pub fn hmac_sha256_hex(key: &[u8], message: &[u8]) -> (r: String)
    ensures
        r@ == hex_text(hmac_of(key@, message@)),
{
    let block = fill_block(key);
    let mut inner = pad_block(&block, 0x36);
    append_bytes(&mut inner, message);
    let middle = sha256(inner.as_slice());
    let mut outer = pad_block(&block, 0x5c);
    append_bytes(&mut outer, middle.as_slice());
    let digest = sha256(outer.as_slice());
    string_of(hex(digest.as_slice()).as_slice())
}

/// The first cookie with this name.
pub open spec fn cookie_value(parts: Seq<Seq<char>>, name: Seq<char>) -> Option<Seq<char>>
    decreases parts.len(),
{
    if parts.len() == 0 {
        None
    } else {
        match split_once(trim(parts[0]), "="@) {
            Some((key, value)) => if key == name {
                Some(value)
            } else {
                cookie_value(parts.skip(1), name)
            },
            None => cookie_value(parts.skip(1), name),
        }
    }
}

fn find_cookie(parts: &Vec<Vec<char>>, name: &str) -> (r: Option<Vec<char>>)
    ensures
        crate::text::chars_option(r) == cookie_value(views(parts@), name@),
{
    let ghost all = views(parts@);
    let wanted = chars_of(name);
    let mut i: usize = 0;
    assert(all.skip(0) == all);
    while i < parts.len()
        invariant
            i <= parts@.len(),
            all == views(parts@),
            wanted@ == name@,
            cookie_value(all, name@) == cookie_value(all.skip(i as int), name@),
        decreases parts.len() - i,
    {
        assert(all.skip(i as int)[0] == parts@[i as int]@);
        assert(all.skip(i as int).skip(1) == all.skip(i + 1));
        let part = trimmed(parts[i].as_slice());
        match halves(part.as_slice(), chars_of("=").as_slice()) {
            Some((key, value)) => {
                if same_chars(key.as_slice(), wanted.as_slice()) {
                    return Some(value);
                }
            },
            None => {},
        }
        i += 1;
    }
    None
}

/// The session of a request: a keyed digest of its cookie, and never the cookie itself.
pub open spec fn session_of(headers: Seq<Pair>, options: CaptureOptions) -> Option<Seq<char>> {
    match (options.session_cookie, lookup(headers, "cookie"@)) {
        (Some(name), Some(cookie)) => match cookie_value(split(cookie, ';'), name@) {
            Some(value) => Some(
                "hmac-sha256:"@ + hex_text(
                    hmac_of(options.session_key@, vstd::utf8::encode_utf8(value)),
                ),
            ),
            None => None,
        },
        _ => None,
    }
}

pub fn session_hash(headers: &Labels, options: &CaptureOptions) -> (r: Option<String>)
    ensures
        text_option(r) == session_of(headers@, *options),
{
    let name = match &options.session_cookie {
        Some(name) => name,
        None => {
            return None;
        },
    };
    let cookie = match headers.get("cookie") {
        Some(cookie) => cookie,
        None => {
            return None;
        },
    };
    let parts = split_at_each(chars_of(cookie.as_str()).as_slice(), ';');
    match find_cookie(&parts, name.as_str()) {
        Some(value) => {
            let text = string_of(value.as_slice());
            let digest = hmac_sha256_hex(options.session_key.as_slice(), text.as_str().as_bytes());
            Some(glue2("hmac-sha256:", digest.as_str()))
        },
        None => None,
    }
}

/// Headers that belong to one connection, and are not passed on.
pub open spec fn is_own_header(line: Seq<char>) -> bool {
    split_once(line, ":"@) matches Some((name, _)) && {
        let lower = ascii_lowered(trim(name));
        lower == "host"@ || lower == "connection"@ || lower == "accept-encoding"@
    }
}

/// Lines with their ends, but for those that are not passed on.
pub open spec fn passed_lines(lines: Seq<Seq<char>>) -> Seq<char>
    decreases lines.len(),
{
    if lines.len() == 0 {
        Seq::empty()
    } else if is_own_header(lines.last()) {
        passed_lines(lines.drop_last())
    } else {
        passed_lines(lines.drop_last()) + lines.last() + "\r\n"@
    }
}

/// The head of a request as it is passed on: the request line, the headers that are passed on, and
/// those of the new connection.
pub open spec fn forwarded_head(head: Seq<char>, upstream: Seq<char>) -> Seq<char> {
    let all = lines(strip_ends(head, "\r\n"@));
    (if all.len() == 0 {
        Seq::empty()
    } else {
        all[0] + "\r\n"@ + passed_lines(all.skip(1))
    }) + "Host: "@ + upstream + "\r\nConnection: close\r\n\r\n"@
}

fn own_header(line: &[char]) -> (r: bool)
    ensures
        r == is_own_header(line@),
{
    match halves(line, chars_of(":").as_slice()) {
        Some((name, _)) => {
            let lower = string_of(lower_ascii(trimmed(name.as_slice()).as_slice()).as_slice());
            same(lower.as_str(), "host") || same(lower.as_str(), "connection") || same(
                lower.as_str(),
                "accept-encoding",
            )
        },
        None => false,
    }
}

/// Makes the request that is passed on.
pub fn forward_request(head: &str, raw: &[u8], body_start: usize, upstream: &str) -> (r: Vec<u8>)
    requires
        body_start <= raw@.len(),
    ensures
        r@ == vstd::utf8::encode_utf8(forwarded_head(head@, upstream@)) + raw@.skip(
            body_start as int,
        ),
{
    let short = stripped_ends(chars_of(head).as_slice(), chars_of("\r\n").as_slice());
    let lines_here = lines_of(short.as_slice());
    let ghost all = lines(strip_ends(head@, "\r\n"@));
    assert(views(lines_here@).len() == lines_here@.len());
    let mut text: Vec<char> = Vec::new();
    if lines_here.len() > 0 {
        assert(all[0] == lines_here@[0]@);
        append(&mut text, lines_here[0].as_slice());
        append_str(&mut text, "\r\n");
        let ghost first = all[0] + "\r\n"@;
        assert(text@ == first);
        let ghost rest = all.skip(1);
        let mut i: usize = 1;
        assert(rest.take(0) == Seq::<Seq<char>>::empty());
        assert(first + passed_lines(rest.take(0)) == first);
        while i < lines_here.len()
            invariant
                1 <= i <= lines_here@.len(),
                all == views(lines_here@),
                rest == all.skip(1),
                text@ == first + passed_lines(rest.take(i - 1)),
            decreases lines_here.len() - i,
        {
            let ghost head_lines = passed_lines(rest.take(i - 1));
            proof {
                assert(rest[i - 1] == lines_here@[i as int]@);
                assert(rest.take(i as int).drop_last() == rest.take(i - 1));
                assert(rest.take(i as int).last() == rest[i - 1]);
            }
            if !own_header(lines_here[i].as_slice()) {
                append(&mut text, lines_here[i].as_slice());
                append_str(&mut text, "\r\n");
                assert(first + (head_lines + rest[i - 1] + "\r\n"@) == first + head_lines + rest[i
                    - 1] + "\r\n"@);
            }
            i += 1;
        }
        assert(rest.take(i - 1) == rest);
    }
    append_str(&mut text, "Host: ");
    append_str(&mut text, upstream);
    append_str(&mut text, "\r\nConnection: close\r\n\r\n");
    let whole = string_of(text.as_slice());
    let bytes = whole.as_str().as_bytes();
    let mut out = bytes_between(bytes, 0, bytes.len());
    assert(out@ == bytes@);
    let body = bytes_between(raw, body_start, raw.len());
    assert(body@ == raw@.skip(body_start as int));
    append_bytes(&mut out, body.as_slice());
    out
}

/// Why an upstream is none.
#[derive(Clone, Copy, Debug, PartialEq, Eq, Structural)]
pub enum UpstreamError {
    NotHttp,
    NotHost,
}

impl UpstreamError {
    pub open spec fn text(self) -> Seq<char> {
        match self {
            UpstreamError::NotHttp => "capture upstream must use http://"@,
            UpstreamError::NotHost =>
                "capture upstream must contain only an http:// host and optional port"@,
        }
    }

    pub fn message(self) -> (r: String)
        ensures
            r@ == self.text(),
    {
        match self {
            UpstreamError::NotHttp => "capture upstream must use http://".to_owned(),
            UpstreamError::NotHost =>
                "capture upstream must contain only an http:// host and optional port".to_owned(),
        }
    }
}

/// The host and port of an upstream.
pub open spec fn upstream_of(upstream: Seq<char>) -> Result<Seq<char>, UpstreamError> {
    match strip_prefix(upstream, "http://"@) {
        Some(rest) => {
            let value = strip_ends(rest, "/"@);
            if value.len() == 0 || contains_text(value, "/"@) {
                Err(UpstreamError::NotHost)
            } else if contains_text(value, ":"@) {
                Ok(value)
            } else {
                Ok(value + ":80"@)
            }
        },
        None => Err(UpstreamError::NotHttp),
    }
}

pub fn parse_upstream(upstream: &str) -> (r: Result<String, UpstreamError>)
    ensures
        match r {
            Ok(value) => upstream_of(upstream@) == Ok::<Seq<char>, UpstreamError>(value@),
            Err(error) => upstream_of(upstream@) == Err::<Seq<char>, UpstreamError>(error),
        },
{
    match stripped_prefix(chars_of(upstream).as_slice(), chars_of("http://").as_slice()) {
        Some(rest) => {
            let value = stripped_ends(rest.as_slice(), chars_of("/").as_slice());
            if value.len() == 0 {
                return Err(UpstreamError::NotHost);
            }
            let text = string_of(value.as_slice());
            if has_text(text.as_str(), "/") {
                return Err(UpstreamError::NotHost);
            }
            if has_text(text.as_str(), ":") {
                return Ok(text);
            }
            Ok(glue2(text.as_str(), ":80"))
        },
        None => Err(UpstreamError::NotHttp),
    }
}

/// Bodies are kept whole or not at all: what is over the limit, or of a type that cannot be kept,
/// leaves only its size and its digest.
pub proof fn large_bodies_leave_only_their_digest(
    bytes: Seq<u8>,
    content_type: Option<Seq<char>>,
    limit: nat,
    e: BodyEvidence,
)
    requires
        evidence_of(bytes, content_type, limit, e),
    ensures
        bytes.len() > limit || !is_capturable(content_type) <==> e.body is None,
        e.body is None <==> e.omitted is Some,
        e.sha256@ == fingerprint_of(bytes),
{
}

} // verus!
