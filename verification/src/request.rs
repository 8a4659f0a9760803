//! Requests: reading one out of a buffer of bytes, and writing it back.

use crate::decimal::{parse_machine_size, parse_usize};
use crate::headers::{
    collect, distinct_names, header_entry, lemma_collect_distinct, lookup, parse_header_line,
    Entry, HeaderMap,
};
use crate::text::{
    chars_of, decode_lossy, lossy_text, next_token, nth_token, opt_text, substring, trim,
    trim_bounds,
};
use crate::wire::{head_text, render_head, serialize, wire_bytes};
use vstd::prelude::*;
use vstd::slice::{slice_subrange, slice_to_vec};

verus! {

/// The line feed that ends every line of a message head.
pub const LINE_FEED: u8 = 0x0A;

/// Why a buffer holds no request.
#[derive(Debug, PartialEq, Eq, Clone, Copy)]
pub enum ParseFailure {
    /// The buffer holds no line feed, so not even a request line.
    NoRequestLine,
}

/// A request as the contracts see it.
pub struct RequestView {
    pub method: Option<Seq<char>>,
    pub url: Option<Seq<char>>,
    pub version: Option<Seq<char>>,
    pub headers: Seq<Entry>,
    pub body: Seq<u8>,
}

impl RequestView {
    /// The head of the request as text: request line, header lines and
    /// blank line.
    pub open spec fn head(self) -> Seq<char> {
        head_text(self.method, self.url, self.version, self.headers)
    }

    /// The request as it goes over the wire.
    pub open spec fn wire(self) -> Seq<u8> {
        wire_bytes(self.method, self.url, self.version, self.headers, self.body)
    }
}

/// The position of the first line feed at or after `from`.
pub open spec fn find_newline(bytes: Seq<u8>, from: int) -> Option<int>
    decreases bytes.len() - from,
{
    if from < 0 || from >= bytes.len() {
        None
    } else if bytes[from] == LINE_FEED {
        Some(from)
    } else {
        find_newline(bytes, from + 1)
    }
}

/// `find_newline` gives the least position of a line feed.
pub proof fn lemma_find_newline(bytes: Seq<u8>, from: int)
    requires
        0 <= from,
    ensures
        match find_newline(bytes, from) {
            Some(e) => from <= e < bytes.len() && bytes[e] == LINE_FEED && forall|k: int|
                from <= k < e ==> bytes[k] != LINE_FEED,
            None => forall|k: int| from <= k < bytes.len() ==> bytes[k] != LINE_FEED,
        },
    decreases bytes.len() - from,
{
    if from < bytes.len() && bytes[from] != LINE_FEED {
        lemma_find_newline(bytes, from + 1);
    }
}

/// The headers that the lines from `from` on hold, line by line, up to the
/// blank line or to the last line that is complete.
pub open spec fn header_entries(bytes: Seq<u8>, from: int) -> Seq<Entry>
    decreases bytes.len() - from,
    via header_entries_decreases
{
    match find_newline(bytes, from) {
        None => Seq::empty(),
        Some(e) => match header_entry(lossy_text(bytes.subrange(from, e + 1))) {
            None => Seq::empty(),
            Some(entry) => seq![entry] + header_entries(bytes, e + 1),
        },
    }
}

#[via_fn]
proof fn header_entries_decreases(bytes: Seq<u8>, from: int) {
    if from >= 0 {
        lemma_find_newline(bytes, from);
    }
}

/// Where the header block that begins at `from` ends: behind the blank
/// line, or behind the last complete line where the blank line is missing.
pub open spec fn header_end(bytes: Seq<u8>, from: int) -> int
    decreases bytes.len() - from,
    via header_end_decreases
{
    match find_newline(bytes, from) {
        None => from,
        Some(e) => match header_entry(lossy_text(bytes.subrange(from, e + 1))) {
            None => e + 1,
            Some(entry) => header_end(bytes, e + 1),
        },
    }
}

#[via_fn]
proof fn header_end_decreases(bytes: Seq<u8>, from: int) {
    if from >= 0 {
        lemma_find_newline(bytes, from);
    }
}

/// The header block ends within the buffer, at or behind its start.
pub proof fn lemma_header_end_bounds(bytes: Seq<u8>, from: int)
    requires
        0 <= from <= bytes.len(),
    ensures
        from <= header_end(bytes, from) <= bytes.len(),
    decreases bytes.len() - from,
{
    lemma_find_newline(bytes, from);
    match find_newline(bytes, from) {
        None => {},
        Some(e) => {
            if header_entry(lossy_text(bytes.subrange(from, e + 1))) is Some {
                lemma_header_end_bounds(bytes, e + 1);
            }
        },
    }
}

/// The length that the headers declare for the body: the number under
/// `Content-Length`, or 0 where the header is missing, has no value, or
/// holds no number that fits the machine.
pub open spec fn declared_length(headers: Seq<Entry>) -> nat {
    match lookup(headers, Some("Content-Length"@)) {
        Some(Some(value)) => match parse_machine_size(trim(value)) {
            Some(n) => n as nat,
            None => 0,
        },
        _ => 0,
    }
}

/// The body of a message whose head ends at `end`: as many bytes as the
/// headers declare, or all that are there where fewer are.
pub open spec fn body_of(bytes: Seq<u8>, end: int, headers: Seq<Entry>) -> Seq<u8> {
    let available = bytes.len() - end;
    let length = if declared_length(headers) <= available {
        declared_length(headers) as int
    } else {
        available
    };
    bytes.subrange(end, end + length)
}

/// The request that a buffer holds, or `None` where it holds no line feed.
pub open spec fn parse_request(bytes: Seq<u8>) -> Option<RequestView> {
    match find_newline(bytes, 0) {
        None => None,
        Some(e) => {
            let line = lossy_text(bytes.subrange(0, e + 1));
            let headers = collect(header_entries(bytes, e + 1));
            Some(
                RequestView {
                    method: nth_token(line, 0),
                    url: nth_token(line, 1),
                    version: nth_token(line, 2),
                    headers: headers,
                    body: body_of(bytes, header_end(bytes, e + 1), headers),
                },
            )
        },
    }
}

/// A buffer holds a request exactly if it holds a line feed.
pub proof fn lemma_request_needs_line_feed(bytes: Seq<u8>)
    ensures
        parse_request(bytes) is Some <==> bytes.contains(LINE_FEED),
{
    lemma_find_newline(bytes, 0);
}

/// The body never reaches beyond the buffer: it is what follows the head,
/// cut at the declared length, and all that follows where the buffer ends
/// before that.
pub proof fn lemma_body_is_clamped(bytes: Seq<u8>, end: int, headers: Seq<Entry>)
    requires
        0 <= end <= bytes.len(),
    ensures
        body_of(bytes, end, headers).len() <= bytes.len() - end,
        body_of(bytes, end, headers).len() <= declared_length(headers),
        body_of(bytes, end, headers).len() == declared_length(headers) || body_of(
            bytes,
            end,
            headers,
        ).len() == bytes.len() - end,
        body_of(bytes, end, headers) == bytes.skip(end).take(
            body_of(bytes, end, headers).len() as int,
        ),
{
    let body = body_of(bytes, end, headers);
    assert(body =~= bytes.skip(end).take(body.len() as int));
}

/// The body of a request read out of a buffer is clamped to the buffer:
/// it has the declared length, or is all that was left behind the head.
pub proof fn lemma_parsed_body_is_clamped(bytes: Seq<u8>)
    ensures
        match parse_request(bytes) {
            Some(request) => {
                &&& request.body.len() <= bytes.len()
                &&& request.body.len() <= declared_length(request.headers)
                &&& request.body.len() < declared_length(request.headers)
                    ==> request.body == bytes.skip(bytes.len() - request.body.len())
            },
            None => true,
        },
{
    lemma_find_newline(bytes, 0);
    match find_newline(bytes, 0) {
        Some(e) => {
            lemma_header_end_bounds(bytes, e + 1);
            let end = header_end(bytes, e + 1);
            let headers = collect(header_entries(bytes, e + 1));
            lemma_body_is_clamped(bytes, end, headers);
            let body = body_of(bytes, end, headers);
            if body.len() < declared_length(headers) {
                assert(body =~= bytes.skip(bytes.len() - body.len()));
            }
        },
        None => {},
    }
}

/// A request read out of a buffer holds each header name once, however
/// often the buffer repeats it.
pub proof fn lemma_parsed_headers_are_distinct(bytes: Seq<u8>)
    ensures
        parse_request(bytes) matches Some(request) ==> distinct_names(request.headers),
{
    if let Some(e) = find_newline(bytes, 0) {
        lemma_collect_distinct(header_entries(bytes, e + 1));
    }
}

/// Finds the first line feed at or after `from`.
pub fn next_newline(buf: &[u8], from: usize) -> (r: Option<usize>)
    ensures
        match r {
            Some(e) => find_newline(buf@, from as int) == Some(e as int) && from <= e < buf@.len(),
            None => find_newline(buf@, from as int) is None,
        },
{
    let n = buf.len();
    let mut i: usize = from;
    while i < n
        invariant
            from <= i,
            n == buf@.len(),
            find_newline(buf@, i as int) == find_newline(buf@, from as int),
        decreases n - i,
    {
        if buf[i] == LINE_FEED {
            return Some(i);
        }
        i += 1;
    }
    None
}

/// Splits a request line into method, target and version: its first three
/// whitespace-separated tokens, as far as it has them.
pub fn request_line_fields(line: &str) -> (r: (Option<String>, Option<String>, Option<String>))
    ensures
        opt_text(r.0) == nth_token(line@, 0),
        opt_text(r.1) == nth_token(line@, 1),
        opt_text(r.2) == nth_token(line@, 2),
{
    let chars = chars_of(line);
    let s = chars.as_slice();
    let (a0, b0) = match next_token(s, 0) {
        Some(range) => range,
        None => {
            return (None, None, None);
        },
    };
    let method = substring(line, a0, b0);
    let (a1, b1) = match next_token(s, b0) {
        Some(range) => range,
        None => {
            return (Some(method), None, None);
        },
    };
    let url = substring(line, a1, b1);
    let (a2, b2) = match next_token(s, b1) {
        Some(range) => range,
        None => {
            return (Some(method), Some(url), None);
        },
    };
    let version = substring(line, a2, b2);
    (Some(method), Some(url), Some(version))
}

/// Reads the header block that begins at `from`: the headers it holds and
/// the position behind it.
pub fn parse_headers(buf: &[u8], from: usize) -> (r: (HeaderMap, usize))
    ensures
        r.0@ == collect(header_entries(buf@, from as int)),
        r.1 == header_end(buf@, from as int),
        from <= r.1,
        from <= buf@.len() ==> r.1 <= buf@.len(),
{
    let n = buf.len();
    let mut headers = HeaderMap::new();
    let mut pos: usize = from;
    let ghost mut seen: Seq<Entry> = Seq::empty();
    loop
        invariant_except_break
            headers@ == collect(seen),
            header_entries(buf@, from as int) == seen + header_entries(buf@, pos as int),
            header_end(buf@, from as int) == header_end(buf@, pos as int),
        invariant
            n == buf@.len(),
            from <= pos,
            from <= n ==> pos <= n,
        ensures
            from <= pos,
            from <= n ==> pos <= n,
            headers@ == collect(header_entries(buf@, from as int)),
            pos == header_end(buf@, from as int),
        decreases buf@.len() - pos,
    {
        let end = match next_newline(buf, pos) {
            Some(e) => e,
            None => {
                assert(seen + Seq::<Entry>::empty() =~= seen);
                break ;
            },
        };
        let line = decode_lossy(slice_subrange(buf, pos, end + 1));
        match parse_header_line(line.as_str()) {
            Some((name, value)) => {
                proof {
                    let entry = (opt_text(name), opt_text(value));
                    let rest = header_entries(buf@, end + 1);
                    assert(seen + (seq![entry] + rest) =~= seen.push(entry) + rest);
                    assert(seen.push(entry).drop_last() =~= seen);
                    seen = seen.push(entry);
                }
                headers.insert(name, value);
                pos = end + 1;
            },
            None => {
                assert(seen + Seq::<Entry>::empty() =~= seen);
                pos = end + 1;
                break ;
            },
        }
    }
    (headers, pos)
}

/// The body length that `headers` declare.
pub fn content_length(headers: &HeaderMap) -> (n: usize)
    ensures
        n == declared_length(headers@),
{
    let name = Some("Content-Length".to_owned());
    match headers.get(&name) {
        Some(Some(value)) => {
            let chars = chars_of(value.as_str());
            let (a, b) = trim_bounds(chars.as_slice());
            match parse_usize(slice_subrange(chars.as_slice(), a, b)) {
                Some(n) => n,
                None => 0,
            }
        },
        _ => 0,
    }
}

/// A request: what its request line and its headers say, and its body.
pub struct RequestMessage {
    method: Option<String>,
    url: Option<String>,
    version: Option<String>,
    header_lines: HeaderMap,
    entity_body: Vec<u8>,
}

impl View for RequestMessage {
    type V = RequestView;

    closed spec fn view(&self) -> RequestView {
        RequestView {
            method: opt_text(self.method),
            url: opt_text(self.url),
            version: opt_text(self.version),
            headers: self.header_lines@,
            body: self.entity_body@,
        }
    }
}

/// A copy of an optional string.
fn copy_of(field: &Option<String>) -> (r: Option<String>)
    ensures
        r == *field,
{
    match field {
        Some(text) => Some(text.clone()),
        None => None,
    }
}

impl RequestMessage {
    /// Reads a request out of `buf`. Only a buffer without a line feed
    /// holds none; missing fields are absent, a missing blank line ends the
    /// headers with the last complete line, and a body shorter than
    /// declared is taken as far as it goes.
    pub fn parse(buf: &[u8]) -> (r: Result<RequestMessage, ParseFailure>)
        ensures
            match r {
                Ok(message) => parse_request(buf@) == Some(message@),
                Err(failure) => parse_request(buf@) is None && failure
                    == ParseFailure::NoRequestLine,
            },
            r is Err <==> !buf@.contains(LINE_FEED),
    {
        proof {
            lemma_find_newline(buf@, 0);
        }
        let n = buf.len();
        let first = match next_newline(buf, 0) {
            Some(e) => e,
            None => {
                return Err(ParseFailure::NoRequestLine);
            },
        };
        let line = decode_lossy(slice_subrange(buf, 0, first + 1));
        let (method, url, version) = request_line_fields(line.as_str());
        let (header_lines, end) = parse_headers(buf, first + 1);
        let declared = content_length(&header_lines);
        let available = n - end;
        let length = if declared <= available {
            declared
        } else {
            available
        };
        let entity_body = slice_to_vec(slice_subrange(buf, end, end + length));
        Ok(RequestMessage { method, url, version, header_lines, entity_body })
    }

    /// Reads a request out of `buf`, as `parse` does; `None` where the
    /// buffer holds no line feed.
    pub fn new(buf: Vec<u8>) -> (r: Option<RequestMessage>)
        ensures
            match r {
                Some(message) => parse_request(buf@) == Some(message@),
                None => parse_request(buf@) is None,
            },
            r is None <==> !buf@.contains(LINE_FEED),
    {
        match RequestMessage::parse(buf.as_slice()) {
            Ok(message) => Some(message),
            Err(_) => None,
        }
    }

    /// The method: the first token of the request line.
    pub fn get_method(&self) -> (r: Option<String>)
        ensures
            opt_text(r) == self@.method,
    {
        copy_of(&self.method)
    }

    /// The target: the second token of the request line.
    pub fn get_url(&self) -> (r: Option<String>)
        ensures
            opt_text(r) == self@.url,
    {
        copy_of(&self.url)
    }

    /// The protocol version: the third token of the request line.
    pub fn get_version(&self) -> (r: Option<String>)
        ensures
            opt_text(r) == self@.version,
    {
        copy_of(&self.version)
    }

    /// The headers.
    pub fn get_header_lines(&self) -> (r: &HeaderMap)
        ensures
            r@ == self@.headers,
    {
        &self.header_lines
    }

    /// The body.
    pub fn get_entity_body(&self) -> (r: &Vec<u8>)
        ensures
            r@ == self@.body,
    {
        &self.entity_body
    }

    /// The head of the request as text; the body, which need not be text,
    /// is left out.
    pub fn to_string(&self) -> (s: String)
        ensures
            s@ == self@.head(),
    {
        render_head(&self.method, &self.url, &self.version, &self.header_lines)
    }

    /// The request as it goes over the wire.
    pub fn to_vec(&self) -> (bytes: Vec<u8>)
        ensures
            bytes@ == self@.wire(),
    {
        serialize(&self.method, &self.url, &self.version, &self.header_lines, &self.entity_body)
    }
}

} // verus!
