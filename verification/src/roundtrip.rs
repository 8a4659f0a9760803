//! Writing a request out and reading it back: for which requests the two
//! are inverse, and the proof that they are.

use crate::headers::{
    collect, distinct_names, find_name, header_block, header_entry, header_line,
    lemma_find_name, split_entry, Entry,
};
use crate::request::{
    body_of, declared_length, find_newline, header_end, header_entries, lemma_find_newline,
    parse_request, RequestView, LINE_FEED,
};
use crate::text::{
    find_separator, is_whitespace, lemma_find_separator, lemma_skip_whitespace,
    lemma_skip_whitespace_back, lemma_token_end_bounds, lossy_text, nth_token, separator_at,
    skip_whitespace, skip_whitespace_back, token_end, tokens, tokens_from, trim,
};
use crate::wire::start_line;
use vstd::prelude::*;
use vstd::utf8::{
    encode_scalar, encode_utf8, encode_utf8_decode_utf8, encode_utf8_valid_utf8,
    has_width_1_encoding, is_ascii_chars, is_ascii_chars_encode_utf8, last_continuation_byte,
    leading_byte_width_1, leading_byte_width_2, leading_byte_width_3, leading_byte_width_4,
    second_last_continuation_byte, third_last_continuation_byte,
};

verus! {

/// The end of a line as it is written: carriage return and line feed.
pub open spec fn line_end() -> Seq<char> {
    seq!['\r', '\n']
}

/// Whether `c` occurs nowhere in `t`.
pub open spec fn free_of(t: Seq<char>, c: char) -> bool {
    forall|i: int| 0 <= i < t.len() ==> #[trigger] t[i] != c
}

/// Text of several parts is encoded part by part.
pub proof fn lemma_encode_concat(a: Seq<char>, b: Seq<char>)
    ensures
        encode_utf8(a + b) == encode_utf8(a) + encode_utf8(b),
    decreases a.len(),
{
    if a.len() == 0 {
        assert(a + b =~= b);
        assert(encode_utf8(a) + encode_utf8(b) =~= encode_utf8(b));
    } else {
        assert((a + b)[0] == a[0]);
        assert((a + b).drop_first() =~= a.drop_first() + b);
        lemma_encode_concat(a.drop_first(), b);
        assert(encode_utf8(a + b) =~= encode_utf8(a) + encode_utf8(b));
    }
}

/// No byte of a character's encoding is a line feed, unless the character
/// is one.
proof fn lemma_scalar_has_no_line_feed(c: char)
    requires
        c != '\n',
    ensures
        forall|i: int|
            0 <= i < encode_scalar(c as u32).len() ==> #[trigger] encode_scalar(c as u32)[i]
                != LINE_FEED,
{
    let v = c as u32;
    assert(v != 0x0A);
    assert(has_width_1_encoding(v) ==> leading_byte_width_1(v) != 0x0A) by (bit_vector)
        requires
            v != 0x0A,
    ;
    assert(leading_byte_width_2(v) != 0x0A) by (bit_vector);
    assert(leading_byte_width_3(v) != 0x0A) by (bit_vector);
    assert(leading_byte_width_4(v) != 0x0A) by (bit_vector);
    assert(last_continuation_byte(v) != 0x0A) by (bit_vector);
    assert(second_last_continuation_byte(v) != 0x0A) by (bit_vector);
    assert(third_last_continuation_byte(v) != 0x0A) by (bit_vector);
}

/// Text without a line feed is encoded without one.
pub proof fn lemma_encode_has_no_line_feed(t: Seq<char>)
    requires
        free_of(t, '\n'),
    ensures
        forall|i: int| 0 <= i < encode_utf8(t).len() ==> #[trigger] encode_utf8(t)[i] != LINE_FEED,
    decreases t.len(),
{
    if t.len() > 0 {
        lemma_scalar_has_no_line_feed(t[0]);
        assert forall|i: int| 0 <= i < t.drop_first().len() implies #[trigger] t.drop_first()[i]
            != '\n' by {
            assert(t.drop_first()[i] == t[i + 1]);
        }
        lemma_encode_has_no_line_feed(t.drop_first());
        let head = encode_scalar(t[0] as u32);
        let tail = encode_utf8(t.drop_first());
        assert(encode_utf8(t) == head + tail);
        assert forall|i: int| 0 <= i < encode_utf8(t).len() implies #[trigger] encode_utf8(t)[i]
            != LINE_FEED by {
            if i < head.len() {
                assert(encode_utf8(t)[i] == head[i]);
            } else {
                assert(encode_utf8(t)[i] == tail[i - head.len()]);
            }
        }
    }
}

/// The end of a line is encoded as the two bytes 13 and 10.
pub proof fn lemma_encode_line_end()
    ensures
        encode_utf8(line_end()) == seq![0x0Du8, LINE_FEED],
{
    let t = line_end();
    assert(is_ascii_chars(t));
    is_ascii_chars_encode_utf8(t);
    assert(encode_utf8(t)[0] == t[0] as u8);
    assert(encode_utf8(t)[1] == t[1] as u8);
    assert(encode_utf8(t) =~= seq![0x0Du8, LINE_FEED]);
}

/// Where a buffer holds, from `from` on, the encoding of a line that is
/// free of line feeds but for its end, that line is the next one found, and
/// it is read as it was written.
pub proof fn lemma_line_is_found(bytes: Seq<u8>, from: int, t: Seq<char>)
    requires
        0 <= from,
        free_of(t, '\n'),
        from + encode_utf8(t + line_end()).len() <= bytes.len(),
        bytes.subrange(from, from + encode_utf8(t + line_end()).len()) == encode_utf8(
            t + line_end(),
        ),
    ensures
        find_newline(bytes, from) == Some(from + encode_utf8(t + line_end()).len() - 1),
        lossy_text(bytes.subrange(from, from + encode_utf8(t + line_end()).len())) == t
            + line_end(),
{
    let line = t + line_end();
    let code = encode_utf8(line);
    lemma_encode_concat(t, line_end());
    lemma_encode_line_end();
    lemma_encode_has_no_line_feed(t);
    let body = encode_utf8(t);
    assert(code == body + seq![0x0Du8, LINE_FEED]);
    let e = from + code.len() - 1;
    assert(code.len() == body.len() + 2);
    assert forall|k: int| from <= k < e implies bytes[k] != LINE_FEED by {
        assert(bytes[k] == bytes.subrange(from, from + code.len())[k - from]);
        if k - from < body.len() {
            assert(code[k - from] == body[k - from]);
        } else {
            assert(code[k - from] == 0x0Du8);
        }
    }
    assert(bytes[e] == LINE_FEED) by {
        assert(bytes[e] == bytes.subrange(from, from + code.len())[e - from]);
        assert(code[e - from] == LINE_FEED);
    }
    lemma_find_newline(bytes, from);
    encode_utf8_valid_utf8(line);
    encode_utf8_decode_utf8(line);
}

/// A line that neither begins nor ends with whitespace is what trimming
/// leaves of it and its end.
pub proof fn lemma_trim_of_line(t: Seq<char>)
    requires
        t.len() > 0 ==> !is_whitespace(t.first()) && !is_whitespace(t.last()),
    ensures
        trim(t + line_end()) == t,
{
    let s = t + line_end();
    let n = s.len() as int;
    assert(s[n - 1] == '\n' && s[n - 2] == '\r');
    lemma_skip_whitespace(s, 0);
    lemma_skip_whitespace_back(s, n);
    let a = skip_whitespace(s, 0);
    let b = skip_whitespace_back(s, n);
    if t.len() > 0 {
        assert(s[0] == t.first());
        assert(s[t.len() - 1] == t.last());
        assert(a == 0);
        if b < t.len() {
            assert(is_whitespace(s[t.len() - 1]));
        }
        if b > t.len() {
            assert(is_whitespace(s[b - 1]));
        }
        assert(b == t.len());
    } else {
        assert(is_whitespace(s[0]) && is_whitespace(s[1]));
        if a < 2 {
            assert(!is_whitespace(s[a]));
        }
        if b > 0 {
            assert(is_whitespace(s[b - 1]));
        }
    }
    assert(trim(s) =~= t);
}

/// A name without separator, the separator and a value are split into
/// that name and that value again.
pub proof fn lemma_split_of_joined(name: Seq<char>, value: Seq<char>)
    requires
        find_separator(name, 0) is None,
    ensures
        split_entry(name + seq![':', ' '] + value) == (Some(name), Some(value)),
{
    let s = name + seq![':', ' '] + value;
    let p = name.len() as int;
    assert(s[p] == ':' && s[p + 1] == ' ');
    lemma_find_separator(name, 0);
    lemma_find_separator(s, 0);
    assert forall|k: int| 0 <= k < p implies !separator_at(s, k) by {
        assert(!separator_at(name, k));
        assert(s[k] == name[k]);
        if k + 1 < p {
            assert(s[k + 1] == name[k + 1]);
        }
    }
    assert(separator_at(s, p));
    assert(find_separator(s, 0) == Some(p));
    assert(s.take(p) =~= name);
    assert(s.skip(p + 2) =~= value);
}

/// A header that is read as it was written: it has a name and a value; the
/// name does not begin with whitespace and holds no separator; the value
/// is not empty and does not end with whitespace; neither holds a line
/// feed.
pub open spec fn is_plain_header(e: Entry) -> bool {
    match e {
        (Some(name), Some(value)) => {
            &&& name.len() > 0 ==> !is_whitespace(name.first())
            &&& value.len() > 0
            &&& !is_whitespace(value.last())
            &&& find_separator(name, 0) is None
            &&& free_of(name, '\n')
            &&& free_of(value, '\n')
        },
        _ => false,
    }
}

/// Whether every header is read as it was written.
pub open spec fn all_plain(headers: Seq<Entry>) -> bool {
    forall|i: int| 0 <= i < headers.len() ==> is_plain_header(#[trigger] headers[i])
}

/// A plain header, written as a line, is read as that header.
pub proof fn lemma_header_reads_back(e: Entry)
    requires
        is_plain_header(e),
    ensures
        header_line(e) == e.0->0 + seq![':', ' '] + e.1->0 + line_end(),
        free_of(e.0->0 + seq![':', ' '] + e.1->0, '\n'),
        header_entry(header_line(e)) == Some(e),
{
    let name = e.0->0;
    let value = e.1->0;
    let t = name + seq![':', ' '] + value;
    assert(header_line(e) =~= t + line_end());
    assert forall|i: int| 0 <= i < t.len() implies #[trigger] t[i] != '\n' by {
        if i < name.len() {
            assert(t[i] == name[i]);
        } else if i < name.len() + 2 {
            assert(t[i] == seq![':', ' '][i - name.len()]);
        } else {
            assert(t[i] == value[i - name.len() - 2]);
        }
    }
    assert(t.last() == value.last());
    if name.len() > 0 {
        assert(t.first() == name.first());
    } else {
        assert(t.first() == ':');
    }
    lemma_trim_of_line(t);
    lemma_split_of_joined(name, value);
}

/// The header block begins with the line of the first header.
pub proof fn lemma_header_block_front(headers: Seq<Entry>)
    requires
        headers.len() > 0,
    ensures
        header_block(headers) == header_line(headers.first()) + header_block(
            headers.drop_first(),
        ),
    decreases headers.len(),
{
    if headers.len() == 1 {
        assert(headers.drop_last() =~= Seq::<Entry>::empty());
        assert(headers.drop_first() =~= Seq::<Entry>::empty());
        assert(header_block(headers) =~= header_line(headers.first()) + header_block(
            headers.drop_first(),
        ));
    } else {
        lemma_header_block_front(headers.drop_last());
        assert(headers.drop_first().drop_last() =~= headers.drop_last().drop_first());
        assert(headers.drop_first().last() == headers.last());
        assert(headers.drop_last().first() == headers.first());
        assert(header_block(headers) =~= header_line(headers.first()) + header_block(
            headers.drop_first(),
        ));
    }
}

/// Where a buffer holds, from `from` on, the encoding of a block of plain
/// headers and of the blank line behind it, those headers are read out of
/// it, and the block ends behind the blank line.
pub proof fn lemma_headers_read_back(bytes: Seq<u8>, from: int, headers: Seq<Entry>)
    requires
        0 <= from,
        all_plain(headers),
        from + encode_utf8(header_block(headers) + line_end()).len() <= bytes.len(),
        bytes.subrange(from, from + encode_utf8(header_block(headers) + line_end()).len())
            == encode_utf8(header_block(headers) + line_end()),
    ensures
        header_entries(bytes, from) == headers,
        header_end(bytes, from) == from + encode_utf8(header_block(headers) + line_end()).len(),
    decreases headers.len(),
{
    let code = encode_utf8(header_block(headers) + line_end());
    if headers.len() == 0 {
        let blank = Seq::<char>::empty();
        assert(header_block(headers) + line_end() =~= blank + line_end());
        lemma_line_is_found(bytes, from, blank);
        lemma_trim_of_line(blank);
        assert(header_entries(bytes, from) =~= headers);
    } else {
        let first = headers.first();
        let rest = headers.drop_first();
        let t = first.0->0 + seq![':', ' '] + first.1->0;
        lemma_header_block_front(headers);
        lemma_header_reads_back(first);
        let line_code = encode_utf8(t + line_end());
        let rest_code = encode_utf8(header_block(rest) + line_end());
        assert(header_block(headers) + line_end() =~= (t + line_end()) + (header_block(rest)
            + line_end()));
        lemma_encode_concat(t + line_end(), header_block(rest) + line_end());
        assert(code == line_code + rest_code);
        let next = from + line_code.len();
        assert(bytes.subrange(from, next) =~= line_code) by {
            assert(bytes.subrange(from, next) =~= bytes.subrange(from, from + code.len()).take(
                line_code.len() as int,
            ));
        }
        assert(bytes.subrange(next, next + rest_code.len()) =~= rest_code) by {
            assert(bytes.subrange(next, next + rest_code.len()) =~= bytes.subrange(
                from,
                from + code.len(),
            ).skip(line_code.len() as int));
        }
        lemma_line_is_found(bytes, from, t);
        assert forall|i: int| 0 <= i < rest.len() implies is_plain_header(#[trigger] rest[i]) by {
            assert(rest[i] == headers[i + 1]);
        }
        lemma_headers_read_back(bytes, next, rest);
        assert(find_newline(bytes, from) == Some(next - 1));
        assert(header_entries(bytes, from) == seq![first] + header_entries(bytes, next));
        assert(seq![first] + rest =~= headers);
    }
}

/// Headers that hold each name once are what collecting them leaves.
pub proof fn lemma_collect_of_distinct(headers: Seq<Entry>)
    requires
        distinct_names(headers),
    ensures
        collect(headers) == headers,
    decreases headers.len(),
{
    if headers.len() == 0 {
        assert(collect(headers) =~= headers);
    } else {
        let front = headers.drop_last();
        let last = headers.last();
        assert(distinct_names(front)) by {
            assert forall|i: int, j: int| 0 <= i < j < front.len() implies front[i].0
                != front[j].0 by {
                assert(front[i] == headers[i] && front[j] == headers[j]);
            }
        }
        lemma_collect_of_distinct(front);
        lemma_find_name(front, last.0, 0);
        if let Some(p) = find_name(front, last.0, 0) {
            assert(front[p] == headers[p]);
            assert(headers[p].0 != headers[headers.len() - 1].0);
        }
        assert(front.push((last.0, last.1)) =~= headers);
    }
}

/// Text that can stand as a field of a request line: not empty, and free
/// of whitespace.
pub open spec fn is_token(t: Seq<char>) -> bool {
    t.len() > 0 && forall|i: int| 0 <= i < t.len() ==> !is_whitespace(#[trigger] t[i])
}

/// Where a token stands at `i` with whitespace or the end behind it, it is
/// the next token found.
pub proof fn lemma_token_is_found(s: Seq<char>, i: int, t: Seq<char>)
    requires
        0 <= i,
        is_token(t),
        i + t.len() <= s.len(),
        s.subrange(i, i + t.len()) == t,
        i + t.len() < s.len() ==> is_whitespace(s[i + t.len()]),
    ensures
        tokens_from(s, i) == seq![t] + tokens_from(s, i + t.len()),
{
    let e = token_end(s, i);
    let end = i + t.len();
    lemma_token_end_bounds(s, i);
    assert forall|k: int| i <= k < end implies !is_whitespace(s[k]) by {
        assert(s[k] == s.subrange(i, end)[k - i]);
    }
    if e < end {
        assert(!is_whitespace(s[e]));
    }
    if e > end {
        assert(!is_whitespace(s[end]));
    }
    assert(e == end);
    assert(!is_whitespace(s[i]));
}

/// A request line made of three tokens is split into those three.
pub proof fn lemma_start_line_reads_back(first: Seq<char>, second: Seq<char>, third: Seq<char>)
    requires
        is_token(first),
        is_token(second),
        is_token(third),
    ensures
        start_line(Some(first), Some(second), Some(third)) == first + seq![' '] + second
            + seq![' '] + third + line_end(),
        free_of(first + seq![' '] + second + seq![' '] + third, '\n'),
        nth_token(start_line(Some(first), Some(second), Some(third)), 0) == Some(first),
        nth_token(start_line(Some(first), Some(second), Some(third)), 1) == Some(second),
        nth_token(start_line(Some(first), Some(second), Some(third)), 2) == Some(third),
{
    let s = start_line(Some(first), Some(second), Some(third));
    let t = first + seq![' '] + second + seq![' '] + third;
    assert(s =~= t + line_end());
    let a = first.len() as int;
    let b = a + 1 + second.len();
    let c = b + 1 + third.len();
    assert(s.len() == c + 2);
    assert(s.subrange(0, a) =~= first);
    assert(s.subrange(a + 1, b) =~= second);
    assert(s.subrange(b + 1, c) =~= third);
    assert(s[a] == ' ' && s[b] == ' ' && s[c] == '\r' && s[c + 1] == '\n');
    lemma_token_is_found(s, 0, first);
    lemma_token_is_found(s, a + 1, second);
    lemma_token_is_found(s, b + 1, third);
    assert(tokens_from(s, a) == tokens_from(s, a + 1));
    assert(tokens_from(s, b) == tokens_from(s, b + 1));
    assert(tokens_from(s, c) == tokens_from(s, c + 1));
    assert(tokens_from(s, c + 1) == tokens_from(s, c + 2));
    assert(tokens_from(s, c + 2) =~= Seq::<Seq<char>>::empty());
    assert(tokens(s) =~= seq![first, second, third]);
    assert forall|i: int| 0 <= i < t.len() implies #[trigger] t[i] != '\n' by {
        assert(t[i] == s[i]);
        if i < a {
            assert(s[i] == first[i]);
        } else if i == a {
        } else if i < b {
            assert(s[i] == second[i - a - 1]);
        } else if i == b {
        } else {
            assert(s[i] == third[i - b - 1]);
        }
    }
}

/// A request that is read as it was written: method, target and version
/// are tokens; the headers are plain and hold each name once; and the
/// headers declare at least the length of the body.
pub open spec fn is_plain_request(request: RequestView) -> bool {
    &&& request.method is Some && is_token(request.method->0)
    &&& request.url is Some && is_token(request.url->0)
    &&& request.version is Some && is_token(request.version->0)
    &&& all_plain(request.headers)
    &&& distinct_names(request.headers)
    &&& request.body.len() <= declared_length(request.headers)
}

/// Reading is the inverse of writing: a plain request, written out and read
/// back, is the request it was.
pub proof fn lemma_request_round_trip(request: RequestView)
    requires
        is_plain_request(request),
    ensures
        parse_request(request.wire()) == Some(request),
{
    let first = request.method->0;
    let second = request.url->0;
    let third = request.version->0;
    let t = first + seq![' '] + second + seq![' '] + third;
    let line = start_line(request.method, request.url, request.version);
    let block = header_block(request.headers) + line_end();
    let bytes = request.wire();
    lemma_start_line_reads_back(first, second, third);
    assert(request.head() =~= line + block);
    lemma_encode_concat(line, block);
    let line_code = encode_utf8(line);
    let block_code = encode_utf8(block);
    assert(bytes == line_code + block_code + request.body);
    let e = line_code.len() - 1;
    let end = (line_code.len() + block_code.len()) as int;
    assert(bytes.subrange(0, e + 1) =~= line_code);
    assert(bytes.subrange(e + 1, end) =~= block_code);
    lemma_line_is_found(bytes, 0, t);
    lemma_headers_read_back(bytes, e + 1, request.headers);
    lemma_collect_of_distinct(request.headers);
    assert(body_of(bytes, end, request.headers) =~= request.body);
}

/// A request of three tokens, without headers and without body, written
/// out and read back, is the request it was.
pub proof fn lemma_bare_request_round_trip(method: Seq<char>, url: Seq<char>, version: Seq<char>)
    requires
        is_token(method),
        is_token(url),
        is_token(version),
    ensures
        parse_request(
            (RequestView {
                method: Some(method),
                url: Some(url),
                version: Some(version),
                headers: Seq::empty(),
                body: Seq::empty(),
            }).wire(),
        ) == Some(
            RequestView {
                method: Some(method),
                url: Some(url),
                version: Some(version),
                headers: Seq::empty(),
                body: Seq::empty(),
            },
        ),
{
    lemma_request_round_trip(
        RequestView {
            method: Some(method),
            url: Some(url),
            version: Some(version),
            headers: Seq::empty(),
            body: Seq::empty(),
        },
    );
}

} // verus!
