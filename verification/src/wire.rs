//! The wire format that requests and responses share: a start line of
//! three fields, the header lines, a blank line, and the body as it is.

use crate::headers::{header_block, Entry, HeaderMap};
use crate::text::{opt_text, text_or_empty};
use vstd::prelude::*;
use vstd::string::{StrSliceExecFns, StringExecFns};
use vstd::utf8::encode_utf8;

verus! {

/// The first line of a message: its three fields, each followed by its
/// delimiter, an absent field written as nothing.
pub open spec fn start_line(
    first: Option<Seq<char>>,
    second: Option<Seq<char>>,
    third: Option<Seq<char>>,
) -> Seq<char> {
    text_or_empty(first) + seq![' '] + text_or_empty(second) + seq![' '] + text_or_empty(third)
        + seq!['\r', '\n']
}

/// All of a message but its body, as text: the start line, the header
/// lines and the blank line behind them.
pub open spec fn head_text(
    first: Option<Seq<char>>,
    second: Option<Seq<char>>,
    third: Option<Seq<char>>,
    headers: Seq<Entry>,
) -> Seq<char> {
    start_line(first, second, third) + header_block(headers) + seq!['\r', '\n']
}

/// A message as it goes over the wire: the head in UTF-8, then the body
/// byte for byte.
pub open spec fn wire_bytes(
    first: Option<Seq<char>>,
    second: Option<Seq<char>>,
    third: Option<Seq<char>>,
    headers: Seq<Entry>,
    body: Seq<u8>,
) -> Seq<u8> {
    encode_utf8(head_text(first, second, third, headers)) + body
}

/// A header block that holds anything ends with the end of a line.
pub proof fn lemma_header_block_ends_line(entries: Seq<Entry>)
    requires
        entries.len() > 0,
    ensures
        header_block(entries).len() >= 4,
        header_block(entries).skip(header_block(entries).len() - 2) == seq!['\r', '\n'],
{
    let block = header_block(entries);
    assert(block.skip(block.len() - 2) =~= seq!['\r', '\n']);
}

/// Whatever the fields hold, the head is framed in full: the start line
/// has its two spaces and its line end, and the head closes with a blank
/// line.
pub proof fn lemma_head_is_framed(
    first: Option<Seq<char>>,
    second: Option<Seq<char>>,
    third: Option<Seq<char>>,
    headers: Seq<Entry>,
)
    ensures
        start_line(first, second, third).len() == text_or_empty(first).len() + text_or_empty(
            second,
        ).len() + text_or_empty(third).len() + 4,
        start_line(first, second, third)[text_or_empty(first).len() as int] == ' ',
        start_line(first, second, third)[(text_or_empty(first).len() + 1 + text_or_empty(
            second,
        ).len()) as int] == ' ',
        head_text(first, second, third, headers).take(
            start_line(first, second, third).len() as int,
        ) == start_line(first, second, third),
        head_text(first, second, third, headers).skip(
            head_text(first, second, third, headers).len() - 4,
        ) == seq!['\r', '\n', '\r', '\n'],
{
    let line = start_line(first, second, third);
    let head = head_text(first, second, third, headers);
    assert(head.take(line.len() as int) =~= line);
    if headers.len() > 0 {
        lemma_header_block_ends_line(headers);
        let block = header_block(headers);
        assert(block[block.len() - 2] == block.skip(block.len() - 2)[0]);
        assert(block[block.len() - 1] == block.skip(block.len() - 2)[1]);
    }
    assert(head.skip(head.len() - 4) =~= seq!['\r', '\n', '\r', '\n']);
}

/// Appends an optional field to `out`; an absent one adds nothing.
fn append_field(out: &mut String, field: &Option<String>)
    ensures
        final(out)@ == old(out)@ + text_or_empty(opt_text(*field)),
{
    match field {
        Some(text) => {
            out.append(text.as_str());
        },
        None => {
            assert(out@ =~= out@ + Seq::<char>::empty());
        },
    }
}

/// Writes the head of a message as text.
pub fn render_head(
    first: &Option<String>,
    second: &Option<String>,
    third: &Option<String>,
    headers: &HeaderMap,
) -> (s: String)
    ensures
        s@ == head_text(opt_text(*first), opt_text(*second), opt_text(*third), headers@),
{
    proof {
        reveal_strlit(" ");
        reveal_strlit("\r\n");
    }
    let mut out = String::new();
    append_field(&mut out, first);
    out.append(" ");
    append_field(&mut out, second);
    out.append(" ");
    append_field(&mut out, third);
    out.append("\r\n");
    let lines = headers.render();
    out.append(lines.as_str());
    out.append("\r\n");
    assert(out@ =~= head_text(
        opt_text(*first),
        opt_text(*second),
        opt_text(*third),
        headers@,
    ));
    out
}

/// Writes a whole message as the bytes that go over the wire.
pub fn serialize(
    first: &Option<String>,
    second: &Option<String>,
    third: &Option<String>,
    headers: &HeaderMap,
    body: &Vec<u8>,
) -> (bytes: Vec<u8>)
    ensures
        bytes@ == wire_bytes(
            opt_text(*first),
            opt_text(*second),
            opt_text(*third),
            headers@,
            body@,
        ),
{
    let head = render_head(first, second, third, headers);
    let mut bytes = head.as_str().as_bytes_vec();
    bytes.extend_from_slice(body.as_slice());
    assert(bytes@ =~= encode_utf8(head@) + body@);
    bytes
}

} // verus!
