//! Responses: assembled field by field, then written out.

use crate::headers::{with_entry, Entry, HeaderMap};
use crate::text::opt_text;
use crate::wire::{head_text, render_head, serialize, wire_bytes};
use vstd::prelude::*;

verus! {

/// A response as the contracts see it.
pub struct ResponseView {
    pub version: Option<Seq<char>>,
    pub status_code: Option<Seq<char>>,
    pub phrase: Option<Seq<char>>,
    pub headers: Seq<Entry>,
    pub body: Seq<u8>,
}

impl ResponseView {
    /// The head of the response as text: status line, header lines and
    /// blank line.
    pub open spec fn head(self) -> Seq<char> {
        head_text(self.version, self.status_code, self.phrase, self.headers)
    }

    /// The response as it goes over the wire.
    pub open spec fn wire(self) -> Seq<u8> {
        wire_bytes(self.version, self.status_code, self.phrase, self.headers, self.body)
    }
}

/// The response in which nothing is set yet.
pub open spec fn empty_response() -> ResponseView {
    ResponseView {
        version: None,
        status_code: None,
        phrase: None,
        headers: Seq::empty(),
        body: Seq::empty(),
    }
}

/// A response under construction.
pub struct ResponseMessage {
    version: Option<String>,
    status_code: Option<String>,
    phrase: Option<String>,
    header_lines: HeaderMap,
    entity_body: Vec<u8>,
}

impl View for ResponseMessage {
    type V = ResponseView;

    closed spec fn view(&self) -> ResponseView {
        ResponseView {
            version: opt_text(self.version),
            status_code: opt_text(self.status_code),
            phrase: opt_text(self.phrase),
            headers: self.header_lines@,
            body: self.entity_body@,
        }
    }
}

impl ResponseMessage {
    /// A response with no field set, no header and no body.
    pub fn new() -> (r: ResponseMessage)
        ensures
            r@ == empty_response(),
    {
        ResponseMessage {
            version: None,
            status_code: None,
            phrase: None,
            header_lines: HeaderMap::new(),
            entity_body: Vec::new(),
        }
    }

    /// Sets the protocol version.
    pub fn set_version(&mut self, version: &str)
        ensures
            final(self)@ == (ResponseView { version: Some(version@), ..old(self)@ }),
    {
        self.version = Some(version.to_owned());
    }

    /// Sets the status code.
    pub fn set_status_code(&mut self, status_code: &str)
        ensures
            final(self)@ == (ResponseView { status_code: Some(status_code@), ..old(self)@ }),
    {
        self.status_code = Some(status_code.to_owned());
    }

    /// Sets the reason phrase.
    pub fn set_phrase(&mut self, phrase: &str)
        ensures
            final(self)@ == (ResponseView { phrase: Some(phrase@), ..old(self)@ }),
    {
        self.phrase = Some(phrase.to_owned());
    }

    /// Stores `value` under the header `header_line_name`, in place of any
    /// value that the name had.
    pub fn insert_header_line(&mut self, header_line_name: &str, value: &str)
        ensures
            final(self)@ == (ResponseView {
                headers: with_entry(old(self)@.headers, Some(header_line_name@), Some(value@)),
                ..old(self)@
            }),
    {
        self.header_lines.insert(Some(header_line_name.to_owned()), Some(value.to_owned()));
    }

    /// Sets the body.
    pub fn set_entity_body(&mut self, entity_body: Vec<u8>)
        ensures
            final(self)@ == (ResponseView { body: entity_body@, ..old(self)@ }),
    {
        self.entity_body = entity_body;
    }

    /// The head of the response as text; the body, which need not be text,
    /// is left out.
    pub fn to_string(&self) -> (s: String)
        ensures
            s@ == self@.head(),
    {
        render_head(&self.version, &self.status_code, &self.phrase, &self.header_lines)
    }

    /// The response as it goes over the wire.
    pub fn to_vec(&self) -> (bytes: Vec<u8>)
        ensures
            bytes@ == self@.wire(),
    {
        serialize(
            &self.version,
            &self.status_code,
            &self.phrase,
            &self.header_lines,
            &self.entity_body,
        )
    }
}

/// Writing a response out gives the same bytes every time: they depend on
/// nothing but what the response holds.
pub proof fn lemma_serialization_is_repeatable(
    response: ResponseMessage,
    first: Vec<u8>,
    second: Vec<u8>,
)
    requires
        first@ == response@.wire(),
        second@ == response@.wire(),
    ensures
        first@ == second@,
{
}

} // verus!
