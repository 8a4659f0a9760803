//! What a connection does with what it is given: one step from the state
//! and an event to the next state and the action to take. Reading from the
//! peer, looking a resource up and writing the reply are left to the
//! caller, who reports each outcome as the next event.

use crate::decimal::{decimal, decimal_string, is_digit, lemma_decimal_reads_back};
use crate::headers::{lemma_find_name, lookup};
use crate::request::{declared_length, parse_request, RequestMessage};
use crate::response::{ResponseMessage, ResponseView};
use crate::text::lemma_trim_keeps_tight_text;
use vstd::prelude::*;
use vstd::string::{StrSliceExecFns, StringExecFns};
use vstd::utf8::{encode_utf8, is_ascii_chars, is_ascii_chars_encode_utf8};

verus! {

/// The most bytes to read from the peer at once.
pub const CHUNK_SIZE: usize = 8192;

/// The page sent with status 400.
pub const BAD_REQUEST: &'static str =
    "\n<!DOCTYPE html>\n<html lang=\"en\">\n<head>\n<meta charset=\"utf-8\">\n<title>400 Bad Request</title>\n</head>\n<body>\n<h1>Oops!</h1>\n<p>Sorry, I don't know what you're asking for.</p>\n</body>\n</html>\n";

/// The page sent with status 404.
pub const NOT_FOUND: &'static str =
    "<!DOCTYPE html>\n<html lang=\"en\">\n<head>\n<meta charset=\"utf-8\">\n<title>404 Not Found</title>\n</head>\n<body>\n<h1>Oops!</h1>\n<p>Sorry, I don't know what you're asking for.</p>\n</body>\n</html>\n";

/// Where a connection stands.
#[derive(Debug, Clone, Copy, PartialEq, Eq, Structural)]
pub enum ConnectionState {
    /// Waiting for the peer's next bytes.
    Reading,
    /// Done: the peer has left, or reading or writing has failed.
    Closed,
}

/// What has happened on a connection.
pub enum Event {
    /// A read returned these bytes; none means that the peer has closed.
    Received(Vec<u8>),
    /// The lookup asked for has ended: with the resource's content, or
    /// with `None` where there is no such resource or it cannot be read.
    Resolved(Option<Vec<u8>>),
    /// Reading from the peer or writing to it has failed.
    Failed,
}

/// What to do next on a connection.
pub enum Action {
    /// Look up the resource at this path, relative to the serving root,
    /// and report the outcome as `Event::Resolved`.
    Resolve(String),
    /// Write this response to the peer, then read on.
    Reply(ResponseMessage),
    /// Stop serving this connection.
    Close,
}

/// An action as the contracts see it.
pub enum ActionView {
    Resolve(Seq<char>),
    Reply(ResponseView),
    Close,
}

impl View for Action {
    type V = ActionView;

    open spec fn view(&self) -> ActionView {
        match self {
            Action::Resolve(path) => ActionView::Resolve(path@),
            Action::Reply(response) => ActionView::Reply(response@),
            Action::Close => ActionView::Close,
        }
    }
}

/// An event as the contracts see it.
pub enum EventView {
    Received(Seq<u8>),
    Resolved(Option<Seq<u8>>),
    Failed,
}

impl View for Event {
    type V = EventView;

    open spec fn view(&self) -> EventView {
        match self {
            Event::Received(bytes) => EventView::Received(bytes@),
            Event::Resolved(Some(content)) => EventView::Resolved(Some(content@)),
            Event::Resolved(None) => EventView::Resolved(None),
            Event::Failed => EventView::Failed,
        }
    }
}

/// A response of this server: version `HTTP/1.1`, the given status and
/// phrase, the body, and its length as the one header.
pub open spec fn reply(status_code: Seq<char>, phrase: Seq<char>, body: Seq<u8>) -> ResponseView {
    ResponseView {
        version: Some("HTTP/1.1"@),
        status_code: Some(status_code),
        phrase: Some(phrase),
        headers: seq![(Some("Content-Length"@), Some(decimal(body.len())))],
        body: body,
    }
}

/// The response to a buffer that holds no request.
pub open spec fn bad_request_reply() -> ResponseView {
    reply("400"@, "Bad Request"@, encode_utf8(BAD_REQUEST@))
}

/// The response to a request for a resource that cannot be had.
pub open spec fn not_found_reply() -> ResponseView {
    reply("404"@, "Not Found"@, encode_utf8(NOT_FOUND@))
}

/// The response that carries a resource's content.
pub open spec fn ok_reply(content: Seq<u8>) -> ResponseView {
    reply("200"@, "OK"@, content)
}

/// The path under which a request's target is looked up: the target as it
/// is, `/index.html` where the request names none, behind a dot.
pub open spec fn resource_path(url: Option<Seq<char>>) -> Seq<char> {
    seq!['.'] + match url {
        Some(target) => target,
        None => "/index.html"@,
    }
}

/// The state after `event` has happened in `state`.
pub open spec fn next_state(state: ConnectionState, event: EventView) -> ConnectionState {
    match (state, event) {
        (ConnectionState::Reading, EventView::Received(bytes)) => if bytes.len() == 0 {
            ConnectionState::Closed
        } else {
            ConnectionState::Reading
        },
        (ConnectionState::Reading, EventView::Resolved(_)) => ConnectionState::Reading,
        _ => ConnectionState::Closed,
    }
}

/// The action that `event` calls for in `state`.
pub open spec fn next_action(state: ConnectionState, event: EventView) -> ActionView {
    match (state, event) {
        (ConnectionState::Reading, EventView::Received(bytes)) => if bytes.len() == 0 {
            ActionView::Close
        } else {
            match parse_request(bytes) {
                Some(request) => ActionView::Resolve(resource_path(request.url)),
                None => ActionView::Reply(bad_request_reply()),
            }
        },
        (ConnectionState::Reading, EventView::Resolved(Some(content))) => ActionView::Reply(
            ok_reply(content),
        ),
        (ConnectionState::Reading, EventView::Resolved(None)) => ActionView::Reply(
            not_found_reply(),
        ),
        _ => ActionView::Close,
    }
}

/// The two fixed pages are plain ASCII, a byte for each character.
pub proof fn lemma_pages_are_ascii()
    ensures
        encode_utf8(BAD_REQUEST@).len() == BAD_REQUEST@.len(),
        encode_utf8(NOT_FOUND@).len() == NOT_FOUND@.len(),
        BAD_REQUEST@.len() == 192,
        NOT_FOUND@.len() == 189,
{
    reveal_strlit(
        "\n<!DOCTYPE html>\n<html lang=\"en\">\n<head>\n<meta charset=\"utf-8\">\n<title>400 Bad Request</title>\n</head>\n<body>\n<h1>Oops!</h1>\n<p>Sorry, I don't know what you're asking for.</p>\n</body>\n</html>\n",
    );
    reveal_strlit(
        "<!DOCTYPE html>\n<html lang=\"en\">\n<head>\n<meta charset=\"utf-8\">\n<title>404 Not Found</title>\n</head>\n<body>\n<h1>Oops!</h1>\n<p>Sorry, I don't know what you're asking for.</p>\n</body>\n</html>\n",
    );
    assert(is_ascii_chars(BAD_REQUEST@));
    assert(is_ascii_chars(NOT_FOUND@));
    is_ascii_chars_encode_utf8(BAD_REQUEST@);
    is_ascii_chars_encode_utf8(NOT_FOUND@);
}

/// Once closed, a connection stays closed and asks for nothing more.
pub proof fn lemma_closed_stays_closed(event: EventView)
    ensures
        next_state(ConnectionState::Closed, event) == ConnectionState::Closed,
        next_action(ConnectionState::Closed, event) == ActionView::Close,
{
}

/// A connection closes only when the peer has left or reading or writing
/// has failed; whatever else happens, it reads on.
pub proof fn lemma_closes_only_at_the_end(event: EventView)
    ensures
        next_state(ConnectionState::Reading, event) == ConnectionState::Closed <==> (event
            == EventView::Failed || event == EventView::Received(Seq::<u8>::empty())),
{
    if let EventView::Received(bytes) = event {
        if bytes.len() == 0 {
            assert(bytes =~= Seq::<u8>::empty());
        }
    }
}

/// The length that a response of this server declares is the length of
/// its body.
pub proof fn lemma_reply_declares_its_length(
    status_code: Seq<char>,
    phrase: Seq<char>,
    body: Seq<u8>,
)
    requires
        body.len() <= usize::MAX,
    ensures
        declared_length(reply(status_code, phrase, body).headers) == body.len(),
{
    let name = Some("Content-Length"@);
    let digits = decimal(body.len());
    let headers = seq![(name, Some(digits))];
    assert(reply(status_code, phrase, body).headers == headers);
    lemma_find_name(headers, name, 0);
    assert(lookup(headers, name) == Some(Some(digits)));
    lemma_decimal_reads_back(body.len());
    assert(is_digit(digits.first()) && is_digit(digits.last()));
    lemma_trim_keeps_tight_text(digits);
}

/// Whatever a connection replies carries version `HTTP/1.1` and declares
/// the length of its body, as long as the content that was looked up has a
/// length that the machine can hold.
pub proof fn lemma_every_reply_is_consistent(state: ConnectionState, event: EventView)
    requires
        event matches EventView::Resolved(Some(content)) ==> content.len() <= usize::MAX,
    ensures
        match next_action(state, event) {
            ActionView::Reply(response) => {
                &&& response.version == Some("HTTP/1.1"@)
                &&& declared_length(response.headers) == response.body.len()
            },
            _ => true,
        },
{
    lemma_pages_are_ascii();
    if let ActionView::Reply(response) = next_action(state, event) {
        lemma_reply_declares_its_length(
            response.status_code->0,
            response.phrase->0,
            response.body,
        );
    }
}

/// Builds a response of this server.
pub fn respond(status_code: &str, phrase: &str, body: Vec<u8>) -> (r: ResponseMessage)
    ensures
        r@ == reply(status_code@, phrase@, body@),
{
    let length = decimal_string(body.len());
    let mut response = ResponseMessage::new();
    response.set_version("HTTP/1.1");
    response.set_status_code(status_code);
    response.set_phrase(phrase);
    response.insert_header_line("Content-Length", length.as_str());
    response.set_entity_body(body);
    assert(response@.headers =~= seq![(Some("Content-Length"@), Some(decimal(body@.len())))]);
    response
}

/// The path under which the target of `request` is looked up.
pub fn path_of(request: &RequestMessage) -> (path: String)
    ensures
        path@ == resource_path(request@.url),
{
    let path = String::from_str(".");
    proof {
        reveal_strlit(".");
        assert("."@ =~= seq!['.']);
    }
    match request.get_url() {
        Some(target) => path.concat(target.as_str()),
        None => path.concat("/index.html"),
    }
}

/// Takes one step: decides from the state and the event what the
/// connection does next.
pub fn advance(state: ConnectionState, event: Event) -> (r: (ConnectionState, Action))
    ensures
        r.0 == next_state(state, event@),
        r.1@ == next_action(state, event@),
{
    match state {
        ConnectionState::Closed => (ConnectionState::Closed, Action::Close),
        ConnectionState::Reading => match event {
            Event::Failed => (ConnectionState::Closed, Action::Close),
            Event::Received(bytes) => {
                if bytes.len() == 0 {
                    (ConnectionState::Closed, Action::Close)
                } else {
                    match RequestMessage::new(bytes) {
                        Some(request) => (
                            ConnectionState::Reading,
                            Action::Resolve(path_of(&request)),
                        ),
                        None => (
                            ConnectionState::Reading,
                            Action::Reply(
                                respond("400", "Bad Request", BAD_REQUEST.as_bytes_vec()),
                            ),
                        ),
                    }
                }
            },
            Event::Resolved(Some(content)) => (
                ConnectionState::Reading,
                Action::Reply(respond("200", "OK", content)),
            ),
            Event::Resolved(None) => (
                ConnectionState::Reading,
                Action::Reply(respond("404", "Not Found", NOT_FOUND.as_bytes_vec())),
            ),
        },
    }
}

} // verus!
