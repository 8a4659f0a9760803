use server::connection::{
    advance, path_of, respond, Action, ConnectionState, Event, BAD_REQUEST, CHUNK_SIZE, NOT_FOUND,
};
use server::request::RequestMessage;
use server::response::ResponseMessage;

fn reply_of(action: Action) -> ResponseMessage {
    match action {
        Action::Reply(response) => response,
        Action::Resolve(path) => panic!("asked for {:?}", path),
        Action::Close => panic!("closed"),
    }
}

fn path_asked(action: Action) -> String {
    match action {
        Action::Resolve(path) => path,
        Action::Reply(response) => panic!("replied {:?}", response.to_string()),
        Action::Close => panic!("closed"),
    }
}

fn wire(status_line: &str, body: &[u8]) -> Vec<u8> {
    let mut bytes = format!("{}\r\nContent-Length: {}\r\n\r\n", status_line, body.len()).into_bytes();
    bytes.extend_from_slice(body);
    bytes
}

#[test]
fn the_chunk_size_is_eight_kibibytes() {
    assert_eq!(CHUNK_SIZE, 8192);
}

#[test]
fn the_fixed_pages_are_what_they_are() {
    assert_eq!(
        NOT_FOUND,
        "<!DOCTYPE html>\n<html lang=\"en\">\n<head>\n<meta charset=\"utf-8\">\n<title>404 Not Found</title>\n</head>\n<body>\n<h1>Oops!</h1>\n<p>Sorry, I don't know what you're asking for.</p>\n</body>\n</html>\n"
    );
    assert_eq!(
        BAD_REQUEST,
        "\n<!DOCTYPE html>\n<html lang=\"en\">\n<head>\n<meta charset=\"utf-8\">\n<title>400 Bad Request</title>\n</head>\n<body>\n<h1>Oops!</h1>\n<p>Sorry, I don't know what you're asking for.</p>\n</body>\n</html>\n"
    );
    assert!(NOT_FOUND.is_ascii());
    assert!(BAD_REQUEST.is_ascii());
    assert_eq!(NOT_FOUND.len(), 189);
    assert_eq!(BAD_REQUEST.len(), 192);
}

#[test]
fn the_fixed_replies_declare_the_length_of_their_pages() {
    let (_, action) = advance(ConnectionState::Reading, Event::Resolved(None));
    assert!(reply_of(action)
        .to_vec()
        .starts_with(b"HTTP/1.1 404 Not Found\r\nContent-Length: 189\r\n\r\n<!DOCTYPE html>"));
    let (_, action) = advance(ConnectionState::Reading, Event::Received(vec![b'x'; 3]));
    assert!(reply_of(action)
        .to_vec()
        .starts_with(b"HTTP/1.1 400 Bad Request\r\nContent-Length: 192\r\n\r\n\n<!DOCTYPE html>"));
}

#[test]
fn a_missing_resource_is_answered_with_not_found() {
    let (state, action) = advance(
        ConnectionState::Reading,
        Event::Received(b"GET /missing.html HTTP/1.1\r\n\r\n".to_vec()),
    );
    assert_eq!(state, ConnectionState::Reading);
    assert_eq!(path_asked(action), "./missing.html");
    let (state, action) = advance(state, Event::Resolved(None));
    assert_eq!(state, ConnectionState::Reading);
    let response = reply_of(action);
    assert_eq!(
        response.to_string(),
        format!("HTTP/1.1 404 Not Found\r\nContent-Length: {}\r\n\r\n", NOT_FOUND.len())
    );
    assert_eq!(response.to_vec(), wire("HTTP/1.1 404 Not Found", NOT_FOUND.as_bytes()));
}

#[test]
fn a_resource_that_is_there_is_sent() {
    let (state, action) = advance(
        ConnectionState::Reading,
        Event::Received(b"GET /index.html HTTP/1.1\r\n\r\n".to_vec()),
    );
    assert_eq!(state, ConnectionState::Reading);
    assert_eq!(path_asked(action), "./index.html");
    let (state, action) = advance(state, Event::Resolved(Some(b"hi".to_vec())));
    assert_eq!(state, ConnectionState::Reading);
    let response = reply_of(action);
    assert_eq!(response.to_string(), "HTTP/1.1 200 OK\r\nContent-Length: 2\r\n\r\n");
    assert_eq!(response.to_vec(), b"HTTP/1.1 200 OK\r\nContent-Length: 2\r\n\r\nhi".to_vec());
}

#[test]
fn a_request_without_target_asks_for_the_index() {
    let (state, action) = advance(ConnectionState::Reading, Event::Received(b"\n".to_vec()));
    assert_eq!(state, ConnectionState::Reading);
    assert_eq!(path_asked(action), "./index.html");
    let (_, action) = advance(ConnectionState::Reading, Event::Received(b"GET\r\n\r\n".to_vec()));
    assert_eq!(path_asked(action), "./index.html");
}

#[test]
fn a_buffer_without_request_is_answered_with_bad_request() {
    let (state, action) = advance(ConnectionState::Reading, Event::Received(b"GET /x".to_vec()));
    assert_eq!(state, ConnectionState::Reading);
    let response = reply_of(action);
    assert_eq!(
        response.to_string(),
        format!("HTTP/1.1 400 Bad Request\r\nContent-Length: {}\r\n\r\n", BAD_REQUEST.len())
    );
    assert_eq!(response.to_vec(), wire("HTTP/1.1 400 Bad Request", BAD_REQUEST.as_bytes()));
}

#[test]
fn a_read_of_no_bytes_closes_the_connection() {
    let (state, action) = advance(ConnectionState::Reading, Event::Received(Vec::new()));
    assert_eq!(state, ConnectionState::Closed);
    assert!(matches!(action, Action::Close));
}

#[test]
fn a_failure_closes_the_connection() {
    let (state, action) = advance(ConnectionState::Reading, Event::Failed);
    assert_eq!(state, ConnectionState::Closed);
    assert!(matches!(action, Action::Close));
}

#[test]
fn a_closed_connection_stays_closed() {
    let (state, action) = advance(
        ConnectionState::Closed,
        Event::Received(b"GET / HTTP/1.1\r\n\r\n".to_vec()),
    );
    assert_eq!(state, ConnectionState::Closed);
    assert!(matches!(action, Action::Close));
    let (state, action) = advance(ConnectionState::Closed, Event::Resolved(Some(b"x".to_vec())));
    assert_eq!(state, ConnectionState::Closed);
    assert!(matches!(action, Action::Close));
    let (state, action) = advance(ConnectionState::Closed, Event::Resolved(None));
    assert_eq!(state, ConnectionState::Closed);
    assert!(matches!(action, Action::Close));
    let (state, action) = advance(ConnectionState::Closed, Event::Failed);
    assert_eq!(state, ConnectionState::Closed);
    assert!(matches!(action, Action::Close));
    let (state, action) = advance(ConnectionState::Closed, Event::Received(Vec::new()));
    assert_eq!(state, ConnectionState::Closed);
    assert!(matches!(action, Action::Close));
}

#[test]
fn one_connection_serves_request_after_request() {
    let mut state = ConnectionState::Reading;
    for (target, content) in [("/a", Some(b"A".to_vec())), ("/b", None), ("/c", Some(Vec::new()))] {
        let request = format!("GET {} HTTP/1.1\r\n\r\n", target).into_bytes();
        let (next, action) = advance(state, Event::Received(request));
        assert_eq!(next, ConnectionState::Reading);
        assert_eq!(path_asked(action), format!(".{}", target));
        let (next, action) = advance(next, Event::Resolved(content.clone()));
        assert_eq!(next, ConnectionState::Reading);
        let expected = match content {
            Some(body) => wire("HTTP/1.1 200 OK", &body),
            None => wire("HTTP/1.1 404 Not Found", NOT_FOUND.as_bytes()),
        };
        assert_eq!(reply_of(action).to_vec(), expected);
        state = next;
    }
    let (state, action) = advance(state, Event::Received(Vec::new()));
    assert_eq!(state, ConnectionState::Closed);
    assert!(matches!(action, Action::Close));
}

#[test]
fn the_target_is_looked_up_as_it_stands() {
    let (_, action) = advance(
        ConnectionState::Reading,
        Event::Received(b"GET /../secret%20file?x=1 HTTP/1.1\r\n\r\n".to_vec()),
    );
    assert_eq!(path_asked(action), "./../secret%20file?x=1");
    let (_, action) = advance(
        ConnectionState::Reading,
        Event::Received(b"GET relative HTTP/1.1\r\n\r\n".to_vec()),
    );
    assert_eq!(path_asked(action), ".relative");
}

#[test]
fn path_of_puts_a_dot_before_the_target() {
    let request = RequestMessage::new(b"GET /x/y.txt HTTP/1.1\r\n\r\n".to_vec()).unwrap();
    assert_eq!(path_of(&request), "./x/y.txt");
    let request = RequestMessage::new(b"\r\n".to_vec()).unwrap();
    assert_eq!(path_of(&request), "./index.html");
}

#[test]
fn respond_declares_the_length_of_the_body() {
    assert_eq!(
        respond("200", "OK", Vec::new()).to_vec(),
        b"HTTP/1.1 200 OK\r\nContent-Length: 0\r\n\r\n".to_vec()
    );
    let body = vec![7u8; 1234];
    assert_eq!(respond("200", "OK", body.clone()).to_vec(), wire("HTTP/1.1 200 OK", &body));
    assert_eq!(
        respond("418", "I'm a teapot", b"short and stout".to_vec()).to_vec(),
        b"HTTP/1.1 418 I'm a teapot\r\nContent-Length: 15\r\n\r\nshort and stout".to_vec()
    );
}

#[test]
fn the_declared_length_of_a_reply_reads_back() {
    for body in [Vec::new(), b"hi".to_vec(), vec![b'\n'; 300], NOT_FOUND.as_bytes().to_vec()] {
        let bytes = respond("200", "OK", body.clone()).to_vec();
        let reparsed = RequestMessage::new(bytes).unwrap();
        assert_eq!(
            reparsed.get_header_lines().get(&Some("Content-Length".to_string())),
            Some(&Some(body.len().to_string()))
        );
        assert_eq!(reparsed.get_entity_body(), &body);
    }
}
