use httpd_core::http::parser::parse;
use httpd_core::http::{Request, Response, StatusCode};
use httpd_core::router::Router;
use httpd_core::server::{
    canned_response, contains_terminator, dispatch, exchange, new_server, Action, Connection,
    Ending, Phase, Server, CHUNK_SIZE, MAX_REQUEST_BYTES, READ_TIMEOUT_SECS,
};
use httpd_core::service::{Readiness, Service};

type Handler = fn(Request) -> Result<Response, String>;

fn hello(_request: Request) -> Result<Response, String> {
    let mut r = Response::with_date(StatusCode::OK, "d".to_string());
    r.set_content_type("text/plain");
    r.set_body(b"hello".to_vec());
    Ok(r)
}

fn fail(_request: Request) -> Result<Response, String> {
    Err("broken".to_string())
}

fn router() -> Router<Handler> {
    Router::<Handler>::new().get("/hello", hello).get("/fail", fail)
}

struct NotReady(Readiness);

impl Service for NotReady {
    fn poll_ready(&mut self) -> Readiness {
        match &self.0 {
            Readiness::Pending => Readiness::Pending,
            Readiness::Ready(Ok(())) => Readiness::Ready(Ok(())),
            Readiness::Ready(Err(e)) => Readiness::Ready(Err(e.clone())),
        }
    }

    fn call(&mut self, _request: Request, journal: &mut Vec<String>) -> Result<Response, String> {
        journal.push("called".to_string());
        Err("never".to_string())
    }
}

fn head_of(bytes: &[u8]) -> String {
    let text = String::from_utf8_lossy(bytes).into_owned();
    text.split("\r\n").next().unwrap().to_string()
}

fn body_of(bytes: &[u8]) -> Vec<u8> {
    let at = bytes.windows(4).position(|w| w == b"\r\n\r\n").unwrap();
    bytes[at + 4..].to_vec()
}

#[test]
fn limits() {
    assert_eq!(CHUNK_SIZE, 4096);
    assert_eq!(MAX_REQUEST_BYTES, 1024 * 1024);
    assert_eq!(READ_TIMEOUT_SECS, 30);
}

#[test]
fn terminator_detection() {
    assert!(!contains_terminator(&b"".to_vec()));
    assert!(!contains_terminator(&b"\r\n\r".to_vec()));
    assert!(contains_terminator(&b"\r\n\r\n".to_vec()));
    assert!(contains_terminator(&b"GET / HTTP/1.1\r\n\r\n".to_vec()));
    assert!(!contains_terminator(&b"GET / HTTP/1.1\r\n\n\r".to_vec()));
    assert!(contains_terminator(&b"a\r\n\r\nb".to_vec()));
}

#[test]
fn canned_responses() {
    let r = canned_response(StatusCode::BadRequest, "Bad Request");
    assert_eq!(r.status_code, StatusCode::BadRequest);
    assert_eq!(r.headers.get("Content-Type"), Some(&"text/plain".to_string()));
    assert_eq!(r.headers.get("Content-Length"), Some(&"11".to_string()));
    assert_eq!(r.body, b"Bad Request".to_vec());
}

#[test]
fn exchange_answers_a_request() {
    let mut service = router();
    let mut journal = Vec::new();
    let (ending, bytes) = exchange(&mut service, b"GET /hello HTTP/1.1\r\n\r\n", &mut journal);
    assert_eq!(ending, Ending::ResponseSent);
    assert_eq!(
        bytes,
        b"HTTP/1.1 200 OK\r\nServer: RustHTTP/0.1\r\nDate: d\r\nContent-Type: text/plain\r\nContent-Length: 5\r\n\r\nhello".to_vec()
    );
}

#[test]
fn exchange_bad_request() {
    let mut service = NotReady(Readiness::Ready(Ok(())));
    let mut journal = Vec::new();
    let (ending, bytes) = exchange(&mut service, b"GET\r\n\r\n", &mut journal);
    assert_eq!(ending, Ending::BadRequest);
    assert_eq!(head_of(&bytes), "HTTP/1.1 400 Bad Request");
    assert_eq!(body_of(&bytes), b"Bad Request".to_vec());
    assert!(journal.is_empty());
}

#[test]
fn exchange_service_unavailable() {
    for answer in [Readiness::Pending, Readiness::Ready(Err("full".to_string()))] {
        let mut service = NotReady(answer);
        let mut journal = Vec::new();
        let (ending, bytes) = exchange(&mut service, b"GET / HTTP/1.1\r\n\r\n", &mut journal);
        assert_eq!(ending, Ending::ServiceUnavailable);
        assert_eq!(head_of(&bytes), "HTTP/1.1 503 Service Unavailable");
        assert_eq!(body_of(&bytes), b"Service Unavailable".to_vec());
        assert!(journal.is_empty());
    }
}

#[test]
fn exchange_internal_error() {
    let mut service = router();
    let mut journal = Vec::new();
    let (ending, bytes) = exchange(&mut service, b"GET /fail HTTP/1.1\r\n\r\n", &mut journal);
    assert_eq!(ending, Ending::InternalError);
    assert_eq!(head_of(&bytes), "HTTP/1.1 500 Internal Server Error");
    assert_eq!(body_of(&bytes), b"Internal Server Error".to_vec());
}

#[test]
fn exchange_unregistered_path_is_not_found() {
    let mut service = router();
    let mut journal = Vec::new();
    for _ in 0..2 {
        let (ending, bytes) = exchange(&mut service, b"GET /nope HTTP/1.1\r\n\r\n", &mut journal);
        assert_eq!(ending, Ending::ResponseSent);
        assert_eq!(head_of(&bytes), "HTTP/1.1 404 Not Found");
        assert_eq!(
            body_of(&bytes),
            b"<html><body><h1>404 - Not Found</h1></body></html>".to_vec()
        );
        let text = String::from_utf8(bytes).unwrap();
        assert!(text.contains("\r\nContent-Type: text/html\r\n"));
        assert!(text.contains("\r\nContent-Length: 50\r\n"));
    }
}

#[test]
fn dispatch_calls_a_ready_service() {
    let mut service = router();
    let mut journal = Vec::new();
    let request = parse(b"GET /hello HTTP/1.1\r\n\r\n").unwrap();
    let (ending, response) = dispatch(&mut service, request, &mut journal);
    assert_eq!(ending, Ending::ResponseSent);
    assert_eq!(response.body, b"hello".to_vec());
}

#[test]
fn connection_serves_one_request() {
    let server = new_server("127.0.0.1:8080", router());
    let mut service = server.service;
    let mut journal = Vec::new();
    let mut connection = Connection::new();
    assert_eq!(connection.phase, Phase::Accepted);
    assert!(matches!(connection.begin(), Action::Read));
    assert_eq!(connection.phase, Phase::ReadingHeaders);
    let action = connection.receive(b"GET /hel", &mut service, &mut journal);
    assert!(matches!(action, Action::Read));
    assert_eq!(connection.phase, Phase::ReadingHeaders);
    let action = connection.receive(b"lo HTTP/1.1\r\nHost: x\r\n\r", &mut service, &mut journal);
    assert!(matches!(action, Action::Read));
    let action = connection.receive(b"\n", &mut service, &mut journal);
    match action {
        Action::Respond(bytes) => {
            assert_eq!(head_of(&bytes), "HTTP/1.1 200 OK");
            assert_eq!(body_of(&bytes), b"hello".to_vec());
            let text = String::from_utf8(bytes).unwrap();
            assert!(text.contains("\r\nAccess-Control-Allow-Origin: *\r\n"));
        }
        other => panic!("unexpected action {:?}", other),
    }
    assert_eq!(connection.phase, Phase::Closed(Ending::ResponseSent));
    assert_eq!(journal, vec!["Request: GET /hello", "Response: 200"]);
    let again = connection.receive(b"GET / HTTP/1.1\r\n\r\n", &mut service, &mut journal);
    assert!(matches!(again, Action::Close));
    assert!(matches!(connection.begin(), Action::Close));
}

#[test]
fn peer_closing_early_gets_no_response() {
    let mut service = router();
    let mut journal = Vec::new();
    let mut connection = Connection::new();
    connection.begin();
    assert!(matches!(connection.receive(b"GE", &mut service, &mut journal), Action::Read));
    assert!(matches!(connection.receive(b"", &mut service, &mut journal), Action::Close));
    assert_eq!(connection.phase, Phase::Closed(Ending::PeerClosed));
    assert!(journal.is_empty());
}

#[test]
fn peer_closing_at_once_gets_no_response() {
    let mut service = router();
    let mut journal = Vec::new();
    let mut connection = Connection::new();
    connection.begin();
    assert!(matches!(connection.receive(b"", &mut service, &mut journal), Action::Close));
    assert_eq!(connection.phase, Phase::Closed(Ending::PeerClosed));
}

#[test]
fn oversized_header_block_gets_no_response() {
    let mut service = router();
    let mut journal = Vec::new();
    let mut connection = Connection::new();
    connection.begin();
    let chunk = vec![b'a'; CHUNK_SIZE];
    let mut reads = 0;
    loop {
        let action = connection.receive(&chunk, &mut service, &mut journal);
        reads += 1;
        match action {
            Action::Read => assert!(connection.buffer.len() <= MAX_REQUEST_BYTES),
            Action::Close => break,
            Action::Respond(_) => panic!("a response was written"),
        }
    }
    assert_eq!(reads, MAX_REQUEST_BYTES / CHUNK_SIZE + 1);
    assert_eq!(connection.phase, Phase::Closed(Ending::TooLarge));
    assert!(journal.is_empty());
}

#[test]
fn exactly_the_limit_is_still_read() {
    let mut service = router();
    let mut journal = Vec::new();
    let mut connection = Connection::new();
    connection.begin();
    let chunk = vec![b'a'; MAX_REQUEST_BYTES];
    assert!(matches!(connection.receive(&chunk, &mut service, &mut journal), Action::Read));
    assert!(matches!(connection.receive(b"a", &mut service, &mut journal), Action::Close));
    assert_eq!(connection.phase, Phase::Closed(Ending::TooLarge));
}

#[test]
fn terminator_beats_the_limit() {
    let mut service = router();
    let mut journal = Vec::new();
    let mut connection = Connection::new();
    connection.begin();
    let mut chunk = b"GET /hello HTTP/1.1\r\n\r\n".to_vec();
    chunk.extend(vec![b'a'; MAX_REQUEST_BYTES]);
    let action = connection.receive(&chunk, &mut service, &mut journal);
    assert!(matches!(action, Action::Respond(_)));
    assert_eq!(connection.phase, Phase::Closed(Ending::ResponseSent));
}

#[test]
fn receive_before_begin_closes() {
    let mut service = router();
    let mut journal = Vec::new();
    let mut connection = Connection::new();
    let action = connection.receive(b"GET / HTTP/1.1\r\n\r\n", &mut service, &mut journal);
    assert!(matches!(action, Action::Close));
    assert_eq!(connection.phase, Phase::Accepted);
}

#[test]
fn server_holds_address_and_service() {
    let server = Server::new("0.0.0.0:80", router());
    assert_eq!(server.address, "0.0.0.0:80");
    assert_eq!(server.service.len(), 2);
    let wrapped = new_server("127.0.0.1:8080", router());
    assert_eq!(wrapped.address, "127.0.0.1:8080");
    assert_eq!(wrapped.service.inner.inner.len(), 2);
}
