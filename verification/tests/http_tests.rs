use httpd_core::http::parser::{parse, parse_text};
use httpd_core::http::{Method, Request, Response, StatusCode, Version};
use httpd_core::string_map::StringMap;
use httpd_core::text::{segments_of, to_decimal, words_of};

#[test]
fn test_method_from_str() {
    assert_eq!(Method::from("GET"), Method::GET);
    assert_eq!(Method::from("POST"), Method::POST);
    assert_eq!(Method::from("PUT"), Method::PUT);
    assert_eq!(Method::from("DELETE"), Method::DELETE);
    assert_eq!(Method::from("HEAD"), Method::HEAD);
    assert_eq!(Method::from("CONNECT"), Method::CONNECT);
    assert_eq!(Method::from("OPTIONS"), Method::OPTIONS);
    assert_eq!(Method::from("TRACE"), Method::TRACE);
    assert_eq!(Method::from("PATCH"), Method::PATCH);
}

#[test]
fn method_from_ignores_letter_case() {
    assert_eq!(Method::from("get"), Method::GET);
    assert_eq!(Method::from("Patch"), Method::PATCH);
    assert_eq!(Method::lookup("delete"), Some(Method::DELETE));
}

#[test]
fn method_lookup_rejects_unknown_names() {
    assert_eq!(Method::lookup("INVALID"), None);
    assert_eq!(Method::lookup(""), None);
    assert_eq!(Method::lookup("GETS"), None);
}

#[test]
fn method_from_name_is_exact() {
    assert_eq!(Method::from_name("GET"), Some(Method::GET));
    assert_eq!(Method::from_name("get"), None);
    assert_eq!(Method::from_name("TRACE"), Some(Method::TRACE));
}

#[test]
fn method_names() {
    assert_eq!(Method::GET.as_str(), "GET");
    assert_eq!(Method::OPTIONS.as_str(), "OPTIONS");
}

#[test]
fn version_from_token() {
    assert_eq!(Version::from("HTTP/1.0"), Version::HTTP1_0);
    assert_eq!(Version::from("HTTP/1.1"), Version::HTTP1_1);
    assert_eq!(Version::from("HTTP/2.0"), Version::HTTP2_0);
    assert_eq!(Version::from("HTTP/3"), Version::UNKNOWN);
    assert_eq!(Version::from("http/1.1"), Version::UNKNOWN);
}

#[test]
fn version_text() {
    assert_eq!(Version::HTTP1_0.as_str(), "HTTP/1.0");
    assert_eq!(Version::HTTP1_1.as_str(), "HTTP/1.1");
    assert_eq!(Version::HTTP2_0.as_str(), "HTTP/2.0");
    assert_eq!(Version::UNKNOWN.as_str(), "UNKNOWN");
}

#[test]
fn status_codes_and_reasons() {
    let all = [
        (StatusCode::OK, 200, "OK"),
        (StatusCode::Created, 201, "Created"),
        (StatusCode::Accepted, 202, "Accepted"),
        (StatusCode::NoContent, 204, "No Content"),
        (StatusCode::BadRequest, 400, "Bad Request"),
        (StatusCode::Unauthorized, 401, "Unauthorized"),
        (StatusCode::Forbidden, 403, "Forbidden"),
        (StatusCode::NotFound, 404, "Not Found"),
        (StatusCode::MethodNotAllowed, 405, "Method Not Allowed"),
        (StatusCode::InternalServerError, 500, "Internal Server Error"),
        (StatusCode::NotImplemented, 501, "Not Implemented"),
        (StatusCode::BadGateway, 502, "Bad Gateway"),
        (StatusCode::ServiceUnavailable, 503, "Service Unavailable"),
    ];
    for (status, code, reason) in all {
        assert_eq!(status.code(), code);
        assert_eq!(status.reason_phrase(), reason);
    }
}

#[test]
fn decimal_numerals() {
    assert_eq!(to_decimal(0), "0");
    assert_eq!(to_decimal(7), "7");
    assert_eq!(to_decimal(10), "10");
    assert_eq!(to_decimal(404), "404");
    assert_eq!(to_decimal(1048576), "1048576");
}

#[test]
fn string_map_keeps_first_insertion_order() {
    let mut m = StringMap::new();
    assert_eq!(m.len(), 0);
    m.insert("b".to_string(), "1".to_string());
    m.insert("a".to_string(), "2".to_string());
    m.insert("b".to_string(), "3".to_string());
    assert_eq!(m.len(), 2);
    assert_eq!(m.get("b"), Some(&"3".to_string()));
    assert_eq!(m.get("a"), Some(&"2".to_string()));
    assert_eq!(m.get("c"), None);
    assert!(m.contains_key("a"));
    assert!(!m.contains_key("A"));
    assert_eq!(m.key_at(0), "b");
    assert_eq!(m.value_at(0), "3");
    assert_eq!(m.key_at(1), "a");
    let copy = m.clone();
    assert_eq!(copy.len(), 2);
    assert_eq!(copy.get("b"), Some(&"3".to_string()));
}

#[test]
fn response_with_date_has_server_and_date() {
    let r = Response::with_date(StatusCode::OK, "Tue, 03 Mar 2026 10:00:00 GMT".to_string());
    assert_eq!(r.version, Version::HTTP1_1);
    assert_eq!(r.status_code, StatusCode::OK);
    assert_eq!(r.headers.len(), 2);
    assert_eq!(r.headers.get("Server"), Some(&"RustHTTP/0.1".to_string()));
    assert_eq!(r.headers.get("Date"), Some(&"Tue, 03 Mar 2026 10:00:00 GMT".to_string()));
    assert!(r.body.is_empty());
}

#[test]
fn response_new_is_stamped() {
    let r = Response::new(StatusCode::Created);
    assert_eq!(r.version, Version::HTTP1_1);
    assert_eq!(r.status_code, StatusCode::Created);
    assert_eq!(r.headers.len(), 2);
    assert_eq!(r.headers.get("Server"), Some(&"RustHTTP/0.1".to_string()));
    let date = r.headers.get("Date").unwrap();
    assert_eq!(date.len(), 29);
    assert!(date.ends_with(" GMT"));
    assert_eq!(&date[3..5], ", ");
    assert!(r.body.is_empty());
}

#[test]
fn set_body_recomputes_content_length() {
    let mut r = Response::with_date(StatusCode::OK, "now".to_string());
    r.set_body(b"hello".to_vec());
    assert_eq!(r.body, b"hello".to_vec());
    assert_eq!(r.headers.get("Content-Length"), Some(&"5".to_string()));
    r.set_body(b"hello, world".to_vec());
    assert_eq!(r.headers.get("Content-Length"), Some(&"12".to_string()));
    r.set_body(Vec::new());
    assert_eq!(r.headers.get("Content-Length"), Some(&"0".to_string()));
    assert_eq!(r.headers.len(), 3);
}

#[test]
fn set_content_type_and_header() {
    let mut r = Response::with_date(StatusCode::OK, "now".to_string());
    r.set_content_type("text/html");
    assert_eq!(r.headers.get("Content-Type"), Some(&"text/html".to_string()));
    r.set_content_type("text/plain");
    assert_eq!(r.headers.get("Content-Type"), Some(&"text/plain".to_string()));
    r.set_header("X-Mark", "1");
    assert_eq!(r.headers.get("X-Mark"), Some(&"1".to_string()));
    assert_eq!(r.headers.len(), 4);
}

#[test]
fn to_bytes_exact() {
    let mut r = Response::with_date(StatusCode::NotFound, "Tue, 03 Mar 2026 10:00:00 GMT".to_string());
    r.set_content_type("text/plain");
    r.set_body(b"gone".to_vec());
    let expected = b"HTTP/1.1 404 Not Found\r\nServer: RustHTTP/0.1\r\nDate: Tue, 03 Mar 2026 10:00:00 GMT\r\nContent-Type: text/plain\r\nContent-Length: 4\r\n\r\ngone".to_vec();
    assert_eq!(r.to_bytes(), expected);
}

#[test]
fn to_bytes_keeps_body_bytes_as_they_are() {
    let mut r = Response::with_date(StatusCode::OK, "d".to_string());
    r.set_body(vec![0u8, 255u8, 13u8, 10u8]);
    let bytes = r.to_bytes();
    let expected_head = b"HTTP/1.1 200 OK\r\nServer: RustHTTP/0.1\r\nDate: d\r\nContent-Length: 4\r\n\r\n";
    assert_eq!(&bytes[..expected_head.len()], &expected_head[..]);
    assert_eq!(&bytes[expected_head.len()..], &[0u8, 255u8, 13u8, 10u8][..]);
}

#[test]
fn status_line_round_trip() {
    let all = [
        StatusCode::OK,
        StatusCode::Created,
        StatusCode::Accepted,
        StatusCode::NoContent,
        StatusCode::BadRequest,
        StatusCode::Unauthorized,
        StatusCode::Forbidden,
        StatusCode::NotFound,
        StatusCode::MethodNotAllowed,
        StatusCode::InternalServerError,
        StatusCode::NotImplemented,
        StatusCode::BadGateway,
        StatusCode::ServiceUnavailable,
    ];
    for status in all {
        let mut r = Response::with_date(status, "d".to_string());
        r.set_body(b"0123456789abc".to_vec());
        let bytes = r.to_bytes();
        let text = String::from_utf8(bytes).unwrap();
        let (head, body) = text.split_once("\r\n\r\n").unwrap();
        let mut lines = head.split("\r\n");
        let first = lines.next().unwrap();
        let mut parts = first.splitn(3, ' ');
        assert_eq!(parts.next(), Some("HTTP/1.1"));
        assert_eq!(parts.next().unwrap().parse::<u16>().unwrap(), status.code());
        assert_eq!(parts.next(), Some(status.reason_phrase()));
        let length = lines
            .find_map(|l| l.strip_prefix("Content-Length: "))
            .unwrap()
            .parse::<usize>()
            .unwrap();
        assert_eq!(length, body.len());
        assert_eq!(length, 13);
    }
}

#[test]
fn path_segments() {
    assert_eq!(segments_of("/users/42"), vec!["users".to_string(), "42".to_string()]);
    assert_eq!(segments_of("//a///b/"), vec!["a".to_string(), "b".to_string()]);
    assert_eq!(segments_of(""), Vec::<String>::new());
    assert_eq!(segments_of("/"), Vec::<String>::new());
    assert_eq!(segments_of("a"), vec!["a".to_string()]);
}

#[test]
fn words_split_on_white_space() {
    assert_eq!(
        words_of("  GET \t /x\u{a0}HTTP/1.1 "),
        vec!["GET".to_string(), "/x".to_string(), "HTTP/1.1".to_string()]
    );
    assert_eq!(words_of(""), Vec::<String>::new());
    assert_eq!(words_of(" \r\n"), Vec::<String>::new());
}

#[test]
fn parse_simple_get() {
    let r = parse(b"GET /hello HTTP/1.1\r\nHost: localhost\r\n\r\n").unwrap();
    assert_eq!(r.method, Method::GET);
    assert_eq!(r.path, "/hello");
    assert_eq!(r.version, Version::HTTP1_1);
    assert_eq!(r.headers.len(), 1);
    assert_eq!(r.headers.get("Host"), Some(&"localhost".to_string()));
    assert!(r.body.is_empty());
    assert_eq!(r.params.len(), 0);
    assert_eq!(r.query.len(), 0);
}

#[test]
fn parse_query_string() {
    let r = parse(b"GET /hello?name=World&flag&a=b=c&name=Again HTTP/1.0\r\n\r\n").unwrap();
    assert_eq!(r.path, "/hello");
    assert_eq!(r.version, Version::HTTP1_0);
    assert_eq!(r.query.len(), 3);
    assert_eq!(r.query_param("name"), Some(&"Again".to_string()));
    assert_eq!(r.query_param("flag"), Some(&"".to_string()));
    assert_eq!(r.query_param("a"), Some(&"b=c".to_string()));
    assert_eq!(r.query_param("missing"), None);
    assert_eq!(r.param("name"), None);
}

#[test]
fn parse_empty_query_gives_an_empty_key() {
    let r = parse(b"GET /x? HTTP/1.1\r\n\r\n").unwrap();
    assert_eq!(r.path, "/x");
    assert_eq!(r.query.len(), 1);
    assert_eq!(r.query_param(""), Some(&"".to_string()));
}

#[test]
fn parse_headers_trim_and_last_wins() {
    let raw = b"POST /users HTTP/1.1\r\n  Content-Type :  application/json  \r\nnot a header\r\nX-A: 1\r\nX-A: 2\r\nX-Time: 10:20\r\n\r\n{\"a\":1}";
    let r = parse(raw).unwrap();
    assert_eq!(r.method, Method::POST);
    assert_eq!(r.headers.len(), 3);
    assert_eq!(r.headers.get("Content-Type"), Some(&"application/json".to_string()));
    assert_eq!(r.headers.get("X-A"), Some(&"2".to_string()));
    assert_eq!(r.headers.get("X-Time"), Some(&"10:20".to_string()));
    assert_eq!(r.headers.get("x-a"), None);
    assert_eq!(r.body, b"{\"a\":1}".to_vec());
}

#[test]
fn parse_splits_at_the_first_separator_only() {
    let r = parse(b"PUT /x HTTP/1.1\r\n\r\none\r\n\r\ntwo").unwrap();
    assert_eq!(r.method, Method::PUT);
    assert_eq!(r.body, b"one\r\n\r\ntwo".to_vec());
}

#[test]
fn parse_replaces_invalid_utf8() {
    let r = parse(b"GET /\xff HTTP/1.1\r\n\r\n").unwrap();
    assert_eq!(r.path, "/\u{fffd}");
}

#[test]
fn parse_lower_case_method_and_unknown_version() {
    let r = parse(b"delete /x FTP/9\r\n\r\n").unwrap();
    assert_eq!(r.method, Method::DELETE);
    assert_eq!(r.version, Version::UNKNOWN);
}

#[test]
fn parse_errors() {
    assert_eq!(parse(b"").unwrap_err(), "Invalid request format");
    assert_eq!(parse(b"GET / HTTP/1.1\r\nHost: x\r\n").unwrap_err(), "Invalid request format");
    assert_eq!(parse(b"\r\n\r\n").unwrap_err(), "Missing request line");
    assert_eq!(parse(b"  \r\n\r\n").unwrap_err(), "Missing method");
    assert_eq!(parse(b"GET\r\n\r\n").unwrap_err(), "Missing path");
    assert_eq!(parse(b"GET /\r\n\r\n").unwrap_err(), "Missing HTTP version");
    assert_eq!(parse(b"FETCH / HTTP/1.1\r\n\r\n").unwrap_err(), "Invalid method");
}

#[test]
fn parse_text_matches_parse() {
    let r = parse_text("GET /a/b?x=1 HTTP/2.0\r\nA: b\r\n\r\nhi").unwrap();
    assert_eq!(r.method, Method::GET);
    assert_eq!(r.path, "/a/b");
    assert_eq!(r.version, Version::HTTP2_0);
    assert_eq!(r.query_param("x"), Some(&"1".to_string()));
    assert_eq!(r.headers.get("A"), Some(&"b".to_string()));
    assert_eq!(r.body, b"hi".to_vec());
    assert_eq!(parse_text("GET /").unwrap_err(), "Invalid request format");
}

#[test]
fn request_parse_is_parse() {
    let r = Request::parse(b"GET /x HTTP/1.1\r\n\r\n").unwrap();
    assert_eq!(r.path, "/x");
    assert_eq!(Request::parse(b"GET /x HTTP/1.1").unwrap_err(), "Invalid request format");
}

#[test]
fn request_clone_and_with_params() {
    let r = parse(b"GET /x?q=1 HTTP/1.1\r\nA: b\r\n\r\nbody").unwrap();
    let c = r.clone();
    assert_eq!(c.method, r.method);
    assert_eq!(c.path, r.path);
    assert_eq!(c.body, r.body);
    assert_eq!(c.headers.get("A"), Some(&"b".to_string()));
    let mut params = StringMap::new();
    params.insert("id".to_string(), "42".to_string());
    let routed = r.with_params(params);
    assert_eq!(routed.param("id"), Some(&"42".to_string()));
    assert_eq!(routed.path, "/x");
    assert_eq!(routed.query_param("q"), Some(&"1".to_string()));
    assert_eq!(r.param("id"), None);
}
