use httpd_core::http::parser::parse;
use httpd_core::http::{Method, Request, Response, StatusCode, Version};
use httpd_core::router::{not_found_response, Router};
use httpd_core::service::{Readiness, Service};

type Handler = fn(Request) -> Result<Response, String>;

fn text(status: StatusCode, body: &str) -> Response {
    let mut r = Response::with_date(status, "d".to_string());
    r.set_body(body.as_bytes().to_vec());
    r
}

fn first(_request: Request) -> Result<Response, String> {
    Ok(text(StatusCode::OK, "first"))
}

fn second(_request: Request) -> Result<Response, String> {
    Ok(text(StatusCode::OK, "second"))
}

fn failing(_request: Request) -> Result<Response, String> {
    Err("boom".to_string())
}

fn show_id(request: Request) -> Result<Response, String> {
    let id = request.param("id").ok_or("Missing user ID")?;
    Ok(text(StatusCode::OK, &format!("id={} params={}", id, request.params.len())))
}

fn custom_not_found(request: Request) -> Result<Response, String> {
    Ok(text(StatusCode::NotFound, &format!("no {} ({})", request.path, request.params.len())))
}

fn request(raw: &str) -> Request {
    parse(raw.as_bytes()).unwrap()
}

fn get(path: &str) -> Request {
    request(&format!("GET {} HTTP/1.1\r\n\r\n", path))
}

#[test]
fn first_registered_route_wins() {
    let router = Router::<Handler>::new().get("/x", first).get("/x", second);
    let response = router.handle(get("/x")).unwrap();
    assert_eq!(response.body, b"first".to_vec());
    let other = Router::<Handler>::new().get("/x", second).get("/x", first);
    assert_eq!(other.handle(get("/x")).unwrap().body, b"second".to_vec());
}

#[test]
fn first_match_not_best_match() {
    let router = Router::<Handler>::new().get("/:any", first).get("/exact", second);
    assert_eq!(router.handle(get("/exact")).unwrap().body, b"first".to_vec());
}

#[test]
fn failure_of_the_first_match_is_the_result() {
    let router = Router::<Handler>::new().get("/x", failing).get("/x", second);
    assert_eq!(router.handle(get("/x")).unwrap_err(), "boom");
}

#[test]
fn method_filter_excludes_other_methods() {
    let router = Router::<Handler>::new().post("/x", first).get("/x", second);
    assert_eq!(router.handle(get("/x")).unwrap().body, b"second".to_vec());
    let posted = request("POST /x HTTP/1.1\r\n\r\n");
    assert_eq!(router.handle(posted).unwrap().body, b"first".to_vec());
    let put = request("PUT /x HTTP/1.1\r\n\r\n");
    assert_eq!(router.handle(put).unwrap().status_code, StatusCode::NotFound);
}

#[test]
fn route_without_filter_takes_every_method() {
    let router = Router::<Handler>::new().route("/x", None, first);
    for method in ["GET", "POST", "PUT", "DELETE", "HEAD", "CONNECT", "OPTIONS", "TRACE", "PATCH"] {
        let r = request(&format!("{} /x HTTP/1.1\r\n\r\n", method));
        assert_eq!(router.handle(r).unwrap().body, b"first".to_vec());
    }
}

#[test]
fn route_with_filter() {
    let router = Router::<Handler>::new().route("/x", Some(Method::DELETE), first);
    assert_eq!(router.handle(get("/x")).unwrap().status_code, StatusCode::NotFound);
    let r = request("DELETE /x HTTP/1.1\r\n\r\n");
    assert_eq!(router.handle(r).unwrap().body, b"first".to_vec());
}

#[test]
fn captured_params_replace_the_old_ones() {
    let router = Router::<Handler>::new().get("/users/:id", show_id);
    let mut r = get("/users/42");
    r.params.insert("stale".to_string(), "x".to_string());
    let response = router.handle(r).unwrap();
    assert_eq!(response.body, b"id=42 params=1".to_vec());
}

#[test]
fn resolve_gives_index_and_params() {
    let router = Router::<Handler>::new().get("/a", first).get("/users/:id", show_id);
    let (i, params) = router.resolve(&get("/users/7")).unwrap();
    assert_eq!(i, 1);
    assert_eq!(params.get("id"), Some(&"7".to_string()));
    assert!(router.resolve(&get("/nothing")).is_none());
    assert!(router.resolve(&request("POST /a HTTP/1.1\r\n\r\n")).is_none());
}

#[test]
fn default_not_found_is_stable() {
    let router = Router::<Handler>::new().get("/x", first);
    for _ in 0..3 {
        let response = router.handle(get("/unregistered")).unwrap();
        assert_eq!(response.status_code, StatusCode::NotFound);
        assert_eq!(response.version, Version::HTTP1_1);
        assert_eq!(response.headers.get("Content-Type"), Some(&"text/html".to_string()));
        assert_eq!(
            response.body,
            b"<html><body><h1>404 - Not Found</h1></body></html>".to_vec()
        );
        assert_eq!(response.headers.get("Content-Length"), Some(&"50".to_string()));
        assert_eq!(response.headers.get("Server"), Some(&"RustHTTP/0.1".to_string()));
        assert_eq!(response.headers.len(), 4);
    }
}

#[test]
fn not_found_response_is_the_default_page() {
    let response = not_found_response();
    assert_eq!(response.status_code, StatusCode::NotFound);
    assert_eq!(response.body.len(), 50);
}

#[test]
fn configured_not_found_gets_the_request_as_it_came() {
    let router =
        Router::<Handler>::new().get("/x", first).set_not_found_handler(custom_not_found);
    let mut r = get("/nowhere");
    r.params.insert("kept".to_string(), "1".to_string());
    let response = router.handle(r).unwrap();
    assert_eq!(response.status_code, StatusCode::NotFound);
    assert_eq!(response.body, b"no /nowhere (1)".to_vec());
}

#[test]
fn path_is_matched_without_the_query() {
    let router = Router::<Handler>::new().get("/users/:id", show_id);
    let response = router.handle(get("/users/5?x=1")).unwrap();
    assert_eq!(response.body, b"id=5 params=1".to_vec());
}

#[test]
fn registration_leaves_the_order() {
    let router = Router::<Handler>::new().get("/a", first).post("/b", second);
    assert_eq!(router.len(), 2);
    assert_eq!(router.method_at(0), Some(Method::GET));
    assert_eq!(router.method_at(1), Some(Method::POST));
    assert!(!router.has_not_found_handler());
    let with_fallback = router.clone().set_not_found_handler(custom_not_found);
    assert!(with_fallback.has_not_found_handler());
    assert_eq!(with_fallback.len(), 2);
    let empty = Router::<Handler>::default();
    assert_eq!(empty.len(), 0);
}

#[test]
fn clone_shares_routes_and_handlers() {
    let router =
        Router::<Handler>::new().get("/x", first).set_not_found_handler(custom_not_found);
    let copy = router.clone();
    assert_eq!(copy.len(), 1);
    assert_eq!(copy.handle(get("/x")).unwrap().body, b"first".to_vec());
    assert_eq!(copy.handle(get("/y")).unwrap().body, b"no /y (0)".to_vec());
    assert_eq!(router.handle(get("/x")).unwrap().body, b"first".to_vec());
}

#[test]
fn router_is_a_service() {
    let mut router = Router::<Handler>::new().get("/x", first);
    let mut journal = Vec::new();
    assert!(matches!(router.poll_ready(), Readiness::Ready(Ok(()))));
    let response = router.call(get("/x"), &mut journal).unwrap();
    assert_eq!(response.body, b"first".to_vec());
    assert!(journal.is_empty());
}
