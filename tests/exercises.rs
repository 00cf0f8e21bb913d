use http_mock::auth::{auth_path, is_success, recheck_access};
use http_mock::matcher::{well_formed_json, Matcher, Predicate};
use http_mock::request::{Request, ResponseTemplate};
use http_mock::square::{square, Logger};
use http_mock::table::{MockTable, Rule};

struct TestLogger;

impl Logger for TestLogger {
    fn log(&self, _msg: &str) {}
}

#[test]
fn square_works() {
    assert_eq!(square(2, TestLogger {}), 4);
}

fn test_server() -> MockTable {
    let mut table = MockTable::new();
    table.register_global(Rule::new(well_formed_json(), ResponseTemplate::new(200)));
    table
}

fn post_with(body: &str, headers: &[(&str, &str)]) -> Request {
    let mut req = Request::new("POST", "/");
    for (name, value) in headers {
        req = req.with_header(name, value);
    }
    req.with_body(body.as_bytes().to_vec())
}

#[test]
fn errors_on_invalid_json() {
    let mut server = test_server();
    // Trailing comma is not valid in JSON
    let body = r#"{"hi": 2,"#;
    let length = body.len().to_string();
    let req = post_with(
        body,
        &[("Content-Length", &length), ("Content-Type", "application/json")],
    );
    assert_eq!(server.handle(req).status, 404);
}

#[test]
fn errors_on_missing_content_type() {
    let mut server = test_server();
    let body = serde_json::to_string(&serde_json::Value::from(serde_json::Map::from_iter([(
        "hi".to_string(),
        serde_json::Value::from(2),
    )])))
    .unwrap();
    let length = body.len().to_string();
    let req = post_with(&body, &[("Content-Length", &length)]);
    assert_eq!(server.handle(req).status, 404);
}

#[test]
fn errors_on_invalid_content_length() {
    let mut server = test_server();
    let body = r#"{"hi":2}"#;
    let length = body.len().to_string();
    let req = post_with(body, &[("Content-Length", &length)]);
    assert_eq!(server.handle(req).status, 404);
}

#[test]
fn errors_on_non_post() {
    let mut server = test_server();
    let body = r#"{"hi":2}"#;
    let req = Request::new("PATCH", "/")
        .with_header("content-type", "application/json")
        .with_header("content-length", "8")
        .with_body(body.as_bytes().to_vec());
    assert_eq!(server.handle(req).status, 404);
}

#[test]
fn happy_path() {
    let mut server = test_server();
    let body = r#"{"hi":2}"#;
    let req = Request::new("POST", "/")
        .with_header("content-type", "application/json")
        .with_header("content-length", "8")
        .with_body(body.as_bytes().to_vec());
    assert_eq!(server.handle(req).status, 200);
}

fn auth_rule(caller_id: usize, status: u16) -> Rule {
    let matcher = Matcher::any()
        .and(Predicate::MethodIs(b"GET".to_vec()))
        .and(Predicate::PathIs(auth_path(caller_id)));
    Rule::new(matcher, ResponseTemplate::new(status))
}

fn auth_request(caller_id: usize) -> Request {
    let path = String::from_utf8(auth_path(caller_id)).unwrap();
    Request::new("GET", &path)
}

#[test]
fn permissions_can_be_revoked() {
    let mut server = MockTable::new();
    let caller_id = 1;
    // The repository is built while a scoped rule grants access.
    let guard = server.register_scoped(auth_rule(caller_id, 200));
    let first = server.handle(auth_request(caller_id));
    assert!(is_success(first.status));
    assert_eq!(server.release(guard), Ok(()));

    server.register_global(auth_rule(caller_id, 403));

    let second = server.handle(auth_request(caller_id));
    let outcome = recheck_access(second.status);
    assert_eq!(
        outcome,
        Err("Caller no longer has permissions to use a repository".to_string())
    );
}
