use http_mock::auth::{auth_path, is_success, recheck_access};
use http_mock::bytes::format_decimal;
use http_mock::matcher::{well_formed_json, Matcher, Predicate};
use http_mock::request::{Request, ResponseTemplate, NOT_FOUND};
use http_mock::table::{Expectation, MockTable, Rule, RuleId, Violation};

fn get(path: &str) -> Request {
    Request::new("GET", path)
}

fn path_rule(path: &str, status: u16) -> Rule {
    Rule::new(
        Matcher::any().and(Predicate::PathIs(path.as_bytes().to_vec())),
        ResponseTemplate::new(status),
    )
}

fn json_post(body: &str, length: &str) -> Request {
    Request::new("POST", "/items")
        .with_header("Content-Type", "application/json")
        .with_header("Content-Length", length)
        .with_body(body.as_bytes().to_vec())
}

#[test]
fn unmatched_request_gets_fallback_and_is_logged_once() {
    let mut table = MockTable::new();
    table.register_global(path_rule("/a", 200));
    let resp = table.handle(get("/b"));
    assert_eq!(resp.status, NOT_FOUND);
    assert_eq!(resp.status, 404);
    assert!(resp.body.is_empty());
    assert!(resp.headers.is_empty());
    let log = table.unmatched_requests();
    assert_eq!(log.len(), 1);
    assert_eq!(log[0].path, b"/b".to_vec());
}

#[test]
fn empty_table_answers_fallback() {
    let mut table = MockTable::new();
    assert_eq!(table.handle(get("/")).status, 404);
    assert_eq!(table.unmatched_requests().len(), 1);
    assert_eq!(table.verify_expectations(), Ok(()));
}

#[test]
fn scoped_rule_shadows_global_rule() {
    let mut table = MockTable::new();
    let g = table.register_global(path_rule("/x", 200));
    let guard = table.register_scoped(path_rule("/x", 403));
    assert_eq!(table.handle(get("/x")).status, 403);
    assert_eq!(table.handle(get("/x")).status, 403);
    assert_eq!(table.call_count(guard.id()), Some(2));
    assert_eq!(table.call_count(g), Some(0));
}

#[test]
fn most_recent_rule_wins_within_partition() {
    let mut table = MockTable::new();
    table.register_global(Rule::new(Matcher::any(), ResponseTemplate::new(200)));
    table.register_global(path_rule("/special", 201));
    assert_eq!(table.handle(get("/special")).status, 201);
    assert_eq!(table.handle(get("/other")).status, 200);
}

#[test]
fn release_removes_only_its_rule() {
    let mut table = MockTable::new();
    let g = table.register_global(path_rule("/x", 200));
    let before = table.register_scoped(path_rule("/y", 201));
    let middle = table.register_scoped(path_rule("/x", 403));
    let after = table.register_scoped(path_rule("/z", 202));
    assert_eq!(table.handle(get("/x")).status, 403);
    assert_eq!(table.handle(get("/y")).status, 201);
    let middle_id = middle.id();
    assert_eq!(table.release(middle), Ok(()));
    assert_eq!(table.call_count(middle_id), None);
    assert_eq!(table.handle(get("/x")).status, 200);
    assert_eq!(table.handle(get("/y")).status, 201);
    assert_eq!(table.handle(get("/z")).status, 202);
    assert_eq!(table.call_count(before.id()), Some(2));
    assert_eq!(table.call_count(after.id()), Some(1));
    assert_eq!(table.call_count(g), Some(1));
    assert_eq!(table.release(after), Ok(()));
    assert_eq!(table.release(before), Ok(()));
    assert_eq!(table.handle(get("/y")).status, 404);
}

#[test]
fn release_reports_unmet_expectation() {
    let mut table = MockTable::new();
    let guard = table.register_scoped(path_rule("/x", 200).times(2));
    let id = guard.id();
    table.handle(get("/x"));
    assert_eq!(
        table.release(guard),
        Err(Violation { rule: id, observed: 1, expected: Expectation { min: 2, max: 2 } })
    );
}

#[test]
fn exact_expectation_met_after_n_calls() {
    let mut table = MockTable::new();
    let id = table.register_global(path_rule("/x", 200).times(3));
    for _ in 0..3 {
        table.handle(get("/x"));
    }
    assert_eq!(table.call_count(id), Some(3));
    assert_eq!(table.verify_expectations(), Ok(()));
}

#[test]
fn exact_expectation_violated_after_n_plus_one_calls() {
    let mut table = MockTable::new();
    let id = table.register_global(path_rule("/x", 200).times(3));
    for _ in 0..4 {
        table.handle(get("/x"));
    }
    assert_eq!(
        table.verify_expectations(),
        Err(vec![Violation { rule: id, observed: 4, expected: Expectation::exactly(3) }])
    );
}

#[test]
fn exact_expectation_violated_after_n_minus_one_calls() {
    let mut table = MockTable::new();
    let id = table.register_global(path_rule("/x", 200).times(3));
    for _ in 0..2 {
        table.handle(get("/x"));
    }
    assert_eq!(
        table.verify_expectations(),
        Err(vec![Violation { rule: id, observed: 2, expected: Expectation::exactly(3) }])
    );
}

#[test]
fn verification_aggregates_all_violations() {
    let mut table = MockTable::new();
    let a = table.register_global(path_rule("/a", 200).times(1));
    let b = table.register_global(path_rule("/b", 200).expect(1, 5));
    let s = table.register_scoped(path_rule("/c", 200).expect(2, 3));
    table.handle(get("/a"));
    table.handle(get("/a"));
    assert_eq!(
        table.verify_expectations(),
        Err(vec![
            Violation { rule: s.id(), observed: 0, expected: Expectation { min: 2, max: 3 } },
            Violation { rule: a, observed: 2, expected: Expectation { min: 1, max: 1 } },
            Violation { rule: b, observed: 0, expected: Expectation { min: 1, max: 5 } },
        ])
    );
}

#[test]
fn content_length_must_match_received_body() {
    let p = Predicate::HeaderIsBodyLength(b"Content-Length".to_vec());
    let body = r#"{"a":1}"#;
    assert!(p.evaluate(&json_post(body, "7")));
    assert!(!p.evaluate(&json_post(body, "6")));
    assert!(!p.evaluate(&json_post(body, "07")));
    assert!(!p.evaluate(&Request::new("POST", "/").with_body(body.as_bytes().to_vec())));
}

#[test]
fn json_post_rejects_each_failure() {
    let mut table = MockTable::new();
    table.register_global(Rule::new(well_formed_json(), ResponseTemplate::new(201)));
    let body = r#"{"a":1}"#;
    assert_eq!(table.handle(json_post(body, "7")).status, 201);
    let put = Request::new("PUT", "/items")
        .with_header("Content-Type", "application/json")
        .with_header("Content-Length", "7")
        .with_body(body.as_bytes().to_vec());
    assert_eq!(table.handle(put).status, 404);
    let text = Request::new("POST", "/items")
        .with_header("Content-Type", "text/plain")
        .with_header("Content-Length", "7")
        .with_body(body.as_bytes().to_vec());
    assert_eq!(table.handle(text).status, 404);
    assert_eq!(table.handle(json_post(r#"{"a":1,}"#, "8")).status, 404);
    assert_eq!(table.handle(json_post(body, "8")).status, 404);
    assert_eq!(table.unmatched_requests().len(), 4);
}

#[test]
fn hundred_requests_counted_exactly() {
    let mut table = MockTable::new();
    let id = table.register_global(
        Rule::new(Matcher::any(), ResponseTemplate::new(200).with_body(b"ok".to_vec())),
    );
    for _ in 0..100 {
        let resp = table.handle(get("/anything"));
        assert_eq!(resp.status, 200);
        assert_eq!(resp.body, b"ok".to_vec());
    }
    assert_eq!(table.call_count(id), Some(100));
    assert!(table.unmatched_requests().is_empty());
}

#[test]
fn header_names_ignore_case_values_do_not() {
    let p = Predicate::HeaderIs(b"X-Token".to_vec(), b"Abc".to_vec());
    assert!(p.evaluate(&get("/").with_header("x-token", "Abc")));
    assert!(!p.evaluate(&get("/").with_header("x-token", "abc")));
    assert!(!p.evaluate(&get("/").with_header("x-tokens", "Abc")));
}

#[test]
fn path_is_matched_without_decoding() {
    let p = Predicate::PathIs(b"/a%20b".to_vec());
    assert!(p.evaluate(&get("/a%20b")));
    assert!(!p.evaluate(&get("/a b")));
}

#[test]
fn body_json_check_parses() {
    let p = Predicate::BodyIsJson;
    assert!(p.evaluate(&get("/").with_body(b"[1, 2]".to_vec())));
    assert!(!p.evaluate(&get("/").with_body(b"[1, 2".to_vec())));
    assert!(!p.evaluate(&get("/")));
    assert!(p.evaluate_given(&get("/"), true));
}

#[test]
fn body_equality() {
    let p = Predicate::BodyIs(b"xyz".to_vec());
    assert!(p.evaluate(&get("/").with_body(b"xyz".to_vec())));
    assert!(!p.evaluate(&get("/").with_body(b"xy".to_vec())));
}

#[test]
fn matcher_given_json_flag() {
    let m = well_formed_json();
    let req = json_post("not json", "8");
    assert!(m.matches_given(&req, true));
    assert!(!m.matches_given(&req, false));
    assert!(!m.matches(&req));
}

#[test]
fn response_headers_and_body_are_returned() {
    let mut table = MockTable::new();
    table.register_global(Rule::new(
        Matcher::any(),
        ResponseTemplate::new(202).with_header("X-Mode", "mock").with_body(b"done".to_vec()),
    ));
    let resp = table.handle(get("/"));
    assert_eq!(resp.status, 202);
    assert_eq!(resp.headers.len(), 1);
    assert_eq!(resp.headers[0].name, b"X-Mode".to_vec());
    assert_eq!(resp.headers[0].value, b"mock".to_vec());
    assert_eq!(resp.body, b"done".to_vec());
}

#[test]
fn deregister_removes_global_rule() {
    let mut table = MockTable::new();
    let id = table.register_global(path_rule("/x", 200));
    assert!(table.deregister(id));
    assert!(!table.deregister(id));
    assert_eq!(table.handle(get("/x")).status, 404);
    assert!(!table.deregister(RuleId(99)));
}

#[test]
fn handle_given_uses_supplied_flag() {
    let mut table = MockTable::new();
    table.register_global(Rule::new(Matcher::any().and(Predicate::BodyIsJson), ResponseTemplate::new(200)));
    assert_eq!(table.handle_given(get("/"), true).status, 200);
    assert_eq!(table.handle_given(get("/"), false).status, 404);
}

#[test]
fn decimal_formatting() {
    assert_eq!(format_decimal(0), b"0".to_vec());
    assert_eq!(format_decimal(9), b"9".to_vec());
    assert_eq!(format_decimal(10), b"10".to_vec());
    assert_eq!(format_decimal(12345), b"12345".to_vec());
    assert_eq!(format_decimal(u64::MAX), u64::MAX.to_string().into_bytes());
}

#[test]
fn auth_path_and_status_class() {
    assert_eq!(auth_path(1), b"/auth/1".to_vec());
    assert_eq!(auth_path(407), b"/auth/407".to_vec());
    assert!(is_success(200));
    assert!(is_success(299));
    assert!(!is_success(199));
    assert!(!is_success(300));
    assert!(!is_success(403));
    assert_eq!(recheck_access(204), Ok(()));
    assert!(recheck_access(500).is_err());
}

#[test]
fn registration_room() {
    let table = MockTable::new();
    assert!(table.can_register());
}

#[test]
fn json_post_rejects_second_content_type_line() {
    let m = well_formed_json();
    let body = r#"{"a":1}"#;
    let req = json_post(body, "7").with_header("Content-Type", "text/plain");
    assert!(!m.matches(&req));
    assert!(m.matches(&json_post(body, "7")));
}

#[test]
fn json_post_rejects_conflicting_content_lengths() {
    let mut table = MockTable::new();
    table.register_global(Rule::new(well_formed_json(), ResponseTemplate::new(201)));
    let body = r#"{"a":1}"#;
    let req = json_post(body, "7").with_header("Content-Length", "9");
    assert_eq!(table.handle(req).status, 404);
}

#[test]
fn header_values_split_at_commas_and_trimmed() {
    let p = Predicate::HeaderIs(b"Accept".to_vec(), b"text/html".to_vec());
    assert!(p.evaluate(&get("/").with_header("accept", "  text/html\t")));
    assert!(!p.evaluate(&get("/").with_header("accept", "text/html, text/plain")));
    assert!(!p.evaluate(&get("/").with_header("accept", "text/html,")));
    assert!(!p.evaluate(&get("/")));
    let list = Request::new("GET", "/")
        .with_header("Accept", "a, b")
        .with_header("X-Other", "c")
        .with_header("ACCEPT", " c ");
    let values = http_mock::matcher::values_of_header(&list, &b"accept".to_vec());
    assert_eq!(values, vec![b"a".to_vec(), b"b".to_vec(), b"c".to_vec()]);
}

#[test]
fn header_with_invisible_bytes_is_skipped() {
    let p = Predicate::HeaderIs(b"X-Id".to_vec(), b"1".to_vec());
    let mut req = get("/").with_header("X-Id", "1");
    req.headers.push(http_mock::request::Header { name: b"X-Id".to_vec(), value: vec![0xff] });
    assert!(p.evaluate(&req));
}

#[test]
fn square_logs_its_line() {
    assert_eq!(http_mock::square::square_line(2, 4), "2^2 == 4");
    assert_eq!(http_mock::square::square_line(-12, 144), "-12^2 == 144");
    assert_eq!(http_mock::square::square_line(0, 0), "0^2 == 0");
}
