use std::collections::HashMap;
use swir::rest_client::{client_answer_result, failed_call_result, find_rejected_header, rejected_header_result, request_problem};
use swir::structs::ClientCallStatusCodes;

fn pairs(v: &[(&str, &str)]) -> Vec<(String, String)> {
    v.iter().map(|(a, b)| (a.to_string(), b.to_string())).collect()
}

fn status_text(s: &ClientCallStatusCodes) -> String {
    match s {
        ClientCallStatusCodes::OK(m) => format!("OK {}", m),
        ClientCallStatusCodes::Error(m) => format!("Error {}", m),
    }
}

#[test]
fn headers_that_http_accepts_pass() {
    assert_eq!(find_rejected_header(&pairs(&[])), None);
    assert_eq!(find_rejected_header(&pairs(&[("content-type", "application/json"), ("X-Trace", "abc")])), None);
}

#[test]
fn first_unsendable_header_is_reported() {
    let h = pairs(&[("ok", "1"), ("bad name", "2"), ("also bad", "3")]);
    assert_eq!(find_rejected_header(&h), Some("bad name".to_string()));
    let h = pairs(&[("ok", "1"), ("line", "a\nb")]);
    assert_eq!(find_rejected_header(&h), Some("line".to_string()));
}

#[test]
fn call_outcomes_become_results() {
    let r = rejected_header_result("c1".to_string(), "bad name");
    assert_eq!(r.correlation_id, "c1");
    assert_eq!(status_text(&r.status), "Error Invalid header bad name");
    assert_eq!((r.response_params.status, r.response_params.payload.len(), r.response_params.headers.len()), (0, 0, 0));

    let mut headers = HashMap::new();
    headers.insert("content-type".to_string(), "text/plain".to_string());
    let r = client_answer_result("c2".to_string(), 201, headers.clone(), Some(b"hi".to_vec()));
    assert_eq!(status_text(&r.status), "OK Cool");
    assert_eq!((r.response_params.status, r.response_params.payload.clone()), (201, b"hi".to_vec()));
    assert_eq!(r.response_params.headers, headers);

    let r = client_answer_result("c3".to_string(), 502, HashMap::new(), None);
    assert_eq!(status_text(&r.status), "Error Something wrong with body");
    assert_eq!((r.response_params.status, r.response_params.payload.len()), (502, 0));

    let r = failed_call_result("c4".to_string(), "Err(connection refused)");
    assert_eq!(status_text(&r.status), "Error Got error Err(connection refused)");
}

#[test]
fn requests_with_a_bad_target_or_header_are_not_sent() {
    let ok = pairs(&[("x-a", "1")]);
    assert!(request_problem("c".to_string(), "http://localhost:8090/orders/7", &ok).is_none());
    let r = request_problem("c1".to_string(), "http://exa mple/x", &ok).expect("refused");
    assert_eq!(r.correlation_id, "c1");
    assert_eq!(status_text(&r.status), "Error Invalid uri http://exa mple/x");
    assert_eq!((r.response_params.status, r.response_params.payload.len()), (0, 0));
    let bad = pairs(&[("x-a", "1"), ("bad name", "2")]);
    let r = request_problem("c2".to_string(), "http://localhost/x", &bad).expect("refused");
    assert_eq!(status_text(&r.status), "Error Invalid header bad name");
    // the target is checked before the headers
    let r = request_problem("c3".to_string(), "http://exa mple/x", &bad).expect("refused");
    assert_eq!(status_text(&r.status), "Error Invalid uri http://exa mple/x");
}

#[test]
fn header_bytes_follow_the_http_tables() {
    assert_eq!(find_rejected_header(&pairs(&[("x\"quoted", "v"), ("tab", "a\tb"), ("utf8", "é")])), None);
    assert_eq!(find_rejected_header(&pairs(&[("", "v")])), Some("".to_string()));
    assert_eq!(find_rejected_header(&pairs(&[("del", "a\u{7f}")])), Some("del".to_string()));
    assert_eq!(find_rejected_header(&pairs(&[("x[y]", "v")])), Some("x[y]".to_string()));
    let long = "a".repeat(65536);
    assert_eq!(find_rejected_header(&pairs(&[(long.as_str(), "v")])), Some(long.clone()));
    let longest = "a".repeat(65535);
    assert_eq!(find_rejected_header(&pairs(&[(longest.as_str(), "v")])), None);
}
