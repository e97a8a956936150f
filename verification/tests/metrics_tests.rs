use swir::metrics::{bump_http_response_counters, Counters};

fn zero() -> Counters {
    Counters { request_counter: 0, success_counter: 0, client_error_counter: 0, server_error_counter: 0 }
}

fn counts(c: &Counters) -> (u64, u64, u64, u64) {
    (c.request_counter, c.success_counter, c.client_error_counter, c.server_error_counter)
}

#[test]
fn statuses_are_counted_by_class() {
    let mut c = zero();
    bump_http_response_counters(200, &mut c);
    bump_http_response_counters(299, &mut c);
    bump_http_response_counters(404, &mut c);
    bump_http_response_counters(500, &mut c);
    bump_http_response_counters(599, &mut c);
    assert_eq!(counts(&c), (0, 2, 1, 2));
}

#[test]
fn other_statuses_are_not_counted() {
    let mut c = zero();
    bump_http_response_counters(100, &mut c);
    bump_http_response_counters(302, &mut c);
    bump_http_response_counters(399, &mut c);
    bump_http_response_counters(600, &mut c);
    assert_eq!(counts(&c), (0, 0, 0, 0));
}

#[test]
fn requests_are_counted_apart_from_responses() {
    let mut c = zero();
    swir::metrics::count_request(&mut c);
    swir::metrics::count_request(&mut c);
    bump_http_response_counters(200, &mut c);
    assert_eq!(counts(&c), (2, 1, 0, 0));
}
