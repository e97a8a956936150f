//! Request counters of the HTTP interfaces, kept by the class of each response's status.
use vstd::prelude::*;

verus! {

/// How many requests were seen, and how many were answered with success, a client error or
/// a server error.
#[derive(Debug, Clone, Copy)]
pub struct Counters {
    pub request_counter: u64,
    pub success_counter: u64,
    pub client_error_counter: u64,
    pub server_error_counter: u64,
}

pub open spec fn is_success(status: u16) -> bool {
    200 <= status && status < 300
}

pub open spec fn is_client_error(status: u16) -> bool {
    400 <= status && status < 500
}

pub open spec fn is_server_error(status: u16) -> bool {
    500 <= status && status < 600
}

/// Counts a response under the class of its status: 2xx success, 4xx client error, 5xx
/// server error; other statuses are not counted.
pub fn bump_http_response_counters(status: u16, counters: &mut Counters)
    requires
        old(counters).success_counter < u64::MAX,
        old(counters).client_error_counter < u64::MAX,
        old(counters).server_error_counter < u64::MAX,
    ensures
        final(counters).request_counter == old(counters).request_counter,
        final(counters).server_error_counter == old(counters).server_error_counter + if is_server_error(status) { 1int } else { 0int },
        final(counters).client_error_counter == old(counters).client_error_counter + if is_client_error(status) { 1int } else { 0int },
        final(counters).success_counter == old(counters).success_counter + if is_success(status) { 1int } else { 0int },
{
    if 500 <= status && status < 600 {
        counters.server_error_counter = counters.server_error_counter + 1;
    }
    if 400 <= status && status < 500 {
        counters.client_error_counter = counters.client_error_counter + 1;
    }
    if 200 <= status && status < 300 {
        counters.success_counter = counters.success_counter + 1;
    }
}

/// Counts a request as it comes in or goes out.
pub fn count_request(counters: &mut Counters)
    requires
        old(counters).request_counter < u64::MAX,
    ensures
        final(counters).request_counter == old(counters).request_counter + 1,
        final(counters).success_counter == old(counters).success_counter,
        final(counters).client_error_counter == old(counters).client_error_counter,
        final(counters).server_error_counter == old(counters).server_error_counter,
{
    counters.request_counter = counters.request_counter + 1;
}

/// The status classes are those of HTTP: 200-299 success, 400-499 client error, 500-599
/// server error; no status is in two classes, and 1xx and 3xx are in none.
pub proof fn law_status_classes(status: u16)
    ensures
        is_success(status) <==> 200 <= status <= 299,
        is_client_error(status) <==> 400 <= status <= 499,
        is_server_error(status) <==> 500 <= status <= 599,
        !(is_success(status) && is_client_error(status)),
        !(is_success(status) && is_server_error(status)),
        !(is_client_error(status) && is_server_error(status)),
        status < 200 || (300 <= status <= 399) || status >= 600
            ==> !is_success(status) && !is_client_error(status) && !is_server_error(status),
{
}

} // verus!
