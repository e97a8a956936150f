//! Calls the sidecar makes to the client's own HTTP interface: which request headers can be
//! sent, and how the outcome of a call is reported back to whoever asked for it.
use std::collections::HashMap;
use vstd::prelude::*;
use vstd::string::*;
use crate::frontend::{headers_view, utf8_of};
use crate::structs::{ClientCallStatusCodes, RESTRequestResult, RESTResponseParams};

verus! {

/// The bytes `http`'s header-name table maps to a name character: the token characters of
/// RFC 7230 (upper-case letters are taken as lower case), and the double quote.
pub open spec fn header_name_byte(b: u8) -> bool {
    ||| b == 33 || b == 34
    ||| 35 <= b <= 39
    ||| b == 42 || b == 43 || b == 45 || b == 46
    ||| 48 <= b <= 57
    ||| 65 <= b <= 90
    ||| 94 <= b <= 122
    ||| b == 124 || b == 126
}

/// Whether `http` accepts a text as a header name: its UTF-8 bytes number 1 to 65535, and each
/// is a name byte.
pub open spec fn header_name_valid(name: Seq<char>) -> bool {
    let b = utf8_of(name);
    &&& 1 <= b.len() <= 65535
    &&& forall|i: int| 0 <= i < b.len() ==> header_name_byte(#[trigger] b[i])
}

/// Whether `http` accepts a text as a header value: each of its UTF-8 bytes is a tab, or at
/// least 32 and not 127.
pub open spec fn header_value_valid(value: Seq<char>) -> bool {
    let b = utf8_of(value);
    forall|i: int| 0 <= i < b.len() ==> (#[trigger] b[i] >= 32 && b[i] != 127) || b[i] == 9
}

/// Parses the name's bytes with `http::header::HeaderName::from_bytes` and tells whether it
/// was accepted: by its table of name characters and its length limit.
#[verifier::external_body]
fn header_name_accepted(name: &str) -> (r: bool)
    ensures
        r == header_name_valid(name@),
{
    http::header::HeaderName::from_bytes(name.as_bytes()).is_ok()
}

/// Parses the value's bytes with `http::header::HeaderValue::from_bytes` and tells whether it
/// was accepted: byte by byte.
#[verifier::external_body]
fn header_value_accepted(value: &str) -> (r: bool)
    ensures
        r == header_value_valid(value@),
{
    http::header::HeaderValue::from_bytes(value.as_bytes()).is_ok()
}

pub open spec fn header_accepted(h: (Seq<char>, Seq<char>)) -> bool {
    header_name_valid(h.0) && header_value_valid(h.1)
}

/// The name of the first header, in the order given, whose name or value cannot be sent.
pub open spec fn first_rejected_header(h: Seq<(Seq<char>, Seq<char>)>) -> Option<Seq<char>>
    decreases h.len(),
{
    if h.len() == 0 {
        None
    } else if !header_accepted(h[0]) {
        Some(h[0].0)
    } else {
        first_rejected_header(h.drop_first())
    }
}

/// The first header of a request that cannot be sent, if any; a request with such a header
/// is not sent at all.
pub fn find_rejected_header(headers: &Vec<(String, String)>) -> (r: Option<String>)
    ensures
        match r {
            Some(name) => first_rejected_header(headers_view(headers@)) == Some(name@),
            None => first_rejected_header(headers_view(headers@)) is None,
        },
{
    let ghost hv = headers_view(headers@);
    let mut i: usize = 0;
    assert(hv.subrange(0, hv.len() as int) =~= hv);
    while i < headers.len()
        invariant
            i <= headers@.len(),
            hv == headers_view(headers@),
            hv.len() == headers@.len(),
            first_rejected_header(hv) == first_rejected_header(hv.subrange(i as int, hv.len() as int)),
        decreases headers@.len() - i,
    {
        let ghost rest = hv.subrange(i as int, hv.len() as int);
        assert(rest[0] == hv[i as int]);
        let name_ok = header_name_accepted(headers[i].0.as_str());
        let value_ok = header_value_accepted(headers[i].1.as_str());
        if !(name_ok && value_ok) {
            return Some(headers[i].0.clone());
        }
        assert(rest.drop_first() =~= hv.subrange(i + 1, hv.len() as int));
        i = i + 1;
    }
    None
}

/// Whether `http` parses a text as a URI.
pub uninterp spec fn uri_valid(uri: Seq<char>) -> bool;

/// Parses a text with `http::Uri`'s `FromStr` and tells whether it was accepted. The contract
/// names the outcome; the URI grammar is left unstated.
#[verifier::external_body]
fn uri_accepted(uri: &str) -> (r: bool)
    ensures
        r == uri_valid(uri@),
{
    uri.parse::<http::Uri>().is_ok()
}

/// The result reported when a request's target cannot be parsed as a URI:
/// `Invalid uri {uri}`, with an empty answer.
pub open spec fn invalid_uri_text(uri: Seq<char>) -> Seq<char> {
    "Invalid uri "@ + uri
}

/// Why a request to the client cannot be sent, as the result reported for it: a target that
/// is not a URI, else the first header that cannot be sent; none where it can be sent.
pub fn request_problem(correlation_id: String, uri: &str, headers: &Vec<(String, String)>) -> (r: Option<RESTRequestResult>)
    ensures
        !uri_valid(uri@) ==> (r matches Some(res) && res.correlation_id == correlation_id
            && (res.status matches ClientCallStatusCodes::Error(m) && m@ == invalid_uri_text(uri@))
            && res.response_params.payload@.len() == 0
            && res.response_params.headers@ == Map::<String, String>::empty()
            && res.response_params.status == 0),
        uri_valid(uri@) ==> match first_rejected_header(headers_view(headers@)) {
            Some(name) => r matches Some(res) && res.correlation_id == correlation_id
                && (res.status matches ClientCallStatusCodes::Error(m) && m@ == "Invalid header "@ + name)
                && res.response_params.payload@.len() == 0
                && res.response_params.headers@ == Map::<String, String>::empty()
                && res.response_params.status == 0,
            None => r is None,
        },
{
    if !uri_accepted(uri) {
        let mut msg = String::from_str("Invalid uri ");
        msg.append(uri);
        return Some(RESTRequestResult {
            correlation_id,
            status: ClientCallStatusCodes::Error(msg),
            response_params: RESTResponseParams::default(),
        });
    }
    match find_rejected_header(headers) {
        Some(name) => Some(rejected_header_result(correlation_id, name.as_str())),
        None => None,
    }
}

/// The result reported when a request has a header that cannot be sent:
/// `Invalid header {name}`, with an empty answer.
pub fn rejected_header_result(correlation_id: String, header_name: &str) -> (r: RESTRequestResult)
    ensures
        r.correlation_id == correlation_id,
        r.status matches ClientCallStatusCodes::Error(m) && m@ == "Invalid header "@ + header_name@,
        r.response_params.payload@.len() == 0,
        r.response_params.headers@ == Map::<String, String>::empty(),
        r.response_params.status == 0,
{
    let mut msg = String::from_str("Invalid header ");
    msg.append(header_name);
    RESTRequestResult {
        correlation_id,
        status: ClientCallStatusCodes::Error(msg),
        response_params: RESTResponseParams::default(),
    }
}

/// The result reported for an answer of the client: its status and headers, and its body
/// where that could be read (`Cool`); where it could not, `Something wrong with body` and an
/// empty payload.
pub fn client_answer_result(
    correlation_id: String,
    status: u16,
    headers: HashMap<String, String>,
    body: Option<Vec<u8>>,
) -> (r: RESTRequestResult)
    ensures
        r.correlation_id == correlation_id,
        r.response_params.status == status,
        r.response_params.headers == headers,
        match body {
            Some(b) => r.status matches ClientCallStatusCodes::OK(m) && m@ == "Cool"@
                && r.response_params.payload == b,
            None => r.status matches ClientCallStatusCodes::Error(m) && m@
                == "Something wrong with body"@ && r.response_params.payload@.len() == 0,
        },
{
    match body {
        Some(payload) => RESTRequestResult {
            correlation_id,
            status: ClientCallStatusCodes::OK(String::from_str("Cool")),
            response_params: RESTResponseParams { payload, headers, status },
        },
        None => RESTRequestResult {
            correlation_id,
            status: ClientCallStatusCodes::Error(String::from_str("Something wrong with body")),
            response_params: RESTResponseParams { payload: Vec::new(), headers, status },
        },
    }
}

/// The result reported when the client could not be reached: `Got error {error}`, with an
/// empty answer.
pub fn failed_call_result(correlation_id: String, error: &str) -> (r: RESTRequestResult)
    ensures
        r.correlation_id == correlation_id,
        r.status matches ClientCallStatusCodes::Error(m) && m@ == "Got error "@ + error@,
        r.response_params.payload@.len() == 0,
        r.response_params.headers@ == Map::<String, String>::empty(),
        r.response_params.status == 0,
{
    let mut msg = String::from_str("Got error ");
    msg.append(error);
    RESTRequestResult {
        correlation_id,
        status: ClientCallStatusCodes::Error(msg),
        response_params: RESTResponseParams::default(),
    }
}

} // verus!
