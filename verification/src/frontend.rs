//! The decisions of the client HTTP interface: which operation a request asks for, which job
//! it becomes and on which channel, and how a backend's answer becomes an HTTP response.
use std::collections::HashMap;
use vstd::prelude::*;
use vstd::string::*;
use crate::channels::{
    BrokerChannel, DatabaseRoute, StoreChannel, TopicRoute, database_routes_view, find_channel_by_database_name,
    find_channel_by_topic, last_route, topic_routes_view,
};
use crate::structs::{
    BackendStatusCodes, ClientSubscribeRequest, CustomerInterfaceType, DeleteRequest, EndpointDesc,
    HttpMethod, Job, MessagingResult, PersistenceJobType, PersistenceResult, PublishRequest,
    RetrieveRequest, SIJobType, SIResult, ServiceInvokeRequest, StoreRequest, SubscribeRequest,
    http_method_of, backend_status_text,
};
use crate::subscriptions::copy_bytes;
use crate::text::str_eq;

verus! {

pub const STATUS_OK: u16 = 200;
pub const STATUS_BAD_REQUEST: u16 = 400;
pub const STATUS_NOT_FOUND: u16 = 404;
pub const STATUS_NOT_ACCEPTABLE: u16 = 406;
pub const STATUS_INTERNAL_SERVER_ERROR: u16 = 500;

/// An HTTP response: status code and body.
#[derive(Debug)]
pub struct HttpReply {
    pub status: u16,
    pub body: Vec<u8>,
}

/// The bytes of a text, as UTF-8.
pub open spec fn utf8_of(s: Seq<char>) -> Seq<u8> {
    vstd::utf8::encode_utf8(s)
}

fn text_bytes(s: &str) -> (r: Vec<u8>)
    ensures
        r@ == utf8_of(s@),
{
    s.as_bytes_vec()
}

/// A response with a status and no body.
pub fn empty_reply(status: u16) -> (r: HttpReply)
    ensures
        r.status == status,
        r.body@.len() == 0,
{
    HttpReply { status, body: Vec::new() }
}

/// The HTTP status a backend status is reported with.
pub open spec fn status_code_of(s: BackendStatusCodes) -> u16 {
    match s {
        BackendStatusCodes::OK(_) => STATUS_OK,
        BackendStatusCodes::Error(_) => STATUS_INTERNAL_SERVER_ERROR,
        BackendStatusCodes::NoTopic(_) => STATUS_INTERNAL_SERVER_ERROR,
        BackendStatusCodes::NoService(_) => STATUS_NOT_FOUND,
    }
}

/// The message a backend status carries.
pub open spec fn status_message_of(s: BackendStatusCodes) -> Seq<char> {
    match s {
        BackendStatusCodes::OK(m) => m@,
        BackendStatusCodes::Error(m) => m@,
        BackendStatusCodes::NoTopic(m) => m@,
        BackendStatusCodes::NoService(m) => m@,
    }
}

/// The response for a backend status: 200 for success, 404 where no service is known, 500
/// otherwise; the status's message is the body.
pub fn set_http_response(backend_status: BackendStatusCodes) -> (r: HttpReply)
    ensures
        r.status == status_code_of(backend_status),
        r.body@ == utf8_of(status_message_of(backend_status)),
{
    match backend_status {
        BackendStatusCodes::OK(msg) => HttpReply { status: STATUS_OK, body: text_bytes(msg.as_str()) },
        BackendStatusCodes::Error(msg) => HttpReply {
            status: STATUS_INTERNAL_SERVER_ERROR,
            body: text_bytes(msg.as_str()),
        },
        BackendStatusCodes::NoTopic(msg) => HttpReply {
            status: STATUS_INTERNAL_SERVER_ERROR,
            body: text_bytes(msg.as_str()),
        },
        BackendStatusCodes::NoService(msg) => HttpReply {
            status: STATUS_NOT_FOUND,
            body: text_bytes(msg.as_str()),
        },
    }
}

/// Request headers as (lower-case name, value) pairs, in the order they arrived.
pub open spec fn headers_view(h: Seq<(String, String)>) -> Seq<(Seq<char>, Seq<char>)> {
    h.map_values(|p: (String, String)| (p.0@, p.1@))
}

/// The first value given for a header.
pub open spec fn first_header(h: Seq<(Seq<char>, Seq<char>)>, name: Seq<char>) -> Option<Seq<char>>
    decreases h.len(),
{
    if h.len() == 0 {
        None
    } else if h[0].0 == name {
        Some(h[0].1)
    } else {
        first_header(h.drop_first(), name)
    }
}

proof fn lemma_first_header_found(h: Seq<(Seq<char>, Seq<char>)>, name: Seq<char>, i: int)
    requires
        0 <= i < h.len(),
        h[i].0 == name,
        forall|j: int| 0 <= j < i ==> h[j].0 != name,
    ensures
        first_header(h, name) == Some(h[i].1),
    decreases h.len(),
{
    if i > 0 {
        assert forall|j: int| 0 <= j < i - 1 implies h.drop_first()[j].0 != name by {
            assert(h.drop_first()[j] == h[j + 1]);
        }
        lemma_first_header_found(h.drop_first(), name, i - 1);
    }
}

proof fn lemma_first_header_absent(h: Seq<(Seq<char>, Seq<char>)>, name: Seq<char>)
    requires
        forall|j: int| 0 <= j < h.len() ==> h[j].0 != name,
    ensures
        first_header(h, name) is None,
    decreases h.len(),
{
    if h.len() > 0 {
        assert forall|j: int| 0 <= j < h.len() - 1 implies h.drop_first()[j].0 != name by {
            assert(h.drop_first()[j] == h[j + 1]);
        }
        lemma_first_header_absent(h.drop_first(), name);
    }
}

/// The value of a header, as a header map gives the first one.
pub fn extract_value_from_headers(header_name: &str, headers: &Vec<(String, String)>) -> (r: Option<String>)
    ensures
        match r {
            Some(v) => first_header(headers_view(headers@), header_name@) == Some(v@),
            None => first_header(headers_view(headers@), header_name@) is None,
        },
{
    let ghost hv = headers_view(headers@);
    let mut i: usize = 0;
    while i < headers.len()
        invariant
            i <= headers@.len(),
            hv == headers_view(headers@),
            forall|j: int| 0 <= j < i ==> hv[j].0 != header_name@,
        decreases headers@.len() - i,
    {
        if str_eq(headers[i].0.as_str(), header_name) {
            proof { lemma_first_header_found(hv, header_name@, i as int); }
            return Some(headers[i].1.clone());
        }
        i = i + 1;
    }
    proof { lemma_first_header_absent(hv, header_name@); }
    None
}

/// Whether the request declares a JSON body: `Some(true)` for `application/json`, `None`
/// otherwise.
pub fn validate_content_type(headers: &Vec<(String, String)>) -> (r: Option<bool>)
    ensures
        r == if first_header(headers_view(headers@), "content-type"@) == Some("application/json"@) {
            Some(true)
        } else {
            None
        },
{
    match extract_value_from_headers("content-type", headers) {
        Some(v) => {
            if str_eq(v.as_str(), "application/json") {
                Some(true)
            } else {
                None
            }
        },
        None => None,
    }
}

/// The operations of the client HTTP interface.
#[derive(Debug, PartialEq, Eq, Copy, Clone, Structural)]
pub enum Route {
    Publish,
    Subscribe,
    Unsubscribe,
    Store,
    Retrieve,
    Delete,
    Invoke,
    NotFound,
}

pub open spec fn invoke_prefix() -> Seq<char> {
    "/serviceinvocation/invoke/"@
}

/// The operation a method and path ask for; every operation is a POST.
pub open spec fn route_of(method: Seq<char>, path: Seq<char>) -> Route {
    if method != "POST"@ {
        Route::NotFound
    } else if path == "/pubsub/publish"@ {
        Route::Publish
    } else if path == "/pubsub/subscribe"@ {
        Route::Subscribe
    } else if path == "/pubsub/unsubscribe"@ {
        Route::Unsubscribe
    } else if path == "/persistence/store"@ {
        Route::Store
    } else if path == "/persistence/retrieve"@ {
        Route::Retrieve
    } else if path == "/persistence/delete"@ {
        Route::Delete
    } else if invoke_prefix().is_prefix_of(path) {
        Route::Invoke
    } else {
        Route::NotFound
    }
}

/// Whether `s` begins with `prefix`.
pub fn starts_with(s: &str, prefix: &str) -> (r: bool)
    ensures
        r == prefix@.is_prefix_of(s@),
{
    let n = prefix.unicode_len();
    if n > s.unicode_len() {
        return false;
    }
    let mut i: usize = 0;
    while i < n
        invariant
            n == prefix@.len(),
            n <= s@.len(),
            i <= n,
            forall|j: int| 0 <= j < i ==> prefix@[j] == s@[j],
        decreases n - i,
    {
        if prefix.get_char(i) != s.get_char(i) {
            return false;
        }
        i = i + 1;
    }
    true
}

/// The operation a method and path ask for.
pub fn route(method: &str, path: &str) -> (r: Route)
    ensures
        r == route_of(method@, path@),
{
    proof {
        reveal_strlit("POST");
        reveal_strlit("/pubsub/publish");
        reveal_strlit("/pubsub/subscribe");
        reveal_strlit("/pubsub/unsubscribe");
        reveal_strlit("/persistence/store");
        reveal_strlit("/persistence/retrieve");
        reveal_strlit("/persistence/delete");
        reveal_strlit("/serviceinvocation/invoke/");
    }
    if !str_eq(method, "POST") {
        Route::NotFound
    } else if str_eq(path, "/pubsub/publish") {
        Route::Publish
    } else if str_eq(path, "/pubsub/subscribe") {
        Route::Subscribe
    } else if str_eq(path, "/pubsub/unsubscribe") {
        Route::Unsubscribe
    } else if str_eq(path, "/persistence/store") {
        Route::Store
    } else if str_eq(path, "/persistence/retrieve") {
        Route::Retrieve
    } else if str_eq(path, "/persistence/delete") {
        Route::Delete
    } else if starts_with(path, "/serviceinvocation/invoke/") {
        Route::Invoke
    } else {
        Route::NotFound
    }
}

/// Whether an operation needs a JSON body declared.
pub open spec fn needs_json(r: Route) -> bool {
    r == Route::Subscribe || r == Route::Unsubscribe || r == Route::Invoke
}

/// How the interface first answers a request: with the correlation id and the operation to
/// carry out, or with an immediate response. A request without `x-correlation-id` gets 400;
/// an unknown operation 404; an operation that needs a JSON body and does not declare one 406.
pub open spec fn entry_decision(
    method: Seq<char>,
    path: Seq<char>,
    h: Seq<(Seq<char>, Seq<char>)>,
) -> Result<(Seq<char>, Route), u16> {
    match first_header(h, "x-correlation-id"@) {
        None => Err(STATUS_BAD_REQUEST),
        Some(cid) => {
            let r = route_of(method, path);
            if r == Route::NotFound {
                Err(STATUS_NOT_FOUND)
            } else if needs_json(r) && first_header(h, "content-type"@) != Some("application/json"@) {
                Err(STATUS_NOT_ACCEPTABLE)
            } else {
                Ok((cid, r))
            }
        },
    }
}

/// A POST to one of the operations that carry a JSON body (subscribe, unsubscribe, service
/// invocation) that has a correlation id but does not declare `application/json` as its first
/// content type is answered with 406; one that declares it is taken, under its correlation
/// id, as that operation.
pub proof fn law_json_operations_need_json(path: Seq<char>, h: Seq<(Seq<char>, Seq<char>)>, cid: Seq<char>)
    requires
        path == "/pubsub/subscribe"@ || path == "/pubsub/unsubscribe"@
            || "/serviceinvocation/invoke/"@.is_prefix_of(path),
        first_header(h, "x-correlation-id"@) == Some(cid),
    ensures
        first_header(h, "content-type"@) != Some("application/json"@)
            ==> entry_decision("POST"@, path, h) == Err::<(Seq<char>, Route), u16>(406),
        first_header(h, "content-type"@) == Some("application/json"@)
            ==> entry_decision("POST"@, path, h) == Ok::<(Seq<char>, Route), u16>((cid, if path == "/pubsub/subscribe"@ {
                Route::Subscribe
            } else if path == "/pubsub/unsubscribe"@ {
                Route::Unsubscribe
            } else {
                Route::Invoke
            })),
{
    reveal_strlit("POST");
    reveal_strlit("/pubsub/publish");
    reveal_strlit("/pubsub/subscribe");
    reveal_strlit("/pubsub/unsubscribe");
    reveal_strlit("/persistence/store");
    reveal_strlit("/persistence/retrieve");
    reveal_strlit("/persistence/delete");
    reveal_strlit("/serviceinvocation/invoke/");
    if "/serviceinvocation/invoke/"@.is_prefix_of(path) {
        let pre = "/serviceinvocation/invoke/"@;
        assert(pre == path.subrange(0, pre.len() as int));
        assert(path[2] == pre[2]);
        assert(path[2] == 'e');
        assert(path != "/pubsub/publish"@);
        assert(path != "/pubsub/subscribe"@);
        assert(path != "/pubsub/unsubscribe"@);
        assert(path != "/persistence/store"@);
        assert(path != "/persistence/retrieve"@);
        assert(path != "/persistence/delete"@);
    }
}

/// A POST without a JSON body requirement (publish, store, retrieve, delete) that has a
/// correlation id is taken, under that id, as the operation its path names, whatever its
/// content type.
pub proof fn law_plain_operations_take_any_body(path: Seq<char>, h: Seq<(Seq<char>, Seq<char>)>, cid: Seq<char>)
    requires
        path == "/pubsub/publish"@ || path == "/persistence/store"@ || path == "/persistence/retrieve"@
            || path == "/persistence/delete"@,
        first_header(h, "x-correlation-id"@) == Some(cid),
    ensures
        entry_decision("POST"@, path, h) == Ok::<(Seq<char>, Route), u16>((cid, if path == "/pubsub/publish"@ {
            Route::Publish
        } else if path == "/persistence/store"@ {
            Route::Store
        } else if path == "/persistence/retrieve"@ {
            Route::Retrieve
        } else {
            Route::Delete
        })),
{
    reveal_strlit("POST");
    reveal_strlit("/pubsub/publish");
    reveal_strlit("/pubsub/subscribe");
    reveal_strlit("/pubsub/unsubscribe");
    reveal_strlit("/persistence/store");
    reveal_strlit("/persistence/retrieve");
    reveal_strlit("/persistence/delete");
    reveal_strlit("/serviceinvocation/invoke/");
    assert(path.len() < 26);
    assert(!"/serviceinvocation/invoke/"@.is_prefix_of(path));
    assert(path != "/pubsub/subscribe"@ && path != "/pubsub/unsubscribe"@) by {
        if path.len() == 19 {
            assert(path[2] == 'e');
            assert("/pubsub/unsubscribe"@[2] == 'u');
        }
    }
    let r = route_of("POST"@, path);
    assert(r != Route::NotFound);
    assert(!needs_json(r));
}

/// A request without a correlation id is answered with 400, whatever it asks for; a POST to
/// a path that names no operation, or any other method, with 404.
pub proof fn law_requests_without_id_or_route_are_refused(method: Seq<char>, path: Seq<char>, h: Seq<(Seq<char>, Seq<char>)>)
    ensures
        first_header(h, "x-correlation-id"@) is None ==> entry_decision(method, path, h) == Err::<(Seq<char>, Route), u16>(400),
        first_header(h, "x-correlation-id"@) is Some && method != "POST"@
            ==> entry_decision(method, path, h) == Err::<(Seq<char>, Route), u16>(404),
{
}

/// A backend status is answered with 200 for success, 404 where no service is known and 500
/// otherwise, with its message as the body.
pub proof fn law_status_codes(m: String)
    ensures
        status_code_of(BackendStatusCodes::OK(m)) == 200,
        status_code_of(BackendStatusCodes::Error(m)) == 500,
        status_code_of(BackendStatusCodes::NoTopic(m)) == 500,
        status_code_of(BackendStatusCodes::NoService(m)) == 404,
        status_message_of(BackendStatusCodes::OK(m)) == m@,
        status_message_of(BackendStatusCodes::Error(m)) == m@,
        status_message_of(BackendStatusCodes::NoTopic(m)) == m@,
        status_message_of(BackendStatusCodes::NoService(m)) == m@,
{
}

/// The first decision on an incoming request (see `entry_decision`); an immediate response has
/// an empty body.
pub fn handler_entry(method: &str, path: &str, headers: &Vec<(String, String)>) -> (r: Result<(String, Route), HttpReply>)
    ensures
        match r {
            Ok((cid, rt)) => entry_decision(method@, path@, headers_view(headers@)) == Ok::<(Seq<char>, Route), u16>((cid@, rt)),
            Err(reply) => entry_decision(method@, path@, headers_view(headers@)) == Err::<(Seq<char>, Route), u16>(reply.status)
                && reply.body@.len() == 0,
        },
{
    let correlation_id = match extract_value_from_headers("x-correlation-id", headers) {
        Some(c) => c,
        None => { return Err(empty_reply(STATUS_BAD_REQUEST)); },
    };
    let rt = route(method, path);
    if rt == Route::NotFound {
        return Err(empty_reply(STATUS_NOT_FOUND));
    }
    if rt == Route::Subscribe || rt == Route::Unsubscribe || rt == Route::Invoke {
        proof { reveal_strlit("application/json"); }
        if validate_content_type(headers).is_none() {
            return Err(empty_reply(STATUS_NOT_ACCEPTABLE));
        }
    }
    Ok((correlation_id, rt))
}

/// The text of the reply given where no channel serves a client topic.
pub open spec fn no_mapping_text() -> Seq<char> {
    "No mapping for this topic"@
}

pub open spec fn no_channel_text() -> Seq<char> {
    "No channel for this topic"@
}

/// Turns a publish call into a job for the broker that serves its topic; where none does,
/// the reply is 500 with `No mapping for this topic`.
pub fn publish_job(
    correlation_id: String,
    client_topic: String,
    payload: Vec<u8>,
    routes: &Vec<TopicRoute>,
) -> (r: Result<(BrokerChannel, Job), HttpReply>)
    ensures
        match r {
            Ok((ch, job)) => {
                &&& last_route(topic_routes_view(routes@), client_topic@) == Some(ch)
                &&& job matches Job::Publish(p) && p.correlation_id == correlation_id
                    && p.client_topic == client_topic && p.payload == payload
            },
            Err(reply) => {
                &&& last_route(topic_routes_view(routes@), client_topic@) is None
                &&& reply.status == STATUS_INTERNAL_SERVER_ERROR
                &&& reply.body@ == utf8_of(no_mapping_text())
            },
        },
{
    match find_channel_by_topic(routes, client_topic.as_str()) {
        Some(ch) => Ok((ch, Job::Publish(PublishRequest { correlation_id, payload, client_topic }))),
        None => Err(set_http_response(BackendStatusCodes::NoTopic(String::from_str("No mapping for this topic")))),
    }
}

/// Turns a REST subscribe (or unsubscribe) body into a job for the broker that serves its
/// topic; where none does, the reply is 500 with `No channel for this topic`.
pub fn sub_unsubscribe_job(
    is_subscribe: bool,
    csr: ClientSubscribeRequest,
    correlation_id: String,
    routes: &Vec<TopicRoute>,
) -> (r: Result<(BrokerChannel, Job), HttpReply>)
    ensures
        match r {
            Ok((ch, job)) => {
                &&& last_route(topic_routes_view(routes@), csr.client_topic@) == Some(ch)
                &&& match job {
                    Job::Subscribe(s) => is_subscribe && s.correlation_id == correlation_id
                        && s.client_topic == csr.client_topic && s.endpoint == csr.endpoint
                        && s.client_interface_type == CustomerInterfaceType::REST,
                    Job::Unsubscribe(s) => !is_subscribe && s.correlation_id == correlation_id
                        && s.client_topic == csr.client_topic && s.endpoint == csr.endpoint
                        && s.client_interface_type == CustomerInterfaceType::REST,
                    Job::Publish(_) => false,
                }
            },
            Err(reply) => {
                &&& last_route(topic_routes_view(routes@), csr.client_topic@) is None
                &&& reply.status == STATUS_INTERNAL_SERVER_ERROR
                &&& reply.body@ == utf8_of(no_channel_text())
            },
        },
{
    match find_channel_by_topic(routes, csr.client_topic.as_str()) {
        Some(ch) => {
            let sb = SubscribeRequest {
                correlation_id,
                client_interface_type: CustomerInterfaceType::REST,
                client_topic: csr.client_topic,
                endpoint: csr.endpoint,
            };
            if is_subscribe {
                Ok((ch, Job::Subscribe(sb)))
            } else {
                Ok((ch, Job::Unsubscribe(sb)))
            }
        },
        None => Err(set_http_response(BackendStatusCodes::NoTopic(String::from_str("No channel for this topic")))),
    }
}

/// The response to a messaging job, given the broker's answer (`None` where the job could not
/// be handed over or no answer came): the answer's status, or 500 with an empty body.
pub fn messaging_reply(outcome: Option<MessagingResult>) -> (r: HttpReply)
    ensures
        match outcome {
            Some(res) => r.status == status_code_of(res.status) && r.body@ == utf8_of(status_message_of(res.status)),
            None => r.status == STATUS_INTERNAL_SERVER_ERROR && r.body@.len() == 0,
        },
{
    match outcome {
        Some(res) => set_http_response(res.status),
        None => empty_reply(STATUS_INTERNAL_SERVER_ERROR),
    }
}

/// The persistence operations.
#[derive(Debug, PartialEq, Eq, Copy, Clone, Structural)]
pub enum PersistenceOperationType {
    Store,
    Retrieve,
    Delete,
}

/// Turns a persistence call into a job for the store that serves its database; where none
/// does, the reply is 500 with `No mapping for this topic`.
pub fn persistence_job(
    op_type: PersistenceOperationType,
    correlation_id: String,
    database_name: String,
    key: String,
    payload: Vec<u8>,
    routes: &Vec<DatabaseRoute>,
) -> (r: Result<(StoreChannel, PersistenceJobType), HttpReply>)
    ensures
        match r {
            Ok((ch, job)) => {
                &&& last_route(database_routes_view(routes@), database_name@) == Some(ch)
                &&& match job {
                    PersistenceJobType::Store(s) => op_type == PersistenceOperationType::Store
                        && s.correlation_id == correlation_id && s.table_name == database_name
                        && s.key == key && s.payload == payload,
                    PersistenceJobType::Retrieve(s) => op_type == PersistenceOperationType::Retrieve
                        && s.correlation_id == correlation_id && s.table_name == database_name
                        && s.key == key,
                    PersistenceJobType::Delete(s) => op_type == PersistenceOperationType::Delete
                        && s.correlation_id == correlation_id && s.table_name == database_name
                        && s.key == key,
                }
            },
            Err(reply) => {
                &&& last_route(database_routes_view(routes@), database_name@) is None
                &&& reply.status == STATUS_INTERNAL_SERVER_ERROR
                &&& reply.body@ == utf8_of(no_mapping_text())
            },
        },
{
    match find_channel_by_database_name(routes, database_name.as_str()) {
        None => Err(set_http_response(BackendStatusCodes::NoTopic(String::from_str("No mapping for this topic")))),
        Some(ch) => {
            let job = match op_type {
                PersistenceOperationType::Store => PersistenceJobType::Store(
                    StoreRequest { correlation_id, payload, table_name: database_name, key },
                ),
                PersistenceOperationType::Retrieve => PersistenceJobType::Retrieve(
                    RetrieveRequest { correlation_id, table_name: database_name, key },
                ),
                PersistenceOperationType::Delete => PersistenceJobType::Delete(
                    DeleteRequest { correlation_id, table_name: database_name, key },
                ),
            };
            Ok((ch, job))
        },
    }
}

/// The response to a persistence job: the store's status, with the value it returned as the
/// body where there is one; 500 with an empty body where no answer came.
pub fn persistence_reply(outcome: Option<PersistenceResult>) -> (r: HttpReply)
    ensures
        match outcome {
            Some(res) => r.status == status_code_of(res.status) && r.body@ == if res.payload@.len() > 0 {
                res.payload@
            } else {
                utf8_of(status_message_of(res.status))
            },
            None => r.status == STATUS_INTERNAL_SERVER_ERROR && r.body@.len() == 0,
        },
{
    match outcome {
        Some(res) => {
            let reply = set_http_response(res.status);
            if res.payload.len() > 0 {
                HttpReply { status: reply.status, body: res.payload }
            } else {
                reply
            }
        },
        None => empty_reply(STATUS_INTERNAL_SERVER_ERROR),
    }
}

/// The JSON body of a REST service invocation; `payload` is Base64.
#[derive(Debug)]
pub struct ServiceInvokeRequestHttp {
    pub method: String,
    pub request_target: String,
    pub headers: HashMap<String, String>,
    pub payload: String,
}

/// What standard Base64 decoding gives for some input: the bytes, or `None` where the input
/// is not valid Base64.
pub uninterp spec fn base64_decoding(input: Seq<u8>) -> Option<Seq<u8>>;

/// Decodes standard Base64 with `base64::decode`. The contract names the outcome; it says
/// nothing of which inputs are valid.
#[verifier::external_body]
fn base64_decode(input: &[u8]) -> (r: Option<Vec<u8>>)
    ensures
        match r {
            Some(v) => base64_decoding(input@) == Some(v@),
            None => base64_decoding(input@) is None,
        },
{
    match base64::decode(input) {
        Ok(v) => Some(v),
        Err(_) => None,
    }
}

/// The service a REST invocation path names: what follows `/serviceinvocation/invoke/`.
pub open spec fn service_name_of(path: Seq<char>) -> Seq<char> {
    path.subrange(invoke_prefix().len() as int, path.len() as int)
}

/// Turns a REST service invocation into a job: the payload must be Base64 and the method one
/// of POST, GET, DELETE and PUT, else the reply is 400 with an empty body.
pub fn service_invocation_job(
    correlation_id: String,
    path: &str,
    client_req: ServiceInvokeRequestHttp,
) -> (r: Result<SIJobType, HttpReply>)
    requires
        invoke_prefix().is_prefix_of(path@),
    ensures
        match r {
            Ok(job) => {
                &&& base64_decoding(utf8_of(client_req.payload@)) is Some
                &&& http_method_of(client_req.method@) is Some
                &&& job matches SIJobType::PublicInvokeHttp { correlation_id: c, service_name: s, req }
                &&& c == correlation_id
                &&& s@ == service_name_of(path@)
                &&& Some(req.payload@) == base64_decoding(utf8_of(client_req.payload@))
                &&& Some(req.method) == http_method_of(client_req.method@)
                &&& req.request_target == client_req.request_target
                &&& req.headers == client_req.headers
            },
            Err(reply) => {
                &&& (base64_decoding(utf8_of(client_req.payload@)) is None || http_method_of(client_req.method@) is None)
                &&& reply.status == STATUS_BAD_REQUEST
                &&& reply.body@.len() == 0
            },
        },
{
    proof { reveal_strlit("/serviceinvocation/invoke/"); }
    let start = "/serviceinvocation/invoke/".unicode_len();
    let service_name = String::from_str(path.substring_char(start, path.unicode_len()));
    let bytes = match base64_decode(client_req.payload.as_str().as_bytes()) {
        Some(b) => b,
        None => { return Err(empty_reply(STATUS_BAD_REQUEST)); },
    };
    let method = match HttpMethod::from_str(client_req.method.as_str()) {
        Ok(m) => m,
        Err(_) => { return Err(empty_reply(STATUS_BAD_REQUEST)); },
    };
    Ok(SIJobType::PublicInvokeHttp {
        correlation_id,
        service_name,
        req: ServiceInvokeRequest {
            method,
            request_target: client_req.request_target,
            headers: client_req.headers,
            payload: bytes,
        },
    })
}

/// The response to a service invocation: the outcome's status, with the service's answer as
/// the body where there is one; 500 with an empty body where no answer came.
pub fn invocation_reply(outcome: Option<SIResult>) -> (r: HttpReply)
    ensures
        match outcome {
            Some(res) => r.status == status_code_of(res.status) && r.body@ == if res.payload@.len() > 0 {
                res.payload@
            } else {
                utf8_of(status_message_of(res.status))
            },
            None => r.status == STATUS_INTERNAL_SERVER_ERROR && r.body@.len() == 0,
        },
{
    match outcome {
        Some(res) => {
            let reply = set_http_response(res.status);
            if res.payload.len() > 0 {
                HttpReply { status: reply.status, body: res.payload }
            } else {
                reply
            }
        },
        None => empty_reply(STATUS_INTERNAL_SERVER_ERROR),
    }
}

/// The response to a body that is not valid JSON where JSON is required: 400 with the
/// parser's message.
pub fn bad_json_reply(error_text: &str) -> (r: HttpReply)
    ensures
        r.status == STATUS_BAD_REQUEST,
        r.body@ == utf8_of(error_text@),
{
    HttpReply { status: STATUS_BAD_REQUEST, body: text_bytes(error_text) }
}

/// The status text a gRPC reply carries: the backend's status as its text, or `500` where the
/// job was dropped without an answer.
pub fn grpc_status_text(outcome: Option<&BackendStatusCodes>) -> (r: String)
    ensures
        r@ == match outcome {
            Some(s) => backend_status_text(*s),
            None => "500"@,
        },
{
    match outcome {
        Some(s) => s.to_string(),
        None => String::from_str("500"),
    }
}

/// How the private invocation interface takes a request: a method other than POST, GET,
/// DELETE and PUT gets 404; one without `x-correlation-id` or `host` gets 400; any other
/// becomes an invocation of the service its `host` names, at the request's path, with its
/// headers and body.
pub fn private_invocation_job(
    method: &str,
    headers: &Vec<(String, String)>,
    all_headers: HashMap<String, String>,
    path: String,
    payload: Vec<u8>,
) -> (r: Result<SIJobType, HttpReply>)
    ensures
        ({
            let h = headers_view(headers@);
            match r {
                Ok(job) => {
                    &&& http_method_of(method@) is Some
                    &&& first_header(h, "x-correlation-id"@) is Some
                    &&& first_header(h, "host"@) is Some
                    &&& job matches SIJobType::PublicInvokeHttp { correlation_id: c, service_name: s, req }
                    &&& Some(c@) == first_header(h, "x-correlation-id"@)
                    &&& Some(s@) == first_header(h, "host"@)
                    &&& Some(req.method) == http_method_of(method@)
                    &&& req.request_target == path
                    &&& req.headers == all_headers
                    &&& req.payload == payload
                },
                Err(reply) => {
                    &&& reply.body@.len() == 0
                    &&& reply.status == if http_method_of(method@) is None {
                        STATUS_NOT_FOUND
                    } else {
                        STATUS_BAD_REQUEST
                    }
                    &&& http_method_of(method@) is None || first_header(h, "x-correlation-id"@) is None
                        || first_header(h, "host"@) is None
                },
            }
        }),
{
    let m = match HttpMethod::from_str(method) {
        Ok(m) => m,
        Err(_) => { return Err(empty_reply(STATUS_NOT_FOUND)); },
    };
    let correlation_id = match extract_value_from_headers("x-correlation-id", headers) {
        Some(c) => c,
        None => { return Err(empty_reply(STATUS_BAD_REQUEST)); },
    };
    let service_name = match extract_value_from_headers("host", headers) {
        Some(h) => h,
        None => { return Err(empty_reply(STATUS_BAD_REQUEST)); },
    };
    Ok(SIJobType::PublicInvokeHttp {
        correlation_id,
        service_name,
        req: ServiceInvokeRequest { method: m, request_target: path, headers: all_headers, payload },
    })
}

} // verus!
