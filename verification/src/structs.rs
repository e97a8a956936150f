//! The messages that travel between the sidecar's client interfaces and its backends.
use std::collections::HashMap;
use vstd::prelude::*;
use vstd::string::*;
use crate::text::str_eq;

verus! {

/// Which client interface a subscription was made on.
#[derive(Debug, PartialEq, Eq, Hash, Copy, Clone, Structural)]
pub enum CustomerInterfaceType {
    REST,
    GRPC,
}

/// The `{:?}` text of an interface type.
pub open spec fn interface_type_name(t: CustomerInterfaceType) -> Seq<char> {
    match t {
        CustomerInterfaceType::REST => seq!['R', 'E', 'S', 'T'],
        CustomerInterfaceType::GRPC => seq!['G', 'R', 'P', 'C'],
    }
}

impl CustomerInterfaceType {
    /// The variant's name, as `{:?}` prints it.
    pub fn name(&self) -> (r: &'static str)
        ensures
            r@ == interface_type_name(*self),
    {
        match self {
            CustomerInterfaceType::REST => {
                proof { reveal_strlit("REST"); }
                "REST"
            },
            CustomerInterfaceType::GRPC => {
                proof { reveal_strlit("GRPC"); }
                "GRPC"
            },
        }
    }
}

/// A message a client wants published on one of its topics.
#[derive(Debug)]
pub struct PublishRequest {
    pub correlation_id: String,
    pub payload: Vec<u8>,
    pub client_topic: String,
}

/// What every persistence request can tell about itself.
pub trait PersistenceRequest {
    spec fn correlation_id_view(&self) -> Seq<char>;

    spec fn table_name_view(&self) -> Seq<char>;

    fn get_correlation_id(&self) -> (r: String)
        ensures
            r@ == self.correlation_id_view(),
    ;

    fn get_table_name(&self) -> (r: String)
        ensures
            r@ == self.table_name_view(),
    ;
}

/// Stores `payload` under `key` in the client database `table_name`.
#[derive(Debug, Clone)]
pub struct StoreRequest {
    pub correlation_id: String,
    pub payload: Vec<u8>,
    pub key: String,
    pub table_name: String,
}

impl PersistenceRequest for StoreRequest {
    open spec fn correlation_id_view(&self) -> Seq<char> {
        self.correlation_id@
    }

    open spec fn table_name_view(&self) -> Seq<char> {
        self.table_name@
    }

    fn get_correlation_id(&self) -> (r: String) {
        self.correlation_id.clone()
    }

    fn get_table_name(&self) -> (r: String) {
        self.table_name.clone()
    }
}

/// Reads the value under `key` from the client database `table_name`.
#[derive(Debug, Clone)]
pub struct RetrieveRequest {
    pub correlation_id: String,
    pub table_name: String,
    pub key: String,
}

impl PersistenceRequest for RetrieveRequest {
    open spec fn correlation_id_view(&self) -> Seq<char> {
        self.correlation_id@
    }

    open spec fn table_name_view(&self) -> Seq<char> {
        self.table_name@
    }

    fn get_correlation_id(&self) -> (r: String) {
        self.correlation_id.clone()
    }

    fn get_table_name(&self) -> (r: String) {
        self.table_name.clone()
    }
}

/// Removes the value under `key` from the client database `table_name`.
#[derive(Debug, Clone)]
pub struct DeleteRequest {
    pub correlation_id: String,
    pub table_name: String,
    pub key: String,
}

impl PersistenceRequest for DeleteRequest {
    open spec fn correlation_id_view(&self) -> Seq<char> {
        self.correlation_id@
    }

    open spec fn table_name_view(&self) -> Seq<char> {
        self.table_name@
    }

    fn get_correlation_id(&self) -> (r: String) {
        self.correlation_id.clone()
    }

    fn get_table_name(&self) -> (r: String) {
        self.table_name.clone()
    }
}

/// Where a REST subscriber wants its notifications delivered.
#[derive(Debug, Clone, PartialEq, Eq, PartialOrd, Ord)]
pub struct EndpointDesc {
    pub url: String,
    pub client_id: String,
}

/// The JSON body of a REST subscribe or unsubscribe call.
#[derive(Debug)]
pub struct ClientSubscribeRequest {
    pub endpoint: EndpointDesc,
    pub client_topic: String,
}

/// A client's subscription to one of its topics.
#[derive(Debug, Clone)]
pub struct SubscribeRequest {
    pub endpoint: EndpointDesc,
    pub correlation_id: String,
    pub client_topic: String,
    pub client_interface_type: CustomerInterfaceType,
}

/// The identifying contents of a subscription.
pub struct SubscribeRequestView {
    pub url: Seq<char>,
    pub client_id: Seq<char>,
    pub correlation_id: Seq<char>,
    pub client_topic: Seq<char>,
    pub client_interface_type: CustomerInterfaceType,
}

impl View for SubscribeRequest {
    type V = SubscribeRequestView;

    open spec fn view(&self) -> SubscribeRequestView {
        SubscribeRequestView {
            url: self.endpoint.url@,
            client_id: self.endpoint.client_id@,
            correlation_id: self.correlation_id@,
            client_topic: self.client_topic@,
            client_interface_type: self.client_interface_type,
        }
    }
}

/// How `{:?}` renders a string: quoted, with its special characters escaped.
pub uninterp spec fn debug_quoted(s: Seq<char>) -> Seq<char>;

/// Renders `s` with `{:?}`, the `Debug` implementation of `str` in std.
/// The contract only names the result; the escaping rules are left unstated.
#[verifier::external_body]
pub(crate) fn debug_str(s: &str) -> (r: String)
    ensures
        r@ == debug_quoted(s@),
{
    format!("{:?}", s)
}

/// The text of a subscription, as its `Display` implementation writes it.
pub open spec fn subscribe_request_text(v: SubscribeRequestView) -> Seq<char> {
    "SubscribeRequest { correlation_id: "@ + v.correlation_id + ", endpoint: EndpointDesc { url: "@
        + debug_quoted(v.url) + ", client_id: "@ + debug_quoted(v.client_id)
        + " }, client_topic:"@ + v.client_topic + ", client_interface_type:"@
        + interface_type_name(v.client_interface_type) + " }"@
}

impl SubscribeRequest {
    /// Whether two requests name the same subscription: every field agrees.
    pub fn same_subscription(&self, other: &SubscribeRequest) -> (r: bool)
        ensures
            r == (self@ == other@),
    {
        let c1 = self.correlation_id == other.correlation_id;
        let c2 = self.client_topic == other.client_topic;
        let c3 = self.endpoint.url == other.endpoint.url && self.endpoint.client_id
            == other.endpoint.client_id;
        let c4 = self.client_interface_type == other.client_interface_type;
        c1 && c2 && c3 && c4
    }

    /// The request's text, used as the correlation id of the notifications it receives.
    pub fn to_string(&self) -> (r: String)
        ensures
            r@ == subscribe_request_text(self@),
    {
        let url = debug_str(self.endpoint.url.as_str());
        let client_id = debug_str(self.endpoint.client_id.as_str());
        let mut s = String::from_str("SubscribeRequest { correlation_id: ");
        s.append(self.correlation_id.as_str());
        s.append(", endpoint: EndpointDesc { url: ");
        s.append(url.as_str());
        s.append(", client_id: ");
        s.append(client_id.as_str());
        s.append(" }, client_topic:");
        s.append(self.client_topic.as_str());
        s.append(", client_interface_type:");
        s.append(self.client_interface_type.name());
        s.append(" }");
        s
    }
}

/// The outcome of a Kafka operation, as text.
#[derive(Debug)]
pub struct KafkaResult {
    pub result: String,
}

/// The outcome a backend reports for a job.
#[derive(Debug)]
pub enum BackendStatusCodes {
    OK(String),
    Error(String),
    NoTopic(String),
    NoService(String),
}

/// The text of a backend status, as its `Display` implementation writes it.
pub open spec fn backend_status_text(s: BackendStatusCodes) -> Seq<char> {
    match s {
        BackendStatusCodes::OK(m) => "BackendStatusCodes::Ok "@ + m@,
        BackendStatusCodes::Error(m) => "BackendStatusCodes::ERR "@ + m@,
        BackendStatusCodes::NoTopic(m) => "BackendStatusCodes::NoTopic "@ + m@,
        BackendStatusCodes::NoService(m) => "BackendStatusCodes::NoService "@ + m@,
    }
}

impl BackendStatusCodes {
    pub fn to_string(&self) -> (r: String)
        ensures
            r@ == backend_status_text(*self),
    {
        match self {
            BackendStatusCodes::OK(m) => {
                let mut s = String::from_str("BackendStatusCodes::Ok ");
                s.append(m.as_str());
                s
            },
            BackendStatusCodes::Error(m) => {
                let mut s = String::from_str("BackendStatusCodes::ERR ");
                s.append(m.as_str());
                s
            },
            BackendStatusCodes::NoTopic(m) => {
                let mut s = String::from_str("BackendStatusCodes::NoTopic ");
                s.append(m.as_str());
                s
            },
            BackendStatusCodes::NoService(m) => {
                let mut s = String::from_str("BackendStatusCodes::NoService ");
                s.append(m.as_str());
                s
            },
        }
    }
}

/// The outcome of a call made to the client's own HTTP interface.
#[derive(Debug)]
pub enum ClientCallStatusCodes {
    OK(String),
    Error(String),
}

/// A broker's answer to a messaging job.
#[derive(Debug)]
pub struct MessagingResult {
    pub correlation_id: String,
    pub status: BackendStatusCodes,
}

/// A store's answer to a persistence job; `payload` is the value read or replaced.
#[derive(Debug)]
pub struct PersistenceResult {
    pub correlation_id: String,
    pub status: BackendStatusCodes,
    pub payload: Vec<u8>,
}

/// The answer to a service invocation.
#[derive(Debug)]
pub struct SIResult {
    pub correlation_id: String,
    pub status: BackendStatusCodes,
    pub payload: Vec<u8>,
}

/// A messaging job sent from a client interface to a broker.
#[derive(Debug)]
pub enum Job {
    Subscribe(SubscribeRequest),
    Unsubscribe(SubscribeRequest),
    Publish(PublishRequest),
}

/// A persistence job sent from a client interface to a store.
#[derive(Debug)]
pub enum PersistenceJobType {
    Store(StoreRequest),
    Retrieve(RetrieveRequest),
    Delete(DeleteRequest),
}

/// The HTTP methods a service invocation may use.
#[derive(Debug, PartialEq, Eq, Copy, Clone, Structural)]
pub enum HttpMethod {
    POST,
    GET,
    DELETE,
    PUT,
}

/// The error of parsing an unknown method name.
#[derive(Debug, PartialEq, Eq, Copy, Clone, Structural)]
pub enum HTTPMethodConversionError {
    InvalidMethod,
}

/// The method a method name denotes (names are case sensitive).
pub open spec fn http_method_of(s: Seq<char>) -> Option<HttpMethod> {
    if s == "POST"@ {
        Some(HttpMethod::POST)
    } else if s == "GET"@ {
        Some(HttpMethod::GET)
    } else if s == "DELETE"@ {
        Some(HttpMethod::DELETE)
    } else if s == "PUT"@ {
        Some(HttpMethod::PUT)
    } else {
        None
    }
}

/// The name of a method, as `{:?}` and `Display` print it.
pub open spec fn http_method_name(m: HttpMethod) -> Seq<char> {
    match m {
        HttpMethod::POST => "POST"@,
        HttpMethod::GET => "GET"@,
        HttpMethod::DELETE => "DELETE"@,
        HttpMethod::PUT => "PUT"@,
    }
}

impl HttpMethod {
    /// The default method is POST.
    pub fn default() -> (r: HttpMethod)
        ensures
            r == HttpMethod::POST,
    {
        HttpMethod::POST
    }

    /// Parses a method name.
    pub fn from_str(s: &str) -> (r: Result<HttpMethod, HTTPMethodConversionError>)
        ensures
            match r {
                Ok(m) => http_method_of(s@) == Some(m),
                Err(e) => http_method_of(s@) is None && e == HTTPMethodConversionError::InvalidMethod,
            },
    {
        proof {
            reveal_strlit("POST");
            reveal_strlit("GET");
            reveal_strlit("DELETE");
            reveal_strlit("PUT");
        }
        if str_eq(s, "POST") {
            Ok(HttpMethod::POST)
        } else if str_eq(s, "GET") {
            Ok(HttpMethod::GET)
        } else if str_eq(s, "DELETE") {
            Ok(HttpMethod::DELETE)
        } else if str_eq(s, "PUT") {
            Ok(HttpMethod::PUT)
        } else {
            Err(HTTPMethodConversionError::InvalidMethod)
        }
    }

    /// The method's name.
    pub fn to_string(&self) -> (r: String)
        ensures
            r@ == http_method_name(*self),
    {
        match self {
            HttpMethod::POST => String::from_str("POST"),
            HttpMethod::GET => String::from_str("GET"),
            HttpMethod::DELETE => String::from_str("DELETE"),
            HttpMethod::PUT => String::from_str("PUT"),
        }
    }
}

/// A method's name parses back to the method.
pub proof fn law_method_name_parses_back(m: HttpMethod)
    ensures
        http_method_of(http_method_name(m)) == Some(m),
{
    reveal_strlit("POST");
    reveal_strlit("GET");
    reveal_strlit("DELETE");
    reveal_strlit("PUT");
    assert("GET"@ != "POST"@) by {
        assert("GET"@.len() != "POST"@.len());
    }
    assert("DELETE"@ != "POST"@) by {
        assert("DELETE"@.len() != "POST"@.len());
    }
    assert("DELETE"@ != "GET"@) by {
        assert("DELETE"@.len() != "GET"@.len());
    }
    assert("PUT"@ != "POST"@) by {
        assert("PUT"@.len() != "POST"@.len());
    }
    assert("PUT"@ != "GET"@) by {
        assert("PUT"@[0] != "GET"@[0]);
    }
    assert("PUT"@ != "DELETE"@) by {
        assert("PUT"@.len() != "DELETE"@.len());
    }
}

/// An invocation of a service on behalf of a client.
#[derive(Debug)]
pub struct ServiceInvokeRequest {
    pub method: HttpMethod,
    pub request_target: String,
    pub headers: HashMap<String, String>,
    pub payload: Vec<u8>,
}

/// The answer of an invoked service.
#[derive(Debug)]
pub struct ServiceInvokeResponse {
    pub method: HttpMethod,
    pub request_target: String,
    pub headers: HashMap<String, String>,
    pub payload: Vec<u8>,
}

/// A request the sidecar makes to the client's own HTTP interface.
#[derive(Debug)]
pub struct RESTRequestParams {
    pub payload: Vec<u8>,
    pub uri: String,
    pub headers: HashMap<String, String>,
    pub method: HttpMethod,
}

impl RESTRequestParams {
    /// An empty POST request with no target.
    pub fn default() -> (r: RESTRequestParams)
        ensures
            r.payload@.len() == 0,
            r.uri@.len() == 0,
            r.headers@ == Map::<String, String>::empty(),
            r.method == HttpMethod::POST,
    {
        RESTRequestParams {
            payload: Vec::new(),
            uri: String::new(),
            headers: HashMap::new(),
            method: HttpMethod::POST,
        }
    }
}

/// What the client's HTTP interface answered.
#[derive(Debug)]
pub struct RESTResponseParams {
    pub payload: Vec<u8>,
    pub headers: HashMap<String, String>,
    pub status: u16,
}

impl RESTResponseParams {
    /// An empty answer with status 0.
    pub fn default() -> (r: RESTResponseParams)
        ensures
            r.payload@.len() == 0,
            r.headers@ == Map::<String, String>::empty(),
            r.status == 0,
    {
        RESTResponseParams { payload: Vec::new(), headers: HashMap::new(), status: 0 }
    }
}

/// The outcome of a request to the client's HTTP interface.
#[derive(Debug)]
pub struct RESTRequestResult {
    pub correlation_id: String,
    pub status: ClientCallStatusCodes,
    pub response_params: RESTResponseParams,
}

/// A service invocation job.
#[derive(Debug)]
pub enum SIJobType {
    PublicInvokeHttp { correlation_id: String, service_name: String, req: ServiceInvokeRequest },
    PublicInvokeGrpc { correlation_id: String, service_name: String, req: ServiceInvokeRequest },
    InternalInvoke { correlation_id: String, service_name: String, req: ServiceInvokeRequest },
}

/// The consumer context handed to the Kafka client; it carries no state.
#[derive(Debug)]
pub struct CustomContext;

/// A request from a backend to the client's HTTP interface (a notification or a forwarded
/// invocation); the interface that carries it adds the reply channel.
#[derive(Debug)]
pub struct BackendToRestContext {
    pub correlation_id: String,
    pub request_params: RESTRequestParams,
}

} // verus!
