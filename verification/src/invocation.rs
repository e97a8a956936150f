//! Service invocation: the endpoints kept for each resolved service, and how invocations and
//! their outcomes are turned into requests and results.
use std::collections::HashMap;
use vstd::prelude::*;
use vstd::string::*;
use crate::discovery::AnnounceServiceDetails;
use crate::structs::{
    BackendStatusCodes, BackendToRestContext, ClientCallStatusCodes, RESTRequestParams,
    RESTRequestResult, SIResult, ServiceInvokeRequest,
};
use crate::subscriptions::copy_bytes;

verus! {

/// The status code an invocation result carries for success.
pub const INVOKE_STATUS_OK: i32 = 0;

/// The status code an invocation result carries for failure.
pub const INVOKE_STATUS_ERROR: i32 = 1;

/// The result part of an invocation response: a status code and a message.
#[derive(Debug)]
pub struct InvokeResult {
    pub status: i32,
    pub msg: String,
}

/// Maps the outcome of a call to the client's HTTP interface to a backend status and an
/// invocation result carrying the same message.
pub fn map_client_to_backend_status_calls(ccsc: ClientCallStatusCodes) -> (r: (BackendStatusCodes, InvokeResult))
    ensures
        match ccsc {
            ClientCallStatusCodes::OK(m) => r.0 matches BackendStatusCodes::OK(b) && b@ == m@
                && r.1.status == INVOKE_STATUS_OK && r.1.msg@ == m@,
            ClientCallStatusCodes::Error(m) => r.0 matches BackendStatusCodes::Error(b) && b@ == m@
                && r.1.status == INVOKE_STATUS_ERROR && r.1.msg@ == m@,
        },
{
    match ccsc {
        ClientCallStatusCodes::OK(msg) => (
            BackendStatusCodes::OK(msg.clone()),
            InvokeResult { status: INVOKE_STATUS_OK, msg },
        ),
        ClientCallStatusCodes::Error(msg) => (
            BackendStatusCodes::Error(msg.clone()),
            InvokeResult { status: INVOKE_STATUS_ERROR, msg },
        ),
    }
}

/// The endpoints of one service, each under the key it was registered with in the load
/// balancer. Keys are handed out from a counter that only grows.
#[derive(Debug)]
pub struct SimpleEndpointManager {
    key_counter: usize,
    managed_endpoints: Vec<(String, usize)>,
}

pub open spec fn endpoints_view(v: Seq<(String, usize)>) -> Seq<(Seq<char>, usize)> {
    v.map_values(|p: (String, usize)| (p.0@, p.1))
}

/// The key an endpoint is managed under.
pub open spec fn managed_key(e: Seq<(Seq<char>, usize)>, uri: Seq<char>) -> Option<usize>
    decreases e.len(),
{
    if e.len() == 0 {
        None
    } else if e[0].0 == uri {
        Some(e[0].1)
    } else {
        managed_key(e.drop_first(), uri)
    }
}

pub open spec fn endpoints_wf(counter: usize, e: Seq<(Seq<char>, usize)>) -> bool {
    &&& counter >= 1
    &&& forall|i: int| 0 <= i < e.len() ==> 1 < (#[trigger] e[i]).1 <= counter
    &&& forall|i: int, j: int| 0 <= i < e.len() && 0 <= j < e.len() && i != j ==> e[i].0 != e[j].0 && e[i].1 != e[j].1
}

proof fn lemma_managed_key_found(e: Seq<(Seq<char>, usize)>, uri: Seq<char>, i: int)
    requires
        0 <= i < e.len(),
        e[i].0 == uri,
        forall|j: int| 0 <= j < i ==> e[j].0 != uri,
    ensures
        managed_key(e, uri) == Some(e[i].1),
    decreases e.len(),
{
    if i > 0 {
        assert forall|j: int| 0 <= j < i - 1 implies e.drop_first()[j].0 != uri by {
            assert(e.drop_first()[j] == e[j + 1]);
        }
        lemma_managed_key_found(e.drop_first(), uri, i - 1);
    }
}

proof fn lemma_managed_key_absent(e: Seq<(Seq<char>, usize)>, uri: Seq<char>)
    requires
        forall|j: int| 0 <= j < e.len() ==> e[j].0 != uri,
    ensures
        managed_key(e, uri) is None,
    decreases e.len(),
{
    if e.len() > 0 {
        assert forall|j: int| 0 <= j < e.len() - 1 implies e.drop_first()[j].0 != uri by {
            assert(e.drop_first()[j] == e[j + 1]);
        }
        lemma_managed_key_absent(e.drop_first(), uri);
    }
}

proof fn lemma_managed_key_none(e: Seq<(Seq<char>, usize)>, uri: Seq<char>)
    requires
        managed_key(e, uri) is None,
    ensures
        forall|j: int| 0 <= j < e.len() ==> e[j].0 != uri,
    decreases e.len(),
{
    if e.len() > 0 {
        lemma_managed_key_none(e.drop_first(), uri);
        assert forall|j: int| 0 <= j < e.len() implies e[j].0 != uri by {
            if j > 0 {
                assert(e[j] == e.drop_first()[j - 1]);
            }
        }
    }
}

/// An endpoint registered under a key (`confirm_add`) is managed under that key: removing it
/// (`remove`) gives the key back, and adding it again (`begin_add`) hands out nothing and
/// changes nothing.
pub proof fn law_registered_key_is_removed_key(e: Seq<(Seq<char>, usize)>, uri: Seq<char>, key: usize)
    requires
        managed_key(e, uri) is None,
    ensures
        managed_key(e.push((uri, key)), uri) == Some(key),
{
    lemma_managed_key_none(e, uri);
    let e1 = e.push((uri, key));
    assert forall|j: int| 0 <= j < e.len() implies e1[j].0 != uri by {
        assert(e1[j] == e[j]);
    }
    lemma_managed_key_found(e1, uri, e.len() as int);
}

/// Adding an endpoint that is not managed yet (`begin_add`, then `confirm_add` with the key
/// it handed out) registers it under the next value of the counter, a key no other endpoint
/// has, and leaves the manager well kept; the endpoint is then managed, so that adding it
/// again (`begin_add`) hands out nothing and changes nothing.
pub proof fn law_adding_an_endpoint_registers_it_once(counter: usize, e: Seq<(Seq<char>, usize)>, uri: Seq<char>)
    requires
        endpoints_wf(counter, e),
        managed_key(e, uri) is None,
        counter < usize::MAX,
    ensures
        ({
            let k = (counter + 1) as usize;
            let e1 = e.push((uri, k));
            &&& endpoints_wf(k, e1)
            &&& managed_key(e1, uri) == Some(k)
            &&& forall|j: int| 0 <= j < e.len() ==> #[trigger] e[j].1 != k
        }),
{
    let k = (counter + 1) as usize;
    let e1 = e.push((uri, k));
    lemma_managed_key_none(e, uri);
    law_registered_key_is_removed_key(e, uri, k);
    assert forall|a: int| 0 <= a < e1.len() implies 1 < (#[trigger] e1[a]).1 <= k by {
        if a < e.len() {
            assert(e1[a] == e[a]);
        }
    }
    assert forall|a: int, b: int| 0 <= a < e1.len() && 0 <= b < e1.len() && a != b implies e1[a].0 != e1[b].0 && e1[a].1 != e1[b].1 by {
        if a < e.len() {
            assert(e1[a] == e[a]);
        }
        if b < e.len() {
            assert(e1[b] == e[b]);
        }
    }
}

/// The endpoints without those at `uri`, in their order.
pub open spec fn without_endpoint(e: Seq<(Seq<char>, usize)>, uri: Seq<char>) -> Seq<(Seq<char>, usize)>
    decreases e.len(),
{
    if e.len() == 0 {
        Seq::empty()
    } else if e[0].0 == uri {
        without_endpoint(e.drop_first(), uri)
    } else {
        seq![e[0]] + without_endpoint(e.drop_first(), uri)
    }
}

proof fn lemma_without_absent(e: Seq<(Seq<char>, usize)>, uri: Seq<char>)
    requires
        forall|j: int| 0 <= j < e.len() ==> e[j].0 != uri,
    ensures
        without_endpoint(e, uri) == e,
    decreases e.len(),
{
    if e.len() > 0 {
        assert forall|j: int| 0 <= j < e.drop_first().len() implies e.drop_first()[j].0 != uri by {
            assert(e.drop_first()[j] == e[j + 1]);
        }
        lemma_without_absent(e.drop_first(), uri);
        assert(e =~= seq![e[0]] + e.drop_first());
    }
}

proof fn lemma_without_single(e: Seq<(Seq<char>, usize)>, uri: Seq<char>, i: int)
    requires
        0 <= i < e.len(),
        e[i].0 == uri,
        forall|j: int| 0 <= j < e.len() && j != i ==> e[j].0 != uri,
    ensures
        without_endpoint(e, uri) == e.remove(i),
    decreases e.len(),
{
    let rest = e.drop_first();
    if i == 0 {
        assert forall|j: int| 0 <= j < rest.len() implies rest[j].0 != uri by {
            assert(rest[j] == e[j + 1]);
        }
        lemma_without_absent(rest, uri);
        assert(e.remove(0) =~= rest);
    } else {
        assert forall|j: int| 0 <= j < rest.len() && j != i - 1 implies rest[j].0 != uri by {
            assert(rest[j] == e[j + 1]);
        }
        lemma_without_single(rest, uri, i - 1);
        assert(e.remove(i) =~= seq![e[0]] + rest.remove(i - 1));
    }
}

impl SimpleEndpointManager {
    pub closed spec fn counter(&self) -> usize {
        self.key_counter
    }

    pub closed spec fn endpoints(&self) -> Seq<(Seq<char>, usize)> {
        endpoints_view(self.managed_endpoints@)
    }

    /// Every endpoint has its own key, no endpoint appears twice, and no key exceeds the
    /// counter.
    pub open spec fn wf(&self) -> bool {
        endpoints_wf(self.counter(), self.endpoints())
    }

    /// A manager with no endpoints; its counter starts at 1.
    pub fn new() -> (r: SimpleEndpointManager)
        ensures
            r.wf(),
            r.counter() == 1,
            r.endpoints().len() == 0,
    {
        SimpleEndpointManager { key_counter: 1, managed_endpoints: Vec::new() }
    }

    fn position(&self, uri: &String) -> (r: Option<usize>)
        ensures
            match r {
                Some(i) => i < self.endpoints().len() && self.endpoints()[i as int].0 == uri@
                    && managed_key(self.endpoints(), uri@) == Some(self.endpoints()[i as int].1),
                None => managed_key(self.endpoints(), uri@) is None,
            },
    {
        let ghost e = self.endpoints();
        let mut i: usize = 0;
        while i < self.managed_endpoints.len()
            invariant
                i <= self.managed_endpoints@.len(),
                e == endpoints_view(self.managed_endpoints@),
                forall|j: int| 0 <= j < i ==> e[j].0 != uri@,
            decreases self.managed_endpoints@.len() - i,
        {
            if self.managed_endpoints[i].0 == *uri {
                proof { lemma_managed_key_found(e, uri@, i as int); }
                return Some(i);
            }
            i = i + 1;
        }
        proof { lemma_managed_key_absent(e, uri@); }
        None
    }

    /// The first step of adding an endpoint: where it is not managed yet, the counter grows by
    /// one and the new value is the key to register it under; where it is, nothing changes.
    pub fn begin_add(&mut self, uri: &String) -> (r: Option<usize>)
        requires
            old(self).wf(),
            managed_key(old(self).endpoints(), uri@) is None ==> old(self).counter() < usize::MAX,
        ensures
            final(self).wf(),
            final(self).endpoints() == old(self).endpoints(),
            match managed_key(old(self).endpoints(), uri@) {
                Some(_) => r is None && final(self).counter() == old(self).counter(),
                None => r == Some((old(self).counter() + 1) as usize) && final(self).counter()
                    == old(self).counter() + 1,
            },
            r matches Some(k) ==> k > 1 && forall|i: int| 0 <= i < final(self).endpoints().len()
                ==> #[trigger] final(self).endpoints()[i].1 < k,
            r is None ==> *final(self) == *old(self),
    {
        match self.position(uri) {
            Some(_) => None,
            None => {
                self.key_counter = self.key_counter + 1;
                Some(self.key_counter)
            },
        }
    }

    /// The second step of adding an endpoint, once the load balancer took it: the endpoint is
    /// managed under `key`.
    pub fn confirm_add(&mut self, uri: String, key: usize)
        requires
            old(self).wf(),
            managed_key(old(self).endpoints(), uri@) is None,
            key == old(self).counter(),
            forall|i: int| 0 <= i < old(self).endpoints().len() ==> old(self).endpoints()[i].1 < key,
            key > 1,
        ensures
            final(self).wf(),
            final(self).counter() == old(self).counter(),
            final(self).endpoints() == old(self).endpoints().push((uri@, key)),
    {
        let ghost e0 = self.endpoints();
        proof {
            if exists|i: int| 0 <= i < e0.len() && e0[i].0 == uri@ {
                let i = choose|i: int| 0 <= i < e0.len() && e0[i].0 == uri@;
                let first = choose|f: int| 0 <= f <= i && e0[f].0 == uri@ && forall|j: int| 0 <= j < f ==> e0[j].0 != uri@;
                lemma_managed_key_found(e0, uri@, first);
            }
        }
        self.managed_endpoints.push((uri, key));
        assert(self.endpoints() =~= e0.push((uri@, key)));
    }

    /// Stops managing an endpoint, and only that one; the key it had, if any, is what the load
    /// balancer must drop.
    pub fn remove(&mut self, uri: &String) -> (r: Option<usize>)
        requires
            old(self).wf(),
        ensures
            final(self).wf(),
            final(self).counter() == old(self).counter(),
            r == managed_key(old(self).endpoints(), uri@),
            final(self).endpoints() == without_endpoint(old(self).endpoints(), uri@),
            managed_key(final(self).endpoints(), uri@) is None,
    {
        let ghost e0 = self.endpoints();
        match self.position(uri) {
            None => {
                proof {
                    lemma_managed_key_none(e0, uri@);
                    lemma_without_absent(e0, uri@);
                }
                None
            },
            Some(i) => {
                let (_, key) = self.managed_endpoints.remove(i);
                proof {
                    let e1 = self.endpoints();
                    assert(e1 =~= e0.remove(i as int));
                    assert forall|j: int| 0 <= j < e0.len() && j != i implies e0[j].0 != uri@ by {}
                    lemma_without_single(e0, uri@, i as int);
                    assert forall|j: int| 0 <= j < e1.len() implies e1[j].0 != uri@ by {
                        let jj = if j < i { j } else { j + 1 };
                        assert(e1[j] == e0[jj]);
                    }
                    lemma_managed_key_absent(e1, uri@);
                    assert forall|a: int, b: int| 0 <= a < e1.len() && 0 <= b < e1.len() && a != b implies e1[a].0 != e1[b].0 && e1[a].1 != e1[b].1 by {
                        let aa = if a < i { a } else { a + 1 };
                        let bb = if b < i { b } else { b + 1 };
                        assert(e1[a] == e0[aa]);
                        assert(e1[b] == e0[bb]);
                    }
                    assert forall|a: int| 0 <= a < e1.len() implies 1 < (#[trigger] e1[a]).1 <= self.counter() by {
                        let aa = if a < i { a } else { a + 1 };
                        assert(e1[a] == e0[aa]);
                    }
                }
                Some(key)
            },
        }
    }
}

/// The URL of the client that implements an announced service: the first announcement of
/// that name.
pub open spec fn client_url_of(announced: Seq<AnnounceServiceDetails>, service_name: Seq<char>) -> Option<Seq<char>>
    decreases announced.len(),
{
    if announced.len() == 0 {
        None
    } else if announced[0].service_details.service_name@ == service_name {
        Some(announced[0].client_url@)
    } else {
        client_url_of(announced.drop_first(), service_name)
    }
}

proof fn lemma_client_url_found(a: Seq<AnnounceServiceDetails>, name: Seq<char>, i: int)
    requires
        0 <= i < a.len(),
        a[i].service_details.service_name@ == name,
        forall|j: int| 0 <= j < i ==> a[j].service_details.service_name@ != name,
    ensures
        client_url_of(a, name) == Some(a[i].client_url@),
    decreases a.len(),
{
    if i > 0 {
        assert forall|j: int| 0 <= j < i - 1 implies a.drop_first()[j].service_details.service_name@ != name by {
            assert(a.drop_first()[j] == a[j + 1]);
        }
        lemma_client_url_found(a.drop_first(), name, i - 1);
    }
}

proof fn lemma_client_url_absent(a: Seq<AnnounceServiceDetails>, name: Seq<char>)
    requires
        forall|j: int| 0 <= j < a.len() ==> a[j].service_details.service_name@ != name,
    ensures
        client_url_of(a, name) is None,
    decreases a.len(),
{
    if a.len() > 0 {
        assert forall|j: int| 0 <= j < a.len() - 1 implies a.drop_first()[j].service_details.service_name@ != name by {
            assert(a.drop_first()[j] == a[j + 1]);
        }
        lemma_client_url_absent(a.drop_first(), name);
    }
}

/// The URL of the client that implements an announced service.
pub fn find_client_url(announced: &Vec<AnnounceServiceDetails>, service_name: &String) -> (r: Option<String>)
    ensures
        match r {
            Some(u) => client_url_of(announced@, service_name@) == Some(u@),
            None => client_url_of(announced@, service_name@) is None,
        },
{
    let mut i: usize = 0;
    while i < announced.len()
        invariant
            i <= announced@.len(),
            forall|j: int| 0 <= j < i ==> announced@[j].service_details.service_name@ != service_name@,
        decreases announced@.len() - i,
    {
        if announced[i].service_details.service_name == *service_name {
            proof { lemma_client_url_found(announced@, service_name@, i as int); }
            return Some(announced[i].client_url.clone());
        }
        i = i + 1;
    }
    proof { lemma_client_url_absent(announced@, service_name@); }
    None
}

/// The request that forwards an internal invocation to the client implementing the service:
/// same method, headers and payload, sent to the client's URL followed by the target.
pub fn internal_invoke_request(correlation_id: String, req: ServiceInvokeRequest, endpoint: &String) -> (r: BackendToRestContext)
    ensures
        r.correlation_id == correlation_id,
        r.request_params.payload == req.payload,
        r.request_params.headers == req.headers,
        r.request_params.method == req.method,
        r.request_params.uri@ == endpoint@ + req.request_target@,
{
    let mut uri = endpoint.clone();
    uri.append(req.request_target.as_str());
    BackendToRestContext {
        correlation_id,
        request_params: RESTRequestParams {
            payload: req.payload,
            headers: req.headers,
            method: req.method,
            uri,
        },
    }
}

pub open spec fn internal_error_text() -> Seq<char> {
    "Internal ereror"@
}

/// The result of an internal invocation, given the client's answer (`None` where the request
/// could not be handed over or no answer came): the answer's status and payload, or an
/// internal error.
pub fn internal_invoke_result(correlation_id: String, outcome: Option<RESTRequestResult>) -> (r: SIResult)
    ensures
        r.correlation_id == correlation_id,
        match outcome {
            Some(res) => r.payload == res.response_params.payload && match res.status {
                ClientCallStatusCodes::OK(m) => r.status matches BackendStatusCodes::OK(b) && b@ == m@,
                ClientCallStatusCodes::Error(m) => r.status matches BackendStatusCodes::Error(b) && b@ == m@,
            },
            None => r.status matches BackendStatusCodes::Error(b) && b@ == internal_error_text()
                && r.payload@.len() == 0,
        },
{
    match outcome {
        Some(res) => {
            let (status, _result) = map_client_to_backend_status_calls(res.status);
            SIResult { correlation_id, status, payload: res.response_params.payload }
        },
        None => SIResult {
            correlation_id,
            status: BackendStatusCodes::Error(String::from_str("Internal ereror")),
            payload: Vec::new(),
        },
    }
}

/// The result of an internal invocation of a service no client implements.
pub fn no_client_url_result(correlation_id: String, service_name: &String) -> (r: SIResult)
    ensures
        r.correlation_id == correlation_id,
        r.status matches BackendStatusCodes::Error(b)
            && b@ == "Can't find client url for service name "@ + service_name@,
        r.payload@.len() == 0,
{
    let mut msg = String::from_str("Can't find client url for service name ");
    msg.append(service_name.as_str());
    SIResult { correlation_id, status: BackendStatusCodes::Error(msg), payload: Vec::new() }
}

/// The result of a public invocation of a service that has not been resolved.
pub fn unresolved_service_result(correlation_id: String, service_name: &String) -> (r: SIResult)
    ensures
        r.correlation_id == correlation_id,
        r.status matches BackendStatusCodes::NoService(b)
            && b@ == "Service "@ + service_name@ + " has not been resolved"@,
        r.payload@.len() == 0,
{
    let mut msg = String::from_str("Service ");
    msg.append(service_name.as_str());
    msg.append(" has not been resolved");
    SIResult { correlation_id, status: BackendStatusCodes::NoService(msg), payload: Vec::new() }
}

/// The result of a public invocation forwarded to another sidecar, given its outcome: the
/// remote payload on success, the error's text otherwise.
pub fn public_invoke_result(correlation_id: String, outcome: Result<Vec<u8>, String>) -> (r: SIResult)
    ensures
        r.correlation_id == correlation_id,
        match outcome {
            Ok(p) => r.status matches BackendStatusCodes::OK(b) && b@ == "Service call ok"@
                && r.payload == p,
            Err(e) => r.status matches BackendStatusCodes::Error(b) && b@ == e@ && r.payload@.len() == 0,
        },
{
    match outcome {
        Ok(payload) => SIResult {
            correlation_id,
            status: BackendStatusCodes::OK(String::from_str("Service call ok")),
            payload,
        },
        Err(e) => SIResult { correlation_id, status: BackendStatusCodes::Error(e), payload: Vec::new() },
    }
}

/// What to do with a newly resolved endpoint of a service.
#[derive(Debug, PartialEq, Eq, Clone, Copy, Structural)]
pub enum ResolveAction {
    /// The service was not known: open its balanced channel and register the endpoint there
    /// under `key`.
    NewService { key: usize },
    /// Register the endpoint with the service's channel under `key`, and confirm it once the
    /// channel took it.
    AddEndpoint { key: usize },
    /// The endpoint is already registered.
    Known,
}

/// A resolved service: the URI it was first reached at, and the endpoints of its channel.
#[derive(Debug)]
pub struct ServiceClient {
    pub service_name: String,
    pub key: String,
    pub endpoint_manager: SimpleEndpointManager,
}

/// The services resolved so far.
#[derive(Debug)]
pub struct ServiceClients {
    clients: Vec<ServiceClient>,
}

pub open spec fn client_names(c: Seq<ServiceClient>) -> Seq<Seq<char>> {
    c.map_values(|x: ServiceClient| x.service_name@)
}

impl ServiceClients {
    pub closed spec fn entries(&self) -> Seq<ServiceClient> {
        self.clients@
    }

    /// Every service appears once and its endpoints are well kept.
    pub open spec fn wf(&self) -> bool {
        &&& forall|i: int, j: int| 0 <= i < self.entries().len() && 0 <= j < self.entries().len() && i != j
            ==> self.entries()[i].service_name@ != self.entries()[j].service_name@
        &&& forall|i: int| 0 <= i < self.entries().len() ==> (#[trigger] self.entries()[i]).endpoint_manager.wf()
    }

    /// The position of a service, or -1.
    pub open spec fn index_of(&self, service_name: Seq<char>) -> int {
        crate::subscriptions::first_index(client_names(self.entries()), service_name)
    }

    pub fn new() -> (r: ServiceClients)
        ensures
            r.wf(),
            r.entries().len() == 0,
    {
        ServiceClients { clients: Vec::new() }
    }

    fn find(&self, service_name: &String) -> (r: Option<usize>)
        ensures
            match r {
                Some(i) => i < self.entries().len() && self.index_of(service_name@) == i as int,
                None => self.index_of(service_name@) == -1,
            },
    {
        let ghost names = client_names(self.entries());
        let mut i: usize = 0;
        while i < self.clients.len()
            invariant
                i <= self.clients@.len(),
                names == client_names(self.entries()),
                names.len() == self.clients@.len(),
                forall|j: int| 0 <= j < i ==> names[j] != service_name@,
            decreases self.clients@.len() - i,
        {
            if self.clients[i].service_name == *service_name {
                proof { crate::subscriptions::lemma_first_index_found(names, service_name@, i as int); }
                return Some(i);
            }
            i = i + 1;
        }
        proof { crate::subscriptions::lemma_first_index_absent(names, service_name@); }
        None
    }

    /// Decides what a newly resolved endpoint of a service leads to. A service seen for the
    /// first time is kept with a fresh manager, while the endpoint is registered from a copy
    /// of it that is then dropped; a known service's manager hands out the next key for an
    /// endpoint it does not manage yet.
    pub fn on_resolved(&mut self, service_name: &String, uri: &String) -> (r: ResolveAction)
        requires
            old(self).wf(),
            ({
                let i = old(self).index_of(service_name@);
                i >= 0 && managed_key(old(self).entries()[i].endpoint_manager.endpoints(), uri@) is None
                    ==> old(self).entries()[i].endpoint_manager.counter() < usize::MAX
            }),
        ensures
            final(self).wf(),
            match r {
                ResolveAction::NewService { key } => {
                    &&& old(self).index_of(service_name@) == -1
                    &&& key == 2
                    &&& final(self).entries().len() == old(self).entries().len() + 1
                    &&& final(self).entries().drop_last() == old(self).entries()
                    &&& final(self).entries().last().service_name@ == service_name@
                    &&& final(self).entries().last().key@ == uri@
                    &&& final(self).entries().last().endpoint_manager.counter() == 1
                    &&& final(self).entries().last().endpoint_manager.endpoints().len() == 0
                },
                ResolveAction::AddEndpoint { key } => {
                    let i = old(self).index_of(service_name@);
                    &&& i >= 0
                    &&& managed_key(old(self).entries()[i].endpoint_manager.endpoints(), uri@) is None
                    &&& key == old(self).entries()[i].endpoint_manager.counter() + 1
                    &&& final(self).entries().len() == old(self).entries().len()
                    &&& final(self).entries()[i].endpoint_manager.counter() == key
                    &&& final(self).entries()[i].endpoint_manager.endpoints() == old(self).entries()[i].endpoint_manager.endpoints()
                    &&& final(self).entries()[i].service_name == old(self).entries()[i].service_name
                    &&& final(self).entries()[i].key == old(self).entries()[i].key
                    &&& forall|j: int| 0 <= j < old(self).entries().len() && j != i
                        ==> #[trigger] final(self).entries()[j] == old(self).entries()[j]
                },
                ResolveAction::Known => {
                    let i = old(self).index_of(service_name@);
                    &&& i >= 0
                    &&& managed_key(old(self).entries()[i].endpoint_manager.endpoints(), uri@) is Some
                    &&& final(self).entries() == old(self).entries()
                },
            },
    {
        let ghost names = client_names(self.entries());
        proof { crate::subscriptions::lemma_first_index_props(names, service_name@); }
        match self.find(service_name) {
            Some(i) => {
                let ghost e0 = self.entries();
                let mut client = self.clients.remove(i);
                proof { assert(client == e0[i as int]); }
                let action = match client.endpoint_manager.begin_add(uri) {
                    Some(key) => ResolveAction::AddEndpoint { key },
                    None => ResolveAction::Known,
                };
                self.clients.insert(i, client);
                proof {
                    let e1 = self.entries();
                    assert(e1 =~= e0.update(i as int, client));
                    assert forall|a: int, b: int| 0 <= a < e1.len() && 0 <= b < e1.len() && a != b implies e1[a].service_name@ != e1[b].service_name@ by {
                        assert(e1[a].service_name@ == e0[a].service_name@);
                        assert(e1[b].service_name@ == e0[b].service_name@);
                    }
                    assert forall|a: int| 0 <= a < e1.len() implies (#[trigger] e1[a]).endpoint_manager.wf() by {
                        if a != i {
                            assert(e1[a] == e0[a]);
                        }
                    }
                    if action == ResolveAction::Known {
                        assert(e1 =~= e0);
                    }
                }
                action
            },
            None => {
                let ghost e0 = self.entries();
                let mut first_registration = SimpleEndpointManager::new();
                let key = match first_registration.begin_add(uri) {
                    Some(k) => k,
                    None => 2,
                };
                self.clients.push(
                    ServiceClient {
                        service_name: service_name.clone(),
                        key: uri.clone(),
                        endpoint_manager: SimpleEndpointManager::new(),
                    },
                );
                proof {
                    let e1 = self.entries();
                    assert(client_names(e0) == names);
                    assert forall|a: int, b: int| 0 <= a < e1.len() && 0 <= b < e1.len() && a != b implies e1[a].service_name@ != e1[b].service_name@ by {
                        if a < e0.len() && b < e0.len() {
                            assert(e1[a] == e0[a]);
                            assert(e1[b] == e0[b]);
                        } else if a < e0.len() {
                            assert(e1[a] == e0[a]);
                            assert(names[a] == e0[a].service_name@);
                            assert(names.contains(names[a]));
                        } else {
                            assert(e1[b] == e0[b]);
                            assert(names[b] == e0[b].service_name@);
                            assert(names.contains(names[b]));
                        }
                    }
                    assert forall|a: int| 0 <= a < e1.len() implies (#[trigger] e1[a]).endpoint_manager.wf() by {
                        if a < e0.len() {
                            assert(e1[a] == e0[a]);
                        }
                    }
                }
                ResolveAction::NewService { key }
            },
        }
    }

    /// Records that the channel of a known service took an endpoint under `key`.
    pub fn confirm_endpoint(&mut self, service_name: &String, uri: String, key: usize)
        requires
            old(self).wf(),
            old(self).index_of(service_name@) >= 0,
            ({
                let m = old(self).entries()[old(self).index_of(service_name@)].endpoint_manager;
                &&& managed_key(m.endpoints(), uri@) is None
                &&& key == m.counter()
                &&& key > 1
                &&& forall|k: int| 0 <= k < m.endpoints().len() ==> m.endpoints()[k].1 < key
            }),
        ensures
            final(self).wf(),
            final(self).entries().len() == old(self).entries().len(),
            ({
                let i = old(self).index_of(service_name@);
                &&& final(self).entries()[i].endpoint_manager.endpoints()
                    == old(self).entries()[i].endpoint_manager.endpoints().push((uri@, key))
                &&& final(self).entries()[i].endpoint_manager.counter() == old(self).entries()[i].endpoint_manager.counter()
                &&& final(self).entries()[i].service_name == old(self).entries()[i].service_name
                &&& final(self).entries()[i].key == old(self).entries()[i].key
                &&& forall|j: int| 0 <= j < old(self).entries().len() && j != i
                    ==> #[trigger] final(self).entries()[j] == old(self).entries()[j]
            }),
    {
        let ghost names = client_names(self.entries());
        proof { crate::subscriptions::lemma_first_index_props(names, service_name@); }
        match self.find(service_name) {
            Some(i) => {
                let ghost e0 = self.entries();
                let mut client = self.clients.remove(i);
                proof { assert(client == e0[i as int]); }
                client.endpoint_manager.confirm_add(uri, key);
                self.clients.insert(i, client);
                proof {
                    let e1 = self.entries();
                    assert(e1 =~= e0.update(i as int, client));
                    assert forall|a: int, b: int| 0 <= a < e1.len() && 0 <= b < e1.len() && a != b implies e1[a].service_name@ != e1[b].service_name@ by {
                        assert(e1[a].service_name@ == e0[a].service_name@);
                        assert(e1[b].service_name@ == e0[b].service_name@);
                    }
                    assert forall|a: int| 0 <= a < e1.len() implies (#[trigger] e1[a]).endpoint_manager.wf() by {
                        if a != i {
                            assert(e1[a] == e0[a]);
                        }
                    }
                }
            },
            None => {},
        }
    }
}

} // verus!
