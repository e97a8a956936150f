use swir::invocation::{ResolveAction, ServiceClients};
use std::collections::HashMap;
use swir::discovery::{AnnounceServiceDetails, ServiceDetails};
use swir::invocation::{
    find_client_url, internal_invoke_request, internal_invoke_result, map_client_to_backend_status_calls,
    no_client_url_result, public_invoke_result, unresolved_service_result, SimpleEndpointManager, INVOKE_STATUS_ERROR,
    INVOKE_STATUS_OK,
};
use swir::structs::{BackendStatusCodes, ClientCallStatusCodes, HttpMethod, RESTRequestResult, RESTResponseParams, ServiceInvokeRequest};

fn status_text(s: &BackendStatusCodes) -> String {
    match s {
        BackendStatusCodes::OK(m) => format!("OK {}", m),
        BackendStatusCodes::Error(m) => format!("Error {}", m),
        BackendStatusCodes::NoTopic(m) => format!("NoTopic {}", m),
        BackendStatusCodes::NoService(m) => format!("NoService {}", m),
    }
}

#[test]
fn client_call_status_maps_to_backend_status() {
    let (b, r) = map_client_to_backend_status_calls(ClientCallStatusCodes::OK("Cool".to_string()));
    assert_eq!(status_text(&b), "OK Cool");
    assert_eq!((r.status, r.msg), (INVOKE_STATUS_OK, "Cool".to_string()));
    let (b, r) = map_client_to_backend_status_calls(ClientCallStatusCodes::Error("boom".to_string()));
    assert_eq!(status_text(&b), "Error boom");
    assert_eq!((r.status, r.msg), (INVOKE_STATUS_ERROR, "boom".to_string()));
}

#[test]
fn endpoint_keys_start_at_two_and_never_repeat() {
    let mut m = SimpleEndpointManager::new();
    let a = "http://a:1".to_string();
    let b = "http://b:1".to_string();
    let ka = m.begin_add(&a).unwrap();
    assert_eq!(ka, 2);
    m.confirm_add(a.clone(), ka);
    assert_eq!(m.begin_add(&a), None);
    let kb = m.begin_add(&b).unwrap();
    assert_eq!(kb, 3);
    m.confirm_add(b.clone(), kb);
    assert_eq!(m.remove(&a), Some(2));
    assert_eq!(m.remove(&a), None);
    let ka2 = m.begin_add(&a).unwrap();
    assert_eq!(ka2, 4);
}

#[test]
fn a_failed_registration_still_uses_up_a_key() {
    let mut m = SimpleEndpointManager::new();
    let a = "http://a:1".to_string();
    assert_eq!(m.begin_add(&a), Some(2));
    // the load balancer refused it: not confirmed, so the next attempt gets a new key
    assert_eq!(m.begin_add(&a), Some(3));
}

fn announced(name: &str, url: &str) -> AnnounceServiceDetails {
    AnnounceServiceDetails {
        service_details: ServiceDetails { protocol: "http".to_string(), service_name: name.to_string(), domain: "swir".to_string() },
        client_url: url.to_string(),
    }
}

#[test]
fn client_url_is_the_first_announcement() {
    let a = vec![announced("orders", "http://one"), announced("orders", "http://two"), announced("users", "http://three")];
    assert_eq!(find_client_url(&a, &"orders".to_string()), Some("http://one".to_string()));
    assert_eq!(find_client_url(&a, &"users".to_string()), Some("http://three".to_string()));
    assert_eq!(find_client_url(&a, &"carts".to_string()), None);
}

#[test]
fn internal_request_targets_the_client() {
    let mut headers = HashMap::new();
    headers.insert("a".to_string(), "b".to_string());
    let req = ServiceInvokeRequest { method: HttpMethod::PUT, request_target: "/orders/7".to_string(), headers, payload: vec![1] };
    let ctx = internal_invoke_request("c1".to_string(), req, &"http://localhost:8090".to_string());
    assert_eq!(ctx.correlation_id, "c1");
    assert_eq!(ctx.request_params.uri, "http://localhost:8090/orders/7");
    assert_eq!(ctx.request_params.method, HttpMethod::PUT);
    assert_eq!(ctx.request_params.payload, vec![1]);
    assert_eq!(ctx.request_params.headers.get("a"), Some(&"b".to_string()));
}

#[test]
fn invocation_results() {
    let r = internal_invoke_result("c".to_string(), None);
    assert_eq!(status_text(&r.status), "Error Internal ereror");
    let ok = RESTRequestResult {
        correlation_id: "c".to_string(),
        status: ClientCallStatusCodes::OK("Cool".to_string()),
        response_params: RESTResponseParams { payload: b"body".to_vec(), headers: HashMap::new(), status: 200 },
    };
    let r = internal_invoke_result("c".to_string(), Some(ok));
    assert_eq!(status_text(&r.status), "OK Cool");
    assert_eq!(r.payload, b"body".to_vec());
    let r = no_client_url_result("c".to_string(), &"orders".to_string());
    assert_eq!(status_text(&r.status), "Error Can't find client url for service name orders");
    let r = unresolved_service_result("c".to_string(), &"orders".to_string());
    assert_eq!(status_text(&r.status), "NoService Service orders has not been resolved");
    let r = public_invoke_result("c".to_string(), Ok(vec![5]));
    assert_eq!(status_text(&r.status), "OK Service call ok");
    assert_eq!(r.payload, vec![5]);
    let r = public_invoke_result("c".to_string(), Err("deadline has elapsed".to_string()));
    assert_eq!(status_text(&r.status), "Error deadline has elapsed");
}

#[test]
fn resolved_endpoints_open_a_service_then_get_keys() {
    let mut clients = ServiceClients::new();
    let svc = "books".to_string();
    let first = "http://10.0.0.1:8080".to_string();
    let second = "http://10.0.0.2:8080".to_string();
    assert_eq!(clients.on_resolved(&svc, &first), ResolveAction::NewService { key: 2 });
    // the kept manager did not see the first registration
    assert_eq!(clients.on_resolved(&svc, &second), ResolveAction::AddEndpoint { key: 2 });
    clients.confirm_endpoint(&svc, second.clone(), 2);
    assert_eq!(clients.on_resolved(&svc, &second), ResolveAction::Known);
    assert_eq!(clients.on_resolved(&svc, &first), ResolveAction::AddEndpoint { key: 3 });
    let other = "magazines".to_string();
    assert_eq!(clients.on_resolved(&other, &second), ResolveAction::NewService { key: 2 });
}

#[test]
fn unconfirmed_endpoint_takes_a_new_key_next_time() {
    let mut clients = ServiceClients::new();
    let svc = "books".to_string();
    let uri = "http://h:1".to_string();
    assert_eq!(clients.on_resolved(&svc, &uri), ResolveAction::NewService { key: 2 });
    assert_eq!(clients.on_resolved(&svc, &uri), ResolveAction::AddEndpoint { key: 2 });
    assert_eq!(clients.on_resolved(&svc, &uri), ResolveAction::AddEndpoint { key: 3 });
}

#[test]
fn removing_an_endpoint_keeps_the_others() {
    let mut m = SimpleEndpointManager::new();
    let a = "http://a:1".to_string();
    let b = "http://b:1".to_string();
    let c = "http://c:1".to_string();
    for u in [&a, &b, &c] {
        let k = m.begin_add(u).unwrap();
        m.confirm_add(u.clone(), k);
    }
    assert_eq!(m.remove(&b), Some(3));
    assert_eq!(m.begin_add(&a), None);
    assert_eq!(m.begin_add(&c), None);
    assert_eq!(m.remove(&a), Some(2));
    assert_eq!(m.remove(&c), Some(4));
    assert_eq!(m.remove(&c), None);
}
