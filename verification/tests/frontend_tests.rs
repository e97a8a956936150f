use std::collections::HashMap;
use swir::channels::{create_memory_channels, BrokerChannel, BrokerKind, StoreChannel};
use swir::config::{Channels, Kafka, ProducerTopic, Redis, StoreType, Stores, Swir};
use swir::frontend::{
    bad_json_reply, grpc_status_text, handler_entry, private_invocation_job, invocation_reply, messaging_reply, persistence_job, persistence_reply, publish_job,
    route, service_invocation_job, set_http_response, sub_unsubscribe_job, validate_content_type,
    PersistenceOperationType, Route, ServiceInvokeRequestHttp,
};
use swir::structs::{
    BackendStatusCodes, ClientSubscribeRequest, CustomerInterfaceType, EndpointDesc, HttpMethod, Job, MessagingResult,
    PersistenceJobType, PersistenceResult, SIJobType, SIResult,
};

fn headers(v: &[(&str, &str)]) -> Vec<(String, String)> {
    v.iter().map(|(a, b)| (a.to_string(), b.to_string())).collect()
}

fn config() -> Swir {
    Swir {
        client_ip: "127.0.0.1".to_string(),
        client_http_port: 8080,
        client_https_port: 8443,
        client_grpc_port: 50051,
        client_tls_private_key: String::new(),
        client_tls_certificate: String::new(),
        client_executable: None,
        channels: Channels {
            kafka: vec![Kafka {
                brokers: vec!["k".to_string()],
                producer_topics: vec![ProducerTopic { producer_topic: "Orders".to_string(), client_topic: "orders".to_string() }],
                consumer_topics: vec![],
            }],
            nats: vec![],
            aws_kinesis: vec![],
        },
        stores: Stores { redis: vec![Redis { nodes: vec![], client_database_names: vec!["users".to_string()] }], dynamodb: vec![] },
    }
}

#[test]
fn http_status_for_backend_status() {
    let r = set_http_response(BackendStatusCodes::OK("fine".to_string()));
    assert_eq!((r.status, r.body), (200, b"fine".to_vec()));
    let r = set_http_response(BackendStatusCodes::Error("bad".to_string()));
    assert_eq!(r.status, 500);
    let r = set_http_response(BackendStatusCodes::NoTopic("none".to_string()));
    assert_eq!(r.status, 500);
    let r = set_http_response(BackendStatusCodes::NoService("gone".to_string()));
    assert_eq!((r.status, r.body), (404, b"gone".to_vec()));
}

#[test]
fn routes() {
    assert_eq!(route("POST", "/pubsub/publish"), Route::Publish);
    assert_eq!(route("POST", "/pubsub/subscribe"), Route::Subscribe);
    assert_eq!(route("POST", "/pubsub/unsubscribe"), Route::Unsubscribe);
    assert_eq!(route("POST", "/persistence/store"), Route::Store);
    assert_eq!(route("POST", "/persistence/retrieve"), Route::Retrieve);
    assert_eq!(route("POST", "/persistence/delete"), Route::Delete);
    assert_eq!(route("POST", "/serviceinvocation/invoke/orders"), Route::Invoke);
    assert_eq!(route("GET", "/pubsub/publish"), Route::NotFound);
    assert_eq!(route("POST", "/pubsub"), Route::NotFound);
}

#[test]
fn missing_correlation_id_is_a_bad_request() {
    let r = handler_entry("POST", "/pubsub/publish", &headers(&[("topic", "orders")]));
    assert_eq!(r.err().unwrap().status, 400);
}

#[test]
fn unknown_route_is_not_found() {
    let r = handler_entry("POST", "/nowhere", &headers(&[("x-correlation-id", "c1")]));
    assert_eq!(r.err().unwrap().status, 404);
}

#[test]
fn subscribe_needs_json() {
    let r = handler_entry("POST", "/pubsub/subscribe", &headers(&[("x-correlation-id", "c1")]));
    assert_eq!(r.err().unwrap().status, 406);
    let r = handler_entry("POST", "/pubsub/subscribe", &headers(&[("x-correlation-id", "c1"), ("content-type", "text/plain")]));
    assert_eq!(r.err().unwrap().status, 406);
    let r = handler_entry("POST", "/pubsub/subscribe", &headers(&[("x-correlation-id", "c1"), ("content-type", "application/json")]));
    assert_eq!(r.ok().unwrap(), ("c1".to_string(), Route::Subscribe));
}

#[test]
fn publish_does_not_need_json() {
    let r = handler_entry("POST", "/pubsub/publish", &headers(&[("x-correlation-id", "c9"), ("x-correlation-id", "c10")]));
    assert_eq!(r.ok().unwrap(), ("c9".to_string(), Route::Publish));
}

#[test]
fn content_type_check() {
    assert_eq!(validate_content_type(&headers(&[("content-type", "application/json")])), Some(true));
    assert_eq!(validate_content_type(&headers(&[("content-type", "application/xml")])), None);
    assert_eq!(validate_content_type(&headers(&[])), None);
}

#[test]
fn publish_goes_to_the_topic_broker() {
    let mc = create_memory_channels(&config());
    let routes = &mc.messaging_memory_channels.from_client_to_messaging_sender;
    let (ch, job) = publish_job("c1".to_string(), "orders".to_string(), vec![1, 2], routes).ok().unwrap();
    assert_eq!(ch, BrokerChannel { kind: BrokerKind::Kafka, index: 0 });
    match job {
        Job::Publish(p) => {
            assert_eq!(p.correlation_id, "c1");
            assert_eq!(p.client_topic, "orders");
            assert_eq!(p.payload, vec![1, 2]);
        }
        _ => panic!("not a publish job"),
    }
    let r = publish_job("c1".to_string(), "unknown".to_string(), vec![], routes).err().unwrap();
    assert_eq!((r.status, r.body), (500, b"No mapping for this topic".to_vec()));
}

#[test]
fn subscribe_job_is_a_rest_subscription() {
    let mut c = config();
    c.channels.kafka[0].consumer_topics.push(swir::config::ConsumerTopic {
        consumer_topic: "Events".to_string(),
        consumer_group: "g".to_string(),
        client_topic: "events".to_string(),
    });
    let mc = create_memory_channels(&c);
    let routes = &mc.messaging_memory_channels.from_client_to_messaging_sender;
    let csr = ClientSubscribeRequest { endpoint: EndpointDesc { url: "http://a".to_string(), client_id: "x".to_string() }, client_topic: "events".to_string() };
    let (_, job) = sub_unsubscribe_job(false, csr, "c2".to_string(), routes).ok().unwrap();
    match job {
        Job::Unsubscribe(s) => {
            assert_eq!(s.correlation_id, "c2");
            assert_eq!(s.client_interface_type, CustomerInterfaceType::REST);
            assert_eq!(s.endpoint.url, "http://a");
        }
        _ => panic!("not an unsubscribe job"),
    }
    let csr = ClientSubscribeRequest { endpoint: EndpointDesc { url: "http://a".to_string(), client_id: "x".to_string() }, client_topic: "nope".to_string() };
    let r = sub_unsubscribe_job(true, csr, "c2".to_string(), routes).err().unwrap();
    assert_eq!((r.status, r.body), (500, b"No channel for this topic".to_vec()));
}

#[test]
fn persistence_jobs() {
    let mc = create_memory_channels(&config());
    let routes = &mc.persistence_memory_channels.from_client_to_persistence_senders;
    let (ch, job) = persistence_job(PersistenceOperationType::Store, "c".to_string(), "users".to_string(), "k".to_string(), vec![9], routes).ok().unwrap();
    assert_eq!(ch, StoreChannel { store_type: StoreType::Redis, index: 0 });
    match job {
        PersistenceJobType::Store(s) => {
            assert_eq!(s.table_name, "users");
            assert_eq!(s.key, "k");
            assert_eq!(s.payload, vec![9]);
        }
        _ => panic!("not a store job"),
    }
    let r = persistence_job(PersistenceOperationType::Delete, "c".to_string(), "none".to_string(), "k".to_string(), vec![], routes).err().unwrap();
    assert_eq!(r.status, 500);
}

#[test]
fn replies_from_outcomes() {
    assert_eq!(messaging_reply(None).status, 500);
    let r = messaging_reply(Some(MessagingResult { correlation_id: "c".to_string(), status: BackendStatusCodes::OK("KAFKA is good".to_string()) }));
    assert_eq!((r.status, r.body), (200, b"KAFKA is good".to_vec()));
    let r = persistence_reply(Some(PersistenceResult { correlation_id: "c".to_string(), status: BackendStatusCodes::OK("REDIS is good".to_string()), payload: b"value".to_vec() }));
    assert_eq!((r.status, r.body), (200, b"value".to_vec()));
    let r = persistence_reply(Some(PersistenceResult { correlation_id: "c".to_string(), status: BackendStatusCodes::Error("down".to_string()), payload: vec![] }));
    assert_eq!((r.status, r.body), (500, b"down".to_vec()));
    assert_eq!(persistence_reply(None).status, 500);
    let r = invocation_reply(Some(SIResult { correlation_id: "c".to_string(), status: BackendStatusCodes::NoService("Service x has not been resolved".to_string()), payload: vec![] }));
    assert_eq!(r.status, 404);
    assert_eq!(bad_json_reply("oops").status, 400);
}

fn invoke(method: &str, payload: &str) -> ServiceInvokeRequestHttp {
    ServiceInvokeRequestHttp { method: method.to_string(), request_target: "/orders/1".to_string(), headers: HashMap::new(), payload: payload.to_string() }
}

#[test]
fn service_invocation_decodes_payload() {
    let job = service_invocation_job("c1".to_string(), "/serviceinvocation/invoke/orders", invoke("GET", "aGVsbG8=")).ok().unwrap();
    match job {
        SIJobType::PublicInvokeHttp { correlation_id, service_name, req } => {
            assert_eq!(correlation_id, "c1");
            assert_eq!(service_name, "orders");
            assert_eq!(req.payload, b"hello".to_vec());
            assert_eq!(req.method, HttpMethod::GET);
            assert_eq!(req.request_target, "/orders/1");
        }
        _ => panic!("not a public invocation"),
    }
}

#[test]
fn service_invocation_rejects_bad_input() {
    let r = service_invocation_job("c1".to_string(), "/serviceinvocation/invoke/orders", invoke("GET", "not base64!")).err().unwrap();
    assert_eq!(r.status, 400);
    let r = service_invocation_job("c1".to_string(), "/serviceinvocation/invoke/orders", invoke("PATCH", "aGVsbG8=")).err().unwrap();
    assert_eq!(r.status, 400);
}

#[test]
fn grpc_status_is_the_backend_text_or_500() {
    assert_eq!(grpc_status_text(Some(&BackendStatusCodes::OK("done".to_string()))), "BackendStatusCodes::Ok done");
    assert_eq!(grpc_status_text(Some(&BackendStatusCodes::Error("bad".to_string()))), "BackendStatusCodes::ERR bad");
    assert_eq!(grpc_status_text(Some(&BackendStatusCodes::NoTopic("t".to_string()))), "BackendStatusCodes::NoTopic t");
    assert_eq!(grpc_status_text(None), "500");
}

fn hdrs(v: &[(&str, &str)]) -> Vec<(String, String)> {
    v.iter().map(|(a, b)| (a.to_string(), b.to_string())).collect()
}

#[test]
fn private_invocations_need_method_correlation_id_and_host() {
    let h = hdrs(&[("x-correlation-id", "c9"), ("host", "books")]);
    match private_invocation_job("PATCH", &h, HashMap::new(), "/x".to_string(), vec![]) {
        Err(reply) => assert_eq!((reply.status, reply.body.len()), (404, 0)),
        Ok(_) => panic!("expected 404"),
    }
    match private_invocation_job("GET", &hdrs(&[("host", "books")]), HashMap::new(), "/x".to_string(), vec![]) {
        Err(reply) => assert_eq!((reply.status, reply.body.len()), (400, 0)),
        Ok(_) => panic!("expected 400"),
    }
    match private_invocation_job("GET", &hdrs(&[("x-correlation-id", "c9")]), HashMap::new(), "/x".to_string(), vec![]) {
        Err(reply) => assert_eq!((reply.status, reply.body.len()), (400, 0)),
        Ok(_) => panic!("expected 400"),
    }
    let mut all = HashMap::new();
    all.insert("host".to_string(), "books".to_string());
    match private_invocation_job("PUT", &h, all.clone(), "/books/7".to_string(), vec![7, 8]) {
        Ok(SIJobType::PublicInvokeHttp { correlation_id, service_name, req }) => {
            assert_eq!((correlation_id.as_str(), service_name.as_str()), ("c9", "books"));
            assert_eq!(req.method, HttpMethod::PUT);
            assert_eq!(req.request_target, "/books/7");
            assert_eq!(req.headers, all);
            assert_eq!(req.payload, vec![7, 8]);
        }
        _ => panic!("expected a job"),
    }
}
