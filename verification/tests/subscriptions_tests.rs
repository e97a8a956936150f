use swir::config::{ConsumerTopic, Kafka};
use swir::structs::{BackendStatusCodes, CustomerInterfaceType, EndpointDesc, HttpMethod, SubscribeRequest};
use swir::subscriptions::Subscriptions;

fn kafka() -> Kafka {
    Kafka {
        brokers: vec!["k".to_string()],
        producer_topics: vec![],
        consumer_topics: vec![ConsumerTopic { consumer_topic: "Events".to_string(), consumer_group: "g".to_string(), client_topic: "events".to_string() }],
    }
}

fn request(correlation_id: &str, url: &str) -> SubscribeRequest {
    SubscribeRequest {
        endpoint: EndpointDesc { url: url.to_string(), client_id: "client".to_string() },
        correlation_id: correlation_id.to_string(),
        client_topic: "events".to_string(),
        client_interface_type: CustomerInterfaceType::REST,
    }
}

fn text(s: &BackendStatusCodes) -> (String, String) {
    match s {
        BackendStatusCodes::OK(m) => ("OK".to_string(), m.clone()),
        BackendStatusCodes::Error(m) => ("Error".to_string(), m.clone()),
        BackendStatusCodes::NoTopic(m) => ("NoTopic".to_string(), m.clone()),
        BackendStatusCodes::NoService(m) => ("NoService".to_string(), m.clone()),
    }
}

#[test]
fn first_subscription_creates_the_topic() {
    let mut subs = Subscriptions::new();
    let r = subs.subscribe(&kafka(), "Kafka", request("c1", "http://a"));
    assert_eq!(r.correlation_id, "c1");
    assert_eq!(text(&r.status), ("OK".to_string(), "Kafka has one susbscription for topic events".to_string()));
}

#[test]
fn second_subscription_is_counted() {
    let mut subs = Subscriptions::new();
    subs.subscribe(&kafka(), "Kafka", request("c1", "http://a"));
    let r = subs.subscribe(&kafka(), "Kafka", request("c2", "http://b"));
    assert_eq!(text(&r.status), ("OK".to_string(), "Kafka has 2 susbscriptions for topic events".to_string()));
}

#[test]
fn duplicate_subscription_is_refused() {
    let mut subs = Subscriptions::new();
    subs.subscribe(&kafka(), "Kafka", request("c1", "http://a"));
    let r = subs.subscribe(&kafka(), "Kafka", request("c1", "http://a"));
    assert_eq!(text(&r.status), ("NoTopic".to_string(), "Kafka: Duplicate subscription for topic events".to_string()));
    let notes = subs.notifications_for(&"Events".to_string(), &vec![1u8]);
    assert_eq!(notes.len(), 1);
}

#[test]
fn unknown_client_topic_is_refused() {
    let mut subs = Subscriptions::new();
    let mut req = request("c1", "http://a");
    req.client_topic = "other".to_string();
    let r = subs.subscribe(&kafka(), "Nats", req);
    assert_eq!(text(&r.status), ("NoTopic".to_string(), "Nats has no topic other".to_string()));
}

#[test]
fn unsubscribe_removes_and_counts() {
    let mut subs = Subscriptions::new();
    subs.subscribe(&kafka(), "Kafka", request("c1", "http://a"));
    subs.subscribe(&kafka(), "Kafka", request("c2", "http://b"));
    let r = subs.unsubscribe(&kafka(), "Kafka", request("c1", "http://a")).unwrap();
    assert_eq!(text(&r.status), ("OK".to_string(), "Kafka has 1 susbscriptions for topic events".to_string()));
    let r = subs.unsubscribe(&kafka(), "Kafka", request("c1", "http://a")).unwrap();
    assert_eq!(text(&r.status), ("NoTopic".to_string(), "Kafka has no subscription for topic events".to_string()));
    let r = subs.unsubscribe(&kafka(), "Kafka", request("c2", "http://b")).unwrap();
    assert_eq!(text(&r.status), ("OK".to_string(), "Kafka has 0 susbscriptions for topic events".to_string()));
    // the topic is gone: no answer at all
    assert!(subs.unsubscribe(&kafka(), "Kafka", request("c2", "http://b")).is_none());
    assert!(subs.notifications_for(&"Events".to_string(), &vec![1u8]).is_empty());
}

#[test]
fn unsubscribe_from_unknown_client_topic() {
    let mut subs = Subscriptions::new();
    let mut req = request("c1", "http://a");
    req.client_topic = "other".to_string();
    let r = subs.unsubscribe(&kafka(), "Kafka", req).unwrap();
    assert_eq!(text(&r.status), ("NoTopic".to_string(), "Kafka has no topic other".to_string()));
}

#[test]
fn subscribe_then_unsubscribe_leaves_nothing_to_notify() {
    let mut subs = Subscriptions::new();
    subs.subscribe(&kafka(), "Kafka", request("c1", "http://a"));
    subs.unsubscribe(&kafka(), "Kafka", request("c1", "http://a"));
    assert!(subs.notifications_for(&"Events".to_string(), &vec![7u8]).is_empty());
}

#[test]
fn notifications_go_to_each_subscriber_in_order() {
    let mut subs = Subscriptions::new();
    subs.subscribe(&kafka(), "Kafka", request("c1", "http://a/notify"));
    subs.subscribe(&kafka(), "Kafka", request("c2", "http://b/notify"));
    let notes = subs.notifications_for(&"Events".to_string(), &vec![104u8, 105u8]);
    assert_eq!(notes.len(), 2);
    assert_eq!(notes[0].request_params.uri, "http://a/notify");
    assert_eq!(notes[1].request_params.uri, "http://b/notify");
    assert_eq!(notes[0].request_params.payload, vec![104u8, 105u8]);
    assert_eq!(notes[0].request_params.method, HttpMethod::POST);
    assert!(notes[0].request_params.headers.is_empty());
    assert_eq!(
        notes[0].correlation_id,
        "SubscribeRequest { correlation_id: c1, endpoint: EndpointDesc { url: \"http://a/notify\", client_id: \"client\" }, client_topic:events, client_interface_type:REST }"
    );
}

#[test]
fn notifications_for_unknown_topic_are_empty() {
    let subs = Subscriptions::new();
    assert!(subs.notifications_for(&"Events".to_string(), &vec![1u8]).is_empty());
}

#[test]
fn subscription_text_matches_display() {
    let mut r = request("id-1", "http://x");
    r.client_interface_type = CustomerInterfaceType::GRPC;
    assert_eq!(
        r.to_string(),
        "SubscribeRequest { correlation_id: id-1, endpoint: EndpointDesc { url: \"http://x\", client_id: \"client\" }, client_topic:events, client_interface_type:GRPC }"
    );
    assert!(r.same_subscription(&r.clone()));
    assert!(!r.same_subscription(&request("id-1", "http://x")));
}

#[test]
fn unsubscribe_after_subscribe_reports_the_count_before_both() {
    let mut subs = Subscriptions::new();
    subs.subscribe(&kafka(), "Kafka", request("c1", "http://a"));
    subs.subscribe(&kafka(), "Kafka", request("c2", "http://b"));
    subs.subscribe(&kafka(), "Kafka", request("c3", "http://c"));
    let r = subs.unsubscribe(&kafka(), "Kafka", request("c3", "http://c")).unwrap();
    assert_eq!(text(&r.status), ("OK".to_string(), "Kafka has 2 susbscriptions for topic events".to_string()));
    let mut fresh = Subscriptions::new();
    fresh.subscribe(&kafka(), "Kafka", request("c9", "http://z"));
    let r = fresh.unsubscribe(&kafka(), "Kafka", request("c9", "http://z")).unwrap();
    assert_eq!(text(&r.status), ("OK".to_string(), "Kafka has 0 susbscriptions for topic events".to_string()));
}
