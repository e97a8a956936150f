use swir::brokers::{
    generate_instance_name, generate_partition_key, get_type, handle_job, kafka_consumer_plan, next_shard_iterator,
    kinesis_region, pacing_delay_ms, publish_result, sequence_after_records, shard_lock_key, starting_sequence_number, validate_sequence_number, BrokerAction,
};
use swir::channels::BrokerKind;
use swir::config::{ConsumerTopic, Kafka, ProducerTopic};
use swir::structs::{BackendStatusCodes, CustomerInterfaceType, EndpointDesc, Job, PublishRequest, SubscribeRequest};
use swir::subscriptions::Subscriptions;

fn kafka() -> Kafka {
    Kafka {
        brokers: vec!["kafka:9092".to_string(), "kafka2:9092".to_string()],
        producer_topics: vec![ProducerTopic { producer_topic: "Orders".to_string(), client_topic: "orders".to_string() }],
        consumer_topics: vec![
            ConsumerTopic { consumer_topic: "Events".to_string(), consumer_group: "g1".to_string(), client_topic: "events".to_string() },
            ConsumerTopic { consumer_topic: "Alerts".to_string(), consumer_group: "g2".to_string(), client_topic: "alerts".to_string() },
        ],
    }
}

fn status_text(s: &BackendStatusCodes) -> String {
    match s {
        BackendStatusCodes::OK(m) => format!("OK {}", m),
        BackendStatusCodes::Error(m) => format!("Error {}", m),
        BackendStatusCodes::NoTopic(m) => format!("NoTopic {}", m),
        BackendStatusCodes::NoService(m) => format!("NoService {}", m),
    }
}

#[test]
fn broker_names() {
    assert_eq!(get_type(BrokerKind::Kafka), "Kafka");
    assert_eq!(get_type(BrokerKind::Nats), "Nats");
    assert_eq!(get_type(BrokerKind::AwsKinesis), "AwsKinesis");
}

#[test]
fn publish_results() {
    assert_eq!(status_text(&publish_result(BrokerKind::Kafka, "c".to_string(), Ok(())).status), "OK KAFKA is good");
    assert_eq!(status_text(&publish_result(BrokerKind::Nats, "c".to_string(), Ok(())).status), "OK NATS is good");
    assert_eq!(status_text(&publish_result(BrokerKind::AwsKinesis, "c".to_string(), Ok(())).status), "OK AWS Kinesis is good");
    assert_eq!(status_text(&publish_result(BrokerKind::Kafka, "c".to_string(), Err("timeout".to_string())).status), "Error timeout");
    assert_eq!(status_text(&publish_result(BrokerKind::AwsKinesis, "c".to_string(), Err("throttled".to_string())).status), "Error AWS Kinesis error");
}

#[test]
fn jobs_are_handled() {
    let mut subs = Subscriptions::new();
    let k = kafka();
    let p = PublishRequest { correlation_id: "c1".to_string(), payload: vec![1], client_topic: "orders".to_string() };
    match handle_job(&mut subs, &k, BrokerKind::Kafka, Job::Publish(p)) {
        BrokerAction::Publish { topic, request } => {
            assert_eq!(topic, "Orders");
            assert_eq!(request.correlation_id, "c1");
        }
        _ => panic!("expected a publish"),
    }
    let p = PublishRequest { correlation_id: "c2".to_string(), payload: vec![1], client_topic: "nope".to_string() };
    match handle_job(&mut subs, &k, BrokerKind::Kafka, Job::Publish(p)) {
        BrokerAction::Reply(m) => assert_eq!(status_text(&m.status), "NoTopic Can't find subscribe topic"),
        _ => panic!("expected a reply"),
    }
    let s = SubscribeRequest {
        endpoint: EndpointDesc { url: "http://a".to_string(), client_id: "x".to_string() },
        correlation_id: "c3".to_string(),
        client_topic: "events".to_string(),
        client_interface_type: CustomerInterfaceType::GRPC,
    };
    match handle_job(&mut subs, &k, BrokerKind::Kafka, Job::Subscribe(s.clone())) {
        BrokerAction::Reply(m) => assert_eq!(status_text(&m.status), "OK Kafka has one susbscription for topic events"),
        _ => panic!("expected a reply"),
    }
    match handle_job(&mut subs, &k, BrokerKind::Kafka, Job::Unsubscribe(s.clone())) {
        BrokerAction::Reply(m) => assert_eq!(status_text(&m.status), "OK Kafka has 0 susbscriptions for topic events"),
        _ => panic!("expected a reply"),
    }
    match handle_job(&mut subs, &k, BrokerKind::Kafka, Job::Unsubscribe(s)) {
        BrokerAction::NoReply => {}
        _ => panic!("expected no reply"),
    }
}

#[test]
fn kafka_consumers_use_the_first_group_and_broker() {
    let plan = kafka_consumer_plan(&kafka()).unwrap();
    assert_eq!(plan.topics, vec!["Events".to_string(), "Alerts".to_string()]);
    assert_eq!(plan.group, "g1");
    assert_eq!(plan.broker, "kafka:9092");
    let mut k = kafka();
    k.consumer_topics.clear();
    assert!(kafka_consumer_plan(&k).is_none());
}

#[test]
fn random_names_have_the_right_shape() {
    let n = generate_instance_name().expect("entropy");
    assert_eq!(n.chars().count(), 16);
    assert!(n.chars().all(|c| c.is_ascii_alphanumeric()));
    let k = generate_partition_key().expect("entropy");
    assert_eq!(k.chars().count(), 32);
    assert!(k.chars().all(|c| c.is_ascii_alphanumeric()));
}

#[test]
fn shard_locks_and_positions() {
    assert_eq!(shard_lock_key("stream", "group", "shardId-000"), "stream-group-shardId-000");
    // the pattern accepts any text holding a zero, or a non-zero digit followed by a backslash
    assert!(validate_sequence_number("49590338271490256608559692538361571095921575989136588898"));
    assert!(validate_sequence_number("0"));
    assert!(!validate_sequence_number("123"));
    assert!(!validate_sequence_number(""));
    assert!(validate_sequence_number("7\\"));
    assert_eq!(starting_sequence_number(Some("100".to_string()), "5".to_string()), "100");
    assert_eq!(starting_sequence_number(Some("abc".to_string()), "5".to_string()), "5");
    assert_eq!(starting_sequence_number(None, "5".to_string()), "5");
    assert_eq!(next_shard_iterator(3, Some("it".to_string())), Some("it".to_string()));
    assert_eq!(next_shard_iterator(0, Some("it".to_string())), None);
}

#[test]
fn shard_position_follows_the_last_record() {
    let seqs = vec!["101".to_string(), "205".to_string()];
    assert_eq!(sequence_after_records("100".to_string(), &seqs), "205");
    assert_eq!(sequence_after_records("100".to_string(), &vec![]), "100");
}

#[test]
fn kinesis_needs_exactly_one_region() {
    assert_eq!(kinesis_region(&vec!["eu-west-1".to_string()]), Some("eu-west-1".to_string()));
    assert_eq!(kinesis_region(&vec![]), None);
    assert_eq!(kinesis_region(&vec!["eu-west-1".to_string(), "us-east-1".to_string()]), None);
}

#[test]
fn reader_rounds_are_paced() {
    assert_eq!(pacing_delay_ms(1200, 5000), Some(3800));
    assert_eq!(pacing_delay_ms(5000, 5000), None);
    assert_eq!(pacing_delay_ms(7000, 5000), None);
}
