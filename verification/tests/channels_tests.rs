use swir::channels::{create_memory_channels, find_channel_by_database_name, find_channel_by_topic, store_channels, BrokerChannel, BrokerKind, StoreChannel};
use swir::config::{AwsKinesis, Channels, ConsumerTopic, DynamoDb, Kafka, Nats, ProducerTopic, Redis, StoreType, Stores, Swir};

fn producer(client: &str, backend: &str) -> ProducerTopic {
    ProducerTopic { producer_topic: backend.to_string(), client_topic: client.to_string() }
}

fn consumer(client: &str, backend: &str) -> ConsumerTopic {
    ConsumerTopic { consumer_topic: backend.to_string(), consumer_group: "g".to_string(), client_topic: client.to_string() }
}

fn names(v: &[&str]) -> Vec<String> {
    v.iter().map(|s| s.to_string()).collect()
}

fn config() -> Swir {
    let channels = Channels {
        kafka: vec![
            Kafka { brokers: names(&["k1"]), producer_topics: vec![producer("orders", "Orders")], consumer_topics: vec![consumer("events", "Events")] },
            Kafka { brokers: names(&["k2"]), producer_topics: vec![producer("audit", "Audit")], consumer_topics: vec![] },
        ],
        nats: vec![Nats { brokers: names(&["n1"]), producer_topics: vec![producer("orders", "OrdersNats")], consumer_topics: vec![consumer("alerts", "Alerts")] }],
        aws_kinesis: vec![AwsKinesis { regions: names(&["eu-west-1"]), producer_topics: vec![producer("clicks", "Clicks")], consumer_topics: vec![consumer("events", "EventsStream")] }],
    };
    let stores = Stores {
        redis: vec![
            Redis { nodes: names(&["redis://a"]), client_database_names: names(&["users", "carts"]) },
            Redis { nodes: names(&["redis://b"]), client_database_names: vec![] },
            Redis { nodes: names(&["redis://c"]), client_database_names: names(&["sessions"]) },
        ],
        dynamodb: vec![DynamoDb { client_database_names: names(&["carts"]) }],
    };
    Swir {
        client_ip: "127.0.0.1".to_string(),
        client_http_port: 8080,
        client_https_port: 8443,
        client_grpc_port: 50051,
        client_tls_private_key: String::new(),
        client_tls_certificate: String::new(),
        client_executable: None,
        channels,
        stores,
    }
}

#[test]
fn one_messaging_channel_per_broker() {
    let mc = create_memory_channels(&config());
    assert_eq!(mc.messaging_memory_channels.kafka_memory_channels, 2);
    assert_eq!(mc.messaging_memory_channels.nats_memory_channels, 1);
    assert_eq!(mc.messaging_memory_channels.aws_kinesis_memory_channels, 1);
}

#[test]
fn later_brokers_take_over_a_topic() {
    let mc = create_memory_channels(&config());
    let routes = &mc.messaging_memory_channels.from_client_to_messaging_sender;
    assert_eq!(find_channel_by_topic(routes, "orders"), Some(BrokerChannel { kind: BrokerKind::Nats, index: 0 }));
    assert_eq!(find_channel_by_topic(routes, "audit"), Some(BrokerChannel { kind: BrokerKind::Kafka, index: 1 }));
    assert_eq!(find_channel_by_topic(routes, "events"), Some(BrokerChannel { kind: BrokerKind::AwsKinesis, index: 0 }));
    assert_eq!(find_channel_by_topic(routes, "clicks"), Some(BrokerChannel { kind: BrokerKind::AwsKinesis, index: 0 }));
    assert_eq!(find_channel_by_topic(routes, "nothing"), None);
}

#[test]
fn rest_topics_are_the_consumer_topics() {
    let mc = create_memory_channels(&config());
    assert_eq!(mc.messaging_memory_channels.to_client_sender_for_rest, names(&["events", "events", "alerts"]));
}

#[test]
fn stores_without_databases_get_no_channel() {
    let mc = create_memory_channels(&config());
    let p = &mc.persistence_memory_channels;
    assert_eq!(p.redis_receivers, 2);
    assert_eq!(p.dynamodb_receivers, 1);
    let routes = &p.from_client_to_persistence_senders;
    assert_eq!(find_channel_by_database_name(routes, "users"), Some(StoreChannel { store_type: StoreType::Redis, index: 0 }));
    assert_eq!(find_channel_by_database_name(routes, "sessions"), Some(StoreChannel { store_type: StoreType::Redis, index: 1 }));
    assert_eq!(find_channel_by_database_name(routes, "carts"), Some(StoreChannel { store_type: StoreType::DynamoDb, index: 0 }));
    assert_eq!(find_channel_by_database_name(routes, "other"), None);
}

#[test]
fn empty_configuration_has_no_routes() {
    let mut c = config();
    c.channels = Channels { kafka: vec![], nats: vec![], aws_kinesis: vec![] };
    c.stores = Stores { redis: vec![], dynamodb: vec![] };
    let mc = create_memory_channels(&c);
    assert!(mc.messaging_memory_channels.from_client_to_messaging_sender.is_empty());
    assert!(mc.persistence_memory_channels.from_client_to_persistence_senders.is_empty());
    assert_eq!(mc.persistence_memory_channels.redis_receivers, 0);
}

#[test]
fn routed_topics_are_configured_on_their_broker() {
    let cfg = config();
    let mc = create_memory_channels(&cfg);
    let routes = &mc.messaging_memory_channels.from_client_to_messaging_sender;
    for topic in ["orders", "events", "audit", "alerts", "clicks"] {
        let ch = find_channel_by_topic(routes, topic).expect("routed");
        let (producers, consumers): (Vec<String>, Vec<String>) = match ch.kind {
            BrokerKind::Kafka => {
                let b = &cfg.channels.kafka[ch.index];
                (b.producer_topics.iter().map(|p| p.client_topic.clone()).collect(), b.consumer_topics.iter().map(|c| c.client_topic.clone()).collect())
            }
            BrokerKind::Nats => {
                let b = &cfg.channels.nats[ch.index];
                (b.producer_topics.iter().map(|p| p.client_topic.clone()).collect(), b.consumer_topics.iter().map(|c| c.client_topic.clone()).collect())
            }
            BrokerKind::AwsKinesis => {
                let b = &cfg.channels.aws_kinesis[ch.index];
                (b.producer_topics.iter().map(|p| p.client_topic.clone()).collect(), b.consumer_topics.iter().map(|c| c.client_topic.clone()).collect())
            }
        };
        assert!(producers.iter().chain(consumers.iter()).any(|t| t == topic));
    }
    assert_eq!(find_channel_by_topic(routes, "unknown"), None);
}

#[test]
fn each_serving_store_reads_its_own_channel() {
    let cfg = config();
    assert_eq!(store_channels(&cfg, StoreType::Redis), vec![Some(0), None, Some(1)]);
    assert_eq!(store_channels(&cfg, StoreType::DynamoDb), vec![Some(0)]);
    let mc = create_memory_channels(&cfg);
    let routes = &mc.persistence_memory_channels.from_client_to_persistence_senders;
    for db in ["users", "sessions"] {
        let ch = find_channel_by_database_name(routes, db).expect("routed");
        assert_eq!(ch.store_type, StoreType::Redis);
        let readers: Vec<usize> = store_channels(&cfg, StoreType::Redis)
            .iter()
            .enumerate()
            .filter(|(_, c)| **c == Some(ch.index))
            .map(|(j, _)| j)
            .collect();
        assert_eq!(readers.len(), 1);
        assert!(cfg.stores.redis[readers[0]].client_database_names.iter().any(|n| n == db));
    }
}
