use swir::config::{
    config_file_name, AwsKinesis, Channels, ClientTopicsConfiguration, ConsumerTopic, DynamoDb, Kafka, Nats,
    ProducerTopic, Redis, Stores, Swir,
};

fn producer(client: &str, backend: &str) -> ProducerTopic {
    ProducerTopic { producer_topic: backend.to_string(), client_topic: client.to_string() }
}

fn consumer(client: &str, backend: &str, group: &str) -> ConsumerTopic {
    ConsumerTopic { consumer_topic: backend.to_string(), consumer_group: group.to_string(), client_topic: client.to_string() }
}

fn kafka() -> Kafka {
    Kafka {
        brokers: vec!["kafka:9092".to_string()],
        producer_topics: vec![producer("orders", "Orders"), producer("payments", "Payments"), producer("orders", "OrdersV2")],
        consumer_topics: vec![consumer("events", "Events", "g1")],
    }
}

#[test]
fn producer_topic_lookup_takes_last_entry() {
    let k = kafka();
    assert_eq!(k.get_producer_topic_for_client_topic("orders"), Some("OrdersV2".to_string()));
    assert_eq!(k.get_producer_topic_for_client_topic("payments"), Some("Payments".to_string()));
    assert_eq!(k.get_producer_topic_for_client_topic("unknown"), None);
}

#[test]
fn consumer_topic_lookup() {
    let k = kafka();
    assert_eq!(k.get_consumer_topic_for_client_topic("events"), Some("Events".to_string()));
    assert_eq!(k.get_consumer_topic_for_client_topic("orders"), None);
}

#[test]
fn nats_and_kinesis_lookups() {
    let n = Nats {
        brokers: vec!["nats://nats:4222".to_string()],
        producer_topics: vec![producer("a", "A")],
        consumer_topics: vec![consumer("b", "B", "g")],
    };
    assert_eq!(n.get_producer_topic_for_client_topic("a"), Some("A".to_string()));
    assert_eq!(n.get_consumer_topic_for_client_topic("b"), Some("B".to_string()));
    let k = AwsKinesis { regions: vec!["eu-west-1".to_string()], producer_topics: vec![], consumer_topics: vec![consumer("s", "Stream", "g")] };
    assert_eq!(k.get_producer_topic_for_client_topic("s"), None);
    assert_eq!(k.get_consumer_topic_for_client_topic("s"), Some("Stream".to_string()));
}

#[test]
fn config_file_defaults_to_swir_yaml() {
    assert_eq!(config_file_name(None), "swir.yaml");
    assert_eq!(config_file_name(Some("/etc/swir/custom.yaml".to_string())), "/etc/swir/custom.yaml");
}

#[test]
fn swir_new_keeps_settings() {
    let channels = Channels { kafka: vec![kafka()], nats: vec![], aws_kinesis: vec![] };
    let stores = Stores { redis: vec![Redis { nodes: vec![], client_database_names: vec!["db".to_string()] }], dynamodb: vec![DynamoDb { client_database_names: vec![] }] };
    let s: Box<Swir> = Swir::new("127.0.0.1".to_string(), 8080, 8443, 50051, "key.pem".to_string(), "cert.pem".to_string(), None, channels, stores);
    assert_eq!(s.client_ip, "127.0.0.1");
    assert_eq!(s.client_http_port, 8080);
    assert_eq!(s.client_https_port, 8443);
    assert_eq!(s.client_grpc_port, 50051);
    assert_eq!(s.client_executable, None);
    assert_eq!(s.channels.kafka.len(), 1);
    assert_eq!(s.stores.redis[0].client_database_names, vec!["db".to_string()]);
}
