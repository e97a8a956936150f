//! The sidecar's configuration: which brokers and stores exist, and which backend topic
//! stands for each client topic.
use vstd::prelude::*;
use vstd::string::*;

verus! {

/// The kinds of key-value store the sidecar can talk to.
#[derive(Debug, Hash, PartialEq, Eq, Copy, Clone, Structural)]
pub enum StoreType {
    Redis,
    DynamoDb,
}

/// A client topic that is published to a backend topic.
#[derive(Debug, Clone)]
pub struct ProducerTopic {
    pub producer_topic: String,
    pub client_topic: String,
}

/// A backend topic, read by a consumer group, that is delivered on a client topic.
#[derive(Debug, Clone)]
pub struct ConsumerTopic {
    pub consumer_topic: String,
    pub consumer_group: String,
    pub client_topic: String,
}

/// Pairs of (client topic, backend topic), in configuration order.
pub type TopicPairs = Seq<(Seq<char>, Seq<char>)>;

/// The backend topic paired with `key` by the last pair that names it.
pub open spec fn last_match(pairs: TopicPairs, key: Seq<char>) -> Option<Seq<char>>
    decreases pairs.len(),
{
    if pairs.len() == 0 {
        None
    } else if pairs.last().0 == key {
        Some(pairs.last().1)
    } else {
        last_match(pairs.drop_last(), key)
    }
}

pub open spec fn producer_pairs(topics: Seq<ProducerTopic>) -> TopicPairs {
    topics.map_values(|t: ProducerTopic| (t.client_topic@, t.producer_topic@))
}

pub open spec fn consumer_pairs(topics: Seq<ConsumerTopic>) -> TopicPairs {
    topics.map_values(|t: ConsumerTopic| (t.client_topic@, t.consumer_topic@))
}

pub open spec fn opt_string_view(o: Option<String>) -> Option<Seq<char>> {
    match o {
        Some(s) => Some(s@),
        None => None,
    }
}

proof fn lemma_last_match_extend(pairs: TopicPairs, key: Seq<char>, i: int)
    requires
        0 <= i < pairs.len(),
    ensures
        last_match(pairs.take(i + 1), key) == if pairs[i].0 == key {
            Some(pairs[i].1)
        } else {
            last_match(pairs.take(i), key)
        },
{
    assert(pairs.take(i + 1).drop_last() =~= pairs.take(i));
}

/// The backend topic that the configuration pairs with a client topic on the producing side.
pub fn producer_topic_for(topics: &Vec<ProducerTopic>, client_topic: &str) -> (r: Option<String>)
    ensures
        opt_string_view(r) == last_match(producer_pairs(topics@), client_topic@),
{
    let ghost pairs = producer_pairs(topics@);
    let key = String::from_str(client_topic);
    let mut maybe_topic: Option<String> = None;
    let mut i: usize = 0;
    assert(pairs.take(0) =~= Seq::<(Seq<char>, Seq<char>)>::empty());
    while i < topics.len()
        invariant
            i <= topics@.len(),
            pairs == producer_pairs(topics@),
            key@ == client_topic@,
            opt_string_view(maybe_topic) == last_match(pairs.take(i as int), key@),
        decreases topics@.len() - i,
    {
        proof { lemma_last_match_extend(pairs, key@, i as int); }
        if topics[i].client_topic == key {
            maybe_topic = Some(topics[i].producer_topic.clone());
        }
        i = i + 1;
    }
    assert(pairs.take(topics@.len() as int) =~= pairs);
    maybe_topic
}

/// The backend topic that the configuration pairs with a client topic on the consuming side.
pub fn consumer_topic_for(topics: &Vec<ConsumerTopic>, client_topic: &str) -> (r: Option<String>)
    ensures
        opt_string_view(r) == last_match(consumer_pairs(topics@), client_topic@),
{
    let ghost pairs = consumer_pairs(topics@);
    let key = String::from_str(client_topic);
    let mut maybe_topic: Option<String> = None;
    let mut i: usize = 0;
    assert(pairs.take(0) =~= Seq::<(Seq<char>, Seq<char>)>::empty());
    while i < topics.len()
        invariant
            i <= topics@.len(),
            pairs == consumer_pairs(topics@),
            key@ == client_topic@,
            opt_string_view(maybe_topic) == last_match(pairs.take(i as int), key@),
        decreases topics@.len() - i,
    {
        proof { lemma_last_match_extend(pairs, key@, i as int); }
        if topics[i].client_topic == key {
            maybe_topic = Some(topics[i].consumer_topic.clone());
        }
        i = i + 1;
    }
    assert(pairs.take(topics@.len() as int) =~= pairs);
    maybe_topic
}

/// How one broker maps client topics to its own topics.
pub trait ClientTopicsConfiguration {
    /// (client topic, producer topic) pairs, in configuration order.
    spec fn producer_topic_pairs(&self) -> TopicPairs;

    /// (client topic, consumer topic) pairs, in configuration order.
    spec fn consumer_topic_pairs(&self) -> TopicPairs;

    /// The producer topic for a client topic; where several entries name it, the last wins.
    fn get_producer_topic_for_client_topic(&self, client_topic: &str) -> (r: Option<String>)
        ensures
            opt_string_view(r) == last_match(self.producer_topic_pairs(), client_topic@),
    ;

    /// The consumer topic for a client topic; where several entries name it, the last wins.
    fn get_consumer_topic_for_client_topic(&self, client_topic: &str) -> (r: Option<String>)
        ensures
            opt_string_view(r) == last_match(self.consumer_topic_pairs(), client_topic@),
    ;
}

/// A Kafka cluster and the topics the sidecar uses on it.
#[derive(Debug, Clone)]
pub struct Kafka {
    pub brokers: Vec<String>,
    pub producer_topics: Vec<ProducerTopic>,
    pub consumer_topics: Vec<ConsumerTopic>,
}

impl ClientTopicsConfiguration for Kafka {
    open spec fn producer_topic_pairs(&self) -> TopicPairs {
        producer_pairs(self.producer_topics@)
    }

    open spec fn consumer_topic_pairs(&self) -> TopicPairs {
        consumer_pairs(self.consumer_topics@)
    }

    fn get_producer_topic_for_client_topic(&self, client_topic: &str) -> (r: Option<String>) {
        producer_topic_for(&self.producer_topics, client_topic)
    }

    fn get_consumer_topic_for_client_topic(&self, client_topic: &str) -> (r: Option<String>) {
        consumer_topic_for(&self.consumer_topics, client_topic)
    }
}

/// A NATS cluster and the topics the sidecar uses on it.
#[derive(Debug, Clone)]
pub struct Nats {
    pub brokers: Vec<String>,
    pub producer_topics: Vec<ProducerTopic>,
    pub consumer_topics: Vec<ConsumerTopic>,
}

impl ClientTopicsConfiguration for Nats {
    open spec fn producer_topic_pairs(&self) -> TopicPairs {
        producer_pairs(self.producer_topics@)
    }

    open spec fn consumer_topic_pairs(&self) -> TopicPairs {
        consumer_pairs(self.consumer_topics@)
    }

    fn get_producer_topic_for_client_topic(&self, client_topic: &str) -> (r: Option<String>) {
        producer_topic_for(&self.producer_topics, client_topic)
    }

    fn get_consumer_topic_for_client_topic(&self, client_topic: &str) -> (r: Option<String>) {
        consumer_topic_for(&self.consumer_topics, client_topic)
    }
}

/// AWS Kinesis streams (in one region) and the topics the sidecar uses on them.
#[derive(Debug, Clone)]
pub struct AwsKinesis {
    pub regions: Vec<String>,
    pub producer_topics: Vec<ProducerTopic>,
    pub consumer_topics: Vec<ConsumerTopic>,
}

impl ClientTopicsConfiguration for AwsKinesis {
    open spec fn producer_topic_pairs(&self) -> TopicPairs {
        producer_pairs(self.producer_topics@)
    }

    open spec fn consumer_topic_pairs(&self) -> TopicPairs {
        consumer_pairs(self.consumer_topics@)
    }

    fn get_producer_topic_for_client_topic(&self, client_topic: &str) -> (r: Option<String>) {
        producer_topic_for(&self.producer_topics, client_topic)
    }

    fn get_consumer_topic_for_client_topic(&self, client_topic: &str) -> (r: Option<String>) {
        consumer_topic_for(&self.consumer_topics, client_topic)
    }
}

/// A Redis store and the client database names it serves.
#[derive(Debug, Clone)]
pub struct Redis {
    pub nodes: Vec<String>,
    pub client_database_names: Vec<String>,
}

/// A DynamoDB store and the client database names it serves.
#[derive(Debug, Clone)]
pub struct DynamoDb {
    pub client_database_names: Vec<String>,
}

/// All configured brokers.
#[derive(Debug, Clone)]
pub struct Channels {
    pub kafka: Vec<Kafka>,
    pub nats: Vec<Nats>,
    pub aws_kinesis: Vec<AwsKinesis>,
}

/// All configured stores.
#[derive(Debug, Clone)]
pub struct Stores {
    pub redis: Vec<Redis>,
    pub dynamodb: Vec<DynamoDb>,
}

/// The sidecar's configuration.
#[derive(Debug)]
pub struct Swir {
    pub client_ip: String,
    pub client_http_port: u16,
    pub client_https_port: u16,
    pub client_grpc_port: u16,
    pub client_tls_private_key: String,
    pub client_tls_certificate: String,
    pub client_executable: Option<String>,
    pub channels: Channels,
    pub stores: Stores,
}

/// The configuration file read when the environment names none.
pub open spec fn default_config_file() -> Seq<char> {
    "swir.yaml"@
}

/// The configuration file to read: the one the environment names (`SWIR_CONFIG_FILE`), or
/// `swir.yaml` in the working directory.
pub fn config_file_name(from_environment: Option<String>) -> (r: String)
    ensures
        r@ == match from_environment {
            Some(f) => f@,
            None => default_config_file(),
        },
{
    match from_environment {
        Some(f) => f,
        None => String::from_str("swir.yaml"),
    }
}

impl Swir {
    /// Assembles the configuration from its loaded settings, boxed as the sidecar keeps it.
    pub fn new(
        client_ip: String,
        client_http_port: u16,
        client_https_port: u16,
        client_grpc_port: u16,
        client_tls_private_key: String,
        client_tls_certificate: String,
        client_executable: Option<String>,
        channels: Channels,
        stores: Stores,
    ) -> (r: Box<Swir>)
        ensures
            r.client_ip == client_ip,
            r.client_http_port == client_http_port,
            r.client_https_port == client_https_port,
            r.client_grpc_port == client_grpc_port,
            r.client_tls_private_key == client_tls_private_key,
            r.client_tls_certificate == client_tls_certificate,
            r.client_executable == client_executable,
            r.channels == channels,
            r.stores == stores,
    {
        Box::new(
            Swir {
                client_ip,
                client_http_port,
                client_https_port,
                client_grpc_port,
                client_tls_private_key,
                client_tls_certificate,
                client_executable,
                channels,
                stores,
            },
        )
    }
}

} // verus!
