//! What a broker does with the jobs the client interfaces send it, and the bookkeeping of its
//! consumers (Kafka consumer settings, Kinesis shard positions).
use rand::{Rng, SeedableRng};
use vstd::prelude::*;
use vstd::string::*;
use crate::channels::BrokerKind;
use crate::config::{ClientTopicsConfiguration, Kafka, last_match, opt_string_view};
use crate::structs::{BackendStatusCodes, Job, MessagingResult, PublishRequest, SubscribeRequest};
use crate::subscriptions::{Subscriptions, status_view, subscribe_status, unsubscribe_status, spec_subscribe, spec_unsubscribe};

verus! {

/// The name a broker reports itself under.
pub open spec fn broker_name(kind: BrokerKind) -> Seq<char> {
    match kind {
        BrokerKind::Kafka => "Kafka"@,
        BrokerKind::Nats => "Nats"@,
        BrokerKind::AwsKinesis => "AwsKinesis"@,
    }
}

/// The name a broker reports itself under.
pub fn get_type(kind: BrokerKind) -> (r: String)
    ensures
        r@ == broker_name(kind),
{
    match kind {
        BrokerKind::Kafka => String::from_str("Kafka"),
        BrokerKind::Nats => String::from_str("Nats"),
        BrokerKind::AwsKinesis => String::from_str("AwsKinesis"),
    }
}

pub open spec fn publish_success_text(kind: BrokerKind) -> Seq<char> {
    match kind {
        BrokerKind::Kafka => "KAFKA is good"@,
        BrokerKind::Nats => "NATS is good"@,
        BrokerKind::AwsKinesis => "AWS Kinesis is good"@,
    }
}

/// The answer to a publish job, given whether the broker took the message (with its error's
/// text where not). Kinesis reports a fixed text for every error.
pub fn publish_result(kind: BrokerKind, correlation_id: String, outcome: Result<(), String>) -> (r: MessagingResult)
    ensures
        r.correlation_id == correlation_id,
        match outcome {
            Ok(_) => r.status matches BackendStatusCodes::OK(m) && m@ == publish_success_text(kind),
            Err(e) => r.status matches BackendStatusCodes::Error(m) && m@ == if kind == BrokerKind::AwsKinesis {
                "AWS Kinesis error"@
            } else {
                e@
            },
        },
{
    match outcome {
        Ok(_) => {
            let text = match kind {
                BrokerKind::Kafka => String::from_str("KAFKA is good"),
                BrokerKind::Nats => String::from_str("NATS is good"),
                BrokerKind::AwsKinesis => String::from_str("AWS Kinesis is good"),
            };
            MessagingResult { correlation_id, status: BackendStatusCodes::OK(text) }
        },
        Err(e) => {
            let text = match kind {
                BrokerKind::AwsKinesis => String::from_str("AWS Kinesis error"),
                _ => e,
            };
            MessagingResult { correlation_id, status: BackendStatusCodes::Error(text) }
        },
    }
}

/// What a broker does with a job: answer it at once, send nothing back, or publish a message
/// on a backend topic (and answer once the broker has taken it).
#[derive(Debug)]
pub enum BrokerAction {
    Reply(MessagingResult),
    NoReply,
    Publish { topic: String, request: PublishRequest },
}

/// Handles one job: subscriptions are kept in `subs`; a message is published on the producer
/// topic its client topic maps to, and where there is none the job is answered with
/// `Can't find subscribe topic`.
pub fn handle_job<C: ClientTopicsConfiguration>(
    subs: &mut Subscriptions,
    config: &C,
    kind: BrokerKind,
    job: Job,
) -> (r: BrokerAction)
    requires
        old(subs).wf(),
    ensures
        final(subs).wf(),
        match job {
            Job::Subscribe(req) => {
                let t = last_match(config.consumer_topic_pairs(), req.client_topic@);
                &&& final(subs)@ == match t {
                    Some(tt) => spec_subscribe(old(subs)@, tt, req@),
                    None => old(subs)@,
                }
                &&& r matches BrokerAction::Reply(m) && m.correlation_id@ == req.correlation_id@
                    && status_view(m.status) == subscribe_status(old(subs)@, t, req@, broker_name(kind))
            },
            Job::Unsubscribe(req) => {
                let t = last_match(config.consumer_topic_pairs(), req.client_topic@);
                &&& final(subs)@ == match t {
                    Some(tt) => spec_unsubscribe(old(subs)@, tt, req@),
                    None => old(subs)@,
                }
                &&& match unsubscribe_status(old(subs)@, t, req@, broker_name(kind)) {
                    Some(st) => r matches BrokerAction::Reply(m) && m.correlation_id@ == req.correlation_id@
                        && status_view(m.status) == st,
                    None => r matches BrokerAction::NoReply,
                }
            },
            Job::Publish(p) => {
                &&& final(subs)@ == old(subs)@
                &&& match last_match(config.producer_topic_pairs(), p.client_topic@) {
                    Some(t) => r matches BrokerAction::Publish { topic, request } && topic@ == t && request == p,
                    None => r matches BrokerAction::Reply(m) && m.correlation_id == p.correlation_id
                        && (m.status matches BackendStatusCodes::NoTopic(msg) && msg@ == "Can't find subscribe topic"@),
                }
            },
        },
{
    let name = get_type(kind);
    match job {
        Job::Subscribe(req) => BrokerAction::Reply(subs.subscribe(config, name.as_str(), req)),
        Job::Unsubscribe(req) => match subs.unsubscribe(config, name.as_str(), req) {
            Some(m) => BrokerAction::Reply(m),
            None => BrokerAction::NoReply,
        },
        Job::Publish(p) => match config.get_producer_topic_for_client_topic(p.client_topic.as_str()) {
            Some(topic) => BrokerAction::Publish { topic, request: p },
            None => BrokerAction::Reply(
                MessagingResult {
                    correlation_id: p.correlation_id,
                    status: BackendStatusCodes::NoTopic(String::from_str("Can't find subscribe topic")),
                },
            ),
        },
    }
}

/// How a Kafka broker consumes: the consumer topics, and the group and bootstrap server it
/// uses (the first configured of each).
#[derive(Debug)]
pub struct KafkaConsumerPlan {
    pub topics: Vec<String>,
    pub group: String,
    pub broker: String,
}

/// The consumer settings of a Kafka broker; none where it has no consumer topics.
pub fn kafka_consumer_plan(kafka: &Kafka) -> (r: Option<KafkaConsumerPlan>)
    requires
        kafka.consumer_topics@.len() > 0 ==> kafka.brokers@.len() > 0,
    ensures
        kafka.consumer_topics@.len() == 0 <==> r is None,
        r matches Some(p) ==> {
            &&& p.topics@.len() == kafka.consumer_topics@.len()
            &&& forall|i: int| 0 <= i < p.topics@.len() ==> (#[trigger] p.topics@[i])@ == kafka.consumer_topics@[i].consumer_topic@
            &&& p.group@ == kafka.consumer_topics@[0].consumer_group@
            &&& p.broker@ == kafka.brokers@[0]@
        },
{
    if kafka.consumer_topics.len() == 0 {
        return None;
    }
    let mut topics: Vec<String> = Vec::new();
    let mut i: usize = 0;
    while i < kafka.consumer_topics.len()
        invariant
            i <= kafka.consumer_topics@.len(),
            topics@.len() == i,
            forall|j: int| 0 <= j < i ==> (#[trigger] topics@[j])@ == kafka.consumer_topics@[j].consumer_topic@,
        decreases kafka.consumer_topics@.len() - i,
    {
        topics.push(kafka.consumer_topics[i].consumer_topic.clone());
        i = i + 1;
    }
    Some(KafkaConsumerPlan {
        topics,
        group: kafka.consumer_topics[0].consumer_group.clone(),
        broker: kafka.brokers[0].clone(),
    })
}

/// Whether a character is an ASCII letter or digit.
pub open spec fn is_alphanumeric(c: char) -> bool {
    ('a' <= c && c <= 'z') || ('A' <= c && c <= 'Z') || ('0' <= c && c <= '9')
}

/// A random string of ASCII letters and digits, drawn with `rand`'s `Alphanumeric`
/// distribution from a `SmallRng` that `SeedableRng::from_rng` seeds from `OsRng`. Where the
/// operating system gives no entropy, seeding fails and the result is `None`; otherwise the
/// contract states the string's length and alphabet only: which characters come out, and
/// whether seeding succeeds, is chance.
#[verifier::external_body]
fn random_alphanumeric(len: usize) -> (r: Option<String>)
    ensures
        r matches Some(s) ==> s@.len() == len && forall|i: int| 0 <= i < s@.len() ==> is_alphanumeric(#[trigger] s@[i]),
{
    match rand::rngs::SmallRng::from_rng(rand::rngs::OsRng) {
        Ok(rng) => Some(rng.sample_iter(rand::distributions::Alphanumeric).take(len).collect()),
        Err(_) => None,
    }
}

/// A random instance name of 16 letters and digits; none where the operating system gives
/// no entropy.
pub fn generate_instance_name() -> (r: Option<String>)
    ensures
        r matches Some(s) ==> s@.len() == 16 && forall|i: int| 0 <= i < s@.len() ==> is_alphanumeric(#[trigger] s@[i]),
{
    random_alphanumeric(16)
}

/// A random Kinesis partition key of 32 letters and digits; none where the operating system
/// gives no entropy.
pub fn generate_partition_key() -> (r: Option<String>)
    ensures
        r matches Some(s) ==> s@.len() == 32 && forall|i: int| 0 <= i < s@.len() ==> is_alphanumeric(#[trigger] s@[i]),
{
    random_alphanumeric(32)
}

/// The table that holds the Kinesis shard locks.
pub const DYNAMO_DB_LOCK_TABLE_NAME: &'static str = "swir-locks";

/// The lock that guards a shard for a consumer group: `{stream}-{group}-{shard}`.
pub fn shard_lock_key(stream_name: &str, group_name: &str, shard_id: &str) -> (r: String)
    ensures
        r@ == stream_name@ + "-"@ + group_name@ + "-"@ + shard_id@,
{
    let mut s = String::from_str(stream_name);
    s.append("-");
    s.append(group_name);
    s.append("-");
    s.append(shard_id);
    s
}

/// Whether a regular expression, once compiled, finds a match in a text: `None` where the
/// pattern does not compile.
pub uninterp spec fn regex_finds(pattern: Seq<char>, haystack: Seq<char>) -> Option<bool>;

/// The pattern a stored Kinesis sequence number is checked against. Read as a regular
/// expression it is `0`, or a digit 1-9 followed by a literal backslash and up to 128 `d`s.
pub open spec fn sequence_number_pattern() -> Seq<char> {
    "0|([1-9]\\\\d{0,128})"@
}

/// What an unanchored search with the sequence-number pattern finds: a `0`, or a digit 1-9
/// directly followed by a backslash, anywhere in the text.
pub open spec fn sequence_number_found(s: Seq<char>) -> bool {
    exists|i: int|
        0 <= i < s.len() && (s[i] == '0' || ('1' <= #[trigger] s[i] <= '9' && i + 1 < s.len() && s[i + 1] == '\\'))
}

/// Compiles `pattern` with `regex::Regex::new` and searches `haystack` with `Regex::is_match`.
/// The contract names the outcome in general, and states it for the sequence-number pattern,
/// which compiles and matches as its syntax reads (an alternation, a class, an escaped
/// backslash, a bounded repetition; `is_match` searches anywhere in the text).
#[verifier::external_body]
fn regex_is_match(pattern: &str, haystack: &str) -> (r: Option<bool>)
    ensures
        r == regex_finds(pattern@, haystack@),
        pattern@ == sequence_number_pattern() ==> r == Some(sequence_number_found(haystack@)),
{
    match regex::Regex::new(pattern) {
        Ok(re) => Some(re.is_match(haystack)),
        Err(_) => None,
    }
}

/// Whether a stored sequence number is usable: whether the sequence-number pattern finds a
/// match in it.
pub fn validate_sequence_number(input: &str) -> (r: bool)
    ensures
        r == sequence_number_found(input@),
{
    match regex_is_match("0|([1-9]\\\\d{0,128})", input) {
        Some(b) => b,
        None => false,
    }
}

/// The sequence number to read a shard after: the one its lock stored, where that is usable,
/// else the start of the shard's range.
pub fn starting_sequence_number(lock_data: Option<String>, shard_start: String) -> (r: String)
    ensures
        r@ == {
            let stored = match lock_data {
                Some(d) => d@,
                None => Seq::<char>::empty(),
            };
            if sequence_number_found(stored) {
                stored
            } else {
                shard_start@
            }
        },
{
    let stored = match lock_data {
        Some(d) => d,
        None => String::new(),
    };
    if validate_sequence_number(stored.as_str()) {
        stored
    } else {
        shard_start
    }
}

/// The shard iterator to continue with after a read: the next one while records keep
/// coming, none once a read returns no record.
pub fn next_shard_iterator(records_read: usize, next: Option<String>) -> (r: Option<String>)
    ensures
        records_read > 0 ==> r == next,
        records_read == 0 ==> r is None,
{
    if records_read > 0 {
        next
    } else {
        None
    }
}

/// The sequence number a shard has been read up to after a batch of records: that of the
/// batch's last record, or the one before where the batch was empty.
pub fn sequence_after_records(current: String, record_sequence_numbers: &Vec<String>) -> (r: String)
    ensures
        record_sequence_numbers@.len() == 0 ==> r == current,
        record_sequence_numbers@.len() > 0 ==> r@ == record_sequence_numbers@.last()@,
{
    let n = record_sequence_numbers.len();
    if n == 0 {
        current
    } else {
        record_sequence_numbers[n - 1].clone()
    }
}

/// The region a Kinesis broker connects to: it must name exactly one.
pub fn kinesis_region(regions: &Vec<String>) -> (r: Option<String>)
    ensures
        regions@.len() == 1 ==> (r matches Some(x) && x@ == regions@[0]@),
        regions@.len() != 1 ==> r is None,
{
    if regions.len() == 1 {
        Some(regions[0].clone())
    } else {
        None
    }
}

/// How long the Kinesis reader waits before its next round, which starts no sooner than one
/// interval after the last one began.
pub fn pacing_delay_ms(elapsed_ms: u64, interval_ms: u64) -> (r: Option<u64>)
    ensures
        elapsed_ms < interval_ms ==> r == Some((interval_ms - elapsed_ms) as u64),
        elapsed_ms >= interval_ms ==> r is None,
{
    if elapsed_ms < interval_ms {
        Some(interval_ms - elapsed_ms)
    } else {
        None
    }
}

} // verus!
