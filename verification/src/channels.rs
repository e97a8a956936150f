//! The in-memory routing between client interfaces and backends: which broker channel
//! serves each client topic, and which store channel serves each client database.
//!
//! One channel is opened per configured broker, and one per store that serves at least one
//! database. Routes are kept in the order the configuration inserts them; where a topic or a
//! database is inserted twice, the later insertion wins, as with a map.
use vstd::prelude::*;
use vstd::string::*;
use crate::config::{
    AwsKinesis, ConsumerTopic, DynamoDb, Kafka, Nats, ProducerTopic, Redis, StoreType, Swir,
};

verus! {

/// The kinds of broker the sidecar can talk to.
#[derive(Debug, PartialEq, Eq, Copy, Clone, Structural)]
pub enum BrokerKind {
    Kafka,
    Nats,
    AwsKinesis,
}

/// The channel of one configured broker: its kind and its position among the brokers of
/// that kind.
#[derive(Debug, PartialEq, Eq, Copy, Clone, Structural)]
pub struct BrokerChannel {
    pub kind: BrokerKind,
    pub index: usize,
}

/// The channel of one store: its type and its position among the channels of that type.
#[derive(Debug, PartialEq, Eq, Copy, Clone, Structural)]
pub struct StoreChannel {
    pub store_type: StoreType,
    pub index: usize,
}

/// A client topic and the broker channel that serves it.
#[derive(Debug)]
pub struct TopicRoute {
    pub client_topic: String,
    pub channel: BrokerChannel,
}

/// A client database and the store channel that serves it.
#[derive(Debug)]
pub struct DatabaseRoute {
    pub database_name: String,
    pub channel: StoreChannel,
}

/// The messaging channels: one per broker, the routes from client topics to them, and the
/// client topics whose messages are delivered over REST.
#[derive(Debug)]
pub struct MessagingMemoryChannels {
    pub kafka_memory_channels: usize,
    pub nats_memory_channels: usize,
    pub aws_kinesis_memory_channels: usize,
    pub to_client_sender_for_rest: Vec<String>,
    pub from_client_to_messaging_sender: Vec<TopicRoute>,
}

/// The persistence channels: how many each store type has, and the routes from client
/// databases to them.
#[derive(Debug)]
pub struct PersistenceMemoryChannels {
    pub from_client_to_persistence_senders: Vec<DatabaseRoute>,
    pub redis_receivers: usize,
    pub dynamodb_receivers: usize,
}

/// All in-memory channels of the sidecar.
#[derive(Debug)]
pub struct MemoryChannels {
    pub messaging_memory_channels: MessagingMemoryChannels,
    pub persistence_memory_channels: PersistenceMemoryChannels,
}

pub type RouteSeq<C> = Seq<(Seq<char>, C)>;

pub open spec fn topic_routes_view(v: Seq<TopicRoute>) -> RouteSeq<BrokerChannel> {
    v.map_values(|r: TopicRoute| (r.client_topic@, r.channel))
}

pub open spec fn database_routes_view(v: Seq<DatabaseRoute>) -> RouteSeq<StoreChannel> {
    v.map_values(|r: DatabaseRoute| (r.database_name@, r.channel))
}

pub open spec fn strings_view(v: Seq<String>) -> Seq<Seq<char>> {
    v.map_values(|s: String| s@)
}

/// The routes one broker inserts: its producer client topics, then its consumer client topics.
pub open spec fn broker_routes(
    producers: Seq<ProducerTopic>,
    consumers: Seq<ConsumerTopic>,
    ch: BrokerChannel,
) -> RouteSeq<BrokerChannel> {
    producers.map_values(|p: ProducerTopic| (p.client_topic@, ch)) + consumers.map_values(
        |c: ConsumerTopic| (c.client_topic@, ch),
    )
}

pub open spec fn consumer_client_topics(consumers: Seq<ConsumerTopic>) -> Seq<Seq<char>> {
    consumers.map_values(|c: ConsumerTopic| c.client_topic@)
}

pub open spec fn kafka_routes(ks: Seq<Kafka>) -> RouteSeq<BrokerChannel>
    decreases ks.len(),
{
    if ks.len() == 0 {
        Seq::empty()
    } else {
        kafka_routes(ks.drop_last()) + broker_routes(
            ks.last().producer_topics@,
            ks.last().consumer_topics@,
            BrokerChannel { kind: BrokerKind::Kafka, index: (ks.len() - 1) as usize },
        )
    }
}

pub open spec fn nats_routes(ns: Seq<Nats>) -> RouteSeq<BrokerChannel>
    decreases ns.len(),
{
    if ns.len() == 0 {
        Seq::empty()
    } else {
        nats_routes(ns.drop_last()) + broker_routes(
            ns.last().producer_topics@,
            ns.last().consumer_topics@,
            BrokerChannel { kind: BrokerKind::Nats, index: (ns.len() - 1) as usize },
        )
    }
}

pub open spec fn kinesis_routes(ks: Seq<AwsKinesis>) -> RouteSeq<BrokerChannel>
    decreases ks.len(),
{
    if ks.len() == 0 {
        Seq::empty()
    } else {
        kinesis_routes(ks.drop_last()) + broker_routes(
            ks.last().producer_topics@,
            ks.last().consumer_topics@,
            BrokerChannel { kind: BrokerKind::AwsKinesis, index: (ks.len() - 1) as usize },
        )
    }
}

pub open spec fn kafka_rest_topics(ks: Seq<Kafka>) -> Seq<Seq<char>>
    decreases ks.len(),
{
    if ks.len() == 0 {
        Seq::empty()
    } else {
        kafka_rest_topics(ks.drop_last()) + consumer_client_topics(ks.last().consumer_topics@)
    }
}

pub open spec fn nats_rest_topics(ns: Seq<Nats>) -> Seq<Seq<char>>
    decreases ns.len(),
{
    if ns.len() == 0 {
        Seq::empty()
    } else {
        nats_rest_topics(ns.drop_last()) + consumer_client_topics(ns.last().consumer_topics@)
    }
}

pub open spec fn kinesis_rest_topics(ks: Seq<AwsKinesis>) -> Seq<Seq<char>>
    decreases ks.len(),
{
    if ks.len() == 0 {
        Seq::empty()
    } else {
        kinesis_rest_topics(ks.drop_last()) + consumer_client_topics(ks.last().consumer_topics@)
    }
}

/// The routes the configuration inserts, in order: Kafka brokers, then Kinesis, then NATS.
pub open spec fn messaging_routes(config: Swir) -> RouteSeq<BrokerChannel> {
    kafka_routes(config.channels.kafka@) + kinesis_routes(config.channels.aws_kinesis@)
        + nats_routes(config.channels.nats@)
}

/// The client topics delivered over REST, in the same order.
pub open spec fn rest_topics(config: Swir) -> Seq<Seq<char>> {
    kafka_rest_topics(config.channels.kafka@) + kinesis_rest_topics(config.channels.aws_kinesis@)
        + nats_rest_topics(config.channels.nats@)
}

/// The value the last insertion of `key` gave it.
pub open spec fn last_route<C>(routes: RouteSeq<C>, key: Seq<char>) -> Option<C>
    decreases routes.len(),
{
    if routes.len() == 0 {
        None
    } else if routes.last().0 == key {
        Some(routes.last().1)
    } else {
        last_route(routes.drop_last(), key)
    }
}

/// The number of stores that serve at least one database.
pub open spec fn serving_stores(names: Seq<Seq<Seq<char>>>) -> nat
    decreases names.len(),
{
    if names.len() == 0 {
        0
    } else {
        serving_stores(names.drop_last()) + if names.last().len() > 0 { 1nat } else { 0nat }
    }
}

/// The database routes of the stores of one type, whose database names are `names`: every
/// store that serves a database gets the next channel of that type.
pub open spec fn store_routes(names: Seq<Seq<Seq<char>>>, t: StoreType) -> RouteSeq<StoreChannel>
    decreases names.len(),
{
    if names.len() == 0 {
        Seq::empty()
    } else {
        let ch = StoreChannel {
            store_type: t,
            index: serving_stores(names.drop_last()) as usize,
        };
        store_routes(names.drop_last(), t) + names.last().map_values(|n: Seq<char>| (n, ch))
    }
}

pub open spec fn redis_names(stores: Seq<Redis>) -> Seq<Seq<Seq<char>>> {
    stores.map_values(|r: Redis| strings_view(r.client_database_names@))
}

pub open spec fn dynamodb_names(stores: Seq<DynamoDb>) -> Seq<Seq<Seq<char>>> {
    stores.map_values(|d: DynamoDb| strings_view(d.client_database_names@))
}

/// The database routes the configuration inserts: Redis stores first, then DynamoDB.
pub open spec fn persistence_routes(config: Swir) -> RouteSeq<StoreChannel> {
    store_routes(redis_names(config.stores.redis@), StoreType::Redis) + store_routes(
        dynamodb_names(config.stores.dynamodb@),
        StoreType::DynamoDb,
    )
}

proof fn lemma_serving_stores_bound(names: Seq<Seq<Seq<char>>>)
    ensures
        serving_stores(names) <= names.len(),
    decreases names.len(),
{
    if names.len() > 0 {
        lemma_serving_stores_bound(names.drop_last());
    }
}

fn clone_string(s: &String) -> (r: String)
    ensures
        r@ == s@,
{
    s.clone()
}

fn push_broker_routes(
    routes: &mut Vec<TopicRoute>,
    rest: &mut Vec<String>,
    producers: &Vec<ProducerTopic>,
    consumers: &Vec<ConsumerTopic>,
    ch: BrokerChannel,
)
    ensures
        topic_routes_view(final(routes)@) == topic_routes_view(old(routes)@) + broker_routes(
            producers@,
            consumers@,
            ch,
        ),
        strings_view(final(rest)@) == strings_view(old(rest)@) + consumer_client_topics(consumers@),
{
    let ghost r0 = topic_routes_view(routes@);
    let ghost t0 = strings_view(rest@);
    let ghost ps = producers@.map_values(|p: ProducerTopic| (p.client_topic@, ch));
    let ghost cs = consumers@.map_values(|c: ConsumerTopic| (c.client_topic@, ch));
    let mut i: usize = 0;
    while i < producers.len()
        invariant
            i <= producers@.len(),
            ps == producers@.map_values(|p: ProducerTopic| (p.client_topic@, ch)),
            topic_routes_view(routes@) == r0 + ps.take(i as int),
            strings_view(rest@) == t0,
        decreases producers@.len() - i,
    {
        let ghost before = routes@;
        let route = TopicRoute { client_topic: clone_string(&producers[i].client_topic), channel: ch };
        routes.push(route);
        proof {
            assert(routes@ == before.push(route));
            assert(topic_routes_view(routes@) =~= topic_routes_view(before).push(ps[i as int]));
            assert(ps.take(i + 1) =~= ps.take(i as int).push(ps[i as int]));
        }
        i = i + 1;
        assert(topic_routes_view(routes@) =~= r0 + ps.take(i as int));
    }
    assert(ps.take(producers@.len() as int) =~= ps);
    let ghost r1 = topic_routes_view(routes@);
    let mut j: usize = 0;
    while j < consumers.len()
        invariant
            j <= consumers@.len(),
            cs == consumers@.map_values(|c: ConsumerTopic| (c.client_topic@, ch)),
            topic_routes_view(routes@) == r1 + cs.take(j as int),
            strings_view(rest@) == t0 + consumer_client_topics(consumers@).take(j as int),
        decreases consumers@.len() - j,
    {
        let ghost before = routes@;
        let ghost before_rest = rest@;
        let route = TopicRoute { client_topic: clone_string(&consumers[j].client_topic), channel: ch };
        let topic = clone_string(&consumers[j].client_topic);
        routes.push(route);
        rest.push(topic);
        proof {
            assert(topic_routes_view(routes@) =~= topic_routes_view(before).push(cs[j as int]));
            assert(cs.take(j + 1) =~= cs.take(j as int).push(cs[j as int]));
            assert(strings_view(rest@) =~= strings_view(before_rest).push(consumer_client_topics(consumers@)[j as int]));
            assert(consumer_client_topics(consumers@).take(j + 1) =~= consumer_client_topics(consumers@).take(j as int).push(consumer_client_topics(consumers@)[j as int]));
        }
        j = j + 1;
        assert(topic_routes_view(routes@) =~= r1 + cs.take(j as int));
        assert(strings_view(rest@) =~= t0 + consumer_client_topics(consumers@).take(j as int));
    }
    assert(cs.take(consumers@.len() as int) =~= cs);
    assert(consumer_client_topics(consumers@).take(consumers@.len() as int) =~= consumer_client_topics(consumers@));
    assert(topic_routes_view(routes@) =~= r0 + broker_routes(producers@, consumers@, ch));
}

fn create_messaging_channels(config: &Swir) -> (r: MessagingMemoryChannels)
    ensures
        r.kafka_memory_channels == config.channels.kafka@.len(),
        r.nats_memory_channels == config.channels.nats@.len(),
        r.aws_kinesis_memory_channels == config.channels.aws_kinesis@.len(),
        topic_routes_view(r.from_client_to_messaging_sender@) == messaging_routes(*config),
        strings_view(r.to_client_sender_for_rest@) == rest_topics(*config),
{
    let mut routes: Vec<TopicRoute> = Vec::new();
    let mut rest: Vec<String> = Vec::new();
    let kafka = &config.channels.kafka;
    let mut i: usize = 0;
    assert(kafka@.take(0) =~= Seq::<Kafka>::empty());
    assert(topic_routes_view(routes@) =~= Seq::<(Seq<char>, BrokerChannel)>::empty());
    assert(strings_view(rest@) =~= Seq::<Seq<char>>::empty());
    while i < kafka.len()
        invariant
            i <= kafka@.len(),
            topic_routes_view(routes@) == kafka_routes(kafka@.take(i as int)),
            strings_view(rest@) == kafka_rest_topics(kafka@.take(i as int)),
        decreases kafka@.len() - i,
    {
        let ch = BrokerChannel { kind: BrokerKind::Kafka, index: i };
        push_broker_routes(&mut routes, &mut rest, &kafka[i].producer_topics, &kafka[i].consumer_topics, ch);
        proof {
            let t = kafka@.take(i + 1);
            assert(t.drop_last() =~= kafka@.take(i as int));
            assert(t.last() == kafka@[i as int]);
        }
        i = i + 1;
    }
    assert(kafka@.take(kafka@.len() as int) =~= kafka@);
    let ghost r_kafka = topic_routes_view(routes@);
    let ghost t_kafka = strings_view(rest@);

    let kinesis = &config.channels.aws_kinesis;
    let mut i: usize = 0;
    assert(kinesis@.take(0) =~= Seq::<AwsKinesis>::empty());
    while i < kinesis.len()
        invariant
            i <= kinesis@.len(),
            topic_routes_view(routes@) == r_kafka + kinesis_routes(kinesis@.take(i as int)),
            strings_view(rest@) == t_kafka + kinesis_rest_topics(kinesis@.take(i as int)),
        decreases kinesis@.len() - i,
    {
        let ch = BrokerChannel { kind: BrokerKind::AwsKinesis, index: i };
        push_broker_routes(&mut routes, &mut rest, &kinesis[i].producer_topics, &kinesis[i].consumer_topics, ch);
        proof {
            let t = kinesis@.take(i + 1);
            assert(t.drop_last() =~= kinesis@.take(i as int));
            assert(t.last() == kinesis@[i as int]);
            assert(topic_routes_view(routes@) =~= r_kafka + kinesis_routes(t));
            assert(strings_view(rest@) =~= t_kafka + kinesis_rest_topics(t));
        }
        i = i + 1;
    }
    assert(kinesis@.take(kinesis@.len() as int) =~= kinesis@);
    let ghost r_kinesis = topic_routes_view(routes@);
    let ghost t_kinesis = strings_view(rest@);

    let nats = &config.channels.nats;
    let mut i: usize = 0;
    assert(nats@.take(0) =~= Seq::<Nats>::empty());
    while i < nats.len()
        invariant
            i <= nats@.len(),
            topic_routes_view(routes@) == r_kinesis + nats_routes(nats@.take(i as int)),
            strings_view(rest@) == t_kinesis + nats_rest_topics(nats@.take(i as int)),
        decreases nats@.len() - i,
    {
        let ch = BrokerChannel { kind: BrokerKind::Nats, index: i };
        push_broker_routes(&mut routes, &mut rest, &nats[i].producer_topics, &nats[i].consumer_topics, ch);
        proof {
            let t = nats@.take(i + 1);
            assert(t.drop_last() =~= nats@.take(i as int));
            assert(t.last() == nats@[i as int]);
            assert(topic_routes_view(routes@) =~= r_kinesis + nats_routes(t));
            assert(strings_view(rest@) =~= t_kinesis + nats_rest_topics(t));
        }
        i = i + 1;
    }
    assert(nats@.take(nats@.len() as int) =~= nats@);
    MessagingMemoryChannels {
        kafka_memory_channels: kafka.len(),
        nats_memory_channels: nats.len(),
        aws_kinesis_memory_channels: kinesis.len(),
        to_client_sender_for_rest: rest,
        from_client_to_messaging_sender: routes,
    }
}

fn push_store_routes(
    routes: &mut Vec<DatabaseRoute>,
    names: &Vec<String>,
    ch: StoreChannel,
)
    ensures
        database_routes_view(final(routes)@) == database_routes_view(old(routes)@) + strings_view(
            names@,
        ).map_values(|n: Seq<char>| (n, ch)),
{
    let ghost r0 = database_routes_view(routes@);
    let ghost add = strings_view(names@).map_values(|n: Seq<char>| (n, ch));
    let mut i: usize = 0;
    while i < names.len()
        invariant
            i <= names@.len(),
            add == strings_view(names@).map_values(|n: Seq<char>| (n, ch)),
            database_routes_view(routes@) == r0 + add.take(i as int),
        decreases names@.len() - i,
    {
        let ghost before = routes@;
        let route = DatabaseRoute { database_name: clone_string(&names[i]), channel: ch };
        routes.push(route);
        proof {
            assert(database_routes_view(routes@) =~= database_routes_view(before).push(add[i as int]));
            assert(add.take(i + 1) =~= add.take(i as int).push(add[i as int]));
        }
        i = i + 1;
        assert(database_routes_view(routes@) =~= r0 + add.take(i as int));
    }
    assert(add.take(names@.len() as int) =~= add);
}

fn create_persistence_channels(config: &Swir) -> (r: PersistenceMemoryChannels)
    ensures
        database_routes_view(r.from_client_to_persistence_senders@) == persistence_routes(*config),
        r.redis_receivers == serving_stores(redis_names(config.stores.redis@)),
        r.dynamodb_receivers == serving_stores(dynamodb_names(config.stores.dynamodb@)),
{
    let mut routes: Vec<DatabaseRoute> = Vec::new();
    let redis = &config.stores.redis;
    let ghost rn = redis_names(redis@);
    let mut count: usize = 0;
    let mut i: usize = 0;
    assert(rn.take(0) =~= Seq::<Seq<Seq<char>>>::empty());
    assert(database_routes_view(routes@) =~= Seq::<(Seq<char>, StoreChannel)>::empty());
    while i < redis.len()
        invariant
            i <= redis@.len(),
            rn == redis_names(redis@),
            count == serving_stores(rn.take(i as int)),
            database_routes_view(routes@) == store_routes(rn.take(i as int), StoreType::Redis),
        decreases redis@.len() - i,
    {
        let ghost t = rn.take(i + 1);
        proof {
            assert(t.drop_last() =~= rn.take(i as int));
            assert(t.last() == strings_view(redis@[i as int].client_database_names@));
            lemma_serving_stores_bound(rn.take(i as int));
        }
        let names = &redis[i].client_database_names;
        if names.len() > 0 {
            let ch = StoreChannel { store_type: StoreType::Redis, index: count };
            push_store_routes(&mut routes, names, ch);
            count = count + 1;
        } else {
            assert(strings_view(names@).map_values(|n: Seq<char>| (n, StoreChannel { store_type: StoreType::Redis, index: count })) =~= Seq::<(Seq<char>, StoreChannel)>::empty());
            assert(database_routes_view(routes@) =~= store_routes(t, StoreType::Redis));
        }
        i = i + 1;
    }
    assert(rn.take(redis@.len() as int) =~= rn);
    let redis_receivers = count;
    let ghost r_redis = database_routes_view(routes@);

    let dynamodb = &config.stores.dynamodb;
    let ghost dn = dynamodb_names(dynamodb@);
    let mut count: usize = 0;
    let mut i: usize = 0;
    assert(dn.take(0) =~= Seq::<Seq<Seq<char>>>::empty());
    while i < dynamodb.len()
        invariant
            i <= dynamodb@.len(),
            dn == dynamodb_names(dynamodb@),
            count == serving_stores(dn.take(i as int)),
            database_routes_view(routes@) == r_redis + store_routes(dn.take(i as int), StoreType::DynamoDb),
        decreases dynamodb@.len() - i,
    {
        let ghost t = dn.take(i + 1);
        proof {
            assert(t.drop_last() =~= dn.take(i as int));
            assert(t.last() == strings_view(dynamodb@[i as int].client_database_names@));
            lemma_serving_stores_bound(dn.take(i as int));
        }
        let names = &dynamodb[i].client_database_names;
        if names.len() > 0 {
            let ch = StoreChannel { store_type: StoreType::DynamoDb, index: count };
            push_store_routes(&mut routes, names, ch);
            count = count + 1;
            assert(database_routes_view(routes@) =~= r_redis + store_routes(t, StoreType::DynamoDb));
        } else {
            assert(strings_view(names@).map_values(|n: Seq<char>| (n, StoreChannel { store_type: StoreType::DynamoDb, index: count })) =~= Seq::<(Seq<char>, StoreChannel)>::empty());
            assert(database_routes_view(routes@) =~= r_redis + store_routes(t, StoreType::DynamoDb));
        }
        i = i + 1;
    }
    assert(dn.take(dynamodb@.len() as int) =~= dn);
    PersistenceMemoryChannels {
        from_client_to_persistence_senders: routes,
        redis_receivers,
        dynamodb_receivers: count,
    }
}

/// Plans every in-memory channel the configuration calls for.
pub fn create_memory_channels(config: &Swir) -> (r: MemoryChannels)
    ensures
        r.messaging_memory_channels.kafka_memory_channels == config.channels.kafka@.len(),
        r.messaging_memory_channels.nats_memory_channels == config.channels.nats@.len(),
        r.messaging_memory_channels.aws_kinesis_memory_channels == config.channels.aws_kinesis@.len(),
        topic_routes_view(r.messaging_memory_channels.from_client_to_messaging_sender@)
            == messaging_routes(*config),
        strings_view(r.messaging_memory_channels.to_client_sender_for_rest@) == rest_topics(*config),
        database_routes_view(r.persistence_memory_channels.from_client_to_persistence_senders@)
            == persistence_routes(*config),
        r.persistence_memory_channels.redis_receivers == serving_stores(
            redis_names(config.stores.redis@),
        ),
        r.persistence_memory_channels.dynamodb_receivers == serving_stores(
            dynamodb_names(config.stores.dynamodb@),
        ),
{
    MemoryChannels {
        messaging_memory_channels: create_messaging_channels(config),
        persistence_memory_channels: create_persistence_channels(config),
    }
}

proof fn lemma_last_route_extend<C>(routes: RouteSeq<C>, key: Seq<char>, i: int)
    requires
        0 <= i < routes.len(),
    ensures
        last_route(routes.take(i + 1), key) == if routes[i].0 == key {
            Some(routes[i].1)
        } else {
            last_route(routes.take(i), key)
        },
{
    assert(routes.take(i + 1).drop_last() =~= routes.take(i));
}

/// The broker channel that serves a client topic, as the map of senders answers it.
pub fn find_channel_by_topic(routes: &Vec<TopicRoute>, client_topic: &str) -> (r: Option<BrokerChannel>)
    ensures
        r == last_route(topic_routes_view(routes@), client_topic@),
{
    let ghost rv = topic_routes_view(routes@);
    let key = String::from_str(client_topic);
    let mut found: Option<BrokerChannel> = None;
    let mut i: usize = 0;
    assert(rv.take(0) =~= Seq::<(Seq<char>, BrokerChannel)>::empty());
    while i < routes.len()
        invariant
            i <= routes@.len(),
            rv == topic_routes_view(routes@),
            key@ == client_topic@,
            found == last_route(rv.take(i as int), key@),
        decreases routes@.len() - i,
    {
        proof { lemma_last_route_extend(rv, key@, i as int); }
        if routes[i].client_topic == key {
            found = Some(routes[i].channel);
        }
        i = i + 1;
    }
    assert(rv.take(routes@.len() as int) =~= rv);
    found
}

/// The store channel that serves a client database, as the map of senders answers it.
pub fn find_channel_by_database_name(routes: &Vec<DatabaseRoute>, database_name: &str) -> (r: Option<StoreChannel>)
    ensures
        r == last_route(database_routes_view(routes@), database_name@),
{
    let ghost rv = database_routes_view(routes@);
    let key = String::from_str(database_name);
    let mut found: Option<StoreChannel> = None;
    let mut i: usize = 0;
    assert(rv.take(0) =~= Seq::<(Seq<char>, StoreChannel)>::empty());
    while i < routes.len()
        invariant
            i <= routes@.len(),
            rv == database_routes_view(routes@),
            key@ == database_name@,
            found == last_route(rv.take(i as int), key@),
        decreases routes@.len() - i,
    {
        proof { lemma_last_route_extend(rv, key@, i as int); }
        if routes[i].database_name == key {
            found = Some(routes[i].channel);
        }
        i = i + 1;
    }
    assert(rv.take(routes@.len() as int) =~= rv);
    found
}

pub open spec fn routes_in_range(routes: RouteSeq<BrokerChannel>, kind: BrokerKind, n: nat) -> bool {
    forall|i: int| 0 <= i < routes.len() ==> (#[trigger] routes[i]).1.kind == kind && routes[i].1.index < n
}

proof fn lemma_broker_routes_channel(p: Seq<ProducerTopic>, c: Seq<ConsumerTopic>, ch: BrokerChannel)
    ensures
        forall|i: int| 0 <= i < broker_routes(p, c, ch).len() ==> (#[trigger] broker_routes(p, c, ch)[i]).1 == ch,
{
    let b = broker_routes(p, c, ch);
    assert forall|i: int| 0 <= i < b.len() implies (#[trigger] b[i]).1 == ch by {
        if i < p.len() {
        } else {
        }
    }
}

proof fn lemma_kafka_routes_range(ks: Seq<Kafka>)
    ensures
        routes_in_range(kafka_routes(ks), BrokerKind::Kafka, ks.len()),
    decreases ks.len(),
{
    if ks.len() > 0 {
        lemma_kafka_routes_range(ks.drop_last());
        let ch = BrokerChannel { kind: BrokerKind::Kafka, index: (ks.len() - 1) as usize };
        lemma_broker_routes_channel(ks.last().producer_topics@, ks.last().consumer_topics@, ch);
        let a = kafka_routes(ks.drop_last());
        let b = broker_routes(ks.last().producer_topics@, ks.last().consumer_topics@, ch);
        assert forall|i: int| 0 <= i < (a + b).len() implies (#[trigger] (a + b)[i]).1.kind == BrokerKind::Kafka && (a + b)[i].1.index < ks.len() by {
            if i < a.len() {
                assert((a + b)[i] == a[i]);
            } else {
                assert((a + b)[i] == b[i - a.len()]);
            }
        }
    }
}

proof fn lemma_nats_routes_range(ns: Seq<Nats>)
    ensures
        routes_in_range(nats_routes(ns), BrokerKind::Nats, ns.len()),
    decreases ns.len(),
{
    if ns.len() > 0 {
        lemma_nats_routes_range(ns.drop_last());
        let ch = BrokerChannel { kind: BrokerKind::Nats, index: (ns.len() - 1) as usize };
        lemma_broker_routes_channel(ns.last().producer_topics@, ns.last().consumer_topics@, ch);
        let a = nats_routes(ns.drop_last());
        let b = broker_routes(ns.last().producer_topics@, ns.last().consumer_topics@, ch);
        assert forall|i: int| 0 <= i < (a + b).len() implies (#[trigger] (a + b)[i]).1.kind == BrokerKind::Nats && (a + b)[i].1.index < ns.len() by {
            if i < a.len() {
                assert((a + b)[i] == a[i]);
            } else {
                assert((a + b)[i] == b[i - a.len()]);
            }
        }
    }
}

proof fn lemma_kinesis_routes_range(ks: Seq<AwsKinesis>)
    ensures
        routes_in_range(kinesis_routes(ks), BrokerKind::AwsKinesis, ks.len()),
    decreases ks.len(),
{
    if ks.len() > 0 {
        lemma_kinesis_routes_range(ks.drop_last());
        let ch = BrokerChannel { kind: BrokerKind::AwsKinesis, index: (ks.len() - 1) as usize };
        lemma_broker_routes_channel(ks.last().producer_topics@, ks.last().consumer_topics@, ch);
        let a = kinesis_routes(ks.drop_last());
        let b = broker_routes(ks.last().producer_topics@, ks.last().consumer_topics@, ch);
        assert forall|i: int| 0 <= i < (a + b).len() implies (#[trigger] (a + b)[i]).1.kind == BrokerKind::AwsKinesis && (a + b)[i].1.index < ks.len() by {
            if i < a.len() {
                assert((a + b)[i] == a[i]);
            } else {
                assert((a + b)[i] == b[i - a.len()]);
            }
        }
    }
}

/// The number of channels planned for brokers of a kind.
pub open spec fn broker_count(config: Swir, kind: BrokerKind) -> nat {
    match kind {
        BrokerKind::Kafka => config.channels.kafka@.len(),
        BrokerKind::Nats => config.channels.nats@.len(),
        BrokerKind::AwsKinesis => config.channels.aws_kinesis@.len(),
    }
}

/// Every messaging route leads to a channel that exists: its index is below the number of
/// brokers of its kind.
pub proof fn law_messaging_routes_lead_to_channels(config: Swir)
    ensures
        forall|i: int| 0 <= i < messaging_routes(config).len() ==>
            (#[trigger] messaging_routes(config)[i]).1.index < broker_count(config, messaging_routes(config)[i].1.kind),
{
    let a = kafka_routes(config.channels.kafka@);
    let b = kinesis_routes(config.channels.aws_kinesis@);
    let c = nats_routes(config.channels.nats@);
    lemma_kafka_routes_range(config.channels.kafka@);
    lemma_kinesis_routes_range(config.channels.aws_kinesis@);
    lemma_nats_routes_range(config.channels.nats@);
    let m = messaging_routes(config);
    assert forall|i: int| 0 <= i < m.len() implies (#[trigger] m[i]).1.index < broker_count(config, m[i].1.kind) by {
        if i < a.len() {
            assert(m[i] == a[i]);
        } else if i < a.len() + b.len() {
            assert(m[i] == b[i - a.len()]);
        } else {
            assert(m[i] == c[i - a.len() - b.len()]);
        }
    }
}

proof fn lemma_store_routes_range(names: Seq<Seq<Seq<char>>>, t: StoreType)
    ensures
        forall|i: int| 0 <= i < store_routes(names, t).len() ==>
            (#[trigger] store_routes(names, t)[i]).1.store_type == t
            && store_routes(names, t)[i].1.index < serving_stores(names),
    decreases names.len(),
{
    if names.len() > 0 {
        lemma_store_routes_range(names.drop_last(), t);
        lemma_serving_stores_bound(names.drop_last());
        let a = store_routes(names.drop_last(), t);
        let ch = StoreChannel { store_type: t, index: serving_stores(names.drop_last()) as usize };
        let b = names.last().map_values(|n: Seq<char>| (n, ch));
        assert forall|i: int| 0 <= i < (a + b).len() implies (#[trigger] (a + b)[i]).1.store_type == t
            && (a + b)[i].1.index < serving_stores(names) by {
            if i < a.len() {
                assert((a + b)[i] == a[i]);
            } else {
                assert((a + b)[i] == b[i - a.len()]);
            }
        }
    }
}

/// The database names of the stores of a type, store by store.
pub open spec fn store_names(config: Swir, t: StoreType) -> Seq<Seq<Seq<char>>> {
    match t {
        StoreType::Redis => redis_names(config.stores.redis@),
        StoreType::DynamoDb => dynamodb_names(config.stores.dynamodb@),
    }
}

/// The channel store `j` of its type reads: a store that serves a database takes the next
/// channel of its type, one that serves none takes none.
pub open spec fn store_channel_of(names: Seq<Seq<Seq<char>>>, j: int) -> Option<usize> {
    if names[j].len() > 0 {
        Some(serving_stores(names.take(j)) as usize)
    } else {
        None
    }
}

proof fn lemma_serving_step(names: Seq<Seq<Seq<char>>>, i: int)
    requires
        0 <= i < names.len(),
    ensures
        serving_stores(names.take(i + 1)) == serving_stores(names.take(i)) + if names[i].len() > 0 { 1nat } else { 0nat },
        serving_stores(names.take(i)) <= i,
{
    assert(names.take(i + 1).drop_last() =~= names.take(i));
    assert(names.take(i + 1).last() == names[i]);
    lemma_serving_stores_bound(names.take(i));
}

/// The channel each store of a type reads (see `store_channel_of`), store by store.
pub fn store_channels(config: &Swir, t: StoreType) -> (r: Vec<Option<usize>>)
    ensures
        r@.len() == store_names(*config, t).len(),
        forall|j: int| 0 <= j < r@.len() ==> #[trigger] r@[j] == store_channel_of(store_names(*config, t), j),
{
    let ghost names = store_names(*config, t);
    let mut counts: Vec<usize> = Vec::new();
    match t {
        StoreType::Redis => {
            let mut i: usize = 0;
            while i < config.stores.redis.len()
                invariant
                    i <= config.stores.redis@.len(),
                    names == redis_names(config.stores.redis@),
                    counts@.len() == i,
                    forall|j: int| 0 <= j < i ==> #[trigger] counts@[j] == names[j].len(),
                decreases config.stores.redis@.len() - i,
            {
                counts.push(config.stores.redis[i].client_database_names.len());
                i = i + 1;
            }
        },
        StoreType::DynamoDb => {
            let mut i: usize = 0;
            while i < config.stores.dynamodb.len()
                invariant
                    i <= config.stores.dynamodb@.len(),
                    names == dynamodb_names(config.stores.dynamodb@),
                    counts@.len() == i,
                    forall|j: int| 0 <= j < i ==> #[trigger] counts@[j] == names[j].len(),
                decreases config.stores.dynamodb@.len() - i,
            {
                counts.push(config.stores.dynamodb[i].client_database_names.len());
                i = i + 1;
            }
        },
    }
    let mut r: Vec<Option<usize>> = Vec::new();
    let mut next: usize = 0;
    let mut i: usize = 0;
    assert(names.take(0) =~= Seq::<Seq<Seq<char>>>::empty());
    while i < counts.len()
        invariant
            counts@.len() == names.len(),
            forall|j: int| 0 <= j < names.len() ==> #[trigger] counts@[j] == names[j].len(),
            i <= counts@.len(),
            r@.len() == i,
            next == serving_stores(names.take(i as int)),
            forall|j: int| 0 <= j < i ==> #[trigger] r@[j] == store_channel_of(names, j),
        decreases counts@.len() - i,
    {
        proof { lemma_serving_step(names, i as int); }
        assert(counts@[i as int] == names[i as int].len());
        if counts[i] > 0 {
            r.push(Some(next));
            next = next + 1;
        } else {
            r.push(None);
        }
        i = i + 1;
    }
    r
}

/// The stores behind each route of a type: a route's database is listed by the store of that
/// type that reads the route's channel.
pub open spec fn route_reaches(names: Seq<Seq<Seq<char>>>, j: int, route: (Seq<char>, StoreChannel)) -> bool {
    &&& names[j].len() > 0
    &&& serving_stores(names.take(j)) as usize == route.1.index
    &&& names[j].contains(route.0)
}

pub(crate) proof fn lemma_store_routes_reach(names: Seq<Seq<Seq<char>>>, t: StoreType)
    ensures
        forall|i: int| 0 <= i < store_routes(names, t).len() ==> {
            let route = #[trigger] store_routes(names, t)[i];
            &&& route.1.store_type == t
            &&& exists|j: int| 0 <= j < names.len() && #[trigger] route_reaches(names, j, route)
        },
    decreases names.len(),
{
    if names.len() > 0 {
        let rest = names.drop_last();
        lemma_store_routes_reach(rest, t);
        let ch = StoreChannel { store_type: t, index: serving_stores(rest) as usize };
        let a = store_routes(rest, t);
        let b = names.last().map_values(|n: Seq<char>| (n, ch));
        assert(store_routes(names, t) == a + b);
        assert forall|i: int| 0 <= i < (a + b).len() implies {
            let route = #[trigger] (a + b)[i];
            &&& route.1.store_type == t
            &&& exists|j: int| 0 <= j < names.len() && #[trigger] route_reaches(names, j, route)
        } by {
            if i < a.len() {
                assert((a + b)[i] == a[i]);
                let j = choose|j: int| 0 <= j < rest.len() && #[trigger] route_reaches(rest, j, a[i]);
                assert(rest.take(j) =~= names.take(j));
                assert(rest[j] == names[j]);
                assert(route_reaches(names, j, a[i]));
            } else {
                let m = i - a.len();
                assert((a + b)[i] == b[m]);
                let j = names.len() - 1;
                assert(names.take(j) =~= rest);
                assert(names[j] == names.last());
                assert(names.last()[m] == b[m].0);
                assert(route_reaches(names, j, b[m]));
            }
        }
    }
}

/// The route the last insertion of a key left is one of the inserted routes.
pub(crate) proof fn lemma_last_route_member<C>(routes: RouteSeq<C>, key: Seq<char>)
    ensures
        last_route(routes, key) matches Some(c) ==> exists|i: int|
            0 <= i < routes.len() && (#[trigger] routes[i]).0 == key && routes[i].1 == c,
    decreases routes.len(),
{
    if routes.len() > 0 {
        if routes.last().0 == key {
            assert(routes[routes.len() - 1] == routes.last());
        } else {
            lemma_last_route_member(routes.drop_last(), key);
            if last_route(routes.drop_last(), key) is Some {
                let i = choose|i: int| 0 <= i < routes.drop_last().len() && (#[trigger] routes.drop_last()[i]).0 == key
                    && routes.drop_last()[i].1 == last_route(routes.drop_last(), key)->0;
                assert(routes[i] == routes.drop_last()[i]);
            }
        }
    }
}

/// The number of channels planned for stores of a type.
pub open spec fn store_count(config: Swir, t: StoreType) -> nat {
    match t {
        StoreType::Redis => serving_stores(redis_names(config.stores.redis@)),
        StoreType::DynamoDb => serving_stores(dynamodb_names(config.stores.dynamodb@)),
    }
}

/// Every database route leads to a store channel that exists.
pub proof fn law_database_routes_lead_to_channels(config: Swir)
    ensures
        forall|i: int| 0 <= i < persistence_routes(config).len() ==>
            (#[trigger] persistence_routes(config)[i]).1.index < store_count(config, persistence_routes(config)[i].1.store_type),
{
    let a = store_routes(redis_names(config.stores.redis@), StoreType::Redis);
    let b = store_routes(dynamodb_names(config.stores.dynamodb@), StoreType::DynamoDb);
    lemma_store_routes_range(redis_names(config.stores.redis@), StoreType::Redis);
    lemma_store_routes_range(dynamodb_names(config.stores.dynamodb@), StoreType::DynamoDb);
    let m = persistence_routes(config);
    assert forall|i: int| 0 <= i < m.len() implies (#[trigger] m[i]).1.index < store_count(config, m[i].1.store_type) by {
        if i < a.len() {
            assert(m[i] == a[i]);
        } else {
            assert(m[i] == b[i - a.len()]);
        }
    }
}

proof fn lemma_last_route_some<C>(routes: RouteSeq<C>, key: Seq<char>, i: int)
    requires
        0 <= i < routes.len(),
        routes[i].0 == key,
    ensures
        last_route(routes, key) is Some,
    decreases routes.len(),
{
    if routes.last().0 != key {
        assert(routes.drop_last()[i] == routes[i]);
        lemma_last_route_some(routes.drop_last(), key, i);
    }
}

proof fn lemma_kafka_routes_cover(ks: Seq<Kafka>, j: int, topic: Seq<char>)
    requires
        0 <= j < ks.len(),
        (exists|k: int| 0 <= k < ks[j].producer_topics@.len() && #[trigger] ks[j].producer_topics@[k].client_topic@ == topic)
        || (exists|k: int| 0 <= k < ks[j].consumer_topics@.len() && #[trigger] ks[j].consumer_topics@[k].client_topic@ == topic),
    ensures
        exists|i: int| 0 <= i < kafka_routes(ks).len() && (#[trigger] kafka_routes(ks)[i]).0 == topic,
    decreases ks.len(),
{
    let a = kafka_routes(ks.drop_last());
    let ch = BrokerChannel { kind: BrokerKind::Kafka, index: (ks.len() - 1) as usize };
    let b = broker_routes(ks.last().producer_topics@, ks.last().consumer_topics@, ch);
    let m = kafka_routes(ks);
    assert(m == a + b);
    if j < ks.len() - 1 {
        assert(ks.drop_last()[j] == ks[j]);
        lemma_kafka_routes_cover(ks.drop_last(), j, topic);
        let i = choose|i: int| 0 <= i < a.len() && (#[trigger] a[i]).0 == topic;
        assert(m[i] == a[i]);
    } else {
        let p = ks[j].producer_topics@;
        if exists|k: int| 0 <= k < p.len() && #[trigger] p[k].client_topic@ == topic {
            let k = choose|k: int| 0 <= k < p.len() && #[trigger] p[k].client_topic@ == topic;
            assert(m[a.len() + k] == b[k]);
        } else {
            let c = ks[j].consumer_topics@;
            let k = choose|k: int| 0 <= k < c.len() && #[trigger] c[k].client_topic@ == topic;
            assert(m[a.len() + p.len() + k] == b[p.len() + k]);
        }
    }
}

/// A client topic that a Kafka broker's configuration names, on either side, is routed to a
/// channel.
pub proof fn law_configured_kafka_topic_is_routed(config: Swir, j: int, topic: Seq<char>)
    requires
        0 <= j < config.channels.kafka@.len(),
        (exists|k: int| 0 <= k < config.channels.kafka@[j].producer_topics@.len() && #[trigger] config.channels.kafka@[j].producer_topics@[k].client_topic@ == topic)
        || (exists|k: int| 0 <= k < config.channels.kafka@[j].consumer_topics@.len() && #[trigger] config.channels.kafka@[j].consumer_topics@[k].client_topic@ == topic),
    ensures
        last_route(messaging_routes(config), topic) is Some,
{
    let ks = config.channels.kafka@;
    lemma_kafka_routes_cover(ks, j, topic);
    let a = kafka_routes(ks);
    let i = choose|i: int| 0 <= i < a.len() && (#[trigger] a[i]).0 == topic;
    let m = messaging_routes(config);
    assert(m[i] == a[i]);
    lemma_last_route_some(m, topic, i);
}

proof fn lemma_nats_routes_cover(ks: Seq<Nats>, j: int, topic: Seq<char>)
    requires
        0 <= j < ks.len(),
        (exists|k: int| 0 <= k < ks[j].producer_topics@.len() && #[trigger] ks[j].producer_topics@[k].client_topic@ == topic)
        || (exists|k: int| 0 <= k < ks[j].consumer_topics@.len() && #[trigger] ks[j].consumer_topics@[k].client_topic@ == topic),
    ensures
        exists|i: int| 0 <= i < nats_routes(ks).len() && (#[trigger] nats_routes(ks)[i]).0 == topic,
    decreases ks.len(),
{
    let a = nats_routes(ks.drop_last());
    let ch = BrokerChannel { kind: BrokerKind::Nats, index: (ks.len() - 1) as usize };
    let b = broker_routes(ks.last().producer_topics@, ks.last().consumer_topics@, ch);
    let m = nats_routes(ks);
    assert(m == a + b);
    if j < ks.len() - 1 {
        assert(ks.drop_last()[j] == ks[j]);
        lemma_nats_routes_cover(ks.drop_last(), j, topic);
        let i = choose|i: int| 0 <= i < a.len() && (#[trigger] a[i]).0 == topic;
        assert(m[i] == a[i]);
    } else {
        let p = ks[j].producer_topics@;
        if exists|k: int| 0 <= k < p.len() && #[trigger] p[k].client_topic@ == topic {
            let k = choose|k: int| 0 <= k < p.len() && #[trigger] p[k].client_topic@ == topic;
            assert(m[a.len() + k] == b[k]);
        } else {
            let c = ks[j].consumer_topics@;
            let k = choose|k: int| 0 <= k < c.len() && #[trigger] c[k].client_topic@ == topic;
            assert(m[a.len() + p.len() + k] == b[p.len() + k]);
        }
    }
}

proof fn lemma_nats_rest_cover(ks: Seq<Nats>, j: int, k: int)
    requires
        0 <= j < ks.len(),
        0 <= k < ks[j].consumer_topics@.len(),
    ensures
        nats_rest_topics(ks).contains(ks[j].consumer_topics@[k].client_topic@),
    decreases ks.len(),
{
    let topic = ks[j].consumer_topics@[k].client_topic@;
    let a = nats_rest_topics(ks.drop_last());
    let b = consumer_client_topics(ks.last().consumer_topics@);
    assert(nats_rest_topics(ks) == a + b);
    if j < ks.len() - 1 {
        assert(ks.drop_last()[j] == ks[j]);
        lemma_nats_rest_cover(ks.drop_last(), j, k);
        let i = choose|i: int| 0 <= i < a.len() && a[i] == topic;
        assert((a + b)[i] == a[i]);
    } else {
        assert(ks.last() == ks[j]);
        assert((a + b)[a.len() + k] == b[k]);
    }
}

/// A client topic that a NATS broker's configuration names, on either side, is routed to a
/// channel.
pub proof fn law_configured_nats_topic_is_routed(config: Swir, j: int, topic: Seq<char>)
    requires
        0 <= j < config.channels.nats@.len(),
        (exists|k: int| 0 <= k < config.channels.nats@[j].producer_topics@.len() && #[trigger] config.channels.nats@[j].producer_topics@[k].client_topic@ == topic)
        || (exists|k: int| 0 <= k < config.channels.nats@[j].consumer_topics@.len() && #[trigger] config.channels.nats@[j].consumer_topics@[k].client_topic@ == topic),
    ensures
        last_route(messaging_routes(config), topic) is Some,
{
    let ks = config.channels.nats@;
    lemma_nats_routes_cover(ks, j, topic);
    let a = nats_routes(ks);
    let i = choose|i: int| 0 <= i < a.len() && (#[trigger] a[i]).0 == topic;
    let m = messaging_routes(config);
    let off = (kafka_routes(config.channels.kafka@) + kinesis_routes(config.channels.aws_kinesis@)).len();
    assert(m[off + i] == a[i]);
    lemma_last_route_some(m, topic, off + i);
}

proof fn lemma_kinesis_routes_cover(ks: Seq<AwsKinesis>, j: int, topic: Seq<char>)
    requires
        0 <= j < ks.len(),
        (exists|k: int| 0 <= k < ks[j].producer_topics@.len() && #[trigger] ks[j].producer_topics@[k].client_topic@ == topic)
        || (exists|k: int| 0 <= k < ks[j].consumer_topics@.len() && #[trigger] ks[j].consumer_topics@[k].client_topic@ == topic),
    ensures
        exists|i: int| 0 <= i < kinesis_routes(ks).len() && (#[trigger] kinesis_routes(ks)[i]).0 == topic,
    decreases ks.len(),
{
    let a = kinesis_routes(ks.drop_last());
    let ch = BrokerChannel { kind: BrokerKind::AwsKinesis, index: (ks.len() - 1) as usize };
    let b = broker_routes(ks.last().producer_topics@, ks.last().consumer_topics@, ch);
    let m = kinesis_routes(ks);
    assert(m == a + b);
    if j < ks.len() - 1 {
        assert(ks.drop_last()[j] == ks[j]);
        lemma_kinesis_routes_cover(ks.drop_last(), j, topic);
        let i = choose|i: int| 0 <= i < a.len() && (#[trigger] a[i]).0 == topic;
        assert(m[i] == a[i]);
    } else {
        let p = ks[j].producer_topics@;
        if exists|k: int| 0 <= k < p.len() && #[trigger] p[k].client_topic@ == topic {
            let k = choose|k: int| 0 <= k < p.len() && #[trigger] p[k].client_topic@ == topic;
            assert(m[a.len() + k] == b[k]);
        } else {
            let c = ks[j].consumer_topics@;
            let k = choose|k: int| 0 <= k < c.len() && #[trigger] c[k].client_topic@ == topic;
            assert(m[a.len() + p.len() + k] == b[p.len() + k]);
        }
    }
}

proof fn lemma_kinesis_rest_cover(ks: Seq<AwsKinesis>, j: int, k: int)
    requires
        0 <= j < ks.len(),
        0 <= k < ks[j].consumer_topics@.len(),
    ensures
        kinesis_rest_topics(ks).contains(ks[j].consumer_topics@[k].client_topic@),
    decreases ks.len(),
{
    let topic = ks[j].consumer_topics@[k].client_topic@;
    let a = kinesis_rest_topics(ks.drop_last());
    let b = consumer_client_topics(ks.last().consumer_topics@);
    assert(kinesis_rest_topics(ks) == a + b);
    if j < ks.len() - 1 {
        assert(ks.drop_last()[j] == ks[j]);
        lemma_kinesis_rest_cover(ks.drop_last(), j, k);
        let i = choose|i: int| 0 <= i < a.len() && a[i] == topic;
        assert((a + b)[i] == a[i]);
    } else {
        assert(ks.last() == ks[j]);
        assert((a + b)[a.len() + k] == b[k]);
    }
}

/// A client topic that a Kinesis broker's configuration names, on either side, is routed to a
/// channel.
pub proof fn law_configured_kinesis_topic_is_routed(config: Swir, j: int, topic: Seq<char>)
    requires
        0 <= j < config.channels.aws_kinesis@.len(),
        (exists|k: int| 0 <= k < config.channels.aws_kinesis@[j].producer_topics@.len() && #[trigger] config.channels.aws_kinesis@[j].producer_topics@[k].client_topic@ == topic)
        || (exists|k: int| 0 <= k < config.channels.aws_kinesis@[j].consumer_topics@.len() && #[trigger] config.channels.aws_kinesis@[j].consumer_topics@[k].client_topic@ == topic),
    ensures
        last_route(messaging_routes(config), topic) is Some,
{
    let ks = config.channels.aws_kinesis@;
    lemma_kinesis_routes_cover(ks, j, topic);
    let a = kinesis_routes(ks);
    let i = choose|i: int| 0 <= i < a.len() && (#[trigger] a[i]).0 == topic;
    let m = messaging_routes(config);
    let off = kafka_routes(config.channels.kafka@).len();
    assert(m[off + i] == a[i]);
    lemma_last_route_some(m, topic, off + i);
}

proof fn lemma_kafka_rest_cover(ks: Seq<Kafka>, j: int, k: int)
    requires
        0 <= j < ks.len(),
        0 <= k < ks[j].consumer_topics@.len(),
    ensures
        kafka_rest_topics(ks).contains(ks[j].consumer_topics@[k].client_topic@),
    decreases ks.len(),
{
    let topic = ks[j].consumer_topics@[k].client_topic@;
    let a = kafka_rest_topics(ks.drop_last());
    let b = consumer_client_topics(ks.last().consumer_topics@);
    assert(kafka_rest_topics(ks) == a + b);
    if j < ks.len() - 1 {
        assert(ks.drop_last()[j] == ks[j]);
        lemma_kafka_rest_cover(ks.drop_last(), j, k);
        let i = choose|i: int| 0 <= i < a.len() && a[i] == topic;
        assert((a + b)[i] == a[i]);
    } else {
        assert(ks.last() == ks[j]);
        assert((a + b)[a.len() + k] == b[k]);
    }
}

/// Every consumer client topic of every configured broker is delivered to the client over
/// REST.
pub proof fn law_consumer_topics_are_delivered_over_rest(config: Swir, kind: BrokerKind, j: int, k: int)
    requires
        kind == BrokerKind::Kafka ==> 0 <= j < config.channels.kafka@.len() && 0 <= k < config.channels.kafka@[j].consumer_topics@.len(),
        kind == BrokerKind::Nats ==> 0 <= j < config.channels.nats@.len() && 0 <= k < config.channels.nats@[j].consumer_topics@.len(),
        kind == BrokerKind::AwsKinesis ==> 0 <= j < config.channels.aws_kinesis@.len() && 0 <= k < config.channels.aws_kinesis@[j].consumer_topics@.len(),
    ensures
        rest_topics(config).contains(match kind {
            BrokerKind::Kafka => config.channels.kafka@[j].consumer_topics@[k].client_topic@,
            BrokerKind::Nats => config.channels.nats@[j].consumer_topics@[k].client_topic@,
            BrokerKind::AwsKinesis => config.channels.aws_kinesis@[j].consumer_topics@[k].client_topic@,
        }),
{
    let a = kafka_rest_topics(config.channels.kafka@);
    let b = kinesis_rest_topics(config.channels.aws_kinesis@);
    let c = nats_rest_topics(config.channels.nats@);
    let r = rest_topics(config);
    assert(r == a + b + c);
    match kind {
        BrokerKind::Kafka => {
            lemma_kafka_rest_cover(config.channels.kafka@, j, k);
            let t = config.channels.kafka@[j].consumer_topics@[k].client_topic@;
            let i = choose|i: int| 0 <= i < a.len() && a[i] == t;
            assert(r[i] == a[i]);
        },
        BrokerKind::AwsKinesis => {
            lemma_kinesis_rest_cover(config.channels.aws_kinesis@, j, k);
            let t = config.channels.aws_kinesis@[j].consumer_topics@[k].client_topic@;
            let i = choose|i: int| 0 <= i < b.len() && b[i] == t;
            assert(r[a.len() + i] == b[i]);
        },
        BrokerKind::Nats => {
            lemma_nats_rest_cover(config.channels.nats@, j, k);
            let t = config.channels.nats@[j].consumer_topics@[k].client_topic@;
            let i = choose|i: int| 0 <= i < c.len() && c[i] == t;
            assert(r[a.len() + b.len() + i] == c[i]);
        },
    }
}

pub open spec fn producer_client_topics(producers: Seq<ProducerTopic>) -> Seq<Seq<char>> {
    producers.map_values(|p: ProducerTopic| p.client_topic@)
}

/// The client topics a broker is configured with: its producer topics, then its consumer
/// topics.
pub open spec fn configured_topics(producers: Seq<ProducerTopic>, consumers: Seq<ConsumerTopic>) -> Seq<Seq<char>> {
    producer_client_topics(producers) + consumer_client_topics(consumers)
}

/// The client topics of the broker behind a channel.
pub open spec fn broker_client_topics(config: Swir, ch: BrokerChannel) -> Seq<Seq<char>> {
    match ch.kind {
        BrokerKind::Kafka => {
            let b = config.channels.kafka@[ch.index as int];
            configured_topics(b.producer_topics@, b.consumer_topics@)
        },
        BrokerKind::Nats => {
            let b = config.channels.nats@[ch.index as int];
            configured_topics(b.producer_topics@, b.consumer_topics@)
        },
        BrokerKind::AwsKinesis => {
            let b = config.channels.aws_kinesis@[ch.index as int];
            configured_topics(b.producer_topics@, b.consumer_topics@)
        },
    }
}

proof fn lemma_broker_routes_topics(p: Seq<ProducerTopic>, c: Seq<ConsumerTopic>, ch: BrokerChannel)
    ensures
        forall|i: int| 0 <= i < broker_routes(p, c, ch).len() ==> (#[trigger] broker_routes(p, c, ch)[i]).1 == ch
            && configured_topics(p, c).contains(broker_routes(p, c, ch)[i].0),
{
    let b = broker_routes(p, c, ch);
    let t = configured_topics(p, c);
    assert forall|i: int| 0 <= i < b.len() implies (#[trigger] b[i]).1 == ch && t.contains(b[i].0) by {
        assert(t[i] == b[i].0);
    }
}

proof fn lemma_kafka_routes_topics(ks: Seq<Kafka>)
    requires
        ks.len() <= usize::MAX,
    ensures
        forall|i: int| 0 <= i < kafka_routes(ks).len() ==> {
            let r = #[trigger] kafka_routes(ks)[i];
            &&& r.1.kind == BrokerKind::Kafka
            &&& r.1.index < ks.len()
            &&& configured_topics(ks[r.1.index as int].producer_topics@, ks[r.1.index as int].consumer_topics@).contains(r.0)
        },
    decreases ks.len(),
{
    if ks.len() > 0 {
        let rest = ks.drop_last();
        lemma_kafka_routes_topics(rest);
        let ch = BrokerChannel { kind: BrokerKind::Kafka, index: (ks.len() - 1) as usize };
        lemma_broker_routes_topics(ks.last().producer_topics@, ks.last().consumer_topics@, ch);
        let a = kafka_routes(rest);
        let b = broker_routes(ks.last().producer_topics@, ks.last().consumer_topics@, ch);
        assert forall|i: int| 0 <= i < (a + b).len() implies {
            let r = #[trigger] (a + b)[i];
            &&& r.1.kind == BrokerKind::Kafka
            &&& r.1.index < ks.len()
            &&& configured_topics(ks[r.1.index as int].producer_topics@, ks[r.1.index as int].consumer_topics@).contains(r.0)
        } by {
            if i < a.len() {
                assert((a + b)[i] == a[i]);
                assert(rest[a[i].1.index as int] == ks[a[i].1.index as int]);
            } else {
                assert((a + b)[i] == b[i - a.len()]);
                assert(ks.last() == ks[ks.len() - 1]);
            }
        }
    }
}

proof fn lemma_nats_routes_topics(ns: Seq<Nats>)
    requires
        ns.len() <= usize::MAX,
    ensures
        forall|i: int| 0 <= i < nats_routes(ns).len() ==> {
            let r = #[trigger] nats_routes(ns)[i];
            &&& r.1.kind == BrokerKind::Nats
            &&& r.1.index < ns.len()
            &&& configured_topics(ns[r.1.index as int].producer_topics@, ns[r.1.index as int].consumer_topics@).contains(r.0)
        },
    decreases ns.len(),
{
    if ns.len() > 0 {
        let rest = ns.drop_last();
        lemma_nats_routes_topics(rest);
        let ch = BrokerChannel { kind: BrokerKind::Nats, index: (ns.len() - 1) as usize };
        lemma_broker_routes_topics(ns.last().producer_topics@, ns.last().consumer_topics@, ch);
        let a = nats_routes(rest);
        let b = broker_routes(ns.last().producer_topics@, ns.last().consumer_topics@, ch);
        assert forall|i: int| 0 <= i < (a + b).len() implies {
            let r = #[trigger] (a + b)[i];
            &&& r.1.kind == BrokerKind::Nats
            &&& r.1.index < ns.len()
            &&& configured_topics(ns[r.1.index as int].producer_topics@, ns[r.1.index as int].consumer_topics@).contains(r.0)
        } by {
            if i < a.len() {
                assert((a + b)[i] == a[i]);
                assert(rest[a[i].1.index as int] == ns[a[i].1.index as int]);
            } else {
                assert((a + b)[i] == b[i - a.len()]);
                assert(ns.last() == ns[ns.len() - 1]);
            }
        }
    }
}

proof fn lemma_kinesis_routes_topics(ks: Seq<AwsKinesis>)
    requires
        ks.len() <= usize::MAX,
    ensures
        forall|i: int| 0 <= i < kinesis_routes(ks).len() ==> {
            let r = #[trigger] kinesis_routes(ks)[i];
            &&& r.1.kind == BrokerKind::AwsKinesis
            &&& r.1.index < ks.len()
            &&& configured_topics(ks[r.1.index as int].producer_topics@, ks[r.1.index as int].consumer_topics@).contains(r.0)
        },
    decreases ks.len(),
{
    if ks.len() > 0 {
        let rest = ks.drop_last();
        lemma_kinesis_routes_topics(rest);
        let ch = BrokerChannel { kind: BrokerKind::AwsKinesis, index: (ks.len() - 1) as usize };
        lemma_broker_routes_topics(ks.last().producer_topics@, ks.last().consumer_topics@, ch);
        let a = kinesis_routes(rest);
        let b = broker_routes(ks.last().producer_topics@, ks.last().consumer_topics@, ch);
        assert forall|i: int| 0 <= i < (a + b).len() implies {
            let r = #[trigger] (a + b)[i];
            &&& r.1.kind == BrokerKind::AwsKinesis
            &&& r.1.index < ks.len()
            &&& configured_topics(ks[r.1.index as int].producer_topics@, ks[r.1.index as int].consumer_topics@).contains(r.0)
        } by {
            if i < a.len() {
                assert((a + b)[i] == a[i]);
                assert(rest[a[i].1.index as int] == ks[a[i].1.index as int]);
            } else {
                assert((a + b)[i] == b[i - a.len()]);
                assert(ks.last() == ks[ks.len() - 1]);
            }
        }
    }
}

/// A client topic is routed to a broker that is configured with it, as a producer or a
/// consumer topic: the client interfaces send a topic's jobs to no broker that does not know
/// the topic.
pub proof fn law_routed_topic_is_configured(config: Swir, topic: Seq<char>)
    requires
        config.channels.kafka@.len() <= usize::MAX,
        config.channels.nats@.len() <= usize::MAX,
        config.channels.aws_kinesis@.len() <= usize::MAX,
    ensures
        last_route(messaging_routes(config), topic) matches Some(ch) ==> {
            &&& ch.index < broker_count(config, ch.kind)
            &&& broker_client_topics(config, ch).contains(topic)
        },
{
    let a = kafka_routes(config.channels.kafka@);
    let b = kinesis_routes(config.channels.aws_kinesis@);
    let c = nats_routes(config.channels.nats@);
    lemma_kafka_routes_topics(config.channels.kafka@);
    lemma_kinesis_routes_topics(config.channels.aws_kinesis@);
    lemma_nats_routes_topics(config.channels.nats@);
    let m = messaging_routes(config);
    lemma_last_route_member(m, topic);
    if last_route(m, topic) is Some {
        let ch = last_route(m, topic)->0;
        let i = choose|i: int| 0 <= i < m.len() && (#[trigger] m[i]).0 == topic && m[i].1 == ch;
        if i < a.len() {
            assert(m[i] == a[i]);
        } else if i < a.len() + b.len() {
            assert(m[i] == b[i - a.len()]);
        } else {
            assert(m[i] == c[i - a.len() - b.len()]);
        }
    }
}

} // verus!
