//! What a key-value store does with a persistence job, and how its answer is reported.
use vstd::prelude::*;
use vstd::string::*;
use crate::config::{DynamoDb, Redis, StoreType, Swir};
use crate::channels::{
    dynamodb_names, last_route, law_database_routes_lead_to_channels, lemma_last_route_member,
    lemma_store_routes_reach, persistence_routes, redis_names, route_reaches, store_channel_of,
    store_count, store_names, store_routes,
    strings_view,
};
use crate::structs::{BackendStatusCodes, PersistenceJobType, PersistenceRequest, PersistenceResult};
use crate::subscriptions::copy_bytes;
use crate::text::{decimal, decimal_string};

verus! {

/// Which backend table a client database is kept in: a store keeps the databases it lists,
/// each under its own name.
pub trait ClientToBackendDatabaseResolver {
    spec fn database_names(&self) -> Seq<Seq<char>>;

    fn get_backend_table_name_for_client_table_name(&self, client_table_name: &str) -> (r: Option<String>)
        ensures
            match r {
                Some(t) => self.database_names().contains(client_table_name@) && t@ == client_table_name@,
                None => !self.database_names().contains(client_table_name@),
            },
    ;
}

fn listed_name(names: &Vec<String>, name: &str) -> (r: Option<String>)
    ensures
        match r {
            Some(t) => strings_view(names@).contains(name@) && t@ == name@,
            None => !strings_view(names@).contains(name@),
        },
{
    let key = String::from_str(name);
    let mut i: usize = 0;
    while i < names.len()
        invariant
            i <= names@.len(),
            key@ == name@,
            forall|j: int| 0 <= j < i ==> names@[j]@ != name@,
        decreases names@.len() - i,
    {
        if names[i] == key {
            assert(strings_view(names@)[i as int] == name@);
            return Some(key);
        }
        i = i + 1;
    }
    proof {
        if strings_view(names@).contains(name@) {
            let j = choose|j: int| 0 <= j < strings_view(names@).len() && strings_view(names@)[j] == name@;
            assert(names@[j]@ == name@);
        }
    }
    None
}

impl ClientToBackendDatabaseResolver for Redis {
    open spec fn database_names(&self) -> Seq<Seq<char>> {
        strings_view(self.client_database_names@)
    }

    fn get_backend_table_name_for_client_table_name(&self, client_table_name: &str) -> (r: Option<String>) {
        listed_name(&self.client_database_names, client_table_name)
    }
}

impl ClientToBackendDatabaseResolver for DynamoDb {
    open spec fn database_names(&self) -> Seq<Seq<char>> {
        strings_view(self.client_database_names@)
    }

    fn get_backend_table_name_for_client_table_name(&self, client_table_name: &str) -> (r: Option<String>) {
        listed_name(&self.client_database_names, client_table_name)
    }
}

/// The backend table of a request's database, where the store keeps it.
pub fn validate_mapping<S: ClientToBackendDatabaseResolver, P: PersistenceRequest>(store: &S, pr: &P) -> (r: Option<String>)
    ensures
        match r {
            Some(t) => store.database_names().contains(pr.table_name_view()) && t@ == pr.table_name_view(),
            None => !store.database_names().contains(pr.table_name_view()),
        },
{
    let table = pr.get_table_name();
    store.get_backend_table_name_for_client_table_name(table.as_str())
}

/// What a store does with a job: answer it at once, or carry out an operation on a backend
/// table.
#[derive(Debug)]
pub enum StoreAction {
    Reply(PersistenceResult),
    Store { table: String, key: String, payload: Vec<u8> },
    Retrieve { table: String, key: String },
    Delete { table: String, key: String },
}

/// Handles one job: a job on a database the store does not keep is answered with
/// `No mapping for {database}`; any other becomes the operation it asks for.
pub fn handle_persistence_job<S: ClientToBackendDatabaseResolver>(store: &S, job: &PersistenceJobType) -> (r: StoreAction)
    ensures
        match *job {
            PersistenceJobType::Store(sr) => if store.database_names().contains(sr.table_name@) {
                r matches StoreAction::Store { table, key, payload } && table@ == sr.table_name@
                    && key@ == sr.key@ && payload@ == sr.payload@
            } else {
                r matches StoreAction::Reply(p) && p.correlation_id@ == sr.correlation_id@
                    && p.payload@.len() == 0
                    && (p.status matches BackendStatusCodes::Error(m) && m@ == "No mapping for "@ + sr.table_name@)
            },
            PersistenceJobType::Retrieve(rr) => if store.database_names().contains(rr.table_name@) {
                r matches StoreAction::Retrieve { table, key } && table@ == rr.table_name@ && key@ == rr.key@
            } else {
                r matches StoreAction::Reply(p) && p.correlation_id@ == rr.correlation_id@
                    && p.payload@.len() == 0
                    && (p.status matches BackendStatusCodes::Error(m) && m@ == "No mapping for "@ + rr.table_name@)
            },
            PersistenceJobType::Delete(dr) => if store.database_names().contains(dr.table_name@) {
                r matches StoreAction::Delete { table, key } && table@ == dr.table_name@ && key@ == dr.key@
            } else {
                r matches StoreAction::Reply(p) && p.correlation_id@ == dr.correlation_id@
                    && p.payload@.len() == 0
                    && (p.status matches BackendStatusCodes::Error(m) && m@ == "No mapping for "@ + dr.table_name@)
            },
        },
{
    match job {
        PersistenceJobType::Store(sr) => match validate_mapping(store, sr) {
            Some(table) => StoreAction::Store { table, key: sr.key.clone(), payload: copy_bytes(&sr.payload) },
            None => StoreAction::Reply(no_mapping_result(sr.get_correlation_id(), sr.table_name.as_str())),
        },
        PersistenceJobType::Retrieve(rr) => match validate_mapping(store, rr) {
            Some(table) => StoreAction::Retrieve { table, key: rr.key.clone() },
            None => StoreAction::Reply(no_mapping_result(rr.get_correlation_id(), rr.table_name.as_str())),
        },
        PersistenceJobType::Delete(dr) => match validate_mapping(store, dr) {
            Some(table) => StoreAction::Delete { table, key: dr.key.clone() },
            None => StoreAction::Reply(no_mapping_result(dr.get_correlation_id(), dr.table_name.as_str())),
        },
    }
}

fn no_mapping_result(correlation_id: String, table_name: &str) -> (r: PersistenceResult)
    ensures
        r.correlation_id == correlation_id,
        r.payload@.len() == 0,
        r.status matches BackendStatusCodes::Error(m) && m@ == "No mapping for "@ + table_name@,
{
    let mut msg = String::from_str("No mapping for ");
    msg.append(table_name);
    PersistenceResult { correlation_id, status: BackendStatusCodes::Error(msg), payload: Vec::new() }
}

fn string_bytes(s: &String) -> (r: Vec<u8>)
    ensures
        r@ == vstd::utf8::encode_utf8(s@),
{
    s.as_str().as_bytes_vec()
}

/// The answer to a Redis store, given the previous value and the reply to the write (or the
/// error's text): the previous value is the payload; a write not answered `OK` is still
/// reported as success, with the reply in the message.
pub fn redis_store_result(correlation_id: String, outcome: Result<(Option<String>, String), String>) -> (r: PersistenceResult)
    ensures
        r.correlation_id == correlation_id,
        match outcome {
            Ok((previous, reply)) => {
                &&& r.payload@ == match previous {
                    Some(d) => vstd::utf8::encode_utf8(d@),
                    None => Seq::<u8>::empty(),
                }
                &&& r.status matches BackendStatusCodes::OK(m) && m@ == if reply@ == "OK"@ {
                    "REDIS is good"@
                } else {
                    "Problem when storing key: "@ + reply@
                }
            },
            Err(e) => r.payload@.len() == 0 && (r.status matches BackendStatusCodes::Error(m) && m@ == e@),
        },
{
    match outcome {
        Ok((previous, reply)) => {
            let payload = match previous {
                Some(d) => string_bytes(&d),
                None => Vec::new(),
            };
            let ok = String::from_str("OK");
            let msg = if reply == ok {
                String::from_str("REDIS is good")
            } else {
                let mut m = String::from_str("Problem when storing key: ");
                m.append(reply.as_str());
                m
            };
            PersistenceResult { correlation_id, status: BackendStatusCodes::OK(msg), payload }
        },
        Err(e) => PersistenceResult { correlation_id, status: BackendStatusCodes::Error(e), payload: Vec::new() },
    }
}

/// The answer to a Redis read, given the value read (or the error's text).
pub fn redis_retrieve_result(correlation_id: String, outcome: Result<String, String>) -> (r: PersistenceResult)
    ensures
        r.correlation_id == correlation_id,
        match outcome {
            Ok(d) => r.payload@ == vstd::utf8::encode_utf8(d@)
                && (r.status matches BackendStatusCodes::OK(m) && m@ == "REDIS is good"@),
            Err(e) => r.payload@.len() == 0 && (r.status matches BackendStatusCodes::Error(m) && m@ == e@),
        },
{
    match outcome {
        Ok(d) => PersistenceResult {
            correlation_id,
            status: BackendStatusCodes::OK(String::from_str("REDIS is good")),
            payload: string_bytes(&d),
        },
        Err(e) => PersistenceResult { correlation_id, status: BackendStatusCodes::Error(e), payload: Vec::new() },
    }
}

/// The `{:?}` text of a signed count.
pub open spec fn signed_decimal(n: int) -> Seq<char> {
    if n < 0 {
        "-"@ + decimal((-n) as nat)
    } else {
        decimal(n as nat)
    }
}

fn i32_text(n: i32) -> (r: String)
    ensures
        r@ == signed_decimal(n as int),
{
    if n < 0 {
        let magnitude: u32 = (0i64 - (n as i64)) as u32;
        let digits = decimal_string(magnitude as usize);
        let mut s = String::from_str("-");
        s.append(digits.as_str());
        s
    } else {
        decimal_string(n as usize)
    }
}

/// The answer to a Redis delete, given the previous value and the number of keys deleted (or
/// the error's text).
pub fn redis_delete_result(correlation_id: String, outcome: Result<(Option<String>, i32), String>) -> (r: PersistenceResult)
    ensures
        r.correlation_id == correlation_id,
        match outcome {
            Ok((previous, deleted)) => {
                &&& r.payload@ == match previous {
                    Some(d) => vstd::utf8::encode_utf8(d@),
                    None => Seq::<u8>::empty(),
                }
                &&& r.status matches BackendStatusCodes::OK(m) && m@ == "Deleted keys : "@ + signed_decimal(deleted as int)
            },
            Err(e) => r.payload@.len() == 0 && (r.status matches BackendStatusCodes::Error(m) && m@ == e@),
        },
{
    match outcome {
        Ok((previous, deleted)) => {
            let payload = match previous {
                Some(d) => string_bytes(&d),
                None => Vec::new(),
            };
            let mut msg = String::from_str("Deleted keys : ");
            let count = i32_text(deleted);
            msg.append(count.as_str());
            PersistenceResult { correlation_id, status: BackendStatusCodes::OK(msg), payload }
        },
        Err(e) => PersistenceResult { correlation_id, status: BackendStatusCodes::Error(e), payload: Vec::new() },
    }
}

/// A DynamoDB record as (attribute name, binary value) pairs.
pub type BinaryItem = Vec<(String, Option<Vec<u8>>)>;

/// The binary `data` attribute of a record: the first entry of that name, where it holds
/// bytes.
pub open spec fn data_attribute(item: Seq<(String, Option<Vec<u8>>)>) -> Seq<u8>
    decreases item.len(),
{
    if item.len() == 0 {
        Seq::empty()
    } else if item[0].0@ == "data"@ {
        match item[0].1 {
            Some(b) => b@,
            None => Seq::empty(),
        }
    } else {
        data_attribute(item.drop_first())
    }
}

fn data_of(item: &BinaryItem) -> (r: Vec<u8>)
    ensures
        r@ == data_attribute(item@),
{
    let data = String::from_str("data");
    let mut i: usize = 0;
    assert(item@.subrange(0, item@.len() as int) =~= item@);
    while i < item.len()
        invariant
            i <= item@.len(),
            data@ == "data"@,
            data_attribute(item@) == data_attribute(item@.subrange(i as int, item@.len() as int)),
        decreases item@.len() - i,
    {
        let ghost rest = item@.subrange(i as int, item@.len() as int);
        assert(rest.drop_first() =~= item@.subrange(i + 1, item@.len() as int));
        if item[i].0 == data {
            return match &item[i].1 {
                Some(b) => copy_bytes(b),
                None => Vec::new(),
            };
        }
        i = i + 1;
    }
    Vec::new()
}

/// The answer to a DynamoDB operation, given the record it returned (the previous one for a
/// write or delete, the one read for a read), or the error's text.
pub fn dynamodb_result(correlation_id: String, outcome: Result<Option<BinaryItem>, String>) -> (r: PersistenceResult)
    ensures
        r.correlation_id == correlation_id,
        match outcome {
            Ok(item) => r.payload@ == match item {
                Some(it) => data_attribute(it@),
                None => Seq::<u8>::empty(),
            } && (r.status matches BackendStatusCodes::OK(m) && m@ == "DynamoDb is good"@),
            Err(e) => r.payload@.len() == 0 && (r.status matches BackendStatusCodes::Error(m) && m@ == e@),
        },
{
    match outcome {
        Ok(item) => {
            let payload = match &item {
                Some(it) => data_of(it),
                None => Vec::new(),
            };
            PersistenceResult {
                correlation_id,
                status: BackendStatusCodes::OK(String::from_str("DynamoDb is good")),
                payload,
            }
        },
        Err(e) => PersistenceResult { correlation_id, status: BackendStatusCodes::Error(e), payload: Vec::new() },
    }
}

/// The databases store `j` of a type keeps.
pub open spec fn store_databases(config: Swir, t: StoreType, j: int) -> Seq<Seq<char>> {
    match t {
        StoreType::Redis => config.stores.redis@[j].database_names(),
        StoreType::DynamoDb => config.stores.dynamodb@[j].database_names(),
    }
}

/// The channel a database name is routed to exists, and the store that reads it (see
/// `store_channels`) keeps that database: a job routed by its database name is carried out
/// there and never answered with `No mapping`.
pub proof fn law_routed_database_is_kept(config: Swir, database_name: Seq<char>)
    ensures
        last_route(persistence_routes(config), database_name) matches Some(ch) ==> {
            &&& ch.index < store_count(config, ch.store_type)
            &&& exists|j: int| 0 <= j < store_names(config, ch.store_type).len()
                && #[trigger] store_channel_of(store_names(config, ch.store_type), j) == Some(ch.index)
                && store_databases(config, ch.store_type, j).contains(database_name)
        },
{
    let rn = redis_names(config.stores.redis@);
    let dn = dynamodb_names(config.stores.dynamodb@);
    lemma_store_routes_reach(rn, StoreType::Redis);
    lemma_store_routes_reach(dn, StoreType::DynamoDb);
    law_database_routes_lead_to_channels(config);
    let routes = persistence_routes(config);
    let a = store_routes(rn, StoreType::Redis);
    let b = store_routes(dn, StoreType::DynamoDb);
    lemma_last_route_member(routes, database_name);
    if last_route(routes, database_name) is Some {
        let ch = last_route(routes, database_name)->0;
        let i = choose|i: int| 0 <= i < routes.len() && (#[trigger] routes[i]).0 == database_name && routes[i].1 == ch;
        if i < a.len() {
            assert(routes[i] == a[i]);
            let j = choose|j: int| 0 <= j < rn.len() && #[trigger] route_reaches(rn, j, a[i]);
            assert(rn[j] == strings_view(config.stores.redis@[j].client_database_names@));
            assert(store_channel_of(store_names(config, ch.store_type), j) == Some(ch.index));
        } else {
            assert(routes[i] == b[i - a.len()]);
            let j = choose|j: int| 0 <= j < dn.len() && #[trigger] route_reaches(dn, j, b[i - a.len()]);
            assert(dn[j] == strings_view(config.stores.dynamodb@[j].client_database_names@));
            assert(store_channel_of(store_names(config, ch.store_type), j) == Some(ch.index));
        }
    }
}

} // verus!
