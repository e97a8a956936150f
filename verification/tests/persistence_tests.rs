use swir::channels::{create_memory_channels, find_channel_by_database_name, StoreChannel};
use swir::config::{Channels, DynamoDb, Redis, StoreType, Stores, Swir};
use swir::persistence::{
    dynamodb_result, handle_persistence_job, redis_delete_result, redis_retrieve_result, redis_store_result,
    validate_mapping, ClientToBackendDatabaseResolver, StoreAction,
};
use swir::structs::{BackendStatusCodes, DeleteRequest, PersistenceJobType, RetrieveRequest, StoreRequest};

fn status_text(s: &BackendStatusCodes) -> String {
    match s {
        BackendStatusCodes::OK(m) => format!("OK {}", m),
        BackendStatusCodes::Error(m) => format!("Error {}", m),
        BackendStatusCodes::NoTopic(m) => format!("NoTopic {}", m),
        BackendStatusCodes::NoService(m) => format!("NoService {}", m),
    }
}

fn redis() -> Redis {
    Redis { nodes: vec!["redis://localhost".to_string()], client_database_names: vec!["users".to_string()] }
}

#[test]
fn store_keeps_its_databases() {
    assert_eq!(redis().get_backend_table_name_for_client_table_name("users"), Some("users".to_string()));
    assert_eq!(redis().get_backend_table_name_for_client_table_name("carts"), None);
    let d = DynamoDb { client_database_names: vec!["carts".to_string()] };
    let rr = RetrieveRequest { correlation_id: "c".to_string(), table_name: "carts".to_string(), key: "k".to_string() };
    assert_eq!(validate_mapping(&d, &rr), Some("carts".to_string()));
}

#[test]
fn jobs_on_unknown_databases_are_refused() {
    let job = PersistenceJobType::Delete(DeleteRequest { correlation_id: "c".to_string(), table_name: "carts".to_string(), key: "k".to_string() });
    match handle_persistence_job(&redis(), &job) {
        StoreAction::Reply(p) => {
            assert_eq!(p.correlation_id, "c");
            assert_eq!(status_text(&p.status), "Error No mapping for carts");
        }
        _ => panic!("expected a reply"),
    }
}

#[test]
fn jobs_on_known_databases_become_operations() {
    let job = PersistenceJobType::Store(StoreRequest { correlation_id: "c".to_string(), payload: vec![1, 2], key: "k".to_string(), table_name: "users".to_string() });
    match handle_persistence_job(&redis(), &job) {
        StoreAction::Store { table, key, payload } => {
            assert_eq!((table.as_str(), key.as_str()), ("users", "k"));
            assert_eq!(payload, vec![1, 2]);
        }
        _ => panic!("expected a store"),
    }
}

#[test]
fn redis_answers() {
    let r = redis_store_result("c".to_string(), Ok((Some("old".to_string()), "OK".to_string())));
    assert_eq!(status_text(&r.status), "OK REDIS is good");
    assert_eq!(r.payload, b"old".to_vec());
    let r = redis_store_result("c".to_string(), Ok((None, "QUEUED".to_string())));
    assert_eq!(status_text(&r.status), "OK Problem when storing key: QUEUED");
    assert!(r.payload.is_empty());
    let r = redis_store_result("c".to_string(), Err("connection refused".to_string()));
    assert_eq!(status_text(&r.status), "Error connection refused");
    let r = redis_retrieve_result("c".to_string(), Ok("v".to_string()));
    assert_eq!((status_text(&r.status), r.payload), ("OK REDIS is good".to_string(), b"v".to_vec()));
    let r = redis_delete_result("c".to_string(), Ok((Some("v".to_string()), 1)));
    assert_eq!(status_text(&r.status), "OK Deleted keys : 1");
    let r = redis_delete_result("c".to_string(), Ok((None, -3)));
    assert_eq!(status_text(&r.status), "OK Deleted keys : -3");
    let r = redis_delete_result("c".to_string(), Ok((None, i32::MIN)));
    assert_eq!(status_text(&r.status), format!("OK Deleted keys : {:?}", i32::MIN));
}

#[test]
fn dynamodb_answers() {
    let item = vec![("partition_key".to_string(), None), ("data".to_string(), Some(vec![9u8, 8u8]))];
    let r = dynamodb_result("c".to_string(), Ok(Some(item)));
    assert_eq!((status_text(&r.status), r.payload), ("OK DynamoDb is good".to_string(), vec![9u8, 8u8]));
    let r = dynamodb_result("c".to_string(), Ok(None));
    assert!(r.payload.is_empty());
    let r = dynamodb_result("c".to_string(), Err("ResourceNotFound".to_string()));
    assert_eq!(status_text(&r.status), "Error ResourceNotFound");
}

#[test]
fn routed_databases_are_kept_by_their_store() {
    use_routed_databases();
}

fn use_routed_databases() {
    let names = |v: &[&str]| -> Vec<String> { v.iter().map(|s| s.to_string()).collect() };
    let stores = Stores {
        redis: vec![
            Redis { nodes: names(&["redis://a"]), client_database_names: names(&["users", "carts"]) },
            Redis { nodes: names(&["redis://b"]), client_database_names: names(&["sessions"]) },
        ],
        dynamodb: vec![DynamoDb { client_database_names: names(&["carts", "orders"]) }],
    };
    let config = Swir {
        client_ip: "127.0.0.1".to_string(),
        client_http_port: 8080,
        client_https_port: 8443,
        client_grpc_port: 50051,
        client_tls_private_key: String::new(),
        client_tls_certificate: String::new(),
        client_executable: None,
        channels: Channels { kafka: vec![], nats: vec![], aws_kinesis: vec![] },
        stores,
    };
    let mc = create_memory_channels(&config);
    let routes = &mc.persistence_memory_channels.from_client_to_persistence_senders;
    for db in ["users", "carts", "sessions", "orders"] {
        let ch = find_channel_by_database_name(routes, db).expect("routed");
        let job = PersistenceJobType::Retrieve(RetrieveRequest { correlation_id: "c".to_string(), table_name: db.to_string(), key: "k".to_string() });
        let action = match ch.store_type {
            StoreType::Redis => handle_persistence_job(&config.stores.redis[ch.index], &job),
            StoreType::DynamoDb => handle_persistence_job(&config.stores.dynamodb[ch.index], &job),
        };
        match action {
            StoreAction::Retrieve { table, key } => assert_eq!((table.as_str(), key.as_str()), (db, "k")),
            _ => panic!("expected a retrieve"),
        }
    }
    assert_eq!(find_channel_by_database_name(routes, "carts"), Some(StoreChannel { store_type: StoreType::DynamoDb, index: 0 }));
    assert_eq!(find_channel_by_database_name(routes, "sessions"), Some(StoreChannel { store_type: StoreType::Redis, index: 1 }));
}
