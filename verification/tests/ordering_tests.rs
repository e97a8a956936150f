use std::cmp::Ordering;
use swir::ordering::compare;
use swir::structs::{CustomerInterfaceType, EndpointDesc, SubscribeRequest};

fn sub(cid: &str, topic: &str, url: &str, client: &str, t: CustomerInterfaceType) -> SubscribeRequest {
    SubscribeRequest {
        endpoint: EndpointDesc { url: url.to_string(), client_id: client.to_string() },
        correlation_id: cid.to_string(),
        client_topic: topic.to_string(),
        client_interface_type: t,
    }
}

#[test]
fn correlation_id_decides_first() {
    let a = sub("a", "z", "z", "z", CustomerInterfaceType::GRPC);
    let b = sub("b", "a", "a", "a", CustomerInterfaceType::REST);
    assert_eq!(compare(&a, &b), Ordering::Less);
    assert_eq!(compare(&b, &a), Ordering::Greater);
}

#[test]
fn topic_then_endpoint_then_interface() {
    let a = sub("c", "t1", "u", "x", CustomerInterfaceType::REST);
    let b = sub("c", "t2", "u", "x", CustomerInterfaceType::REST);
    assert_eq!(compare(&a, &b), Ordering::Less);
    let c = sub("c", "t", "http://a", "x", CustomerInterfaceType::GRPC);
    let d = sub("c", "t", "http://b", "x", CustomerInterfaceType::REST);
    assert_eq!(compare(&c, &d), Ordering::Less);
    let e = sub("c", "t", "u", "id1", CustomerInterfaceType::REST);
    let f = sub("c", "t", "u", "id0", CustomerInterfaceType::REST);
    assert_eq!(compare(&e, &f), Ordering::Greater);
    let g = sub("c", "t", "u", "x", CustomerInterfaceType::REST);
    let h = sub("c", "t", "u", "x", CustomerInterfaceType::GRPC);
    assert_eq!(compare(&g, &h), Ordering::Less);
    assert_eq!(compare(&h, &g), Ordering::Greater);
}

#[test]
fn prefix_sorts_first_and_equal_is_equal() {
    let a = sub("ab", "t", "u", "x", CustomerInterfaceType::REST);
    let b = sub("abc", "t", "u", "x", CustomerInterfaceType::REST);
    assert_eq!(compare(&a, &b), Ordering::Less);
    let c = sub("abc", "t", "u", "x", CustomerInterfaceType::REST);
    assert_eq!(compare(&b, &c), Ordering::Equal);
    let e = sub("", "t", "u", "x", CustomerInterfaceType::REST);
    assert_eq!(compare(&e, &a), Ordering::Less);
}

#[test]
fn order_matches_str_order_on_non_ascii() {
    let a = sub("é", "t", "u", "x", CustomerInterfaceType::REST);
    let b = sub("z", "t", "u", "x", CustomerInterfaceType::REST);
    assert_eq!(compare(&a, &b), "é".cmp("z"));
    assert_eq!(compare(&a, &b), Ordering::Greater);
}

#[test]
fn order_is_transitive_and_sorts() {
    let mut v = vec![
        sub("b", "t", "u", "x", CustomerInterfaceType::REST),
        sub("a", "t2", "u", "x", CustomerInterfaceType::GRPC),
        sub("a", "t2", "u", "x", CustomerInterfaceType::REST),
        sub("a", "t1", "v", "x", CustomerInterfaceType::REST),
    ];
    v.sort_by(|x, y| compare(x, y));
    let keys: Vec<(String, String, CustomerInterfaceType)> =
        v.iter().map(|s| (s.correlation_id.clone(), s.client_topic.clone(), s.client_interface_type)).collect();
    assert_eq!(
        keys,
        vec![
            ("a".to_string(), "t1".to_string(), CustomerInterfaceType::REST),
            ("a".to_string(), "t2".to_string(), CustomerInterfaceType::REST),
            ("a".to_string(), "t2".to_string(), CustomerInterfaceType::GRPC),
            ("b".to_string(), "t".to_string(), CustomerInterfaceType::REST),
        ]
    );
    for i in 0..v.len() {
        for j in 0..v.len() {
            for k in 0..v.len() {
                if compare(&v[i], &v[j]) != Ordering::Greater && compare(&v[j], &v[k]) != Ordering::Greater {
                    assert_ne!(compare(&v[i], &v[k]), Ordering::Greater);
                }
            }
        }
    }
}
