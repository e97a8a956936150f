use swir::discovery::{
    announce_item, create_domain, get_domain, parse_service_name, parse_u16, resolved_from_desc, services_from_items, uri_for,
    drop_closed_listeners, host_address, resolved_from_mdns, AnnounceServiceDetails, IpValue, AttributeValue, ResolvedAddr, ServiceDetails,
};

fn details() -> ServiceDetails {
    ServiceDetails { protocol: "http".to_string(), service_name: "orders".to_string(), domain: "swir".to_string() }
}

#[test]
fn domain_of_a_service() {
    assert_eq!(create_domain(&details()), "_http._orders._swir.local");
    let a = AnnounceServiceDetails { service_details: details(), client_url: "http://localhost:8090".to_string() };
    assert_eq!(get_domain(&a), "_http._orders._swir.local");
}

#[test]
fn announced_name_reads_back() {
    let full = format!("Xy12ab.{}", create_domain(&details()));
    assert_eq!(parse_service_name(&full), Some(("orders".to_string(), "_http._orders._swir.local".to_string())));
}

#[test]
fn names_outside_the_swir_domain_are_ignored() {
    assert_eq!(parse_service_name("inst._http._orders._other.local"), None);
    assert_eq!(parse_service_name("no-dots-at-all"), None);
}

#[test]
fn service_type_without_protocol_part() {
    assert_eq!(parse_service_name("inst._orders._swir.local"), Some(("orders".to_string(), "_orders._swir.local".to_string())));
}

#[test]
fn ports_parse_as_u16() {
    assert_eq!(parse_u16("8080"), Some(8080));
    assert_eq!(parse_u16("+80"), Some(80));
    assert_eq!(parse_u16("65535"), Some(65535));
    assert_eq!(parse_u16("65536"), None);
    assert_eq!(parse_u16(""), None);
    assert_eq!(parse_u16("+"), None);
    assert_eq!(parse_u16("-1"), None);
    assert_eq!(parse_u16("12a"), None);
    for p in [0u16, 7, 80, 443, 50051, 65535] {
        assert_eq!(parse_u16(&p.to_string()), Some(p));
    }
}

fn attr_s(name: &str, v: &str) -> (String, AttributeValue) {
    (name.to_string(), AttributeValue { s: Some(v.to_string()), n: None })
}

fn attr_n(name: &str, v: &str) -> (String, AttributeValue) {
    (name.to_string(), AttributeValue { s: None, n: Some(v.to_string()) })
}

#[test]
fn complete_records_become_services() {
    let good = vec![attr_s("service_name", "orders"), attr_s("ip", "10.0.0.1"), attr_n("port", "50052"), attr_s("domain", "_http._orders._swir.local"), attr_s("fqdn", "host-a")];
    let no_fqdn = vec![attr_s("service_name", "orders"), attr_s("ip", "10.0.0.2"), attr_n("port", "50052"), attr_s("domain", "d")];
    let port_as_string = vec![attr_s("service_name", "orders"), attr_s("ip", "10.0.0.3"), attr_s("port", "50052"), attr_s("domain", "d"), attr_s("fqdn", "host-c")];
    let services = services_from_items(&vec![good, no_fqdn, port_as_string]);
    assert_eq!(services.len(), 1);
    assert_eq!(services[0].fqdn, "host-a");
    assert_eq!(services[0].port, "50052");
    let port = parse_u16(&services[0].port).unwrap();
    let addr = resolved_from_desc(&services[0], port);
    assert_eq!(uri_for(&addr), Some("http://host-a:50052".to_string()));
}

#[test]
fn uri_of_resolved_addresses() {
    let a = ResolvedAddr { service_name: "s".to_string(), fqdn: None, socket_addr: Some("10.1.1.1:9000".to_string()), domain: "d".to_string(), port: 9000 };
    assert_eq!(uri_for(&a), Some("http://10.1.1.1:9000".to_string()));
    let b = ResolvedAddr { service_name: "s".to_string(), fqdn: None, socket_addr: None, domain: "d".to_string(), port: 9000 };
    assert_eq!(uri_for(&b), None);
}

#[test]
fn announced_record_reads_back() {
    let item = announce_item("inst0000", "_http._books._swir.local", "books", "host-a", &Some("10.1.2.3".to_string()), 8080, 1_600_000_000_000);
    let names: Vec<&str> = item.iter().map(|(n, _)| n.as_str()).collect();
    assert_eq!(names, vec!["partition_key", "service_name", "domain", "instance_name", "last_seen_at", "fqdn", "ip", "port"]);
    assert_eq!(item[4].1.n, Some("1600000000000".to_string()));
    let found = services_from_items(&vec![item]);
    assert_eq!(found.len(), 1);
    let d = &found[0];
    assert_eq!((d.service_name.as_str(), d.domain.as_str(), d.ip.as_str(), d.fqdn.as_str()), ("books", "_http._books._swir.local", "10.1.2.3", "host-a"));
    assert_eq!(parse_u16(d.port.as_str()), Some(8080));
}

#[test]
fn record_without_address_is_not_read_back() {
    let item = announce_item("inst0000", "d", "books", "host-a", &None, 8080, 5);
    assert_eq!(item.len(), 7);
    assert_eq!(services_from_items(&vec![item]).len(), 0);
}

fn v4(a: u32, b: u32, c: u32, d: u32) -> IpValue {
    IpValue::V4((a << 24) | (b << 16) | (c << 8) | d)
}

fn v6(first: u16, last: u16) -> IpValue {
    IpValue::V6(((first as u128) << 112) | last as u128)
}

#[test]
fn host_address_is_the_greatest_usable_one() {
    let addrs = vec![v4(127, 0, 0, 1), v4(10, 0, 0, 5), v4(192, 168, 1, 7), v4(224, 0, 0, 251), v6(0, 1)];
    assert_eq!(host_address(&addrs), Some(v4(192, 168, 1, 7)));
    let addrs = vec![v4(10, 0, 0, 5), v6(0xfe80, 1), v6(0xff02, 0xfb)];
    assert_eq!(host_address(&addrs), Some(v6(0xfe80, 1)));
    assert_eq!(host_address(&vec![v4(127, 0, 0, 1), v6(0, 1), v4(239, 255, 255, 250)]), None);
    assert_eq!(host_address(&vec![]), None);
}

#[test]
fn loopback_and_multicast_ranges_are_skipped() {
    assert_eq!(host_address(&vec![v4(127, 255, 255, 254), v4(1, 2, 3, 4)]), Some(v4(1, 2, 3, 4)));
    assert_eq!(host_address(&vec![v4(240, 0, 0, 1), v4(223, 255, 255, 255)]), Some(v4(240, 0, 0, 1)));
    assert_eq!(host_address(&vec![v4(223, 0, 0, 1), v4(224, 0, 0, 0)]), Some(v4(223, 0, 0, 1)));
    assert_eq!(host_address(&vec![v6(0xff00, 0), v6(0x2001, 1)]), Some(v6(0x2001, 1)));
}

#[test]
fn mdns_answers_resolve_to_services() {
    let r = resolved_from_mdns("inst01._http._books._swir.local".to_string(), "10.0.0.9:7000".to_string(), 7000).unwrap();
    assert_eq!(r.service_name, "books");
    assert_eq!(r.domain, "inst01._http._books._swir.local");
    assert_eq!(r.socket_addr, Some("10.0.0.9:7000".to_string()));
    assert_eq!((r.fqdn, r.port), (None, 7000));
    assert_eq!(uri_for(&resolved_from_mdns("i._http._books._swir.local".to_string(), "10.0.0.9:7000".to_string(), 7000).unwrap()), Some("http://10.0.0.9:7000".to_string()));
    assert!(resolved_from_mdns("inst01._http._books.other.local".to_string(), "10.0.0.9:7000".to_string(), 7000).is_none());
}

#[test]
fn closed_listeners_are_dropped_in_place() {
    let mut l = vec!["a", "b", "c", "d"];
    assert!(!drop_closed_listeners(&mut l, &vec![true, true, false, true]));
    assert_eq!(l, vec!["c"]);
    let mut l = vec![1, 2, 3];
    assert!(!drop_closed_listeners(&mut l, &vec![false, false, false]));
    assert_eq!(l, vec![1, 2, 3]);
    let mut l = vec![1, 2];
    assert!(drop_closed_listeners(&mut l, &vec![true, true]));
    assert!(l.is_empty());
    let mut l: Vec<u8> = vec![];
    assert!(drop_closed_listeners(&mut l, &vec![]));
}
