use filesend::discovery::{clean_host, get_target_address, DnsRecord};

fn srv(port: u16, target: &str) -> DnsRecord {
    DnsRecord::Srv { port, target: target.to_string() }
}

#[test]
fn finds_peer_with_ipv4() {
    let records = vec![
        DnsRecord::Txt,
        srv(7000, "mybox.local."),
        DnsRecord::A("192.168.1.5".to_string()),
        DnsRecord::Aaaa("fe80::1".to_string()),
    ];
    let peer = get_target_address(&records, &"192.168.1.2".to_string()).unwrap();
    assert_eq!(peer.hostname, "mybox");
    assert_eq!(peer.ip, "192.168.1.5");
    assert_eq!(peer.port, 7000);
}

#[test]
fn local_address_is_skipped() {
    let records = vec![
        srv(7000, "mybox.local."),
        DnsRecord::A("192.168.1.2".to_string()),
        DnsRecord::Aaaa("fe80::1".to_string()),
    ];
    let peer = get_target_address(&records, &"192.168.1.2".to_string()).unwrap();
    assert_eq!(peer.ip, "fe80::1");
}

#[test]
fn only_local_address_gives_nothing() {
    let records = vec![srv(7000, "me.local."), DnsRecord::A("10.0.0.1".to_string())];
    assert!(get_target_address(&records, &"10.0.0.1".to_string()).is_none());
}

#[test]
fn service_record_is_needed() {
    let records = vec![DnsRecord::A("10.0.0.9".to_string()), DnsRecord::Other];
    assert!(get_target_address(&records, &"10.0.0.1".to_string()).is_none());
    assert!(get_target_address(&Vec::new(), &"10.0.0.1".to_string()).is_none());
}

#[test]
fn last_records_win() {
    let records = vec![
        srv(1, "first.local."),
        DnsRecord::A("10.0.0.2".to_string()),
        srv(2, "second.local."),
        DnsRecord::A("10.0.0.3".to_string()),
    ];
    let peer = get_target_address(&records, &"10.0.0.1".to_string()).unwrap();
    assert_eq!(peer.hostname, "second");
    assert_eq!(peer.port, 2);
    assert_eq!(peer.ip, "10.0.0.3");
}

#[test]
fn host_names_lose_domain_and_dots() {
    assert_eq!(clean_host(&"mybox.local.".to_string()), "mybox");
    assert_eq!(clean_host(&"a.b.local.x".to_string()), "abx");
    assert_eq!(clean_host(&"plain".to_string()), "plain");
    assert_eq!(clean_host(&".local.local".to_string()), "");
    assert_eq!(clean_host(&"x.localhost.".to_string()), "xhost");
    assert_eq!(clean_host(&"...".to_string()), "");
}
