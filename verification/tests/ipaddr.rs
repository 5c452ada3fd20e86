use ddns::ipaddr::{find_v6_addr, DDNSIP, IpOprator, Ipv4DDNS, Ipv6DDNS, NetInterface};

fn netif(name: &str, addr: &str, is_v6: bool) -> NetInterface {
    NetInterface { name: name.to_string(), addr: addr.to_string(), is_v6 }
}

#[test]
fn agreement_is_required_for_v4() {
    let ok = Ipv4DDNS::new("1.2.3.4".to_string(), "1.2.3.4".to_string());
    assert_eq!(ok.ok().map(|v| v.get_addr()), Some("1.2.3.4".to_string()));
    let err = Ipv4DDNS::new("1.2.3.4".to_string(), "5.6.7.8".to_string());
    let e = err.err().expect("mismatch must fail resolution");
    assert_eq!(e.local, "1.2.3.4");
    assert_eq!(e.net, "5.6.7.8");
}

#[test]
fn agreement_is_required_for_v6() {
    let ok = Ipv6DDNS::new("::1".to_string(), "::1".to_string());
    assert_eq!(ok.ok().map(|v| v.get_addr()), Some("::1".to_string()));
    let err = Ipv6DDNS::new("::1".to_string(), "::2".to_string());
    assert!(err.is_err());
}

#[test]
fn resolved_address_carries_through() {
    let v4 = Ipv4DDNS::new("9.9.9.9".to_string(), "9.9.9.9".to_string()).ok().unwrap();
    let ddns = DDNSIP::Ipv4(v4);
    assert_eq!(ddns.get_addr(), "9.9.9.9");
    let v6 = Ipv6DDNS::new("::1".to_string(), "::1".to_string()).ok().unwrap();
    assert_eq!(DDNSIP::Ipv6(v6).get_addr(), "::1");
}

#[test]
fn interface_selection_takes_first_v6_of_named_interface() {
    let ifas = vec![
        netif("lo0", "127.0.0.1", false),
        netif("en0", "10.0.0.2", false),
        netif("en1", "fe80::1", true),
        netif("en0", "fe80::2", true),
        netif("en0", "fe80::3", true),
    ];
    assert_eq!(find_v6_addr(&ifas, "en0"), Some("fe80::2".to_string()));
    assert_eq!(find_v6_addr(&ifas, "en2"), None);
    assert_eq!(find_v6_addr(&Vec::new(), "en0"), None);
}
