use wasm_runner::network::resolution_host;
use wasm_runner::{
    patterns_to_resolve, HostResolution, IpAddress, NetworkChecker, NetworkSpec, SocketAddrUse,
    SocketAddress,
};

fn create_network_spec(tcp_connect: Vec<String>) -> NetworkSpec {
    NetworkSpec {
        inherit: false,
        allow_ip_name_lookup: true,
        tcp_bind: vec![],
        tcp_connect,
        udp_bind: vec![],
        udp_connect: vec![],
        udp_outgoing: vec![],
    }
}

fn v4(a: u8, b: u8, c: u8, d: u8, port: u16) -> SocketAddress {
    SocketAddress::new(IpAddress::v4(a, b, c, d), port)
}

fn localhost_resolution(port: u16) -> Vec<HostResolution> {
    vec![HostResolution {
        pattern: format!("localhost:{}", port),
        addresses: vec![IpAddress::v4(127, 0, 0, 1)],
    }]
}

#[test]
fn test_wildcard_pattern() {
    let spec = create_network_spec(vec!["*:*".to_string()]);
    let checker = NetworkChecker::new(&spec, vec![]);
    let addr = v4(127, 0, 0, 1, 8080);
    assert!(checker.check(&addr, SocketAddrUse::TcpConnect));
}

#[test]
fn test_wildcard_port() {
    let spec = create_network_spec(vec!["127.0.0.1:*".to_string()]);
    let checker = NetworkChecker::new(&spec, vec![]);
    let addr = v4(127, 0, 0, 1, 8080);
    assert!(checker.check(&addr, SocketAddrUse::TcpConnect));
}

#[test]
fn test_specific_ip_and_port() {
    let spec = create_network_spec(vec!["127.0.0.1:8080".to_string()]);
    let checker = NetworkChecker::new(&spec, vec![]);
    let addr = v4(127, 0, 0, 1, 8080);
    assert!(checker.check(&addr, SocketAddrUse::TcpConnect));
}

#[test]
fn test_no_match() {
    let spec = create_network_spec(vec!["192.168.1.1:8080".to_string()]);
    let checker = NetworkChecker::new(&spec, vec![]);
    let addr = v4(127, 0, 0, 1, 8080);
    assert!(!checker.check(&addr, SocketAddrUse::TcpConnect));
}

#[test]
fn test_multiple_patterns() {
    let spec = create_network_spec(vec![
        "192.168.1.1:8080".to_string(),
        "127.0.0.1:8080".to_string(),
    ]);
    let checker = NetworkChecker::new(&spec, vec![]);
    let addr = v4(127, 0, 0, 1, 8080);
    assert!(checker.check(&addr, SocketAddrUse::TcpConnect));
}

#[test]
fn test_hostname_resolution_localhost() {
    // localhost resolves to 127.0.0.1
    let spec = create_network_spec(vec!["localhost:8080".to_string()]);
    let checker = NetworkChecker::new(&spec, localhost_resolution(8080));

    // The resolved address is stored
    assert!(checker.has_resolution("localhost:8080"));

    // 127.0.0.1:8080 matches
    let addr = v4(127, 0, 0, 1, 8080);
    assert!(checker.check(&addr, SocketAddrUse::TcpConnect));
}

#[test]
fn test_mixed_hostname_and_ip_patterns() {
    let spec = create_network_spec(vec![
        "localhost:8080".to_string(),
        "192.168.1.1:9090".to_string(),
    ]);
    let checker = NetworkChecker::new(&spec, localhost_resolution(8080));

    let addr1 = v4(127, 0, 0, 1, 8080);
    assert!(checker.check(&addr1, SocketAddrUse::TcpConnect));

    let addr2 = v4(192, 168, 1, 1, 9090);
    assert!(checker.check(&addr2, SocketAddrUse::TcpConnect));

    let addr3 = v4(10, 0, 0, 1, 8080);
    assert!(!checker.check(&addr3, SocketAddrUse::TcpConnect));
}

#[test]
fn test_ipv6_pattern() {
    let spec = create_network_spec(vec!["[::1]:8080".to_string()]);
    let checker = NetworkChecker::new(&spec, vec![]);
    let addr = SocketAddress::new(IpAddress::v6(0, 0, 0, 0, 0, 0, 0, 1), 8080);
    assert!(checker.check(&addr, SocketAddrUse::TcpConnect));
}

#[test]
fn test_ipv6_hostname_resolution() {
    // localhost resolves to both IPv4 and IPv6
    let spec = create_network_spec(vec!["localhost:8080".to_string()]);
    let resolutions = vec![HostResolution {
        pattern: "localhost:8080".to_string(),
        addresses: vec![IpAddress::v6(0, 0, 0, 0, 0, 0, 0, 1), IpAddress::v4(127, 0, 0, 1)],
    }];
    let checker = NetworkChecker::new(&spec, resolutions);
    let addr = SocketAddress::new(IpAddress::v6(0, 0, 0, 0, 0, 0, 0, 1), 8080);
    assert!(checker.check(&addr, SocketAddrUse::TcpConnect));
}

#[test]
fn test_different_socket_uses() {
    let spec = NetworkSpec {
        inherit: false,
        allow_ip_name_lookup: true,
        tcp_bind: vec!["127.0.0.1:8080".to_string()],
        tcp_connect: vec!["192.168.1.1:9090".to_string()],
        udp_bind: vec!["127.0.0.1:5353".to_string()],
        udp_connect: vec![],
        udp_outgoing: vec!["*:*".to_string()],
    };
    let checker = NetworkChecker::new(&spec, vec![]);

    let addr1 = v4(127, 0, 0, 1, 8080);
    assert!(checker.check(&addr1, SocketAddrUse::TcpBind));
    assert!(!checker.check(&addr1, SocketAddrUse::TcpConnect));

    let addr2 = v4(192, 168, 1, 1, 9090);
    assert!(!checker.check(&addr2, SocketAddrUse::TcpBind));
    assert!(checker.check(&addr2, SocketAddrUse::TcpConnect));

    let addr3 = v4(127, 0, 0, 1, 5353);
    assert!(checker.check(&addr3, SocketAddrUse::UdpBind));

    let addr4 = v4(8, 8, 8, 8, 53);
    assert!(checker.check(&addr4, SocketAddrUse::UdpOutgoingDatagram));
}

#[test]
fn test_invalid_hostname_pattern() {
    // A name that did not resolve is kept but never matches
    let spec = create_network_spec(vec![
        "invalid.hostname.that.does.not.exist.example:8080".to_string(),
        "127.0.0.1:8080".to_string(),
    ]);
    let checker = NetworkChecker::new(&spec, vec![]);

    // The valid IP pattern still works
    let addr = v4(127, 0, 0, 1, 8080);
    assert!(checker.check(&addr, SocketAddrUse::TcpConnect));
}

#[test]
fn test_port_mismatch() {
    let spec = create_network_spec(vec!["localhost:8080".to_string()]);
    let checker = NetworkChecker::new(&spec, localhost_resolution(8080));

    // Wrong port does not match
    let addr = v4(127, 0, 0, 1, 9090);
    assert!(!checker.check(&addr, SocketAddrUse::TcpConnect));
}

#[test]
fn localhost_pattern_allows_only_its_port() {
    let spec = create_network_spec(vec!["localhost:8080".to_string()]);
    let checker = NetworkChecker::new(&spec, localhost_resolution(8080));
    assert!(checker.check(&v4(127, 0, 0, 1, 8080), SocketAddrUse::TcpConnect));
    assert!(!checker.check(&v4(127, 0, 0, 1, 9090), SocketAddrUse::TcpConnect));
}

#[test]
fn wildcard_host_with_fixed_port() {
    let spec = create_network_spec(vec!["*:443".to_string()]);
    let checker = NetworkChecker::new(&spec, vec![]);
    assert!(checker.check(&v4(1, 2, 3, 4, 443), SocketAddrUse::TcpConnect));
    assert!(!checker.check(&v4(1, 2, 3, 4, 80), SocketAddrUse::TcpConnect));
}

#[test]
fn allowed_for_one_use_only() {
    let spec = create_network_spec(vec!["*:*".to_string()]);
    let checker = NetworkChecker::new(&spec, vec![]);
    let addr = v4(10, 1, 2, 3, 1234);
    assert!(checker.check(&addr, SocketAddrUse::TcpConnect));
    assert!(!checker.check(&addr, SocketAddrUse::TcpBind));
    assert!(!checker.check(&addr, SocketAddrUse::UdpBind));
    assert!(!checker.check(&addr, SocketAddrUse::UdpConnect));
    assert!(!checker.check(&addr, SocketAddrUse::UdpOutgoingDatagram));
}

#[test]
fn wildcard_allows_every_address() {
    let spec = create_network_spec(vec!["10.0.0.1:1".to_string(), "*:*".to_string()]);
    let checker = NetworkChecker::new(&spec, vec![]);
    assert!(checker.check(&v4(0, 0, 0, 0, 0), SocketAddrUse::TcpConnect));
    assert!(checker.check(&v4(255, 255, 255, 255, 65535), SocketAddrUse::TcpConnect));
    let v6 = SocketAddress::new(IpAddress::v6(0x2001, 0xdb8, 0, 0, 0, 0, 0, 7), 22);
    assert!(checker.check(&v6, SocketAddrUse::TcpConnect));
}

#[test]
fn bracketed_loopback_is_not_ipv4_loopback() {
    let spec = create_network_spec(vec!["[::1]:8080".to_string()]);
    let checker = NetworkChecker::new(&spec, vec![]);
    assert!(!checker.check(&v4(127, 0, 0, 1, 8080), SocketAddrUse::TcpConnect));
    let other_port = SocketAddress::new(IpAddress::v6(0, 0, 0, 0, 0, 0, 0, 1), 8081);
    assert!(!checker.check(&other_port, SocketAddrUse::TcpConnect));
}

#[test]
fn ipv6_literal_forms() {
    let spec = create_network_spec(vec![
        "[2001:db8::1]:80".to_string(),
        "[::ffff:1.2.3.4]:*".to_string(),
        "[fe80:0:0:0:0:0:0:ABCD]:22".to_string(),
    ]);
    let checker = NetworkChecker::new(&spec, vec![]);
    let a = SocketAddress::new(IpAddress::v6(0x2001, 0xdb8, 0, 0, 0, 0, 0, 1), 80);
    assert!(checker.check(&a, SocketAddrUse::TcpConnect));
    let b = SocketAddress::new(IpAddress::v6(0, 0, 0, 0, 0, 0xffff, 0x0102, 0x0304), 9);
    assert!(checker.check(&b, SocketAddrUse::TcpConnect));
    let c = SocketAddress::new(IpAddress::v6(0xfe80, 0, 0, 0, 0, 0, 0, 0xabcd), 22);
    assert!(checker.check(&c, SocketAddrUse::TcpConnect));
    let d = SocketAddress::new(IpAddress::v6(0x2001, 0xdb8, 0, 0, 0, 0, 0, 2), 80);
    assert!(!checker.check(&d, SocketAddrUse::TcpConnect));
}

#[test]
fn malformed_patterns_never_match() {
    let spec = create_network_spec(vec![
        "127.0.0.01:80".to_string(),
        "127.0.0.1:99999".to_string(),
        "127.0.0.1".to_string(),
        "[1::2::3]:80".to_string(),
        "256.0.0.1:80".to_string(),
    ]);
    let checker = NetworkChecker::new(&spec, vec![]);
    assert!(!checker.check(&v4(127, 0, 0, 1, 80), SocketAddrUse::TcpConnect));
    assert!(!checker.check(&v4(127, 0, 0, 1, 99), SocketAddrUse::TcpConnect));
}

#[test]
fn resolution_of_an_ip_pattern_is_ignored() {
    let spec = create_network_spec(vec!["10.0.0.1:80".to_string()]);
    let resolutions = vec![HostResolution {
        pattern: "10.0.0.1:80".to_string(),
        addresses: vec![IpAddress::v4(10, 0, 0, 2)],
    }];
    let checker = NetworkChecker::new(&spec, resolutions);
    assert!(!checker.check(&v4(10, 0, 0, 2, 80), SocketAddrUse::TcpConnect));
    assert!(!checker.has_resolution("10.0.0.1:80"));
}

#[test]
fn hostnames_to_resolve_are_distinct() {
    let spec = NetworkSpec {
        inherit: false,
        allow_ip_name_lookup: true,
        tcp_bind: vec!["localhost:80".to_string(), "*:1".to_string()],
        tcp_connect: vec!["example.com:443".to_string(), "localhost:80".to_string()],
        udp_bind: vec!["127.0.0.1:53".to_string()],
        udp_connect: vec!["[::1]:53".to_string(), "db.internal:*".to_string()],
        udp_outgoing: vec!["example.com:443".to_string(), "noport".to_string()],
    };
    let names = patterns_to_resolve(&spec);
    assert_eq!(
        names,
        vec![
            "localhost:80".to_string(),
            "example.com:443".to_string(),
            "db.internal:*".to_string()
        ]
    );
}

#[test]
fn bracketed_ipv6_is_never_resolved() {
    let spec = create_network_spec(vec!["[::1]:8080".to_string()]);
    assert!(patterns_to_resolve(&spec).is_empty());
    assert_eq!(resolution_host("[::1]:8080"), None);
    assert_eq!(resolution_host("*:80"), None);
    assert_eq!(resolution_host("10.0.0.1:80"), None);
    let resolutions = vec![HostResolution {
        pattern: "[::1]:8080".to_string(),
        addresses: vec![IpAddress::v4(127, 0, 0, 1)],
    }];
    let checker = NetworkChecker::new(&spec, resolutions);
    assert!(!checker.has_resolution("[::1]:8080"));
    assert!(!checker.check(&v4(127, 0, 0, 1, 8080), SocketAddrUse::TcpConnect));
}

#[test]
fn resolution_host_is_the_host_part() {
    assert_eq!(resolution_host("localhost:8080"), Some("localhost".to_string()));
    assert_eq!(resolution_host("db.internal:*"), Some("db.internal".to_string()));
    assert_eq!(resolution_host("a:b:c"), Some("a:b".to_string()));
    assert_eq!(resolution_host("noport"), None);
}

#[test]
fn hostname_with_wildcard_port_matches_every_port() {
    let spec = create_network_spec(vec!["db.internal:*".to_string()]);
    let resolutions = vec![HostResolution {
        pattern: "db.internal:*".to_string(),
        addresses: vec![IpAddress::v4(10, 1, 1, 1), IpAddress::v4(10, 1, 1, 2)],
    }];
    let checker = NetworkChecker::new(&spec, resolutions);
    assert!(checker.check(&v4(10, 1, 1, 1, 5432), SocketAddrUse::TcpConnect));
    assert!(checker.check(&v4(10, 1, 1, 2, 1), SocketAddrUse::TcpConnect));
    assert!(!checker.check(&v4(10, 1, 1, 3, 5432), SocketAddrUse::TcpConnect));
}
