use virtnet::network::{NetworkConfig, NetworkRuntime, NetworkTypeConfig, NetworkTypeRuntime};

fn ip(a: u32, b: u32, c: u32, d: u32) -> u32 {
    (a << 24) | (b << 16) | (c << 8) | d
}

fn unmanaged_runtime(subnet: &str) -> NetworkRuntime {
    let cfg = NetworkConfig::new(NetworkTypeConfig::Unmanaged { subnet: subnet.to_string() });
    NetworkRuntime::new(&cfg).unwrap()
}

#[test]
fn parses_subnet_and_reserves_gateway() {
    let net = unmanaged_runtime("10.1.2.0/24");
    match &net.network_type {
        NetworkTypeRuntime::Unmanaged { subnet, gateway, .. } => {
            assert_eq!(subnet.base, ip(10, 1, 2, 0));
            assert_eq!(subnet.prefix_len, 24);
            assert_eq!(*gateway, ip(10, 1, 2, 1));
        },
        _ => panic!("expected an unmanaged network"),
    }
}

#[test]
fn parses_host_address_to_network_base() {
    // The CIDR parser masks host bits: 172.16.123.123/16 lies in 172.16.0.0.
    let net = unmanaged_runtime("172.16.123.123/16");
    match &net.network_type {
        NetworkTypeRuntime::Unmanaged { subnet, gateway, .. } => {
            assert_eq!(subnet.base, ip(172, 16, 0, 0));
            assert_eq!(subnet.prefix_len, 16);
            assert_eq!(*gateway, ip(172, 16, 0, 1));
        },
        _ => panic!("expected an unmanaged network"),
    }
}

#[test]
fn never_returns_the_same_address_twice() {
    let mut net = unmanaged_runtime("10.0.0.0/24");
    let mut seen = Vec::new();
    for _ in 0..20 {
        let (addr, prefix_len) = net.assign_address().unwrap();
        assert_eq!(prefix_len, 24);
        assert!(!seen.contains(&addr), "address {addr} handed out twice");
        assert_ne!(addr, ip(10, 0, 0, 1), "gateway must never be assigned");
        seen.push(addr);
    }
}

#[test]
fn scans_deterministically_from_the_base() {
    let mut net = unmanaged_runtime("192.168.0.0/24");
    assert_eq!(net.assign_address(), Some((ip(192, 168, 0, 2), 24)));
    assert_eq!(net.assign_address(), Some((ip(192, 168, 0, 3), 24)));
    assert_eq!(net.assign_address(), Some((ip(192, 168, 0, 4), 24)));
}

#[test]
fn fails_when_the_subnet_is_exhausted() {
    let mut net = unmanaged_runtime("10.0.0.0/30");
    // .0 is the base, .1 the reserved gateway; .2 and .3 remain.
    assert_eq!(net.assign_address(), Some((ip(10, 0, 0, 2), 30)));
    assert_eq!(net.assign_address(), Some((ip(10, 0, 0, 3), 30)));
    assert_eq!(net.assign_address(), None);
    assert_eq!(net.assign_address(), None);
}

#[test]
fn single_address_subnet_is_immediately_exhausted() {
    let mut net = unmanaged_runtime("1.2.3.4/32");
    assert_eq!(net.assign_address(), None);
}

#[test]
fn managed_network_never_allocates() {
    let cfg = NetworkConfig::new(NetworkTypeConfig::Managed { name: "default".to_string() });
    let mut net = NetworkRuntime::new(&cfg).unwrap();
    assert_eq!(net.assign_address(), None);
    match &net.network_type {
        NetworkTypeRuntime::Managed { name } => assert_eq!(name, "default"),
        _ => panic!("expected a managed network"),
    }
}

#[test]
fn rejects_subnet_without_representable_gateway() {
    let cfg = NetworkConfig::new(NetworkTypeConfig::Unmanaged {
        subnet: "255.255.255.255/32".to_string(),
    });
    assert!(NetworkRuntime::new(&cfg).is_err());
}

#[test]
fn rejects_invalid_prefix_length() {
    let cfg = NetworkConfig::new(NetworkTypeConfig::Unmanaged {
        subnet: "10.0.0.0/33".to_string(),
    });
    assert!(NetworkRuntime::new(&cfg).is_err());
}
