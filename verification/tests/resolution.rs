use virtnet::config::{Config, UserConfig};
use virtnet::errors::ResolutionError;
use virtnet::instance::{Destination, InstanceConfig, InstanceRuntime, NextHop, Route};
use virtnet::interface::InterfaceConfig;
use virtnet::network::{NetworkConfig, NetworkTypeConfig};
use virtnet::object::Object;
use virtnet::route_table::{InstanceInterface, RouteTableConfig};
use virtnet::runtime::Runtime;

fn ip(a: u32, b: u32, c: u32, d: u32) -> u32 {
    (a << 24) | (b << 16) | (c << 8) | d
}

fn user() -> UserConfig {
    UserConfig {
        user_name: "ubuntu".to_string(),
        key_path: "/home/user/.ssh/id_rsa".to_string(),
        base_directory: "/var/lib/images".to_string(),
    }
}

fn get<'a, T>(v: &'a [(String, T)], name: &str) -> &'a T {
    &v.iter().find(|p| p.0 == name).expect("entry missing").1
}

fn unmanaged(subnet: &str) -> NetworkConfig {
    NetworkConfig::new(NetworkTypeConfig::Unmanaged { subnet: subnet.to_string() })
}

fn managed(name: &str) -> NetworkConfig {
    NetworkConfig::new(NetworkTypeConfig::Managed { name: name.to_string() })
}

/// Two unmanaged /24 networks, two instances with one interface per network,
/// and a route on the first instance towards the second.
fn two_host_config() -> Config {
    let mut config = Config::new(user());
    config.add("net1", unmanaged("10.0.0.0/24"));
    config.add("net2", unmanaged("10.0.1.0/24"));

    let mut host1 = InstanceConfig::new(1, "2GB", "ubuntu");
    host1.add("eth0", InterfaceConfig::new(1500, "net1", "host1"));
    host1.add("eth1", InterfaceConfig::new(1500, "net2", "host1"));
    host1.routes = Some(vec![Route {
        destination: Destination { instance: "host2".to_string(), interface: "eth1".to_string() },
        next_hops: vec![NextHop { instance: "host2".to_string(), interface: "eth1".to_string() }],
    }]);

    let mut host2 = InstanceConfig::new(1, "2GB", "ubuntu");
    host2.add("eth0", InterfaceConfig::new(1500, "net1", "host2"));
    host2.add("eth1", InterfaceConfig::new(1500, "net2", "host2"));

    config.add("host1", host1);
    config.add("host2", host2);
    config
}

#[test]
fn scenario_two_networks_two_instances() {
    let config = two_host_config();
    let runtime = Runtime::build(&config).unwrap();

    let host1 = get(&runtime.instances, "host1");
    let host2 = get(&runtime.instances, "host2");

    // Deterministic allocation: the gateway .1 is reserved, interfaces get
    // .2 and .3 in declaration order.
    assert_eq!(get(&host1.interfaces, "eth0").address, Some((ip(10, 0, 0, 2), 24)));
    assert_eq!(get(&host1.interfaces, "eth1").address, Some((ip(10, 0, 1, 2), 24)));
    assert_eq!(get(&host2.interfaces, "eth0").address, Some((ip(10, 0, 0, 3), 24)));
    assert_eq!(get(&host2.interfaces, "eth1").address, Some((ip(10, 0, 1, 3), 24)));

    // The gateway address is never assigned to an interface.
    for (_, inst) in &runtime.instances {
        for (_, ifc) in &inst.interfaces {
            let (addr, _) = ifc.address.unwrap();
            assert_ne!(addr, ip(10, 0, 0, 1));
            assert_ne!(addr, ip(10, 0, 1, 1));
        }
    }

    // host1's resolved route table: subnet 10.0.1.0/24 via host2's interface
    // on that network.
    let routes = host1.routes.as_ref().unwrap();
    assert_eq!(routes.len(), 1);
    assert_eq!(routes[0].destination.base, ip(10, 0, 1, 0));
    assert_eq!(routes[0].destination.prefix_len, 24);
    assert_eq!(routes[0].next_hops.len(), 1);
    assert_eq!(routes[0].next_hops[0].ip_address, ip(10, 0, 1, 3));
    assert_eq!(routes[0].next_hops[0].mac_address, get(&host2.interfaces, "eth1").mac_address);
    assert!(host2.routes.is_none());
}

#[test]
fn managed_interface_resolved() {
    let mut config = Config::new(user());
    config.add("mgmt", managed("default"));
    let mut host = InstanceConfig::new(1, "1GB", "ubuntu");
    host.add("eth0", InterfaceConfig::new(1500, "mgmt", "host"));
    config.add("host", host);

    let runtime = Runtime::build(&config).unwrap();
    let ifc = get(&get(&runtime.instances, "host").interfaces, "eth0");
    assert_eq!(ifc.address, None);
    assert_eq!(ifc.managed.as_deref(), Some("default"));
}

#[test]
fn managed_and_unmanaged_are_exclusive() {
    let mut config = Config::new(user());
    config.add("mgmt", managed("default"));
    config.add("net1", unmanaged("192.168.7.0/24"));
    let mut host = InstanceConfig::new(2, "4GB", "debian");
    host.add("m0", InterfaceConfig::new(1500, "mgmt", "host"));
    host.add("u0", InterfaceConfig::new(9000, "net1", "host"));
    config.add("host", host);

    let runtime = Runtime::build(&config).unwrap();
    let host = get(&runtime.instances, "host");
    let m0 = get(&host.interfaces, "m0");
    let u0 = get(&host.interfaces, "u0");
    assert!(m0.address.is_none() && m0.managed.is_some());
    assert!(u0.address.is_some() && u0.managed.is_none());
    assert_eq!(u0.address, Some((ip(192, 168, 7, 2), 24)));
    assert_eq!(u0.mtu, 9000);
}

#[test]
fn resolution_is_deterministic() {
    let config = two_host_config();
    let r1 = Runtime::build(&config).unwrap();
    let r2 = Runtime::build(&config).unwrap();
    assert_eq!(r1.instances.len(), r2.instances.len());
    for ((n1, i1), (n2, i2)) in r1.instances.iter().zip(r2.instances.iter()) {
        assert_eq!(n1, n2);
        assert_eq!(i1.interfaces.len(), i2.interfaces.len());
        for ((f1, a), (f2, b)) in i1.interfaces.iter().zip(i2.interfaces.iter()) {
            assert_eq!(f1, f2);
            assert_eq!(a.address, b.address);
            assert_eq!(a.managed, b.managed);
            assert_eq!(a.mtu, b.mtu);
        }
    }
}

#[test]
fn dangling_next_hop_is_omitted() {
    let mut config = two_host_config();
    // A route whose next-hop list names an undeclared instance before a
    // resolvable hop: the dangling hop is dropped, the rest is kept, and no
    // error is raised.
    config.instances[0].1.routes = Some(vec![Route {
        destination: Destination { instance: "host2".to_string(), interface: "eth1".to_string() },
        next_hops: vec![
            NextHop { instance: "ghost".to_string(), interface: "eth0".to_string() },
            NextHop { instance: "host2".to_string(), interface: "eth1".to_string() },
        ],
    }]);
    let runtime = Runtime::build(&config).unwrap();
    let routes = get(&runtime.instances, "host1").routes.as_ref().unwrap();
    assert_eq!(routes.len(), 1);
    assert_eq!(routes[0].next_hops.len(), 1);
    assert_eq!(routes[0].next_hops[0].ip_address, ip(10, 0, 1, 3));
}

#[test]
fn dangling_next_hop_leaves_other_routes_alone() {
    let mut config = two_host_config();
    config.instances[0].1.routes = Some(vec![
        Route {
            destination: Destination {
                instance: "host2".to_string(),
                interface: "eth0".to_string(),
            },
            next_hops: vec![NextHop {
                instance: "ghost".to_string(),
                interface: "nowhere".to_string(),
            }],
        },
        Route {
            destination: Destination {
                instance: "host2".to_string(),
                interface: "eth1".to_string(),
            },
            next_hops: vec![NextHop {
                instance: "host2".to_string(),
                interface: "eth1".to_string(),
            }],
        },
    ]);
    let runtime = Runtime::build(&config).unwrap();
    let routes = get(&runtime.instances, "host1").routes.as_ref().unwrap();
    // Both destinations resolve; the first route keeps an empty hop list,
    // the second is untouched.
    assert_eq!(routes.len(), 2);
    assert_eq!(routes[0].destination.base, ip(10, 0, 0, 0));
    assert!(routes[0].next_hops.is_empty());
    assert_eq!(routes[1].next_hops.len(), 1);
}

#[test]
fn managed_destination_yields_no_route() {
    let mut config = two_host_config();
    config.add("mgmt", managed("default"));
    let mut host3 = InstanceConfig::new(1, "1GB", "ubuntu");
    host3.add("m0", InterfaceConfig::new(1500, "mgmt", "host3"));
    config.add("host3", host3);
    // host1 routes to host3's interface on the managed network, and to
    // host2's interface on net2: only the latter may appear.
    config.instances[0].1.routes = Some(vec![
        Route {
            destination: Destination {
                instance: "host3".to_string(),
                interface: "m0".to_string(),
            },
            next_hops: vec![NextHop {
                instance: "host2".to_string(),
                interface: "eth1".to_string(),
            }],
        },
        Route {
            destination: Destination {
                instance: "host2".to_string(),
                interface: "eth1".to_string(),
            },
            next_hops: vec![NextHop {
                instance: "host2".to_string(),
                interface: "eth1".to_string(),
            }],
        },
    ]);
    let runtime = Runtime::build(&config).unwrap();
    let routes = get(&runtime.instances, "host1").routes.as_ref().unwrap();
    assert_eq!(routes.len(), 1);
    assert_eq!(routes[0].destination.base, ip(10, 0, 1, 0));
}

#[test]
fn route_table_resolves_to_instance() {
    let mut config = two_host_config();
    config.route_tables.push((
        "rt1".to_string(),
        RouteTableConfig::new(
            "host1",
            vec![(
                "net2".to_string(),
                vec![InstanceInterface {
                    instance: "host2".to_string(),
                    interface: "eth1".to_string(),
                }],
            )],
        ),
    ));
    let runtime = Runtime::build(&config).unwrap();
    let host1 = get(&runtime.instances, "host1");
    assert_eq!(host1.route_tables.len(), 1);
    assert_eq!(host1.route_tables[0].0, "rt1");
    let table = &host1.route_tables[0].1;
    assert_eq!(table.routes.len(), 1);
    assert_eq!(table.routes[0].0.base, ip(10, 0, 1, 0));
    assert_eq!(table.routes[0].1, vec![ip(10, 0, 1, 3)]);
    assert!(get(&runtime.instances, "host2").route_tables.is_empty());
}

#[test]
fn route_table_skips_managed_destination() {
    let mut config = two_host_config();
    config.add("mgmt", managed("default"));
    config.route_tables.push((
        "rt1".to_string(),
        RouteTableConfig::new(
            "host1",
            vec![(
                "mgmt".to_string(),
                vec![InstanceInterface {
                    instance: "host2".to_string(),
                    interface: "eth1".to_string(),
                }],
            )],
        ),
    ));
    let runtime = Runtime::build(&config).unwrap();
    // The table resolved to nothing, so it is not attached at all.
    assert!(get(&runtime.instances, "host1").route_tables.is_empty());
}

#[test]
fn undeclared_network_aborts_resolution() {
    let mut config = Config::new(user());
    let mut host = InstanceConfig::new(1, "1GB", "ubuntu");
    host.add("eth0", InterfaceConfig::new(1500, "nowhere", "host"));
    config.add("host", host);
    match Runtime::build(&config) {
        Err(ResolutionError::UndeclaredNetwork { network }) => assert_eq!(network, "nowhere"),
        other => panic!("expected an undeclared-network error, got {:?}", other.is_ok()),
    }
}

#[test]
fn invalid_subnet_aborts_resolution() {
    let mut config = Config::new(user());
    config.add("bad", unmanaged("not-a-subnet"));
    match Runtime::build(&config) {
        Err(ResolutionError::InvalidSubnet { subnet }) => assert_eq!(subnet, "not-a-subnet"),
        other => panic!("expected an invalid-subnet error, got {:?}", other.is_ok()),
    }
}

#[test]
fn exhausted_network_aborts_resolution() {
    let mut config = Config::new(user());
    config.add("tiny", unmanaged("10.9.9.0/30"));
    let mut host = InstanceConfig::new(1, "1GB", "ubuntu");
    // A /30 holds the reserved gateway .1 plus two assignable addresses.
    host.add("e0", InterfaceConfig::new(1500, "tiny", "host"));
    host.add("e1", InterfaceConfig::new(1500, "tiny", "host"));
    host.add("e2", InterfaceConfig::new(1500, "tiny", "host"));
    config.add("host", host);
    match Runtime::build(&config) {
        Err(ResolutionError::NetworkExhausted { network }) => assert_eq!(network, "tiny"),
        other => panic!("expected a network-exhausted error, got {:?}", other.is_ok()),
    }
}

#[test]
fn error_messages_name_the_entity() {
    let e = ResolutionError::UndeclaredNetwork { network: "backbone".to_string() };
    assert_eq!(e.message(), "undeclared network: backbone");
    let e = ResolutionError::NetworkExhausted { network: "tiny".to_string() };
    assert_eq!(e.message(), "network exhausted: tiny");
    let e = ResolutionError::InvalidSubnet { subnet: "10.0.0.0/99".to_string() };
    assert_eq!(e.message(), "invalid subnet: 10.0.0.0/99");
}

#[test]
fn object_access_by_name() {
    let mut config = Config::new(user());
    config.add("net1", unmanaged("10.0.0.0/24"));
    config.add("net1", unmanaged("10.5.0.0/24"));
    let n: Option<&NetworkConfig> = config.get("net1");
    match &n.unwrap().network_type {
        NetworkTypeConfig::Unmanaged { subnet } => assert_eq!(subnet, "10.5.0.0/24"),
        _ => panic!("expected the overwritten unmanaged network"),
    }
    assert_eq!(config.networks.len(), 1);
    let missing: Option<&NetworkConfig> = config.get("net2");
    assert!(missing.is_none());
}

#[test]
fn user_config_carried_through() {
    let config = two_host_config();
    let runtime = Runtime::build(&config).unwrap();
    let u = runtime.user_config.unwrap();
    assert_eq!(u.user_name, "ubuntu");
    assert_eq!(u.base_directory, "/var/lib/images");
}

#[test]
fn empty_configuration_resolves_to_empty_model() {
    let config = Config::new(user());
    let runtime = Runtime::build(&config).unwrap();
    assert!(runtime.networks.is_empty());
    assert!(runtime.instances.is_empty());
}
