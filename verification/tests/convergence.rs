use virtnet::config::{Config, UserConfig};
use virtnet::instance::{Destination, InstanceConfig, NextHop, Route};
use virtnet::interface::InterfaceConfig;
use virtnet::network::{NetworkConfig, NetworkTypeConfig};
use virtnet::object::Object;
use virtnet::runtime::Runtime;
use virtnet::virt_manager::{
    all_links_discovered, backfill_tap_macs, discover_link, hv_version_parts, LinkAttribute,
};

#[test]
fn splits_hypervisor_version() {
    assert_eq!(hv_version_parts(8_002_003), (8, 2, 3));
    assert_eq!(hv_version_parts(0), (0, 0, 0));
    assert_eq!(hv_version_parts(999_999), (0, 999, 999));
}

#[test]
fn discovers_mtu_and_mac_from_link_attributes() {
    let attrs = vec![
        LinkAttribute::Other,
        LinkAttribute::Mtu(1500),
        LinkAttribute::Address(vec![0x00, 0x16, 0x3e, 0x01, 0x02, 0xff]),
    ];
    let d = discover_link(&attrs);
    assert!(d.mtu_present);
    assert_eq!(d.tap_mac_address.as_deref(), Some("00:16:3e:01:02:ff"));
}

#[test]
fn ignores_addresses_that_are_not_six_octets() {
    let attrs = vec![
        LinkAttribute::Address(vec![1, 2, 3, 4]),
        LinkAttribute::Address(vec![0x0a, 0x0b, 0x0c, 0x0d, 0x0e, 0x0f]),
    ];
    let d = discover_link(&attrs);
    assert!(!d.mtu_present);
    assert_eq!(d.tap_mac_address.as_deref(), Some("0a:0b:0c:0d:0e:0f"));
    let none = discover_link(&vec![LinkAttribute::Other]);
    assert!(!none.mtu_present);
    assert!(none.tap_mac_address.is_none());
}

fn two_host_runtime() -> Runtime {
    let mut config = Config::new(UserConfig {
        user_name: "ubuntu".to_string(),
        key_path: "/home/user/.ssh/id_rsa".to_string(),
        base_directory: "/var/lib/images".to_string(),
    });
    config.add(
        "net1",
        NetworkConfig::new(NetworkTypeConfig::Unmanaged { subnet: "10.0.0.0/24".to_string() }),
    );
    let mut host1 = InstanceConfig::new(1, "2GB", "ubuntu");
    host1.add("e0", InterfaceConfig::new(1500, "net1", "host1"));
    host1.routes = Some(vec![Route {
        destination: Destination { instance: "host2".to_string(), interface: "e0".to_string() },
        next_hops: vec![NextHop { instance: "host2".to_string(), interface: "e0".to_string() }],
    }]);
    let mut host2 = InstanceConfig::new(1, "2GB", "ubuntu");
    host2.add("e0", InterfaceConfig::new(1500, "net1", "host2"));
    config.add("host1", host1);
    config.add("host2", host2);
    Runtime::build(&config).unwrap()
}

#[test]
fn poll_exit_requires_all_unmanaged_links() {
    let mut runtime = two_host_runtime();
    let host1 = &mut runtime.instances[0].1;
    assert!(!all_links_discovered(host1));
    host1.interfaces[0].1.tap_mac_address = Some("aa:bb:cc:dd:ee:02".to_string());
    assert!(all_links_discovered(host1));
}

#[test]
fn backfill_copies_discovered_tap_macs() {
    let mut runtime = two_host_runtime();
    // The backend reported tap links for both instances' interfaces.
    runtime.instances[0].1.interfaces[0].1.tap_mac_address =
        Some("aa:bb:cc:dd:ee:01".to_string());
    runtime.instances[1].1.interfaces[0].1.tap_mac_address =
        Some("aa:bb:cc:dd:ee:02".to_string());

    backfill_tap_macs(&mut runtime.instances);

    let routes = runtime.instances[0].1.routes.as_ref().unwrap();
    assert_eq!(routes.len(), 1);
    // host1's next hop references host2's interface, whose tap MAC it now
    // carries.
    assert_eq!(routes[0].next_hops[0].tap_mac.as_deref(), Some("aa:bb:cc:dd:ee:02"));
}

#[test]
fn backfill_leaves_dangling_references_alone() {
    let mut runtime = two_host_runtime();
    let routes = runtime.instances[0].1.routes.as_mut().unwrap();
    routes[0].next_hops[0].instance = "ghost".to_string();
    backfill_tap_macs(&mut runtime.instances);
    let routes = runtime.instances[0].1.routes.as_ref().unwrap();
    assert!(routes[0].next_hops[0].tap_mac.is_none());
}
