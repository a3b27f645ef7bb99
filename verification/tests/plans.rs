use virtnet::config::{Config, UserConfig};
use virtnet::instance::InstanceConfig;
use virtnet::interface::InterfaceConfig;
use virtnet::lxd_manager::{LxdCommands, LxdManager};
use virtnet::network::{NetworkConfig, NetworkTypeConfig};
use virtnet::object::Object;
use virtnet::runtime::Runtime;

fn ip(a: u32, b: u32, c: u32, d: u32) -> u32 {
    (a << 24) | (b << 16) | (c << 8) | d
}

fn scenario() -> Runtime {
    let mut config = Config::new(UserConfig {
        user_name: "ubuntu".to_string(),
        key_path: "/home/user/.ssh/id_rsa".to_string(),
        base_directory: "/var/lib/images".to_string(),
    });
    config.add(
        "mgmt",
        NetworkConfig::new(NetworkTypeConfig::Managed { name: "default".to_string() }),
    );
    config.add(
        "net1",
        NetworkConfig::new(NetworkTypeConfig::Unmanaged { subnet: "10.0.0.0/24".to_string() }),
    );
    let mut host1 = InstanceConfig::new(4, "8GB", "ubuntu");
    host1.add("m0", InterfaceConfig::new(1500, "mgmt", "host1"));
    host1.add("e0", InterfaceConfig::new(1500, "net1", "host1"));
    let mut host2 = InstanceConfig::new(2, "2GB", "debian");
    host2.add("e0", InterfaceConfig::new(9000, "net1", "host2"));
    config.add("host1", host1);
    config.add("host2", host2);
    Runtime::build(&config).unwrap()
}

#[test]
fn create_plan_orders_networks_before_instances() {
    let manager = LxdManager::new(scenario());
    let plan = manager.create_plan();

    // One create for the unmanaged network only, before anything else.
    match &plan[0] {
        LxdCommands::CreateNetwork { name, gateway } => {
            assert_eq!(name, "net1");
            assert_eq!(*gateway, ip(10, 0, 0, 1));
        },
        _ => panic!("plan must start with the network create"),
    }
    let creates = plan
        .iter()
        .filter(|c| matches!(c, LxdCommands::CreateNetwork { .. }))
        .count();
    assert_eq!(creates, 1, "managed networks are never created");

    // host1: launch, then one attach (the managed interface has no address);
    // host2: launch, then one attach.
    match &plan[1] {
        LxdCommands::LaunchInstance { name, image, vcpu, memory } => {
            assert_eq!(name, "host1");
            assert_eq!(image, "ubuntu");
            assert_eq!(*vcpu, 4);
            assert_eq!(memory, "8GB");
        },
        _ => panic!("expected the first launch"),
    }
    match &plan[2] {
        LxdCommands::AttachInterface { name, instance, idx, address, prefix_len, mtu, .. } => {
            assert_eq!(name, "e0");
            assert_eq!(instance, "host1");
            assert_eq!(*idx, 1);
            assert_eq!(*address, ip(10, 0, 0, 2));
            assert_eq!(*prefix_len, 24);
            assert_eq!(*mtu, 1500);
        },
        _ => panic!("expected host1's attach"),
    }
    match &plan[3] {
        LxdCommands::LaunchInstance { name, .. } => assert_eq!(name, "host2"),
        _ => panic!("expected the second launch"),
    }
    match &plan[4] {
        LxdCommands::AttachInterface { instance, idx, address, .. } => {
            assert_eq!(instance, "host2");
            assert_eq!(*idx, 1);
            assert_eq!(*address, ip(10, 0, 0, 3));
        },
        _ => panic!("expected host2's attach"),
    }
    assert_eq!(plan.len(), 5);
}

#[test]
fn attach_indexes_count_attached_interfaces() {
    let mut config = Config::new(UserConfig {
        user_name: "u".to_string(),
        key_path: "k".to_string(),
        base_directory: "b".to_string(),
    });
    config.add(
        "net1",
        NetworkConfig::new(NetworkTypeConfig::Unmanaged { subnet: "10.0.0.0/24".to_string() }),
    );
    let mut host = InstanceConfig::new(1, "1GB", "ubuntu");
    host.add("e0", InterfaceConfig::new(1500, "net1", "host"));
    host.add("e1", InterfaceConfig::new(1500, "net1", "host"));
    host.add("e2", InterfaceConfig::new(1500, "net1", "host"));
    config.add("host", host);
    let manager = LxdManager::new(Runtime::build(&config).unwrap());
    let plan = manager.create_plan();
    let idxs: Vec<usize> = plan
        .iter()
        .filter_map(|c| match c {
            LxdCommands::AttachInterface { idx, .. } => Some(*idx),
            _ => None,
        })
        .collect();
    assert_eq!(idxs, vec![1, 2, 3]);
}

#[test]
fn destroy_plan_tears_down_instances_then_networks() {
    let manager = LxdManager::new(scenario());
    let plan = manager.destroy_plan();
    assert_eq!(plan.len(), 3);
    match &plan[0] {
        LxdCommands::DestroyInstance { name } => assert_eq!(name, "host1"),
        _ => panic!("expected an instance destroy first"),
    }
    match &plan[1] {
        LxdCommands::DestroyInstance { name } => assert_eq!(name, "host2"),
        _ => panic!("expected the second instance destroy"),
    }
    match &plan[2] {
        LxdCommands::DestroyNetwork { name } => assert_eq!(name, "net1"),
        _ => panic!("only the unmanaged network is torn down, last"),
    }
}
