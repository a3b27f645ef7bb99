use vstd::prelude::*;
use crate::network::NetworkConfig;
use crate::instance::InstanceConfig;
use crate::route_table::RouteTableConfig;
use crate::object::{upsert, get_entry, Object, keys_unique};

verus! {

/// Host-side settings carried through to provisioning: the guest user, the
/// SSH key to install and the directory instance artifacts live in.
pub struct UserConfig {
    pub user_name: String,
    pub key_path: String,
    pub base_directory: String,
}

/// The declarative configuration graph: networks, instances (each owning its
/// interfaces) and route tables, all keyed by name.
pub struct Config {
    pub user_config: UserConfig,
    pub networks: Vec<(String, NetworkConfig)>,
    pub instances: Vec<(String, InstanceConfig)>,
    pub route_tables: Vec<(String, RouteTableConfig)>,
}

impl Config {
    /// Every declared collection behaves as a map: exactly one declaration
    /// per name.
    pub open spec fn wf(self) -> bool {
        &&& keys_unique(self.networks@)
        &&& keys_unique(self.instances@)
        &&& keys_unique(self.route_tables@)
        &&& forall|i: int|
            0 <= i < self.instances@.len() ==> keys_unique(
                (#[trigger] self.instances@[i]).1.interfaces@,
            )
    }

    pub fn new(user_config: UserConfig) -> (r: Config)
        ensures
            r.user_config == user_config,
            r.networks@ == Seq::<(String, NetworkConfig)>::empty(),
            r.instances@ == Seq::<(String, InstanceConfig)>::empty(),
            r.route_tables@ == Seq::<(String, RouteTableConfig)>::empty(),
            r.wf(),
    {
        Config {
            user_config,
            networks: Vec::new(),
            instances: Vec::new(),
            route_tables: Vec::new(),
        }
    }
}

impl Object<NetworkConfig> for Config {
    open spec fn entries(&self) -> Seq<(String, NetworkConfig)> {
        self.networks@
    }

    fn get<'a>(&'a self, name: &str) -> (r: Option<&'a NetworkConfig>) {
        get_entry(&self.networks, name)
    }

    fn add(&mut self, name: &str, value: NetworkConfig) {
        upsert(&mut self.networks, name, value);
    }
}

impl Object<InstanceConfig> for Config {
    open spec fn entries(&self) -> Seq<(String, InstanceConfig)> {
        self.instances@
    }

    fn get<'a>(&'a self, name: &str) -> (r: Option<&'a InstanceConfig>) {
        get_entry(&self.instances, name)
    }

    fn add(&mut self, name: &str, value: InstanceConfig) {
        upsert(&mut self.instances, name, value);
    }
}

impl Object<RouteTableConfig> for Config {
    open spec fn entries(&self) -> Seq<(String, RouteTableConfig)> {
        self.route_tables@
    }

    fn get<'a>(&'a self, name: &str) -> (r: Option<&'a RouteTableConfig>) {
        get_entry(&self.route_tables, name)
    }

    fn add(&mut self, name: &str, value: RouteTableConfig) {
        upsert(&mut self.route_tables, name, value);
    }
}

} // verus!
