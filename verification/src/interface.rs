use vstd::prelude::*;
use crate::mac::{valid_mac, generate_mac};
use crate::config::Config;
use crate::errors::{ResolutionError, ResolutionErrorView};
use crate::instance::{InstanceConfig, InstanceRuntime};
use crate::network::{
    first_free, nets_model, NetworkModel, NetworkRuntime, NetworkTypeRuntime,
    lemma_key_at_model,
};
use crate::object::{find_index, key_at, lemma_find_key};
use crate::route_table::RouteTableRuntime;

verus! {

/// A declared interface: its MTU, the name of the network it attaches to and
/// the name of the instance that owns it.
pub struct InterfaceConfig {
    pub mtu: u32,
    pub network: String,
    pub instance: String,
}

impl InterfaceConfig {
    pub fn new(mtu: u32, network: &str, instance: &str) -> (r: InterfaceConfig)
        ensures
            r.mtu == mtu,
            r.network@ == network@,
            r.instance@ == instance@,
    {
        InterfaceConfig { mtu, network: network.to_owned(), instance: instance.to_owned() }
    }
}

/// A resolved interface.  On an unmanaged network it carries an allocated
/// address with its prefix length and no managed-network name; on a managed
/// network it carries the backend network name and no address — the two are
/// mutually exclusive.  Every resolved interface gets a generated MAC address;
/// the tap-device MAC is discovered by the backend only after launch.
pub struct InterfaceRuntime {
    pub mtu: u32,
    pub address: Option<(u32, u8)>,
    pub managed: Option<String>,
    pub mac_address: String,
    pub tap_mac_address: Option<String>,
}

impl InterfaceRuntime {
    /// The managed/unmanaged split enforced on every resolved interface:
    /// exactly one of the allocated address and the managed-network name is
    /// present, and the MAC is a well-formed generated MAC.
    pub open spec fn wf(self) -> bool {
        &&& (self.address is Some) != (self.managed is Some)
        &&& valid_mac(self.mac_address@)
    }
}

/// The configuration-determined part of one resolved interface.  The MAC is
/// drawn from a random source and is therefore not part of the model.
pub ghost struct InterfaceModel {
    pub mtu: u32,
    pub address: Option<(u32, u8)>,
    pub managed: Option<Seq<char>>,
}

/// The model a resolved interface exhibits.
pub open spec fn interface_model(i: InterfaceRuntime) -> InterfaceModel {
    InterfaceModel {
        mtu: i.mtu,
        address: i.address,
        managed: match i.managed {
            Some(s) => Some(s@),
            None => None,
        },
    }
}

/// Resolving one declared interface against the current network states: an
/// undeclared network is fatal; a managed network passes its backend name
/// through; an unmanaged network allocates its first free host address (fatal
/// when exhausted) and is charged with that address.
pub open spec fn resolve_interface_step(
    nets: Seq<(String, NetworkModel)>,
    icfg: InterfaceConfig,
) -> Result<(InterfaceModel, Seq<(String, NetworkModel)>), ResolutionErrorView> {
    match key_at(nets, icfg.network@) {
        None => Err(ResolutionErrorView::UndeclaredNetwork { network: icfg.network@ }),
        Some(i) => match nets[i].1 {
            NetworkModel::Managed { name } => Ok(
                (InterfaceModel { mtu: icfg.mtu, address: None, managed: Some(name) }, nets),
            ),
            NetworkModel::Unmanaged { subnet, assigned, gateway } => {
                match first_free(assigned, subnet.base + 1, subnet.broadcast_address()) {
                    None => Err(ResolutionErrorView::NetworkExhausted { network: icfg.network@ }),
                    Some(a) => Ok(
                        (
                            InterfaceModel {
                                mtu: icfg.mtu,
                                address: Some((a, subnet.prefix_len)),
                                managed: None,
                            },
                            nets.update(
                                i,
                                (
                                    nets[i].0,
                                    NetworkModel::Unmanaged {
                                        subnet,
                                        assigned: assigned.insert(a),
                                        gateway,
                                    },
                                ),
                            ),
                        ),
                    ),
                }
            },
        },
    }
}

/// A resolved interface never carries both an address and a managed-network
/// name: an interface on a managed network gets the backend network's name
/// and no address, one on an unmanaged network gets an address and no name.
pub proof fn lemma_resolved_interface_exclusive(
    nets: Seq<(String, NetworkModel)>,
    icfg: InterfaceConfig,
)
    ensures
        match resolve_interface_step(nets, icfg) {
            Ok(p) => {
                &&& key_at(nets, icfg.network@) matches Some(i)
                &&& key_at(nets, icfg.network@) matches Some(i) ==> match nets[i].1 {
                    NetworkModel::Managed { name } => p.0.address is None && p.0.managed == Some(
                        name,
                    ),
                    NetworkModel::Unmanaged { .. } => p.0.address is Some && p.0.managed is None,
                }
            },
            Err(_) => true,
        },
{
}

/// Resolving the interface list of one instance, in declaration order,
/// threading the network allocation state through.
pub open spec fn resolve_interfaces_spec(
    nets: Seq<(String, NetworkModel)>,
    ifaces: Seq<(String, InterfaceConfig)>,
) -> Result<(Seq<InterfaceModel>, Seq<(String, NetworkModel)>), ResolutionErrorView>
    decreases ifaces.len(),
{
    if ifaces.len() == 0 {
        Ok((Seq::empty(), nets))
    } else {
        match resolve_interfaces_spec(nets, ifaces.drop_last()) {
            Err(e) => Err(e),
            Ok(p) => match resolve_interface_step(p.1, ifaces.last().1) {
                Err(e) => Err(e),
                Ok(q) => Ok((p.0.push(q.0), q.1)),
            },
        }
    }
}

/// Resolving all instances' interfaces, in declaration order.
pub open spec fn resolve_all_spec(
    nets: Seq<(String, NetworkModel)>,
    insts: Seq<(String, InstanceConfig)>,
) -> Result<(Seq<Seq<InterfaceModel>>, Seq<(String, NetworkModel)>), ResolutionErrorView>
    decreases insts.len(),
{
    if insts.len() == 0 {
        Ok((Seq::empty(), nets))
    } else {
        match resolve_all_spec(nets, insts.drop_last()) {
            Err(e) => Err(e),
            Ok(p) => match resolve_interfaces_spec(p.1, insts.last().1.interfaces@) {
                Err(e) => Err(e),
                Ok(q) => Ok((p.0.push(q.0), q.1)),
            },
        }
    }
}

/// Two network-state lists with the same names and the same managed or
/// unmanaged shape (name, subnet and gateway).  Interface resolution only
/// ever grows the assigned sets, so the shape is invariant across the pass.
pub open spec fn same_shape(
    a: Seq<(String, NetworkModel)>,
    b: Seq<(String, NetworkModel)>,
) -> bool {
    &&& a.len() == b.len()
    &&& forall|i: int|
        0 <= i < a.len() ==> {
            &&& (#[trigger] a[i]).0 == b[i].0
            &&& match (a[i].1, b[i].1) {
                (NetworkModel::Managed { name: n1 }, NetworkModel::Managed { name: n2 }) => n1
                    == n2,
                (
                    NetworkModel::Unmanaged { subnet: s1, gateway: g1, .. },
                    NetworkModel::Unmanaged { subnet: s2, gateway: g2, .. },
                ) => s1 == s2 && g1 == g2,
                _ => false,
            }
        }
}

/// What resolution guarantees an interface against the network it names:
/// attached to a managed network it carries the backend network's name and no
/// address, attached to an unmanaged network it carries an address and no
/// name.
pub open spec fn split_matches_network(
    nets: Seq<(String, NetworkModel)>,
    icfg: InterfaceConfig,
    m: InterfaceModel,
) -> bool {
    match key_at(nets, icfg.network@) {
        None => false,
        Some(i) => match nets[i].1 {
            NetworkModel::Managed { name } => m.address is None && m.managed == Some(name),
            NetworkModel::Unmanaged { .. } => m.address is Some && m.managed is None,
        },
    }
}

proof fn lemma_step_same_shape(nets: Seq<(String, NetworkModel)>, icfg: InterfaceConfig)
    ensures
        resolve_interface_step(nets, icfg) matches Ok(q) ==> same_shape(nets, q.1),
{
    if resolve_interface_step(nets, icfg) is Ok {
        let nets2 = resolve_interface_step(nets, icfg)->Ok_0.1;
        lemma_find_key(nets, icfg.network@, 0);
        assert forall|m: int| 0 <= m < nets.len() implies {
            &&& (#[trigger] nets[m]).0 == nets2[m].0
            &&& match (nets[m].1, nets2[m].1) {
                (NetworkModel::Managed { name: n1 }, NetworkModel::Managed { name: n2 }) => n1
                    == n2,
                (
                    NetworkModel::Unmanaged { subnet: s1, gateway: g1, .. },
                    NetworkModel::Unmanaged { subnet: s2, gateway: g2, .. },
                ) => s1 == s2 && g1 == g2,
                _ => false,
            }
        } by {
            match key_at(nets, icfg.network@) {
                None => {
                },
                Some(i) => {
                    if m != i {
                        assert(nets2[m] == nets[m]);
                    }
                },
            }
        }
    }
}

proof fn lemma_same_shape_trans(
    a: Seq<(String, NetworkModel)>,
    b: Seq<(String, NetworkModel)>,
    c: Seq<(String, NetworkModel)>,
)
    requires
        same_shape(a, b),
        same_shape(b, c),
    ensures
        same_shape(a, c),
{
    assert forall|i: int| 0 <= i < a.len() implies {
        &&& (#[trigger] a[i]).0 == c[i].0
        &&& match (a[i].1, c[i].1) {
            (NetworkModel::Managed { name: n1 }, NetworkModel::Managed { name: n2 }) => n1 == n2,
            (
                NetworkModel::Unmanaged { subnet: s1, gateway: g1, .. },
                NetworkModel::Unmanaged { subnet: s2, gateway: g2, .. },
            ) => s1 == s2 && g1 == g2,
            _ => false,
        }
    } by {
        assert(a[i].0 == b[i].0);
        assert(b[i].0 == c[i].0);
    }
}

/// The managed/unmanaged verdict of an interface may be read against any
/// network list of the same shape.
proof fn lemma_split_transfer(
    a: Seq<(String, NetworkModel)>,
    b: Seq<(String, NetworkModel)>,
    icfg: InterfaceConfig,
    m: InterfaceModel,
)
    requires
        same_shape(a, b),
        split_matches_network(a, icfg, m),
    ensures
        split_matches_network(b, icfg, m),
{
    crate::object::lemma_find_key_same_keys(a, b, icfg.network@, 0);
    lemma_find_key(a, icfg.network@, 0);
    match key_at(a, icfg.network@) {
        None => {
        },
        Some(i) => {
            assert(a[i].0 == b[i].0);
        },
    }
}

/// Every interface model an interface-list fold computes splits according to
/// the network it names, and the fold preserves the networks' shape.
proof fn lemma_ifaces_split(
    nets: Seq<(String, NetworkModel)>,
    ifaces: Seq<(String, InterfaceConfig)>,
)
    requires
        resolve_interfaces_spec(nets, ifaces) is Ok,
    ensures
        same_shape(nets, resolve_interfaces_spec(nets, ifaces)->Ok_0.1),
        resolve_interfaces_spec(nets, ifaces)->Ok_0.0.len() == ifaces.len(),
        forall|j: int|
            0 <= j < ifaces.len() ==> split_matches_network(
                nets,
                ifaces[j].1,
                #[trigger] resolve_interfaces_spec(nets, ifaces)->Ok_0.0[j],
            ),
    decreases ifaces.len(),
{
    if ifaces.len() == 0 {
    } else {
        let p = resolve_interfaces_spec(nets, ifaces.drop_last())->Ok_0;
        let q = resolve_interface_step(p.1, ifaces.last().1)->Ok_0;
        lemma_ifaces_split(nets, ifaces.drop_last());
        lemma_step_same_shape(p.1, ifaces.last().1);
        lemma_same_shape_trans(nets, p.1, q.1);
        lemma_resolved_interface_exclusive(p.1, ifaces.last().1);
        lemma_find_key(p.1, ifaces.last().1.network@, 0);
        assert(split_matches_network(p.1, ifaces.last().1, q.0));
        crate::object::lemma_find_key_same_keys(p.1, nets, ifaces.last().1.network@, 0);
        lemma_split_transfer(p.1, nets, ifaces.last().1, q.0);
        let r = resolve_interfaces_spec(nets, ifaces)->Ok_0;
        assert forall|j: int| 0 <= j < ifaces.len() implies split_matches_network(
            nets,
            ifaces[j].1,
            #[trigger] r.0[j],
        ) by {
            if j < ifaces.len() - 1 {
                assert(ifaces.drop_last()[j] == ifaces[j]);
                assert(r.0[j] == p.0[j]);
            } else {
                assert(r.0[j] == q.0);
            }
        }
    }
}

/// `lemma_ifaces_split` lifted over all instances.
proof fn lemma_insts_split(
    nets: Seq<(String, NetworkModel)>,
    insts: Seq<(String, InstanceConfig)>,
)
    requires
        resolve_all_spec(nets, insts) is Ok,
    ensures
        same_shape(nets, resolve_all_spec(nets, insts)->Ok_0.1),
        resolve_all_spec(nets, insts)->Ok_0.0.len() == insts.len(),
        forall|k: int, j: int|
            0 <= k < insts.len() && 0 <= j < insts[k].1.interfaces@.len()
                ==> split_matches_network(
                nets,
                insts[k].1.interfaces@[j].1,
                #[trigger] resolve_all_spec(nets, insts)->Ok_0.0[k][j],
            ),
    decreases insts.len(),
{
    if insts.len() == 0 {
    } else {
        let p = resolve_all_spec(nets, insts.drop_last())->Ok_0;
        let q = resolve_interfaces_spec(p.1, insts.last().1.interfaces@)->Ok_0;
        lemma_insts_split(nets, insts.drop_last());
        lemma_ifaces_split(p.1, insts.last().1.interfaces@);
        lemma_same_shape_trans(nets, p.1, q.1);
        let r = resolve_all_spec(nets, insts)->Ok_0;
        assert forall|k: int, j: int|
            0 <= k < insts.len() && 0 <= j < insts[k].1.interfaces@.len()
                implies split_matches_network(
            nets,
            insts[k].1.interfaces@[j].1,
            #[trigger] r.0[k][j],
        ) by {
            if k < insts.len() - 1 {
                assert(insts.drop_last()[k] == insts[k]);
                assert(r.0[k] == p.0[k]);
            } else {
                assert(r.0[k] == q.0);
                assert(split_matches_network(p.1, insts[k].1.interfaces@[j].1, q.0[j]));
                lemma_split_transfer(p.1, nets, insts[k].1.interfaces@[j].1, q.0[j]);
            }
        }
    }
}

/// The managed/unmanaged split over a whole successful interface fold: every
/// computed interface model matches the network its declaration names.
pub proof fn lemma_resolve_all_split(
    nets: Seq<(String, NetworkModel)>,
    insts: Seq<(String, InstanceConfig)>,
)
    requires
        resolve_all_spec(nets, insts) is Ok,
    ensures
        resolve_all_spec(nets, insts)->Ok_0.0.len() == insts.len(),
        forall|k: int, j: int|
            0 <= k < insts.len() && 0 <= j < insts[k].1.interfaces@.len()
                ==> split_matches_network(
                resolve_all_spec(nets, insts)->Ok_0.1,
                insts[k].1.interfaces@[j].1,
                #[trigger] resolve_all_spec(nets, insts)->Ok_0.0[k][j],
            ),
{
    lemma_insts_split(nets, insts);
    let r = resolve_all_spec(nets, insts)->Ok_0;
    assert forall|k: int, j: int|
        0 <= k < insts.len() && 0 <= j < insts[k].1.interfaces@.len()
            implies split_matches_network(
        r.1,
        insts[k].1.interfaces@[j].1,
        #[trigger] r.0[k][j],
    ) by {
        lemma_split_transfer(nets, r.1, insts[k].1.interfaces@[j].1, r.0[k][j]);
    }
}

/// Once a prefix of the interface list fails to resolve, the whole list fails
/// with the same error.
proof fn lemma_ifaces_err_stable(
    nets: Seq<(String, NetworkModel)>,
    ifaces: Seq<(String, InterfaceConfig)>,
    j: int,
)
    requires
        0 <= j <= ifaces.len(),
        resolve_interfaces_spec(nets, ifaces.take(j)) is Err,
    ensures
        resolve_interfaces_spec(nets, ifaces) == resolve_interfaces_spec(nets, ifaces.take(j)),
    decreases ifaces.len() - j,
{
    if j == ifaces.len() {
        assert(ifaces.take(j) =~= ifaces);
    } else {
        assert(ifaces.take(j + 1).drop_last() =~= ifaces.take(j));
        lemma_ifaces_err_stable(nets, ifaces, j + 1);
    }
}

/// Once a prefix of the instance list fails to resolve, the whole list fails
/// with the same error.
proof fn lemma_insts_err_stable(
    nets: Seq<(String, NetworkModel)>,
    insts: Seq<(String, InstanceConfig)>,
    k: int,
)
    requires
        0 <= k <= insts.len(),
        resolve_all_spec(nets, insts.take(k)) is Err,
    ensures
        resolve_all_spec(nets, insts) == resolve_all_spec(nets, insts.take(k)),
    decreases insts.len() - k,
{
    if k == insts.len() {
        assert(insts.take(k) =~= insts);
    } else {
        assert(insts.take(k + 1).drop_last() =~= insts.take(k));
        lemma_insts_err_stable(nets, insts, k + 1);
    }
}

/// The declared scalars carried over unchanged into a resolved instance.
pub open spec fn instance_scalars_match(cfg: InstanceConfig, rt: InstanceRuntime) -> bool {
    &&& rt.vcpu == cfg.vcpu
    &&& rt.memory@ == cfg.memory@
    &&& rt.image@ == cfg.image@
}

/// A resolved interface list realises the models computed for the declared
/// list: same names in the same order, each interface exhibiting its model,
/// well formed, with no tap MAC discovered yet.
pub open spec fn interfaces_match(
    cfg_ifaces: Seq<(String, InterfaceConfig)>,
    rt_ifaces: Seq<(String, InterfaceRuntime)>,
    models: Seq<InterfaceModel>,
) -> bool {
    &&& rt_ifaces.len() == cfg_ifaces.len()
    &&& models.len() == cfg_ifaces.len()
    &&& forall|j: int|
        0 <= j < cfg_ifaces.len() ==> {
            &&& (#[trigger] rt_ifaces[j]).0 == cfg_ifaces[j].0
            &&& interface_model(rt_ifaces[j].1) == models[j]
            &&& rt_ifaces[j].1.wf()
            &&& rt_ifaces[j].1.tap_mac_address is None
        }
}

/// Everything the interface-resolution pass promises: on success the network
/// states equal the spec fold's and every instance realises its computed
/// models; on failure the error is exactly the fold's.
pub open spec fn configure_post(
    cfg: Config,
    nets0: Seq<(String, NetworkRuntime)>,
    nets1: Seq<(String, NetworkRuntime)>,
    r: Result<Vec<(String, InstanceRuntime)>, ResolutionError>,
) -> bool {
    match resolve_all_spec(nets_model(nets0), cfg.instances@) {
        Err(e) => r matches Err(err) && err@ == e,
        Ok(p) => {
            &&& r matches Ok(insts)
            &&& r matches Ok(insts) ==> {
                &&& nets_model(nets1) == p.1
                &&& insts@.len() == cfg.instances@.len()
                &&& forall|k: int|
                    0 <= k < insts@.len() ==> {
                        &&& (#[trigger] insts@[k]).0 == cfg.instances@[k].0
                        &&& instance_scalars_match(cfg.instances@[k].1, insts@[k].1)
                        &&& interfaces_match(
                            cfg.instances@[k].1.interfaces@,
                            insts@[k].1.interfaces@,
                            p.0[k],
                        )
                        &&& insts@[k].1.routes is None
                        &&& insts@[k].1.route_tables@ == Seq::<(String, RouteTableRuntime)>::empty()
                    }
            }
        },
    }
}

impl InterfaceRuntime {
    /// Interface resolution, the first pass: build every instance's resolved
    /// interfaces from the declared graph, allocating addresses on unmanaged
    /// networks and generating a MAC for every interface.  A reference to an
    /// undeclared network, or an exhausted network, aborts the pass.
    #[verifier::loop_isolation(false)]
    pub fn configure(config: &Config, networks: &mut Vec<(String, NetworkRuntime)>) -> (r: Result<
        Vec<(String, InstanceRuntime)>,
        ResolutionError,
    >)
        requires
            forall|k: int|
                0 <= k < old(networks)@.len() ==> (#[trigger] old(networks)@[k]).1.wf(),
        ensures
            configure_post(*config, old(networks)@, final(networks)@, r),
            forall|k: int| 0 <= k < final(networks)@.len() ==> (#[trigger] final(networks)@[k]).1.wf(),
    {
        let ghost nets0 = networks@;
        let mut out: Vec<(String, InstanceRuntime)> = Vec::new();
        let ghost mut models: Seq<Seq<InterfaceModel>> = Seq::empty();
        let mut k: usize = 0;
        while k < config.instances.len()
            invariant
                k <= config.instances@.len(),
                forall|m: int| 0 <= m < networks@.len() ==> (#[trigger] networks@[m]).1.wf(),
                resolve_all_spec(nets_model(nets0), config.instances@.take(k as int)) == Ok::<
                    _,
                    ResolutionErrorView,
                >((models, nets_model(networks@))),
                out@.len() == k,
                models.len() == k,
                forall|m: int|
                    0 <= m < k ==> {
                        &&& (#[trigger] out@[m]).0 == config.instances@[m].0
                        &&& instance_scalars_match(config.instances@[m].1, out@[m].1)
                        &&& interfaces_match(
                            config.instances@[m].1.interfaces@,
                            out@[m].1.interfaces@,
                            models[m],
                        )
                        &&& out@[m].1.routes is None
                        &&& out@[m].1.route_tables@ == Seq::<(String, RouteTableRuntime)>::empty()
                    },
            decreases config.instances@.len() - k,
        {
            let entry = &config.instances[k];
            let mut rt = InstanceRuntime::new(&entry.1);
            let ghost nets_start = nets_model(networks@);
            let ghost mut imodels: Seq<InterfaceModel> = Seq::empty();
            let mut j: usize = 0;
            while j < entry.1.interfaces.len()
                invariant
                    j <= entry.1.interfaces@.len(),
                    forall|m: int| 0 <= m < networks@.len() ==> (#[trigger] networks@[m]).1.wf(),
                    resolve_interfaces_spec(nets_start, entry.1.interfaces@.take(j as int)) == Ok::<
                        _,
                        ResolutionErrorView,
                    >((imodels, nets_model(networks@))),
                    rt.interfaces@.len() == j,
                    imodels.len() == j,
                    instance_scalars_match(entry.1, rt),
                    rt.routes is None,
                    rt.route_tables@ == Seq::<(String, RouteTableRuntime)>::empty(),
                    forall|m: int|
                        0 <= m < j ==> {
                            &&& (#[trigger] rt.interfaces@[m]).0 == entry.1.interfaces@[m].0
                            &&& interface_model(rt.interfaces@[m].1) == imodels[m]
                            &&& rt.interfaces@[m].1.wf()
                            &&& rt.interfaces@[m].1.tap_mac_address is None
                        },
                decreases entry.1.interfaces@.len() - j,
            {
                let ic = &entry.1.interfaces[j];
                let ghost nets_before = nets_model(networks@);
                proof {
                    lemma_key_at_model(networks@, ic.1.network@, 0);
                    lemma_find_key(networks@, ic.1.network@, 0);
                }
                let found = find_index(networks, ic.1.network.as_str());
                match found {
                    None => {
                        proof {
                            lemma_step_error_propagates(
                                nets0,
                                nets_start,
                                nets_before,
                                *config,
                                k as int,
                                j as int,
                                models,
                                imodels,
                            );
                        }
                        return Err(
                            ResolutionError::UndeclaredNetwork { network: ic.1.network.clone() },
                        );
                    },
                    Some(i) => {
                        let managed_name: Option<String> = match &networks[i].1.network_type {
                            NetworkTypeRuntime::Managed { name } => Some(name.clone()),
                            NetworkTypeRuntime::Unmanaged { .. } => None,
                        };
                        match managed_name {
                            Some(name) => {
                                let ifrt = InterfaceRuntime {
                                    mtu: ic.1.mtu,
                                    address: None,
                                    managed: Some(name),
                                    mac_address: generate_mac(),
                                    tap_mac_address: None,
                                };
                                proof {
                                    imodels = imodels.push(interface_model(ifrt));
                                }
                                rt.interfaces.push((ic.0.clone(), ifrt));
                            },
                            None => {
                                let e = &mut networks[i];
                                let res = e.1.assign_address();
                                match res {
                                    None => {
                                        proof {
                                            lemma_step_error_propagates(
                                                nets0,
                                                nets_start,
                                                nets_before,
                                                *config,
                                                k as int,
                                                j as int,
                                                models,
                                                imodels,
                                            );
                                        }
                                        return Err(
                                            ResolutionError::NetworkExhausted {
                                                network: ic.1.network.clone(),
                                            },
                                        );
                                    },
                                    Some((a, plen)) => {
                                        let ifrt = InterfaceRuntime {
                                            mtu: ic.1.mtu,
                                            address: Some((a, plen)),
                                            managed: None,
                                            mac_address: generate_mac(),
                                            tap_mac_address: None,
                                        };
                                        proof {
                                            imodels = imodels.push(interface_model(ifrt));
                                            assert(nets_model(networks@) =~= nets_before.update(
                                                i as int,
                                                (
                                                    nets_before[i as int].0,
                                                    networks@[i as int].1@,
                                                ),
                                            ));
                                        }
                                        rt.interfaces.push((ic.0.clone(), ifrt));
                                    },
                                }
                            },
                        }
                        proof {
                            let ifs = entry.1.interfaces@;
                            assert(ifs.take(j + 1).drop_last() =~= ifs.take(j as int));
                            assert(ifs.take(j + 1).last() == ifs[j as int]);
                        }
                    },
                }
                j = j + 1;
            }
            proof {
                let ifs = entry.1.interfaces@;
                assert(ifs.take(ifs.len() as int) =~= ifs);
                let insts = config.instances@;
                assert(insts.take(k + 1).drop_last() =~= insts.take(k as int));
                assert(insts.take(k + 1).last() == insts[k as int]);
                models = models.push(imodels);
            }
            out.push((entry.0.clone(), rt));
            k = k + 1;
        }
        proof {
            assert(config.instances@.take(config.instances@.len() as int) =~= config.instances@);
        }
        Ok(out)
    }
}

/// When resolving interface `j` of instance `k` fails, the whole
/// interface-resolution fold fails with that step's error.
proof fn lemma_step_error_propagates(
    nets0: Seq<(String, NetworkRuntime)>,
    nets_start: Seq<(String, NetworkModel)>,
    nets_before: Seq<(String, NetworkModel)>,
    cfg: Config,
    k: int,
    j: int,
    models: Seq<Seq<InterfaceModel>>,
    imodels: Seq<InterfaceModel>,
)
    requires
        0 <= k < cfg.instances@.len(),
        0 <= j < cfg.instances@[k].1.interfaces@.len(),
        resolve_all_spec(nets_model(nets0), cfg.instances@.take(k)) == Ok::<
            _,
            ResolutionErrorView,
        >((models, nets_start)),
        resolve_interfaces_spec(nets_start, cfg.instances@[k].1.interfaces@.take(j)) == Ok::<
            _,
            ResolutionErrorView,
        >((imodels, nets_before)),
        resolve_interface_step(nets_before, cfg.instances@[k].1.interfaces@[j].1) is Err,
    ensures
        resolve_all_spec(nets_model(nets0), cfg.instances@) == Err::<
            (Seq<Seq<InterfaceModel>>, Seq<(String, NetworkModel)>),
            _,
        >(resolve_interface_step(nets_before, cfg.instances@[k].1.interfaces@[j].1)->Err_0),
{
    let ifs = cfg.instances@[k].1.interfaces@;
    let e = resolve_interface_step(nets_before, ifs[j].1)->Err_0;
    assert(ifs.take(j + 1).drop_last() =~= ifs.take(j));
    assert(ifs.take(j + 1).last() == ifs[j]);
    assert(resolve_interfaces_spec(nets_start, ifs.take(j + 1)) == Err::<
        (Seq<InterfaceModel>, Seq<(String, NetworkModel)>),
        _,
    >(e));
    lemma_ifaces_err_stable(nets_start, ifs, j + 1);
    let insts = cfg.instances@;
    assert(insts.take(k + 1).drop_last() =~= insts.take(k));
    assert(insts.take(k + 1).last() == insts[k]);
    assert(resolve_all_spec(nets_model(nets0), insts.take(k + 1)) == Err::<
        (Seq<Seq<InterfaceModel>>, Seq<(String, NetworkModel)>),
        _,
    >(e));
    lemma_insts_err_stable(nets_model(nets0), insts, k + 1);
}

} // verus!
