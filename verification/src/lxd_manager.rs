use vstd::prelude::*;
use crate::instance::InstanceRuntime;
use crate::interface::InterfaceRuntime;
use crate::network::{NetworkRuntime, NetworkTypeRuntime};
use crate::runtime::Runtime;

verus! {

/// One backend operation of the convergence engine, as plain data.  A thin
/// unverified driver turns each command into the corresponding backend call,
/// in plan order.
pub enum LxdCommands {
    LaunchInstance { name: String, image: String, vcpu: u16, memory: String },
    CreateNetwork { name: String, gateway: u32 },
    DestroyInstance { name: String },
    DestroyNetwork { name: String },
    AttachInterface {
        name: String,
        instance: String,
        idx: usize,
        address: u32,
        prefix_len: u8,
        mac_address: String,
        mtu: u32,
    },
}

/// One network-create command per unmanaged network, in declaration order;
/// managed networks are never created.
pub open spec fn network_commands(nets: Seq<(String, NetworkRuntime)>) -> Seq<LxdCommands>
    decreases nets.len(),
{
    if nets.len() == 0 {
        Seq::empty()
    } else {
        let prev = network_commands(nets.drop_last());
        match nets.last().1.network_type {
            NetworkTypeRuntime::Managed { .. } => prev,
            NetworkTypeRuntime::Unmanaged { gateway, .. } => prev.push(
                LxdCommands::CreateNetwork { name: nets.last().0, gateway },
            ),
        }
    }
}

/// One attach command per interface that carries an address, in declaration
/// order, with the backend device index counting the attached interfaces of
/// this instance from one.
pub open spec fn attach_commands(
    instance: String,
    ifaces: Seq<(String, InterfaceRuntime)>,
) -> Seq<LxdCommands>
    decreases ifaces.len(),
{
    if ifaces.len() == 0 {
        Seq::empty()
    } else {
        let prev = attach_commands(instance, ifaces.drop_last());
        match ifaces.last().1.address {
            None => prev,
            Some(ap) => prev.push(
                LxdCommands::AttachInterface {
                    name: ifaces.last().0,
                    instance,
                    idx: (prev.len() + 1) as usize,
                    address: ap.0,
                    prefix_len: ap.1,
                    mac_address: ifaces.last().1.mac_address,
                    mtu: ifaces.last().1.mtu,
                },
            ),
        }
    }
}

/// Per instance, in declaration order: launch it, then attach its addressed
/// interfaces.
pub open spec fn instance_commands(insts: Seq<(String, InstanceRuntime)>) -> Seq<LxdCommands>
    decreases insts.len(),
{
    if insts.len() == 0 {
        Seq::empty()
    } else {
        let last = insts.last();
        instance_commands(insts.drop_last()) + seq![
            LxdCommands::LaunchInstance {
                name: last.0,
                image: last.1.image,
                vcpu: last.1.vcpu,
                memory: last.1.memory,
            },
        ] + attach_commands(last.0, last.1.interfaces@)
    }
}

/// The ordered create sequence: unmanaged networks first, then every instance
/// with its interface attachments.
pub open spec fn create_plan_spec(rt: Runtime) -> Seq<LxdCommands> {
    network_commands(rt.networks@) + instance_commands(rt.instances@)
}

/// One destroy command per instance, in declaration order.
pub open spec fn destroy_instance_commands(insts: Seq<(String, InstanceRuntime)>) -> Seq<
    LxdCommands,
>
    decreases insts.len(),
{
    if insts.len() == 0 {
        Seq::empty()
    } else {
        destroy_instance_commands(insts.drop_last()).push(
            LxdCommands::DestroyInstance { name: insts.last().0 },
        )
    }
}

/// One destroy command per unmanaged network, in declaration order; managed
/// networks are never torn down.
pub open spec fn destroy_network_commands(nets: Seq<(String, NetworkRuntime)>) -> Seq<LxdCommands>
    decreases nets.len(),
{
    if nets.len() == 0 {
        Seq::empty()
    } else {
        let prev = destroy_network_commands(nets.drop_last());
        match nets.last().1.network_type {
            NetworkTypeRuntime::Managed { .. } => prev,
            NetworkTypeRuntime::Unmanaged { .. } => prev.push(
                LxdCommands::DestroyNetwork { name: nets.last().0 },
            ),
        }
    }
}

/// The ordered teardown sequence: every instance, then every unmanaged
/// network this system created.
pub open spec fn destroy_plan_spec(rt: Runtime) -> Seq<LxdCommands> {
    destroy_instance_commands(rt.instances@) + destroy_network_commands(rt.networks@)
}

/// Every command of `network_commands` creates an unmanaged network of the
/// runtime model, with its reserved gateway.
proof fn lemma_network_commands_content(nets: Seq<(String, NetworkRuntime)>)
    ensures
        forall|i: int|
            0 <= i < network_commands(nets).len() ==> match #[trigger] network_commands(nets)[i] {
                LxdCommands::CreateNetwork { name, gateway } => exists|k: int|
                    0 <= k < nets.len() && (#[trigger] nets[k]).0 == name && match nets[k].1.network_type {
                        NetworkTypeRuntime::Unmanaged { gateway: g, .. } => g == gateway,
                        NetworkTypeRuntime::Managed { .. } => false,
                    },
                _ => false,
            },
    decreases nets.len(),
{
    if nets.len() > 0 {
        lemma_network_commands_content(nets.drop_last());
        assert forall|k: int| 0 <= k < nets.len() - 1 implies nets.drop_last()[k] == nets[k] by {}
    }
}

/// Every command of `attach_commands` attaches to the given instance, and the
/// device indexes count up from one in plan order.
proof fn lemma_attach_commands_content(instance: String, ifaces: Seq<(String, InterfaceRuntime)>)
    requires
        ifaces.len() <= usize::MAX,
    ensures
        forall|i: int|
            0 <= i < attach_commands(instance, ifaces).len() ==> match #[trigger] attach_commands(
                instance,
                ifaces,
            )[i] {
                LxdCommands::AttachInterface { instance: inst, idx, .. } => inst == instance && idx
                    == i + 1,
                _ => false,
            },
        attach_commands(instance, ifaces).len() <= ifaces.len(),
    decreases ifaces.len(),
{
    if ifaces.len() > 0 {
        lemma_attach_commands_content(instance, ifaces.drop_last());
    }
}

/// Every command of `instance_commands` launches or attaches, and every
/// attach is preceded by the launch of the instance it attaches to.
proof fn lemma_instance_commands_content(insts: Seq<(String, InstanceRuntime)>)
    ensures
        forall|j: int|
            0 <= j < instance_commands(insts).len() ==> match #[trigger] instance_commands(
                insts,
            )[j] {
                LxdCommands::LaunchInstance { .. } => true,
                LxdCommands::AttachInterface { instance, .. } => exists|i: int|
                    0 <= i < j && match #[trigger] instance_commands(insts)[i] {
                        LxdCommands::LaunchInstance { name, .. } => name == instance,
                        _ => false,
                    },
                _ => false,
            },
    decreases insts.len(),
{
    if insts.len() > 0 {
        let prev = instance_commands(insts.drop_last());
        let last = insts.last();
        let launch = LxdCommands::LaunchInstance {
            name: last.0,
            image: last.1.image,
            vcpu: last.1.vcpu,
            memory: last.1.memory,
        };
        let attaches = attach_commands(last.0, last.1.interfaces@);
        let cmds = instance_commands(insts);
        lemma_instance_commands_content(insts.drop_last());
        vstd::std_specs::vec::axiom_spec_len(&last.1.interfaces);
        lemma_attach_commands_content(last.0, last.1.interfaces@);
        assert(cmds =~= prev + seq![launch] + attaches);
        assert forall|j: int| 0 <= j < cmds.len() implies match #[trigger] cmds[j] {
            LxdCommands::LaunchInstance { .. } => true,
            LxdCommands::AttachInterface { instance, .. } => exists|i: int|
                0 <= i < j && match #[trigger] cmds[i] {
                    LxdCommands::LaunchInstance { name, .. } => name == instance,
                    _ => false,
                },
            _ => false,
        } by {
            if j < prev.len() {
                assert(cmds[j] == prev[j]);
                match prev[j] {
                    LxdCommands::AttachInterface { instance, .. } => {
                        let i = choose|i: int|
                            0 <= i < j && match #[trigger] prev[i] {
                                LxdCommands::LaunchInstance { name, .. } => name == instance,
                                _ => false,
                            };
                        assert(cmds[i] == prev[i]);
                    },
                    _ => {
                    },
                }
            } else if j == prev.len() {
                assert(cmds[j] == launch);
            } else {
                assert(cmds[j] == attaches[j - prev.len() - 1]);
                assert(cmds[prev.len() as int] == launch);
            }
        }
    }
}

/// The ordering guarantees of the create sequence: network creation precedes
/// every instance operation; every interface attachment follows the launch of
/// its instance; only unmanaged networks are ever created, each with its
/// reserved gateway.
pub proof fn lemma_create_plan_ordering(rt: Runtime)
    ensures
        forall|i: int, j: int|
            0 <= i < create_plan_spec(rt).len() && 0 <= j < create_plan_spec(rt).len()
                && (#[trigger] create_plan_spec(rt)[i] matches LxdCommands::CreateNetwork { .. })
                && !(#[trigger] create_plan_spec(rt)[j] matches LxdCommands::CreateNetwork { .. })
                ==> i < j,
        forall|j: int|
            0 <= j < create_plan_spec(rt).len() ==> match #[trigger] create_plan_spec(rt)[j] {
                LxdCommands::AttachInterface { instance, .. } => exists|i: int|
                    0 <= i < j && match #[trigger] create_plan_spec(rt)[i] {
                        LxdCommands::LaunchInstance { name, .. } => name == instance,
                        _ => false,
                    },
                LxdCommands::DestroyInstance { .. } => false,
                LxdCommands::DestroyNetwork { .. } => false,
                _ => true,
            },
        forall|i: int|
            0 <= i < create_plan_spec(rt).len() ==> match #[trigger] create_plan_spec(rt)[i] {
                LxdCommands::CreateNetwork { name, gateway } => exists|k: int|
                    0 <= k < rt.networks@.len() && (#[trigger] rt.networks@[k]).0 == name && match
                        rt.networks@[k].1.network_type {
                        NetworkTypeRuntime::Unmanaged { gateway: g, .. } => g == gateway,
                        NetworkTypeRuntime::Managed { .. } => false,
                    },
                _ => true,
            },
{
    let nc = network_commands(rt.networks@);
    let ic = instance_commands(rt.instances@);
    let plan = create_plan_spec(rt);
    lemma_network_commands_content(rt.networks@);
    lemma_instance_commands_content(rt.instances@);
    assert forall|j: int| 0 <= j < plan.len() implies match #[trigger] plan[j] {
        LxdCommands::AttachInterface { instance, .. } => exists|i: int|
            0 <= i < j && match #[trigger] plan[i] {
                LxdCommands::LaunchInstance { name, .. } => name == instance,
                _ => false,
            },
        LxdCommands::DestroyInstance { .. } => false,
        LxdCommands::DestroyNetwork { .. } => false,
        _ => true,
    } by {
        if j < nc.len() {
            assert(plan[j] == nc[j]);
        } else {
            assert(plan[j] == ic[j - nc.len()]);
            match ic[j - nc.len()] {
                LxdCommands::AttachInterface { instance, .. } => {
                    let i = choose|i: int|
                        0 <= i < j - nc.len() && match #[trigger] ic[i] {
                            LxdCommands::LaunchInstance { name, .. } => name == instance,
                            _ => false,
                        };
                    assert(plan[i + nc.len()] == ic[i]);
                },
                _ => {
                },
            }
        }
    }
}

/// The teardown sequence destroys every instance before any network, and
/// destroys only unmanaged networks.
pub proof fn lemma_destroy_plan_ordering(rt: Runtime)
    ensures
        forall|i: int|
            0 <= i < destroy_plan_spec(rt).len() ==> match #[trigger] destroy_plan_spec(rt)[i] {
                LxdCommands::DestroyInstance { .. } => i < rt.instances@.len(),
                LxdCommands::DestroyNetwork { name } => i >= rt.instances@.len() && exists|k: int|
                    0 <= k < rt.networks@.len() && (#[trigger] rt.networks@[k]).0 == name
                        && rt.networks@[k].1.network_type matches NetworkTypeRuntime::Unmanaged {
                        ..
                    },
                _ => false,
            },
{
    lemma_destroy_instances_content(rt.instances@);
    lemma_destroy_networks_content(rt.networks@);
}

proof fn lemma_destroy_instances_content(insts: Seq<(String, InstanceRuntime)>)
    ensures
        destroy_instance_commands(insts).len() == insts.len(),
        forall|i: int|
            0 <= i < insts.len() ==> (#[trigger] destroy_instance_commands(insts)[i])
                matches LxdCommands::DestroyInstance { .. },
    decreases insts.len(),
{
    if insts.len() > 0 {
        lemma_destroy_instances_content(insts.drop_last());
    }
}

proof fn lemma_destroy_networks_content(nets: Seq<(String, NetworkRuntime)>)
    ensures
        forall|i: int|
            0 <= i < destroy_network_commands(nets).len() ==> match
                #[trigger] destroy_network_commands(nets)[i] {
                LxdCommands::DestroyNetwork { name } => exists|k: int|
                    0 <= k < nets.len() && (#[trigger] nets[k]).0 == name
                        && nets[k].1.network_type matches NetworkTypeRuntime::Unmanaged { .. },
                _ => false,
            },
    decreases nets.len(),
{
    if nets.len() > 0 {
        lemma_destroy_networks_content(nets.drop_last());
        assert forall|k: int| 0 <= k < nets.len() - 1 implies nets.drop_last()[k] == nets[k] by {}
    }
}

/// Plans backend operations from a resolved runtime model.
pub struct LxdManager {
    runtime: Runtime,
}

impl LxdManager {
    /// The runtime model this manager drives the backend towards.
    pub closed spec fn runtime(&self) -> Runtime {
        self.runtime
    }

    pub fn new(runtime: Runtime) -> (r: LxdManager)
        ensures
            r.runtime() == runtime,
    {
        LxdManager { runtime }
    }

    /// The ordered create sequence for this runtime model.
    #[verifier::loop_isolation(false)]
    #[verifier::rlimit(50)]
    pub fn create_plan(&self) -> (r: Vec<LxdCommands>)
        ensures
            r@ == create_plan_spec(self.runtime()),
    {
        let mut out: Vec<LxdCommands> = Vec::new();
        let nets = &self.runtime.networks;
        let mut k: usize = 0;
        while k < nets.len()
            invariant
                k <= nets@.len(),
                out@ == network_commands(nets@.take(k as int)),
            decreases nets@.len() - k,
        {
            match &nets[k].1.network_type {
                NetworkTypeRuntime::Managed { .. } => {
                },
                NetworkTypeRuntime::Unmanaged { gateway, .. } => {
                    out.push(
                        LxdCommands::CreateNetwork { name: nets[k].0.clone(), gateway: *gateway },
                    );
                },
            }
            proof {
                assert(nets@.take(k + 1).drop_last() =~= nets@.take(k as int));
                assert(nets@.take(k + 1).last() == nets@[k as int]);
            }
            k = k + 1;
        }
        proof {
            assert(nets@.take(nets@.len() as int) =~= nets@);
        }
        let insts = &self.runtime.instances;
        let mut k: usize = 0;
        while k < insts.len()
            invariant
                k <= insts@.len(),
                out@ == network_commands(nets@) + instance_commands(insts@.take(k as int)),
            decreases insts@.len() - k,
        {
            let inst = &insts[k];
            out.push(
                LxdCommands::LaunchInstance {
                    name: inst.0.clone(),
                    image: inst.1.image.clone(),
                    vcpu: inst.1.vcpu,
                    memory: inst.1.memory.clone(),
                },
            );
            let ghost launch = LxdCommands::LaunchInstance {
                name: inst.0,
                image: inst.1.image,
                vcpu: inst.1.vcpu,
                memory: inst.1.memory,
            };
            proof {
                assert(out@ =~= network_commands(nets@) + instance_commands(insts@.take(k as int))
                    + seq![launch]);
            }
            let mut attached: usize = 0;
            let mut j: usize = 0;
            while j < inst.1.interfaces.len()
                invariant
                    j <= inst.1.interfaces@.len(),
                    attached == attach_commands(inst.0, inst.1.interfaces@.take(j as int)).len(),
                    attached <= j,
                    out@ == network_commands(nets@) + instance_commands(insts@.take(k as int))
                        + seq![launch] + attach_commands(
                        inst.0,
                        inst.1.interfaces@.take(j as int),
                    ),
                decreases inst.1.interfaces@.len() - j,
            {
                let ifc = &inst.1.interfaces[j];
                match ifc.1.address {
                    None => {
                    },
                    Some((address, prefix_len)) => {
                        out.push(
                            LxdCommands::AttachInterface {
                                name: ifc.0.clone(),
                                instance: inst.0.clone(),
                                idx: attached + 1,
                                address,
                                prefix_len,
                                mac_address: ifc.1.mac_address.clone(),
                                mtu: ifc.1.mtu,
                            },
                        );
                        attached = attached + 1;
                    },
                }
                proof {
                    assert(inst.1.interfaces@.take(j + 1).drop_last() =~= inst.1.interfaces@.take(
                        j as int,
                    ));
                    assert(inst.1.interfaces@.take(j + 1).last() == inst.1.interfaces@[j as int]);
                    assert(out@ =~= network_commands(nets@) + instance_commands(
                        insts@.take(k as int),
                    ) + seq![launch] + attach_commands(
                        inst.0,
                        inst.1.interfaces@.take(j + 1),
                    ));
                }
                j = j + 1;
            }
            proof {
                assert(inst.1.interfaces@.take(inst.1.interfaces@.len() as int)
                    =~= inst.1.interfaces@);
                assert(insts@.take(k + 1).drop_last() =~= insts@.take(k as int));
                assert(insts@.take(k + 1).last() == insts@[k as int]);
                assert(out@ =~= network_commands(nets@) + instance_commands(insts@.take(k + 1)));
            }
            k = k + 1;
        }
        proof {
            assert(insts@.take(insts@.len() as int) =~= insts@);
        }
        out
    }

    /// The ordered teardown sequence for this runtime model.
    #[verifier::loop_isolation(false)]
    pub fn destroy_plan(&self) -> (r: Vec<LxdCommands>)
        ensures
            r@ == destroy_plan_spec(self.runtime()),
    {
        let mut out: Vec<LxdCommands> = Vec::new();
        let insts = &self.runtime.instances;
        let mut k: usize = 0;
        while k < insts.len()
            invariant
                k <= insts@.len(),
                out@ == destroy_instance_commands(insts@.take(k as int)),
            decreases insts@.len() - k,
        {
            out.push(LxdCommands::DestroyInstance { name: insts[k].0.clone() });
            proof {
                assert(insts@.take(k + 1).drop_last() =~= insts@.take(k as int));
                assert(insts@.take(k + 1).last() == insts@[k as int]);
            }
            k = k + 1;
        }
        proof {
            assert(insts@.take(insts@.len() as int) =~= insts@);
        }
        let nets = &self.runtime.networks;
        let mut k: usize = 0;
        while k < nets.len()
            invariant
                k <= nets@.len(),
                out@ == destroy_instance_commands(insts@) + destroy_network_commands(
                    nets@.take(k as int),
                ),
            decreases nets@.len() - k,
        {
            match &nets[k].1.network_type {
                NetworkTypeRuntime::Managed { .. } => {
                },
                NetworkTypeRuntime::Unmanaged { .. } => {
                    out.push(LxdCommands::DestroyNetwork { name: nets[k].0.clone() });
                },
            }
            proof {
                assert(nets@.take(k + 1).drop_last() =~= nets@.take(k as int));
                assert(nets@.take(k + 1).last() == nets@[k as int]);
            }
            k = k + 1;
        }
        proof {
            assert(nets@.take(nets@.len() as int) =~= nets@);
        }
        out
    }
}

} // verus!
