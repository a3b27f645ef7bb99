use vstd::prelude::*;
use vstd::arithmetic::power2::pow2;
use std::collections::HashSet;
use crate::Subnet;
use crate::subnet_size;
use crate::errors::ResolutionError;
use crate::errors::ResolutionErrorView;

verus! {

broadcast use vstd::std_specs::hash::group_hash_axioms;

/// A declared network: either a subnet this system owns and allocates from
/// (unmanaged), or an existing backend network it merely attaches to (managed).
pub struct NetworkConfig {
    pub network_type: NetworkTypeConfig,
}

pub enum NetworkTypeConfig {
    Managed { name: String },
    Unmanaged { subnet: String },
}

impl NetworkConfig {
    pub fn new(network_type: NetworkTypeConfig) -> (r: NetworkConfig)
        ensures
            r.network_type == network_type,
    {
        match network_type {
            NetworkTypeConfig::Unmanaged { subnet } => {
                NetworkConfig { network_type: NetworkTypeConfig::Unmanaged { subnet } }
            },
            NetworkTypeConfig::Managed { name } => {
                NetworkConfig { network_type: NetworkTypeConfig::Managed { name } }
            },
        }
    }
}

/// A resolved network.  An unmanaged network carries the parsed subnet, the
/// reserved gateway address (always the first host address) and the set of
/// addresses already handed out, keyed by their 32-bit integer form.
pub struct NetworkRuntime {
    pub network_type: NetworkTypeRuntime,
}

pub enum NetworkTypeRuntime {
    Managed { name: String },
    Unmanaged { subnet: Subnet, assigned_addresses: HashSet<u32>, gateway: u32 },
}

/// Mathematical model of a resolved network: the assigned addresses as a set.
pub ghost enum NetworkModel {
    Managed { name: Seq<char> },
    Unmanaged { subnet: Subnet, assigned: Set<u32>, gateway: u32 },
}

impl View for NetworkRuntime {
    type V = NetworkModel;

    open spec fn view(&self) -> NetworkModel {
        match self.network_type {
            NetworkTypeRuntime::Managed { name } => NetworkModel::Managed { name: name@ },
            NetworkTypeRuntime::Unmanaged { subnet, assigned_addresses, gateway } => {
                NetworkModel::Unmanaged { subnet, assigned: assigned_addresses@, gateway }
            },
        }
    }
}

/// The mathematical image of a name-keyed list of resolved networks: the
/// same keys, each network replaced by its model.
pub open spec fn nets_model(nets: Seq<(String, NetworkRuntime)>) -> Seq<(String, NetworkModel)> {
    nets.map_values(|p: (String, NetworkRuntime)| (p.0, p.1@))
}

/// Name lookup commutes with taking the model of a network list.
pub proof fn lemma_key_at_model(nets: Seq<(String, NetworkRuntime)>, name: Seq<char>, i: int)
    requires
        0 <= i,
    ensures
        crate::object::find_key(nets_model(nets), name, i) == crate::object::find_key(
            nets,
            name,
            i,
        ),
    decreases nets.len() - i,
{
    if i < nets.len() {
        lemma_key_at_model(nets, name, i + 1);
    }
}

/// The subnet a network name routes to: the parsed subnet when the name
/// resolves to an unmanaged network, nothing when it is undeclared or managed
/// (a managed network has no subnet of its own to route to).
pub open spec fn unmanaged_subnet_of(
    nets: Seq<(String, NetworkRuntime)>,
    name: Seq<char>,
) -> Option<Subnet> {
    match crate::object::key_at(nets, name) {
        None => None,
        Some(i) => match nets[i].1.network_type {
            NetworkTypeRuntime::Unmanaged { subnet, .. } => Some(subnet),
            NetworkTypeRuntime::Managed { .. } => None,
        },
    }
}

/// Look up the subnet of an unmanaged network by name.
pub fn unmanaged_subnet(networks: &Vec<(String, NetworkRuntime)>, name: &str) -> (r: Option<
    Subnet,
>)
    ensures
        r == unmanaged_subnet_of(networks@, name@),
{
    proof {
        crate::object::lemma_find_key(networks@, name@, 0);
    }
    match crate::object::find_index(networks, name) {
        None => None,
        Some(i) => match &networks[i].1.network_type {
            NetworkTypeRuntime::Unmanaged { subnet, .. } => Some(*subnet),
            NetworkTypeRuntime::Managed { .. } => None,
        },
    }
}

/// What `ipnet`'s IPv4 CIDR parser returns for a given string: the masked
/// network base address and the prefix length, or nothing when the string is
/// not valid CIDR notation.
pub uninterp spec fn parsed_ipv4_net(s: Seq<char>) -> Option<(u32, u8)>;

/// Relies on `ipnet::Ipv4Net`: its `FromStr` accepts exactly IPv4 CIDR
/// notation with a prefix length of at most 32, and `network()` returns the
/// address with all host bits masked to zero.
#[verifier::external_body]
fn parse_ipv4_net(s: &str) -> (r: Option<(u32, u8)>)
    ensures
        r == parsed_ipv4_net(s@),
        match r {
            Some(p) => p.1 <= 32 && (p.0 as int) % (pow2((32 - p.1) as nat) as int) == 0,
            None => true,
        },
{
    match s.parse::<ipnet::Ipv4Net>() {
        Ok(net) => Some((u32::from(net.network()), net.prefix_len())),
        Err(_) => None,
    }
}

/// The first address in `[cand, last]` that is not yet assigned; the
/// deterministic scan order of the allocator.
pub open spec fn first_free(assigned: Set<u32>, cand: int, last: int) -> Option<u32>
    decreases last + 1 - cand,
{
    if cand > last || cand < 0 || last > 0xFFFF_FFFF {
        None
    } else if !assigned.contains(cand as u32) {
        Some(cand as u32)
    } else {
        first_free(assigned, cand + 1, last)
    }
}

/// A successful scan returns an address in range that was not assigned, and
/// every address below it was already assigned.
pub proof fn lemma_first_free_fresh(assigned: Set<u32>, cand: int, last: int)
    ensures
        match first_free(assigned, cand, last) {
            Some(a) => !assigned.contains(a) && cand <= a <= last && (forall|b: int|
                cand <= b < a ==> assigned.contains(#[trigger] (b as u32))),
            None => true,
        },
    decreases last + 1 - cand,
{
    if cand > last || cand < 0 || last > 0xFFFF_FFFF {
    } else if !assigned.contains(cand as u32) {
    } else {
        lemma_first_free_fresh(assigned, cand + 1, last);
    }
}

/// How one allocator call may change a network and what it may return:
/// managed networks short-circuit with no address and no state change; an
/// unmanaged network hands out the first free host address above the base
/// (or nothing once the scan would pass the broadcast address) and records it.
pub open spec fn assign_post(
    pre: NetworkRuntime,
    post: NetworkRuntime,
    r: Option<(u32, u8)>,
) -> bool {
    match pre@ {
        NetworkModel::Managed { .. } => r is None && post == pre,
        NetworkModel::Unmanaged { subnet, assigned, gateway } => {
            match first_free(assigned, subnet.base + 1, subnet.broadcast_address()) {
                None => r is None && post == pre,
                Some(a) => r == Some((a, subnet.prefix_len)) && post@ == (NetworkModel::Unmanaged {
                    subnet,
                    assigned: assigned.insert(a),
                    gateway,
                }),
            }
        },
    }
}

impl NetworkRuntime {
    /// Internal consistency of a resolved network: the subnet block fits the
    /// address space, the gateway is the first host address, and the gateway
    /// is pre-reserved in the assigned set.
    pub open spec fn wf(self) -> bool {
        match self@ {
            NetworkModel::Managed { .. } => true,
            NetworkModel::Unmanaged { subnet, assigned, gateway } => {
                &&& subnet.wf()
                &&& gateway == subnet.base + 1
                &&& assigned.contains(gateway)
            },
        }
    }

    /// What resolving a declared network yields, at the model level: a
    /// managed network keeps only the backend name; an unmanaged one gets its
    /// parsed subnet, the gateway `base + 1`, and an assigned set holding
    /// exactly the gateway.  A string that does not parse (or whose gateway
    /// would not be representable) is rejected.
    pub open spec fn model_of(cfg: NetworkConfig) -> Result<NetworkModel, ResolutionErrorView> {
        match cfg.network_type {
            NetworkTypeConfig::Managed { name } => Ok(NetworkModel::Managed { name: name@ }),
            NetworkTypeConfig::Unmanaged { subnet } => {
                match parsed_ipv4_net(subnet@) {
                    None => Err(ResolutionErrorView::InvalidSubnet { subnet: subnet@ }),
                    Some(p) => {
                        if p.0 < 0xFFFF_FFFF {
                            Ok(
                                NetworkModel::Unmanaged {
                                    subnet: Subnet { base: p.0, prefix_len: p.1 },
                                    assigned: Set::empty().insert((p.0 + 1) as u32),
                                    gateway: (p.0 + 1) as u32,
                                },
                            )
                        } else {
                            Err(ResolutionErrorView::InvalidSubnet { subnet: subnet@ })
                        }
                    },
                }
            },
        }
    }

    /// `new` realises `model_of` exactly, and a network it builds is well
    /// formed.
    pub open spec fn new_post(cfg: NetworkConfig, r: Result<NetworkRuntime, ResolutionError>) -> bool {
        match Self::model_of(cfg) {
            Ok(m) => {
                &&& r matches Ok(n)
                &&& r matches Ok(n) ==> n@ == m && n.wf()
            },
            Err(e) => r matches Err(err) && err@ == e,
        }
    }

    pub fn new(network_config: &NetworkConfig) -> (r: Result<NetworkRuntime, ResolutionError>)
        ensures
            Self::new_post(*network_config, r),
    {
        match &network_config.network_type {
            NetworkTypeConfig::Managed { name } => {
                Ok(NetworkRuntime { network_type: NetworkTypeRuntime::Managed { name: name.clone() } })
            },
            NetworkTypeConfig::Unmanaged { subnet } => {
                match parse_ipv4_net(subnet.as_str()) {
                    None => Err(ResolutionError::InvalidSubnet { subnet: subnet.clone() }),
                    Some((base, prefix_len)) => {
                        if base < 0xFFFF_FFFFu32 {
                            let gateway = base + 1;
                            let mut assigned: HashSet<u32> = HashSet::new();
                            assigned.insert(gateway);
                            proof {
                                lemma_masked_base_fits(base, prefix_len);
                            }
                            Ok(
                                NetworkRuntime {
                                    network_type: NetworkTypeRuntime::Unmanaged {
                                        subnet: Subnet { base, prefix_len },
                                        assigned_addresses: assigned,
                                        gateway,
                                    },
                                },
                            )
                        } else {
                            Err(ResolutionError::InvalidSubnet { subnet: subnet.clone() })
                        }
                    },
                }
            },
        }
    }

    /// Assign the first unused host address of an unmanaged network, skipping
    /// the reserved gateway (it is in the assigned set from construction) and
    /// failing once the scan would pass the broadcast address.  Managed
    /// networks never allocate.
    pub fn assign_address(&mut self) -> (r: Option<(u32, u8)>)
        requires
            old(self).wf(),
        ensures
            final(self).wf(),
            assign_post(*old(self), *final(self), r),
    {
        let scan: Option<u32>;
        let prefix_len: u8;
        match &self.network_type {
            NetworkTypeRuntime::Managed { .. } => {
                return None;
            },
            NetworkTypeRuntime::Unmanaged { subnet, assigned_addresses, .. } => {
                prefix_len = subnet.prefix_len;
                scan = first_free_addr(assigned_addresses, subnet.base, subnet.prefix_len);
            },
        }
        match scan {
            None => None,
            Some(a) => {
                match &mut self.network_type {
                    NetworkTypeRuntime::Unmanaged { assigned_addresses, .. } => {
                        assigned_addresses.insert(a);
                    },
                    NetworkTypeRuntime::Managed { .. } => {
                        proof {
                            assert(false);
                        }
                    },
                }
                Some((a, prefix_len))
            },
        }
    }
}

/// Deterministic upward scan for the first address in
/// `[base + 1, broadcast]` missing from the assigned set.
fn first_free_addr(assigned: &HashSet<u32>, base: u32, prefix_len: u8) -> (r: Option<u32>)
    requires
        prefix_len <= 32,
        base + subnet_size(prefix_len) <= 0x1_0000_0000,
        base < 0xFFFF_FFFFu32,
    ensures
        r == first_free(assigned@, base + 1, base + subnet_size(prefix_len) - 1),
{
    let bits: u64 = (32 - prefix_len) as u64;
    let size: u64 = 1u64 << bits;
    proof {
        vstd::arithmetic::power2::lemma2_to64();
        vstd::bits::lemma_u64_shl_is_mul(1u64, bits);
        assert(size == subnet_size(prefix_len));
    }
    let last: u32 = ((base as u64) + size - 1) as u32;
    let mut cand: u32 = base + 1;
    while cand <= last
        invariant
            base + 1 <= cand <= last + 1,
            last == base + subnet_size(prefix_len) - 1,
            first_free(assigned@, base + 1, last as int) == first_free(
                assigned@,
                cand as int,
                last as int,
            ),
        decreases last - cand,
    {
        if !assigned.contains(&cand) {
            return Some(cand);
        }
        if cand == last {
            proof {
                assert(first_free(assigned@, cand as int, last as int) == first_free(
                    assigned@,
                    cand as int + 1,
                    last as int,
                ));
                assert(first_free(assigned@, cand as int + 1, last as int) is None);
            }
            return None;
        }
        cand = cand + 1;
    }
    None
}

/// A base address whose low `32 - prefix_len` bits are zero leaves room for
/// the whole block inside the 32-bit address space.
proof fn lemma_masked_base_fits(base: u32, prefix_len: u8)
    requires
        prefix_len <= 32,
        (base as int) % (pow2((32 - prefix_len) as nat) as int) == 0,
    ensures
        base + subnet_size(prefix_len) <= 0x1_0000_0000,
{
    let s = pow2((32 - prefix_len) as nat) as int;
    let p = pow2(prefix_len as nat) as int;
    vstd::arithmetic::power2::lemma_pow2_pos((32 - prefix_len) as nat);
    vstd::arithmetic::power2::lemma_pow2_pos(prefix_len as nat);
    vstd::arithmetic::power2::lemma_pow2_adds((32 - prefix_len) as nat, prefix_len as nat);
    vstd::arithmetic::power2::lemma2_to64();
    assert(s * p == 0x1_0000_0000);
    vstd::arithmetic::div_mod::lemma_fundamental_div_mod(base as int, s);
    let q = base as int / s;
    assert(base == s * q);
    assert(s * q < s * p);
    assert(q < p) by (nonlinear_arith)
        requires
            s > 0,
            s * q < s * p,
    ;
    assert(s * (q + 1) <= s * p) by (nonlinear_arith)
        requires
            s > 0,
            q + 1 <= p,
    ;
    assert(s * (q + 1) == s * q + s) by (nonlinear_arith);
}

/// The allocator's central guarantee: a successful allocation returns an
/// address that was not yet assigned — in particular never the pre-reserved
/// gateway — and extends the assigned set by exactly that address.
pub proof fn lemma_allocator_fresh(n0: NetworkRuntime, n1: NetworkRuntime, r: Option<(u32, u8)>)
    requires
        n0.wf(),
        assign_post(n0, n1, r),
        r is Some,
    ensures
        n0@ matches NetworkModel::Unmanaged { subnet, assigned, gateway } && {
            let a = r->Some_0.0;
            &&& !assigned.contains(a)
            &&& a != gateway
            &&& n1@ == (NetworkModel::Unmanaged { subnet, assigned: assigned.insert(a), gateway })
        },
{
    match n0@ {
        NetworkModel::Managed { .. } => {
            assert(false);
        },
        NetworkModel::Unmanaged { subnet, assigned, gateway } => {
            lemma_first_free_fresh(assigned, subnet.base + 1, subnet.broadcast_address());
        },
    }
}

/// The allocator never returns the same address twice: two consecutive
/// successful allocations on one unmanaged network return distinct addresses,
/// and neither returns the reserved gateway.
pub proof fn lemma_allocator_never_reuses(
    n0: NetworkRuntime,
    n1: NetworkRuntime,
    n2: NetworkRuntime,
    r1: Option<(u32, u8)>,
    r2: Option<(u32, u8)>,
)
    requires
        n0.wf(),
        assign_post(n0, n1, r1),
        assign_post(n1, n2, r2),
        r1 is Some,
        r2 is Some,
    ensures
        r1->Some_0.0 != r2->Some_0.0,
        n0@ matches NetworkModel::Unmanaged { gateway, .. } ==> r1->Some_0.0 != gateway
            && r2->Some_0.0 != gateway,
{
    lemma_allocator_fresh(n0, n1, r1);
    match n0@ {
        NetworkModel::Managed { .. } => {
            assert(false);
        },
        NetworkModel::Unmanaged { subnet, assigned, gateway } => {
            assert(n1.wf());
            lemma_allocator_fresh(n1, n2, r2);
        },
    }
}

} // verus!
