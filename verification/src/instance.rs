use vstd::prelude::*;
use crate::Subnet;
use crate::config::Config;
use crate::interface::{InterfaceConfig, InterfaceRuntime};
use crate::network::{unmanaged_subnet, unmanaged_subnet_of, NetworkRuntime};
use crate::object::{upsert, get_entry, Object, key_at, find_index, lemma_find_key};
use crate::route_table::RouteTableRuntime;

verus! {

/// A declared instance: machine sizing, its base disk image, the interfaces
/// it owns (keyed by interface name) and its optional declared routes.
pub struct InstanceConfig {
    pub vcpu: u16,
    pub memory: String,
    pub image: String,
    pub interfaces: Vec<(String, InterfaceConfig)>,
    pub routes: Option<Vec<Route>>,
}

/// A declared route: a destination interface reference and an ordered list of
/// next-hop interface references.
pub struct Route {
    pub destination: Destination,
    pub next_hops: Vec<NextHop>,
}

/// Reference to another instance's interface that a route leads towards.
pub struct Destination {
    pub instance: String,
    pub interface: String,
}

/// Reference to another instance's interface used as a forwarding target.
pub struct NextHop {
    pub instance: String,
    pub interface: String,
}

impl InstanceConfig {
    pub fn new(vcpu: u16, memory: &str, image: &str) -> (r: InstanceConfig)
        ensures
            r.vcpu == vcpu,
            r.memory@ == memory@,
            r.image@ == image@,
            r.interfaces@ == Seq::<(String, InterfaceConfig)>::empty(),
            r.routes is None,
    {
        InstanceConfig {
            vcpu,
            memory: memory.to_owned(),
            image: image.to_owned(),
            interfaces: Vec::new(),
            routes: None,
        }
    }
}

impl Object<InterfaceConfig> for InstanceConfig {
    open spec fn entries(&self) -> Seq<(String, InterfaceConfig)> {
        self.interfaces@
    }

    fn get<'a>(&'a self, name: &str) -> (r: Option<&'a InterfaceConfig>) {
        get_entry(&self.interfaces, name)
    }

    fn add(&mut self, name: &str, value: InterfaceConfig) {
        upsert(&mut self.interfaces, name, value);
    }
}

/// A resolved instance: the declared scalars plus the resolved interfaces and
/// the routes computed for it in the route-resolution pass.
pub struct InstanceRuntime {
    pub vcpu: u16,
    pub memory: String,
    pub image: String,
    pub interfaces: Vec<(String, InterfaceRuntime)>,
    pub routes: Option<Vec<RouteRuntime>>,
    pub route_tables: Vec<(String, RouteTableRuntime)>,
}

impl InstanceRuntime {
    /// A fresh resolved instance: the declared scalars carried over, no
    /// interfaces resolved yet and no routes computed yet.
    pub fn new(instance_config: &InstanceConfig) -> (r: InstanceRuntime)
        ensures
            r.vcpu == instance_config.vcpu,
            r.memory@ == instance_config.memory@,
            r.image@ == instance_config.image@,
            r.interfaces@ == Seq::<(String, InterfaceRuntime)>::empty(),
            r.routes is None,
            r.route_tables@ == Seq::<(String, RouteTableRuntime)>::empty(),
    {
        InstanceRuntime {
            vcpu: instance_config.vcpu,
            memory: instance_config.memory.clone(),
            image: instance_config.image.clone(),
            interfaces: Vec::new(),
            routes: None,
            route_tables: Vec::new(),
        }
    }
}

/// A resolved route: the destination network's subnet and the resolved
/// next hops, each a concrete MAC and IPv4 address.
pub struct RouteRuntime {
    pub destination: Subnet,
    pub next_hops: Vec<NextHopRuntime>,
}

/// A resolved next hop: the referenced interface's generated MAC and
/// allocated address, and the reference it was resolved from.  The tap-link
/// MAC is back-filled by the convergence engine once the backend has assigned
/// the referenced interface a link.
pub struct NextHopRuntime {
    pub instance: String,
    pub interface: String,
    pub mac_address: String,
    pub ip_address: u32,
    pub tap_mac: Option<String>,
}

/// Mathematical image of a resolved route: next hops as a sequence.
pub ghost struct RouteModel {
    pub destination: Subnet,
    pub next_hops: Seq<NextHopRuntime>,
}

pub open spec fn route_model(r: RouteRuntime) -> RouteModel {
    RouteModel { destination: r.destination, next_hops: r.next_hops@ }
}

pub open spec fn routes_model(rs: Seq<RouteRuntime>) -> Seq<RouteModel> {
    rs.map_values(|r: RouteRuntime| route_model(r))
}

/// The subnet a declared route's destination stands for: dereference the
/// destination instance's declared interface and take its network's subnet.
/// Nothing when any link of the chain is undeclared or the network is managed.
pub open spec fn dest_subnet_of(
    cfg_insts: Seq<(String, InstanceConfig)>,
    nets: Seq<(String, NetworkRuntime)>,
    dest: Destination,
) -> Option<Subnet> {
    match key_at(cfg_insts, dest.instance@) {
        None => None,
        Some(i) => match key_at(cfg_insts[i].1.interfaces@, dest.interface@) {
            None => None,
            Some(j) => unmanaged_subnet_of(nets, cfg_insts[i].1.interfaces@[j].1.network@),
        },
    }
}

/// The resolved MAC and IP a next-hop reference stands for, read from the
/// already-resolved instances.  Nothing when the instance or interface was
/// never declared, or the interface carries no address.
pub open spec fn next_hop_of(
    rts: Seq<(String, InstanceRuntime)>,
    nh: NextHop,
) -> Option<NextHopRuntime> {
    match key_at(rts, nh.instance@) {
        None => None,
        Some(i) => match key_at(rts[i].1.interfaces@, nh.interface@) {
            None => None,
            Some(j) => {
                match rts[i].1.interfaces@[j].1.address {
                    None => None,
                    Some(ap) => Some(
                        NextHopRuntime {
                            instance: nh.instance,
                            interface: nh.interface,
                            mac_address: rts[i].1.interfaces@[j].1.mac_address,
                            ip_address: ap.0,
                            tap_mac: None,
                        },
                    ),
                }
            },
        },
    }
}

/// Resolve a route's next hops in order, silently omitting every reference
/// that does not resolve.
pub open spec fn resolve_next_hops(
    rts: Seq<(String, InstanceRuntime)>,
    nhs: Seq<NextHop>,
) -> Seq<NextHopRuntime>
    decreases nhs.len(),
{
    if nhs.len() == 0 {
        Seq::empty()
    } else {
        let prev = resolve_next_hops(rts, nhs.drop_last());
        match next_hop_of(rts, nhs.last()) {
            None => prev,
            Some(h) => prev.push(h),
        }
    }
}

/// A dangling next-hop reference degrades the route rather than failing it:
/// resolving a next-hop list with an unresolvable entry yields exactly what
/// resolving the list without that entry yields.
pub proof fn lemma_dangling_next_hop_omitted(
    rts: Seq<(String, InstanceRuntime)>,
    nhs: Seq<NextHop>,
    i: int,
)
    requires
        0 <= i < nhs.len(),
        next_hop_of(rts, nhs[i]) is None,
    ensures
        resolve_next_hops(rts, nhs) == resolve_next_hops(rts, nhs.remove(i)),
    decreases nhs.len(),
{
    if i == nhs.len() - 1 {
        assert(nhs.remove(i) =~= nhs.drop_last());
    } else {
        assert(nhs.remove(i).drop_last() =~= nhs.drop_last().remove(i));
        assert(nhs.remove(i).last() == nhs.last());
        lemma_dangling_next_hop_omitted(rts, nhs.drop_last(), i);
    }
}

/// Resolve an instance's declared routes in order: a route whose destination
/// does not stand for an unmanaged network is omitted; the rest carry their
/// resolved next hops.
pub open spec fn resolve_routes_spec(
    cfg_insts: Seq<(String, InstanceConfig)>,
    nets: Seq<(String, NetworkRuntime)>,
    rts: Seq<(String, InstanceRuntime)>,
    routes: Seq<Route>,
) -> Seq<RouteModel>
    decreases routes.len(),
{
    if routes.len() == 0 {
        Seq::empty()
    } else {
        let prev = resolve_routes_spec(cfg_insts, nets, rts, routes.drop_last());
        match dest_subnet_of(cfg_insts, nets, routes.last().destination) {
            None => prev,
            Some(s) => prev.push(
                RouteModel {
                    destination: s,
                    next_hops: resolve_next_hops(rts, routes.last().next_hops@),
                },
            ),
        }
    }
}

/// A route whose destination does not resolve to an unmanaged network — a
/// managed destination network in particular — contributes no resolved route
/// entry, and the other routes resolve exactly as if it were not declared.
pub proof fn lemma_unresolved_destination_omitted(
    cfg_insts: Seq<(String, InstanceConfig)>,
    nets: Seq<(String, NetworkRuntime)>,
    rts: Seq<(String, InstanceRuntime)>,
    routes: Seq<Route>,
    i: int,
)
    requires
        0 <= i < routes.len(),
        dest_subnet_of(cfg_insts, nets, routes[i].destination) is None,
    ensures
        resolve_routes_spec(cfg_insts, nets, rts, routes) == resolve_routes_spec(
            cfg_insts,
            nets,
            rts,
            routes.remove(i),
        ),
    decreases routes.len(),
{
    if i == routes.len() - 1 {
        assert(routes.remove(i) =~= routes.drop_last());
    } else {
        assert(routes.remove(i).drop_last() =~= routes.drop_last().remove(i));
        assert(routes.remove(i).last() == routes.last());
        lemma_unresolved_destination_omitted(cfg_insts, nets, rts, routes.drop_last(), i);
    }
}

/// Two resolved-instance lists that agree on names and interfaces; route
/// resolution cannot tell them apart, since it reads nothing else.
pub open spec fn same_interfaces(
    a: Seq<(String, InstanceRuntime)>,
    b: Seq<(String, InstanceRuntime)>,
) -> bool {
    &&& a.len() == b.len()
    &&& forall|k: int|
        0 <= k < a.len() ==> (#[trigger] a[k]).0 == b[k].0 && a[k].1.interfaces == b[k].1.interfaces
}

/// Next-hop resolution reads only instance names and interfaces.
pub proof fn lemma_next_hop_of_same(
    a: Seq<(String, InstanceRuntime)>,
    b: Seq<(String, InstanceRuntime)>,
    nh: NextHop,
)
    requires
        same_interfaces(a, b),
    ensures
        next_hop_of(a, nh) == next_hop_of(b, nh),
{
    crate::object::lemma_find_key_same_keys(a, b, nh.instance@, 0);
    lemma_find_key(a, nh.instance@, 0);
    match key_at(a, nh.instance@) {
        None => {
        },
        Some(i) => {
            assert(a[i].1.interfaces == b[i].1.interfaces);
        },
    }
}

/// Next-hop list resolution reads only instance names and interfaces.
pub proof fn lemma_resolve_next_hops_same(
    a: Seq<(String, InstanceRuntime)>,
    b: Seq<(String, InstanceRuntime)>,
    nhs: Seq<NextHop>,
)
    requires
        same_interfaces(a, b),
    ensures
        resolve_next_hops(a, nhs) == resolve_next_hops(b, nhs),
    decreases nhs.len(),
{
    if nhs.len() > 0 {
        lemma_resolve_next_hops_same(a, b, nhs.drop_last());
        lemma_next_hop_of_same(a, b, nhs.last());
    }
}

/// Route resolution reads only instance names and interfaces.
pub proof fn lemma_resolve_routes_spec_same(
    cfg_insts: Seq<(String, InstanceConfig)>,
    nets: Seq<(String, NetworkRuntime)>,
    a: Seq<(String, InstanceRuntime)>,
    b: Seq<(String, InstanceRuntime)>,
    routes: Seq<Route>,
)
    requires
        same_interfaces(a, b),
    ensures
        resolve_routes_spec(cfg_insts, nets, a, routes) == resolve_routes_spec(
            cfg_insts,
            nets,
            b,
            routes,
        ),
    decreases routes.len(),
{
    if routes.len() > 0 {
        lemma_resolve_routes_spec_same(cfg_insts, nets, a, b, routes.drop_last());
        lemma_resolve_next_hops_same(a, b, routes.last().next_hops@);
    }
}

/// Resolve one next-hop reference against the resolved instances.
fn resolve_one_next_hop(instances: &Vec<(String, InstanceRuntime)>, nh: &NextHop) -> (r: Option<
    NextHopRuntime,
>)
    ensures
        r == next_hop_of(instances@, *nh),
{
    proof {
        lemma_find_key(instances@, nh.instance@, 0);
    }
    match find_index(instances, nh.instance.as_str()) {
        None => None,
        Some(i) => {
            let inst = &instances[i];
            proof {
                lemma_find_key(inst.1.interfaces@, nh.interface@, 0);
            }
            match find_index(&inst.1.interfaces, nh.interface.as_str()) {
                None => None,
                Some(j) => {
                    let ifr = &inst.1.interfaces[j].1;
                    match ifr.address {
                        None => None,
                        Some((ip, _)) => Some(
                            NextHopRuntime {
                                instance: nh.instance.clone(),
                                interface: nh.interface.clone(),
                                mac_address: ifr.mac_address.clone(),
                                ip_address: ip,
                                tap_mac: None,
                            },
                        ),
                    }
                },
            }
        },
    }
}

/// Resolve one declared route: its destination subnet and all resolvable
/// next hops.
#[verifier::loop_isolation(false)]
fn resolve_route(
    config: &Config,
    networks: &Vec<(String, NetworkRuntime)>,
    instances: &Vec<(String, InstanceRuntime)>,
    route: &Route,
) -> (r: Option<RouteRuntime>)
    ensures
        match dest_subnet_of(config.instances@, networks@, route.destination) {
            None => r is None,
            Some(s) => r matches Some(rr) && rr.destination == s && rr.next_hops@
                == resolve_next_hops(instances@, route.next_hops@),
        },
{
    let d = &route.destination;
    proof {
        lemma_find_key(config.instances@, d.instance@, 0);
    }
    let dest: Option<Subnet> = match find_index(&config.instances, d.instance.as_str()) {
        None => None,
        Some(i) => {
            let inst = &config.instances[i];
            proof {
                lemma_find_key(inst.1.interfaces@, d.interface@, 0);
            }
            match find_index(&inst.1.interfaces, d.interface.as_str()) {
                None => None,
                Some(j) => unmanaged_subnet(networks, inst.1.interfaces[j].1.network.as_str()),
            }
        },
    };
    match dest {
        None => None,
        Some(s) => {
            let mut hops: Vec<NextHopRuntime> = Vec::new();
            let mut t: usize = 0;
            while t < route.next_hops.len()
                invariant
                    t <= route.next_hops@.len(),
                    hops@ == resolve_next_hops(instances@, route.next_hops@.take(t as int)),
                decreases route.next_hops@.len() - t,
            {
                match resolve_one_next_hop(instances, &route.next_hops[t]) {
                    None => {
                    },
                    Some(h) => {
                        hops.push(h);
                    },
                }
                proof {
                    assert(route.next_hops@.take(t + 1).drop_last() =~= route.next_hops@.take(
                        t as int,
                    ));
                    assert(route.next_hops@.take(t + 1).last() == route.next_hops@[t as int]);
                }
                t = t + 1;
            }
            proof {
                assert(route.next_hops@.take(route.next_hops@.len() as int) =~= route.next_hops@);
            }
            Some(RouteRuntime { destination: s, next_hops: hops })
        },
    }
}

/// The fields of a resolved instance the route-resolution pass leaves alone.
pub open spec fn only_routes_changed(pre: InstanceRuntime, post: InstanceRuntime) -> bool {
    &&& post.vcpu == pre.vcpu
    &&& post.memory == pre.memory
    &&& post.image == pre.image
    &&& post.interfaces == pre.interfaces
    &&& post.route_tables == pre.route_tables
}

/// Everything the instance-route pass promises, per instance: only the routes
/// change, and they are exactly the resolution of the declared routes against
/// the pass-one snapshot.
pub open spec fn routes_configure_post(
    cfg: Config,
    nets: Seq<(String, NetworkRuntime)>,
    pre: Seq<(String, InstanceRuntime)>,
    post: Seq<(String, InstanceRuntime)>,
) -> bool {
    &&& post.len() == pre.len()
    &&& forall|k: int|
        0 <= k < pre.len() ==> {
            &&& (#[trigger] post[k]).0 == pre[k].0
            &&& only_routes_changed(pre[k].1, post[k].1)
            &&& match cfg.instances@[k].1.routes {
                None => post[k].1.routes is None,
                Some(rv) => post[k].1.routes matches Some(res) && routes_model(res@)
                    == resolve_routes_spec(cfg.instances@, nets, pre, rv@),
            }
        }
}

impl RouteRuntime {
    /// Route resolution for instance-declared routes, the second pass: every
    /// declared route is resolved against the interfaces computed in pass
    /// one.  Dangling references degrade (destination: the route is omitted;
    /// next hop: the hop is omitted); nothing here fails.
    #[verifier::loop_isolation(false)]
    pub fn configure(
        config: &Config,
        networks: &Vec<(String, NetworkRuntime)>,
        instances: &mut Vec<(String, InstanceRuntime)>,
    )
        requires
            old(instances)@.len() == config.instances@.len(),
            forall|k: int|
                0 <= k < config.instances@.len() ==> (#[trigger] old(instances)@[k]).1.routes
                    is None,
        ensures
            routes_configure_post(*config, networks@, old(instances)@, final(instances)@),
    {
        let ghost pre = instances@;
        let mut computed: Vec<Option<Vec<RouteRuntime>>> = Vec::new();
        let mut k: usize = 0;
        while k < config.instances.len()
            invariant
                k <= config.instances@.len(),
                instances@ == pre,
                computed@.len() == k,
                forall|m: int|
                    0 <= m < k ==> match config.instances@[m].1.routes {
                        None => (#[trigger] computed@[m]) is None,
                        Some(rv) => computed@[m] matches Some(v) && routes_model(v@)
                            == resolve_routes_spec(config.instances@, networks@, pre, rv@),
                    },
            decreases config.instances@.len() - k,
        {
            let resolved: Option<Vec<RouteRuntime>> = match &config.instances[k].1.routes {
                None => None,
                Some(routes) => {
                    let mut out: Vec<RouteRuntime> = Vec::new();
                    let mut t: usize = 0;
                    while t < routes.len()
                        invariant
                            t <= routes@.len(),
                            routes_model(out@) == resolve_routes_spec(
                                config.instances@,
                                networks@,
                                pre,
                                routes@.take(t as int),
                            ),
                        decreases routes@.len() - t,
                    {
                        match resolve_route(config, networks, instances, &routes[t]) {
                            None => {
                            },
                            Some(rr) => {
                                out.push(rr);
                                proof {
                                    assert(routes_model(out@) =~= routes_model(
                                        out@.drop_last(),
                                    ).push(route_model(out@.last())));
                                }
                            },
                        }
                        proof {
                            assert(routes@.take(t + 1).drop_last() =~= routes@.take(t as int));
                            assert(routes@.take(t + 1).last() == routes@[t as int]);
                        }
                        t = t + 1;
                    }
                    proof {
                        assert(routes@.take(routes@.len() as int) =~= routes@);
                    }
                    Some(out)
                },
            };
            computed.push(resolved);
            k = k + 1;
        }
        let ghost computed0 = computed@;
        let mut k: usize = 0;
        while k < instances.len()
            invariant
                k <= pre.len(),
                instances@.len() == pre.len(),
                computed@ == computed0.skip(k as int),
                computed0.len() == pre.len(),
                forall|m: int| k <= m < pre.len() ==> (#[trigger] instances@[m]) == pre[m],
                forall|m: int|
                    0 <= m < k ==> {
                        &&& (#[trigger] instances@[m]).0 == pre[m].0
                        &&& only_routes_changed(pre[m].1, instances@[m].1)
                        &&& instances@[m].1.routes == computed0[m]
                    },
            decreases pre.len() - k,
        {
            let r = computed.remove(0);
            let e = &mut instances[k];
            e.1.routes = r;
            proof {
                assert(computed@ =~= computed0.skip(k + 1));
            }
            k = k + 1;
        }
    }
}

} // verus!
