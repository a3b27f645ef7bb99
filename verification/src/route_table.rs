use vstd::prelude::*;
use crate::Subnet;
use crate::config::Config;
use crate::instance::InstanceRuntime;
use crate::network::{unmanaged_subnet, unmanaged_subnet_of, NetworkRuntime};
use crate::object::{key_at, find_index, lemma_find_key};

verus! {

/// A declared route table: a routing policy scoped to one instance, mapping a
/// destination network name to an ordered list of next-hop interface
/// references.
pub struct RouteTableConfig {
    pub routes: Vec<(String, Vec<InstanceInterface>)>,
    pub instance: String,
}

/// Reference to an instance's interface, as used by route-table next hops.
pub struct InstanceInterface {
    pub instance: String,
    pub interface: String,
}

impl RouteTableConfig {
    pub fn new(instance: &str, routes: Vec<(String, Vec<InstanceInterface>)>) -> (r:
        RouteTableConfig)
        ensures
            r.instance@ == instance@,
            r.routes == routes,
    {
        RouteTableConfig { instance: instance.to_owned(), routes }
    }
}

/// A resolved route table: each destination subnet mapped to the IPv4
/// addresses of the next hops that could be resolved for it.
pub struct RouteTableRuntime {
    pub routes: Vec<(Subnet, Vec<u32>)>,
}

/// Mathematical image of resolved table entries: hop lists as sequences.
pub open spec fn entries_model(s: Seq<(Subnet, Vec<u32>)>) -> Seq<(Subnet, Seq<u32>)> {
    s.map_values(|p: (Subnet, Vec<u32>)| (p.0, p.1@))
}

/// First index at or after `i` keyed by the given subnet.
pub open spec fn subnet_key_at(s: Seq<(Subnet, Seq<u32>)>, key: Subnet, i: int) -> Option<int>
    decreases s.len() - i,
{
    if i < 0 || i >= s.len() {
        None
    } else if s[i].0 == key {
        Some(i)
    } else {
        subnet_key_at(s, key, i + 1)
    }
}

/// Record one next-hop address under a destination subnet: append to the
/// subnet's existing hop list, or open a new entry at the end.
pub open spec fn add_hop(s: Seq<(Subnet, Seq<u32>)>, key: Subnet, ip: u32) -> Seq<
    (Subnet, Seq<u32>),
> {
    match subnet_key_at(s, key, 0) {
        Some(i) => s.update(i, (key, s[i].1.push(ip))),
        None => s.push((key, seq![ip])),
    }
}

/// The address a route-table next hop stands for, read from the resolved
/// instances; nothing when the reference dangles or the interface carries no
/// address.
pub open spec fn hop_address(rts: Seq<(String, InstanceRuntime)>, h: InstanceInterface) -> Option<
    u32,
> {
    match key_at(rts, h.instance@) {
        None => None,
        Some(i) => match key_at(rts[i].1.interfaces@, h.interface@) {
            None => None,
            Some(j) => match rts[i].1.interfaces@[j].1.address {
                None => None,
                Some(ap) => Some(ap.0),
            },
        },
    }
}

/// Record all resolvable hops of one destination, in declaration order.
pub open spec fn table_add_hops(
    acc: Seq<(Subnet, Seq<u32>)>,
    dest: Subnet,
    rts: Seq<(String, InstanceRuntime)>,
    hops: Seq<InstanceInterface>,
) -> Seq<(Subnet, Seq<u32>)>
    decreases hops.len(),
{
    if hops.len() == 0 {
        acc
    } else {
        let prev = table_add_hops(acc, dest, rts, hops.drop_last());
        match hop_address(rts, hops.last()) {
            None => prev,
            Some(ip) => add_hop(prev, dest, ip),
        }
    }
}

/// Resolve a declared route table: walk its destination entries in order,
/// skip every destination that is not an unmanaged network, and record the
/// resolvable next hops under the destination's subnet.
pub open spec fn resolve_table_spec(
    nets: Seq<(String, NetworkRuntime)>,
    rts: Seq<(String, InstanceRuntime)>,
    routes: Seq<(String, Vec<InstanceInterface>)>,
) -> Seq<(Subnet, Seq<u32>)>
    decreases routes.len(),
{
    if routes.len() == 0 {
        Seq::empty()
    } else {
        let prev = resolve_table_spec(nets, rts, routes.drop_last());
        match unmanaged_subnet_of(nets, routes.last().0@) {
            None => prev,
            Some(s) => table_add_hops(prev, s, rts, routes.last().1@),
        }
    }
}

/// A route-table entry whose destination network is managed or undeclared
/// contributes no resolved entry: the table resolves exactly as if the entry
/// were not declared.
pub proof fn lemma_no_entry_for_managed_destination(
    nets: Seq<(String, NetworkRuntime)>,
    rts: Seq<(String, InstanceRuntime)>,
    routes: Seq<(String, Vec<InstanceInterface>)>,
    i: int,
)
    requires
        0 <= i < routes.len(),
        unmanaged_subnet_of(nets, routes[i].0@) is None,
    ensures
        resolve_table_spec(nets, rts, routes) == resolve_table_spec(nets, rts, routes.remove(i)),
    decreases routes.len(),
{
    if i == routes.len() - 1 {
        assert(routes.remove(i) =~= routes.drop_last());
    } else {
        assert(routes.remove(i).drop_last() =~= routes.drop_last().remove(i));
        assert(routes.remove(i).last() == routes.last());
        lemma_no_entry_for_managed_destination(nets, rts, routes.drop_last(), i);
    }
}

/// Append one next-hop address under a destination subnet in a resolved
/// table under construction.
#[verifier::loop_isolation(false)]
fn push_hop(routes: &mut Vec<(Subnet, Vec<u32>)>, dest: Subnet, ip: u32)
    ensures
        entries_model(final(routes)@) == add_hop(entries_model(old(routes)@), dest, ip),
{
    let ghost pre = entries_model(routes@);
    let mut i: usize = 0;
    while i < routes.len()
        invariant
            i <= routes@.len(),
            routes@ == old(routes)@,
            subnet_key_at(pre, dest, 0) == subnet_key_at(pre, dest, i as int),
        decreases routes@.len() - i,
    {
        if routes[i].0 == dest {
            let e = &mut routes[i];
            e.1.push(ip);
            proof {
                assert(entries_model(routes@) =~= pre.update(
                    i as int,
                    (dest, pre[i as int].1.push(ip)),
                ));
            }
            return ;
        }
        i = i + 1;
    }
    let mut hops: Vec<u32> = Vec::new();
    hops.push(ip);
    routes.push((dest, hops));
    proof {
        assert(entries_model(routes@) =~= pre.push((dest, seq![ip])));
    }
}

/// Resolve one route-table next hop against the resolved instances.
fn hop_address_exec(instances: &Vec<(String, InstanceRuntime)>, h: &InstanceInterface) -> (r:
    Option<u32>)
    ensures
        r == hop_address(instances@, *h),
{
    proof {
        lemma_find_key(instances@, h.instance@, 0);
    }
    match find_index(instances, h.instance.as_str()) {
        None => None,
        Some(i) => {
            let inst = &instances[i];
            proof {
                lemma_find_key(inst.1.interfaces@, h.interface@, 0);
            }
            match find_index(&inst.1.interfaces, h.interface.as_str()) {
                None => None,
                Some(j) => match inst.1.interfaces[j].1.address {
                    None => None,
                    Some((ip, _)) => Some(ip),
                },
            }
        },
    }
}

/// Resolve one declared route table against the resolved instances.
#[verifier::loop_isolation(false)]
fn resolve_table(
    networks: &Vec<(String, NetworkRuntime)>,
    instances: &Vec<(String, InstanceRuntime)>,
    table: &RouteTableConfig,
) -> (r: RouteTableRuntime)
    ensures
        entries_model(r.routes@) == resolve_table_spec(networks@, instances@, table.routes@),
{
    let mut routes: Vec<(Subnet, Vec<u32>)> = Vec::new();
    let mut t: usize = 0;
    while t < table.routes.len()
        invariant
            t <= table.routes@.len(),
            entries_model(routes@) == resolve_table_spec(
                networks@,
                instances@,
                table.routes@.take(t as int),
            ),
        decreases table.routes@.len() - t,
    {
        let entry = &table.routes[t];
        match unmanaged_subnet(networks, entry.0.as_str()) {
            None => {
            },
            Some(s) => {
                let ghost acc0 = entries_model(routes@);
                let mut h: usize = 0;
                while h < entry.1.len()
                    invariant
                        h <= entry.1@.len(),
                        entries_model(routes@) == table_add_hops(
                            acc0,
                            s,
                            instances@,
                            entry.1@.take(h as int),
                        ),
                    decreases entry.1@.len() - h,
                {
                    match hop_address_exec(instances, &entry.1[h]) {
                        None => {
                        },
                        Some(ip) => {
                            push_hop(&mut routes, s, ip);
                        },
                    }
                    proof {
                        assert(entry.1@.take(h + 1).drop_last() =~= entry.1@.take(h as int));
                        assert(entry.1@.take(h + 1).last() == entry.1@[h as int]);
                    }
                    h = h + 1;
                }
                proof {
                    assert(entry.1@.take(entry.1@.len() as int) =~= entry.1@);
                }
            },
        }
        proof {
            assert(table.routes@.take(t + 1).drop_last() =~= table.routes@.take(t as int));
            assert(table.routes@.take(t + 1).last() == table.routes@[t as int]);
        }
        t = t + 1;
    }
    proof {
        assert(table.routes@.take(table.routes@.len() as int) =~= table.routes@);
    }
    RouteTableRuntime { routes }
}

/// Mathematical image of an instance's resolved route tables.
pub open spec fn tables_model(s: Seq<(String, RouteTableRuntime)>) -> Seq<
    (String, Seq<(Subnet, Seq<u32>)>),
> {
    s.map_values(|p: (String, RouteTableRuntime)| (p.0, entries_model(p.1.routes@)))
}

/// The route tables instance `k` ends up with: every declared table whose
/// owning-instance name resolves to `k`, in declaration order, kept only when
/// it resolved to at least one entry.
pub open spec fn tables_for_spec(
    cfg_tables: Seq<(String, RouteTableConfig)>,
    nets: Seq<(String, NetworkRuntime)>,
    rts: Seq<(String, InstanceRuntime)>,
    k: int,
) -> Seq<(String, Seq<(Subnet, Seq<u32>)>)>
    decreases cfg_tables.len(),
{
    if cfg_tables.len() == 0 {
        Seq::empty()
    } else {
        let prev = tables_for_spec(cfg_tables.drop_last(), nets, rts, k);
        let t = cfg_tables.last();
        if key_at(rts, t.1.instance@) == Some(k) {
            let resolved = resolve_table_spec(nets, rts, t.1.routes@);
            if resolved.len() > 0 {
                prev.push((t.0, resolved))
            } else {
                prev
            }
        } else {
            prev
        }
    }
}

/// Route-table hop resolution reads only instance names and interfaces.
pub proof fn lemma_hop_address_same(
    a: Seq<(String, InstanceRuntime)>,
    b: Seq<(String, InstanceRuntime)>,
    h: InstanceInterface,
)
    requires
        crate::instance::same_interfaces(a, b),
    ensures
        hop_address(a, h) == hop_address(b, h),
{
    crate::object::lemma_find_key_same_keys(a, b, h.instance@, 0);
    lemma_find_key(a, h.instance@, 0);
    match key_at(a, h.instance@) {
        None => {
        },
        Some(i) => {
            assert(a[i].1.interfaces == b[i].1.interfaces);
        },
    }
}

/// Hop recording reads only instance names and interfaces.
pub proof fn lemma_table_add_hops_same(
    acc: Seq<(Subnet, Seq<u32>)>,
    dest: Subnet,
    a: Seq<(String, InstanceRuntime)>,
    b: Seq<(String, InstanceRuntime)>,
    hops: Seq<InstanceInterface>,
)
    requires
        crate::instance::same_interfaces(a, b),
    ensures
        table_add_hops(acc, dest, a, hops) == table_add_hops(acc, dest, b, hops),
    decreases hops.len(),
{
    if hops.len() > 0 {
        lemma_table_add_hops_same(acc, dest, a, b, hops.drop_last());
        lemma_hop_address_same(a, b, hops.last());
    }
}

/// Route-table resolution reads only instance names and interfaces.
pub proof fn lemma_resolve_table_spec_same(
    nets: Seq<(String, NetworkRuntime)>,
    a: Seq<(String, InstanceRuntime)>,
    b: Seq<(String, InstanceRuntime)>,
    routes: Seq<(String, Vec<InstanceInterface>)>,
)
    requires
        crate::instance::same_interfaces(a, b),
    ensures
        resolve_table_spec(nets, a, routes) == resolve_table_spec(nets, b, routes),
    decreases routes.len(),
{
    if routes.len() > 0 {
        lemma_resolve_table_spec_same(nets, a, b, routes.drop_last());
        match unmanaged_subnet_of(nets, routes.last().0@) {
            None => {
            },
            Some(s) => {
                lemma_table_add_hops_same(
                    resolve_table_spec(nets, a, routes.drop_last()),
                    s,
                    a,
                    b,
                    routes.last().1@,
                );
            },
        }
    }
}

/// Route-table assignment reads only instance names and interfaces.
pub proof fn lemma_tables_for_spec_same(
    cfg_tables: Seq<(String, RouteTableConfig)>,
    nets: Seq<(String, NetworkRuntime)>,
    a: Seq<(String, InstanceRuntime)>,
    b: Seq<(String, InstanceRuntime)>,
    k: int,
)
    requires
        crate::instance::same_interfaces(a, b),
    ensures
        tables_for_spec(cfg_tables, nets, a, k) == tables_for_spec(cfg_tables, nets, b, k),
    decreases cfg_tables.len(),
{
    if cfg_tables.len() > 0 {
        lemma_tables_for_spec_same(cfg_tables.drop_last(), nets, a, b, k);
        crate::object::lemma_find_key_same_keys(a, b, cfg_tables.last().1.instance@, 0);
        lemma_resolve_table_spec_same(nets, a, b, cfg_tables.last().1.routes@);
    }
}

/// The fields of a resolved instance the route-table pass leaves alone.
pub open spec fn only_tables_changed(pre: InstanceRuntime, post: InstanceRuntime) -> bool {
    &&& post.vcpu == pre.vcpu
    &&& post.memory == pre.memory
    &&& post.image == pre.image
    &&& post.interfaces == pre.interfaces
    &&& post.routes == pre.routes
}

/// Everything the route-table pass promises, per instance: only the route
/// tables change, and they are exactly the tables the declared graph assigns
/// to that instance.
pub open spec fn tables_configure_post(
    cfg: Config,
    nets: Seq<(String, NetworkRuntime)>,
    pre: Seq<(String, InstanceRuntime)>,
    post: Seq<(String, InstanceRuntime)>,
) -> bool {
    &&& post.len() == pre.len()
    &&& forall|k: int|
        0 <= k < pre.len() ==> {
            &&& (#[trigger] post[k]).0 == pre[k].0
            &&& only_tables_changed(pre[k].1, post[k].1)
            &&& tables_model(post[k].1.route_tables@) == tables_for_spec(
                cfg.route_tables@,
                nets,
                pre,
                k,
            )
        }
}

impl RouteTableRuntime {
    /// Route resolution for declared route tables, the second pass: each
    /// table is resolved against the interfaces computed in pass one and
    /// attached to the instance it is scoped to.  Dangling references degrade
    /// (unknown owning instance: the table is dropped; non-unmanaged
    /// destination: the entry is skipped; unresolvable next hop: the hop is
    /// skipped; empty result: the table is not attached); nothing here fails.
    #[verifier::loop_isolation(false)]
    pub fn configure(
        config: &Config,
        networks: &Vec<(String, NetworkRuntime)>,
        instances: &mut Vec<(String, InstanceRuntime)>,
    )
        requires
            forall|k: int|
                0 <= k < old(instances)@.len() ==> (#[trigger] old(instances)@[k]).1.route_tables@
                    == Seq::<(String, RouteTableRuntime)>::empty(),
        ensures
            tables_configure_post(*config, networks@, old(instances)@, final(instances)@),
    {
        let ghost pre = instances@;
        let mut acc: Vec<Vec<(String, RouteTableRuntime)>> = Vec::new();
        let mut k: usize = 0;
        while k < instances.len()
            invariant
                instances@ == pre,
                k <= pre.len(),
                acc@.len() == k,
                forall|m: int| 0 <= m < k ==> (#[trigger] acc@[m])@ == Seq::<
                    (String, RouteTableRuntime),
                >::empty(),
            decreases pre.len() - k,
        {
            acc.push(Vec::new());
            k = k + 1;
        }
        let mut t: usize = 0;
        while t < config.route_tables.len()
            invariant
                instances@ == pre,
                t <= config.route_tables@.len(),
                acc@.len() == pre.len(),
                forall|m: int|
                    0 <= m < pre.len() ==> tables_model((#[trigger] acc@[m])@) == tables_for_spec(
                        config.route_tables@.take(t as int),
                        networks@,
                        pre,
                        m,
                    ),
            decreases config.route_tables@.len() - t,
        {
            let tbl = &config.route_tables[t];
            proof {
                lemma_find_key(instances@, tbl.1.instance@, 0);
            }
            let found = find_index(instances, tbl.1.instance.as_str());
            match found {
                None => {
                },
                Some(i) => {
                    let resolved = resolve_table(networks, instances, &tbl.1);
                    if resolved.routes.len() > 0 {
                        let ghost accpre = acc@;
                        let e = &mut acc[i];
                        e.push((tbl.0.clone(), resolved));
                        proof {
                            assert(tables_model(acc@[i as int]@) =~= tables_model(
                                accpre[i as int]@,
                            ).push((tbl.0, entries_model(resolved.routes@))));
                        }
                    }
                },
            }
            proof {
                let tabs = config.route_tables@;
                assert(tabs.take(t + 1).drop_last() =~= tabs.take(t as int));
                assert(tabs.take(t + 1).last() == tabs[t as int]);
                assert forall|m: int| 0 <= m < pre.len() implies tables_model(
                    (#[trigger] acc@[m])@,
                ) == tables_for_spec(tabs.take(t + 1), networks@, pre, m) by {
                    assert(tables_for_spec(tabs.take(t + 1), networks@, pre, m) == {
                        let prev = tables_for_spec(tabs.take(t as int), networks@, pre, m);
                        if key_at(pre, tabs[t as int].1.instance@) == Some(m) {
                            let resolved = resolve_table_spec(
                                networks@,
                                pre,
                                tabs[t as int].1.routes@,
                            );
                            if resolved.len() > 0 {
                                prev.push((tabs[t as int].0, resolved))
                            } else {
                                prev
                            }
                        } else {
                            prev
                        }
                    });
                }
            }
            t = t + 1;
        }
        proof {
            assert(config.route_tables@.take(config.route_tables@.len() as int)
                =~= config.route_tables@);
        }
        let ghost acc0 = acc@;
        let mut k: usize = 0;
        while k < instances.len()
            invariant
                k <= pre.len(),
                instances@.len() == pre.len(),
                acc@ == acc0.skip(k as int),
                acc0.len() == pre.len(),
                forall|m: int| k <= m < pre.len() ==> (#[trigger] instances@[m]) == pre[m],
                forall|m: int|
                    0 <= m < k ==> {
                        &&& (#[trigger] instances@[m]).0 == pre[m].0
                        &&& only_tables_changed(pre[m].1, instances@[m].1)
                        &&& instances@[m].1.route_tables@ == acc0[m]@
                    },
            decreases pre.len() - k,
        {
            let v = acc.remove(0);
            let e = &mut instances[k];
            e.1.route_tables = v;
            proof {
                assert(acc@ =~= acc0.skip(k + 1));
            }
            k = k + 1;
        }
    }
}

} // verus!
