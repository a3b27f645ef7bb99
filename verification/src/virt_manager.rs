use vstd::prelude::*;
use crate::instance::{
    only_routes_changed, InstanceRuntime, NextHopRuntime, RouteModel, RouteRuntime,
};
use crate::mac::{format_mac, mac_chars};
use crate::object::{find_index, key_at, lemma_find_key};

verus! {

/// Split a backend-reported hypervisor version number into its major, minor
/// and release parts.
pub fn hv_version_parts(version: u64) -> (r: (u64, u64, u64))
    ensures
        r.0 == version / 1_000_000,
        r.1 == (version % 1_000_000) / 1000,
        r.2 == version % 1000,
{
    let major = version / 1_000_000;
    let rest = version % 1_000_000;
    (major, rest / 1000, rest % 1000)
}

/// What this system reads from one backend-reported link attribute: the MTU
/// marker, the link's hardware address, or something it ignores.  The
/// unverified driver converts each netlink attribute into one of these.
pub enum LinkAttribute {
    Mtu(u32),
    Address(Vec<u8>),
    Other,
}

/// Whether some attribute reports the MTU.
pub open spec fn has_mtu(attrs: Seq<LinkAttribute>) -> bool {
    exists|i: int| 0 <= i < attrs.len() && (#[trigger] attrs[i]) matches LinkAttribute::Mtu(_)
}

/// The first six-octet hardware address among the attributes, if any.
pub open spec fn first_mac_octets(attrs: Seq<LinkAttribute>, i: int) -> Option<Seq<u8>>
    decreases attrs.len() - i,
{
    if i < 0 || i >= attrs.len() {
        None
    } else {
        match attrs[i] {
            LinkAttribute::Address(b) => if b@.len() == 6 {
                Some(b@)
            } else {
                first_mac_octets(attrs, i + 1)
            },
            _ => first_mac_octets(attrs, i + 1),
        }
    }
}

/// What one poll of a backend link yielded: whether the link reported an MTU
/// (so the driver must set the configured one), and the link's discovered
/// tap MAC, rendered as lowercase colon-separated hex.
pub struct LinkDiscovery {
    pub mtu_present: bool,
    pub tap_mac_address: Option<String>,
}

/// Decide what a polled link's attributes yield: the MTU marker and the first
/// six-octet hardware address, rendered as a MAC string.  The poll loop of
/// the convergence engine repeats until both have been observed.
#[verifier::loop_isolation(false)]
pub fn discover_link(attrs: &Vec<LinkAttribute>) -> (r: LinkDiscovery)
    ensures
        r.mtu_present == has_mtu(attrs@),
        match first_mac_octets(attrs@, 0) {
            None => r.tap_mac_address is None,
            Some(b) => r.tap_mac_address matches Some(s) && s@ == mac_chars(b),
        },
{
    let mut mtu_present = false;
    let mut tap_mac_address: Option<String> = None;
    let mut i: usize = 0;
    while i < attrs.len()
        invariant
            i <= attrs@.len(),
            mtu_present == has_mtu(attrs@.take(i as int)),
            match first_mac_octets(attrs@, 0) {
                None => tap_mac_address is None && first_mac_octets(attrs@, i as int)
                    == first_mac_octets(attrs@, 0),
                Some(b) => (tap_mac_address matches Some(s) && s@ == mac_chars(b))
                    || (tap_mac_address is None && first_mac_octets(attrs@, i as int)
                    == first_mac_octets(attrs@, 0)),
            },
        decreases attrs@.len() - i,
    {
        match &attrs[i] {
            LinkAttribute::Mtu(_) => {
                mtu_present = true;
            },
            LinkAttribute::Address(bytes) => {
                if bytes.len() == 6 && tap_mac_address.is_none() {
                    let octets: [u8; 6] = [
                        bytes[0],
                        bytes[1],
                        bytes[2],
                        bytes[3],
                        bytes[4],
                        bytes[5],
                    ];
                    proof {
                        assert(octets@ =~= bytes@);
                    }
                    tap_mac_address = Some(format_mac(&octets));
                }
            },
            LinkAttribute::Other => {
            },
        }
        proof {
            assert(attrs@.take(i + 1).drop_last() =~= attrs@.take(i as int));
            assert(attrs@.take(i + 1).last() == attrs@[i as int]);
            if mtu_present != has_mtu(attrs@.take(i + 1)) {
                assert(has_mtu(attrs@.take(i + 1)) ==> has_mtu(attrs@.take(i as int))
                    || attrs@[i as int] matches LinkAttribute::Mtu(_));
                assert(false);
            }
        }
        i = i + 1;
    }
    proof {
        assert(attrs@.take(attrs@.len() as int) =~= attrs@);
    }
    LinkDiscovery { mtu_present, tap_mac_address }
}

/// Whether every interface of an instance that needs link discovery (every
/// one not on a managed network) has had its tap MAC discovered: the exit
/// condition of the convergence engine's per-instance poll loop.
pub open spec fn links_discovered(inst: InstanceRuntime) -> bool {
    forall|j: int|
        0 <= j < inst.interfaces.len() ==> ((#[trigger] inst.interfaces[j]).1.managed is None
            ==> inst.interfaces[j].1.tap_mac_address is Some)
}

pub fn all_links_discovered(instance: &InstanceRuntime) -> (r: bool)
    ensures
        r == links_discovered(*instance),
{
    let mut j: usize = 0;
    while j < instance.interfaces.len()
        invariant
            j <= instance.interfaces@.len(),
            forall|m: int|
                0 <= m < j ==> ((#[trigger] instance.interfaces[m]).1.managed is None
                    ==> instance.interfaces[m].1.tap_mac_address is Some),
        decreases instance.interfaces@.len() - j,
    {
        let ifc = &instance.interfaces[j];
        if ifc.1.managed.is_none() && ifc.1.tap_mac_address.is_none() {
            return false;
        }
        j = j + 1;
    }
    true
}

/// What the back-fill pass makes of one next hop: the tap MAC discovered on
/// the interface it references, or the hop unchanged when the reference does
/// not resolve.
pub open spec fn backfilled_hop(
    pre: Seq<(String, InstanceRuntime)>,
    h: NextHopRuntime,
) -> NextHopRuntime {
    match key_at(pre, h.instance@) {
        None => h,
        Some(i) => match key_at(pre[i].1.interfaces@, h.interface@) {
            None => h,
            Some(j) => NextHopRuntime {
                instance: h.instance,
                interface: h.interface,
                mac_address: h.mac_address,
                ip_address: h.ip_address,
                tap_mac: pre[i].1.interfaces@[j].1.tap_mac_address,
            },
        },
    }
}

pub open spec fn backfill_hops(
    pre: Seq<(String, InstanceRuntime)>,
    hs: Seq<NextHopRuntime>,
) -> Seq<NextHopRuntime> {
    hs.map_values(|h: NextHopRuntime| backfilled_hop(pre, h))
}

/// What the back-fill pass makes of an instance's resolved routes.
pub open spec fn backfill_routes(
    pre: Seq<(String, InstanceRuntime)>,
    rs: Seq<RouteRuntime>,
) -> Seq<RouteModel> {
    rs.map_values(
        |r: RouteRuntime| RouteModel {
            destination: r.destination,
            next_hops: backfill_hops(pre, r.next_hops@),
        },
    )
}

/// Everything the back-fill pass promises, per instance: only the routes
/// change, and every next hop of every route carries the tap MAC discovered
/// on the interface it references.
pub open spec fn backfill_post(
    pre: Seq<(String, InstanceRuntime)>,
    post: Seq<(String, InstanceRuntime)>,
) -> bool {
    &&& post.len() == pre.len()
    &&& forall|k: int|
        0 <= k < pre.len() ==> {
            &&& (#[trigger] post[k]).0 == pre[k].0
            &&& only_routes_changed(pre[k].1, post[k].1)
            &&& match pre[k].1.routes {
                None => post[k].1.routes is None,
                Some(rv) => post[k].1.routes matches Some(res) && crate::instance::routes_model(
                    res@,
                ) == backfill_routes(pre, rv@),
            }
        }
}

/// Rebuild one next hop with the tap MAC of the interface it references.
fn backfill_one_hop(instances: &Vec<(String, InstanceRuntime)>, h: &NextHopRuntime) -> (r:
    NextHopRuntime)
    ensures
        r == backfilled_hop(instances@, *h),
{
    proof {
        lemma_find_key(instances@, h.instance@, 0);
    }
    let tap: Option<String> = match find_index(instances, h.instance.as_str()) {
        None => match &h.tap_mac {
            None => None,
            Some(s) => Some(s.clone()),
        },
        Some(i) => {
            let inst = &instances[i];
            proof {
                lemma_find_key(inst.1.interfaces@, h.interface@, 0);
            }
            match find_index(&inst.1.interfaces, h.interface.as_str()) {
                None => match &h.tap_mac {
                    None => None,
                    Some(s) => Some(s.clone()),
                },
                Some(j) => match &inst.1.interfaces[j].1.tap_mac_address {
                    None => None,
                    Some(s) => Some(s.clone()),
                },
            }
        },
    };
    NextHopRuntime {
        instance: h.instance.clone(),
        interface: h.interface.clone(),
        mac_address: h.mac_address.clone(),
        ip_address: h.ip_address,
        tap_mac: tap,
    }
}

/// The global back-fill barrier of the convergence engine: after every
/// interface of every instance has been attached and its link discovered,
/// copy each discovered tap MAC onto every next hop that references its
/// interface.  Runs system-wide because next hops may reference any instance.
#[verifier::loop_isolation(false)]
pub fn backfill_tap_macs(instances: &mut Vec<(String, InstanceRuntime)>)
    ensures
        backfill_post(old(instances)@, final(instances)@),
{
    let ghost pre = instances@;
    let mut computed: Vec<Option<Vec<RouteRuntime>>> = Vec::new();
    let mut k: usize = 0;
    while k < instances.len()
        invariant
            k <= pre.len(),
            instances@ == pre,
            computed@.len() == k,
            forall|m: int|
                0 <= m < k ==> match pre[m].1.routes {
                    None => (#[trigger] computed@[m]) is None,
                    Some(rv) => computed@[m] matches Some(v) && crate::instance::routes_model(v@)
                        == backfill_routes(pre, rv@),
                },
        decreases pre.len() - k,
    {
        let resolved: Option<Vec<RouteRuntime>> = match &instances[k].1.routes {
            None => None,
            Some(routes) => {
                let mut out: Vec<RouteRuntime> = Vec::new();
                let mut t: usize = 0;
                while t < routes.len()
                    invariant
                        t <= routes@.len(),
                        out@.len() == t,
                        crate::instance::routes_model(out@) == backfill_routes(
                            pre,
                            routes@.take(t as int),
                        ),
                    decreases routes@.len() - t,
                {
                    let route = &routes[t];
                    let mut hops: Vec<NextHopRuntime> = Vec::new();
                    let mut h: usize = 0;
                    while h < route.next_hops.len()
                        invariant
                            h <= route.next_hops@.len(),
                            hops@ == backfill_hops(pre, route.next_hops@.take(h as int)),
                        decreases route.next_hops@.len() - h,
                    {
                        let nh = backfill_one_hop(instances, &route.next_hops[h]);
                        hops.push(nh);
                        proof {
                            assert(hops@ =~= backfill_hops(pre, route.next_hops@.take(h + 1)));
                        }
                        h = h + 1;
                    }
                    proof {
                        assert(route.next_hops@.take(route.next_hops@.len() as int)
                            =~= route.next_hops@);
                    }
                    let ghost out0 = out@;
                    let ghost hops_snap = hops@;
                    out.push(RouteRuntime { destination: route.destination, next_hops: hops });
                    proof {
                        let lhs = crate::instance::routes_model(out@);
                        let rhs = backfill_routes(pre, routes@.take(t + 1));
                        assert forall|i: int| 0 <= i < lhs.len() implies lhs[i] == rhs[i] by {
                            if i < t {
                                assert(out@[i] == out0[i]);
                                assert(lhs[i] == crate::instance::routes_model(out0)[i]);
                                assert(rhs[i] == backfill_routes(
                                    pre,
                                    routes@.take(t as int),
                                )[i]);
                            } else {
                                assert(out@[i].next_hops@ == hops_snap);
                                assert(routes@.take(t + 1)[i] == routes@[t as int]);
                            }
                        }
                        assert(lhs =~= rhs);
                    }
                    t = t + 1;
                }
                proof {
                    assert(routes@.take(routes@.len() as int) =~= routes@);
                }
                Some(out)
            },
        };
        computed.push(resolved);
        k = k + 1;
    }
    let ghost computed0 = computed@;
    let mut k: usize = 0;
    while k < instances.len()
        invariant
            k <= pre.len(),
            instances@.len() == pre.len(),
            computed@ == computed0.skip(k as int),
            computed0.len() == pre.len(),
            forall|m: int| k <= m < pre.len() ==> (#[trigger] instances@[m]) == pre[m],
            forall|m: int|
                0 <= m < k ==> {
                    &&& (#[trigger] instances@[m]).0 == pre[m].0
                    &&& only_routes_changed(pre[m].1, instances@[m].1)
                    &&& instances@[m].1.routes == computed0[m]
                },
        decreases pre.len() - k,
    {
        let v = computed.remove(0);
        let e = &mut instances[k];
        e.1.routes = v;
        proof {
            assert(computed@ =~= computed0.skip(k + 1));
        }
        k = k + 1;
    }
}

} // verus!
