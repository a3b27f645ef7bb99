use vstd::prelude::*;
use crate::config::{Config, UserConfig};
use crate::errors::{ResolutionError, ResolutionErrorView};
use crate::instance::{
    lemma_resolve_routes_spec_same, routes_model, resolve_routes_spec, same_interfaces,
    InstanceRuntime, RouteRuntime,
};
use crate::interface::{
    configure_post, interface_model, interfaces_match, instance_scalars_match,
    lemma_resolve_all_split, resolve_all_spec, split_matches_network, InterfaceRuntime,
};
use crate::network::{nets_model, NetworkConfig, NetworkModel, NetworkRuntime};
use crate::route_table::{
    lemma_tables_for_spec_same, tables_for_spec, tables_model, RouteTableRuntime,
};

verus! {

/// The fully resolved runtime model: every instance with its interfaces,
/// addresses, MACs and routes, and every network with its allocation state.
/// Immutable once built, but for the tap-link fields the convergence engine
/// discovers after launch.
pub struct Runtime {
    pub user_config: Option<UserConfig>,
    pub instances: Vec<(String, InstanceRuntime)>,
    pub networks: Vec<(String, NetworkRuntime)>,
}

/// Resolving the declared networks in order; the first invalid subnet aborts.
pub open spec fn networks_build_spec(cfg_nets: Seq<(String, NetworkConfig)>) -> Result<
    Seq<(String, NetworkModel)>,
    ResolutionErrorView,
>
    decreases cfg_nets.len(),
{
    if cfg_nets.len() == 0 {
        Ok(Seq::empty())
    } else {
        match networks_build_spec(cfg_nets.drop_last()) {
            Err(e) => Err(e),
            Ok(p) => match NetworkRuntime::model_of(cfg_nets.last().1) {
                Err(e) => Err(e),
                Ok(m) => Ok(p.push((cfg_nets.last().0, m))),
            },
        }
    }
}

/// Once a declared network fails to resolve, the whole list fails with the
/// same error.
proof fn lemma_networks_err_stable(cfg_nets: Seq<(String, NetworkConfig)>, k: int)
    requires
        0 <= k <= cfg_nets.len(),
        networks_build_spec(cfg_nets.take(k)) is Err,
    ensures
        networks_build_spec(cfg_nets) == networks_build_spec(cfg_nets.take(k)),
    decreases cfg_nets.len() - k,
{
    if k == cfg_nets.len() {
        assert(cfg_nets.take(k) =~= cfg_nets);
    } else {
        assert(cfg_nets.take(k + 1).drop_last() =~= cfg_nets.take(k));
        lemma_networks_err_stable(cfg_nets, k + 1);
    }
}

/// Everything `Runtime::build` promises.  On success: the networks carry
/// exactly the allocation state the interface-resolution fold computes, every
/// instance realises its interface models, and the routes and route tables
/// are exactly the resolution of the declared ones against the built model.
/// On failure: the error is exactly the first failure of network parsing or
/// interface resolution, and no partial model is returned.
pub open spec fn build_post(cfg: Config, r: Result<Runtime, ResolutionError>) -> bool {
    match networks_build_spec(cfg.networks@) {
        Err(e) => r matches Err(err) && err@ == e,
        Ok(nets0) => match resolve_all_spec(nets0, cfg.instances@) {
            Err(e) => r matches Err(err) && err@ == e,
            Ok(p) => {
                &&& r matches Ok(rt)
                &&& r matches Ok(rt) ==> {
                    &&& rt.user_config == Some(cfg.user_config)
                    &&& nets_model(rt.networks@) == p.1
                    &&& forall|k: int|
                        0 <= k < rt.networks@.len() ==> (#[trigger] rt.networks@[k]).1.wf()
                    &&& rt.instances@.len() == cfg.instances@.len()
                    &&& forall|k: int|
                        0 <= k < rt.instances@.len() ==> {
                            &&& (#[trigger] rt.instances@[k]).0 == cfg.instances@[k].0
                            &&& instance_scalars_match(cfg.instances@[k].1, rt.instances@[k].1)
                            &&& interfaces_match(
                                cfg.instances@[k].1.interfaces@,
                                rt.instances@[k].1.interfaces@,
                                p.0[k],
                            )
                            &&& match cfg.instances@[k].1.routes {
                                None => rt.instances@[k].1.routes is None,
                                Some(rv) => rt.instances@[k].1.routes matches Some(res)
                                    && routes_model(res@) == resolve_routes_spec(
                                    cfg.instances@,
                                    rt.networks@,
                                    rt.instances@,
                                    rv@,
                                ),
                            }
                            &&& tables_model(rt.instances@[k].1.route_tables@) == tables_for_spec(
                                cfg.route_tables@,
                                rt.networks@,
                                rt.instances@,
                                k,
                            )
                        }
                }
            },
        },
    }
}

impl Runtime {
    /// The resolution engine: resolve the declared networks, run the
    /// interface pass and then the two route passes, all-or-nothing.  A
    /// reference to an undeclared network, an invalid subnet or an exhausted
    /// network aborts the build and discards the partial model.
    #[verifier::loop_isolation(false)]
    pub fn build(config: &Config) -> (r: Result<Runtime, ResolutionError>)
        ensures
            build_post(*config, r),
    {
        let mut networks: Vec<(String, NetworkRuntime)> = Vec::new();
        proof {
            assert(config.networks@.take(0) =~= Seq::<(String, NetworkConfig)>::empty());
            assert(nets_model(networks@) =~= Seq::<(String, NetworkModel)>::empty());
        }
        let mut k: usize = 0;
        while k < config.networks.len()
            invariant
                k <= config.networks@.len(),
                networks@.len() == k,
                networks_build_spec(config.networks@.take(k as int)) == Ok::<
                    _,
                    ResolutionErrorView,
                >(nets_model(networks@)),
                forall|m: int| 0 <= m < networks@.len() ==> (#[trigger] networks@[m]).1.wf(),
            decreases config.networks@.len() - k,
        {
            let entry = &config.networks[k];
            let ghost pre = nets_model(networks@);
            proof {
                assert(config.networks@.take(k + 1).drop_last() =~= config.networks@.take(
                    k as int,
                ));
                assert(config.networks@.take(k + 1).last() == config.networks@[k as int]);
            }
            match NetworkRuntime::new(&entry.1) {
                Err(e) => {
                    proof {
                        lemma_networks_err_stable(config.networks@, k + 1);
                    }
                    return Err(e);
                },
                Ok(n) => {
                    networks.push((entry.0.clone(), n));
                    proof {
                        assert(nets_model(networks@) =~= pre.push(
                            (entry.0, networks@.last().1@),
                        ));
                    }
                },
            }
            k = k + 1;
        }
        proof {
            assert(config.networks@.take(config.networks@.len() as int) =~= config.networks@);
        }
        let ghost nets0 = nets_model(networks@);
        let mut instances = match InterfaceRuntime::configure(config, &mut networks) {
            Err(e) => {
                return Err(e);
            },
            Ok(v) => v,
        };
        let ghost after_pass1 = instances@;
        RouteRuntime::configure(config, &networks, &mut instances);
        let ghost after_routes = instances@;
        RouteTableRuntime::configure(config, &networks, &mut instances);
        let user_config = UserConfig {
            user_name: config.user_config.user_name.clone(),
            key_path: config.user_config.key_path.clone(),
            base_directory: config.user_config.base_directory.clone(),
        };
        let rt = Runtime { user_config: Some(user_config), instances, networks };
        proof {
            let p = resolve_all_spec(nets0, config.instances@)->Ok_0;
            assert(same_interfaces(after_pass1, after_routes));
            assert(same_interfaces(after_routes, rt.instances@));
            assert(same_interfaces(after_pass1, rt.instances@));
            assert forall|k: int| #![trigger rt.instances@[k]] 0 <= k < rt.instances@.len()
                implies {
                &&& rt.instances@[k].0 == config.instances@[k].0
                &&& instance_scalars_match(config.instances@[k].1, rt.instances@[k].1)
                &&& interfaces_match(
                    config.instances@[k].1.interfaces@,
                    rt.instances@[k].1.interfaces@,
                    p.0[k],
                )
            } by {
                assert(rt.instances@[k].1.interfaces == after_pass1[k].1.interfaces);
                assert(rt.instances@[k].1.vcpu == after_pass1[k].1.vcpu);
            }
            assert forall|k: int| #![trigger rt.instances@[k]] 0 <= k < rt.instances@.len()
                implies {
                match config.instances@[k].1.routes {
                    None => rt.instances@[k].1.routes is None,
                    Some(rv) => rt.instances@[k].1.routes matches Some(res) && routes_model(res@)
                        == resolve_routes_spec(
                        config.instances@,
                        rt.networks@,
                        rt.instances@,
                        rv@,
                    ),
                }
            } by {
                match config.instances@[k].1.routes {
                    None => {
                    },
                    Some(rv) => {
                        lemma_resolve_routes_spec_same(
                            config.instances@,
                            rt.networks@,
                            after_pass1,
                            rt.instances@,
                            rv@,
                        );
                    },
                }
            }
            assert forall|k: int| 0 <= k < rt.instances@.len() implies tables_model(
                (#[trigger] rt.instances@[k]).1.route_tables@,
            ) == tables_for_spec(config.route_tables@, rt.networks@, rt.instances@, k) by {
                lemma_tables_for_spec_same(
                    config.route_tables@,
                    rt.networks@,
                    after_routes,
                    rt.instances@,
                    k,
                );
            }
        }
        Ok(rt)
    }
}

/// Every interface attached to a managed network resolves with no IP address
/// and the managed network's name; every interface attached to an unmanaged
/// network resolves with an address and no managed name.
pub proof fn lemma_managed_unmanaged_split(cfg: Config, rt: Runtime)
    requires
        build_post(cfg, Ok(rt)),
    ensures
        forall|k: int, j: int|
            #![trigger rt.instances@[k].1.interfaces@[j]]
            0 <= k < cfg.instances@.len() && 0 <= j < cfg.instances@[k].1.interfaces@.len() ==> {
                let ifr = rt.instances@[k].1.interfaces@[j].1;
                match crate::object::key_at(
                    rt.networks@,
                    cfg.instances@[k].1.interfaces@[j].1.network@,
                ) {
                    None => false,
                    Some(i) => match rt.networks@[i].1.network_type {
                        crate::network::NetworkTypeRuntime::Managed { name } => ifr.address
                            is None && (ifr.managed matches Some(n) && n@ == name@),
                        crate::network::NetworkTypeRuntime::Unmanaged { .. } => ifr.address
                            is Some && ifr.managed is None,
                    },
                }
            },
{
    let nets0 = networks_build_spec(cfg.networks@)->Ok_0;
    let p = resolve_all_spec(nets0, cfg.instances@)->Ok_0;
    lemma_resolve_all_split(nets0, cfg.instances@);
    assert forall|k: int, j: int|
        #![trigger rt.instances@[k].1.interfaces@[j]]
        0 <= k < cfg.instances@.len() && 0 <= j < cfg.instances@[k].1.interfaces@.len()
        implies {
        let ifr = rt.instances@[k].1.interfaces@[j].1;
        match crate::object::key_at(
            rt.networks@,
            cfg.instances@[k].1.interfaces@[j].1.network@,
        ) {
            None => false,
            Some(i) => match rt.networks@[i].1.network_type {
                crate::network::NetworkTypeRuntime::Managed { name } => ifr.address is None
                    && (ifr.managed matches Some(n) && n@ == name@),
                crate::network::NetworkTypeRuntime::Unmanaged { .. } => ifr.address is Some
                    && ifr.managed is None,
            },
        }
    } by {
        let icfg = cfg.instances@[k].1.interfaces@[j].1;
        let ifr = rt.instances@[k].1.interfaces@[j].1;
        assert(interface_model(ifr) == p.0[k][j]);
        assert(split_matches_network(p.1, icfg, p.0[k][j]));
        crate::network::lemma_key_at_model(rt.networks@, icfg.network@, 0);
        crate::object::lemma_find_key(rt.networks@, icfg.network@, 0);
        match crate::object::key_at(nets_model(rt.networks@), icfg.network@) {
            None => {
                assert(false);
            },
            Some(i) => {
                assert(nets_model(rt.networks@)[i].1 == rt.networks@[i].1@);
            },
        }
    }
}

/// Resolution is deterministic: two successful builds of one unchanged
/// declarative graph agree on every allocated address (and prefix length,
/// managed-network name and MTU) of every interface, and on every network's
/// final allocation state.  Only the randomly generated MAC strings may
/// differ.
pub proof fn lemma_resolution_deterministic(cfg: Config, r1: Runtime, r2: Runtime)
    requires
        build_post(cfg, Ok(r1)),
        build_post(cfg, Ok(r2)),
    ensures
        nets_model(r1.networks@) == nets_model(r2.networks@),
        r1.instances@.len() == r2.instances@.len(),
        forall|k: int|
            0 <= k < r1.instances@.len() ==> (#[trigger] r1.instances@[k]).1.interfaces@.len()
                == r2.instances@[k].1.interfaces@.len(),
        forall|k: int, j: int|
            0 <= k < r1.instances@.len() && 0 <= j < r1.instances@[k].1.interfaces@.len()
                ==> interface_model(#[trigger] r1.instances@[k].1.interfaces@[j].1)
                == interface_model(r2.instances@[k].1.interfaces@[j].1),
{
}

} // verus!
