//! Declarative provisioning of small virtual network topologies.
//!
//! A declared configuration graph (networks, instances, interfaces, routes)
//! is resolved into a concrete runtime model: per-network address allocation,
//! MAC address generation, per-interface IP assignment and next-hop route
//! computation.  The resolved model is then turned into an ordered sequence
//! of backend commands that a thin driver executes.

use vstd::prelude::*;

pub mod config;
pub mod errors;
pub mod instance;
pub mod interface;
pub mod lxd_manager;
pub mod mac;
pub mod network;
pub mod object;
pub mod route_table;
pub mod runtime;
pub mod virt_manager;

verus! {

/// An IPv4 subnet in parsed form: the network base address and the prefix
/// length, e.g. `10.0.0.0/24` is `Subnet { base: 0x0a000000, prefix_len: 24 }`.
#[derive(Clone, Copy, Debug, PartialEq, Eq, Structural)]
pub struct Subnet {
    pub base: u32,
    pub prefix_len: u8,
}

/// Number of addresses covered by a subnet with the given prefix length.
pub open spec fn subnet_size(prefix_len: u8) -> int {
    vstd::arithmetic::power2::pow2((32 - prefix_len) as nat) as int
}

impl Subnet {
    /// A subnet is valid when its prefix length fits IPv4 and the whole
    /// address block lies inside the 32-bit address space.
    pub open spec fn wf(self) -> bool {
        &&& self.prefix_len <= 32
        &&& self.base + subnet_size(self.prefix_len) <= 0x1_0000_0000
    }

    /// The highest address of the subnet (its broadcast address).
    pub open spec fn broadcast_address(self) -> int {
        self.base + subnet_size(self.prefix_len) - 1
    }
}

} // verus!
