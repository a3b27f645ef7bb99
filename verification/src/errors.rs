use vstd::prelude::*;
use vstd::string::StringExecFns;

verus! {

/// Why a resolution run was aborted.  Resolution is all-or-nothing: any of
/// these discards the whole partial runtime model.
#[derive(Debug)]
pub enum ResolutionError {
    /// An interface references a network name that was never declared.
    UndeclaredNetwork { network: String },
    /// An unmanaged network has no free host address left for an interface.
    NetworkExhausted { network: String },
    /// An unmanaged network's subnet string is not valid IPv4 CIDR notation,
    /// or leaves no representable gateway address.
    InvalidSubnet { subnet: String },
}

/// Spec-level image of a `ResolutionError`: the same variants over the views
/// of the entity names they carry.
pub ghost enum ResolutionErrorView {
    UndeclaredNetwork { network: Seq<char> },
    NetworkExhausted { network: Seq<char> },
    InvalidSubnet { subnet: Seq<char> },
}

impl View for ResolutionError {
    type V = ResolutionErrorView;

    open spec fn view(&self) -> ResolutionErrorView {
        match self {
            ResolutionError::UndeclaredNetwork { network } => ResolutionErrorView::UndeclaredNetwork {
                network: network@,
            },
            ResolutionError::NetworkExhausted { network } => ResolutionErrorView::NetworkExhausted {
                network: network@,
            },
            ResolutionError::InvalidSubnet { subnet } => ResolutionErrorView::InvalidSubnet {
                subnet: subnet@,
            },
        }
    }
}

impl ResolutionError {
    /// A human-readable description: a fixed phrase for the variant followed
    /// by the offending entity name.
    pub fn message(&self) -> (r: String)
        ensures
            match self@ {
                ResolutionErrorView::UndeclaredNetwork { network } => r@ == "undeclared network: "@
                    + network,
                ResolutionErrorView::NetworkExhausted { network } => r@ == "network exhausted: "@
                    + network,
                ResolutionErrorView::InvalidSubnet { subnet } => r@ == "invalid subnet: "@ + subnet,
            },
    {
        match self {
            ResolutionError::UndeclaredNetwork { network } => "undeclared network: ".to_owned().concat(
                network.as_str(),
            ),
            ResolutionError::NetworkExhausted { network } => "network exhausted: ".to_owned().concat(
                network.as_str(),
            ),
            ResolutionError::InvalidSubnet { subnet } => "invalid subnet: ".to_owned().concat(
                subnet.as_str(),
            ),
        }
    }
}

} // verus!
