//! Local ports: the roles that ask for one, and the port each falls back on.

use vstd::prelude::*;

verus! {

/// What a local port is asked for.
#[derive(Clone, Copy, Debug, PartialEq, Eq, Structural)]
pub enum PortRequest {
    EasyTierRPC,
    Scaffolding,
    Minecraft,
}

/// The port a role falls back on where the system gives none: 35780, 35781, 35782.
pub open spec fn fallback_port(role: PortRequest) -> u16 {
    match role {
        PortRequest::EasyTierRPC => 35780,
        PortRequest::Scaffolding => 35781,
        PortRequest::Minecraft => 35782,
    }
}

impl PortRequest {
    /// The port this role falls back on.
    pub fn fallback(self) -> (r: u16)
        ensures
            r == fallback_port(self),
    {
        match self {
            PortRequest::EasyTierRPC => 35780,
            PortRequest::Scaffolding => 35781,
            PortRequest::Minecraft => 35782,
        }
    }

    /// The port to use: the one the system bound, else this role's fallback.
    pub fn resolve(self, bound: Option<u16>) -> (r: u16)
        ensures
            r == match bound {
                Some(p) => p,
                None => fallback_port(self),
            },
    {
        match bound {
            Some(p) => p,
            None => self.fallback(),
        }
    }
}

} // verus!
