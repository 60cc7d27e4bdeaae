//! The three roles that a process of the fleet can play.

use vstd::prelude::*;
use vstd::string::StringExecFns;

verus! {

/// What a process does in the fleet.
#[derive(Clone, Copy, Debug, PartialEq, Eq, Structural)]
pub enum Role {
    /// Runs the rendezvous directory of the fleet.
    Rendezvous,
    /// Receives the ordered items and samples their throughput.
    Server,
    /// Runs a pool of workers that submit items.
    Broker,
}

/// The role that `name` selects, if it selects one.
pub open spec fn role_named(name: Seq<char>) -> Option<Role> {
    if name == "rendezvous"@ {
        Some(Role::Rendezvous)
    } else if name == "server"@ {
        Some(Role::Server)
    } else if name == "broker"@ {
        Some(Role::Broker)
    } else {
        None
    }
}

impl Role {
    /// Reads a role from its name: `rendezvous`, `server` or `broker`, in
    /// exactly this spelling.
    pub fn parse(name: &str) -> (role: Option<Role>)
        ensures
            role == role_named(name@),
    {
        let name = String::from_str(name);
        if name == String::from_str("rendezvous") {
            Some(Role::Rendezvous)
        } else if name == String::from_str("server") {
            Some(Role::Server)
        } else if name == String::from_str("broker") {
            Some(Role::Broker)
        } else {
            None
        }
    }
}

} // verus!
