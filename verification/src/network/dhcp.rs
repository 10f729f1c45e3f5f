//! DHCP clients: when they run, what they give back, and what their leases hold.
pub mod v4;
pub mod v6;

pub use v4::Dhcp4Client;
pub use v6::Dhcp6Client;

use super::DhcpEvent;
use vstd::prelude::*;

verus! {

/// What the task of a client does when it wakes up.
pub enum ClientStep {
    /// It tells the manager of a lease, then goes on.
    Tell(DhcpEvent),
    /// It goes on.
    Wait,
    /// It ends.
    Exit,
}

/// A client: its interface, whether it has a task, and the lease that it holds.
pub struct ClientState<L> {
    pub iface: Seq<char>,
    pub running: bool,
    pub lease: Option<L>,
}

}
