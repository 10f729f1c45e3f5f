//! The DHCPv4 client of an interface.
use super::super::DhcpEvent;
use super::{ClientState, ClientStep};
use crate::{Ipv4Addr, Ipv4Info};
use vstd::prelude::*;

verus! {

/// What a DHCPv4 lease holds, as far as it is of interest.
#[derive(Debug, PartialEq, Eq)]
pub struct Lease4 {
    /// The address of the client.
    pub yiaddr: Ipv4Addr,
    pub subnet_mask: Ipv4Addr,
    pub gateways: Option<Vec<Ipv4Addr>>,
    pub dns_srvs: Option<Vec<Ipv4Addr>>,
}

/// The address at place `i` of a list that may be missing or too short: none then.
pub open spec fn nth_or_zero(list: Option<Vec<Ipv4Addr>>, i: int) -> Ipv4Addr {
    match list {
        Some(v) => if i < v@.len() {
            v@[i]
        } else {
            Ipv4Addr::zero()
        },
        None => Ipv4Addr::zero(),
    }
}

/// The configuration that a lease stands for: its address and mask, its first gateway
/// and its first two DNS servers.
pub open spec fn lease4_info(lease: Lease4) -> Ipv4Info {
    Ipv4Info {
        ip: lease.yiaddr,
        netmask: lease.subnet_mask,
        gateway: nth_or_zero(lease.gateways, 0),
        primary_dns: nth_or_zero(lease.dns_srvs, 0),
        secondary_dns: nth_or_zero(lease.dns_srvs, 1),
        ..Ipv4Info::initial()
    }
}

/// What a lease stands for has the address and the mask of the lease, the first of its
/// gateways, the first and the second of its DNS servers, and none where the lease has
/// too few. It is enabled and says that everything comes from DHCP.
pub proof fn law_lease_read(lease: Lease4)
    ensures
        ({
            let info = lease4_info(lease);
            let none = Ipv4Addr::zero();
            &&& info.enabled && info.use_dhcp && info.auto_dns
            &&& info.ip == lease.yiaddr && info.netmask == lease.subnet_mask
            &&& match lease.gateways {
                Some(list) => if list@.len() > 0 {
                    info.gateway == list@.first()
                } else {
                    info.gateway == none
                },
                None => info.gateway == none,
            }
            &&& match lease.dns_srvs {
                Some(list) => {
                    &&& list@.len() == 0 ==> info.primary_dns == none && info.secondary_dns == none
                    &&& list@.len() == 1 ==> info.primary_dns == list@[0] && info.secondary_dns
                        == none
                    &&& list@.len() >= 2 ==> info.primary_dns == list@[0] && info.secondary_dns
                        == list@[1]
                },
                None => info.primary_dns == none && info.secondary_dns == none,
            }
        }),
{
}

fn nth(list: &Option<Vec<Ipv4Addr>>, i: usize) -> (r: Ipv4Addr)
    ensures
        r == nth_or_zero(*list, i as int),
{
    match list {
        Some(v) => if i < v.len() {
            v[i]
        } else {
            Ipv4Addr::unspecified()
        },
        None => Ipv4Addr::unspecified(),
    }
}

/// The configuration that a lease stands for.
pub fn parse_lease(lease: &Lease4) -> (r: Ipv4Info)
    ensures
        r == lease4_info(*lease),
{
    Ipv4Info {
        ip: lease.yiaddr,
        netmask: lease.subnet_mask,
        gateway: nth(&lease.gateways, 0),
        primary_dns: nth(&lease.dns_srvs, 0),
        secondary_dns: nth(&lease.dns_srvs, 1),
        ..Ipv4Info::default()
    }
}

/// What the task of a client can wake up to.
pub enum Wake4 {
    /// It is told to stop.
    Stop,
    /// There is a lease.
    Lease(Lease4),
    /// The exchange has come further.
    Progress,
    /// The exchange has failed.
    Failed,
}

/// The DHCPv4 client of an interface.
pub struct Dhcp4Client {
    iface_name: String,
    running: bool,
    lease: Option<Lease4>,
}

impl View for Dhcp4Client {
    type V = ClientState<Lease4>;

    closed spec fn view(&self) -> ClientState<Lease4> {
        ClientState { iface: self.iface_name@, running: self.running, lease: self.lease }
    }
}

impl Dhcp4Client {
    /// A client that does not run and holds no lease.
    pub fn new(iface_name: String) -> (r: Self)
        ensures
            r@ == (ClientState::<Lease4> { iface: iface_name@, running: false, lease: None }),
    {
        Dhcp4Client { iface_name, running: false, lease: None }
    }

    /// Starts the client, and says whether its task is to be spawned: not where it runs
    /// already.
    pub fn start(&mut self) -> (spawn: bool)
        ensures
            spawn == !old(self)@.running,
            final(self)@ == (ClientState { running: true, ..old(self)@ }),
    {
        let spawn = !self.running;
        self.running = true;
        spawn
    }

    /// What the task of the client does when it wakes up. A lease is held from then on,
    /// in the place of any other, and the manager is told of it.
    pub fn step(&mut self, wake: Wake4) -> (r: ClientStep)
        ensures
            match wake {
                Wake4::Lease(lease) => {
                    &&& final(self)@ == (ClientState { lease: Some(lease), ..old(self)@ })
                    &&& r matches ClientStep::Tell(DhcpEvent::V4(iface, info)) && iface@ == old(
                        self,
                    )@.iface && info == lease4_info(lease)
                },
                Wake4::Stop => final(self)@ == old(self)@ && r is Exit,
                Wake4::Progress | Wake4::Failed => final(self)@ == old(self)@ && r is Wait,
            },
    {
        match wake {
            Wake4::Lease(lease) => {
                let info = parse_lease(&lease);
                self.lease = Some(lease);
                ClientStep::Tell(DhcpEvent::V4(self.iface_name.clone(), info))
            },
            Wake4::Stop => ClientStep::Exit,
            Wake4::Progress | Wake4::Failed => ClientStep::Wait,
        }
    }

    /// Stops the client, and says whether it has a task, which is then told to stop and
    /// waited for. What the client holds is given back after that.
    pub fn stop(&mut self) -> (end_task: bool)
        ensures
            end_task == old(self)@.running,
            final(self)@ == (ClientState { running: false, ..old(self)@ }),
    {
        let end_task = self.running;
        self.running = false;
        end_task
    }

    /// Gives up the lease of a client whose task has ended: the one that is then given
    /// back, if there is one.
    pub fn release(&mut self) -> (r: Option<Lease4>)
        ensures
            r == old(self)@.lease,
            final(self)@ == (ClientState { lease: None, ..old(self)@ }),
    {
        self.lease.take()
    }
}

}
