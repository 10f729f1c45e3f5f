//! The DHCPv6 client of an interface.
use super::super::DhcpEvent;
use super::{ClientState, ClientStep};
use crate::addr::{octets_address, segment};
use crate::{Ipv6Addr, Ipv6Info};
use mozim::DhcpV6OptionCode;
use vstd::prelude::*;

verus! {

/// `u16::from` of mozim's `DhcpV6OptionCode`, at `DnsServers`: the code of the option
/// that lists DNS servers, which is 23.
#[verifier::external_body]
fn dns_servers_code() -> (r: u16)
    ensures
        r == 23,
{
    u16::from(DhcpV6OptionCode::DnsServers)
}

/// The code of the option of a lease that its DNS servers are read from.
pub fn dns_option() -> (r: u16)
    ensures
        r == 23,
{
    dns_servers_code()
}

/// What a DHCPv6 lease holds, as far as it is of interest.
#[derive(Debug, PartialEq, Eq)]
pub struct Lease6 {
    /// The address of the client.
    pub address: Ipv6Addr,
    pub prefix_len: u8,
    /// The data of the options that list DNS servers, if there are any: each sixteen
    /// bytes are an address.
    pub dns_options: Option<Vec<Vec<u8>>>,
}

/// The addresses that some bytes hold from `from` on. What is left over at the end
/// holds none.
pub open spec fn addresses_in(raw: Seq<u8>, from: int) -> Seq<Ipv6Addr>
    decreases raw.len() - from,
{
    if from + 16 > raw.len() {
        seq![]
    } else {
        seq![octets_address(raw, from)] + addresses_in(raw, from + 16)
    }
}

/// The addresses that a list of options holds, in order.
pub open spec fn addresses_of(list: Seq<Vec<u8>>) -> Seq<Ipv6Addr>
    decreases list.len(),
{
    if list.len() == 0 {
        seq![]
    } else {
        addresses_of(list.drop_last()) + addresses_in(list.last()@, 0)
    }
}

/// The DNS servers that a lease lists.
pub open spec fn dns_addresses(lease: Lease6) -> Seq<Ipv6Addr> {
    match lease.dns_options {
        Some(list) => addresses_of(list@),
        None => seq![],
    }
}

/// The address at place `i`, or none.
pub open spec fn nth_or_zero(list: Seq<Ipv6Addr>, i: int) -> Ipv6Addr {
    if i < list.len() {
        list[i]
    } else {
        Ipv6Addr::zero()
    }
}

/// The configuration that a lease stands for: its address and prefix, no gateway, and
/// its first two DNS servers.
pub open spec fn lease6_info(lease: Lease6) -> Ipv6Info {
    Ipv6Info {
        ip: lease.address,
        prefix_len: lease.prefix_len,
        gateway: Ipv6Addr::zero(),
        primary_dns: nth_or_zero(dns_addresses(lease), 0),
        secondary_dns: nth_or_zero(dns_addresses(lease), 1),
        ..Ipv6Info::initial()
    }
}

/// Some bytes hold one address for each sixteen of them, and the one at place `k` is
/// made of the sixteen that start at sixteen times `k`, two to a segment and the higher
/// first.
pub proof fn law_addresses_read(raw: Seq<u8>, k: int)
    ensures
        addresses_in(raw, 0).len() == raw.len() / 16,
        0 <= k < raw.len() / 16 ==> forall|i: int|
            0 <= i < 8 ==> #[trigger] addresses_in(raw, 0)[k].segments@[i] == 256 * raw[16 * k + 2
                * i] + raw[16 * k + 2 * i + 1],
{
    lemma_addresses_in(raw, 0);
    if 0 <= k < raw.len() / 16 {
        let a = octets_address(raw, 16 * k);
        assert(addresses_in(raw, 0)[k] == a);
        assert forall|i: int| 0 <= i < 8 implies #[trigger] a.segments@[i] == 256 * raw[16 * k + 2
            * i] + raw[16 * k + 2 * i + 1] by {
            let s = a.segments@;
            let f = 16 * k;
            assert(s[0] == segment(raw[f], raw[f + 1]));
            assert(s[1] == segment(raw[f + 2], raw[f + 3]));
            assert(s[2] == segment(raw[f + 4], raw[f + 5]));
            assert(s[3] == segment(raw[f + 6], raw[f + 7]));
            assert(s[4] == segment(raw[f + 8], raw[f + 9]));
            assert(s[5] == segment(raw[f + 10], raw[f + 11]));
            assert(s[6] == segment(raw[f + 12], raw[f + 13]));
            assert(s[7] == segment(raw[f + 14], raw[f + 15]));
        }
    }
}

proof fn lemma_addresses_in(raw: Seq<u8>, from: int)
    requires
        0 <= from <= raw.len(),
    ensures
        addresses_in(raw, from).len() == (raw.len() - from) / 16,
        forall|k: int|
            0 <= k < (raw.len() - from) / 16 ==> #[trigger] addresses_in(raw, from)[k]
                == octets_address(raw, from + 16 * k),
    decreases raw.len() - from,
{
    if from + 16 <= raw.len() {
        lemma_addresses_in(raw, from + 16);
        let rest = addresses_in(raw, from + 16);
        assert forall|k: int| 0 <= k < (raw.len() - from) / 16 implies #[trigger] addresses_in(
            raw,
            from,
        )[k] == octets_address(raw, from + 16 * k) by {
            if k > 0 {
                assert(addresses_in(raw, from)[k] == rest[k - 1]);
            }
        }
    }
}

/// The DNS servers of a list of options are those of its two halves, one after the
/// other, and of one option those that its bytes hold.
pub proof fn law_options_in_order(a: Seq<Vec<u8>>, b: Seq<Vec<u8>>, option: Vec<u8>)
    ensures
        addresses_of(a + b) == addresses_of(a) + addresses_of(b),
        addresses_of(seq![option]) == addresses_in(option@, 0),
        addresses_of(seq![]).len() == 0,
    decreases b.len(),
{
    let none = Seq::<Ipv6Addr>::empty();
    assert(seq![option].drop_last() =~= Seq::<Vec<u8>>::empty());
    assert(addresses_of(Seq::<Vec<u8>>::empty()) =~= none);
    assert(none + addresses_in(option@, 0) =~= addresses_in(option@, 0));
    if b.len() == 0 {
        assert(a + b =~= a);
        assert(addresses_of(a) + none =~= addresses_of(a));
    } else {
        law_options_in_order(a, b.drop_last(), option);
        assert((a + b).drop_last() =~= a + b.drop_last());
        assert((a + b).last() == b.last());
        let x = addresses_of(a);
        let y = addresses_of(b.drop_last());
        let z = addresses_in(b.last()@, 0);
        assert(x + y + z =~= x + (y + z));
    }
}

/// What a lease stands for has the address and the prefix of the lease, no gateway, the
/// first and the second DNS server that it lists, and none where it lists too few. It is
/// disabled and says that everything comes from DHCP.
pub proof fn law_lease_read(lease: Lease6)
    ensures
        ({
            let info = lease6_info(lease);
            let none = Ipv6Addr::zero();
            let servers = match lease.dns_options {
                Some(list) => addresses_of(list@),
                None => seq![],
            };
            &&& !info.enabled && info.use_dhcp && info.auto_dns
            &&& info.ip == lease.address && info.prefix_len == lease.prefix_len
            &&& info.gateway == none
            &&& servers.len() == 0 ==> info.primary_dns == none && info.secondary_dns == none
            &&& servers.len() == 1 ==> info.primary_dns == servers[0] && info.secondary_dns == none
            &&& servers.len() >= 2 ==> info.primary_dns == servers[0] && info.secondary_dns
                == servers[1]
        }),
{
}

/// Appends the addresses that some bytes hold.
fn read_addresses(raw: &Vec<u8>, out: &mut Vec<Ipv6Addr>)
    ensures
        final(out)@ == old(out)@ + addresses_in(raw@, 0),
{
    let ghost front = out@;
    let mut from: usize = 0;
    let mut left: usize = raw.len();
    assert(front + addresses_in(raw@, 0) =~= out@ + addresses_in(raw@, 0));
    while left >= 16
        invariant
            from + left == raw.len(),
            front + addresses_in(raw@, 0) == out@ + addresses_in(raw@, from as int),
            front == old(out)@,
        decreases left,
    {
        let ghost before = out@;
        out.push(Ipv6Addr::from_octets(raw, from));
        proof {
            let a = octets_address(raw@, from as int);
            let rest = addresses_in(raw@, from + 16);
            assert(before + (seq![a] + rest) =~= out@ + rest);
        }
        from += 16;
        left -= 16;
    }
    assert(out@ + Seq::<Ipv6Addr>::empty() =~= out@);
}

/// The first and the second DNS server of a lease.
pub fn parse_v6_dns(lease: &Lease6) -> (r: (Ipv6Addr, Ipv6Addr))
    ensures
        r.0 == nth_or_zero(dns_addresses(*lease), 0),
        r.1 == nth_or_zero(dns_addresses(*lease), 1),
{
    let mut found: Vec<Ipv6Addr> = Vec::new();
    if let Some(list) = &lease.dns_options {
        let mut i: usize = 0;
        while i < list.len()
            invariant
                i <= list@.len(),
                found@ == addresses_of(list@.take(i as int)),
            decreases list.len() - i,
        {
            read_addresses(&list[i], &mut found);
            proof {
                let t = list@.take(i + 1);
                assert(t.drop_last() =~= list@.take(i as int));
                assert(t.last() == list@[i as int]);
            }
            i += 1;
        }
        assert(list@.take(i as int) =~= list@);
    }
    let primary = if found.len() > 0 {
        found[0]
    } else {
        Ipv6Addr::unspecified()
    };
    let secondary = if found.len() > 1 {
        found[1]
    } else {
        Ipv6Addr::unspecified()
    };
    (primary, secondary)
}

/// The configuration that a lease stands for.
pub fn parse_lease(lease: &Lease6) -> (r: Ipv6Info)
    ensures
        r == lease6_info(*lease),
{
    let (primary_dns, secondary_dns) = parse_v6_dns(lease);
    Ipv6Info {
        ip: lease.address,
        prefix_len: lease.prefix_len,
        gateway: Ipv6Addr::unspecified(),
        primary_dns,
        secondary_dns,
        ..Ipv6Info::default()
    }
}

/// What the task of a client can wake up to.
pub enum Wake6 {
    /// It is told to stop.
    Stop,
    /// There is a lease.
    Lease(Lease6),
    /// The exchange has come further.
    Progress,
    /// The exchange has failed.
    Failed,
}

/// The DHCPv6 client of an interface.
pub struct Dhcp6Client {
    iface_name: String,
    running: bool,
    lease: Option<Lease6>,
}

impl View for Dhcp6Client {
    type V = ClientState<Lease6>;

    closed spec fn view(&self) -> ClientState<Lease6> {
        ClientState { iface: self.iface_name@, running: self.running, lease: self.lease }
    }
}

impl Dhcp6Client {
    /// A client that does not run and holds no lease.
    pub fn new(iface_name: String) -> (r: Self)
        ensures
            r@ == (ClientState::<Lease6> { iface: iface_name@, running: false, lease: None }),
    {
        Dhcp6Client { iface_name, running: false, lease: None }
    }

    /// Starts the client, and says whether its task is to be spawned: not where it runs
    /// already.
    pub fn start(&mut self) -> (spawn: bool)
        ensures
            spawn == !old(self)@.running,
            final(self)@ == (ClientState { running: true, ..old(self)@ }),
    {
        let spawn = !self.running;
        self.running = true;
        spawn
    }

    /// What the task of the client does when it wakes up. A lease is held from then on,
    /// in the place of any other, and the manager is told of it.
    pub fn step(&mut self, wake: Wake6) -> (r: ClientStep)
        ensures
            match wake {
                Wake6::Lease(lease) => {
                    &&& final(self)@ == (ClientState { lease: Some(lease), ..old(self)@ })
                    &&& r matches ClientStep::Tell(DhcpEvent::V6(iface, info)) && iface@ == old(
                        self,
                    )@.iface && info == lease6_info(lease)
                },
                Wake6::Stop => final(self)@ == old(self)@ && r is Exit,
                Wake6::Progress | Wake6::Failed => final(self)@ == old(self)@ && r is Wait,
            },
    {
        match wake {
            Wake6::Lease(lease) => {
                let info = parse_lease(&lease);
                self.lease = Some(lease);
                ClientStep::Tell(DhcpEvent::V6(self.iface_name.clone(), info))
            },
            Wake6::Stop => ClientStep::Exit,
            Wake6::Progress | Wake6::Failed => ClientStep::Wait,
        }
    }

    /// Stops the client, and says whether it has a task, which is then told to stop and
    /// waited for. What the client holds is given back after that.
    pub fn stop(&mut self) -> (end_task: bool)
        ensures
            end_task == old(self)@.running,
            final(self)@ == (ClientState { running: false, ..old(self)@ }),
    {
        let end_task = self.running;
        self.running = false;
        end_task
    }

    /// Gives up the lease of a client whose task has ended: the one that is then given
    /// back, if there is one.
    pub fn release(&mut self) -> (r: Option<Lease6>)
        ensures
            r == old(self)@.lease,
            final(self)@ == (ClientState { lease: None, ..old(self)@ }),
    {
        self.lease.take()
    }
}

}
