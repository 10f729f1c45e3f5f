//! Network management: the configuration of network cards, the state machine that
//! keeps it applied, the DNS file, the request protocol and the command language.
//!
//! The library decides; it performs no I/O. Where outside work is needed (a netlink
//! request, a DHCP exchange, a file), it says which, and takes in what came of it.
use vstd::prelude::*;

pub mod addr;
pub mod ipc;
pub mod network;
pub mod nmctl;
pub mod number;
pub mod text;

pub use addr::{Ipv4Addr, Ipv6Addr};
pub use ipc::{Envelope, Request, Response, RpcError, DEFAULT_SOCKET_PATH};
pub use network::NetCardEvent;

verus! {

/// The state of a link.
#[derive(Clone, Copy, Debug, PartialEq, Eq, Structural)]
pub enum LinkState {
    /// The card is down.
    Down,
    /// The card is up but no cable is plugged in.
    CableUnplugged,
    /// The card is up and its cable is plugged in.
    Up,
}

/// What the kernel reports of a card.
#[derive(Clone, Copy, Debug, PartialEq, Eq)]
pub struct HardwareInfo {
    /// The interface index.
    pub ifindex: u32,
    /// The MAC address.
    pub mac: [u8; 6],
    /// The bandwidth in Mbps, 0 where it is unknown.
    pub bandwidth: u32,
    /// The state of the link.
    pub state: LinkState,
}

impl HardwareInfo {
    pub fn new(ifindex: u32, mac: [u8; 6], bandwidth: u32, state: LinkState) -> (r: Self)
        ensures
            r == (HardwareInfo { ifindex, mac, bandwidth, state }),
    {
        Self { ifindex, mac, bandwidth, state }
    }
}

/// The IPv4 configuration of a card.
#[derive(Clone, Copy, Debug, PartialEq, Eq)]
pub struct Ipv4Info {
    /// Whether IPv4 is configured at all.
    pub enabled: bool,
    /// Whether address and gateway come from DHCP.
    pub use_dhcp: bool,
    /// Whether the DNS servers come from DHCP.
    pub auto_dns: bool,
    /// The address.
    pub ip: Ipv4Addr,
    /// The subnet mask.
    pub netmask: Ipv4Addr,
    /// The gateway.
    pub gateway: Ipv4Addr,
    /// The first DNS server.
    pub primary_dns: Ipv4Addr,
    /// The second DNS server.
    pub secondary_dns: Ipv4Addr,
}

impl Ipv4Info {
    pub fn new(
        enabled: bool,
        use_dhcp: bool,
        auto_dns: bool,
        ip: Ipv4Addr,
        netmask: Ipv4Addr,
        gateway: Ipv4Addr,
        primary_dns: Ipv4Addr,
        secondary_dns: Ipv4Addr,
    ) -> (r: Self)
        ensures
            r == (Ipv4Info {
                enabled,
                use_dhcp,
                auto_dns,
                ip,
                netmask,
                gateway,
                primary_dns,
                secondary_dns,
            }),
    {
        Self { enabled, use_dhcp, auto_dns, ip, netmask, gateway, primary_dns, secondary_dns }
    }

    /// The configuration of a card that has none of its own: everything from DHCP.
    pub open spec fn initial() -> Self {
        Ipv4Info {
            enabled: true,
            use_dhcp: true,
            auto_dns: true,
            ip: Ipv4Addr::zero(),
            netmask: Ipv4Addr::zero(),
            gateway: Ipv4Addr::zero(),
            primary_dns: Ipv4Addr::zero(),
            secondary_dns: Ipv4Addr::zero(),
        }
    }
}

impl Default for Ipv4Info {
    fn default() -> (r: Self)
        ensures
            r == Ipv4Info::initial(),
    {
        Self {
            enabled: true,
            use_dhcp: true,
            auto_dns: true,
            ip: Ipv4Addr::unspecified(),
            netmask: Ipv4Addr::unspecified(),
            gateway: Ipv4Addr::unspecified(),
            primary_dns: Ipv4Addr::unspecified(),
            secondary_dns: Ipv4Addr::unspecified(),
        }
    }
}

/// The IPv6 configuration of a card.
#[derive(Clone, Copy, Debug, PartialEq, Eq)]
pub struct Ipv6Info {
    /// Whether IPv6 is configured at all.
    pub enabled: bool,
    /// Whether address and gateway come from DHCP.
    pub use_dhcp: bool,
    /// Whether the DNS servers come from DHCP.
    pub auto_dns: bool,
    /// The address.
    pub ip: Ipv6Addr,
    /// The length of the subnet prefix.
    pub prefix_len: u8,
    /// The gateway.
    pub gateway: Ipv6Addr,
    /// The first DNS server.
    pub primary_dns: Ipv6Addr,
    /// The second DNS server.
    pub secondary_dns: Ipv6Addr,
}

impl Ipv6Info {
    pub fn new(
        enabled: bool,
        use_dhcp: bool,
        auto_dns: bool,
        ip: Ipv6Addr,
        prefix_len: u8,
        gateway: Ipv6Addr,
        primary_dns: Ipv6Addr,
        secondary_dns: Ipv6Addr,
    ) -> (r: Self)
        ensures
            r == (Ipv6Info {
                enabled,
                use_dhcp,
                auto_dns,
                ip,
                prefix_len,
                gateway,
                primary_dns,
                secondary_dns,
            }),
    {
        Self { enabled, use_dhcp, auto_dns, ip, prefix_len, gateway, primary_dns, secondary_dns }
    }

    /// The configuration of a card that has none of its own: IPv6 is off.
    pub open spec fn initial() -> Self {
        Ipv6Info {
            enabled: false,
            use_dhcp: true,
            auto_dns: true,
            ip: Ipv6Addr::zero(),
            prefix_len: 0,
            gateway: Ipv6Addr::zero(),
            primary_dns: Ipv6Addr::zero(),
            secondary_dns: Ipv6Addr::zero(),
        }
    }
}

impl Default for Ipv6Info {
    fn default() -> (r: Self)
        ensures
            r == Ipv6Info::initial(),
    {
        Self {
            enabled: false,
            use_dhcp: true,
            auto_dns: true,
            ip: Ipv6Addr::unspecified(),
            prefix_len: 0,
            gateway: Ipv6Addr::unspecified(),
            primary_dns: Ipv6Addr::unspecified(),
            secondary_dns: Ipv6Addr::unspecified(),
        }
    }
}

/// A card: its name, its switch, its hardware and its configuration.
#[derive(Debug, PartialEq, Eq)]
pub struct NetCardInfo {
    /// The name of the interface.
    pub name: String,
    /// Whether the card is switched on.
    pub enabled: bool,
    pub hardware: HardwareInfo,
    pub ipv4: Ipv4Info,
    pub ipv6: Ipv6Info,
}

/// A card in the language of contracts: its name as a sequence of characters.
#[verifier::ext_equal]
pub struct Card {
    pub name: Seq<char>,
    pub enabled: bool,
    pub hardware: HardwareInfo,
    pub ipv4: Ipv4Info,
    pub ipv6: Ipv6Info,
}

impl View for NetCardInfo {
    type V = Card;

    open spec fn view(&self) -> Card {
        Card {
            name: self.name@,
            enabled: self.enabled,
            hardware: self.hardware,
            ipv4: self.ipv4,
            ipv6: self.ipv6,
        }
    }
}

impl NetCardInfo {
    pub fn new(
        name: String,
        enabled: bool,
        hardware: HardwareInfo,
        ipv4: Ipv4Info,
        ipv6: Ipv6Info,
    ) -> (r: Self)
        ensures
            r == (NetCardInfo { name, enabled, hardware, ipv4, ipv6 }),
    {
        Self { name, enabled, hardware, ipv4, ipv6 }
    }
}

impl Clone for NetCardInfo {
    fn clone(&self) -> (r: Self)
        ensures
            r == *self,
    {
        NetCardInfo {
            name: self.name.clone(),
            enabled: self.enabled,
            hardware: self.hardware,
            ipv4: self.ipv4,
            ipv6: self.ipv6,
        }
    }
}

}
