//! The network manager: its commands, its events and the parts that it is made of.
use crate::{Card, Ipv4Info, Ipv6Info, NetCardInfo};
use vstd::prelude::*;
use vstd::string::*;

pub mod actor;
pub mod cards;
pub mod dhcp;
pub mod monitor;
pub mod netlink;
pub mod persist;
pub mod resolv;
pub mod runs;

verus! {

/// What a client asks of the manager.
#[allow(inconsistent_fields)]
pub enum Command {
    /// The card of that name.
    GetNetCard { iface_name: String },
    /// All cards.
    GetAllNetCards,
    /// Switch a card on or off.
    SetLinkState { iface_name: String, up: bool },
    /// Give a card an IPv4 configuration.
    SetIpv4 { iface_name: String, info: Ipv4Info },
    /// Give a card an IPv6 configuration.
    SetIpv6 { iface_name: String, info: Ipv6Info },
}

/// A DHCP client has a lease for an interface.
pub enum DhcpEvent {
    V4(String, Ipv4Info),
    V6(String, Ipv6Info),
}

impl Clone for DhcpEvent {
    fn clone(&self) -> (r: Self)
        ensures
            r == *self,
    {
        match self {
            DhcpEvent::V4(iface, lease) => DhcpEvent::V4(iface.clone(), *lease),
            DhcpEvent::V6(iface, lease) => DhcpEvent::V6(iface.clone(), *lease),
        }
    }
}

/// A change that the manager tells its subscribers of.
#[derive(Debug, PartialEq, Eq)]
pub enum NetCardEvent {
    /// A card has been added.
    Added(NetCardInfo),
    /// A card has been removed.
    Removed(NetCardInfo),
    /// The link or the configuration of a card has changed.
    Changed(NetCardInfo),
}

/// An event in the language of contracts.
pub enum CardEvent {
    Added(Card),
    Removed(Card),
    Changed(Card),
}

impl View for NetCardEvent {
    type V = CardEvent;

    open spec fn view(&self) -> CardEvent {
        match self {
            NetCardEvent::Added(c) => CardEvent::Added(c@),
            NetCardEvent::Removed(c) => CardEvent::Removed(c@),
            NetCardEvent::Changed(c) => CardEvent::Changed(c@),
        }
    }
}

impl Clone for NetCardEvent {
    fn clone(&self) -> (r: Self)
        ensures
            r == *self,
    {
        match self {
            NetCardEvent::Added(c) => NetCardEvent::Added(c.clone()),
            NetCardEvent::Removed(c) => NetCardEvent::Removed(c.clone()),
            NetCardEvent::Changed(c) => NetCardEvent::Changed(c.clone()),
        }
    }
}

/// Why a request of the manager failed.
#[derive(Debug, PartialEq, Eq)]
pub enum NetError {
    /// There is no card of that name.
    NotFound(String),
    /// A lease came for a card that is not known.
    NotCached(String),
    /// Outside work failed; the text says how.
    Outside(String),
    /// The manager takes no more commands.
    LoopClosed,
    /// The manager gave no answer.
    DroppedReply,
}

/// The message for an interface that is not known.
pub open spec fn not_found_text(iface: Seq<char>) -> Seq<char> {
    "Interface '"@ + iface + "' not found"@
}

/// The message for a lease of an interface that is not known.
pub open spec fn not_cached_text(iface: Seq<char>) -> Seq<char> {
    "Interface "@ + iface + " not found in cache"@
}

impl View for NetError {
    type V = Seq<char>;

    /// The message of the error.
    open spec fn view(&self) -> Seq<char> {
        match self {
            NetError::NotFound(iface) => not_found_text(iface@),
            NetError::NotCached(iface) => not_cached_text(iface@),
            NetError::Outside(text) => text@,
            NetError::LoopClosed => "event loop closed"@,
            NetError::DroppedReply => "dropped reply"@,
        }
    }
}

impl Clone for NetError {
    fn clone(&self) -> (r: Self)
        ensures
            r == *self,
    {
        match self {
            NetError::NotFound(iface) => NetError::NotFound(iface.clone()),
            NetError::NotCached(iface) => NetError::NotCached(iface.clone()),
            NetError::Outside(text) => NetError::Outside(text.clone()),
            NetError::LoopClosed => NetError::LoopClosed,
            NetError::DroppedReply => NetError::DroppedReply,
        }
    }
}

impl NetError {
    /// The message of the error.
    pub fn message(&self) -> (r: String)
        ensures
            r@ == self@,
    {
        match self {
            NetError::NotFound(iface) => {
                let mut out = "Interface '".to_string();
                out.append(iface.as_str());
                out.append("' not found");
                out
            },
            NetError::NotCached(iface) => {
                let mut out = "Interface ".to_string();
                out.append(iface.as_str());
                out.append(" not found in cache");
                out
            },
            NetError::Outside(text) => text.clone(),
            NetError::LoopClosed => "event loop closed".to_string(),
            NetError::DroppedReply => "dropped reply".to_string(),
        }
    }
}

/// What the manager's handle answers a caller: the reply that came, or why none did.
/// `sent` says whether the command reached the manager, `reply` what came back.
pub fn settle_reply<T>(sent: bool, reply: Option<Result<T, NetError>>) -> (r: Result<T, NetError>)
    ensures
        r == (if !sent {
            Err::<T, NetError>(NetError::LoopClosed)
        } else {
            match reply {
                Some(result) => result,
                None => Err::<T, NetError>(NetError::DroppedReply),
            }
        }),
{
    if !sent {
        return Err(NetError::LoopClosed);
    }
    match reply {
        Some(result) => result,
        None => Err(NetError::DroppedReply),
    }
}

}
