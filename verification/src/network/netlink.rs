//! What the kernel says of links, and what is asked of it.
//!
//! A request for an interface is made in two turns: the link is looked up by its name,
//! and what came of that is turned into the request proper, or into an error.
use super::{not_found_text, NetError};
use crate::number::{dec, is_digit, lemma_dec, number_of, parse_number};
use crate::text::{chars_of, str_same, trim, trimmed};
use crate::{HardwareInfo, Ipv4Addr, Ipv6Addr, LinkState};
use rtnetlink::packet_route::link::LinkFlags;
use vstd::prelude::*;

verus! {

// ---------------------------------------------------------------------------
// Messages
// ---------------------------------------------------------------------------

/// An attribute of a link, as far as it is of interest.
#[derive(Debug, PartialEq, Eq)]
pub enum LinkAttr {
    /// The name of the interface.
    IfName(String),
    /// The hardware address.
    Address(Vec<u8>),
    /// The kind of the link. Links that a driver makes for its hardware mostly have
    /// none.
    Kind(String),
    /// Anything else.
    Other,
}

/// What the kernel says of a link.
#[derive(Debug, PartialEq, Eq)]
pub struct LinkMessage {
    /// The interface index.
    pub index: u32,
    /// The bits of the link's flags.
    pub flags: u32,
    pub attributes: Vec<LinkAttr>,
}

/// A flag of a link that decides something here.
#[derive(Clone, Copy, Debug, PartialEq, Eq)]
pub enum LinkFlag {
    Up,
    Running,
    Loopback,
}

/// The bit of a flag.
pub open spec fn flag_bit(flag: LinkFlag) -> u32 {
    match flag {
        LinkFlag::Up => 1,
        LinkFlag::Running => 64,
        LinkFlag::Loopback => 8,
    }
}

/// Whether a flag is among the bits of a link's flags.
pub open spec fn has_flag(flags: u32, flag: LinkFlag) -> bool {
    flags & flag_bit(flag) == flag_bit(flag)
}

/// `LinkFlags::contains` of `netlink-packet-route`, on flags made of their bits by
/// `LinkFlags::from_bits_retain`: whether all bits of the flag are among them. The bits
/// of the three flags are those of `IFF_UP`, `IFF_RUNNING` and `IFF_LOOPBACK`.
#[verifier::external_body]
fn flags_contain(flags: u32, flag: LinkFlag) -> (r: bool)
    ensures
        r == has_flag(flags, flag),
{
    LinkFlags::from_bits_retain(flags).contains(match flag {
        LinkFlag::Up => LinkFlags::Up,
        LinkFlag::Running => LinkFlags::Running,
        LinkFlag::Loopback => LinkFlags::Loopback,
    })
}

// ---------------------------------------------------------------------------
// Names
// ---------------------------------------------------------------------------

/// The first name among some attributes.
pub open spec fn first_name(attrs: Seq<LinkAttr>) -> Option<Seq<char>>
    decreases attrs.len(),
{
    if attrs.len() == 0 {
        None
    } else {
        match attrs[0] {
            LinkAttr::IfName(name) => Some(name@),
            _ => first_name(attrs.drop_first()),
        }
    }
}

/// The name among some attributes is the one of the first attribute that holds a name:
/// none where there is no such attribute.
pub proof fn law_first_name(attrs: Seq<LinkAttr>)
    ensures
        first_name(attrs) is None <==> forall|i: int|
            0 <= i < attrs.len() ==> !(#[trigger] attrs[i] is IfName),
        forall|i: int|
            0 <= i < attrs.len() && (#[trigger] attrs[i] is IfName) && (forall|k: int|
                0 <= k < i ==> !(#[trigger] attrs[k] is IfName)) ==> first_name(attrs) == Some(
                attrs[i]->IfName_0@,
            ),
    decreases attrs.len(),
{
    if attrs.len() > 0 {
        let rest = attrs.drop_first();
        law_first_name(rest);
        assert forall|i: int| 0 < i < attrs.len() implies #[trigger] attrs[i] == rest[i - 1] by {}
        assert forall|i: int| 0 <= i < rest.len() implies #[trigger] rest[i] == attrs[i + 1] by {}
        assert forall|i: int|
            0 <= i < attrs.len() && (#[trigger] attrs[i] is IfName) && (forall|k: int|
                0 <= k < i ==> !(#[trigger] attrs[k] is IfName)) implies first_name(attrs) == Some(
            attrs[i]->IfName_0@,
        ) by {
            if i > 0 {
                assert(!(attrs[0] is IfName));
                assert(rest[i - 1] is IfName);
                assert forall|k: int| 0 <= k < i - 1 implies !(#[trigger] rest[k] is IfName) by {
                    assert(rest[k] == attrs[k + 1]);
                }
            }
        }
    }
}

/// The name of a link: its first name attribute.
pub fn link_name(link: &LinkMessage) -> (r: Option<String>)
    ensures
        match r {
            Some(name) => first_name(link.attributes@) == Some(name@),
            None => first_name(link.attributes@) is None,
        },
{
    let mut i: usize = 0;
    assert(link.attributes@.skip(0) == link.attributes@);
    while i < link.attributes.len()
        invariant
            i <= link.attributes@.len(),
            first_name(link.attributes@.skip(i as int)) == first_name(link.attributes@),
        decreases link.attributes.len() - i,
    {
        proof {
            assert(link.attributes@.skip(i as int).drop_first() =~= link.attributes@.skip(i + 1));
        }
        match &link.attributes[i] {
            LinkAttr::IfName(name) => {
                return Some(name.clone());
            },
            _ => {},
        }
        i += 1;
    }
    None
}

/// Whether a kind is one of real hardware: a CAN controller, a port of a switch chip, an
/// InfiniBand adapter or a modem. Links of every other kind are made by software:
/// bridges, bonds, tunnels, virtual pairs and the like.
pub open spec fn is_hardware_kind(kind: Seq<char>) -> bool {
    kind == "can"@ || kind == "dsa"@ || kind == "ipoib"@ || kind == "wwan"@
}

/// Whether a link is a physical interface: it is no loopback link, and it has no kind
/// but one of real hardware.
pub open spec fn is_physical(link: LinkMessage) -> bool {
    &&& !has_flag(link.flags, LinkFlag::Loopback)
    &&& forall|i: int|
        0 <= i < link.attributes@.len() ==> (#[trigger] link.attributes@[i] matches LinkAttr::Kind(
            kind,
        ) ==> is_hardware_kind(kind@))
}

/// A link whose loopback bit is set is no physical interface, nor is one with a kind
/// that is made by software. A link whose loopback bit is not set is one if it has no
/// kind, or none but `can`, `dsa`, `ipoib` and `wwan`.
pub proof fn law_physical(link: LinkMessage)
    ensures
        link.flags & 8u32 != 0 ==> !is_physical(link),
        link.flags & 8u32 == 0 ==> (is_physical(link) <==> forall|i: int|
            0 <= i < link.attributes@.len() && (#[trigger] link.attributes@[i] is Kind) ==> {
                let kind = link.attributes@[i]->Kind_0@;
                kind == "can"@ || kind == "dsa"@ || kind == "ipoib"@ || kind == "wwan"@
            }),
{
    let f = link.flags;
    assert(f & 8u32 == 8u32 <==> f & 8u32 != 0) by (bit_vector);
}

/// Whether a link is a physical interface.
pub fn physical(link: &LinkMessage) -> (r: bool)
    ensures
        r == is_physical(*link),
{
    if flags_contain(link.flags, LinkFlag::Loopback) {
        return false;
    }
    let mut i: usize = 0;
    while i < link.attributes.len()
        invariant
            i <= link.attributes@.len(),
            forall|k: int|
                0 <= k < i ==> (#[trigger] link.attributes@[k] matches LinkAttr::Kind(kind)
                    ==> is_hardware_kind(kind@)),
        decreases link.attributes.len() - i,
    {
        if let LinkAttr::Kind(kind) = &link.attributes[i] {
            let hardware = str_same(kind.as_str(), "can") || str_same(kind.as_str(), "dsa")
                || str_same(kind.as_str(), "ipoib") || str_same(kind.as_str(), "wwan");
            if !hardware {
                return false;
            }
        }
        i += 1;
    }
    true
}

/// The names of the physical interfaces in a list of links, in order; one without a name
/// is left out. The first failure in the list is the failure of the whole.
pub open spec fn names_of(links: Seq<Result<LinkMessage, String>>) -> Result<
    Seq<Seq<char>>,
    Seq<char>,
>
    decreases links.len(),
{
    if links.len() == 0 {
        Ok(seq![])
    } else {
        match links[0] {
            Err(text) => Err(text@),
            Ok(link) => match names_of(links.drop_first()) {
                Err(text) => Err(text),
                Ok(rest) => if !is_physical(link) {
                    Ok(rest)
                } else {
                    match first_name(link.attributes@) {
                        Some(name) => Ok(seq![name] + rest),
                        None => Ok(rest),
                    }
                },
            },
        }
    }
}

/// Whether the link at place `i` of a list is a physical interface of that name.
pub open spec fn lists(links: Seq<Result<LinkMessage, String>>, i: int, name: Seq<char>) -> bool {
    &&& 0 <= i < links.len()
    &&& links[i] matches Ok(link) && is_physical(link) && first_name(link.attributes@) == Some(name)
}

/// Every name in the list is that of a physical interface, and the name of every
/// physical interface is in the list.
pub proof fn law_physical_names(links: Seq<Result<LinkMessage, String>>)
    ensures
        names_of(links) matches Ok(names) ==> forall|name: Seq<char>| #[trigger]
            names.contains(name) <==> exists|i: int| lists(links, i, name),
    decreases links.len(),
{
    if links.len() > 0 {
        let tail = links.drop_first();
        law_physical_names(tail);
        if let Ok(names) = names_of(links) {
            let rest = names_of(tail)->Ok_0;
            assert forall|name: Seq<char>| #[trigger] names.contains(name) <==> exists|i: int|
                lists(links, i, name) by {
                if names.contains(name) {
                    let k = choose|k: int| 0 <= k < names.len() && names[k] == name;
                    if names == rest {
                        assert(rest.contains(name));
                    } else if k > 0 {
                        assert(rest[k - 1] == name);
                        assert(rest.contains(name));
                    } else {
                        assert(lists(links, 0, name));
                    }
                    if rest.contains(name) {
                        let i = choose|i: int| lists(tail, i, name);
                        assert(lists(links, i + 1, name));
                    }
                }
                if exists|i: int| lists(links, i, name) {
                    let i = choose|i: int| lists(links, i, name);
                    if i > 0 {
                        assert(lists(tail, i - 1, name));
                        assert(rest.contains(name));
                        let k = choose|k: int| 0 <= k < rest.len() && rest[k] == name;
                        let at = k + names.len() - rest.len();
                        assert(names[at] == name);
                    } else {
                        assert(names[0] == name);
                    }
                }
            }
        }
    }
}

/// The names of a list are those of its two halves, one after the other; what fails is
/// what comes first among what fails. Of one link, it is its name if it is a physical
/// interface that has one.
pub proof fn law_names_in_order(
    a: Seq<Result<LinkMessage, String>>,
    b: Seq<Result<LinkMessage, String>>,
    link: LinkMessage,
    text: String,
)
    ensures
        match (names_of(a), names_of(b)) {
            (Ok(x), Ok(y)) => names_of(a + b) == Ok::<Seq<Seq<char>>, Seq<char>>(x + y),
            (Ok(_), Err(e)) => names_of(a + b) == Err::<Seq<Seq<char>>, Seq<char>>(e),
            (Err(e), _) => names_of(a + b) == Err::<Seq<Seq<char>>, Seq<char>>(e),
        },
        names_of(seq![]) == Ok::<Seq<Seq<char>>, Seq<char>>(seq![]),
        names_of(seq![Err(text)]) == Err::<Seq<Seq<char>>, Seq<char>>(text@),
        !is_physical(link) || first_name(link.attributes@) is None ==> names_of(seq![Ok(link)])
            == Ok::<Seq<Seq<char>>, Seq<char>>(seq![]),
        is_physical(link) && first_name(link.attributes@) is Some ==> names_of(seq![Ok(link)])
            == Ok::<Seq<Seq<char>>, Seq<char>>(seq![first_name(link.attributes@)->Some_0]),
    decreases a.len(),
{
    let none = Seq::<Seq<char>>::empty();
    let one: Seq<Result<LinkMessage, String>> = seq![Ok(link)];
    let bad: Seq<Result<LinkMessage, String>> = seq![Err(text)];
    assert(one.drop_first() =~= Seq::empty());
    assert(bad.drop_first() =~= Seq::empty());
    assert(names_of(one.drop_first()) == Ok::<Seq<Seq<char>>, Seq<char>>(none));
    if let Some(name) = first_name(link.attributes@) {
        assert(seq![name] + none =~= seq![name]);
    }
    if a.len() == 0 {
        assert(a + b =~= b);
        if let Ok(y) = names_of(b) {
            assert(none + y =~= y);
        }
    } else {
        let rest = a.drop_first();
        law_names_in_order(rest, b, link, text);
        assert((a + b).drop_first() =~= rest + b);
        if let (Ok(x), Ok(y)) = (names_of(rest), names_of(b)) {
            if let Ok(l) = a[0] {
                if let Some(name) = first_name(l.attributes@) {
                    assert(seq![name] + x + y =~= seq![name] + (x + y));
                }
            }
        }
    }
}

/// The texts of some strings.
pub open spec fn views(v: Seq<String>) -> Seq<Seq<char>> {
    Seq::new(v.len(), |i: int| v[i]@)
}

// ---------------------------------------------------------------------------
// Hardware
// ---------------------------------------------------------------------------

/// The hardware address among some attributes: the last one that has six bytes, or
/// else zeros.
pub open spec fn mac_of(attrs: Seq<LinkAttr>) -> Seq<u8>
    decreases attrs.len(),
{
    if attrs.len() == 0 {
        seq![0u8, 0u8, 0u8, 0u8, 0u8, 0u8]
    } else {
        match attrs.last() {
            LinkAttr::Address(bytes) => if bytes@.len() == 6 {
                bytes@
            } else {
                mac_of(attrs.drop_last())
            },
            _ => mac_of(attrs.drop_last()),
        }
    }
}

/// The state that the flags of a link tell: down unless it is up, without a cable
/// unless it is running.
pub open spec fn state_of(flags: u32) -> LinkState {
    if !has_flag(flags, LinkFlag::Up) {
        LinkState::Down
    } else if !has_flag(flags, LinkFlag::Running) {
        LinkState::CableUnplugged
    } else {
        LinkState::Up
    }
}

/// A link whose `up` bit is not set is down. One whose `up` bit is set is up if its
/// `running` bit is set too, else its cable is unplugged. No other bit counts.
pub proof fn law_state_of_flags(flags: u32)
    ensures
        state_of(flags) == LinkState::Down <==> flags & 1u32 == 0,
        state_of(flags) == LinkState::Up <==> flags & 1u32 != 0 && flags & 64u32 != 0,
        state_of(flags) == LinkState::CableUnplugged <==> flags & 1u32 != 0 && flags & 64u32 == 0,
{
    assert(flags & 1u32 == 1u32 <==> flags & 1u32 != 0) by (bit_vector);
    assert(flags & 64u32 == 64u32 <==> flags & 64u32 != 0) by (bit_vector);
}

/// Whether an attribute is a hardware address of six bytes.
pub open spec fn is_mac(attr: LinkAttr) -> bool {
    attr matches LinkAttr::Address(bytes) && bytes@.len() == 6
}

/// The hardware address is the last one of six bytes, byte for byte, and zeros where
/// there is none.
pub proof fn law_last_mac(attrs: Seq<LinkAttr>)
    ensures
        (forall|i: int| 0 <= i < attrs.len() ==> !is_mac(#[trigger] attrs[i])) ==> mac_of(attrs)
            == seq![0u8, 0u8, 0u8, 0u8, 0u8, 0u8],
        forall|i: int|
            0 <= i < attrs.len() && is_mac(#[trigger] attrs[i]) && (forall|k: int|
                i < k < attrs.len() ==> !is_mac(#[trigger] attrs[k])) ==> mac_of(attrs)
                == attrs[i]->Address_0@,
    decreases attrs.len(),
{
    if attrs.len() > 0 {
        let front = attrs.drop_last();
        law_last_mac(front);
        assert forall|i: int| 0 <= i < front.len() implies #[trigger] front[i] == attrs[i] by {}
        assert(attrs.last() == attrs[attrs.len() - 1]);
        assert forall|i: int|
            0 <= i < attrs.len() && is_mac(#[trigger] attrs[i]) && (forall|k: int|
                i < k < attrs.len() ==> !is_mac(#[trigger] attrs[k])) implies mac_of(attrs)
            == attrs[i]->Address_0@ by {
            if i < attrs.len() - 1 {
                assert(!is_mac(attrs[attrs.len() - 1]));
                assert(is_mac(front[i]));
                assert forall|k: int| i < k < front.len() implies !is_mac(#[trigger] front[k]) by {
                    assert(front[k] == attrs[k]);
                }
            }
        }
        if forall|i: int| 0 <= i < attrs.len() ==> !is_mac(#[trigger] attrs[i]) {
            assert(!is_mac(attrs[attrs.len() - 1]));
        }
    }
}

/// The bandwidth that the speed file of an interface tells: the number in it, or 0 if
/// there is no file or no number.
pub open spec fn bandwidth_of(speed: Option<Seq<char>>) -> nat {
    match speed {
        Some(text) => match number_of(trimmed(text), u32::MAX as nat) {
            Some(n) => n,
            None => 0,
        },
        None => 0,
    }
}

/// A speed file that holds the decimal text of a number tells that number, whatever
/// white space is around it, if it fits in 32 bits. One with a minus sign, one that
/// holds nothing and one that is not there tell none.
pub proof fn law_bandwidth_read(text: Seq<char>, n: nat)
    ensures
        trimmed(text) == dec(n) && n < 4294967296 ==> bandwidth_of(Some(text)) == n,
        trimmed(text) == dec(n) && n >= 4294967296 ==> bandwidth_of(Some(text)) == 0,
        trimmed(text).len() > 0 && trimmed(text)[0] == '-' ==> bandwidth_of(Some(text)) == 0,
        trimmed(text).len() == 0 ==> bandwidth_of(Some(text)) == 0,
        bandwidth_of(None) == 0,
{
    lemma_dec(n);
    assert(is_digit(dec(n)[0]));
    let t = trimmed(text);
    if t.len() > 0 && t[0] == '-' {
        assert(!is_digit(t[0]));
    }
}

/// The path of the file that tells the speed of an interface.
pub fn speed_path(iface_name: &str) -> (r: String)
    ensures
        r@ == "/sys/class/net/"@ + iface_name@ + "/speed"@,
{
    let mut out = "/sys/class/net/".to_string();
    out.append(iface_name);
    out.append("/speed");
    out
}

/// The hardware address of a link.
fn link_mac(link: &LinkMessage) -> (r: [u8; 6])
    ensures
        r@ == mac_of(link.attributes@),
{
    let mut i: usize = link.attributes.len();
    assert(link.attributes@.take(i as int) == link.attributes@);
    while i > 0
        invariant
            i <= link.attributes@.len(),
            mac_of(link.attributes@.take(i as int)) == mac_of(link.attributes@),
        decreases i,
    {
        proof {
            let t = link.attributes@.take(i as int);
            assert(t.drop_last() =~= link.attributes@.take(i - 1));
            assert(t.last() == link.attributes@[i - 1]);
        }
        i -= 1;
        match &link.attributes[i] {
            LinkAttr::Address(b) => {
                if b.len() == 6 {
                    let r = [b[0], b[1], b[2], b[3], b[4], b[5]];
                    assert(r@ =~= b@);
                    return r;
                }
            },
            _ => {},
        }
    }
    let r = [0u8, 0u8, 0u8, 0u8, 0u8, 0u8];
    assert(r@ =~= seq![0u8, 0u8, 0u8, 0u8, 0u8, 0u8]);
    r
}

/// The state of a link.
fn link_state(flags: u32) -> (r: LinkState)
    ensures
        r == state_of(flags),
{
    if !flags_contain(flags, LinkFlag::Up) {
        LinkState::Down
    } else if !flags_contain(flags, LinkFlag::Running) {
        LinkState::CableUnplugged
    } else {
        LinkState::Up
    }
}

/// The bandwidth that the text of a speed file tells.
fn bandwidth(speed: &Option<String>) -> (r: u32)
    ensures
        r == bandwidth_of(match speed {
            Some(text) => Some(text@),
            None => None,
        }),
{
    match speed {
        Some(text) => match parse_number(&trim(&chars_of(text.as_str())), u32::MAX) {
            Some(n) => n,
            None => 0,
        },
        None => 0,
    }
}

// ---------------------------------------------------------------------------
// Prefix lengths
// ---------------------------------------------------------------------------

/// The number of ones in the binary digits of `n`.
pub open spec fn ones(n: nat) -> nat
    decreases n,
{
    if n == 0 {
        0
    } else {
        n % 2 + ones(n / 2)
    }
}

/// An IPv4 address as a number.
pub open spec fn ipv4_number(a: Ipv4Addr) -> nat {
    (((a.octets[0] as nat) * 256 + (a.octets[1] as nat)) * 256 + (a.octets[2] as nat)) * 256 + (
    a.octets[3] as nat)
}

/// The prefix length of a subnet mask: the number of its ones.
pub open spec fn prefix_of(netmask: Ipv4Addr) -> nat {
    ones(ipv4_number(netmask))
}

/// Two to the power of `k`.
pub open spec fn power(k: nat) -> nat
    decreases k,
{
    if k == 0 {
        1
    } else {
        2 * power((k - 1) as nat)
    }
}

/// A number of `k` binary digits has at most `k` ones.
proof fn lemma_ones_bound(n: nat, k: nat)
    requires
        n < power(k),
    ensures
        ones(n) <= k,
    decreases k,
{
    if k > 0 && n > 0 {
        lemma_ones_bound(n / 2, (k - 1) as nat);
    }
}

/// The mask whose first `k` digits are ones and the others zeros has prefix length `k`.
pub proof fn law_prefix_of_mask(k: nat, netmask: Ipv4Addr)
    requires
        k <= 32,
        ipv4_number(netmask) == power(32) - power((32 - k) as nat),
    ensures
        prefix_of(netmask) == k,
{
    lemma_power_split(k, (32 - k) as nat);
    lemma_ones_then_zeros(k, (32 - k) as nat);
}

proof fn lemma_power_split(k: nat, z: nat)
    ensures
        power(k + z) - power(z) == (power(k) - 1) * power(z),
        power(k) >= 1,
    decreases k,
{
    if k > 0 {
        lemma_power_split((k - 1) as nat, z);
        let a = power((k - 1) as nat) as int;
        let b = power(z) as int;
        assert(power((k + z) as nat) == 2 * power((k + z - 1) as nat));
        assert((2 * a - 1) * b == 2 * ((a - 1) * b) + b) by (nonlinear_arith);
    } else {
        let b = power(z) as int;
        assert((1 - 1) * b == 0) by (nonlinear_arith);
    }
}

proof fn lemma_ones_then_zeros(k: nat, z: nat)
    ensures
        ones(((power(k) - 1) * power(z)) as nat) == k,
    decreases k + z,
{
    lemma_power_split(k, z);
    lemma_power_split(z, 0);
    let a = (power(k) - 1) as int;
    if z > 0 {
        lemma_ones_then_zeros(k, (z - 1) as nat);
        let b = power((z - 1) as nat) as int;
        assert(a * (2 * b) == 2 * (a * b)) by (nonlinear_arith);
        assert(a * b >= 0) by (nonlinear_arith)
            requires
                a >= 0,
                b >= 0,
        ;
        lemma_ones_double((a * b) as nat);
    } else {
        assert(a * 1 == a);
        if k > 0 {
            lemma_power_split((k - 1) as nat, 0);
            lemma_ones_then_zeros((k - 1) as nat, 0);
            assert((power((k - 1) as nat) - 1) * 1 == power((k - 1) as nat) - 1);
            assert(a / 2 == power((k - 1) as nat) - 1);
            assert(a % 2 == 1);
        }
    }
}

proof fn lemma_ones_double(n: nat)
    ensures
        ones(2 * n) == ones(n),
{
    if n > 0 {
        assert((2 * n) / 2 == n && (2 * n) % 2 == 0);
    }
}

/// Every binary digit counts once: a zero at the end for nothing, a one for one.
pub proof fn law_ones(n: nat)
    ensures
        ones(0) == 0,
        ones(2 * n) == ones(n),
        ones(2 * n + 1) == ones(n) + 1,
{
    lemma_ones_double(n);
    assert((2 * n + 1) / 2 == n && (2 * n + 1) % 2 == 1);
}

proof fn lemma_ones_joined(a: nat, b: nat, k: nat)
    requires
        b < power(k),
    ensures
        ones(a * power(k) + b) == ones(a) + ones(b),
    decreases k,
{
    if k == 0 {
        assert(a * 1 + b == a);
        assert(ones(0) == 0);
    } else {
        let half = power((k - 1) as nat);
        lemma_ones_joined(a, b / 2, (k - 1) as nat);
        let low = a * half + b / 2;
        assert(a * (2 * half) == 2 * (a * half)) by (nonlinear_arith);
        assert(a * power(k) + b == 2 * low + b % 2);
        law_ones(low);
        law_ones(b / 2);
        if b % 2 == 0 {
            assert(b == 2 * (b / 2));
        } else {
            assert(b == 2 * (b / 2) + 1);
        }
    }
}

/// The prefix length of any mask, also of one with gaps, is the number of ones in its
/// four octets together.
pub proof fn law_prefix_of_octets(netmask: Ipv4Addr)
    ensures
        prefix_of(netmask) == ones(netmask.octets[0] as nat) + ones(netmask.octets[1] as nat)
            + ones(netmask.octets[2] as nat) + ones(netmask.octets[3] as nat),
{
    let (a, b, c, d) = (
        netmask.octets[0] as nat,
        netmask.octets[1] as nat,
        netmask.octets[2] as nat,
        netmask.octets[3] as nat,
    );
    assert(power(8) == 256) by {
        reveal_with_fuel(power, 9);
    }
    lemma_ones_joined(a, b, 8);
    lemma_ones_joined(a * 256 + b, c, 8);
    lemma_ones_joined((a * 256 + b) * 256 + c, d, 8);
}

/// The prefix length of a subnet mask.
pub fn prefix_len(netmask: Ipv4Addr) -> (r: u8)
    ensures
        r == prefix_of(netmask),
        r <= 32,
{
    let v: u32 = ((netmask.octets[0] as u32 * 256 + netmask.octets[1] as u32) * 256
        + netmask.octets[2] as u32) * 256 + netmask.octets[3] as u32;
    proof {
        assert(power(32) == 4294967296) by {
            reveal_with_fuel(power, 33);
        }
        lemma_ones_bound(v as nat, 32);
    }
    let mut n: u32 = v;
    let mut count: u8 = 0;
    while n > 0
        invariant
            count + ones(n as nat) == ones(v as nat),
            ones(v as nat) <= 32,
        decreases n,
    {
        count += (n % 2) as u8;
        n /= 2;
    }
    count
}

// ---------------------------------------------------------------------------
// Requests
// ---------------------------------------------------------------------------

/// An address of an interface.
#[derive(Clone, Copy, Debug, PartialEq, Eq)]
pub struct Address4 {
    pub index: u32,
    pub ip: Ipv4Addr,
    pub prefix_len: u8,
}

#[derive(Clone, Copy, Debug, PartialEq, Eq)]
pub struct Address6 {
    pub index: u32,
    pub ip: Ipv6Addr,
    pub prefix_len: u8,
}

/// A route out of an interface.
#[derive(Clone, Copy, Debug, PartialEq, Eq)]
pub struct Route4 {
    pub index: u32,
    pub destination: Ipv4Addr,
    pub prefix_len: u8,
    pub gateway: Ipv4Addr,
}

#[derive(Clone, Copy, Debug, PartialEq, Eq)]
pub struct Route6 {
    pub index: u32,
    pub destination: Ipv6Addr,
    pub prefix_len: u8,
    pub gateway: Ipv6Addr,
}

/// What is asked of the kernel. What is put takes the place of the like that is there.
#[derive(Clone, Copy, Debug, PartialEq, Eq)]
pub enum NetRequest {
    PutAddress4(Address4),
    DeleteAddress4(Address4),
    PutAddress6(Address6),
    DeleteAddress6(Address6),
    PutRoute4(Route4),
    DeleteRoute4(Route4),
    PutRoute6(Route6),
    DeleteRoute6(Route6),
}

/// What came of the look-up of a link by its name: nothing, a failure or the link.
pub type LinkReply = Option<Result<LinkMessage, String>>;

/// The index of the link that was looked up, or the message of the error.
pub open spec fn index_of(name: Seq<char>, reply: LinkReply) -> Result<u32, Seq<char>> {
    match reply {
        Some(Ok(link)) => Ok(link.index),
        Some(Err(text)) => Err(text@),
        None => Err(not_found_text(name)),
    }
}

/// The default route through a gateway: the one to everywhere.
pub open spec fn default_route4(index: u32, gateway: Ipv4Addr) -> Route4 {
    Route4 { index, destination: Ipv4Addr::zero(), prefix_len: 0, gateway }
}

pub open spec fn default_route6(index: u32, gateway: Ipv6Addr) -> Route6 {
    Route6 { index, destination: Ipv6Addr::zero(), prefix_len: 0, gateway }
}

/// Whether a request is for `make(index)` of the link that was looked up, and fails
/// where the look-up did.
pub open spec fn answers(
    r: Result<NetRequest, NetError>,
    name: Seq<char>,
    reply: LinkReply,
    make: spec_fn(u32) -> NetRequest,
) -> bool {
    match index_of(name, reply) {
        Ok(index) => r == Ok::<NetRequest, NetError>(make(index)),
        Err(text) => r matches Err(e) && e@ == text,
    }
}

/// A link that was found has its own index; a look-up that failed fails with its
/// message; and a name that no link has is told with that name. A request is made for
/// the index of the link, and fails where there is none.
pub proof fn law_looked_up(
    name: Seq<char>,
    link: LinkMessage,
    text: String,
    make: spec_fn(u32) -> NetRequest,
    r: Result<NetRequest, NetError>,
)
    ensures
        index_of(name, Some(Ok(link))) == Ok::<u32, Seq<char>>(link.index),
        index_of(name, Some(Err(text))) == Err::<u32, Seq<char>>(text@),
        index_of(name, None) == Err::<u32, Seq<char>>("Interface '"@ + name + "' not found"@),
        answers(r, name, Some(Ok(link)), make) <==> r == Ok::<NetRequest, NetError>(
            make(link.index),
        ),
        answers(r, name, Some(Err(text)), make) ==> (r matches Err(e) && e@ == text@),
        answers(r, name, None, make) ==> (r matches Err(e) && e@ == "Interface '"@ + name
            + "' not found"@),
{
}

/// A default route leads everywhere: to no address, with no digit of prefix, out of the
/// interface and through the gateway that were given.
pub proof fn law_default_route(index: u32, gateway4: Ipv4Addr, gateway6: Ipv6Addr)
    ensures
        ({
            let r4 = default_route4(index, gateway4);
            let r6 = default_route6(index, gateway6);
            &&& r4.index == index && r4.gateway == gateway4
            &&& r4.prefix_len == 0 && r4.destination.octets@ == seq![0u8, 0u8, 0u8, 0u8]
            &&& r6.index == index && r6.gateway == gateway6
            &&& r6.prefix_len == 0 && r6.destination.segments@ == seq![
                0u16,
                0u16,
                0u16,
                0u16,
                0u16,
                0u16,
                0u16,
                0u16,
            ]
        }),
{
    assert(default_route4(index, gateway4).destination.octets@ =~= seq![0u8, 0u8, 0u8, 0u8]);
    assert(default_route6(index, gateway6).destination.segments@ =~= seq![
        0u16,
        0u16,
        0u16,
        0u16,
        0u16,
        0u16,
        0u16,
        0u16,
    ]);
}

/// The requests for an interface.
pub struct Netlink;

impl Netlink {
    /// The index of a link that was looked up by its name.
    pub fn get_ifindex_by_name(name: &str, reply: &LinkReply) -> (r: Result<u32, NetError>)
        ensures
            match index_of(name@, *reply) {
                Ok(index) => r == Ok::<u32, NetError>(index),
                Err(text) => r matches Err(e) && e@ == text,
            },
    {
        match reply {
            Some(Ok(link)) => Ok(link.index),
            Some(Err(text)) => Err(NetError::Outside(text.clone())),
            None => Err(NetError::NotFound(name.to_string())),
        }
    }

    /// Give an interface an IPv4 address.
    pub fn set_ipv4_address(
        iface_name: &str,
        reply: &LinkReply,
        ip: Ipv4Addr,
        netmask: Ipv4Addr,
    ) -> (r: Result<NetRequest, NetError>)
        ensures
            answers(
                r,
                iface_name@,
                *reply,
                |index: u32|
                    NetRequest::PutAddress4(
                        Address4 { index, ip, prefix_len: prefix_of(netmask) as u8 },
                    ),
            ),
    {
        match Self::get_ifindex_by_name(iface_name, reply) {
            Ok(index) => Ok(
                NetRequest::PutAddress4(Address4 { index, ip, prefix_len: prefix_len(netmask) }),
            ),
            Err(e) => Err(e),
        }
    }

    /// Take an IPv4 address from an interface.
    pub fn del_ipv4_address(
        iface_name: &str,
        reply: &LinkReply,
        ip: Ipv4Addr,
        netmask: Ipv4Addr,
    ) -> (r: Result<NetRequest, NetError>)
        ensures
            answers(
                r,
                iface_name@,
                *reply,
                |index: u32|
                    NetRequest::DeleteAddress4(
                        Address4 { index, ip, prefix_len: prefix_of(netmask) as u8 },
                    ),
            ),
    {
        match Self::get_ifindex_by_name(iface_name, reply) {
            Ok(index) => Ok(
                NetRequest::DeleteAddress4(Address4 { index, ip, prefix_len: prefix_len(netmask) }),
            ),
            Err(e) => Err(e),
        }
    }

    /// Give an interface an IPv6 address.
    pub fn set_ipv6_address(
        iface_name: &str,
        reply: &LinkReply,
        ip: Ipv6Addr,
        prefix_len: u8,
    ) -> (r: Result<NetRequest, NetError>)
        ensures
            answers(
                r,
                iface_name@,
                *reply,
                |index: u32| NetRequest::PutAddress6(Address6 { index, ip, prefix_len }),
            ),
    {
        match Self::get_ifindex_by_name(iface_name, reply) {
            Ok(index) => Ok(NetRequest::PutAddress6(Address6 { index, ip, prefix_len })),
            Err(e) => Err(e),
        }
    }

    /// Take an IPv6 address from an interface.
    pub fn del_ipv6_address(
        iface_name: &str,
        reply: &LinkReply,
        ip: Ipv6Addr,
        prefix_len: u8,
    ) -> (r: Result<NetRequest, NetError>)
        ensures
            answers(
                r,
                iface_name@,
                *reply,
                |index: u32| NetRequest::DeleteAddress6(Address6 { index, ip, prefix_len }),
            ),
    {
        match Self::get_ifindex_by_name(iface_name, reply) {
            Ok(index) => Ok(NetRequest::DeleteAddress6(Address6 { index, ip, prefix_len })),
            Err(e) => Err(e),
        }
    }

    /// Make a gateway the IPv4 default route of an interface.
    pub fn set_ipv4_gateway(iface_name: &str, reply: &LinkReply, gateway: Ipv4Addr) -> (r: Result<
        NetRequest,
        NetError,
    >)
        ensures
            answers(
                r,
                iface_name@,
                *reply,
                |index: u32| NetRequest::PutRoute4(default_route4(index, gateway)),
            ),
    {
        match Self::get_ifindex_by_name(iface_name, reply) {
            Ok(index) => Ok(
                NetRequest::PutRoute4(
                    Route4 {
                        index,
                        destination: Ipv4Addr::unspecified(),
                        prefix_len: 0,
                        gateway,
                    },
                ),
            ),
            Err(e) => Err(e),
        }
    }

    /// Take the IPv4 default route through a gateway from an interface.
    pub fn del_ipv4_gateway(iface_name: &str, reply: &LinkReply, gateway: Ipv4Addr) -> (r: Result<
        NetRequest,
        NetError,
    >)
        ensures
            answers(
                r,
                iface_name@,
                *reply,
                |index: u32| NetRequest::DeleteRoute4(default_route4(index, gateway)),
            ),
    {
        match Self::get_ifindex_by_name(iface_name, reply) {
            Ok(index) => Ok(
                NetRequest::DeleteRoute4(
                    Route4 {
                        index,
                        destination: Ipv4Addr::unspecified(),
                        prefix_len: 0,
                        gateway,
                    },
                ),
            ),
            Err(e) => Err(e),
        }
    }

    /// Make a gateway the IPv6 default route of an interface.
    pub fn set_ipv6_gateway(iface_name: &str, reply: &LinkReply, gateway: Ipv6Addr) -> (r: Result<
        NetRequest,
        NetError,
    >)
        ensures
            answers(
                r,
                iface_name@,
                *reply,
                |index: u32| NetRequest::PutRoute6(default_route6(index, gateway)),
            ),
    {
        match Self::get_ifindex_by_name(iface_name, reply) {
            Ok(index) => Ok(
                NetRequest::PutRoute6(
                    Route6 {
                        index,
                        destination: Ipv6Addr::unspecified(),
                        prefix_len: 0,
                        gateway,
                    },
                ),
            ),
            Err(e) => Err(e),
        }
    }

    /// Take the IPv6 default route through a gateway from an interface.
    pub fn del_ipv6_gateway(iface_name: &str, reply: &LinkReply, gateway: Ipv6Addr) -> (r: Result<
        NetRequest,
        NetError,
    >)
        ensures
            answers(
                r,
                iface_name@,
                *reply,
                |index: u32| NetRequest::DeleteRoute6(default_route6(index, gateway)),
            ),
    {
        match Self::get_ifindex_by_name(iface_name, reply) {
            Ok(index) => Ok(
                NetRequest::DeleteRoute6(
                    Route6 {
                        index,
                        destination: Ipv6Addr::unspecified(),
                        prefix_len: 0,
                        gateway,
                    },
                ),
            ),
            Err(e) => Err(e),
        }
    }

    /// The names of the physical interfaces among the links that the kernel lists.
    pub fn get_all_iface_names(links: &Vec<Result<LinkMessage, String>>) -> (r: Result<
        Vec<String>,
        NetError,
    >)
        ensures
            match r {
                Ok(names) => names_of(links@) == Ok::<Seq<Seq<char>>, Seq<char>>(views(names@)),
                Err(e) => names_of(links@) == Err::<Seq<Seq<char>>, Seq<char>>(e@),
            },
    {
        let mut out: Vec<String> = Vec::new();
        let mut i: usize = 0;
        assert(links@.skip(0) == links@);
        assert(views(out@) =~= Seq::empty());
        proof {
            lemma_prepended_nothing(names_of(links@));
        }
        while i < links.len()
            invariant
                i <= links@.len(),
                names_of(links@) == prepended(views(out@), names_of(links@.skip(i as int))),
            decreases links.len() - i,
        {
            proof {
                assert(links@.skip(i as int).drop_first() =~= links@.skip(i + 1));
            }
            match &links[i] {
                Err(text) => {
                    return Err(NetError::Outside(text.clone()));
                },
                Ok(link) => {
                    if physical(link) {
                        if let Some(name) = link_name(link) {
                            let ghost before = views(out@);
                            out.push(name);
                            assert(views(out@) =~= before.push(name@));
                            proof {
                                lemma_prepended_one(
                                    before,
                                    name@,
                                    names_of(links@.skip(i + 1)),
                                );
                            }
                        }
                    }
                },
            }
            i += 1;
        }
        assert(views(out@) + Seq::<Seq<char>>::empty() =~= views(out@));
        Ok(out)
    }

    /// The hardware of a link that was looked up by its name. `speed` is what the
    /// interface's speed file holds, if it can be read.
    pub fn get_hardware_info(
        iface_name: &str,
        reply: &LinkReply,
        speed: &Option<String>,
    ) -> (r: Result<HardwareInfo, NetError>)
        ensures
            match *reply {
                Some(Ok(link)) => r matches Ok(h) && h.ifindex == link.index && h.mac@ == mac_of(
                    link.attributes@,
                ) && h.bandwidth == bandwidth_of(
                    match speed {
                        Some(text) => Some(text@),
                        None => None,
                    },
                ) && h.state == state_of(link.flags),
                Some(Err(text)) => r matches Err(e) && e@ == text@,
                None => r matches Err(e) && e@ == not_found_text(iface_name@),
            },
    {
        match reply {
            Some(Ok(link)) => Ok(
                HardwareInfo::new(
                    link.index,
                    link_mac(link),
                    bandwidth(speed),
                    link_state(link.flags),
                ),
            ),
            Some(Err(text)) => Err(NetError::Outside(text.clone())),
            None => Err(NetError::NotFound(iface_name.to_string())),
        }
    }
}

/// A list of names with others before them, unless it is a failure.
spec fn prepended(
    front: Seq<Seq<char>>,
    rest: Result<Seq<Seq<char>>, Seq<char>>,
) -> Result<Seq<Seq<char>>, Seq<char>> {
    match rest {
        Ok(names) => Ok(front + names),
        Err(text) => Err(text),
    }
}

proof fn lemma_prepended_nothing(rest: Result<Seq<Seq<char>>, Seq<char>>)
    ensures
        prepended(Seq::empty(), rest) == rest,
{
    if let Ok(names) = rest {
        assert(Seq::<Seq<char>>::empty() + names =~= names);
    }
}

proof fn lemma_prepended_one(
    front: Seq<Seq<char>>,
    name: Seq<char>,
    rest: Result<Seq<Seq<char>>, Seq<char>>,
)
    ensures
        prepended(front.push(name), rest) == prepended(front, prepended(seq![name], rest)),
{
    if let Ok(names) = rest {
        assert(front.push(name) + names =~= front + (seq![name] + names));
    }
}

}
