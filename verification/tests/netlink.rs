use netman::network::monitor::{parse_link_event, KernelMessage, LinkEvent, LinkMonitor, Wake, WatchStep};
use netman::network::netlink::{
    link_name, physical, prefix_len, speed_path, Address4, Address6, LinkAttr, LinkMessage, LinkReply, NetRequest, Netlink,
    Route4, Route6,
};
use netman::network::NetError;
use netman::{Ipv4Addr, Ipv6Addr, LinkState};
use rtnetlink::packet_route::link::InfoKind;

const UP: u32 = 1;
const LOOPBACK: u32 = 8;
const RUNNING: u32 = 64;

fn link(index: u32, flags: u32, name: &str) -> LinkMessage {
    LinkMessage { index, flags, attributes: vec![LinkAttr::Other, LinkAttr::IfName(name.to_string())] }
}

fn found(index: u32) -> LinkReply {
    Some(Ok(link(index, UP, "eth0")))
}

fn of_kind(index: u32, name: &str, kind: &str) -> LinkMessage {
    let mut msg = link(index, UP, name);
    msg.attributes.push(LinkAttr::Kind(kind.to_string()));
    msg
}

#[test]
fn names_are_listed_without_loopback() {
    let nameless = LinkMessage { index: 4, flags: 0, attributes: vec![LinkAttr::Other] };
    let links = vec![
        Ok(link(1, UP | LOOPBACK, "lo")),
        Ok(link(2, UP, "eth0")),
        Ok(of_kind(5, "br0", "bridge")),
        Ok(nameless),
        Ok(of_kind(6, "can0", "can")),
        Ok(of_kind(7, "veth1", "veth")),
        Ok(link(3, 0, "wlan0")),
    ];
    let expected: Vec<String> = ["eth0", "can0", "wlan0"].iter().map(|s| s.to_string()).collect();
    assert_eq!(Netlink::get_all_iface_names(&links), Ok(expected));
}

#[test]
fn physical_interfaces() {
    assert!(physical(&link(2, UP, "eth0")));
    assert!(!physical(&link(1, UP | LOOPBACK, "lo")));
    for kind in ["can", "dsa", "ipoib", "wwan"] {
        assert!(physical(&of_kind(2, "x", kind)), "{}", kind);
    }
    for kind in ["bridge", "veth", "tun", "bond", "vlan", "dummy", "wireguard", "vxlan", "sit", "vcan", "macvlan", "", "CAN"] {
        assert!(!physical(&of_kind(2, "x", kind)), "{}", kind);
    }
}

#[test]
fn kinds_are_spelled_as_by_the_kernel() {
    for (kind, physical_kind) in [
        (InfoKind::Can, true),
        (InfoKind::Dsa, true),
        (InfoKind::Ipoib, true),
        (InfoKind::Wwan, true),
        (InfoKind::Bridge, false),
        (InfoKind::Veth, false),
        (InfoKind::Tun, false),
    ] {
        assert_eq!(physical(&of_kind(2, "x", &kind.to_string())), physical_kind, "{}", kind);
    }
}

#[test]
fn a_failed_listing_fails() {
    let links = vec![Ok(link(2, UP, "eth0")), Err("no buffer".to_string()), Err("later".to_string())];
    assert_eq!(Netlink::get_all_iface_names(&links), Err(NetError::Outside("no buffer".to_string())));
}

#[test]
fn the_first_name_is_the_name() {
    let two = LinkMessage {
        index: 1,
        flags: 0,
        attributes: vec![LinkAttr::IfName("a".to_string()), LinkAttr::IfName("b".to_string())],
    };
    assert_eq!(link_name(&two), Some("a".to_string()));
}

#[test]
fn hardware_of_a_link() {
    let mut msg = link(7, UP | RUNNING | 0x1002, "eth0");
    msg.attributes.push(LinkAttr::Address(vec![1, 2, 3, 4, 5, 6]));
    msg.attributes.push(LinkAttr::Address(vec![9, 8, 7, 6, 5, 4]));
    msg.attributes.push(LinkAttr::Address(vec![0; 20]));
    let h = Netlink::get_hardware_info("eth0", &Some(Ok(msg)), &Some(" 1000\n".to_string())).unwrap();
    assert_eq!(h.ifindex, 7);
    assert_eq!(h.mac, [9, 8, 7, 6, 5, 4]);
    assert_eq!(h.bandwidth, 1000);
    assert_eq!(h.state, LinkState::Up);
}

#[test]
fn hardware_without_address_or_speed() {
    for speed in [None, Some("-1\n".to_string()), Some("fast".to_string()), Some("".to_string())] {
        let h = Netlink::get_hardware_info("eth0", &found(3), &speed).unwrap();
        assert_eq!(h.mac, [0; 6]);
        assert_eq!(h.bandwidth, 0);
    }
}

#[test]
fn link_state_follows_the_flags() {
    let state = |flags: u32| {
        Netlink::get_hardware_info("eth0", &Some(Ok(link(1, flags, "eth0"))), &None).unwrap().state
    };
    assert_eq!(state(0), LinkState::Down);
    assert_eq!(state(RUNNING), LinkState::Down);
    assert_eq!(state(UP), LinkState::CableUnplugged);
    assert_eq!(state(UP | RUNNING), LinkState::Up);
    assert_eq!(state(!0), LinkState::Up);
}

#[test]
fn a_link_that_is_not_there() {
    let r = Netlink::get_hardware_info("eth9", &None, &None);
    assert_eq!(r, Err(NetError::NotFound("eth9".to_string())));
    assert_eq!(r.unwrap_err().message(), "Interface 'eth9' not found");
    assert_eq!(
        Netlink::get_ifindex_by_name("eth9", &Some(Err("denied".to_string()))),
        Err(NetError::Outside("denied".to_string()))
    );
    assert_eq!(Netlink::get_ifindex_by_name("eth0", &found(5)), Ok(5));
}

#[test]
fn prefix_lengths_of_masks() {
    assert_eq!(prefix_len(Ipv4Addr::new(0, 0, 0, 0)), 0);
    assert_eq!(prefix_len(Ipv4Addr::new(255, 255, 255, 0)), 24);
    assert_eq!(prefix_len(Ipv4Addr::new(255, 255, 255, 252)), 30);
    assert_eq!(prefix_len(Ipv4Addr::new(255, 255, 255, 255)), 32);
    assert_eq!(prefix_len(Ipv4Addr::new(255, 0, 255, 1)), 17);
    for k in 0..=32u32 {
        let bits: u32 = if k == 0 { 0 } else { !0u32 << (32 - k) };
        let o = bits.to_be_bytes();
        assert_eq!(prefix_len(Ipv4Addr::new(o[0], o[1], o[2], o[3])) as u32, k);
    }
}

#[test]
fn requests_for_addresses() {
    let ip = Ipv4Addr::new(192, 168, 1, 10);
    let mask = Ipv4Addr::new(255, 255, 255, 0);
    let a = Address4 { index: 5, ip, prefix_len: 24 };
    assert_eq!(Netlink::set_ipv4_address("eth0", &found(5), ip, mask), Ok(NetRequest::PutAddress4(a)));
    assert_eq!(Netlink::del_ipv4_address("eth0", &found(5), ip, mask), Ok(NetRequest::DeleteAddress4(a)));
    let ip6 = Ipv6Addr::new(0xfd00, 0, 0, 0, 0, 0, 0, 0x10);
    let b = Address6 { index: 5, ip: ip6, prefix_len: 64 };
    assert_eq!(Netlink::set_ipv6_address("eth0", &found(5), ip6, 64), Ok(NetRequest::PutAddress6(b)));
    assert_eq!(Netlink::del_ipv6_address("eth0", &found(5), ip6, 64), Ok(NetRequest::DeleteAddress6(b)));
    assert_eq!(
        Netlink::set_ipv4_address("eth1", &None, ip, mask),
        Err(NetError::NotFound("eth1".to_string()))
    );
}

#[test]
fn requests_for_gateways() {
    let gw = Ipv4Addr::new(192, 168, 1, 1);
    let r = Route4 { index: 5, destination: Ipv4Addr::unspecified(), prefix_len: 0, gateway: gw };
    assert_eq!(Netlink::set_ipv4_gateway("eth0", &found(5), gw), Ok(NetRequest::PutRoute4(r)));
    assert_eq!(Netlink::del_ipv4_gateway("eth0", &found(5), gw), Ok(NetRequest::DeleteRoute4(r)));
    let gw6 = Ipv6Addr::new(0xfe80, 0, 0, 0, 0, 0, 0, 1);
    let s = Route6 { index: 5, destination: Ipv6Addr::unspecified(), prefix_len: 0, gateway: gw6 };
    assert_eq!(Netlink::set_ipv6_gateway("eth0", &found(5), gw6), Ok(NetRequest::PutRoute6(s)));
    assert_eq!(Netlink::del_ipv6_gateway("eth0", &found(5), gw6), Ok(NetRequest::DeleteRoute6(s)));
    assert_eq!(
        Netlink::del_ipv6_gateway("eth0", &Some(Err("gone".to_string())), gw6),
        Err(NetError::Outside("gone".to_string()))
    );
}

#[test]
fn the_speed_file() {
    assert_eq!(speed_path("eth0"), "/sys/class/net/eth0/speed");
}

#[test]
fn kernel_messages_report_links() {
    let there = LinkEvent { iface_name: "eth0".to_string(), added: true };
    let gone = LinkEvent { iface_name: "eth0".to_string(), added: false };
    assert_eq!(parse_link_event(&KernelMessage::NewLink(link(1, 0, "eth0"))), Some(there));
    assert_eq!(parse_link_event(&KernelMessage::DelLink(link(1, 0, "eth0"))), Some(gone));
    assert_eq!(parse_link_event(&KernelMessage::Other), None);
    let nameless = LinkMessage { index: 1, flags: 0, attributes: vec![] };
    assert_eq!(parse_link_event(&KernelMessage::NewLink(nameless)), None);
}

#[test]
fn the_watch_starts_once() {
    let mut m = LinkMonitor::new();
    assert!(m.start());
    assert!(!m.start());
    assert!(!m.start());
}

#[test]
fn the_watch_sends_waits_and_ends() {
    let ev = LinkEvent { iface_name: "eth0".to_string(), added: true };
    assert_eq!(LinkMonitor::step(Wake::Message(KernelMessage::NewLink(link(1, 0, "eth0")))), WatchStep::Send(ev));
    assert_eq!(LinkMonitor::step(Wake::Message(KernelMessage::Other)), WatchStep::Wait);
    assert_eq!(LinkMonitor::step(Wake::Stop), WatchStep::Exit);
    assert_eq!(LinkMonitor::step(Wake::Closed), WatchStep::Exit);
    assert_eq!(LinkMonitor::step(Wake::NotSent), WatchStep::Exit);
}

#[test]
fn link_events_are_cloned() {
    let ev = LinkEvent { iface_name: "eth0".to_string(), added: true };
    assert_eq!(ev.clone(), ev);
}
