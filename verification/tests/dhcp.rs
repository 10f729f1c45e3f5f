use netman::network::dhcp::v4::{self, Lease4, Wake4};
use netman::network::dhcp::v6::{self, Lease6, Wake6};
use netman::network::dhcp::{ClientStep, Dhcp4Client, Dhcp6Client};
use netman::network::DhcpEvent;
use netman::{Ipv4Addr, Ipv4Info, Ipv6Addr, Ipv6Info};

fn a(n: u8) -> Ipv4Addr {
    Ipv4Addr::new(10, 0, 0, n)
}

fn lease4() -> Lease4 {
    Lease4 {
        yiaddr: a(50),
        subnet_mask: Ipv4Addr::new(255, 255, 255, 0),
        gateways: Some(vec![a(1), a(2)]),
        dns_srvs: Some(vec![a(3), a(4), a(5)]),
    }
}

fn lease6(options: Option<Vec<Vec<u8>>>) -> Lease6 {
    Lease6 { address: Ipv6Addr::new(0xfd00, 0, 0, 0, 0, 0, 0, 5), prefix_len: 128, dns_options: options }
}

fn server(n: u8) -> Vec<u8> {
    let mut v = vec![0u8; 16];
    v[15] = n;
    v
}

fn server_addr(n: u16) -> Ipv6Addr {
    Ipv6Addr::new(0, 0, 0, 0, 0, 0, 0, n)
}

#[test]
fn a_lease_becomes_a_configuration() {
    let expected = Ipv4Info {
        ip: a(50),
        netmask: Ipv4Addr::new(255, 255, 255, 0),
        gateway: a(1),
        primary_dns: a(3),
        secondary_dns: a(4),
        ..Ipv4Info::default()
    };
    assert_eq!(v4::parse_lease(&lease4()), expected);
}

#[test]
fn a_lease_with_nothing_in_it() {
    let bare = Lease4 { yiaddr: a(9), subnet_mask: a(0), gateways: None, dns_srvs: Some(vec![]) };
    let info = v4::parse_lease(&bare);
    assert!(info.gateway.is_unspecified() && info.primary_dns.is_unspecified() && info.secondary_dns.is_unspecified());
    let one = Lease4 { yiaddr: a(9), subnet_mask: a(0), gateways: Some(vec![]), dns_srvs: Some(vec![a(7)]) };
    let info = v4::parse_lease(&one);
    assert_eq!(info.primary_dns, a(7));
    assert!(info.secondary_dns.is_unspecified());
}

#[test]
fn the_option_of_dns_servers() {
    assert_eq!(v6::dns_option(), 23);
}

#[test]
fn dns_servers_of_a_v6_lease() {
    let none = (Ipv6Addr::unspecified(), Ipv6Addr::unspecified());
    assert_eq!(v6::parse_v6_dns(&lease6(None)), none);
    assert_eq!(v6::parse_v6_dns(&lease6(Some(vec![]))), none);
    assert_eq!(v6::parse_v6_dns(&lease6(Some(vec![vec![1; 15]]))), none);
    assert_eq!(v6::parse_v6_dns(&lease6(Some(vec![server(1)]))), (server_addr(1), Ipv6Addr::unspecified()));
    let mut three = server(1);
    three.extend(server(2));
    three.extend(server(3));
    assert_eq!(v6::parse_v6_dns(&lease6(Some(vec![three]))), (server_addr(1), server_addr(2)));
    let mut ragged = server(1);
    ragged.extend(vec![7; 5]);
    assert_eq!(v6::parse_v6_dns(&lease6(Some(vec![ragged, server(9)]))), (server_addr(1), server_addr(9)));
}

#[test]
fn a_v6_lease_becomes_a_configuration() {
    let expected = Ipv6Info {
        ip: Ipv6Addr::new(0xfd00, 0, 0, 0, 0, 0, 0, 5),
        prefix_len: 128,
        primary_dns: server_addr(1),
        ..Ipv6Info::default()
    };
    assert_eq!(v6::parse_lease(&lease6(Some(vec![server(1)]))), expected);
}

#[test]
fn a_client_starts_once_and_stops() {
    let mut c = Dhcp4Client::new("eth0".to_string());
    assert!(c.start());
    assert!(!c.start());
    match c.step(Wake4::Lease(lease4())) {
        ClientStep::Tell(DhcpEvent::V4(iface, info)) => {
            assert_eq!(iface, "eth0");
            assert_eq!(info, v4::parse_lease(&lease4()));
        }
        _ => panic!("not told"),
    }
    assert!(c.stop());
    assert_eq!(c.release(), Some(lease4()));
    assert!(!c.stop());
    assert_eq!(c.release(), None);
    assert!(c.start());
}

#[test]
fn a_v6_client_starts_once_and_stops() {
    let mut c = Dhcp6Client::new("eth0".to_string());
    assert!(!c.stop());
    assert_eq!(c.release(), None);
    assert!(c.start());
    assert!(!c.start());
    match c.step(Wake6::Lease(lease6(None))) {
        ClientStep::Tell(DhcpEvent::V6(iface, info)) => {
            assert_eq!(iface, "eth0");
            assert_eq!(info.prefix_len, 128);
        }
        _ => panic!("not told"),
    }
    assert!(c.stop());
    assert_eq!(c.release(), Some(lease6(None)));
}

#[test]
fn the_task_of_a_client() {
    let mut c = Dhcp4Client::new("eth0".to_string());
    assert!(matches!(c.step(Wake4::Progress), ClientStep::Wait));
    assert!(matches!(c.step(Wake4::Failed), ClientStep::Wait));
    assert!(matches!(c.step(Wake4::Stop), ClientStep::Exit));
    assert_eq!(c.release(), None);
    let mut c = Dhcp6Client::new("eth0".to_string());
    assert!(matches!(c.step(Wake6::Progress), ClientStep::Wait));
    assert!(matches!(c.step(Wake6::Failed), ClientStep::Wait));
    assert!(matches!(c.step(Wake6::Stop), ClientStep::Exit));
    assert_eq!(c.release(), None);
}

#[test]
fn the_last_lease_is_given_back() {
    let mut c = Dhcp4Client::new("eth0".to_string());
    let newer = || Lease4 { yiaddr: a(51), ..lease4() };
    c.step(Wake4::Lease(lease4()));
    c.step(Wake4::Lease(newer()));
    c.step(Wake4::Failed);
    assert_eq!(c.release(), Some(newer()));
}

#[test]
fn events_of_leases_are_cloned() {
    match DhcpEvent::V6("eth0".to_string(), Ipv6Info::default()).clone() {
        DhcpEvent::V6(iface, info) => assert!(iface == "eth0" && info == Ipv6Info::default()),
        DhcpEvent::V4(_, _) => panic!("wrong family"),
    }
}
