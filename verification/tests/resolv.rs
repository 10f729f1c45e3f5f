use netman::network::resolv::{update_internal, update_ipv4_dns, update_ipv6_dns, RESOLV_PATH};
use netman::{Ipv4Addr, Ipv6Addr};

fn a(n: u8) -> Ipv4Addr {
    Ipv4Addr::new(8, 8, 8, n)
}

fn b(n: u16) -> Ipv6Addr {
    Ipv6Addr::new(0x2001, 0x4860, 0x4860, 0, 0, 0, 0, n)
}

const NONE4: Ipv4Addr = Ipv4Addr { octets: [0, 0, 0, 0] };
const NONE6: Ipv6Addr = Ipv6Addr { segments: [0, 0, 0, 0, 0, 0, 0, 0] };

#[test]
fn the_path() {
    assert_eq!(RESOLV_PATH, "/etc/resolv.conf");
}

#[test]
fn entries_are_added_to_an_empty_file() {
    assert_eq!(
        update_ipv4_dns("", "eth0", a(8), a(4)),
        "nameserver 8.8.8.8 #eth0\nnameserver 8.8.8.4 #eth0\n"
    );
    assert_eq!(update_ipv4_dns("", "eth0", a(8), NONE4), "nameserver 8.8.8.8 #eth0\n");
    assert_eq!(update_ipv4_dns("", "eth0", NONE4, a(4)), "nameserver 8.8.8.4 #eth0\n");
    assert_eq!(update_ipv4_dns("", "eth0", NONE4, NONE4), "");
    assert_eq!(update_ipv6_dns("", "eth0", b(0x8888), NONE6), "nameserver 2001:4860:4860::8888 #eth0\n");
}

#[test]
fn old_entries_of_the_family_are_replaced() {
    let before = "search lan\nnameserver 1.1.1.1 #eth0\nnameserver 2001:db8::1 #eth0\nnameserver 9.9.9.9 #eth1\nnameserver 7.7.7.7\n";
    assert_eq!(
        update_ipv4_dns(before, "eth0", a(8), NONE4),
        "search lan\nnameserver 2001:db8::1 #eth0\nnameserver 9.9.9.9 #eth1\nnameserver 7.7.7.7\nnameserver 8.8.8.8 #eth0\n"
    );
    assert_eq!(
        update_ipv6_dns(before, "eth0", NONE6, NONE6),
        "search lan\nnameserver 1.1.1.1 #eth0\nnameserver 9.9.9.9 #eth1\nnameserver 7.7.7.7\n"
    );
}

#[test]
fn a_mapped_address_is_no_ipv4_address() {
    let before = "nameserver ::ffff:1.2.3.4 #eth0\n";
    assert_eq!(update_ipv4_dns(before, "eth0", NONE4, NONE4), before);
    assert_eq!(update_ipv6_dns(before, "eth0", NONE6, NONE6), "");
}

#[test]
fn spacing_and_missing_line_feeds() {
    assert_eq!(
        update_ipv4_dns("  nameserver   1.1.1.1   #eth0  \r\n# comment", "eth0", a(8), NONE4),
        "# comment\nnameserver 8.8.8.8 #eth0\n"
    );
    assert_eq!(update_ipv4_dns("nameserver #eth0\n", "eth0", NONE4, NONE4), "nameserver #eth0\n");
    assert_eq!(update_ipv6_dns("nameserver #eth0\n", "eth0", NONE6, NONE6), "");
    assert_eq!(update_ipv4_dns("\n\nx\n", "eth0", NONE4, NONE4), "\n\nx\n");
}

#[test]
fn a_mark_that_ends_in_another() {
    let before = "nameserver 1.1.1.1 #a#b\n";
    assert_eq!(update_ipv4_dns(before, "b", NONE4, NONE4), "");
    assert_eq!(update_ipv4_dns("nameserver 1.1.1.1 #veth0\n", "eth0", NONE4, NONE4), "nameserver 1.1.1.1 #veth0\n");
}

#[test]
fn an_update_made_twice() {
    let once = update_ipv4_dns("search lan\n", "eth0", a(8), a(4));
    assert_eq!(update_ipv4_dns(&once, "eth0", a(8), a(4)), once);
    let once = update_ipv6_dns(&once, "eth0", b(1), b(2));
    assert_eq!(update_ipv6_dns(&once, "eth0", b(1), b(2)), once);
    assert_eq!(update_ipv4_dns(&once, "eth0", NONE4, NONE4), update_ipv6_dns("search lan\n", "eth0", b(1), b(2)));
}

#[test]
fn the_last_of_two_updates_counts() {
    let e = "search lan\nnameserver 1.1.1.1 #eth0\n";
    let first = update_ipv4_dns(e, "eth0", a(8), a(4));
    assert_eq!(update_ipv4_dns(&first, "eth0", a(9), NONE4), update_ipv4_dns(e, "eth0", a(9), NONE4));
    let first = update_internal(e, "eth0", "::1", "::2", false);
    assert_eq!(first, "search lan\nnameserver 1.1.1.1 #eth0\nnameserver ::1 #eth0\nnameserver ::2 #eth0\n");
    assert_eq!(update_internal(&first, "eth0", "", "::3", false), update_internal(e, "eth0", "", "::3", false));
}
