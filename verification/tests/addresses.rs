use netman::addr::{Ipv4Addr, Ipv6Addr};
use netman::text::{chars_of, string_of};

fn read4(s: &str) -> Option<Ipv4Addr> {
    Ipv4Addr::parse(&chars_of(s))
}

fn read6(s: &str) -> Option<Ipv6Addr> {
    Ipv6Addr::parse(&chars_of(s))
}

fn show6(a: Ipv6Addr) -> String {
    string_of(&a.text())
}

#[test]
fn ipv4_text_of_an_address() {
    assert_eq!(string_of(&Ipv4Addr::new(192, 168, 1, 10).text()), "192.168.1.10");
    assert_eq!(string_of(&Ipv4Addr::unspecified().text()), "0.0.0.0");
    assert_eq!(string_of(&Ipv4Addr::new(255, 255, 255, 0).text()), "255.255.255.0");
}

#[test]
fn ipv4_is_read() {
    assert_eq!(read4("10.0.0.1"), Some(Ipv4Addr::new(10, 0, 0, 1)));
    assert_eq!(read4("255.255.255.255"), Some(Ipv4Addr::new(255, 255, 255, 255)));
    for bad in ["", "1.2.3", "1.2.3.4.5", "256.1.1.1", "01.2.3.4", "1.2.3.+4", " 1.2.3.4", "1..2.3", "a.b.c.d", "1.2.3.4 "] {
        assert_eq!(read4(bad), None, "{}", bad);
    }
}

#[test]
fn ipv4_text_is_read_back() {
    for a in [Ipv4Addr::new(0, 0, 0, 0), Ipv4Addr::new(1, 20, 100, 255), Ipv4Addr::new(127, 0, 0, 1)] {
        assert_eq!(Ipv4Addr::parse(&a.text()), Some(a));
    }
}

#[test]
fn unspecified_addresses() {
    assert!(Ipv4Addr::unspecified().is_unspecified());
    assert!(!Ipv4Addr::new(0, 0, 0, 1).is_unspecified());
    assert!(Ipv6Addr::unspecified().is_unspecified());
    assert!(!Ipv6Addr::new(0, 0, 0, 0, 0, 0, 0, 1).is_unspecified());
}

#[test]
fn ipv6_text_of_an_address() {
    assert_eq!(show6(Ipv6Addr::unspecified()), "::");
    assert_eq!(show6(Ipv6Addr::new(0, 0, 0, 0, 0, 0, 0, 1)), "::1");
    assert_eq!(show6(Ipv6Addr::new(0xfd00, 0, 0, 0, 0, 0, 0, 0x10)), "fd00::10");
    assert_eq!(show6(Ipv6Addr::new(1, 2, 3, 4, 5, 6, 7, 8)), "1:2:3:4:5:6:7:8");
    assert_eq!(show6(Ipv6Addr::new(1, 0, 2, 3, 4, 5, 6, 7)), "1:0:2:3:4:5:6:7");
    assert_eq!(show6(Ipv6Addr::new(1, 0, 0, 2, 0, 0, 3, 4)), "1::2:0:0:3:4");
    assert_eq!(show6(Ipv6Addr::new(1, 0, 0, 2, 0, 0, 0, 4)), "1:0:0:2::4");
    assert_eq!(show6(Ipv6Addr::new(0x2001, 0xdb8, 0, 0, 0, 0, 0, 0)), "2001:db8::");
    assert_eq!(show6(Ipv6Addr::new(0, 0, 0, 0, 0, 0xffff, 0xc0a8, 0x010a)), "::ffff:192.168.1.10");
    assert_eq!(show6(Ipv6Addr::new(0, 0, 0, 0, 0, 0, 0xc0a8, 0x010a)), "::c0a8:10a");
}

#[test]
fn ipv6_is_read() {
    assert_eq!(read6("::"), Some(Ipv6Addr::unspecified()));
    assert_eq!(read6("FD00::10"), Some(Ipv6Addr::new(0xfd00, 0, 0, 0, 0, 0, 0, 0x10)));
    assert_eq!(read6("1:2:3:4:5:6:7::"), Some(Ipv6Addr::new(1, 2, 3, 4, 5, 6, 7, 0)));
    assert_eq!(read6("::2:3:4:5:6:7:8"), Some(Ipv6Addr::new(0, 2, 3, 4, 5, 6, 7, 8)));
    assert_eq!(read6("::1.2.3.4"), Some(Ipv6Addr::new(0, 0, 0, 0, 0, 0, 0x102, 0x304)));
    assert_eq!(read6("1:2:3:4:5:6:1.2.3.4"), Some(Ipv6Addr::new(1, 2, 3, 4, 5, 6, 0x102, 0x304)));
    assert_eq!(read6("0001::000f"), Some(Ipv6Addr::new(1, 0, 0, 0, 0, 0, 0, 0xf)));
    for bad in [
        "", ":", ":::", "1", "1:2:3:4:5:6:7", "1:2:3:4:5:6:7:8:9", "1:2:3:4:5:6:7:8::", "1::2::3", "12345::",
        "g::", "1:2:3:4:5:6::1.2.3.4", "1.2.3.4::", "::1%eth0", " ::1", "1:", ":1",
    ] {
        assert_eq!(read6(bad), None, "{}", bad);
    }
}

#[test]
fn ipv6_text_is_read_back() {
    for a in [
        Ipv6Addr::new(0, 0, 0, 0, 0, 0, 0, 0),
        Ipv6Addr::new(0, 0, 1, 0, 0, 0, 0, 1),
        Ipv6Addr::new(0xffff, 0, 0xffff, 0, 0xffff, 0, 0xffff, 0),
        Ipv6Addr::new(0, 0, 0, 0, 0, 0xffff, 0x0102, 0x0304),
        Ipv6Addr::new(0xfe80, 0, 0, 0, 0xabcd, 0, 0, 9),
    ] {
        assert_eq!(Ipv6Addr::parse(&a.text()), Some(a));
    }
}

#[test]
fn ipv6_of_octets() {
    let v: Vec<u8> = (0u8..20).collect();
    let a = Ipv6Addr::from_octets(&v, 2);
    assert_eq!(a, Ipv6Addr::new(0x0203, 0x0405, 0x0607, 0x0809, 0x0a0b, 0x0c0d, 0x0e0f, 0x1011));
}
