use netman::network::persist::{config_path, temp_path, NetCardStore};
use netman::{Ipv4Info, Ipv6Info};
use std::path::{Path, PathBuf};

#[test]
fn paths_are_those_of_std() {
    for iface in ["eth0", "eth0.100", "", "a/b", "a/", "/tmp/x", "/", "..", "x."] {
        let expected = PathBuf::from("/root").join(format!("{}.json", iface));
        assert_eq!(Path::new(&config_path(iface)), expected, "{}", iface);
        assert_eq!(Path::new(&temp_path(iface)), expected.with_extension("json.tmp"), "{}", iface);
    }
    assert_eq!(config_path("eth0"), "/root/eth0.json");
    assert_eq!(temp_path("eth0"), "/root/eth0.json.tmp");
}

#[test]
fn paths_of_different_cards_differ() {
    assert_ne!(config_path("eth0"), config_path("eth1"));
    assert_eq!(config_path("eth0"), config_path("/root/eth0"));
    assert_ne!(temp_path("eth0"), config_path("eth0.json"));
}

#[test]
fn a_store_holds_what_it_is_given() {
    let store = NetCardStore::new(true, &Ipv4Info::default(), &Ipv6Info::default());
    assert!(store.link_up());
    assert_eq!(store.ipv4(), Ipv4Info::default());
    assert_eq!(store.ipv6(), Ipv6Info::default());
    assert!(!NetCardStore::default().link_up());
}

#[test]
fn the_initial_configurations() {
    let v4 = Ipv4Info::default();
    assert!(v4.enabled && v4.use_dhcp && v4.auto_dns && v4.ip.is_unspecified());
    let v6 = Ipv6Info::default();
    assert!(!v6.enabled && v6.use_dhcp && v6.auto_dns && v6.prefix_len == 0);
}
