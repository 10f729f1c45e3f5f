use netman::network::actor::{Action, Answer, Job, NetworkActor, Next, Outcome};
use netman::network::persist::NetCardStore;
use netman::network::{settle_reply, Command, DhcpEvent, NetCardEvent, NetError};
use netman::{HardwareInfo, Ipv4Addr, Ipv4Info, Ipv6Addr, Ipv6Info, LinkState, NetCardInfo};

type End = Result<Option<NetCardEvent>, NetError>;

/// Runs a job to its end. `answer` says what comes of each action.
fn drive(actor: &mut NetworkActor, mut job: Job, answer: &dyn Fn(&Action) -> Outcome) -> (Vec<Action>, End) {
    let mut asked = Vec::new();
    loop {
        match actor.poll(&mut job) {
            Next::Perform(action) => {
                asked.push(action);
                actor.complete(&mut job, answer(&action));
                assert!(asked.len() < 100);
            }
            Next::Finished(end) => return (asked, end),
        }
    }
}

fn hardware(state: LinkState) -> HardwareInfo {
    HardwareInfo::new(2, [2, 0, 0, 0, 0, 1], 1000, state)
}

/// All goes well; the link is `state` and the file holds `saved`.
fn well(state: LinkState, saved: Option<NetCardStore>) -> impl Fn(&Action) -> Outcome {
    move |action: &Action| match action {
        Action::ReadHardware => Outcome::Hardware(hardware(state)),
        Action::LoadConfig => Outcome::Config(saved),
        _ => Outcome::Done,
    }
}

/// All goes well but one action, which fails.
fn but(failing: Action, saved: Option<NetCardStore>) -> impl Fn(&Action) -> Outcome {
    let ok = well(LinkState::Up, saved);
    move |action: &Action| {
        if *action == failing {
            Outcome::Failed("boom".to_string())
        } else {
            ok(action)
        }
    }
}

fn added(saved: Option<NetCardStore>) -> NetworkActor {
    let mut actor = NetworkActor::new();
    let job = NetworkActor::add_netcard("eth0");
    let (_, end) = drive(&mut actor, job, &well(LinkState::Up, saved));
    assert_eq!(end, Ok(None));
    actor
}

fn static4() -> Ipv4Info {
    Ipv4Info::new(
        true,
        false,
        false,
        Ipv4Addr::new(192, 168, 1, 10),
        Ipv4Addr::new(255, 255, 255, 0),
        Ipv4Addr::new(192, 168, 1, 1),
        Ipv4Addr::new(8, 8, 8, 8),
        Ipv4Addr::unspecified(),
    )
}

fn static6() -> Ipv6Info {
    Ipv6Info::new(
        true,
        false,
        false,
        Ipv6Addr::new(0xfd00, 0, 0, 0, 0, 0, 0, 0x10),
        64,
        Ipv6Addr::unspecified(),
        Ipv6Addr::unspecified(),
        Ipv6Addr::unspecified(),
    )
}

fn card(actor: &NetworkActor) -> NetCardInfo {
    actor.get_netcard_info("eth0").unwrap()
}

#[test]
fn a_card_without_a_file_gets_the_defaults() {
    let mut actor = NetworkActor::new();
    let jobs = NetworkActor::init_netcards(&vec!["eth0".to_string()]);
    for job in jobs {
        assert_eq!(job.iface(), "eth0");
        let (asked, end) = drive(&mut actor, job, &well(LinkState::Up, None));
        assert_eq!(asked, vec![Action::ReadHardware, Action::OpenDhcp4, Action::OpenDhcp6, Action::LoadConfig]);
        assert_eq!(end, Ok(None));
    }
    let expected = NetCardInfo::new(
        "eth0".to_string(),
        true,
        hardware(LinkState::Up),
        Ipv4Info::default(),
        Ipv6Info::default(),
    );
    assert_eq!(card(&actor), expected);
}

#[test]
fn a_saved_card_is_restored_and_applied() {
    let store = NetCardStore::new(true, &static4(), &static6());
    let mut actor = NetworkActor::new();
    let job = NetworkActor::add_netcard("eth0");
    let (asked, end) = drive(&mut actor, job, &well(LinkState::Up, Some(store)));
    assert_eq!(end, Ok(None));
    assert_eq!(
        asked,
        vec![
            Action::ReadHardware,
            Action::OpenDhcp4,
            Action::OpenDhcp6,
            Action::LoadConfig,
            Action::SetLink(true),
            Action::SaveConfig(store),
            Action::StopDhcp4,
            Action::DelIpv4Address(static4().ip, static4().netmask),
            Action::DelIpv4Gateway(static4().gateway),
            Action::SetIpv4Address(static4().ip, static4().netmask),
            Action::SetIpv4Gateway(static4().gateway),
            Action::UpdateIpv4Dns(static4().primary_dns, static4().secondary_dns),
            Action::SaveConfig(store),
            Action::StopDhcp6,
            Action::DelIpv6Address(static6().ip, 64),
            Action::SetIpv6Address(static6().ip, 64),
            Action::UpdateIpv6Dns(static6().primary_dns, static6().secondary_dns),
            Action::SaveConfig(store),
        ]
    );
    assert_eq!(card(&actor).ipv4, static4());
    assert_eq!(card(&actor).ipv6, static6());
}

#[test]
fn a_card_that_was_off_gets_no_addresses() {
    let store = NetCardStore::new(false, &static4(), &static6());
    let mut actor = NetworkActor::new();
    let (asked, _) = drive(&mut actor, NetworkActor::add_netcard("eth0"), &well(LinkState::Down, Some(store)));
    assert_eq!(asked[4..], vec![Action::SetLink(false), Action::SaveConfig(store)]);
    assert!(!card(&actor).enabled);
}

#[test]
fn a_failing_part_of_a_restoration_is_passed_over() {
    let store = NetCardStore::new(true, &static4(), &static6());
    let mut actor = NetworkActor::new();
    let (asked, end) = drive(&mut actor, NetworkActor::add_netcard("eth0"), &but(Action::SetLink(true), Some(store)));
    assert_eq!(end, Ok(None));
    assert_eq!(asked[4..6], vec![Action::SetLink(true), Action::StopDhcp4]);
    let mut actor = NetworkActor::new();
    let (asked, end) = drive(&mut actor, NetworkActor::add_netcard("eth0"), &but(Action::StopDhcp4, Some(store)));
    assert_eq!(end, Ok(None));
    assert_eq!(asked[6..8], vec![Action::StopDhcp4, Action::StopDhcp6]);
}

#[test]
fn adding_fails_with_its_clients() {
    for failing in [Action::OpenDhcp4, Action::OpenDhcp6] {
        let mut actor = NetworkActor::new();
        let (asked, end) = drive(&mut actor, NetworkActor::add_netcard("eth0"), &but(failing, None));
        assert_eq!(end, Err(NetError::Outside("boom".to_string())));
        assert_eq!(asked.last(), Some(&failing));
        assert!(actor.get_all_netcards().is_empty());
    }
}

#[test]
fn unknown_cards_are_refused() {
    let mut actor = added(None);
    let not_found = Err(NetError::NotFound("eth9".to_string()));
    for job in [
        actor.set_link_state("eth9", true),
        actor.set_ipv4_info("eth9", static4()),
        actor.set_ipv6_info("eth9", static6()),
    ] {
        let (asked, end) = drive(&mut actor, job, &well(LinkState::Up, None));
        assert_eq!(asked, vec![]);
        assert_eq!(end, not_found);
    }
    assert_eq!(actor.get_netcard_info("eth9"), Err(NetError::NotFound("eth9".to_string())));
    assert_eq!(NetError::NotFound("eth9".to_string()).message(), "Interface 'eth9' not found");
    let job = actor.handle_dhcp_lease(DhcpEvent::V4("eth9".to_string(), static4()));
    let (_, end) = drive(&mut actor, job, &well(LinkState::Up, None));
    assert_eq!(end.unwrap_err().message(), "Interface eth9 not found in cache");
}

#[test]
fn the_link_is_switched() {
    let mut actor = added(None);
    let job = actor.set_link_state("eth0", false);
    let (asked, end) = drive(&mut actor, job, &well(LinkState::Up, None));
    let store = NetCardStore::new(false, &Ipv4Info::default(), &Ipv6Info::default());
    assert_eq!(asked, vec![Action::SetLink(false), Action::SaveConfig(store)]);
    assert_eq!(end, Ok(None));
    assert!(!card(&actor).enabled);
    let job = actor.set_link_state("eth0", true);
    let (asked, end) = drive(&mut actor, job, &but(Action::SetLink(true), None));
    assert_eq!(asked, vec![Action::SetLink(true)]);
    assert_eq!(end, Err(NetError::Outside("boom".to_string())));
    assert!(!card(&actor).enabled);
}

#[test]
fn a_file_that_cannot_be_written_fails_nothing() {
    let mut actor = added(None);
    let store = NetCardStore::new(false, &Ipv4Info::default(), &Ipv6Info::default());
    let job = actor.set_link_state("eth0", false);
    let (_, end) = drive(&mut actor, job, &but(Action::SaveConfig(store), None));
    assert_eq!(end, Ok(None));
}

#[test]
fn dhcp_is_started_and_not_saved() {
    let mut actor = added(None);
    let job = actor.set_ipv4_info("eth0", Ipv4Info::default());
    let (asked, end) = drive(&mut actor, job, &well(LinkState::Up, None));
    assert_eq!(asked, vec![Action::StopDhcp4, Action::StartDhcp4]);
    assert_eq!(end, Ok(None));
}

#[test]
fn a_static_address_replaces_an_old_one() {
    let mut actor = added(None);
    let job = actor.set_ipv4_info("eth0", static4());
    drive(&mut actor, job, &well(LinkState::Up, None)).1.unwrap();
    let mut new = static4();
    new.ip = Ipv4Addr::new(10, 0, 0, 5);
    new.gateway = Ipv4Addr::unspecified();
    let job = actor.set_ipv4_info("eth0", new);
    let (asked, end) = drive(&mut actor, job, &but(Action::DelIpv4Gateway(static4().gateway), None));
    assert_eq!(end, Ok(None));
    assert_eq!(
        asked,
        vec![
            Action::StopDhcp4,
            Action::DelIpv4Address(static4().ip, static4().netmask),
            Action::DelIpv4Gateway(static4().gateway),
            Action::SetIpv4Address(new.ip, new.netmask),
            Action::UpdateIpv4Dns(new.primary_dns, new.secondary_dns),
            Action::SaveConfig(NetCardStore::new(true, &new, &Ipv6Info::default())),
        ]
    );
    assert_eq!(card(&actor).ipv4, new);
}

#[test]
fn a_failing_address_leaves_the_record_changed() {
    let mut actor = added(None);
    let job = actor.set_ipv6_info("eth0", static6());
    let (asked, end) = drive(&mut actor, job, &but(Action::SetIpv6Address(static6().ip, 64), None));
    assert_eq!(asked, vec![Action::StopDhcp6, Action::SetIpv6Address(static6().ip, 64)]);
    assert_eq!(end, Err(NetError::Outside("boom".to_string())));
    assert_eq!(card(&actor).ipv6, static6());
}

#[test]
fn a_client_that_does_not_stop_leaves_the_record() {
    let mut actor = added(None);
    let job = actor.set_ipv6_info("eth0", static6());
    let (_, end) = drive(&mut actor, job, &but(Action::StopDhcp6, None));
    assert_eq!(end, Err(NetError::Outside("boom".to_string())));
    assert_eq!(card(&actor).ipv6, Ipv6Info::default());
}

#[test]
fn a_disabled_configuration_adds_nothing() {
    let mut actor = added(None);
    let mut off = static4();
    off.enabled = false;
    let job = actor.set_ipv4_info("eth0", off);
    let (asked, _) = drive(&mut actor, job, &well(LinkState::Up, None));
    let store = NetCardStore::new(true, &off, &Ipv6Info::default());
    assert_eq!(asked, vec![Action::StopDhcp4, Action::SaveConfig(store)]);
}

#[test]
fn own_dns_servers_beside_a_dhcp_address() {
    let mut actor = added(None);
    let mut mixed = static4();
    mixed.use_dhcp = true;
    let job = actor.set_ipv4_info("eth0", mixed);
    let (asked, _) = drive(&mut actor, job, &well(LinkState::Up, None));
    assert_eq!(
        asked,
        vec![
            Action::StopDhcp4,
            Action::UpdateIpv4Dns(mixed.primary_dns, mixed.secondary_dns),
            Action::StartDhcp4,
        ]
    );
}

#[test]
fn a_lease_is_applied_and_told() {
    let mut actor = added(None);
    let job = actor.handle_dhcp_lease(DhcpEvent::V4("eth0".to_string(), static4()));
    let (asked, end) = drive(&mut actor, job, &well(LinkState::Up, None));
    let mut leased = static4();
    leased.use_dhcp = true;
    leased.auto_dns = true;
    assert_eq!(
        asked,
        vec![
            Action::SetIpv4Address(leased.ip, leased.netmask),
            Action::SetIpv4Gateway(leased.gateway),
            Action::UpdateIpv4Dns(leased.primary_dns, leased.secondary_dns),
            Action::SaveConfig(NetCardStore::new(true, &leased, &Ipv6Info::default())),
        ]
    );
    assert_eq!(card(&actor).ipv4, leased);
    assert_eq!(end, Ok(Some(NetCardEvent::Changed(card(&actor)))));
}

#[test]
fn a_lease_leaves_what_is_static() {
    let mut actor = added(None);
    let job = actor.set_ipv6_info("eth0", static6());
    drive(&mut actor, job, &well(LinkState::Up, None)).1.unwrap();
    let lease = Ipv6Info { ip: Ipv6Addr::new(1, 2, 3, 4, 5, 6, 7, 8), ..static6() };
    let job = actor.handle_dhcp6_lease("eth0", lease);
    let (asked, _) = drive(&mut actor, job, &well(LinkState::Up, None));
    let store = NetCardStore::new(true, &Ipv4Info::default(), &static6());
    assert_eq!(asked, vec![Action::SaveConfig(store)]);
    assert_eq!(card(&actor).ipv6, static6());
}

#[test]
fn a_lease_with_dns_servers_alone() {
    let mut actor = added(None);
    let mut own_address = static4();
    own_address.auto_dns = true;
    let job = actor.set_ipv4_info("eth0", own_address);
    drive(&mut actor, job, &well(LinkState::Up, None)).1.unwrap();
    let mut lease = static4();
    lease.ip = Ipv4Addr::new(10, 9, 8, 7);
    lease.primary_dns = Ipv4Addr::new(9, 9, 9, 9);
    let job = actor.handle_dhcp4_lease("eth0", lease);
    drive(&mut actor, job, &well(LinkState::Up, None)).1.unwrap();
    assert_eq!(card(&actor).ipv4.ip, static4().ip);
    assert_eq!(card(&actor).ipv4.primary_dns, Ipv4Addr::new(9, 9, 9, 9));
}

#[test]
fn a_link_that_comes_up_is_configured_again() {
    let mut actor = NetworkActor::new();
    drive(&mut actor, NetworkActor::add_netcard("eth0"), &well(LinkState::CableUnplugged, None)).1.unwrap();
    let job = actor.handle_link_event("eth0", true);
    let (asked, end) = drive(&mut actor, job, &well(LinkState::Up, None));
    assert_eq!(
        asked,
        vec![
            Action::ReadHardware,
            Action::StopDhcp4,
            Action::StartDhcp4,
            Action::StopDhcp6,
            Action::SaveConfig(NetCardStore::new(true, &Ipv4Info::default(), &Ipv6Info::default())),
        ]
    );
    assert_eq!(end, Ok(Some(NetCardEvent::Changed(card(&actor)))));
    assert_eq!(card(&actor).hardware.state, LinkState::Up);
    let job = actor.handle_link_event("eth0", true);
    let (asked, _) = drive(&mut actor, job, &well(LinkState::Up, None));
    assert_eq!(asked, vec![Action::ReadHardware]);
}

#[test]
fn a_card_that_is_off_is_not_configured_again() {
    let mut actor = NetworkActor::new();
    drive(&mut actor, NetworkActor::add_netcard("eth0"), &well(LinkState::Down, None)).1.unwrap();
    let job = actor.set_link_state("eth0", false);
    drive(&mut actor, job, &well(LinkState::Down, None)).1.unwrap();
    let job = actor.handle_link_event("eth0", true);
    let (asked, _) = drive(&mut actor, job, &well(LinkState::Up, None));
    assert_eq!(asked, vec![Action::ReadHardware]);
}

#[test]
fn a_failed_reading_tells_nothing() {
    let mut actor = added(None);
    let job = actor.handle_link_event("eth0", true);
    let (_, end) = drive(&mut actor, job, &but(Action::ReadHardware, None));
    assert_eq!(end, Err(NetError::Outside("boom".to_string())));
}

#[test]
fn a_new_link_becomes_a_card() {
    let mut actor = NetworkActor::new();
    let job = actor.handle_link_event("eth0", true);
    let (asked, end) = drive(&mut actor, job, &well(LinkState::Up, None));
    assert_eq!(asked.len(), 4);
    assert_eq!(end, Ok(Some(NetCardEvent::Added(card(&actor)))));
}

#[test]
fn a_link_that_is_gone_takes_its_card_along() {
    let mut actor = added(None);
    let old = card(&actor);
    let job = actor.handle_link_event("eth0", false);
    assert!(actor.get_all_netcards().is_empty());
    let (asked, end) = drive(&mut actor, job, &well(LinkState::Up, None));
    assert_eq!(asked, vec![Action::CloseDhcp4, Action::CloseDhcp6]);
    assert_eq!(end, Ok(Some(NetCardEvent::Removed(old))));
    let job = actor.handle_link_event("eth0", false);
    let (asked, end) = drive(&mut actor, job, &well(LinkState::Up, None));
    assert_eq!(asked, vec![]);
    assert_eq!(end, Ok(None));
}

#[test]
fn a_client_that_cannot_be_closed() {
    let mut actor = added(None);
    let job = actor.handle_link_event("eth0", false);
    let (asked, end) = drive(&mut actor, job, &but(Action::CloseDhcp4, None));
    assert_eq!(asked, vec![Action::CloseDhcp4]);
    assert_eq!(end, Err(NetError::Outside("boom".to_string())));
    let job = actor.handle_link_event("eth0", false);
    let (asked, _) = drive(&mut actor, job, &well(LinkState::Up, None));
    assert_eq!(asked, vec![Action::CloseDhcp6]);
}

#[test]
fn cards_come_in_the_order_of_their_names() {
    let mut actor = NetworkActor::new();
    let names = vec!["wlan0".to_string(), "eth1".to_string(), "eth10".to_string(), "eth0".to_string()];
    for job in NetworkActor::init_netcards(&names) {
        drive(&mut actor, job, &well(LinkState::Up, None)).1.unwrap();
    }
    let mut sorted = names.clone();
    sorted.sort();
    let got: Vec<String> = actor.get_all_netcards().iter().map(|c| c.name.clone()).collect();
    assert_eq!(got, sorted);
}

#[test]
fn a_job_touches_only_its_own_card() {
    let mut actor = added(None);
    drive(&mut actor, NetworkActor::add_netcard("eth1"), &well(LinkState::Up, None)).1.unwrap();
    let other = actor.get_netcard_info("eth1");
    let job = actor.set_ipv4_info("eth0", static4());
    drive(&mut actor, job, &well(LinkState::Up, None)).1.unwrap();
    let job = actor.handle_link_event("eth0", false);
    drive(&mut actor, job, &well(LinkState::Up, None)).1.unwrap();
    assert_eq!(actor.get_netcard_info("eth1"), other);
}

#[test]
fn commands_are_answered() {
    let actor = added(None);
    let name = || "eth0".to_string();
    match actor.handle_cmd(Command::GetNetCard { iface_name: name() }) {
        Answer::Card(c) => assert_eq!(c, Ok(card(&actor))),
        _ => panic!("not a card"),
    }
    match actor.handle_cmd(Command::GetAllNetCards) {
        Answer::Cards(c) => assert_eq!(c, vec![card(&actor)]),
        _ => panic!("no cards"),
    }
    for cmd in [
        Command::SetLinkState { iface_name: name(), up: true },
        Command::SetIpv4 { iface_name: name(), info: static4() },
        Command::SetIpv6 { iface_name: name(), info: static6() },
    ] {
        match actor.handle_cmd(cmd) {
            Answer::Work(job) => assert_eq!(job.iface(), "eth0"),
            _ => panic!("no work"),
        }
    }
}

#[test]
fn replies_that_do_not_come() {
    assert_eq!(settle_reply::<u32>(false, None), Err(NetError::LoopClosed));
    assert_eq!(settle_reply::<u32>(true, None), Err(NetError::DroppedReply));
    assert_eq!(settle_reply(true, Some(Ok(7))), Ok(7));
    assert_eq!(NetError::LoopClosed.message(), "event loop closed");
    assert_eq!(NetError::DroppedReply.message(), "dropped reply");
}

#[test]
fn a_setting_survives_a_restart() {
    let mut actor = added(None);
    let job = actor.set_ipv4_info("eth0", static4());
    let (asked, end) = drive(&mut actor, job, &well(LinkState::Up, None));
    assert_eq!(end, Ok(None));
    let store = match asked.last() {
        Some(Action::SaveConfig(store)) => *store,
        other => panic!("{:?}", other),
    };
    let restarted = added(Some(store));
    assert_eq!(card(&restarted), card(&actor));
}

#[test]
fn a_setting_by_dhcp_is_saved_with_its_lease() {
    let mut actor = added(None);
    let mut dhcp = static4();
    dhcp.use_dhcp = true;
    dhcp.auto_dns = true;
    let job = actor.set_ipv4_info("eth0", dhcp);
    let (asked, _) = drive(&mut actor, job, &well(LinkState::Up, None));
    assert_eq!(asked, vec![Action::StopDhcp4, Action::StartDhcp4]);
    let job = actor.handle_dhcp4_lease("eth0", static4());
    let (asked, _) = drive(&mut actor, job, &well(LinkState::Up, None));
    assert_eq!(asked.last(), Some(&Action::SaveConfig(NetCardStore::new(true, &dhcp, &Ipv6Info::default()))));
}

#[test]
fn a_card_that_cannot_be_added_keeps_no_other_away() {
    let mut actor = NetworkActor::new();
    let names = vec!["eth0".to_string(), "eth1".to_string(), "eth2".to_string()];
    for job in NetworkActor::init_netcards(&names) {
        let fails = job.iface() == "eth1";
        let end = if fails {
            drive(&mut actor, job, &but(Action::OpenDhcp6, None)).1
        } else {
            drive(&mut actor, job, &well(LinkState::Up, None)).1
        };
        assert_eq!(end.is_err(), fails);
    }
    let known: Vec<String> = actor.get_all_netcards().iter().map(|c| c.name.clone()).collect();
    assert_eq!(known, vec!["eth0".to_string(), "eth2".to_string()]);
}
