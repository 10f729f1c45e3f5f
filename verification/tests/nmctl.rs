use netman::network::{Command as ManagerCommand, NetError};
use netman::nmctl::{
    done_text, event_text, execute, failure_text, list_text, parse_ipv4, parse_ipv6, parse_line, step, Command, DialogStep, Input, BANNER, HELP,
    IPV4_USAGE, IPV6_USAGE, PROMPT,
};
use netman::{HardwareInfo, Ipv4Addr, Ipv4Info, Ipv6Addr, Ipv6Info, LinkState, NetCardEvent, NetCardInfo};

fn eth0() -> String {
    "eth0".to_string()
}

fn refused(line: &str) -> String {
    parse_line(line).unwrap_err()
}

fn card(name: &str, state: LinkState, ip: Ipv4Addr) -> NetCardInfo {
    let mut ipv4 = Ipv4Info::default();
    ipv4.ip = ip;
    NetCardInfo::new(name.to_string(), true, HardwareInfo::new(1, [0; 6], 0, state), ipv4, Ipv6Info::default())
}

#[test]
fn simple_commands() {
    assert_eq!(parse_line(""), Ok(Command::Noop));
    assert_eq!(parse_line("  \t "), Ok(Command::Noop));
    assert_eq!(parse_line("list"), Ok(Command::List));
    assert_eq!(parse_line(" ls extra"), Ok(Command::List));
    assert_eq!(parse_line("help"), Ok(Command::Help));
    assert_eq!(parse_line("h"), Ok(Command::Help));
    for q in ["quit", "exit", "q"] {
        assert_eq!(parse_line(q), Ok(Command::Quit));
    }
    assert_eq!(parse_line("info eth0"), Ok(Command::Info { iface: eth0() }));
    assert_eq!(parse_line("link eth0 up"), Ok(Command::Link { iface: eth0(), up: true }));
    assert_eq!(parse_line("link eth0 down"), Ok(Command::Link { iface: eth0(), up: false }));
}

#[test]
fn commands_that_are_refused() {
    assert_eq!(refused("info"), "用法: info <iface>");
    assert_eq!(refused("link"), "用法: link <iface> up|down");
    assert_eq!(refused("link eth0"), "用法: link <iface> up|down");
    assert_eq!(refused("link eth0 on"), "无效的链路状态 `on`（应为 up|down）");
    assert_eq!(refused("List"), "未知命令 `List`（输入 help 查看帮助）");
}

#[test]
fn ipv4_from_dhcp() {
    let info = Ipv4Info::default();
    assert_eq!(parse_line("ipv4 eth0 --dhcp"), Ok(Command::Ipv4 { iface: eth0(), info }));
}

#[test]
fn ipv4_static() {
    let info = Ipv4Info::new(
        true,
        false,
        false,
        Ipv4Addr::new(192, 168, 1, 10),
        Ipv4Addr::new(255, 255, 255, 0),
        Ipv4Addr::new(192, 168, 1, 1),
        Ipv4Addr::unspecified(),
        Ipv4Addr::unspecified(),
    );
    assert_eq!(
        parse_line("ipv4 eth0 --ip 192.168.1.10 --netmask 255.255.255.0 --gw 192.168.1.1"),
        Ok(Command::Ipv4 { iface: eth0(), info })
    );
}

#[test]
fn the_last_of_two_options_counts() {
    match parse_line("ipv4 eth0 --ip 1.1.1.1 --netmask 255.0.0.0 --ip 2.2.2.2 --dns1 3.3.3.3 --dns2 4.4.4.4") {
        Ok(Command::Ipv4 { info, .. }) => {
            assert_eq!(info.ip, Ipv4Addr::new(2, 2, 2, 2));
            assert_eq!(info.primary_dns, Ipv4Addr::new(3, 3, 3, 3));
            assert_eq!(info.secondary_dns, Ipv4Addr::new(4, 4, 4, 4));
        }
        other => panic!("{:?}", other),
    }
}

#[test]
fn ipv4_that_is_refused() {
    assert_eq!(refused("ipv4"), IPV4_USAGE);
    assert_eq!(refused("ipv4 eth0"), "静态模式需要 --ip 与 --netmask");
    assert_eq!(refused("ipv4 eth0 --ip 1.1.1.1"), "静态模式需要 --ip 与 --netmask");
    assert_eq!(refused("ipv4 eth0 --netmask 255.0.0.0"), "静态模式需要 --ip 与 --netmask");
    assert_eq!(refused("ipv4 eth0 --dhcp --ip 1.1.1.1"), "--dhcp 与 --ip 互斥");
    assert_eq!(refused("ipv4 eth0 --ip"), "缺少 IP 地址参数");
    assert_eq!(refused("ipv4 eth0 --ip 1.2.3"), "无效的 IPv4 地址 `1.2.3`: invalid IPv4 address syntax");
    assert_eq!(refused("ipv4 eth0 --fast"), format!("未知选项 `--fast`（{}）", IPV4_USAGE));
}

#[test]
fn ipv6_static() {
    let info = Ipv6Info::new(
        true,
        false,
        false,
        Ipv6Addr::new(0xfd00, 0, 0, 0, 0, 0, 0, 0x10),
        64,
        Ipv6Addr::unspecified(),
        Ipv6Addr::unspecified(),
        Ipv6Addr::unspecified(),
    );
    assert_eq!(parse_line("ipv6 eth0 --ip fd00::10 --prefix 64"), Ok(Command::Ipv6 { iface: eth0(), info }));
    match parse_line("ipv6 eth0 --ip fd00::10 --prefix 128 --gw fe80::1 --dns1 ::1 --dns2 ::2") {
        Ok(Command::Ipv6 { info, .. }) => {
            assert_eq!(info.prefix_len, 128);
            assert_eq!(info.gateway, Ipv6Addr::new(0xfe80, 0, 0, 0, 0, 0, 0, 1));
            assert_eq!(info.primary_dns, Ipv6Addr::new(0, 0, 0, 0, 0, 0, 0, 1));
            assert_eq!(info.secondary_dns, Ipv6Addr::new(0, 0, 0, 0, 0, 0, 0, 2));
        }
        other => panic!("{:?}", other),
    }
}

#[test]
fn ipv6_from_dhcp() {
    let info = Ipv6Info { enabled: true, ..Ipv6Info::default() };
    assert_eq!(parse_line("ipv6 eth0 --dhcp"), Ok(Command::Ipv6 { iface: eth0(), info }));
}

#[test]
fn ipv6_that_is_refused() {
    assert_eq!(refused("ipv6"), IPV6_USAGE);
    assert_eq!(refused("ipv6 eth0 --ip ::1"), "静态模式需要 --ip 与 --prefix");
    assert_eq!(refused("ipv6 eth0 --dhcp --ip ::1"), "--dhcp 与 --ip 互斥");
    assert_eq!(refused("ipv6 eth0 --prefix"), "--prefix 需要数值参数");
    assert_eq!(refused("ipv6 eth0 --prefix x"), "无效的前缀长度 `x`（应为 0-128）");
    assert_eq!(refused("ipv6 eth0 --prefix 300"), "无效的前缀长度 `300`（应为 0-128）");
    assert_eq!(refused("ipv6 eth0 --prefix +0129"), "无效的前缀长度 `129`（应为 0-128）");
    assert_eq!(refused("ipv6 eth0 --gw"), "缺少 IP 地址参数");
    assert_eq!(refused("ipv6 eth0 --gw 1.2.3.4"), "无效的 IPv6 地址 `1.2.3.4`: invalid IPv6 address syntax");
    assert_eq!(refused("ipv6 eth0 --netmask ::"), format!("未知选项 `--netmask`（{}）", IPV6_USAGE));
}

#[test]
fn a_configuration_written_out_is_read_back() {
    let line = "ipv6 eth0 --ip ::ffff:1.2.3.4 --prefix 0 --gw 1:0:0:2:: --dns1 :: --dns2 ::";
    match parse_line(line) {
        Ok(Command::Ipv6 { info, .. }) => {
            assert_eq!(info.ip, Ipv6Addr::new(0, 0, 0, 0, 0, 0xffff, 0x102, 0x304));
            assert_eq!(info.gateway, Ipv6Addr::new(1, 0, 0, 2, 0, 0, 0, 0));
        }
        other => panic!("{:?}", other),
    }
}

#[test]
fn the_list() {
    assert_eq!(list_text(&vec![]), "(没有网卡)\n");
    let cards = vec![
        card("eth0", LinkState::Up, Ipv4Addr::new(10, 0, 0, 1)),
        card("a-very-long-name", LinkState::CableUnplugged, Ipv4Addr::unspecified()),
        card("wlan0", LinkState::Down, Ipv4Addr::unspecified()),
    ];
    let mut expected = format!("{:<14} {:<14} IPV4\n", "NAME", "LINK");
    for c in &cards {
        let o = c.ipv4.ip.octets;
        let ip = format!("{}.{}.{}.{}", o[0], o[1], o[2], o[3]);
        expected.push_str(&format!("{:<14} {:<14} {}\n", c.name, format!("{:?}", c.hardware.state), ip));
    }
    assert_eq!(list_text(&cards), expected);
}

#[test]
fn events_are_told() {
    let c = || card("eth0", LinkState::Up, Ipv4Addr::new(10, 0, 0, 1));
    let line = |tag: &str| format!("[{}] {:<14} link={:<14} ipv4=10.0.0.1", tag, "eth0", "Up");
    assert_eq!(event_text(&NetCardEvent::Added(c())), line("ADD"));
    assert_eq!(event_text(&NetCardEvent::Removed(c())), line("DEL"));
    assert_eq!(event_text(&NetCardEvent::Changed(c())), line("CHG"));
}

#[test]
fn the_dialogue() {
    assert_eq!(PROMPT, "netman> ");
    assert_eq!(BANNER.lines().count(), 2);
    assert!(matches!(step(Input::End), DialogStep::EndOfInput));
    assert!(matches!(step(Input::Line("".to_string())), DialogStep::Next));
    assert!(matches!(step(Input::Line("q".to_string())), DialogStep::Quit));
    match step(Input::Line("help".to_string())) {
        DialogStep::Print(text) => assert_eq!(text, HELP),
        _ => panic!("no help"),
    }
    match step(Input::Line("list".to_string())) {
        DialogStep::Execute(cmd) => assert_eq!(cmd, Command::List),
        _ => panic!("no command"),
    }
    match step(Input::Line("info".to_string())) {
        DialogStep::Complain(text) => assert_eq!(text, "error: 用法: info <iface>"),
        _ => panic!("no complaint"),
    }
    match step(Input::Failed("eio".to_string())) {
        DialogStep::Break(text) => assert_eq!(text, "error: 读取输入失败: eio"),
        _ => panic!("no end"),
    }
}

#[test]
fn commands_for_the_manager() {
    assert!(execute(&Command::Help).is_none() && execute(&Command::Quit).is_none() && execute(&Command::Noop).is_none());
    assert!(matches!(execute(&Command::List), Some(ManagerCommand::GetAllNetCards)));
    match execute(&Command::Info { iface: eth0() }) {
        Some(ManagerCommand::GetNetCard { iface_name }) => assert_eq!(iface_name, "eth0"),
        _ => panic!("wrong command"),
    }
    match execute(&Command::Link { iface: eth0(), up: true }) {
        Some(ManagerCommand::SetLinkState { iface_name, up }) => assert!(iface_name == "eth0" && up),
        _ => panic!("wrong command"),
    }
    match execute(&Command::Ipv4 { iface: eth0(), info: Ipv4Info::default() }) {
        Some(ManagerCommand::SetIpv4 { info, .. }) => assert_eq!(info, Ipv4Info::default()),
        _ => panic!("wrong command"),
    }
    match execute(&Command::Ipv6 { iface: eth0(), info: Ipv6Info::default() }) {
        Some(ManagerCommand::SetIpv6 { info, .. }) => assert_eq!(info, Ipv6Info::default()),
        _ => panic!("wrong command"),
    }
}

#[test]
fn what_came_of_a_command() {
    assert_eq!(done_text(&Command::Link { iface: eth0(), up: true }), "ok: eth0 -> up");
    assert_eq!(done_text(&Command::Link { iface: eth0(), up: false }), "ok: eth0 -> down");
    assert_eq!(done_text(&Command::Ipv4 { iface: eth0(), info: Ipv4Info::default() }), "ok: 已应用 IPv4 配置到 eth0");
    assert_eq!(done_text(&Command::Ipv6 { iface: eth0(), info: Ipv6Info::default() }), "ok: 已应用 IPv6 配置到 eth0");
    assert_eq!(done_text(&Command::List), "");
    assert_eq!(failure_text(&NetError::NotFound(eth0())), "error: Interface 'eth0' not found");
}

#[test]
fn the_order_of_options_does_not_matter() {
    let a = parse_line("ipv4 eth0 --ip 1.1.1.1 --netmask 255.0.0.0 --gw 1.1.1.2 --dns1 3.3.3.3");
    let b = parse_line("ipv4 eth0 --dns1 3.3.3.3 --gw 1.1.1.2 --netmask 255.0.0.0 --ip 1.1.1.1");
    assert!(a.is_ok());
    assert_eq!(a, b);
    let a = parse_line("ipv6 eth0 --ip ::1 --prefix 64 --gw ::2");
    let b = parse_line("ipv6 eth0 --gw ::2 --prefix 64 --ip ::1");
    assert!(a.is_ok());
    assert_eq!(a, b);
    assert!(parse_line("ipv6 eth0 --dhcp --ip ::1").is_err());
    assert!(parse_line("ipv6 eth0 --ip ::1 --dhcp").is_err());
}

#[test]
fn the_words_of_a_setting() {
    let words = |line: &str| netman::text::words(&netman::text::chars_of(line));
    assert_eq!(parse_ipv4(&words("ipv4 eth0 --dhcp")), parse_line("ipv4 eth0 --dhcp"));
    assert_eq!(parse_ipv6(&words("ipv6 eth0 --dhcp")), parse_line("ipv6 eth0 --dhcp"));
}
