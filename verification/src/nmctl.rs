//! The command language of the interactive client, and what it prints.
use crate::addr::{
    ipv4_of, ipv4_text, ipv6_of, ipv6_text, law_ipv4_text_read_back, law_ipv6_text_read_back,
};
use crate::network::{Command as ManagerCommand, NetCardEvent, NetError};
use crate::number::{
    dec, dec_text, is_digit, lemma_dec, number_of, parse_number, without_plus,
};
use crate::text::{chars_of, spells, string_of, texts, unlines, words, words_of};
use crate::{Card, Ipv4Addr, Ipv4Info, Ipv6Addr, Ipv6Info, LinkState, NetCardInfo};
use vstd::prelude::*;
use vstd::string::*;

pub mod laws;

verus! {

// ---------------------------------------------------------------------------
// Commands
// ---------------------------------------------------------------------------

/// A command of the user.
#[allow(inconsistent_fields)]
#[derive(Debug, PartialEq, Eq)]
pub enum Command {
    List,
    Info { iface: String },
    Link { iface: String, up: bool },
    Ipv4 { iface: String, info: Ipv4Info },
    Ipv6 { iface: String, info: Ipv6Info },
    Help,
    Quit,
    /// An empty line.
    Noop,
}

/// A command in the language of contracts.
#[allow(inconsistent_fields)]
pub enum CommandView {
    List,
    Info { iface: Seq<char> },
    Link { iface: Seq<char>, up: bool },
    Ipv4 { iface: Seq<char>, info: Ipv4Info },
    Ipv6 { iface: Seq<char>, info: Ipv6Info },
    Help,
    Quit,
    Noop,
}

impl View for Command {
    type V = CommandView;

    open spec fn view(&self) -> CommandView {
        match self {
            Command::List => CommandView::List,
            Command::Info { iface } => CommandView::Info { iface: iface@ },
            Command::Link { iface, up } => CommandView::Link { iface: iface@, up: *up },
            Command::Ipv4 { iface, info } => CommandView::Ipv4 { iface: iface@, info: *info },
            Command::Ipv6 { iface, info } => CommandView::Ipv6 { iface: iface@, info: *info },
            Command::Help => CommandView::Help,
            Command::Quit => CommandView::Quit,
            Command::Noop => CommandView::Noop,
        }
    }
}

pub const INFO_USAGE: &'static str = "用法: info <iface>";

pub const LINK_USAGE: &'static str = "用法: link <iface> up|down";

pub const IPV4_USAGE: &'static str = "用法: ipv4 <iface> --dhcp | --ip <ip> --netmask <mask> [--gw <gw>] [--dns1 <d1>] [--dns2 <d2>]";

pub const IPV6_USAGE: &'static str = "用法: ipv6 <iface> --dhcp | --ip <ip> --prefix <n> [--gw <gw>] [--dns1 <d1>] [--dns2 <d2>]";

/// Whether a parser's result is the one that is meant: the same command, or an error
/// with the same message.
pub open spec fn parses_to(
    r: Result<Command, String>,
    meant: Result<CommandView, Seq<char>>,
) -> bool {
    match r {
        Ok(cmd) => meant == Ok::<CommandView, Seq<char>>(cmd@),
        Err(text) => meant == Err::<CommandView, Seq<char>>(text@),
    }
}

/// A message that quotes a word.
pub open spec fn quoting(before: Seq<char>, word: Seq<char>, after: Seq<char>) -> Seq<char> {
    before + word + after
}

/// Three texts in a row.
fn quote(before: &str, word: &Vec<char>, after: &str) -> (r: String)
    ensures
        r@ == quoting(before@, word@, after@),
{
    let mut out = before.to_string();
    out.append(string_of(word).as_str());
    out.append(after);
    out
}

// ---------------------------------------------------------------------------
// Options
// ---------------------------------------------------------------------------

/// The options of an IPv4 configuration that have been given.
#[derive(Clone, Copy, Debug, PartialEq, Eq)]
pub struct Options4 {
    pub dhcp: bool,
    pub ip: Option<Ipv4Addr>,
    pub netmask: Option<Ipv4Addr>,
    pub gw: Option<Ipv4Addr>,
    pub dns1: Option<Ipv4Addr>,
    pub dns2: Option<Ipv4Addr>,
}

/// The address at place `i` of some words.
pub open spec fn ipv4_at(args: Seq<Seq<char>>, i: int) -> Result<Ipv4Addr, Seq<char>> {
    if i >= args.len() {
        Err("缺少 IP 地址参数"@)
    } else {
        match ipv4_of(args[i]) {
            Some(a) => Ok(a),
            None => Err(
                quoting("无效的 IPv4 地址 `"@, args[i], "`: invalid IPv4 address syntax"@),
            ),
        }
    }
}

/// The options that the words from place `i` on give, in addition to `o`. Of an option
/// that is given more than once the last counts.
pub open spec fn options4(args: Seq<Seq<char>>, i: int, o: Options4) -> Result<Options4, Seq<char>>
    decreases args.len() - i,
{
    if i >= args.len() {
        Ok(o)
    } else if args[i] == "--dhcp"@ {
        options4(args, i + 1, Options4 { dhcp: true, ..o })
    } else if args[i] == "--ip"@ {
        match ipv4_at(args, i + 1) {
            Ok(a) => options4(args, i + 2, Options4 { ip: Some(a), ..o }),
            Err(text) => Err(text),
        }
    } else if args[i] == "--netmask"@ {
        match ipv4_at(args, i + 1) {
            Ok(a) => options4(args, i + 2, Options4 { netmask: Some(a), ..o }),
            Err(text) => Err(text),
        }
    } else if args[i] == "--gw"@ {
        match ipv4_at(args, i + 1) {
            Ok(a) => options4(args, i + 2, Options4 { gw: Some(a), ..o }),
            Err(text) => Err(text),
        }
    } else if args[i] == "--dns1"@ {
        match ipv4_at(args, i + 1) {
            Ok(a) => options4(args, i + 2, Options4 { dns1: Some(a), ..o }),
            Err(text) => Err(text),
        }
    } else if args[i] == "--dns2"@ {
        match ipv4_at(args, i + 1) {
            Ok(a) => options4(args, i + 2, Options4 { dns2: Some(a), ..o }),
            Err(text) => Err(text),
        }
    } else {
        Err(quoting("未知选项 `"@, args[i], "`（"@ + IPV4_USAGE@ + "）"@))
    }
}

/// No options.
pub open spec fn no_options4() -> Options4 {
    Options4 { dhcp: false, ip: None, netmask: None, gw: None, dns1: None, dns2: None }
}

pub open spec fn or_zero4(a: Option<Ipv4Addr>) -> Ipv4Addr {
    match a {
        Some(a) => a,
        None => Ipv4Addr::zero(),
    }
}

/// The configuration that some options stand for: all from DHCP, or static.
pub open spec fn info4(o: Options4) -> Ipv4Info {
    Ipv4Info {
        enabled: true,
        use_dhcp: o.dhcp,
        auto_dns: o.dhcp,
        ip: or_zero4(o.ip),
        netmask: or_zero4(o.netmask),
        gateway: or_zero4(o.gw),
        primary_dns: or_zero4(o.dns1),
        secondary_dns: or_zero4(o.dns2),
    }
}

/// The command that the words behind `ipv4` stand for. DHCP and an address exclude each
/// other; without DHCP there must be an address and a mask.
pub open spec fn ipv4_command(args: Seq<Seq<char>>) -> Result<CommandView, Seq<char>> {
    if args.len() == 0 {
        Err(IPV4_USAGE@)
    } else {
        match options4(args, 1, no_options4()) {
            Err(text) => Err(text),
            Ok(o) => if o.dhcp && o.ip is Some {
                Err("--dhcp 与 --ip 互斥"@)
            } else if !o.dhcp && (o.ip is None || o.netmask is None) {
                Err("静态模式需要 --ip 与 --netmask"@)
            } else {
                Ok(CommandView::Ipv4 { iface: args[0], info: info4(o) })
            },
        }
    }
}

/// The options of an IPv6 configuration that have been given.
#[derive(Clone, Copy, Debug, PartialEq, Eq)]
pub struct Options6 {
    pub dhcp: bool,
    pub ip: Option<Ipv6Addr>,
    pub prefix_len: Option<u8>,
    pub gw: Option<Ipv6Addr>,
    pub dns1: Option<Ipv6Addr>,
    pub dns2: Option<Ipv6Addr>,
}

/// The address with some segments.
pub open spec fn with_segments(g: Seq<u16>) -> Ipv6Addr {
    Ipv6Addr { segments: [g[0], g[1], g[2], g[3], g[4], g[5], g[6], g[7]] }
}

/// The address at place `i` of some words.
pub open spec fn ipv6_at(args: Seq<Seq<char>>, i: int) -> Result<Ipv6Addr, Seq<char>> {
    if i >= args.len() {
        Err("缺少 IP 地址参数"@)
    } else {
        match ipv6_of(args[i]) {
            Some(g) => Ok(with_segments(g)),
            None => Err(
                quoting("无效的 IPv6 地址 `"@, args[i], "`: invalid IPv6 address syntax"@),
            ),
        }
    }
}

/// The prefix length at place `i` of some words.
pub open spec fn prefix_at(args: Seq<Seq<char>>, i: int) -> Result<u8, Seq<char>> {
    if i >= args.len() {
        Err("--prefix 需要数值参数"@)
    } else {
        match number_of(args[i], 255) {
            Some(n) => if n > 128 {
                Err(quoting("无效的前缀长度 `"@, dec(n), "`（应为 0-128）"@))
            } else {
                Ok(n as u8)
            },
            None => Err(quoting("无效的前缀长度 `"@, args[i], "`（应为 0-128）"@)),
        }
    }
}

/// The options that the words from place `i` on give, in addition to `o`.
pub open spec fn options6(args: Seq<Seq<char>>, i: int, o: Options6) -> Result<Options6, Seq<char>>
    decreases args.len() - i,
{
    if i >= args.len() {
        Ok(o)
    } else if args[i] == "--dhcp"@ {
        options6(args, i + 1, Options6 { dhcp: true, ..o })
    } else if args[i] == "--ip"@ {
        match ipv6_at(args, i + 1) {
            Ok(a) => options6(args, i + 2, Options6 { ip: Some(a), ..o }),
            Err(text) => Err(text),
        }
    } else if args[i] == "--prefix"@ {
        match prefix_at(args, i + 1) {
            Ok(n) => options6(args, i + 2, Options6 { prefix_len: Some(n), ..o }),
            Err(text) => Err(text),
        }
    } else if args[i] == "--gw"@ {
        match ipv6_at(args, i + 1) {
            Ok(a) => options6(args, i + 2, Options6 { gw: Some(a), ..o }),
            Err(text) => Err(text),
        }
    } else if args[i] == "--dns1"@ {
        match ipv6_at(args, i + 1) {
            Ok(a) => options6(args, i + 2, Options6 { dns1: Some(a), ..o }),
            Err(text) => Err(text),
        }
    } else if args[i] == "--dns2"@ {
        match ipv6_at(args, i + 1) {
            Ok(a) => options6(args, i + 2, Options6 { dns2: Some(a), ..o }),
            Err(text) => Err(text),
        }
    } else {
        Err(quoting("未知选项 `"@, args[i], "`（"@ + IPV6_USAGE@ + "）"@))
    }
}

/// No options.
pub open spec fn no_options6() -> Options6 {
    Options6 { dhcp: false, ip: None, prefix_len: None, gw: None, dns1: None, dns2: None }
}

pub open spec fn or_zero6(a: Option<Ipv6Addr>) -> Ipv6Addr {
    match a {
        Some(a) => a,
        None => Ipv6Addr::zero(),
    }
}

/// The configuration that some options stand for: all from DHCP, or static.
pub open spec fn info6(o: Options6) -> Ipv6Info {
    Ipv6Info {
        enabled: true,
        use_dhcp: o.dhcp,
        auto_dns: o.dhcp,
        ip: or_zero6(o.ip),
        prefix_len: match o.prefix_len {
            Some(n) => n,
            None => 0,
        },
        gateway: or_zero6(o.gw),
        primary_dns: or_zero6(o.dns1),
        secondary_dns: or_zero6(o.dns2),
    }
}

/// The command that the words behind `ipv6` stand for. DHCP and an address exclude each
/// other; without DHCP there must be an address and a prefix length.
pub open spec fn ipv6_command(args: Seq<Seq<char>>) -> Result<CommandView, Seq<char>> {
    if args.len() == 0 {
        Err(IPV6_USAGE@)
    } else {
        match options6(args, 1, no_options6()) {
            Err(text) => Err(text),
            Ok(o) => if o.dhcp && o.ip is Some {
                Err("--dhcp 与 --ip 互斥"@)
            } else if !o.dhcp && (o.ip is None || o.prefix_len is None) {
                Err("静态模式需要 --ip 与 --prefix"@)
            } else {
                Ok(CommandView::Ipv6 { iface: args[0], info: info6(o) })
            },
        }
    }
}

/// The command that the words of a line stand for.
pub open spec fn command_of(words: Seq<Seq<char>>) -> Result<CommandView, Seq<char>> {
    if words.len() == 0 {
        Ok(CommandView::Noop)
    } else if words[0] == "list"@ || words[0] == "ls"@ {
        Ok(CommandView::List)
    } else if words[0] == "help"@ || words[0] == "h"@ {
        Ok(CommandView::Help)
    } else if words[0] == "quit"@ || words[0] == "exit"@ || words[0] == "q"@ {
        Ok(CommandView::Quit)
    } else if words[0] == "info"@ {
        if words.len() > 1 {
            Ok(CommandView::Info { iface: words[1] })
        } else {
            Err(INFO_USAGE@)
        }
    } else if words[0] == "link"@ {
        if words.len() < 3 {
            Err(LINK_USAGE@)
        } else if words[2] == "up"@ {
            Ok(CommandView::Link { iface: words[1], up: true })
        } else if words[2] == "down"@ {
            Ok(CommandView::Link { iface: words[1], up: false })
        } else {
            Err(quoting("无效的链路状态 `"@, words[2], "`（应为 up|down）"@))
        }
    } else if words[0] == "ipv4"@ {
        ipv4_command(words.skip(1))
    } else if words[0] == "ipv6"@ {
        ipv6_command(words.skip(1))
    } else {
        Err(quoting("未知命令 `"@, words[0], "`（输入 help 查看帮助）"@))
    }
}

// ---------------------------------------------------------------------------
// Parsing
// ---------------------------------------------------------------------------

/// Reads a line as a command.
pub fn parse_line(line: &str) -> (r: Result<Command, String>)
    ensures
        parses_to(r, command_of(words_of(line@))),
{
    let tokens = words(&chars_of(line));
    let ghost w = words_of(line@);
    assert(texts(tokens@) == w);
    assert(forall|i: int| 0 <= i < tokens@.len() ==> (#[trigger] tokens@[i])@ == w[i]);
    if tokens.len() == 0 {
        return Ok(Command::Noop);
    }
    let cmd = &tokens[0];
    if spells(cmd, "list") || spells(cmd, "ls") {
        return Ok(Command::List);
    }
    if spells(cmd, "help") || spells(cmd, "h") {
        return Ok(Command::Help);
    }
    if spells(cmd, "quit") || spells(cmd, "exit") || spells(cmd, "q") {
        return Ok(Command::Quit);
    }
    if spells(cmd, "info") {
        if tokens.len() < 2 {
            return Err(INFO_USAGE.to_string());
        }
        return Ok(Command::Info { iface: string_of(&tokens[1]) });
    }
    if spells(cmd, "link") {
        if tokens.len() < 3 {
            return Err(LINK_USAGE.to_string());
        }
        let up = if spells(&tokens[2], "up") {
            true
        } else if spells(&tokens[2], "down") {
            false
        } else {
            return Err(quote("无效的链路状态 `", &tokens[2], "`（应为 up|down）"));
        };
        return Ok(Command::Link { iface: string_of(&tokens[1]), up });
    }
    if spells(cmd, "ipv4") {
        return parse_ipv4(&tokens);
    }
    if spells(cmd, "ipv6") {
        return parse_ipv6(&tokens);
    }
    Err(quote("未知命令 `", cmd, "`（输入 help 查看帮助）"))
}

/// Reads the IPv4 address at place `i` of some words.
fn parse_ipv4_addr(tokens: &Vec<Vec<char>>, i: usize) -> (r: Result<Ipv4Addr, String>)
    requires
        1 <= i,
        tokens@.len() > 0,
    ensures
        match r {
            Ok(a) => ipv4_at(texts(tokens@).skip(1), i - 1) == Ok::<Ipv4Addr, Seq<char>>(a),
            Err(text) => ipv4_at(texts(tokens@).skip(1), i - 1) == Err::<Ipv4Addr, Seq<char>>(
                text@,
            ),
        },
{
    if i >= tokens.len() {
        return Err("缺少 IP 地址参数".to_string());
    }
    assert(texts(tokens@).skip(1)[i - 1] == tokens@[i as int]@);
    match Ipv4Addr::parse(&tokens[i]) {
        Some(a) => Ok(a),
        None => Err(quote("无效的 IPv4 地址 `", &tokens[i], "`: invalid IPv4 address syntax")),
    }
}

/// Reads the IPv6 address at place `i` of some words.
fn parse_ipv6_addr(tokens: &Vec<Vec<char>>, i: usize) -> (r: Result<Ipv6Addr, String>)
    requires
        1 <= i,
        tokens@.len() > 0,
    ensures
        match r {
            Ok(a) => ipv6_at(texts(tokens@).skip(1), i - 1) == Ok::<Ipv6Addr, Seq<char>>(a),
            Err(text) => ipv6_at(texts(tokens@).skip(1), i - 1) == Err::<Ipv6Addr, Seq<char>>(
                text@,
            ),
        },
{
    if i >= tokens.len() {
        return Err("缺少 IP 地址参数".to_string());
    }
    assert(texts(tokens@).skip(1)[i - 1] == tokens@[i as int]@);
    match Ipv6Addr::parse(&tokens[i]) {
        Some(a) => {
            assert(a.segments =~= with_segments(a.segments@).segments);
            Ok(a)
        },
        None => Err(quote("无效的 IPv6 地址 `", &tokens[i], "`: invalid IPv6 address syntax")),
    }
}

/// Reads the prefix length at place `i` of some words.
fn parse_prefix(tokens: &Vec<Vec<char>>, i: usize) -> (r: Result<u8, String>)
    requires
        1 <= i,
        tokens@.len() > 0,
    ensures
        match r {
            Ok(n) => prefix_at(texts(tokens@).skip(1), i - 1) == Ok::<u8, Seq<char>>(n),
            Err(text) => prefix_at(texts(tokens@).skip(1), i - 1) == Err::<u8, Seq<char>>(text@),
        },
{
    if i >= tokens.len() {
        return Err("--prefix 需要数值参数".to_string());
    }
    assert(texts(tokens@).skip(1)[i - 1] == tokens@[i as int]@);
    match parse_number(&tokens[i], 255) {
        Some(n) => {
            if n > 128 {
                return Err(quote("无效的前缀长度 `", &dec_text(n), "`（应为 0-128）"));
            }
            Ok(n as u8)
        },
        None => Err(quote("无效的前缀长度 `", &tokens[i], "`（应为 0-128）")),
    }
}

/// Reads the words of an `ipv4` command, the first of which is `ipv4` itself.
pub fn parse_ipv4(tokens: &Vec<Vec<char>>) -> (r: Result<Command, String>)
    requires
        tokens@.len() > 0,
    ensures
        parses_to(r, ipv4_command(texts(tokens@).skip(1))),
{
    let ghost args = texts(tokens@).skip(1);
    if tokens.len() < 2 {
        return Err(IPV4_USAGE.to_string());
    }
    let mut o = Options4 { dhcp: false, ip: None, netmask: None, gw: None, dns1: None, dns2: None };
    let mut i: usize = 2;
    while i < tokens.len()
        invariant
            2 <= i,
            args == texts(tokens@).skip(1),
            args.len() + 1 == tokens.len(),
            options4(args, i - 1, o) == options4(args, 1, no_options4()),
        decreases tokens.len() - i,
    {
        assert(args[i - 1] == tokens@[i as int]@);
        let option = &tokens[i];
        if spells(option, "--dhcp") {
            o.dhcp = true;
            i += 1;
            continue ;
        }
        if spells(option, "--ip") {
            match parse_ipv4_addr(tokens, i + 1) {
                Ok(a) => o.ip = Some(a),
                Err(text) => return Err(text),
            }
        } else if spells(option, "--netmask") {
            match parse_ipv4_addr(tokens, i + 1) {
                Ok(a) => o.netmask = Some(a),
                Err(text) => return Err(text),
            }
        } else if spells(option, "--gw") {
            match parse_ipv4_addr(tokens, i + 1) {
                Ok(a) => o.gw = Some(a),
                Err(text) => return Err(text),
            }
        } else if spells(option, "--dns1") {
            match parse_ipv4_addr(tokens, i + 1) {
                Ok(a) => o.dns1 = Some(a),
                Err(text) => return Err(text),
            }
        } else if spells(option, "--dns2") {
            match parse_ipv4_addr(tokens, i + 1) {
                Ok(a) => o.dns2 = Some(a),
                Err(text) => return Err(text),
            }
        } else {
            let mut end = "`（".to_string();
            end.append(IPV4_USAGE);
            end.append("）");
            return Err(quote("未知选项 `", option, end.as_str()));
        }
        i += 2;
    }
    if o.dhcp && o.ip.is_some() {
        return Err("--dhcp 与 --ip 互斥".to_string());
    }
    if !o.dhcp && (o.ip.is_none() || o.netmask.is_none()) {
        return Err("静态模式需要 --ip 与 --netmask".to_string());
    }
    assert(args[0] == tokens@[1]@);
    let info = Ipv4Info {
        enabled: true,
        use_dhcp: o.dhcp,
        auto_dns: o.dhcp,
        ip: given4(o.ip),
        netmask: given4(o.netmask),
        gateway: given4(o.gw),
        primary_dns: given4(o.dns1),
        secondary_dns: given4(o.dns2),
    };
    Ok(Command::Ipv4 { iface: string_of(&tokens[1]), info })
}

fn given4(a: Option<Ipv4Addr>) -> (r: Ipv4Addr)
    ensures
        r == or_zero4(a),
{
    match a {
        Some(a) => a,
        None => Ipv4Addr::unspecified(),
    }
}

/// Reads the words of an `ipv6` command, the first of which is `ipv6` itself.
pub fn parse_ipv6(tokens: &Vec<Vec<char>>) -> (r: Result<Command, String>)
    requires
        tokens@.len() > 0,
    ensures
        parses_to(r, ipv6_command(texts(tokens@).skip(1))),
{
    let ghost args = texts(tokens@).skip(1);
    if tokens.len() < 2 {
        return Err(IPV6_USAGE.to_string());
    }
    let mut o = Options6 {
        dhcp: false,
        ip: None,
        prefix_len: None,
        gw: None,
        dns1: None,
        dns2: None,
    };
    let mut i: usize = 2;
    while i < tokens.len()
        invariant
            2 <= i,
            args == texts(tokens@).skip(1),
            args.len() + 1 == tokens.len(),
            options6(args, i - 1, o) == options6(args, 1, no_options6()),
        decreases tokens.len() - i,
    {
        assert(args[i - 1] == tokens@[i as int]@);
        let option = &tokens[i];
        if spells(option, "--dhcp") {
            o.dhcp = true;
            i += 1;
            continue ;
        }
        if spells(option, "--ip") {
            match parse_ipv6_addr(tokens, i + 1) {
                Ok(a) => o.ip = Some(a),
                Err(text) => return Err(text),
            }
        } else if spells(option, "--prefix") {
            match parse_prefix(tokens, i + 1) {
                Ok(n) => o.prefix_len = Some(n),
                Err(text) => return Err(text),
            }
        } else if spells(option, "--gw") {
            match parse_ipv6_addr(tokens, i + 1) {
                Ok(a) => o.gw = Some(a),
                Err(text) => return Err(text),
            }
        } else if spells(option, "--dns1") {
            match parse_ipv6_addr(tokens, i + 1) {
                Ok(a) => o.dns1 = Some(a),
                Err(text) => return Err(text),
            }
        } else if spells(option, "--dns2") {
            match parse_ipv6_addr(tokens, i + 1) {
                Ok(a) => o.dns2 = Some(a),
                Err(text) => return Err(text),
            }
        } else {
            let mut end = "`（".to_string();
            end.append(IPV6_USAGE);
            end.append("）");
            return Err(quote("未知选项 `", option, end.as_str()));
        }
        i += 2;
    }
    if o.dhcp && o.ip.is_some() {
        return Err("--dhcp 与 --ip 互斥".to_string());
    }
    if !o.dhcp && (o.ip.is_none() || o.prefix_len.is_none()) {
        return Err("静态模式需要 --ip 与 --prefix".to_string());
    }
    assert(args[0] == tokens@[1]@);
    let info = Ipv6Info {
        enabled: true,
        use_dhcp: o.dhcp,
        auto_dns: o.dhcp,
        ip: given6(o.ip),
        prefix_len: match o.prefix_len {
            Some(n) => n,
            None => 0,
        },
        gateway: given6(o.gw),
        primary_dns: given6(o.dns1),
        secondary_dns: given6(o.dns2),
    };
    Ok(Command::Ipv6 { iface: string_of(&tokens[1]), info })
}

fn given6(a: Option<Ipv6Addr>) -> (r: Ipv6Addr)
    ensures
        r == or_zero6(a),
{
    match a {
        Some(a) => a,
        None => Ipv6Addr::unspecified(),
    }
}

// ---------------------------------------------------------------------------
// Laws of the language
// ---------------------------------------------------------------------------

/// Whether the word at place `k` is the option and the word behind it its address.
pub open spec fn gives4(args: Seq<Seq<char>>, k: int, option: Seq<char>, a: Ipv4Addr) -> bool {
    0 <= k && k + 1 < args.len() && args[k] == option && ipv4_of(args[k + 1]) == Some(a)
}

pub open spec fn gives6(args: Seq<Seq<char>>, k: int, option: Seq<char>, a: Ipv6Addr) -> bool {
    0 <= k && k + 1 < args.len() && args[k] == option && ipv6_at(args, k + 1) == Ok::<
        Ipv6Addr,
        Seq<char>,
    >(a)
}

/// Whether the word at place `k` is `--prefix` and the word behind it that number.
pub open spec fn gives_prefix(args: Seq<Seq<char>>, k: int, n: u8) -> bool {
    0 <= k && k + 1 < args.len() && args[k] == "--prefix"@ && number_of(args[k + 1], 255) == Some(
        n as nat,
    )
}

/// What an IPv4 command configures is enabled, and is either all from DHCP and without
/// an address of its own, or static with an address and a mask that were given.
pub proof fn law_ipv4_command(args: Seq<Seq<char>>)
    ensures
        ipv4_command(args) matches Ok(cmd) ==> (cmd matches CommandView::Ipv4 { iface, info } && {
            &&& iface == args[0]
            &&& info.enabled
            &&& info.use_dhcp == info.auto_dns
            &&& info.use_dhcp ==> info.ip == Ipv4Addr::zero()
            &&& !info.use_dhcp ==> exists|k: int| gives4(args, k, "--ip"@, info.ip)
            &&& !info.use_dhcp ==> exists|k: int| gives4(args, k, "--netmask"@, info.netmask)
        }),
{
    lemma_given4(args, 1, no_options4());
    if let Ok(o) = options4(args, 1, no_options4()) {
        let info = info4(o);
        if ipv4_command(args) is Ok && !o.dhcp {
            assert(o.ip == Some(info.ip) && o.netmask == Some(info.netmask));
            assert(exists|k: int| gives4(args, k, "--ip"@, info.ip));
            assert(exists|k: int| gives4(args, k, "--netmask"@, info.netmask));
        }
    }
}

proof fn lemma_given4(args: Seq<Seq<char>>, i: int, o: Options4)
    requires
        0 <= i,
    ensures
        options4(args, i, o) matches Ok(x) ==> {
            &&& x.ip matches Some(a) ==> o.ip == Some(a) || exists|k: int|
                gives4(args, k, "--ip"@, a)
            &&& x.netmask matches Some(a) ==> o.netmask == Some(a) || exists|k: int|
                gives4(args, k, "--netmask"@, a)
        },
    decreases args.len() - i,
{
    if i < args.len() {
        let a = ipv4_at(args, i + 1);
        if args[i] == "--dhcp"@ {
            lemma_given4(args, i + 1, Options4 { dhcp: true, ..o });
        } else if a is Ok {
            let v = a->Ok_0;
            if args[i] == "--ip"@ {
                assert(gives4(args, i, "--ip"@, v));
                lemma_given4(args, i + 2, Options4 { ip: Some(v), ..o });
            } else if args[i] == "--netmask"@ {
                assert(gives4(args, i, "--netmask"@, v));
                lemma_given4(args, i + 2, Options4 { netmask: Some(v), ..o });
            } else if args[i] == "--gw"@ {
                lemma_given4(args, i + 2, Options4 { gw: Some(v), ..o });
            } else if args[i] == "--dns1"@ {
                lemma_given4(args, i + 2, Options4 { dns1: Some(v), ..o });
            } else if args[i] == "--dns2"@ {
                lemma_given4(args, i + 2, Options4 { dns2: Some(v), ..o });
            }
        }
    }
}

/// What an IPv6 command configures is enabled, and is either all from DHCP and without
/// an address of its own, or static with an address and a prefix length that were given.
/// The prefix length is at most 128.
pub proof fn law_ipv6_command(args: Seq<Seq<char>>)
    ensures
        ipv6_command(args) matches Ok(cmd) ==> (cmd matches CommandView::Ipv6 { iface, info } && {
            &&& iface == args[0]
            &&& info.enabled
            &&& info.use_dhcp == info.auto_dns
            &&& info.use_dhcp ==> info.ip == Ipv6Addr::zero()
            &&& !info.use_dhcp ==> exists|k: int| gives6(args, k, "--ip"@, info.ip)
            &&& !info.use_dhcp ==> exists|k: int| gives_prefix(args, k, info.prefix_len)
            &&& info.prefix_len <= 128
        }),
{
    lemma_prefix_bound(args, 1, no_options6());
    lemma_given6(args, 1, no_options6());
    if let Ok(o) = options6(args, 1, no_options6()) {
        let info = info6(o);
        if ipv6_command(args) is Ok && !o.dhcp {
            assert(o.ip == Some(info.ip) && o.prefix_len == Some(info.prefix_len));
            assert(exists|k: int| gives6(args, k, "--ip"@, info.ip));
            assert(exists|k: int| gives_prefix(args, k, info.prefix_len));
        }
    }
}

proof fn lemma_given6(args: Seq<Seq<char>>, i: int, o: Options6)
    requires
        0 <= i,
    ensures
        options6(args, i, o) matches Ok(x) ==> {
            &&& x.ip matches Some(a) ==> o.ip == Some(a) || exists|k: int|
                gives6(args, k, "--ip"@, a)
            &&& x.prefix_len matches Some(n) ==> o.prefix_len == Some(n) || exists|k: int|
                gives_prefix(args, k, n)
        },
    decreases args.len() - i,
{
    if i < args.len() {
        let a = ipv6_at(args, i + 1);
        let n = prefix_at(args, i + 1);
        if args[i] == "--dhcp"@ {
            lemma_given6(args, i + 1, Options6 { dhcp: true, ..o });
        } else if args[i] == "--ip"@ {
            if a is Ok {
                assert(gives6(args, i, "--ip"@, a->Ok_0));
                lemma_given6(args, i + 2, Options6 { ip: Some(a->Ok_0), ..o });
            }
        } else if args[i] == "--prefix"@ {
            if n is Ok {
                assert(gives_prefix(args, i, n->Ok_0));
                lemma_given6(args, i + 2, Options6 { prefix_len: Some(n->Ok_0), ..o });
            }
        } else if a is Ok {
            let v = a->Ok_0;
            if args[i] == "--gw"@ {
                lemma_given6(args, i + 2, Options6 { gw: Some(v), ..o });
            } else if args[i] == "--dns1"@ {
                lemma_given6(args, i + 2, Options6 { dns1: Some(v), ..o });
            } else if args[i] == "--dns2"@ {
                lemma_given6(args, i + 2, Options6 { dns2: Some(v), ..o });
            }
        }
    }
}

proof fn lemma_prefix_bound(args: Seq<Seq<char>>, i: int, o: Options6)
    requires
        o.prefix_len matches Some(n) ==> n <= 128,
    ensures
        options6(args, i, o) matches Ok(p) ==> (p.prefix_len matches Some(n) ==> n <= 128),
    decreases args.len() - i,
{
    if i < args.len() {
        let a = ipv6_at(args, i + 1);
        let n = prefix_at(args, i + 1);
        if args[i] == "--dhcp"@ {
            lemma_prefix_bound(args, i + 1, Options6 { dhcp: true, ..o });
        } else if args[i] == "--ip"@ {
            if a is Ok {
                lemma_prefix_bound(args, i + 2, Options6 { ip: Some(a->Ok_0), ..o });
            }
        } else if args[i] == "--prefix"@ {
            if n is Ok {
                lemma_prefix_bound(args, i + 2, Options6 { prefix_len: Some(n->Ok_0), ..o });
            }
        } else if args[i] == "--gw"@ {
            if a is Ok {
                lemma_prefix_bound(args, i + 2, Options6 { gw: Some(a->Ok_0), ..o });
            }
        } else if args[i] == "--dns1"@ {
            if a is Ok {
                lemma_prefix_bound(args, i + 2, Options6 { dns1: Some(a->Ok_0), ..o });
            }
        } else if args[i] == "--dns2"@ {
            if a is Ok {
                lemma_prefix_bound(args, i + 2, Options6 { dns2: Some(a->Ok_0), ..o });
            }
        }
    }
}

/// A static IPv4 configuration that is written out as a command is read as that
/// configuration.
pub proof fn law_static_ipv4_read_back(iface: Seq<char>, info: Ipv4Info)
    requires
        info.enabled && !info.use_dhcp && !info.auto_dns,
    ensures
        ipv4_command(
            seq![
                iface,
                "--ip"@,
                ipv4_text(info.ip),
                "--netmask"@,
                ipv4_text(info.netmask),
                "--gw"@,
                ipv4_text(info.gateway),
                "--dns1"@,
                ipv4_text(info.primary_dns),
                "--dns2"@,
                ipv4_text(info.secondary_dns),
            ],
        ) == Ok::<CommandView, Seq<char>>(CommandView::Ipv4 { iface, info }),
{
    let args = seq![
        iface,
        "--ip"@,
        ipv4_text(info.ip),
        "--netmask"@,
        ipv4_text(info.netmask),
        "--gw"@,
        ipv4_text(info.gateway),
        "--dns1"@,
        ipv4_text(info.primary_dns),
        "--dns2"@,
        ipv4_text(info.secondary_dns),
    ];
    lemma_option_words();
    law_ipv4_text_read_back(info.ip);
    law_ipv4_text_read_back(info.netmask);
    law_ipv4_text_read_back(info.gateway);
    law_ipv4_text_read_back(info.primary_dns);
    law_ipv4_text_read_back(info.secondary_dns);
    let o0 = no_options4();
    let o1 = Options4 { ip: Some(info.ip), ..o0 };
    let o2 = Options4 { netmask: Some(info.netmask), ..o1 };
    let o3 = Options4 { gw: Some(info.gateway), ..o2 };
    let o4 = Options4 { dns1: Some(info.primary_dns), ..o3 };
    let o5 = Options4 { dns2: Some(info.secondary_dns), ..o4 };
    assert(options4(args, 11, o5) == Ok::<Options4, Seq<char>>(o5));
    assert(options4(args, 9, o4) == options4(args, 11, o5));
    assert(options4(args, 7, o3) == options4(args, 9, o4));
    assert(options4(args, 5, o2) == options4(args, 7, o3));
    assert(options4(args, 3, o1) == options4(args, 5, o2));
    assert(options4(args, 1, o0) == options4(args, 3, o1));
}

/// A static IPv6 configuration that is written out as a command is read as that
/// configuration.
pub proof fn law_static_ipv6_read_back(iface: Seq<char>, info: Ipv6Info)
    requires
        info.enabled && !info.use_dhcp && !info.auto_dns,
        info.prefix_len <= 128,
    ensures
        ipv6_command(
            seq![
                iface,
                "--ip"@,
                ipv6_text(info.ip),
                "--prefix"@,
                dec(info.prefix_len as nat),
                "--gw"@,
                ipv6_text(info.gateway),
                "--dns1"@,
                ipv6_text(info.primary_dns),
                "--dns2"@,
                ipv6_text(info.secondary_dns),
            ],
        ) == Ok::<CommandView, Seq<char>>(CommandView::Ipv6 { iface, info }),
{
    let args = seq![
        iface,
        "--ip"@,
        ipv6_text(info.ip),
        "--prefix"@,
        dec(info.prefix_len as nat),
        "--gw"@,
        ipv6_text(info.gateway),
        "--dns1"@,
        ipv6_text(info.primary_dns),
        "--dns2"@,
        ipv6_text(info.secondary_dns),
    ];
    lemma_option_words();
    lemma_ipv6_at(args, 2, info.ip);
    lemma_ipv6_at(args, 6, info.gateway);
    lemma_ipv6_at(args, 8, info.primary_dns);
    lemma_ipv6_at(args, 10, info.secondary_dns);
    lemma_number_of_dec(info.prefix_len as nat, 255);
    let o0 = no_options6();
    let o1 = Options6 { ip: Some(info.ip), ..o0 };
    let o2 = Options6 { prefix_len: Some(info.prefix_len), ..o1 };
    let o3 = Options6 { gw: Some(info.gateway), ..o2 };
    let o4 = Options6 { dns1: Some(info.primary_dns), ..o3 };
    let o5 = Options6 { dns2: Some(info.secondary_dns), ..o4 };
    assert(options6(args, 11, o5) == Ok::<Options6, Seq<char>>(o5));
    assert(options6(args, 9, o4) == options6(args, 11, o5));
    assert(options6(args, 7, o3) == options6(args, 9, o4));
    assert(options6(args, 5, o2) == options6(args, 7, o3));
    assert(options6(args, 3, o1) == options6(args, 5, o2));
    assert(options6(args, 1, o0) == options6(args, 3, o1));
}

proof fn lemma_ipv6_at(args: Seq<Seq<char>>, i: int, a: Ipv6Addr)
    requires
        0 <= i < args.len(),
        args[i] == ipv6_text(a),
    ensures
        ipv6_at(args, i) == Ok::<Ipv6Addr, Seq<char>>(a),
{
    law_ipv6_text_read_back(a);
    assert(with_segments(a.segments@).segments =~= a.segments);
}

/// A number that is written out is read as that number.
proof fn lemma_number_of_dec(n: nat, max: nat)
    requires
        n <= max,
    ensures
        number_of(dec(n), max) == Some(n),
{
    lemma_dec(n);
    assert(is_digit(dec(n)[0]));
    assert(without_plus(dec(n)) == dec(n));
}

/// The options are different words.
proof fn lemma_option_words()
    ensures
        "--ip"@ != "--dhcp"@,
        "--netmask"@ != "--dhcp"@ && "--netmask"@ != "--ip"@,
        "--prefix"@ != "--dhcp"@ && "--prefix"@ != "--ip"@,
        "--gw"@ != "--dhcp"@ && "--gw"@ != "--ip"@ && "--gw"@ != "--netmask"@ && "--gw"@
            != "--prefix"@,
        "--dns1"@ != "--dhcp"@ && "--dns1"@ != "--ip"@ && "--dns1"@ != "--netmask"@ && "--dns1"@
            != "--prefix"@ && "--dns1"@ != "--gw"@,
        "--dns2"@ != "--dhcp"@ && "--dns2"@ != "--ip"@ && "--dns2"@ != "--netmask"@ && "--dns2"@
            != "--prefix"@ && "--dns2"@ != "--gw"@ && "--dns2"@ != "--dns1"@,
{
    reveal_strlit("--dhcp");
    reveal_strlit("--ip");
    reveal_strlit("--netmask");
    reveal_strlit("--prefix");
    reveal_strlit("--gw");
    reveal_strlit("--dns1");
    reveal_strlit("--dns2");
    assert("--dhcp"@[2] == 'd' && "--dhcp"@[3] == 'h');
    assert("--ip"@[2] == 'i');
    assert("--netmask"@[2] == 'n');
    assert("--prefix"@[2] == 'p');
    assert("--gw"@[2] == 'g');
    assert("--dns1"@[2] == 'd' && "--dns1"@[3] == 'n' && "--dns1"@[5] == '1');
    assert("--dns2"@[2] == 'd' && "--dns2"@[3] == 'n' && "--dns2"@[5] == '2');
}

// ---------------------------------------------------------------------------
// The order of options
// ---------------------------------------------------------------------------

/// The words of some groups, one group behind the other.
pub open spec fn joined(groups: Seq<Seq<Seq<char>>>) -> Seq<Seq<char>>
    decreases groups.len(),
{
    if groups.len() == 0 {
        seq![]
    } else {
        groups[0] + joined(groups.drop_first())
    }
}

/// Whether some words are one option: `--dhcp` alone, or another word with its value.
pub open spec fn is_group(g: Seq<Seq<char>>) -> bool {
    g == seq!["--dhcp"@] || (g.len() == 2 && g[0] != "--dhcp"@)
}

/// Whether each option is given but once.
pub open spec fn each_once(groups: Seq<Seq<Seq<char>>>) -> bool {
    &&& forall|i: int| 0 <= i < groups.len() ==> is_group(#[trigger] groups[i])
    &&& forall|i: int, j: int|
        0 <= i < j < groups.len() ==> #[trigger] groups[i][0] != #[trigger] groups[j][0]
}

/// Whether two lists, each without repetitions, hold the same groups.
pub open spec fn same_groups(a: Seq<Seq<Seq<char>>>, b: Seq<Seq<Seq<char>>>) -> bool {
    &&& forall|i: int| 0 <= i < a.len() ==> b.contains(#[trigger] a[i])
    &&& forall|i: int| 0 <= i < b.len() ==> a.contains(#[trigger] b[i])
}

/// Whether the group at place `k` is for that option.
spec fn is_for(groups: Seq<Seq<Seq<char>>>, k: int, option: Seq<char>) -> bool {
    0 <= k < groups.len() && groups[k][0] == option
}

/// Whether an option is given.
spec fn has_option(groups: Seq<Seq<Seq<char>>>, option: Seq<char>) -> bool {
    exists|k: int| is_for(groups, k, option)
}

proof fn lemma_each_once_tail(groups: Seq<Seq<Seq<char>>>)
    requires
        groups.len() > 0,
        each_once(groups),
    ensures
        each_once(groups.drop_first()),
        !has_option(groups.drop_first(), groups[0][0]),
        forall|option: Seq<char>| #[trigger]
            has_option(groups, option) ==> option == groups[0][0] || has_option(
                groups.drop_first(),
                option,
            ),
{
    let tail = groups.drop_first();
    assert forall|i: int| 0 <= i < tail.len() implies is_group(#[trigger] tail[i]) by {
        assert(tail[i] == groups[i + 1]);
    }
    assert forall|i: int, j: int| 0 <= i < j < tail.len() implies #[trigger] tail[i][0]
        != #[trigger] tail[j][0] by {
        assert(tail[i][0] == groups[i + 1][0] && tail[j][0] == groups[j + 1][0]);
    }
    if has_option(tail, groups[0][0]) {
        let k = choose|k: int| is_for(tail, k, groups[0][0]);
        assert(tail[k][0] == groups[k + 1][0]);
    }
    assert forall|option: Seq<char>| #[trigger] has_option(groups, option) implies option
        == groups[0][0] || has_option(tail, option) by {
        let k = choose|k: int| is_for(groups, k, option);
        if k > 0 {
            assert(is_for(tail, k - 1, option));
        }
    }
}

/// Two lists with the same groups give the same options.
proof fn lemma_same_options(a: Seq<Seq<Seq<char>>>, b: Seq<Seq<Seq<char>>>, option: Seq<char>)
    requires
        same_groups(a, b),
    ensures
        has_option(a, option) == has_option(b, option),
        has_option(a, option) ==> exists|k: int, l: int|
            #![trigger is_for(a, k, option), is_for(b, l, option)]
            is_for(a, k, option) && is_for(b, l, option) && a[k] == b[l],
{
    if has_option(a, option) {
        let k = choose|k: int| is_for(a, k, option);
        assert(b.contains(a[k]));
        let l = choose|l: int| 0 <= l < b.len() && b[l] == a[k];
        assert(is_for(b, l, option));
    }
    if has_option(b, option) {
        let k = choose|k: int| is_for(b, k, option);
        assert(a.contains(b[k]));
        let l = choose|l: int| 0 <= l < a.len() && a[l] == b[k];
        assert(is_for(a, l, option));
    }
}

/// Whether a group is an IPv4 option that can be read.
spec fn good4(g: Seq<Seq<char>>) -> bool {
    ||| g[0] == "--dhcp"@
    ||| (g[0] == "--ip"@ || g[0] == "--netmask"@ || g[0] == "--gw"@ || g[0] == "--dns1"@ || g[0]
        == "--dns2"@) && ipv4_at(g, 1) is Ok
}

/// Options with one more.
spec fn with4(o: Options4, g: Seq<Seq<char>>) -> Options4 {
    let a = Some(ipv4_at(g, 1)->Ok_0);
    if g[0] == "--dhcp"@ {
        Options4 { dhcp: true, ..o }
    } else if g[0] == "--ip"@ {
        Options4 { ip: a, ..o }
    } else if g[0] == "--netmask"@ {
        Options4 { netmask: a, ..o }
    } else if g[0] == "--gw"@ {
        Options4 { gw: a, ..o }
    } else if g[0] == "--dns1"@ {
        Options4 { dns1: a, ..o }
    } else {
        Options4 { dns2: a, ..o }
    }
}

/// Whether some options hold what a group gives.
spec fn carries4(x: Options4, g: Seq<Seq<char>>) -> bool {
    let a = Some(ipv4_at(g, 1)->Ok_0);
    &&& g[0] == "--dhcp"@ ==> x.dhcp
    &&& g[0] == "--ip"@ ==> x.ip == a
    &&& g[0] == "--netmask"@ ==> x.netmask == a
    &&& g[0] == "--gw"@ ==> x.gw == a
    &&& g[0] == "--dns1"@ ==> x.dns1 == a
    &&& g[0] == "--dns2"@ ==> x.dns2 == a
}

/// Whether what no group gives is as it was.
spec fn leaves4(x: Options4, o: Options4, groups: Seq<Seq<Seq<char>>>) -> bool {
    &&& !has_option(groups, "--dhcp"@) ==> x.dhcp == o.dhcp
    &&& !has_option(groups, "--ip"@) ==> x.ip == o.ip
    &&& !has_option(groups, "--netmask"@) ==> x.netmask == o.netmask
    &&& !has_option(groups, "--gw"@) ==> x.gw == o.gw
    &&& !has_option(groups, "--dns1"@) ==> x.dns1 == o.dns1
    &&& !has_option(groups, "--dns2"@) ==> x.dns2 == o.dns2
}

proof fn lemma_group4(args: Seq<Seq<char>>, i: int, g: Seq<Seq<char>>, o: Options4)
    requires
        0 <= i,
        i + g.len() <= args.len(),
        is_group(g),
        args[i] == g[0],
        g.len() == 2 ==> args[i + 1] == g[1],
    ensures
        good4(g) ==> options4(args, i, o) == options4(args, i + g.len(), with4(o, g)),
        !good4(g) ==> options4(args, i, o) is Err,
{
    lemma_option_words();
    if g.len() == 2 {
        assert(ipv4_at(args, i + 1) == ipv4_at(g, 1));
    }
}

/// What the words of some groups give.
proof fn lemma_groups4(
    args: Seq<Seq<char>>,
    i: int,
    groups: Seq<Seq<Seq<char>>>,
    o: Options4,
)
    requires
        0 <= i <= args.len(),
        args.skip(i) == joined(groups),
        each_once(groups),
    ensures
        options4(args, i, o) is Ok <==> forall|k: int|
            0 <= k < groups.len() ==> good4(#[trigger] groups[k]),
        options4(args, i, o) matches Ok(x) ==> leaves4(x, o, groups) && forall|k: int|
            0 <= k < groups.len() ==> carries4(x, #[trigger] groups[k]),
    decreases groups.len(),
{
    if groups.len() == 0 {
        assert(args.skip(i).len() == 0);
    } else {
        let g = groups[0];
        let tail = groups.drop_first();
        lemma_each_once_tail(groups);
        lemma_option_words();
        assert(is_group(groups[0]));
        let s = args.skip(i);
        assert(s.len() == g.len() + joined(tail).len());
        assert(s[0] == g[0] && s[0] == args[i]);
        if g.len() == 2 {
            assert(s[1] == g[1] && s[1] == args[i + 1]);
        }
        let j = i + g.len();
        assert(args.skip(j) =~= s.skip(g.len() as int));
        assert(s.skip(g.len() as int) =~= joined(tail));
        lemma_group4(args, i, g, o);
        let o1 = with4(o, g);
        lemma_groups4(args, j, tail, o1);
        assert forall|k: int| 0 < k < groups.len() implies #[trigger] groups[k] == tail[k - 1] by {}
        if forall|k: int| 0 <= k < groups.len() ==> good4(#[trigger] groups[k]) {
            assert(good4(groups[0]));
            assert forall|k: int| 0 <= k < tail.len() implies good4(#[trigger] tail[k]) by {
                assert(good4(groups[k + 1]));
            }
        }
        if options4(args, i, o) is Ok {
            let x = options4(args, i, o)->Ok_0;
            assert(good4(g));
            assert forall|k: int| 0 <= k < groups.len() implies good4(#[trigger] groups[k]) by {
                if k > 0 {
                    assert(good4(tail[k - 1]));
                }
            }
            assert(carries4(x, g));
            assert forall|k: int| 0 <= k < groups.len() implies carries4(x, #[trigger] groups[k]) by {
                if k > 0 {
                    assert(carries4(x, tail[k - 1]));
                }
            }
            lemma_tail_options(groups);
            assert(leaves4(x, o, groups));
        }
    }
}

/// What the first group and the others do not give, no group gives.
proof fn lemma_tail_options(groups: Seq<Seq<Seq<char>>>)
    requires
        groups.len() > 0,
    ensures
        has_option(groups, groups[0][0]),
        forall|option: Seq<char>| #[trigger]
            has_option(groups.drop_first(), option) ==> has_option(groups, option),
{
    assert(is_for(groups, 0, groups[0][0]));
    assert forall|option: Seq<char>| #[trigger]
        has_option(groups.drop_first(), option) implies has_option(groups, option) by {
        let k = choose|k: int| is_for(groups.drop_first(), k, option);
        assert(is_for(groups, k + 1, option));
    }
}

/// The order of the options of an IPv4 command does not matter, where none is given
/// twice: both orders are accepted or neither is, and they stand for one command.
pub proof fn law_ipv4_option_order(
    iface: Seq<char>,
    a: Seq<Seq<Seq<char>>>,
    b: Seq<Seq<Seq<char>>>,
)
    requires
        each_once(a),
        each_once(b),
        same_groups(a, b),
    ensures
        ({
            let x = ipv4_command(seq![iface] + joined(a));
            let y = ipv4_command(seq![iface] + joined(b));
            &&& x is Ok <==> y is Ok
            &&& x is Ok ==> x == y
        }),
{
    let wa = seq![iface] + joined(a);
    let wb = seq![iface] + joined(b);
    let o = no_options4();
    assert(wa.skip(1) =~= joined(a));
    assert(wb.skip(1) =~= joined(b));
    lemma_groups4(wa, 1, a, o);
    lemma_groups4(wb, 1, b, o);
    lemma_same_options(a, b, "--dhcp"@);
    lemma_same_options(a, b, "--ip"@);
    lemma_same_options(a, b, "--netmask"@);
    lemma_same_options(a, b, "--gw"@);
    lemma_same_options(a, b, "--dns1"@);
    lemma_same_options(a, b, "--dns2"@);
    if options4(wa, 1, o) is Ok {
        assert forall|k: int| 0 <= k < b.len() implies good4(#[trigger] b[k]) by {
            assert(a.contains(b[k]));
            let l = choose|l: int| 0 <= l < a.len() && a[l] == b[k];
            assert(good4(a[l]));
        }
        let x = options4(wa, 1, o)->Ok_0;
        let y = options4(wb, 1, o)->Ok_0;
        assert(x.dhcp == y.dhcp);
        assert(x.ip == y.ip);
        assert(x.netmask == y.netmask);
        assert(x.gw == y.gw);
        assert(x.dns1 == y.dns1);
        assert(x.dns2 == y.dns2);
        assert(x == y);
    } else if options4(wb, 1, o) is Ok {
        assert forall|k: int| 0 <= k < a.len() implies good4(#[trigger] a[k]) by {
            assert(b.contains(a[k]));
            let l = choose|l: int| 0 <= l < b.len() && b[l] == a[k];
            assert(good4(b[l]));
        }
    }
}

/// Whether a group is an IPv6 option that can be read.
spec fn good6(g: Seq<Seq<char>>) -> bool {
    ||| g[0] == "--dhcp"@
    ||| g[0] == "--prefix"@ && prefix_at(g, 1) is Ok
    ||| (g[0] == "--ip"@ || g[0] == "--gw"@ || g[0] == "--dns1"@ || g[0]
        == "--dns2"@) && ipv6_at(g, 1) is Ok
}

/// Options with one more.
spec fn with6(o: Options6, g: Seq<Seq<char>>) -> Options6 {
    let a = Some(ipv6_at(g, 1)->Ok_0);
    let n = Some(prefix_at(g, 1)->Ok_0);
    if g[0] == "--dhcp"@ {
        Options6 { dhcp: true, ..o }
    } else if g[0] == "--ip"@ {
        Options6 { ip: a, ..o }
    } else if g[0] == "--prefix"@ {
        Options6 { prefix_len: n, ..o }
    } else if g[0] == "--gw"@ {
        Options6 { gw: a, ..o }
    } else if g[0] == "--dns1"@ {
        Options6 { dns1: a, ..o }
    } else {
        Options6 { dns2: a, ..o }
    }
}

/// Whether some options hold what a group gives.
spec fn carries6(x: Options6, g: Seq<Seq<char>>) -> bool {
    let a = Some(ipv6_at(g, 1)->Ok_0);
    let n = Some(prefix_at(g, 1)->Ok_0);
    &&& g[0] == "--dhcp"@ ==> x.dhcp
    &&& g[0] == "--ip"@ ==> x.ip == a
    &&& g[0] == "--prefix"@ ==> x.prefix_len == n
    &&& g[0] == "--gw"@ ==> x.gw == a
    &&& g[0] == "--dns1"@ ==> x.dns1 == a
    &&& g[0] == "--dns2"@ ==> x.dns2 == a
}

/// Whether what no group gives is as it was.
spec fn leaves6(x: Options6, o: Options6, groups: Seq<Seq<Seq<char>>>) -> bool {
    &&& !has_option(groups, "--dhcp"@) ==> x.dhcp == o.dhcp
    &&& !has_option(groups, "--ip"@) ==> x.ip == o.ip
    &&& !has_option(groups, "--prefix"@) ==> x.prefix_len == o.prefix_len
    &&& !has_option(groups, "--gw"@) ==> x.gw == o.gw
    &&& !has_option(groups, "--dns1"@) ==> x.dns1 == o.dns1
    &&& !has_option(groups, "--dns2"@) ==> x.dns2 == o.dns2
}

proof fn lemma_group6(args: Seq<Seq<char>>, i: int, g: Seq<Seq<char>>, o: Options6)
    requires
        0 <= i,
        i + g.len() <= args.len(),
        is_group(g),
        args[i] == g[0],
        g.len() == 2 ==> args[i + 1] == g[1],
    ensures
        good6(g) ==> options6(args, i, o) == options6(args, i + g.len(), with6(o, g)),
        !good6(g) ==> options6(args, i, o) is Err,
{
    lemma_option_words();
    if g.len() == 2 {
        assert(ipv6_at(args, i + 1) == ipv6_at(g, 1));
        assert(prefix_at(args, i + 1) == prefix_at(g, 1));
    }
}

/// What the words of some groups give.
proof fn lemma_groups6(
    args: Seq<Seq<char>>,
    i: int,
    groups: Seq<Seq<Seq<char>>>,
    o: Options6,
)
    requires
        0 <= i <= args.len(),
        args.skip(i) == joined(groups),
        each_once(groups),
    ensures
        options6(args, i, o) is Ok <==> forall|k: int|
            0 <= k < groups.len() ==> good6(#[trigger] groups[k]),
        options6(args, i, o) matches Ok(x) ==> leaves6(x, o, groups) && forall|k: int|
            0 <= k < groups.len() ==> carries6(x, #[trigger] groups[k]),
    decreases groups.len(),
{
    if groups.len() == 0 {
        assert(args.skip(i).len() == 0);
    } else {
        let g = groups[0];
        let tail = groups.drop_first();
        lemma_each_once_tail(groups);
        lemma_option_words();
        assert(is_group(groups[0]));
        let s = args.skip(i);
        assert(s.len() == g.len() + joined(tail).len());
        assert(s[0] == g[0] && s[0] == args[i]);
        if g.len() == 2 {
            assert(s[1] == g[1] && s[1] == args[i + 1]);
        }
        let j = i + g.len();
        assert(args.skip(j) =~= s.skip(g.len() as int));
        assert(s.skip(g.len() as int) =~= joined(tail));
        lemma_group6(args, i, g, o);
        let o1 = with6(o, g);
        lemma_groups6(args, j, tail, o1);
        assert forall|k: int| 0 < k < groups.len() implies #[trigger] groups[k] == tail[k - 1] by {}
        if forall|k: int| 0 <= k < groups.len() ==> good6(#[trigger] groups[k]) {
            assert(good6(groups[0]));
            assert forall|k: int| 0 <= k < tail.len() implies good6(#[trigger] tail[k]) by {
                assert(good6(groups[k + 1]));
            }
        }
        if options6(args, i, o) is Ok {
            let x = options6(args, i, o)->Ok_0;
            assert(good6(g));
            assert forall|k: int| 0 <= k < groups.len() implies good6(#[trigger] groups[k]) by {
                if k > 0 {
                    assert(good6(tail[k - 1]));
                }
            }
            assert(carries6(x, g));
            assert forall|k: int| 0 <= k < groups.len() implies carries6(x, #[trigger] groups[k]) by {
                if k > 0 {
                    assert(carries6(x, tail[k - 1]));
                }
            }
            lemma_tail_options(groups);
            assert(leaves6(x, o, groups));
        }
    }
}

/// The order of the options of an IPv6 command does not matter, where none is given
/// twice: both orders are accepted or neither is, and they stand for one command.
pub proof fn law_ipv6_option_order(
    iface: Seq<char>,
    a: Seq<Seq<Seq<char>>>,
    b: Seq<Seq<Seq<char>>>,
)
    requires
        each_once(a),
        each_once(b),
        same_groups(a, b),
    ensures
        ({
            let x = ipv6_command(seq![iface] + joined(a));
            let y = ipv6_command(seq![iface] + joined(b));
            &&& x is Ok <==> y is Ok
            &&& x is Ok ==> x == y
        }),
{
    let wa = seq![iface] + joined(a);
    let wb = seq![iface] + joined(b);
    let o = no_options6();
    assert(wa.skip(1) =~= joined(a));
    assert(wb.skip(1) =~= joined(b));
    lemma_groups6(wa, 1, a, o);
    lemma_groups6(wb, 1, b, o);
    lemma_same_options(a, b, "--dhcp"@);
    lemma_same_options(a, b, "--ip"@);
    lemma_same_options(a, b, "--prefix"@);
    lemma_same_options(a, b, "--gw"@);
    lemma_same_options(a, b, "--dns1"@);
    lemma_same_options(a, b, "--dns2"@);
    if options6(wa, 1, o) is Ok {
        assert forall|k: int| 0 <= k < b.len() implies good6(#[trigger] b[k]) by {
            assert(a.contains(b[k]));
            let l = choose|l: int| 0 <= l < a.len() && a[l] == b[k];
            assert(good6(a[l]));
        }
        let x = options6(wa, 1, o)->Ok_0;
        let y = options6(wb, 1, o)->Ok_0;
        assert(x.dhcp == y.dhcp);
        assert(x.ip == y.ip);
        assert(x.prefix_len == y.prefix_len);
        assert(x.gw == y.gw);
        assert(x.dns1 == y.dns1);
        assert(x.dns2 == y.dns2);
        assert(x == y);
    } else if options6(wb, 1, o) is Ok {
        assert forall|k: int| 0 <= k < a.len() implies good6(#[trigger] a[k]) by {
            assert(b.contains(a[k]));
            let l = choose|l: int| 0 <= l < b.len() && b[l] == a[k];
            assert(good6(b[l]));
        }
    }
}

// ---------------------------------------------------------------------------
// What is printed
// ---------------------------------------------------------------------------

/// `s` with spaces behind it up to a length of `n`.
pub open spec fn padded(s: Seq<char>, n: nat) -> Seq<char>
    decreases n - s.len(),
{
    if s.len() >= n {
        s
    } else {
        padded(s.push(' '), n)
    }
}

fn pad(mut v: Vec<char>, n: usize) -> (r: Vec<char>)
    ensures
        r@ == padded(v@, n as nat),
{
    let ghost s = v@;
    while v.len() < n
        invariant
            padded(v@, n as nat) == padded(s, n as nat),
        decreases n - v.len(),
    {
        v.push(' ');
    }
    v
}

/// The name of a link state.
pub open spec fn state_text(state: LinkState) -> Seq<char> {
    match state {
        LinkState::Down => "Down"@,
        LinkState::CableUnplugged => "CableUnplugged"@,
        LinkState::Up => "Up"@,
    }
}

fn state_name(state: LinkState) -> (r: Vec<char>)
    ensures
        r@ == state_text(state),
{
    match state {
        LinkState::Down => chars_of("Down"),
        LinkState::CableUnplugged => chars_of("CableUnplugged"),
        LinkState::Up => chars_of("Up"),
    }
}

/// The line of a card in a list: its name, its link and its IPv4 address.
pub open spec fn card_line(card: Card) -> Seq<char> {
    padded(card.name, 14) + " "@ + padded(state_text(card.hardware.state), 14) + " "@ + ipv4_text(
        card.ipv4.ip,
    )
}

/// The lines of a list of cards.
pub open spec fn list_lines(cards: Seq<NetCardInfo>) -> Seq<Seq<char>> {
    if cards.len() == 0 {
        seq!["(没有网卡)"@]
    } else {
        seq![padded("NAME"@, 14) + " "@ + padded("LINK"@, 14) + " IPV4"@] + cards.map_values(
            |c: NetCardInfo| card_line(c@),
        )
    }
}

/// The line that tells of an event.
pub open spec fn event_line(ev: NetCardEvent) -> Seq<char> {
    let (tag, card) = match ev {
        NetCardEvent::Added(c) => ("ADD"@, c@),
        NetCardEvent::Removed(c) => ("DEL"@, c@),
        NetCardEvent::Changed(c) => ("CHG"@, c@),
    };
    "["@ + tag + "] "@ + padded(card.name, 14) + " link="@ + padded(
        state_text(card.hardware.state),
        14,
    ) + " ipv4="@ + ipv4_text(card.ipv4.ip)
}

/// Appends a text.
fn push_str(out: &mut Vec<char>, s: &str)
    ensures
        final(out)@ == old(out)@ + s@,
{
    out.append(&mut chars_of(s));
}

fn write_card(card: &NetCardInfo) -> (r: Vec<char>)
    ensures
        r@ == card_line(card@),
{
    let mut out = pad(chars_of(card.name.as_str()), 14);
    push_str(&mut out, " ");
    out.append(&mut pad(state_name(card.hardware.state), 14));
    push_str(&mut out, " ");
    out.append(&mut card.ipv4.ip.text());
    out
}

/// The text of a list of cards.
pub fn list_text(cards: &Vec<NetCardInfo>) -> (r: String)
    ensures
        r@ == unlines(list_lines(cards@)),
{
    let mut out: Vec<char> = Vec::new();
    if cards.len() == 0 {
        push_str(&mut out, "(没有网卡)");
        out.push('\n');
        proof {
            let l = seq!["(没有网卡)"@];
            assert(l.drop_last() =~= Seq::empty());
            assert(out@ =~= unlines(Seq::empty()) + l.last().push('\n'));
        }
        return string_of(&out);
    }
    out = pad(chars_of("NAME"), 14);
    push_str(&mut out, " ");
    out.append(&mut pad(chars_of("LINK"), 14));
    push_str(&mut out, " IPV4");
    let ghost head = out@;
    out.push('\n');
    let ghost all = list_lines(cards@);
    proof {
        let l = all.take(1);
        assert(l.drop_last() =~= Seq::empty());
        assert(l.last() == head);
        assert(out@ =~= unlines(Seq::empty()) + head.push('\n'));
    }
    let mut i: usize = 0;
    while i < cards.len()
        invariant
            i <= cards@.len(),
            cards@.len() > 0,
            all == list_lines(cards@),
            out@ == unlines(all.take(i + 1)),
        decreases cards.len() - i,
    {
        let ghost before = out@;
        let mut line = write_card(&cards[i]);
        let ghost text = line@;
        out.append(&mut line);
        out.push('\n');
        proof {
            let l = all.take(i + 2);
            assert(l.drop_last() =~= all.take(i + 1));
            assert(l.last() == text);
            assert(out@ =~= before + text.push('\n'));
        }
        i += 1;
    }
    assert(all.take(i + 1) =~= all);
    string_of(&out)
}

/// The line that tells of an event.
pub fn event_text(ev: &NetCardEvent) -> (r: String)
    ensures
        r@ == event_line(*ev),
{
    let (tag, card) = match ev {
        NetCardEvent::Added(c) => ("ADD", c),
        NetCardEvent::Removed(c) => ("DEL", c),
        NetCardEvent::Changed(c) => ("CHG", c),
    };
    let mut out = chars_of("[");
    push_str(&mut out, tag);
    push_str(&mut out, "] ");
    out.append(&mut pad(chars_of(card.name.as_str()), 14));
    push_str(&mut out, " link=");
    out.append(&mut pad(state_name(card.hardware.state), 14));
    push_str(&mut out, " ipv4=");
    out.append(&mut card.ipv4.ip.text());
    string_of(&out)
}

// ---------------------------------------------------------------------------
// The dialogue
// ---------------------------------------------------------------------------

/// What the client prints before each line that it reads.
pub const PROMPT: &'static str = "netman> ";

/// What the client prints first.
pub const BANNER: &'static str = "netman 交互式网络管理（输入 help 查看帮助，quit 退出）\n网卡事件会实时显示在本终端。";

/// What the client prints when it is asked for help.
pub const HELP: &'static str = "可用命令：\n  list | ls                              列出所有网卡\n  info <iface>                           查看网卡详情\n  link <iface> up|down                   启用/禁用网口链路\n  ipv4 <iface> --dhcp                    IPv4 自动获取（DHCP）\n  ipv4 <iface> --ip <ip> --netmask <m> [--gw <gw>] [--dns1 <d1>] [--dns2 <d2>]   静态 IPv4\n  ipv6 <iface> --dhcp                    IPv6 自动获取（DHCP）\n  ipv6 <iface> --ip <ip> --prefix <n> [--gw <gw>] [--dns1 <d1>] [--dns2 <d2>]   静态 IPv6\n  help | h                              显示本帮助\n  quit | exit | q                       退出";

/// What came of reading a line.
pub enum Input {
    Line(String),
    /// There is no more input.
    End,
    /// Reading failed; the text says how.
    Failed(String),
}

/// What the client does then.
pub enum DialogStep {
    /// Read the next line.
    Next,
    /// Print this, then read the next line.
    Print(String),
    /// Print this as an error, then read the next line.
    Complain(String),
    /// Carry out a command, print what came of it, then read the next line.
    Execute(Command),
    /// End, after a line feed.
    EndOfInput,
    /// Print this as an error and end.
    Break(String),
    /// End.
    Quit,
}

/// Whether a command is carried out by the manager.
pub open spec fn is_task(cmd: CommandView) -> bool {
    !(cmd is Help || cmd is Quit || cmd is Noop)
}

/// What the client does when it has read a line, or could not.
pub fn step(input: Input) -> (r: DialogStep)
    ensures
        match input {
            Input::End => r is EndOfInput,
            Input::Failed(text) => r matches DialogStep::Break(t) && t@ == "error: 读取输入失败: "@
                + text@,
            Input::Line(line) => match command_of(words_of(line@)) {
                Ok(cmd) => match r {
                    DialogStep::Next => cmd is Noop,
                    DialogStep::Quit => cmd is Quit,
                    DialogStep::Print(text) => cmd is Help && text@ == HELP@,
                    DialogStep::Execute(task) => is_task(cmd) && task@ == cmd,
                    _ => false,
                },
                Err(text) => r matches DialogStep::Complain(t) && t@ == "error: "@ + text,
            },
        },
{
    match input {
        Input::End => DialogStep::EndOfInput,
        Input::Failed(text) => {
            let mut out = "error: 读取输入失败: ".to_string();
            out.append(text.as_str());
            DialogStep::Break(out)
        },
        Input::Line(line) => match parse_line(line.as_str()) {
            Ok(Command::Noop) => DialogStep::Next,
            Ok(Command::Quit) => DialogStep::Quit,
            Ok(Command::Help) => DialogStep::Print(HELP.to_string()),
            Ok(cmd) => DialogStep::Execute(cmd),
            Err(text) => {
                let mut out = "error: ".to_string();
                out.append(text.as_str());
                DialogStep::Complain(out)
            },
        },
    }
}

/// The command of the manager that a command of the user stands for, if it stands for
/// one.
pub fn execute(cmd: &Command) -> (r: Option<ManagerCommand>)
    ensures
        match *cmd {
            Command::List => r == Some(ManagerCommand::GetAllNetCards),
            Command::Info { iface } => r == Some(ManagerCommand::GetNetCard { iface_name: iface }),
            Command::Link { iface, up } => r == Some(
                ManagerCommand::SetLinkState { iface_name: iface, up },
            ),
            Command::Ipv4 { iface, info } => r == Some(
                ManagerCommand::SetIpv4 { iface_name: iface, info },
            ),
            Command::Ipv6 { iface, info } => r == Some(
                ManagerCommand::SetIpv6 { iface_name: iface, info },
            ),
            _ => r is None,
        },
{
    match cmd {
        Command::List => Some(ManagerCommand::GetAllNetCards),
        Command::Info { iface } => Some(ManagerCommand::GetNetCard { iface_name: iface.clone() }),
        Command::Link { iface, up } => Some(
            ManagerCommand::SetLinkState { iface_name: iface.clone(), up: *up },
        ),
        Command::Ipv4 { iface, info } => Some(
            ManagerCommand::SetIpv4 { iface_name: iface.clone(), info: *info },
        ),
        Command::Ipv6 { iface, info } => Some(
            ManagerCommand::SetIpv6 { iface_name: iface.clone(), info: *info },
        ),
        _ => None,
    }
}

/// The line that says that a setting has been made.
pub open spec fn done_line(cmd: CommandView) -> Seq<char> {
    match cmd {
        CommandView::Link { iface, up } => "ok: "@ + iface + " -> "@ + if up {
            "up"@
        } else {
            "down"@
        },
        CommandView::Ipv4 { iface, .. } => "ok: 已应用 IPv4 配置到 "@ + iface,
        CommandView::Ipv6 { iface, .. } => "ok: 已应用 IPv6 配置到 "@ + iface,
        _ => seq![],
    }
}

/// The line that says that a setting has been made; empty for a command that sets
/// nothing.
pub fn done_text(cmd: &Command) -> (r: String)
    ensures
        r@ == done_line(cmd@),
{
    match cmd {
        Command::Link { iface, up } => {
            let mut out = "ok: ".to_string();
            out.append(iface.as_str());
            out.append(" -> ");
            out.append(
                if *up {
                    "up"
                } else {
                    "down"
                },
            );
            out
        },
        Command::Ipv4 { iface, .. } => {
            let mut out = "ok: 已应用 IPv4 配置到 ".to_string();
            out.append(iface.as_str());
            out
        },
        Command::Ipv6 { iface, .. } => {
            let mut out = "ok: 已应用 IPv6 配置到 ".to_string();
            out.append(iface.as_str());
            out
        },
        _ => {
            let out = String::new();
            assert(out@ =~= Seq::<char>::empty());
            out
        },
    }
}

/// The line that says that a command has failed.
pub fn failure_text(e: &NetError) -> (r: String)
    ensures
        r@ == "error: "@ + e@,
{
    let mut out = "error: ".to_string();
    out.append(e.message().as_str());
    out
}

}
