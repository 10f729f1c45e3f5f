//! Laws of the command language: what a command comes to, from the shortest on and with
//! each option that is added, and what the lines that are printed hold.
use super::{
    card_line, command_of, event_line, ipv4_at, ipv4_command, ipv6_at, ipv6_command, is_task,
    lemma_option_words, list_lines, no_options4, no_options6, options4, options6, padded, prefix_at,
    with_segments, CommandView, Options4, Options6,
};
use crate::addr::{ipv4_of, ipv4_text, ipv6_of};
use crate::network::NetCardEvent;
use crate::number::number_of;
use crate::{Ipv4Addr, Ipv4Info, Ipv6Addr, Ipv6Info, LinkState, NetCardInfo};
use vstd::prelude::*;

verus! {

// ---------------------------------------------------------------------------
// Settings
// ---------------------------------------------------------------------------

/// A line that reads as this IPv4 command.
pub open spec fn reads4(iface: Seq<char>, info: Ipv4Info) -> Result<CommandView, Seq<char>> {
    Ok(CommandView::Ipv4 { iface, info })
}

/// A line that reads as this IPv6 command.
pub open spec fn reads6(iface: Seq<char>, info: Ipv6Info) -> Result<CommandView, Seq<char>> {
    Ok(CommandView::Ipv6 { iface, info })
}

/// Words that read as options go on to do so when more follow.
proof fn lemma_more4(args: Seq<Seq<char>>, tail: Seq<Seq<char>>, i: int, o: Options4)
    requires
        0 <= i <= args.len(),
        options4(args, i, o) is Ok,
    ensures
        options4(args + tail, i, o) == options4(
            args + tail,
            args.len() as int,
            options4(args, i, o)->Ok_0,
        ),
    decreases args.len() - i,
{
    let all = args + tail;
    if i < args.len() {
        assert(all[i] == args[i]);
        if args[i] == "--dhcp"@ {
            lemma_more4(args, tail, i + 1, Options4 { dhcp: true, ..o });
        } else if i + 1 < args.len() {
            assert(all[i + 1] == args[i + 1]);
            assert(ipv4_at(all, i + 1) == ipv4_at(args, i + 1));
            let a = ipv4_at(args, i + 1)->Ok_0;
            if args[i] == "--ip"@ {
                lemma_more4(args, tail, i + 2, Options4 { ip: Some(a), ..o });
            } else if args[i] == "--netmask"@ {
                lemma_more4(args, tail, i + 2, Options4 { netmask: Some(a), ..o });
            } else if args[i] == "--gw"@ {
                lemma_more4(args, tail, i + 2, Options4 { gw: Some(a), ..o });
            } else if args[i] == "--dns1"@ {
                lemma_more4(args, tail, i + 2, Options4 { dns1: Some(a), ..o });
            } else if args[i] == "--dns2"@ {
                lemma_more4(args, tail, i + 2, Options4 { dns2: Some(a), ..o });
            }
        }
    }
}

/// What one more option with its value comes to.
proof fn lemma_one_more4(args: Seq<Seq<char>>, option: Seq<char>, value: Seq<char>)
    requires
        args.len() > 0,
        options4(args, 1, no_options4()) is Ok,
        option != "--dhcp"@,
    ensures
        ({
            let o = options4(args, 1, no_options4())->Ok_0;
            let r = options4(args + seq![option, value], 1, no_options4());
            let a = ipv4_of(value);
            &&& a is None ==> r is Err
            &&& a is Some && option == "--ip"@ ==> r == Ok::<Options4, Seq<char>>(
                Options4 { ip: a, ..o },
            )
            &&& a is Some && option == "--netmask"@ ==> r == Ok::<Options4, Seq<char>>(
                Options4 { netmask: a, ..o },
            )
            &&& a is Some && option == "--gw"@ ==> r == Ok::<Options4, Seq<char>>(
                Options4 { gw: a, ..o },
            )
            &&& a is Some && option == "--dns1"@ ==> r == Ok::<Options4, Seq<char>>(
                Options4 { dns1: a, ..o },
            )
            &&& a is Some && option == "--dns2"@ ==> r == Ok::<Options4, Seq<char>>(
                Options4 { dns2: a, ..o },
            )
        }),
{
    let tail = seq![option, value];
    let all = args + tail;
    let n = args.len() as int;
    let o = options4(args, 1, no_options4())->Ok_0;
    lemma_option_words();
    lemma_more4(args, tail, 1, no_options4());
    assert(all[n] == option && all[n + 1] == value);
    assert(all.len() == n + 2);
    if let Some(a) = ipv4_of(value) {
        assert(ipv4_at(all, n + 1) == Ok::<Ipv4Addr, Seq<char>>(a));
        let o1 = Options4 { ip: Some(a), ..o };
        assert(options4(all, n + 2, o1) == Ok::<Options4, Seq<char>>(o1));
        let o2 = Options4 { netmask: Some(a), ..o };
        assert(options4(all, n + 2, o2) == Ok::<Options4, Seq<char>>(o2));
        let o3 = Options4 { gw: Some(a), ..o };
        assert(options4(all, n + 2, o3) == Ok::<Options4, Seq<char>>(o3));
        let o4 = Options4 { dns1: Some(a), ..o };
        assert(options4(all, n + 2, o4) == Ok::<Options4, Seq<char>>(o4));
        let o5 = Options4 { dns2: Some(a), ..o };
        assert(options4(all, n + 2, o5) == Ok::<Options4, Seq<char>>(o5));
    } else {
        assert(ipv4_at(all, n + 1) is Err);
    }
}

proof fn lemma_dhcp_more4(args: Seq<Seq<char>>)
    requires
        args.len() > 0,
        options4(args, 1, no_options4()) is Ok,
    ensures
        options4(args + seq!["--dhcp"@], 1, no_options4()) == Ok::<Options4, Seq<char>>(
            Options4 { dhcp: true, ..options4(args, 1, no_options4())->Ok_0 },
        ),
{
    let tail = seq!["--dhcp"@];
    let all = args + tail;
    let n = args.len() as int;
    let o = options4(args, 1, no_options4())->Ok_0;
    lemma_more4(args, tail, 1, no_options4());
    assert(all[n] == "--dhcp"@ && all.len() == n + 1);
    let x = Options4 { dhcp: true, ..o };
    assert(options4(all, n + 1, x) == Ok::<Options4, Seq<char>>(x));
}

/// One more option at the end of an IPv4 command changes what the command configures in
/// what the option names, to the value behind the option, and in nothing else, with
/// DHCP as without. An address and DHCP exclude each other, whichever comes last. A
/// value that is no address is refused.
pub proof fn law_ipv4_option_added(args: Seq<Seq<char>>, value: Seq<char>)
    requires
        ipv4_command(args) is Ok,
    ensures
        ({
            let cmd = ipv4_command(args)->Ok_0;
            let iface = cmd->Ipv4_iface;
            let info = cmd->Ipv4_info;
            let dns1 = ipv4_command(args + seq!["--dns1"@, value]);
            let dns2 = ipv4_command(args + seq!["--dns2"@, value]);
            let gw = ipv4_command(args + seq!["--gw"@, value]);
            let netmask = ipv4_command(args + seq!["--netmask"@, value]);
            let ip = ipv4_command(args + seq!["--ip"@, value]);
            let dhcp = ipv4_command(args + seq!["--dhcp"@]);
            &&& cmd is Ipv4 && iface == args[0]
            &&& dhcp is Ok <==> info.use_dhcp
            &&& dhcp is Ok ==> dhcp == ipv4_command(args)
            &&& match ipv4_of(value) {
                Some(a) => {
                    &&& gw == reads4(iface, Ipv4Info { gateway: a, ..info })
                    &&& dns1 == reads4(iface, Ipv4Info { primary_dns: a, ..info })
                    &&& dns2 == reads4(iface, Ipv4Info { secondary_dns: a, ..info })
                    &&& netmask == reads4(iface, Ipv4Info { netmask: a, ..info })
                    &&& !info.use_dhcp ==> ip == reads4(iface, Ipv4Info { ip: a, ..info })
                    &&& info.use_dhcp ==> ip is Err
                },
                None => gw is Err && dns1 is Err && dns2 is Err && netmask is Err && ip is Err,
            }
        }),
{
    lemma_option_words();
    lemma_one_more4(args, "--dns1"@, value);
    lemma_one_more4(args, "--dns2"@, value);
    lemma_one_more4(args, "--gw"@, value);
    lemma_one_more4(args, "--netmask"@, value);
    lemma_one_more4(args, "--ip"@, value);
    lemma_dhcp_more4(args);
    assert((args + seq!["--dns1"@, value])[0] == args[0]);
    assert((args + seq!["--dns2"@, value])[0] == args[0]);
    assert((args + seq!["--gw"@, value])[0] == args[0]);
    assert((args + seq!["--netmask"@, value])[0] == args[0]);
    assert((args + seq!["--ip"@, value])[0] == args[0]);
    assert((args + seq!["--dhcp"@])[0] == args[0]);
}

/// The shortest IPv4 commands: an interface with DHCP takes everything from there, and
/// one with an address and a mask has them and nothing else. An interface alone, or with
/// one of the two, is not enough.
pub proof fn law_ipv4_shortest(iface: Seq<char>, ip: Seq<char>, netmask: Seq<char>)
    requires
        ipv4_of(ip) is Some,
        ipv4_of(netmask) is Some,
    ensures
        ({
            let none = Ipv4Addr::zero();
            &&& ipv4_command(seq![iface, "--dhcp"@]) == reads4(
                iface,
                Ipv4Info {
                    enabled: true,
                    use_dhcp: true,
                    auto_dns: true,
                    ip: none,
                    netmask: none,
                    gateway: none,
                    primary_dns: none,
                    secondary_dns: none,
                },
            )
            &&& ipv4_command(seq![iface, "--ip"@, ip, "--netmask"@, netmask]) == reads4(
                iface,
                Ipv4Info {
                    enabled: true,
                    use_dhcp: false,
                    auto_dns: false,
                    ip: ipv4_of(ip)->Some_0,
                    netmask: ipv4_of(netmask)->Some_0,
                    gateway: none,
                    primary_dns: none,
                    secondary_dns: none,
                },
            )
            &&& ipv4_command(seq![]) is Err
            &&& ipv4_command(seq![iface]) is Err
            &&& ipv4_command(seq![iface, "--ip"@, ip]) is Err
            &&& ipv4_command(seq![iface, "--netmask"@, netmask]) is Err
        }),
{
    lemma_option_words();
    let one = seq![iface];
    assert(options4(one, 1, no_options4()) == Ok::<Options4, Seq<char>>(no_options4()));
    lemma_dhcp_more4(one);
    assert(one + seq!["--dhcp"@] =~= seq![iface, "--dhcp"@]);
    lemma_one_more4(one, "--ip"@, ip);
    lemma_one_more4(one, "--netmask"@, netmask);
    let two = seq![iface, "--ip"@, ip];
    assert(one + seq!["--ip"@, ip] =~= two);
    assert(one + seq!["--netmask"@, netmask] =~= seq![iface, "--netmask"@, netmask]);
    lemma_one_more4(two, "--netmask"@, netmask);
    assert(two + seq!["--netmask"@, netmask] =~= seq![iface, "--ip"@, ip, "--netmask"@, netmask]);
}

/// An IPv4 command that ends in an option without its value is refused, and so is one
/// with any other word in the place of an option.
pub proof fn law_ipv4_option_refused(args: Seq<Seq<char>>, word: Seq<char>)
    requires
        ipv4_command(args) is Ok,
        word != "--dhcp"@,
    ensures
        ipv4_command(args + seq![word]) is Err,
{
    let tail = seq![word];
    let all = args + tail;
    let n = args.len() as int;
    lemma_more4(args, tail, 1, no_options4());
    assert(all[n] == word && all.len() == n + 1);
    assert(ipv4_at(all, n + 1) is Err);
}

/// The IPv6 address that a word is the text of, if it is one.
pub open spec fn address6(word: Seq<char>) -> Option<Ipv6Addr> {
    match ipv6_of(word) {
        Some(g) => Some(with_segments(g)),
        None => None,
    }
}

/// The prefix length that a word denotes, if it denotes one.
pub open spec fn prefix6(word: Seq<char>) -> Option<u8> {
    match number_of(word, 128) {
        Some(n) => Some(n as u8),
        None => None,
    }
}

/// Words that read as options go on to do so when more follow.
proof fn lemma_more6(args: Seq<Seq<char>>, tail: Seq<Seq<char>>, i: int, o: Options6)
    requires
        0 <= i <= args.len(),
        options6(args, i, o) is Ok,
    ensures
        options6(args + tail, i, o) == options6(
            args + tail,
            args.len() as int,
            options6(args, i, o)->Ok_0,
        ),
    decreases args.len() - i,
{
    let all = args + tail;
    if i < args.len() {
        assert(all[i] == args[i]);
        if args[i] == "--dhcp"@ {
            lemma_more6(args, tail, i + 1, Options6 { dhcp: true, ..o });
        } else if i + 1 < args.len() {
            assert(all[i + 1] == args[i + 1]);
            assert(ipv6_at(all, i + 1) == ipv6_at(args, i + 1));
            assert(prefix_at(all, i + 1) == prefix_at(args, i + 1));
            let a = ipv6_at(args, i + 1)->Ok_0;
            let p = prefix_at(args, i + 1)->Ok_0;
            if args[i] == "--ip"@ {
                lemma_more6(args, tail, i + 2, Options6 { ip: Some(a), ..o });
            } else if args[i] == "--prefix"@ {
                lemma_more6(args, tail, i + 2, Options6 { prefix_len: Some(p), ..o });
            } else if args[i] == "--gw"@ {
                lemma_more6(args, tail, i + 2, Options6 { gw: Some(a), ..o });
            } else if args[i] == "--dns1"@ {
                lemma_more6(args, tail, i + 2, Options6 { dns1: Some(a), ..o });
            } else if args[i] == "--dns2"@ {
                lemma_more6(args, tail, i + 2, Options6 { dns2: Some(a), ..o });
            }
        }
    }
}

/// What one more option with its value comes to.
proof fn lemma_one_more6(args: Seq<Seq<char>>, option: Seq<char>, value: Seq<char>)
    requires
        args.len() > 0,
        options6(args, 1, no_options6()) is Ok,
        option != "--dhcp"@,
    ensures
        ({
            let o = options6(args, 1, no_options6())->Ok_0;
            let r = options6(args + seq![option, value], 1, no_options6());
            let a = address6(value);
            let n = prefix6(value);
            &&& a is None && option != "--prefix"@ ==> r is Err
            &&& n is None && option == "--prefix"@ ==> r is Err
            &&& a is Some && option == "--ip"@ ==> r == Ok::<Options6, Seq<char>>(
                Options6 { ip: a, ..o },
            )
            &&& n is Some && option == "--prefix"@ ==> r == Ok::<Options6, Seq<char>>(
                Options6 { prefix_len: n, ..o },
            )
            &&& a is Some && option == "--gw"@ ==> r == Ok::<Options6, Seq<char>>(
                Options6 { gw: a, ..o },
            )
            &&& a is Some && option == "--dns1"@ ==> r == Ok::<Options6, Seq<char>>(
                Options6 { dns1: a, ..o },
            )
            &&& a is Some && option == "--dns2"@ ==> r == Ok::<Options6, Seq<char>>(
                Options6 { dns2: a, ..o },
            )
        }),
{
    let tail = seq![option, value];
    let all = args + tail;
    let n = args.len() as int;
    let o = options6(args, 1, no_options6())->Ok_0;
    lemma_option_words();
    lemma_more6(args, tail, 1, no_options6());
    assert(all[n] == option && all[n + 1] == value);
    assert(all.len() == n + 2);
    if let Some(p) = prefix6(value) {
        assert(prefix_at(all, n + 1) == Ok::<u8, Seq<char>>(p));
        let o2 = Options6 { prefix_len: Some(p), ..o };
        assert(options6(all, n + 2, o2) == Ok::<Options6, Seq<char>>(o2));
    } else {
        assert(prefix_at(all, n + 1) is Err);
    }
    if let Some(a) = address6(value) {
        assert(ipv6_at(all, n + 1) == Ok::<Ipv6Addr, Seq<char>>(a));
        let o1 = Options6 { ip: Some(a), ..o };
        assert(options6(all, n + 2, o1) == Ok::<Options6, Seq<char>>(o1));
        let o3 = Options6 { gw: Some(a), ..o };
        assert(options6(all, n + 2, o3) == Ok::<Options6, Seq<char>>(o3));
        let o4 = Options6 { dns1: Some(a), ..o };
        assert(options6(all, n + 2, o4) == Ok::<Options6, Seq<char>>(o4));
        let o5 = Options6 { dns2: Some(a), ..o };
        assert(options6(all, n + 2, o5) == Ok::<Options6, Seq<char>>(o5));
    } else {
        assert(ipv6_at(all, n + 1) is Err);
    }
}

proof fn lemma_dhcp_more6(args: Seq<Seq<char>>)
    requires
        args.len() > 0,
        options6(args, 1, no_options6()) is Ok,
    ensures
        options6(args + seq!["--dhcp"@], 1, no_options6()) == Ok::<Options6, Seq<char>>(
            Options6 { dhcp: true, ..options6(args, 1, no_options6())->Ok_0 },
        ),
{
    let tail = seq!["--dhcp"@];
    let all = args + tail;
    let n = args.len() as int;
    let o = options6(args, 1, no_options6())->Ok_0;
    lemma_more6(args, tail, 1, no_options6());
    assert(all[n] == "--dhcp"@ && all.len() == n + 1);
    let x = Options6 { dhcp: true, ..o };
    assert(options6(all, n + 1, x) == Ok::<Options6, Seq<char>>(x));
}

/// One more option at the end of an IPv6 command changes what the command configures in
/// what the option names, to the value behind the option, and in nothing else, with
/// DHCP as without. An address and DHCP exclude each other, whichever comes last. A
/// value that is no address is refused, and so is a prefix that is no number up to 128.
pub proof fn law_ipv6_option_added(args: Seq<Seq<char>>, value: Seq<char>)
    requires
        ipv6_command(args) is Ok,
    ensures
        ({
            let cmd = ipv6_command(args)->Ok_0;
            let iface = cmd->Ipv6_iface;
            let info = cmd->Ipv6_info;
            let dns1 = ipv6_command(args + seq!["--dns1"@, value]);
            let dns2 = ipv6_command(args + seq!["--dns2"@, value]);
            let gw = ipv6_command(args + seq!["--gw"@, value]);
            let prefix = ipv6_command(args + seq!["--prefix"@, value]);
            let ip = ipv6_command(args + seq!["--ip"@, value]);
            let dhcp = ipv6_command(args + seq!["--dhcp"@]);
            &&& cmd is Ipv6 && iface == args[0]
            &&& dhcp is Ok <==> info.use_dhcp
            &&& dhcp is Ok ==> dhcp == ipv6_command(args)
            &&& match address6(value) {
                Some(a) => {
                    &&& gw == reads6(iface, Ipv6Info { gateway: a, ..info })
                    &&& dns1 == reads6(iface, Ipv6Info { primary_dns: a, ..info })
                    &&& dns2 == reads6(iface, Ipv6Info { secondary_dns: a, ..info })
                    &&& !info.use_dhcp ==> ip == reads6(iface, Ipv6Info { ip: a, ..info })
                    &&& info.use_dhcp ==> ip is Err
                },
                None => gw is Err && dns1 is Err && dns2 is Err && ip is Err,
            }
            &&& match prefix6(value) {
                Some(n) => prefix == reads6(iface, Ipv6Info { prefix_len: n, ..info }),
                None => prefix is Err,
            }
        }),
{
    lemma_option_words();
    lemma_one_more6(args, "--dns1"@, value);
    lemma_one_more6(args, "--dns2"@, value);
    lemma_one_more6(args, "--gw"@, value);
    lemma_one_more6(args, "--prefix"@, value);
    lemma_one_more6(args, "--ip"@, value);
    lemma_dhcp_more6(args);
    assert((args + seq!["--dns1"@, value])[0] == args[0]);
    assert((args + seq!["--dns2"@, value])[0] == args[0]);
    assert((args + seq!["--gw"@, value])[0] == args[0]);
    assert((args + seq!["--prefix"@, value])[0] == args[0]);
    assert((args + seq!["--ip"@, value])[0] == args[0]);
    assert((args + seq!["--dhcp"@])[0] == args[0]);
}

/// The shortest IPv6 commands: an interface with DHCP takes everything from there, and
/// one with an address and a prefix has them and nothing else. An interface alone, or with
/// one of the two, is not enough.
pub proof fn law_ipv6_shortest(iface: Seq<char>, ip: Seq<char>, prefix: Seq<char>)
    requires
        address6(ip) is Some,
        prefix6(prefix) is Some,
    ensures
        ({
            let none = Ipv6Addr::zero();
            &&& ipv6_command(seq![iface, "--dhcp"@]) == reads6(
                iface,
                Ipv6Info {
                    enabled: true,
                    use_dhcp: true,
                    auto_dns: true,
                    ip: none,
                    prefix_len: 0,
                    gateway: none,
                    primary_dns: none,
                    secondary_dns: none,
                },
            )
            &&& ipv6_command(seq![iface, "--ip"@, ip, "--prefix"@, prefix]) == reads6(
                iface,
                Ipv6Info {
                    enabled: true,
                    use_dhcp: false,
                    auto_dns: false,
                    ip: address6(ip)->Some_0,
                    prefix_len: prefix6(prefix)->Some_0,
                    gateway: none,
                    primary_dns: none,
                    secondary_dns: none,
                },
            )
            &&& ipv6_command(seq![]) is Err
            &&& ipv6_command(seq![iface]) is Err
            &&& ipv6_command(seq![iface, "--ip"@, ip]) is Err
            &&& ipv6_command(seq![iface, "--prefix"@, prefix]) is Err
        }),
{
    lemma_option_words();
    let one = seq![iface];
    assert(options6(one, 1, no_options6()) == Ok::<Options6, Seq<char>>(no_options6()));
    lemma_dhcp_more6(one);
    assert(one + seq!["--dhcp"@] =~= seq![iface, "--dhcp"@]);
    lemma_one_more6(one, "--ip"@, ip);
    lemma_one_more6(one, "--prefix"@, prefix);
    let two = seq![iface, "--ip"@, ip];
    assert(one + seq!["--ip"@, ip] =~= two);
    assert(one + seq!["--prefix"@, prefix] =~= seq![iface, "--prefix"@, prefix]);
    lemma_one_more6(two, "--prefix"@, prefix);
    assert(two + seq!["--prefix"@, prefix] =~= seq![iface, "--ip"@, ip, "--prefix"@, prefix]);
}

/// An IPv6 command that ends in an option without its value is refused, and so is one
/// with any other word in the place of an option.
pub proof fn law_ipv6_option_refused(args: Seq<Seq<char>>, word: Seq<char>)
    requires
        ipv6_command(args) is Ok,
        word != "--dhcp"@,
    ensures
        ipv6_command(args + seq![word]) is Err,
{
    let tail = seq![word];
    let all = args + tail;
    let n = args.len() as int;
    lemma_more6(args, tail, 1, no_options6());
    assert(all[n] == word && all.len() == n + 1);
    assert(ipv6_at(all, n + 1) is Err);
    assert(prefix_at(all, n + 1) is Err);
}

// ---------------------------------------------------------------------------
// The other commands
// ---------------------------------------------------------------------------

proof fn lemma_command_words()
    ensures
        forall|i: int, j: int|
            0 <= i < j < command_words().len() ==> #[trigger] command_words()[i]
                != #[trigger] command_words()[j],
        "up"@ != "down"@,
{
    reveal_strlit("list");
    reveal_strlit("ls");
    reveal_strlit("help");
    reveal_strlit("h");
    reveal_strlit("quit");
    reveal_strlit("exit");
    reveal_strlit("q");
    reveal_strlit("info");
    reveal_strlit("link");
    reveal_strlit("ipv4");
    reveal_strlit("ipv6");
    reveal_strlit("up");
    reveal_strlit("down");
    let w = command_words();
    assert(w[0].len() == 4 && w[0][0] == 'l' && w[0][3] == 't');
    assert(w[1].len() == 2 && w[1][0] == 'l' && w[1][1] == 's');
    assert(w[2].len() == 4 && w[2][0] == 'h' && w[2][3] == 'p');
    assert(w[3].len() == 1 && w[3][0] == 'h' && w[3][0] == 'h');
    assert(w[4].len() == 4 && w[4][0] == 'q' && w[4][3] == 't');
    assert(w[5].len() == 4 && w[5][0] == 'e' && w[5][3] == 't');
    assert(w[6].len() == 1 && w[6][0] == 'q' && w[6][0] == 'q');
    assert(w[7].len() == 4 && w[7][0] == 'i' && w[7][3] == 'o');
    assert(w[8].len() == 4 && w[8][0] == 'l' && w[8][3] == 'k');
    assert(w[9].len() == 4 && w[9][0] == 'i' && w[9][3] == '4');
    assert(w[10].len() == 4 && w[10][0] == 'i' && w[10][3] == '6');
    assert forall|i: int, j: int| 0 <= i < j < w.len() implies #[trigger] w[i] != #[trigger] w[j] by {
        if w[i] == w[j] {
            assert(w[i].len() == w[j].len());
            assert(w[i][0] == w[j][0]);
            assert(w[i][w[i].len() - 1] == w[j][w[i].len() - 1]);
        }
    }
    assert("up"@.len() == 2 && "down"@.len() == 4);
}

/// The words that a command can start with.
pub open spec fn command_words() -> Seq<Seq<char>> {
    seq![
        "list"@,
        "ls"@,
        "help"@,
        "h"@,
        "quit"@,
        "exit"@,
        "q"@,
        "info"@,
        "link"@,
        "ipv4"@,
        "ipv6"@,
    ]
}

/// What a line comes to by its words: commands without arguments pass over what follows,
/// `info` and `link` are for the interface that is named, `link` is for the switch that
/// is named, and `ipv4` and `ipv6` are for the words behind them.
pub proof fn law_commands(iface: Seq<char>, state: Seq<char>, rest: Seq<Seq<char>>)
    ensures
        command_of(seq!["list"@] + rest) == Ok::<CommandView, Seq<char>>(CommandView::List),
        command_of(seq!["ls"@] + rest) == Ok::<CommandView, Seq<char>>(CommandView::List),
        command_of(seq!["help"@] + rest) == Ok::<CommandView, Seq<char>>(CommandView::Help),
        command_of(seq!["h"@] + rest) == Ok::<CommandView, Seq<char>>(CommandView::Help),
        command_of(seq!["quit"@] + rest) == Ok::<CommandView, Seq<char>>(CommandView::Quit),
        command_of(seq!["exit"@] + rest) == Ok::<CommandView, Seq<char>>(CommandView::Quit),
        command_of(seq!["q"@] + rest) == Ok::<CommandView, Seq<char>>(CommandView::Quit),
        command_of(seq![]) == Ok::<CommandView, Seq<char>>(CommandView::Noop),
        command_of(seq!["info"@, iface] + rest) == Ok::<CommandView, Seq<char>>(
            CommandView::Info { iface },
        ),
        command_of(seq!["link"@, iface, "up"@] + rest) == Ok::<CommandView, Seq<char>>(
            CommandView::Link { iface, up: true },
        ),
        command_of(seq!["link"@, iface, "down"@] + rest) == Ok::<CommandView, Seq<char>>(
            CommandView::Link { iface, up: false },
        ),
        state != "up"@ && state != "down"@ ==> command_of(seq!["link"@, iface, state] + rest) is Err,
        command_of(seq!["ipv4"@] + rest) == ipv4_command(rest),
        command_of(seq!["ipv6"@] + rest) == ipv6_command(rest),
        !command_words().contains(state) ==> command_of(seq![state] + rest) is Err,
        command_of(seq!["info"@]) is Err,
        command_of(seq!["link"@]) is Err,
        command_of(seq!["link"@, iface]) is Err,
{
    lemma_command_words();
    let w = command_words();
    assert forall|i: int, j: int| 0 <= i < 11 && 0 <= j < 11 && i != j implies #[trigger] w[i]
        != #[trigger] w[j] by {
        if i < j {
            assert(w[i] != w[j]);
        } else {
            assert(w[j] != w[i]);
        }
    }
    assert(w[0] == "list"@ && w[1] == "ls"@ && w[2] == "help"@ && w[3] == "h"@);
    assert(w[4] == "quit"@ && w[5] == "exit"@ && w[6] == "q"@ && w[7] == "info"@);
    assert(w[8] == "link"@ && w[9] == "ipv4"@ && w[10] == "ipv6"@);
    assert((seq!["ipv4"@] + rest).skip(1) =~= rest);
    assert((seq!["ipv6"@] + rest).skip(1) =~= rest);
    if !w.contains(state) {
        assert forall|i: int| 0 <= i < 11 implies #[trigger] w[i] != state by {}
    }
}

/// Help, the end and an empty line are dealt with by the client; every other command is
/// for the manager.
pub proof fn law_tasks(cmd: CommandView)
    ensures
        is_task(cmd) <==> cmd is List || cmd is Info || cmd is Link || cmd is Ipv4 || cmd is Ipv6,
{
}

// ---------------------------------------------------------------------------
// What is printed
// ---------------------------------------------------------------------------

/// A text that is padded starts with the text and goes on with spaces, as many as are
/// missing.
pub proof fn law_padded(s: Seq<char>, n: nat)
    ensures
        padded(s, n).len() == if s.len() < n {
            n
        } else {
            s.len()
        },
        forall|i: int|
            0 <= i < padded(s, n).len() ==> #[trigger] padded(s, n)[i] == if i < s.len() {
                s[i]
            } else {
                ' '
            },
    decreases n - s.len(),
{
    if s.len() < n {
        law_padded(s.push(' '), n);
    }
}

/// The lines of a list are a heading and then one for each card, in order, with the
/// name, the state of the link and the IPv4 address of that card.
pub proof fn law_list(cards: Seq<NetCardInfo>, i: int)
    requires
        0 <= i < cards.len(),
    ensures
        list_lines(cards).len() == cards.len() + 1,
        list_lines(cards)[0] == padded("NAME"@, 14) + " "@ + padded("LINK"@, 14) + " IPV4"@,
        ({
            let state = match cards[i].hardware.state {
                LinkState::Down => "Down"@,
                LinkState::CableUnplugged => "CableUnplugged"@,
                LinkState::Up => "Up"@,
            };
            list_lines(cards)[i + 1] == padded(cards[i].name@, 14) + " "@ + padded(state, 14) + " "@
                + ipv4_text(cards[i].ipv4.ip)
        }),
{
    assert(list_lines(cards)[i + 1] == card_line(cards[i]@));
}

/// The line of an event tells by its tag whether the card has been added, removed or
/// changed, and goes on with the name, the state of the link and the IPv4 address of
/// the card of the event.
pub proof fn law_event(card: NetCardInfo)
    ensures
        ({
            let state = match card.hardware.state {
                LinkState::Down => "Down"@,
                LinkState::CableUnplugged => "CableUnplugged"@,
                LinkState::Up => "Up"@,
            };
            let rest = padded(card.name@, 14) + " link="@ + padded(state, 14) + " ipv4="@
                + ipv4_text(card.ipv4.ip);
            &&& event_line(NetCardEvent::Added(card)) == "[ADD] "@ + rest
            &&& event_line(NetCardEvent::Removed(card)) == "[DEL] "@ + rest
            &&& event_line(NetCardEvent::Changed(card)) == "[CHG] "@ + rest
        }),
{
    reveal_strlit("[");
    reveal_strlit("] ");
    reveal_strlit("ADD");
    reveal_strlit("DEL");
    reveal_strlit("CHG");
    reveal_strlit("[ADD] ");
    reveal_strlit("[DEL] ");
    reveal_strlit("[CHG] ");
    assert("["@ + "ADD"@ + "] "@ =~= "[ADD] "@);
    assert("["@ + "DEL"@ + "] "@ =~= "[DEL] "@);
    assert("["@ + "CHG"@ + "] "@ =~= "[CHG] "@);
    let state = match card.hardware.state {
        LinkState::Down => "Down"@,
        LinkState::CableUnplugged => "CableUnplugged"@,
        LinkState::Up => "Up"@,
    };
    let (a, b, c, d, e) = (
        padded(card.name@, 14),
        " link="@,
        padded(state, 14),
        " ipv4="@,
        ipv4_text(card.ipv4.ip),
    );
    let add = "[ADD] "@;
    let del = "[DEL] "@;
    let chg = "[CHG] "@;
    assert(add + a + b + c + d + e =~= add + (a + b + c + d + e));
    assert(del + a + b + c + d + e =~= del + (a + b + c + d + e));
    assert(chg + a + b + c + d + e =~= chg + (a + b + c + d + e));
}

}
