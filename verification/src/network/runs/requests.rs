//! The outside work that jobs ask for.
use super::super::actor::{
    advanced, completed, ipv4_job, ipv6_job, lease4_job, lease6_job, restored_card, settled,
    store_of, wanted, Action, JobState, NetState, Outcome, Step,
};
use super::super::persist::NetCardStore;
use super::fitting;
use super::plans::{
    all_of, lemma_all_of_add, lemma_all_of_opt, lemma_ipv4_plan, lemma_ipv6_plan, lemma_lease4_plan,
    lemma_lease6_plan, lemma_past_part,
};
use super::records::is_straight;
use crate::{Ipv4Info, Ipv6Info};
use vstd::prelude::*;

verus! {

/// The outside work that a run asks for, in order.
pub open spec fn asked(n: NetState, j: JobState, outcomes: Seq<Outcome>) -> Seq<Action>
    decreases outcomes.len(),
{
    let (n1, j1) = settled(n, j);
    if outcomes.len() == 0 {
        seq![]
    } else {
        match wanted(n1, j1) {
            None => seq![],
            Some(action) => {
                let (n2, j2) = completed(n1, j1, outcomes[0]);
                seq![action] + asked(n2, j2, outcomes.drop_first())
            },
        }
    }
}

/// Whether all the work of a step is of one kind.
pub open spec fn asks(step: Step, q: spec_fn(Action) -> bool) -> bool {
    match step {
        Step::Must(a) => q(a),
        Step::Try(a) => q(a),
        Step::Save => forall|store: NetCardStore| #[trigger] q(Action::SaveConfig(store)),
        _ => is_straight(step) || step is EndPart,
    }
}

proof fn lemma_asks_settled(n: NetState, j: JobState, q: spec_fn(Action) -> bool)
    requires
        all_of(j.steps, |s: Step| asks(s, q)),
    ensures
        all_of(settled(n, j).1.steps, |s: Step| asks(s, q)),
    decreases j.steps.len(),
{
    if j.steps.len() > 0 && wanted(n, j) is None {
        let k = advanced(n, j).1;
        assert forall|i: int| 0 <= i < k.steps.len() implies asks(#[trigger] k.steps[i], q) by {
            assert(k.steps[i] == j.steps[i + 1]);
        }
        lemma_asks_settled(advanced(n, j).0, k, q);
    }
}

/// Where all the work of the steps is of one kind, so is all that a run asks for.
pub proof fn lemma_asked(n: NetState, j: JobState, outcomes: Seq<Outcome>, q: spec_fn(Action) -> bool)
    requires
        all_of(j.steps, |s: Step| asks(s, q)),
        fitting(n, j, outcomes),
    ensures
        forall|i: int|
            0 <= i < asked(n, j, outcomes).len() ==> q(#[trigger] asked(n, j, outcomes)[i]),
    decreases outcomes.len(),
{
    lemma_asks_settled(n, j, q);
    let (n1, j1) = settled(n, j);
    if outcomes.len() > 0 && wanted(n1, j1) is Some {
        let (n2, j2) = completed(n1, j1, outcomes[0]);
        let rest = outcomes.drop_first();
        assert(asks(j1.steps[0], q));
        let p = lemma_past_part(j1.steps);
        let from = if j2.steps.len() == 0 {
            j1.steps.len() as int
        } else if j2.steps == j1.steps.drop_first() {
            1int
        } else {
            p
        };
        assert(j2.steps =~= j1.steps.skip(from));
        assert forall|i: int| 0 <= i < j2.steps.len() implies asks(#[trigger] j2.steps[i], q) by {
            assert(j2.steps[i] == j1.steps[i + from]);
        }
        lemma_asked(n2, j2, rest, q);
        let all = asked(n, j, outcomes);
        assert forall|i: int| 0 <= i < all.len() implies q(#[trigger] all[i]) by {
            if i > 0 {
                assert(all[i] == asked(n2, j2, rest)[i - 1]);
            }
        }
    }
}

/// A disabled IPv4 configuration gives the card no address, no gateway and no DNS
/// server and starts no client: what was configured is taken away and the file written.
pub proof fn law_disabled_ipv4_adds_nothing(
    n: NetState,
    iface: Seq<char>,
    info: Ipv4Info,
    outcomes: Seq<Outcome>,
)
    requires
        n.cards.contains_key(iface),
        !info.enabled,
        fitting(n, ipv4_job(n, iface, info), outcomes),
    ensures
        ({
            let old = n.cards[iface].ipv4;
            let all = asked(n, ipv4_job(n, iface, info), outcomes);
            forall|i: int|
                0 <= i < all.len() ==> {
                    ||| #[trigger] all[i] == Action::StopDhcp4
                    ||| all[i] == Action::DelIpv4Address(old.ip, old.netmask)
                    ||| all[i] == Action::DelIpv4Gateway(old.gateway)
                    ||| all[i] is SaveConfig
                }
        }),
{
    let old = n.cards[iface].ipv4;
    let q = |a: Action|
        {
            ||| a == Action::StopDhcp4
            ||| a == Action::DelIpv4Address(old.ip, old.netmask)
            ||| a == Action::DelIpv4Gateway(old.gateway)
            ||| a is SaveConfig
        };
    lemma_ipv4_plan(n.dhcp4.contains(iface), old, info, |s: Step| asks(s, q));
    lemma_asked(n, ipv4_job(n, iface, info), outcomes, q);
}

/// The same of a disabled IPv6 configuration.
pub proof fn law_disabled_ipv6_adds_nothing(
    n: NetState,
    iface: Seq<char>,
    info: Ipv6Info,
    outcomes: Seq<Outcome>,
)
    requires
        n.cards.contains_key(iface),
        !info.enabled,
        fitting(n, ipv6_job(n, iface, info), outcomes),
    ensures
        ({
            let old = n.cards[iface].ipv6;
            let all = asked(n, ipv6_job(n, iface, info), outcomes);
            forall|i: int|
                0 <= i < all.len() ==> {
                    ||| #[trigger] all[i] == Action::StopDhcp6
                    ||| all[i] == Action::DelIpv6Address(old.ip, old.prefix_len)
                    ||| all[i] == Action::DelIpv6Gateway(old.gateway)
                    ||| all[i] is SaveConfig
                }
        }),
{
    let old = n.cards[iface].ipv6;
    let q = |a: Action|
        {
            ||| a == Action::StopDhcp6
            ||| a == Action::DelIpv6Address(old.ip, old.prefix_len)
            ||| a == Action::DelIpv6Gateway(old.gateway)
            ||| a is SaveConfig
        };
    lemma_ipv6_plan(n.dhcp6.contains(iface), old, info, |s: Step| asks(s, q));
    lemma_asked(n, ipv6_job(n, iface, info), outcomes, q);
}

/// Whether work gives the card an IPv4 address or gateway.
pub open spec fn sets_address4(a: Action) -> bool {
    a is SetIpv4Address || a is SetIpv4Gateway
}

/// Whether work gives the card an IPv6 address or gateway.
pub open spec fn sets_address6(a: Action) -> bool {
    a is SetIpv6Address || a is SetIpv6Gateway
}

/// An IPv4 configuration that takes its address from DHCP sets none itself, and one
/// that takes its DNS servers from DHCP writes none itself. One that takes nothing from
/// DHCP starts no client.
pub proof fn law_ipv4_sources(
    n: NetState,
    iface: Seq<char>,
    info: Ipv4Info,
    outcomes: Seq<Outcome>,
)
    requires
        n.cards.contains_key(iface),
        fitting(n, ipv4_job(n, iface, info), outcomes),
    ensures
        ({
            let all = asked(n, ipv4_job(n, iface, info), outcomes);
            forall|i: int|
                0 <= i < all.len() ==> {
                    &&& info.use_dhcp ==> !sets_address4(#[trigger] all[i])
                    &&& info.auto_dns ==> !(all[i] is UpdateIpv4Dns)
                    &&& !info.use_dhcp && !info.auto_dns ==> all[i] != Action::StartDhcp4
                }
        }),
{
    broadcast use {lemma_all_of_add, lemma_all_of_opt};

    let old = n.cards[iface].ipv4;
    let q = |a: Action|
        {
            &&& info.use_dhcp ==> !sets_address4(a)
            &&& info.auto_dns ==> !(a is UpdateIpv4Dns)
            &&& !info.use_dhcp && !info.auto_dns ==> a != Action::StartDhcp4
        };
    let p = |s: Step| asks(s, q);
    assert(all_of(seq![Step::PutIpv4(info)], p));
    assert(all_of(seq![Step::Save], p));
    lemma_asked(n, ipv4_job(n, iface, info), outcomes, q);
}

/// The same of an IPv6 configuration.
pub proof fn law_ipv6_sources(
    n: NetState,
    iface: Seq<char>,
    info: Ipv6Info,
    outcomes: Seq<Outcome>,
)
    requires
        n.cards.contains_key(iface),
        fitting(n, ipv6_job(n, iface, info), outcomes),
    ensures
        ({
            let all = asked(n, ipv6_job(n, iface, info), outcomes);
            forall|i: int|
                0 <= i < all.len() ==> {
                    &&& info.use_dhcp ==> !sets_address6(#[trigger] all[i])
                    &&& info.auto_dns ==> !(all[i] is UpdateIpv6Dns)
                    &&& !info.use_dhcp && !info.auto_dns ==> all[i] != Action::StartDhcp6
                }
        }),
{
    broadcast use {lemma_all_of_add, lemma_all_of_opt};

    let old = n.cards[iface].ipv6;
    let q = |a: Action|
        {
            &&& info.use_dhcp ==> !sets_address6(a)
            &&& info.auto_dns ==> !(a is UpdateIpv6Dns)
            &&& !info.use_dhcp && !info.auto_dns ==> a != Action::StartDhcp6
        };
    let p = |s: Step| asks(s, q);
    assert(all_of(seq![Step::PutIpv6(info)], p));
    assert(all_of(seq![Step::Save], p));
    lemma_asked(n, ipv6_job(n, iface, info), outcomes, q);
}

/// A DHCPv4 lease sets an address only where addresses come from DHCP, and writes DNS
/// servers only where those do.
pub proof fn law_lease4_sources(
    n: NetState,
    iface: Seq<char>,
    lease: Ipv4Info,
    outcomes: Seq<Outcome>,
)
    requires
        n.cards.contains_key(iface),
        fitting(n, lease4_job(n, iface, lease), outcomes),
    ensures
        ({
            let info = n.cards[iface].ipv4;
            let all = asked(n, lease4_job(n, iface, lease), outcomes);
            forall|i: int|
                0 <= i < all.len() ==> {
                    &&& !info.use_dhcp ==> !sets_address4(#[trigger] all[i])
                    &&& !info.auto_dns ==> !(all[i] is UpdateIpv4Dns)
                }
        }),
{
    let info = n.cards[iface].ipv4;
    let q = |a: Action|
        {
            &&& !info.use_dhcp ==> !sets_address4(a)
            &&& !info.auto_dns ==> !(a is UpdateIpv4Dns)
        };
    lemma_lease4_plan(info, lease, |s: Step| asks(s, q));
    lemma_asked(n, lease4_job(n, iface, lease), outcomes, q);
}

/// The same of a DHCPv6 lease.
pub proof fn law_lease6_sources(
    n: NetState,
    iface: Seq<char>,
    lease: Ipv6Info,
    outcomes: Seq<Outcome>,
)
    requires
        n.cards.contains_key(iface),
        fitting(n, lease6_job(n, iface, lease), outcomes),
    ensures
        ({
            let info = n.cards[iface].ipv6;
            let all = asked(n, lease6_job(n, iface, lease), outcomes);
            forall|i: int|
                0 <= i < all.len() ==> {
                    &&& !info.use_dhcp ==> !sets_address6(#[trigger] all[i])
                    &&& !info.auto_dns ==> !(all[i] is UpdateIpv6Dns)
                }
        }),
{
    let info = n.cards[iface].ipv6;
    let q = |a: Action|
        {
            &&& !info.use_dhcp ==> !sets_address6(a)
            &&& !info.auto_dns ==> !(a is UpdateIpv6Dns)
        };
    lemma_lease6_plan(info, lease, |s: Step| asks(s, q));
    lemma_asked(n, lease6_job(n, iface, lease), outcomes, q);
}

/// What is written to disk is what is known of the card at that moment.
pub proof fn law_saved_is_known(n: NetState, j: JobState)
    requires
        j.steps.len() > 0,
        j.steps[0] is Save,
        n.cards.contains_key(j.iface),
    ensures
        wanted(n, j) == Some(Action::SaveConfig(store_of(n.cards[j.iface]))),
        restored_card(
            n.cards[j.iface].name,
            n.cards[j.iface].hardware,
            Some(store_of(n.cards[j.iface])),
        ) == n.cards[j.iface],
{
}

}
