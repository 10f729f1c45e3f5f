//! What is done to a card when it is switched and when it is given a lease.
use super::super::actor::{
    has_address6, lease4_job, lease4_plan, lease6_job, lease6_plan, link_job, link_plan, opt,
    Action, NetState, Outcome, Step,
};
use super::super::persist::NetCardStore;
use super::effects::{chosen, in_places, lemma_chosen, one, place};
use super::plans::{
    all_of, lemma_all_of_add, lemma_all_of_opt, lemma_lease4_plan, lemma_lease6_plan,
};
use super::records::{
    booked_all, is_work, leased4, leased6, lemma_lease4_booked, lemma_lease6_booked,
};
use super::requests::asked;
use super::work::{
    begins, ends_at_failure, is_tidy, lemma_saves_as_last, lemma_straight_work, lemma_works_add,
    lemma_works_one, lemma_works_opt, saves_as, work, works,
};
use super::{fitting, run, succeeded};
use crate::{Card, Ipv4Addr, Ipv4Info, Ipv6Addr, Ipv6Info};
use vstd::prelude::*;

verus! {

// ---------------------------------------------------------------------------
// Switching
// ---------------------------------------------------------------------------

pub(crate) proof fn lemma_link_works(up: bool, store: NetCardStore)
    ensures
        works(link_plan(up), store) == seq![Action::SetLink(up), Action::SaveConfig(store)],
        all_of(link_plan(up), |s: Step| is_tidy(s)),
{
    broadcast use lemma_works_add;

    let a = seq![Step::Must(Action::SetLink(up))];
    let b = seq![Step::PutEnabled(up)];
    let c = seq![Step::Save];
    assert(link_plan(up) =~= a + b + c);
    lemma_works_one(a[0], store);
    lemma_works_one(b[0], store);
    lemma_works_one(c[0], store);
    assert(works(link_plan(up), store) =~= seq![Action::SetLink(up), Action::SaveConfig(store)]);
}

/// Whoever switches a known card has the link switched that way, and then the file
/// written with that switch and with the configurations as they are. The run fails
/// where the switching fails, and only there, and the record is then as it was.
pub proof fn law_link_done(n: NetState, iface: Seq<char>, up: bool, outcomes: Seq<Outcome>)
    requires
        n.cards.contains_key(iface),
        fitting(n, link_job(n, iface, up), outcomes),
    ensures
        ({
            let j = link_job(n, iface, up);
            let (m, k) = run(n, j, outcomes);
            let all = asked(n, j, outcomes);
            let card = n.cards[iface];
            let store = NetCardStore { link_up: up, ipv4: card.ipv4, ipv6: card.ipv6 };
            &&& succeeded(k) ==> all.len() == 2
            &&& all.len() <= 2
            &&& all.len() >= 1 ==> all[0] == Action::SetLink(up)
            &&& all.len() >= 2 ==> all[1] == Action::SaveConfig(store)
            &&& ends_at_failure(all, outcomes, k)
            &&& k.error is Some ==> m == n
        }),
{
    let j = link_job(n, iface, up);
    let (m, k) = run(n, j, outcomes);
    let card = n.cards[iface];
    let store = NetCardStore { link_up: up, ipv4: card.ipv4, ipv6: card.ipv6 };
    let front = seq![Step::Must(Action::SetLink(up)), Step::PutEnabled(up)];
    assert(link_plan(up) =~= front.push(Step::Save));
    assert(booked_all(card, front) == Card { enabled: up, ..card }) by {
        assert(front.drop_last() =~= seq![Step::Must(Action::SetLink(up))]);
        assert(seq![Step::Must(Action::SetLink(up))].drop_last() =~= Seq::<Step>::empty());
        assert(booked_all(card, Seq::<Step>::empty()) == card);
        assert(booked_all(card, seq![Step::Must(Action::SetLink(up))]) == card);
    }
    lemma_saves_as_last(card, front, Step::Save, store);
    let p = lemma_straight_work(n, j, outcomes, store);
    lemma_link_works(up, store);
    if k.error is Some {
        assert(p == 0);
        assert(j.steps.take(0) =~= Seq::<Step>::empty());
        assert(booked_all(card, Seq::<Step>::empty()) == card);
        assert(n.cards.insert(iface, card) =~= n.cards);
    }
}

proof fn lemma_four(
    b4: bool,
    set: Action,
    b5: bool,
    set_gateway: Action,
    b6: bool,
    dns: Action,
    store: NetCardStore,
)
    requires
        3 < place(set) < place(set_gateway) < place(dns) < 7,
    ensures
        in_places(
            one(b4, set) + one(b5, set_gateway) + one(b6, dns) + seq![Action::SaveConfig(store)],
        ),
        forall|x: Action|
            #[trigger]
            (one(b4, set) + one(b5, set_gateway) + one(b6, dns) + seq![
                Action::SaveConfig(store),
            ]).contains(x) == ({
                ||| b4 && x == set
                ||| b5 && x == set_gateway
                ||| b6 && x == dns
                ||| x == Action::SaveConfig(store)
            }),
{
    let all = one(b4, set) + one(b5, set_gateway) + one(b6, dns) + seq![Action::SaveConfig(store)];
    let zero = Ipv4Addr::zero();
    let s1 = Action::StopDhcp4;
    let s2 = Action::DelIpv4Address(zero, zero);
    let s3 = Action::DelIpv4Gateway(zero);
    let s7 = Action::StartDhcp4;
    let s8 = Action::SaveConfig(store);
    lemma_chosen(
        false,
        s1,
        false,
        s2,
        false,
        s3,
        b4,
        set,
        b5,
        set_gateway,
        b6,
        dns,
        false,
        s7,
        true,
        s8,
    );
    assert(all =~= chosen(
        false,
        s1,
        false,
        s2,
        false,
        s3,
        b4,
        set,
        b5,
        set_gateway,
        b6,
        dns,
        false,
        s7,
        true,
        s8,
    )) by {
        reveal(chosen);
    }
}

proof fn lemma_begun(a: Seq<Action>, b: Seq<Action>, all: Seq<Action>)
    requires
        begins(a + b, all),
    ensures
        begins(a, all),
{
    assert forall|i: int| 0 <= i < a.len() implies #[trigger] a[i] == all[i] by {
        assert((a + b)[i] == a[i]);
    }
}

// ---------------------------------------------------------------------------
// DHCPv4 leases
// ---------------------------------------------------------------------------

/// `all` is the work of giving a card with the IPv4 configuration `ipv4` a lease. Where
/// the address comes from DHCP, the address of the lease is set with its mask, and its
/// gateway, as far as the lease has them. Where the DNS servers come from DHCP, those of
/// the lease are written. At the end the file is written with `store`. There is nothing
/// else in `all`.
pub open spec fn takes_lease4(
    all: Seq<Action>,
    ipv4: Ipv4Info,
    lease: Ipv4Info,
    store: NetCardStore,
) -> bool {
    let none = Ipv4Addr::zero();
    &&& in_places(all)
    &&& all.contains(Action::SetIpv4Address(lease.ip, lease.netmask)) <==> ipv4.use_dhcp && lease.ip
        != none
    &&& all.contains(Action::SetIpv4Gateway(lease.gateway)) <==> ipv4.use_dhcp && lease.gateway
        != none
    &&& all.contains(Action::UpdateIpv4Dns(lease.primary_dns, lease.secondary_dns))
        <==> ipv4.auto_dns
    &&& all.contains(Action::SaveConfig(store))
    &&& forall|a: Action| #[trigger]
        all.contains(a) ==> match a {
            Action::SetIpv4Address(ip, netmask) => ip == lease.ip && netmask == lease.netmask,
            Action::SetIpv4Gateway(gateway) => gateway == lease.gateway,
            Action::UpdateIpv4Dns(first, second) => first == lease.primary_dns && second
                == lease.secondary_dns,
            Action::SaveConfig(written) => written == store,
            _ => false,
        }
}

spec fn address_steps4(ipv4: Ipv4Info, lease: Ipv4Info) -> Seq<Step> {
    if ipv4.use_dhcp {
        opt(
            lease.ip != Ipv4Addr::zero(),
            Step::Must(Action::SetIpv4Address(lease.ip, lease.netmask)),
        ) + opt(
            lease.gateway != Ipv4Addr::zero(),
            Step::Must(Action::SetIpv4Gateway(lease.gateway)),
        ) + seq![Step::LeaseIpv4(lease)]
    } else {
        seq![]
    }
}

spec fn dns_steps4(ipv4: Ipv4Info, lease: Ipv4Info) -> Seq<Step> {
    if ipv4.auto_dns {
        seq![
            Step::Must(Action::UpdateIpv4Dns(lease.primary_dns, lease.secondary_dns)),
            Step::LeaseDns4(lease),
        ]
    } else {
        seq![]
    }
}

proof fn lemma_lease4_pieces(ipv4: Ipv4Info, lease: Ipv4Info, store: NetCardStore)
    ensures
        works(address_steps4(ipv4, lease), store) == one(
            ipv4.use_dhcp && lease.ip != Ipv4Addr::zero(),
            Action::SetIpv4Address(lease.ip, lease.netmask),
        ) + one(
            ipv4.use_dhcp && lease.gateway != Ipv4Addr::zero(),
            Action::SetIpv4Gateway(lease.gateway),
        ),
        works(dns_steps4(ipv4, lease), store) == one(
            ipv4.auto_dns,
            Action::UpdateIpv4Dns(lease.primary_dns, lease.secondary_dns),
        ),
{
    broadcast use {lemma_works_add, lemma_works_opt};

    lemma_works_one(Step::LeaseIpv4(lease), store);
    lemma_works_one(Step::LeaseDns4(lease), store);
    let dns = Step::Must(Action::UpdateIpv4Dns(lease.primary_dns, lease.secondary_dns));
    lemma_works_one(dns, store);
    assert(seq![dns, Step::LeaseDns4(lease)] =~= seq![dns] + seq![Step::LeaseDns4(lease)]);
    let x = one(
        ipv4.use_dhcp && lease.ip != Ipv4Addr::zero(),
        Action::SetIpv4Address(lease.ip, lease.netmask),
    ) + one(
        ipv4.use_dhcp && lease.gateway != Ipv4Addr::zero(),
        Action::SetIpv4Gateway(lease.gateway),
    );
    assert(works(address_steps4(ipv4, lease), store) =~= x);
    assert(works(dns_steps4(ipv4, lease), store) =~= one(
        ipv4.auto_dns,
        Action::UpdateIpv4Dns(lease.primary_dns, lease.secondary_dns),
    ));
}

proof fn lemma_lease4_works(ipv4: Ipv4Info, lease: Ipv4Info, store: NetCardStore)
    ensures
        takes_lease4(works(lease4_plan(ipv4, lease), store), ipv4, lease, store),
        all_of(lease4_plan(ipv4, lease), |s: Step| is_tidy(s)),
{
    let none = Ipv4Addr::zero();
    lemma_lease4_plan(ipv4, lease, |s: Step| is_tidy(s));
    lemma_lease4_pieces(ipv4, lease, store);
    let a = address_steps4(ipv4, lease);
    let d = dns_steps4(ipv4, lease);
    assert(lease4_plan(ipv4, lease) == a + d + seq![Step::Save]);
    lemma_works_add(a, d, store);
    lemma_works_add(a + d, seq![Step::Save], store);
    lemma_works_one(Step::Save, store);
    let set = Action::SetIpv4Address(lease.ip, lease.netmask);
    let set_gateway = Action::SetIpv4Gateway(lease.gateway);
    let dns = Action::UpdateIpv4Dns(lease.primary_dns, lease.secondary_dns);
    let b4 = ipv4.use_dhcp && lease.ip != Ipv4Addr::zero();
    let b5 = ipv4.use_dhcp && lease.gateway != none;
    let b6 = ipv4.auto_dns;
    lemma_four(b4, set, b5, set_gateway, b6, dns, store);
}

proof fn lemma_lease4_saves(card: Card, lease: Ipv4Info, store: NetCardStore)
    requires
        store == (NetCardStore {
            link_up: card.enabled,
            ipv4: leased4(card.ipv4, lease, card.ipv4.use_dhcp, card.ipv4.auto_dns),
            ipv6: card.ipv6,
        }),
    ensures
        saves_as(card, lease4_plan(card.ipv4, lease), store),
{
    let a = address_steps4(card.ipv4, lease);
    let d = dns_steps4(card.ipv4, lease);
    let front = a + d;
    assert(lease4_plan(card.ipv4, lease) =~= front.push(Step::Save));
    lemma_lease4_marks(card, lease, front.len() as int);
    assert(lease4_plan(card.ipv4, lease).take(front.len() as int) =~= front);
    lemma_saves_as_last(card, front, Step::Save, store);
}

/// Where the record of a card is after the first `p` steps of taking in a lease.
#[verifier::rlimit(40)]
proof fn lemma_lease4_marks(card: Card, lease: Ipv4Info, p: int)
    requires
        0 <= p <= lease4_plan(card.ipv4, lease).len(),
    ensures
        ({
            let a = address_steps4(card.ipv4, lease);
            let d = dns_steps4(card.ipv4, lease);
            &&& lease4_plan(card.ipv4, lease) == a + d + seq![Step::Save]
            &&& booked_all(card, lease4_plan(card.ipv4, lease).take(p)) == (Card {
                ipv4: leased4(
                    card.ipv4,
                    lease,
                    card.ipv4.use_dhcp && p >= a.len(),
                    card.ipv4.auto_dns && p >= a.len() + d.len(),
                ),
                ..card
            })
            &&& forall|i: int| 0 <= i < a.len() + d.len() ==> !((#[trigger] (a + d)[i]) is Save)
            &&& forall|i: int|
                0 <= i < lease4_plan(card.ipv4, lease).len() && #[trigger] lease4_plan(
                    card.ipv4,
                    lease,
                )[i] is Must ==> if lease4_plan(card.ipv4, lease)[i]->Must_0 is UpdateIpv4Dns {
                    a.len() <= i < a.len() + d.len()
                } else {
                    i < a.len()
                }
        }),
{
    broadcast use {lemma_all_of_add, lemma_all_of_opt};

    let ipv4 = card.ipv4;
    let plan = lease4_plan(ipv4, lease);
    let a = address_steps4(ipv4, lease);
    let d = dns_steps4(ipv4, lease);
    let mark = Step::LeaseIpv4(lease);
    let mark_dns = Step::LeaseDns4(lease);
    assert(plan == a + d + seq![Step::Save]);
    let early = |s: Step| s is Must && !(s->Must_0 is UpdateIpv4Dns);
    if ipv4.use_dhcp {
        let sets = opt(
            lease.ip != Ipv4Addr::zero(),
            Step::Must(Action::SetIpv4Address(lease.ip, lease.netmask)),
        ) + opt(
            lease.gateway != Ipv4Addr::zero(),
            Step::Must(Action::SetIpv4Gateway(lease.gateway)),
        );
        assert(all_of(sets, early));
        assert(a == sets + seq![mark]);
        assert forall|i: int| 0 <= i < a.len() - 1 implies early(#[trigger] a[i]) by {
            assert(a[i] == sets[i]);
        }
        assert(a[a.len() - 1] == mark);
    }
    assert forall|i: int| 0 <= i < plan.len() implies #[trigger] plan[i] == if i < a.len() {
        a[i]
    } else if i < a.len() + d.len() {
        d[i - a.len()]
    } else {
        Step::Save
    } by {}
    let done = plan.take(p);
    assert forall|i: int| 0 <= i < done.len() implies is_work(#[trigger] done[i]) || done[i] == mark
        || done[i] == mark_dns by {
        assert(done[i] == plan[i]);
    }
    assert forall|i: int| 0 <= i < done.len() implies #[trigger] done[i] == plan[i] by {}
    assert(done.contains(mark) == (ipv4.use_dhcp && p >= a.len())) by {
        if ipv4.use_dhcp && p >= a.len() {
            assert(done[a.len() - 1] == mark);
        }
        if done.contains(mark) {
            let i = choose|i: int| 0 <= i < done.len() && done[i] == mark;
            assert(plan[i] == mark);
            assert(i < a.len());
            assert(i == a.len() - 1);
        }
    }
    assert(done.contains(mark_dns) == (ipv4.auto_dns && p >= a.len() + d.len())) by {
        if ipv4.auto_dns && p >= a.len() + d.len() {
            assert(done[a.len() as int + 1] == mark_dns);
        }
        if done.contains(mark_dns) {
            let i = choose|i: int| 0 <= i < done.len() && done[i] == mark_dns;
            assert(plan[i] == mark_dns);
            assert(i == a.len() + 1);
        }
    }
    lemma_lease4_booked(card, lease, done);
}

/// A card that takes anything from DHCP gets it from a DHCPv4 lease: a run that succeeds
/// has set the address and the gateway of the lease and written its DNS servers, as far
/// as they come from DHCP, and then written the file; any run has asked for a beginning
/// of that. The record does not change before address and gateway are set, nor its DNS
/// servers before those of the lease are written. The run fails where a piece of work
/// fails, unless that wrote the file.
#[verifier::rlimit(40)]
pub proof fn law_lease4_done(
    n: NetState,
    iface: Seq<char>,
    lease: Ipv4Info,
    outcomes: Seq<Outcome>,
)
    requires
        n.cards.contains_key(iface),
        fitting(n, lease4_job(n, iface, lease), outcomes),
    ensures
        ({
            let j = lease4_job(n, iface, lease);
            let (m, k) = run(n, j, outcomes);
            let all = asked(n, j, outcomes);
            let card = n.cards[iface];
            let ipv4 = card.ipv4;
            let now = m.cards[iface];
            let store = NetCardStore {
                link_up: card.enabled,
                ipv4: leased4(ipv4, lease, ipv4.use_dhcp, ipv4.auto_dns),
                ipv6: card.ipv6,
            };
            &&& succeeded(k) ==> takes_lease4(all, ipv4, lease, store)
            &&& succeeded(k) && ipv4.use_dhcp && lease.ip != Ipv4Addr::zero() ==> all.contains(
                Action::SetIpv4Address(lease.ip, lease.netmask),
            )
            &&& succeeded(k) && ipv4.use_dhcp && lease.gateway != Ipv4Addr::zero()
                ==> all.contains(Action::SetIpv4Gateway(lease.gateway))
            &&& succeeded(k) && ipv4.auto_dns ==> all.contains(
                Action::UpdateIpv4Dns(lease.primary_dns, lease.secondary_dns),
            )
            &&& succeeded(k) ==> all.contains(Action::SaveConfig(store))
            &&& exists|whole: Seq<Action>|
                begins(all, whole) && #[trigger] takes_lease4(whole, ipv4, lease, store)
            &&& ends_at_failure(all, outcomes, k)
            &&& now != card && ipv4.use_dhcp && lease.ip != Ipv4Addr::zero()
                ==> all.contains(Action::SetIpv4Address(lease.ip, lease.netmask))
            &&& now != card && ipv4.use_dhcp && lease.gateway != Ipv4Addr::zero()
                ==> all.contains(Action::SetIpv4Gateway(lease.gateway))
            &&& now.ipv4.primary_dns != ipv4.primary_dns || now.ipv4.secondary_dns
                != ipv4.secondary_dns ==> all.contains(
                Action::UpdateIpv4Dns(lease.primary_dns, lease.secondary_dns),
            )
            &&& k.error is Some ==> now == Card {
                ipv4: leased4(
                    ipv4,
                    lease,
                    ipv4.use_dhcp && all.last() is UpdateIpv4Dns,
                    false,
                ),
                ..card
            }
        }),
{
    let j = lease4_job(n, iface, lease);
    let (m, k) = run(n, j, outcomes);
    let all = asked(n, j, outcomes);
    let card = n.cards[iface];
    let ipv4 = card.ipv4;
    let now = m.cards[iface];
    let store = NetCardStore {
        link_up: card.enabled,
        ipv4: leased4(ipv4, lease, ipv4.use_dhcp, ipv4.auto_dns),
        ipv6: card.ipv6,
    };
    lemma_lease4_works(ipv4, lease, store);
    lemma_lease4_saves(card, lease, store);
    let p = lemma_straight_work(n, j, outcomes, store);
    lemma_lease4_marks(card, lease, p);
    lemma_lease4_pieces(ipv4, lease, store);
    let a = address_steps4(ipv4, lease);
    let d = dns_steps4(ipv4, lease);
    let done = j.steps.take(p);
    assert(takes_lease4(works(j.steps, store), ipv4, lease, store));
    if ipv4.use_dhcp && p >= a.len() {
        let rest = j.steps.subrange(a.len() as int, p);
        assert(done =~= a + rest);
        lemma_works_add(a, rest, store);
        lemma_begun(works(a, store), works(rest, store), all);
        let x = one(lease.ip != Ipv4Addr::zero(), Action::SetIpv4Address(lease.ip, lease.netmask));
        let y = one(lease.gateway != Ipv4Addr::zero(), Action::SetIpv4Gateway(lease.gateway));
        lemma_begun(x, y, x + y);
        assert(y.len() > 0 ==> (x + y)[x.len() as int] == y[0]);
        assert(x.len() > 0 ==> all[0] == x[0]);
        assert(y.len() > 0 ==> all[x.len() as int] == y[0]);
    }
    if ipv4.auto_dns && p >= a.len() + d.len() {
        let rest = j.steps.subrange((a.len() + d.len()) as int, p);
        assert(done =~= a + d + rest);
        lemma_works_add(a, d, store);
        lemma_works_add(a + d, rest, store);
        lemma_begun(works(a + d, store), works(rest, store), all);
        let at = works(a, store).len() as int;
        assert(works(a + d, store)[at] == works(d, store)[0]);
        assert(all[at] == Action::UpdateIpv4Dns(lease.primary_dns, lease.secondary_dns));
    }
}

// ---------------------------------------------------------------------------
// DHCPv6 leases
// ---------------------------------------------------------------------------

/// `all` is the work of giving a card with the IPv6 configuration `ipv6` a lease. Where
/// the address comes from DHCP, the address of the lease is set with its prefix, and its
/// gateway, as far as the lease has them. Where the DNS servers come from DHCP, those of
/// the lease are written. At the end the file is written with `store`. There is nothing
/// else in `all`.
pub open spec fn takes_lease6(
    all: Seq<Action>,
    ipv6: Ipv6Info,
    lease: Ipv6Info,
    store: NetCardStore,
) -> bool {
    let none = Ipv6Addr::zero();
    &&& in_places(all)
    &&& all.contains(Action::SetIpv6Address(lease.ip, lease.prefix_len)) <==> ipv6.use_dhcp
        && lease.ip != none && lease.prefix_len > 0
    &&& all.contains(Action::SetIpv6Gateway(lease.gateway)) <==> ipv6.use_dhcp && lease.gateway
        != none
    &&& all.contains(Action::UpdateIpv6Dns(lease.primary_dns, lease.secondary_dns))
        <==> ipv6.auto_dns
    &&& all.contains(Action::SaveConfig(store))
    &&& forall|a: Action| #[trigger]
        all.contains(a) ==> match a {
            Action::SetIpv6Address(ip, len) => ip == lease.ip && len == lease.prefix_len,
            Action::SetIpv6Gateway(gateway) => gateway == lease.gateway,
            Action::UpdateIpv6Dns(first, second) => first == lease.primary_dns && second
                == lease.secondary_dns,
            Action::SaveConfig(written) => written == store,
            _ => false,
        }
}

spec fn address_steps6(ipv6: Ipv6Info, lease: Ipv6Info) -> Seq<Step> {
    if ipv6.use_dhcp {
        opt(
            has_address6(lease),
            Step::Must(Action::SetIpv6Address(lease.ip, lease.prefix_len)),
        ) + opt(
            lease.gateway != Ipv6Addr::zero(),
            Step::Must(Action::SetIpv6Gateway(lease.gateway)),
        ) + seq![Step::LeaseIpv6(lease)]
    } else {
        seq![]
    }
}

spec fn dns_steps6(ipv6: Ipv6Info, lease: Ipv6Info) -> Seq<Step> {
    if ipv6.auto_dns {
        seq![
            Step::Must(Action::UpdateIpv6Dns(lease.primary_dns, lease.secondary_dns)),
            Step::LeaseDns6(lease),
        ]
    } else {
        seq![]
    }
}

proof fn lemma_lease6_pieces(ipv6: Ipv6Info, lease: Ipv6Info, store: NetCardStore)
    ensures
        works(address_steps6(ipv6, lease), store) == one(
            ipv6.use_dhcp && has_address6(lease),
            Action::SetIpv6Address(lease.ip, lease.prefix_len),
        ) + one(
            ipv6.use_dhcp && lease.gateway != Ipv6Addr::zero(),
            Action::SetIpv6Gateway(lease.gateway),
        ),
        works(dns_steps6(ipv6, lease), store) == one(
            ipv6.auto_dns,
            Action::UpdateIpv6Dns(lease.primary_dns, lease.secondary_dns),
        ),
{
    broadcast use {lemma_works_add, lemma_works_opt};

    lemma_works_one(Step::LeaseIpv6(lease), store);
    lemma_works_one(Step::LeaseDns6(lease), store);
    let dns = Step::Must(Action::UpdateIpv6Dns(lease.primary_dns, lease.secondary_dns));
    lemma_works_one(dns, store);
    assert(seq![dns, Step::LeaseDns6(lease)] =~= seq![dns] + seq![Step::LeaseDns6(lease)]);
    let x = one(
        ipv6.use_dhcp && has_address6(lease),
        Action::SetIpv6Address(lease.ip, lease.prefix_len),
    ) + one(
        ipv6.use_dhcp && lease.gateway != Ipv6Addr::zero(),
        Action::SetIpv6Gateway(lease.gateway),
    );
    assert(works(address_steps6(ipv6, lease), store) =~= x);
    assert(works(dns_steps6(ipv6, lease), store) =~= one(
        ipv6.auto_dns,
        Action::UpdateIpv6Dns(lease.primary_dns, lease.secondary_dns),
    ));
}

proof fn lemma_lease6_works(ipv6: Ipv6Info, lease: Ipv6Info, store: NetCardStore)
    ensures
        takes_lease6(works(lease6_plan(ipv6, lease), store), ipv6, lease, store),
        all_of(lease6_plan(ipv6, lease), |s: Step| is_tidy(s)),
{
    let none = Ipv6Addr::zero();
    lemma_lease6_plan(ipv6, lease, |s: Step| is_tidy(s));
    lemma_lease6_pieces(ipv6, lease, store);
    let a = address_steps6(ipv6, lease);
    let d = dns_steps6(ipv6, lease);
    assert(lease6_plan(ipv6, lease) == a + d + seq![Step::Save]);
    lemma_works_add(a, d, store);
    lemma_works_add(a + d, seq![Step::Save], store);
    lemma_works_one(Step::Save, store);
    let set = Action::SetIpv6Address(lease.ip, lease.prefix_len);
    let set_gateway = Action::SetIpv6Gateway(lease.gateway);
    let dns = Action::UpdateIpv6Dns(lease.primary_dns, lease.secondary_dns);
    let b4 = ipv6.use_dhcp && has_address6(lease);
    let b5 = ipv6.use_dhcp && lease.gateway != none;
    let b6 = ipv6.auto_dns;
    lemma_four(b4, set, b5, set_gateway, b6, dns, store);
}

proof fn lemma_lease6_saves(card: Card, lease: Ipv6Info, store: NetCardStore)
    requires
        store == (NetCardStore {
            link_up: card.enabled,
            ipv6: leased6(card.ipv6, lease, card.ipv6.use_dhcp, card.ipv6.auto_dns),
            ipv4: card.ipv4,
        }),
    ensures
        saves_as(card, lease6_plan(card.ipv6, lease), store),
{
    let a = address_steps6(card.ipv6, lease);
    let d = dns_steps6(card.ipv6, lease);
    let front = a + d;
    assert(lease6_plan(card.ipv6, lease) =~= front.push(Step::Save));
    lemma_lease6_marks(card, lease, front.len() as int);
    assert(lease6_plan(card.ipv6, lease).take(front.len() as int) =~= front);
    lemma_saves_as_last(card, front, Step::Save, store);
}

/// Where the record of a card is after the first `p` steps of taking in a lease.
#[verifier::rlimit(40)]
proof fn lemma_lease6_marks(card: Card, lease: Ipv6Info, p: int)
    requires
        0 <= p <= lease6_plan(card.ipv6, lease).len(),
    ensures
        ({
            let a = address_steps6(card.ipv6, lease);
            let d = dns_steps6(card.ipv6, lease);
            &&& lease6_plan(card.ipv6, lease) == a + d + seq![Step::Save]
            &&& booked_all(card, lease6_plan(card.ipv6, lease).take(p)) == (Card {
                ipv6: leased6(
                    card.ipv6,
                    lease,
                    card.ipv6.use_dhcp && p >= a.len(),
                    card.ipv6.auto_dns && p >= a.len() + d.len(),
                ),
                ..card
            })
            &&& forall|i: int| 0 <= i < a.len() + d.len() ==> !((#[trigger] (a + d)[i]) is Save)
            &&& forall|i: int|
                0 <= i < lease6_plan(card.ipv6, lease).len() && #[trigger] lease6_plan(
                    card.ipv6,
                    lease,
                )[i] is Must ==> if lease6_plan(card.ipv6, lease)[i]->Must_0 is UpdateIpv6Dns {
                    a.len() <= i < a.len() + d.len()
                } else {
                    i < a.len()
                }
        }),
{
    broadcast use {lemma_all_of_add, lemma_all_of_opt};

    let ipv6 = card.ipv6;
    let plan = lease6_plan(ipv6, lease);
    let a = address_steps6(ipv6, lease);
    let d = dns_steps6(ipv6, lease);
    let mark = Step::LeaseIpv6(lease);
    let mark_dns = Step::LeaseDns6(lease);
    assert(plan == a + d + seq![Step::Save]);
    let early = |s: Step| s is Must && !(s->Must_0 is UpdateIpv6Dns);
    if ipv6.use_dhcp {
        let sets = opt(
            has_address6(lease),
            Step::Must(Action::SetIpv6Address(lease.ip, lease.prefix_len)),
        ) + opt(
            lease.gateway != Ipv6Addr::zero(),
            Step::Must(Action::SetIpv6Gateway(lease.gateway)),
        );
        assert(all_of(sets, early));
        assert(a == sets + seq![mark]);
        assert forall|i: int| 0 <= i < a.len() - 1 implies early(#[trigger] a[i]) by {
            assert(a[i] == sets[i]);
        }
        assert(a[a.len() - 1] == mark);
    }
    assert forall|i: int| 0 <= i < plan.len() implies #[trigger] plan[i] == if i < a.len() {
        a[i]
    } else if i < a.len() + d.len() {
        d[i - a.len()]
    } else {
        Step::Save
    } by {}
    let done = plan.take(p);
    assert forall|i: int| 0 <= i < done.len() implies is_work(#[trigger] done[i]) || done[i] == mark
        || done[i] == mark_dns by {
        assert(done[i] == plan[i]);
    }
    assert forall|i: int| 0 <= i < done.len() implies #[trigger] done[i] == plan[i] by {}
    assert(done.contains(mark) == (ipv6.use_dhcp && p >= a.len())) by {
        if ipv6.use_dhcp && p >= a.len() {
            assert(done[a.len() - 1] == mark);
        }
        if done.contains(mark) {
            let i = choose|i: int| 0 <= i < done.len() && done[i] == mark;
            assert(plan[i] == mark);
            assert(i < a.len());
            assert(i == a.len() - 1);
        }
    }
    assert(done.contains(mark_dns) == (ipv6.auto_dns && p >= a.len() + d.len())) by {
        if ipv6.auto_dns && p >= a.len() + d.len() {
            assert(done[a.len() as int + 1] == mark_dns);
        }
        if done.contains(mark_dns) {
            let i = choose|i: int| 0 <= i < done.len() && done[i] == mark_dns;
            assert(plan[i] == mark_dns);
            assert(i == a.len() + 1);
        }
    }
    lemma_lease6_booked(card, lease, done);
}

/// A card that takes anything from DHCP gets it from a DHCPv6 lease: a run that succeeds
/// has set the address and the gateway of the lease and written its DNS servers, as far
/// as they come from DHCP, and then written the file; any run has asked for a beginning
/// of that. The record does not change before address and gateway are set, nor its DNS
/// servers before those of the lease are written. The run fails where a piece of work
/// fails, unless that wrote the file.
#[verifier::rlimit(40)]
pub proof fn law_lease6_done(
    n: NetState,
    iface: Seq<char>,
    lease: Ipv6Info,
    outcomes: Seq<Outcome>,
)
    requires
        n.cards.contains_key(iface),
        fitting(n, lease6_job(n, iface, lease), outcomes),
    ensures
        ({
            let j = lease6_job(n, iface, lease);
            let (m, k) = run(n, j, outcomes);
            let all = asked(n, j, outcomes);
            let card = n.cards[iface];
            let ipv6 = card.ipv6;
            let now = m.cards[iface];
            let store = NetCardStore {
                link_up: card.enabled,
                ipv6: leased6(ipv6, lease, ipv6.use_dhcp, ipv6.auto_dns),
                ipv4: card.ipv4,
            };
            &&& succeeded(k) ==> takes_lease6(all, ipv6, lease, store)
            &&& succeeded(k) && ipv6.use_dhcp && lease.ip != Ipv6Addr::zero() && lease.prefix_len > 0
                ==> all.contains(Action::SetIpv6Address(lease.ip, lease.prefix_len))
            &&& succeeded(k) && ipv6.use_dhcp && lease.gateway != Ipv6Addr::zero()
                ==> all.contains(Action::SetIpv6Gateway(lease.gateway))
            &&& succeeded(k) && ipv6.auto_dns ==> all.contains(
                Action::UpdateIpv6Dns(lease.primary_dns, lease.secondary_dns),
            )
            &&& succeeded(k) ==> all.contains(Action::SaveConfig(store))
            &&& exists|whole: Seq<Action>|
                begins(all, whole) && #[trigger] takes_lease6(whole, ipv6, lease, store)
            &&& ends_at_failure(all, outcomes, k)
            &&& now != card && ipv6.use_dhcp && lease.ip != Ipv6Addr::zero() && lease.prefix_len > 0
                ==> all.contains(Action::SetIpv6Address(lease.ip, lease.prefix_len))
            &&& now != card && ipv6.use_dhcp && lease.gateway != Ipv6Addr::zero()
                ==> all.contains(Action::SetIpv6Gateway(lease.gateway))
            &&& now.ipv6.primary_dns != ipv6.primary_dns || now.ipv6.secondary_dns
                != ipv6.secondary_dns ==> all.contains(
                Action::UpdateIpv6Dns(lease.primary_dns, lease.secondary_dns),
            )
            &&& k.error is Some ==> now == Card {
                ipv6: leased6(
                    ipv6,
                    lease,
                    ipv6.use_dhcp && all.last() is UpdateIpv6Dns,
                    false,
                ),
                ..card
            }
        }),
{
    let j = lease6_job(n, iface, lease);
    let (m, k) = run(n, j, outcomes);
    let all = asked(n, j, outcomes);
    let card = n.cards[iface];
    let ipv6 = card.ipv6;
    let now = m.cards[iface];
    let store = NetCardStore {
        link_up: card.enabled,
        ipv6: leased6(ipv6, lease, ipv6.use_dhcp, ipv6.auto_dns),
        ipv4: card.ipv4,
    };
    lemma_lease6_works(ipv6, lease, store);
    lemma_lease6_saves(card, lease, store);
    let p = lemma_straight_work(n, j, outcomes, store);
    lemma_lease6_marks(card, lease, p);
    lemma_lease6_pieces(ipv6, lease, store);
    let a = address_steps6(ipv6, lease);
    let d = dns_steps6(ipv6, lease);
    let done = j.steps.take(p);
    assert(takes_lease6(works(j.steps, store), ipv6, lease, store));
    if ipv6.use_dhcp && p >= a.len() {
        let rest = j.steps.subrange(a.len() as int, p);
        assert(done =~= a + rest);
        lemma_works_add(a, rest, store);
        lemma_begun(works(a, store), works(rest, store), all);
        let x = one(has_address6(lease), Action::SetIpv6Address(lease.ip, lease.prefix_len));
        let y = one(lease.gateway != Ipv6Addr::zero(), Action::SetIpv6Gateway(lease.gateway));
        lemma_begun(x, y, x + y);
        assert(y.len() > 0 ==> (x + y)[x.len() as int] == y[0]);
        assert(x.len() > 0 ==> all[0] == x[0]);
        assert(y.len() > 0 ==> all[x.len() as int] == y[0]);
    }
    if ipv6.auto_dns && p >= a.len() + d.len() {
        let rest = j.steps.subrange((a.len() + d.len()) as int, p);
        assert(done =~= a + d + rest);
        lemma_works_add(a, d, store);
        lemma_works_add(a + d, rest, store);
        lemma_begun(works(a + d, store), works(rest, store), all);
        let at = works(a, store).len() as int;
        assert(works(a + d, store)[at] == works(d, store)[0]);
        assert(all[at] == Action::UpdateIpv6Dns(lease.primary_dns, lease.secondary_dns));
    }
}

}
