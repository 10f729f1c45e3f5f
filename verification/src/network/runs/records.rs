//! What becomes of the record of a card in the jobs that set something.
use super::super::actor::{
    advanced, booked_card, completed, fits, has_address4, has_address6, ipv4_job, ipv4_plan,
    ipv6_job, ipv6_plan, lease4_job, lease4_plan, lease6_job, lease6_plan, link_job, opt, past_part,
    wanted, Action, JobState, NetState, Outcome, Step,
};
use super::plans::{
    all_of, lemma_ipv4_plan, lemma_ipv6_plan, lemma_lease4_plan, lemma_lease6_plan, lemma_past_part,
};
use super::{fitting, lemma_run_keeps, run, succeeded};
use crate::{Card, Ipv4Addr, Ipv4Info, Ipv6Addr, Ipv6Info};
use vstd::prelude::*;

verus! {

/// A step that does outside work or changes the record of the card, and nothing else.
pub open spec fn is_straight(step: Step) -> bool {
    match step {
        Step::Must(_) | Step::Try(_) | Step::Save => true,
        Step::PutEnabled(_) | Step::PutIpv4(_) | Step::PutIpv6(_) => true,
        Step::LeaseIpv4(_) | Step::LeaseDns4(_) | Step::LeaseIpv6(_) | Step::LeaseDns6(_) => true,
        _ => false,
    }
}

/// A card after the bookkeeping of all `steps`.
pub open spec fn booked_all(card: Card, steps: Seq<Step>) -> Card
    decreases steps.len(),
{
    if steps.len() == 0 {
        card
    } else {
        booked_card(booked_all(card, steps.drop_last()), steps.last())
    }
}

/// A run of the job `start` has come past its first `p` steps: the record has their
/// bookkeeping, and all else is as it was.
pub open spec fn progress(n: NetState, start: JobState, m: NetState, k: JobState, p: int) -> bool {
    &&& 0 <= p <= start.steps.len()
    &&& n.cards.contains_key(start.iface)
    &&& m == (NetState {
        cards: n.cards.insert(
            start.iface,
            booked_all(n.cards[start.iface], start.steps.take(p)),
        ),
        ..n
    })
    &&& k == (JobState { steps: k.steps, error: k.error, ..start })
    &&& k.error is None ==> k.steps == start.steps.skip(p)
    &&& k.error is Some ==> k.steps.len() == 0
}

proof fn lemma_take_next(card: Card, steps: Seq<Step>, p: int)
    requires
        0 <= p < steps.len(),
    ensures
        booked_all(card, steps.take(p + 1)) == booked_card(booked_all(card, steps.take(p)), steps[p]),
        steps.skip(p)[0] == steps[p],
        steps.skip(p).drop_first() == steps.skip(p + 1),
{
    assert(steps.take(p + 1).drop_last() =~= steps.take(p));
    assert(steps.skip(p).drop_first() =~= steps.skip(p + 1));
}

/// In a run of straight steps the record goes through the bookkeeping of the steps, one
/// after the other, and ends with all of it unless the job fails.
proof fn lemma_straight_run(n: NetState, j: JobState, outcomes: Seq<Outcome>) -> (p: int)
    requires
        n.cards.contains_key(j.iface),
        j.error is None,
        all_of(j.steps, |s: Step| is_straight(s)),
        fitting(n, j, outcomes),
    ensures
        progress(n, j, run(n, j, outcomes).0, run(n, j, outcomes).1, p),
{
    let inv = |m: NetState, k: JobState| exists|p: int| progress(n, j, m, k, p);
    assert forall|m: NetState, k: JobState|
        #![trigger advanced(m, k)]
        inv(m, k) && k.steps.len() > 0 && wanted(m, k) is None implies inv(
        advanced(m, k).0,
        advanced(m, k).1,
    ) by {
        let p = choose|p: int| progress(n, j, m, k, p);
        lemma_take_next(n.cards[j.iface], j.steps, p);
        assert(is_straight(j.steps[p]));
        assert(advanced(m, k).0.cards =~= n.cards.insert(
            j.iface,
            booked_all(n.cards[j.iface], j.steps.take(p + 1)),
        ));
        assert(progress(n, j, advanced(m, k).0, advanced(m, k).1, p + 1));
    }
    assert forall|m: NetState, k: JobState, o: Outcome|
        #![trigger completed(m, k, o)]
        inv(m, k) && wanted(m, k) is Some && fits(k.steps[0], o) implies inv(
        completed(m, k, o).0,
        completed(m, k, o).1,
    ) by {
        let p = choose|p: int| progress(n, j, m, k, p);
        lemma_take_next(n.cards[j.iface], j.steps, p);
        assert(is_straight(j.steps[p]));
        let i = lemma_past_part(k.steps);
        assert(past_part(k.steps) is None) by {
            if past_part(k.steps) is Some {
                assert(k.steps[i - 1] == j.steps[p + i - 1]);
                assert(is_straight(j.steps[p + i - 1]));
            }
        }
        let passed = o is Done || j.steps[p] is Try || j.steps[p] is Save;
        assert(progress(n, j, completed(m, k, o).0, completed(m, k, o).1, if passed {
            p + 1
        } else {
            p
        }));
    }
    assert(n.cards.insert(j.iface, n.cards[j.iface]) =~= n.cards);
    assert(j.steps.skip(0) =~= j.steps);
    assert(progress(n, j, n, j, 0));
    lemma_run_keeps(inv, n, j, outcomes);
    choose|p: int| progress(n, j, run(n, j, outcomes).0, run(n, j, outcomes).1, p)
}

/// A step after whose bookkeeping a card is as it was.
pub open spec fn is_work(step: Step) -> bool {
    step is Must || step is Try || step is Save
}

/// Where only `put` changes the record, it is as it was or has `put`.
pub(crate) proof fn lemma_one_change(card: Card, steps: Seq<Step>, put: Step)
    requires
        all_of(steps, |s: Step| is_work(s) || s == put),
        booked_card(booked_card(card, put), put) == booked_card(card, put),
    ensures
        booked_all(card, steps) == card || booked_all(card, steps) == booked_card(card, put),
        steps.contains(put) ==> booked_all(card, steps) == booked_card(card, put),
    decreases steps.len(),
{
    if steps.len() > 0 {
        let front = steps.drop_last();
        assert(all_of(front, |s: Step| is_work(s) || s == put));
        lemma_one_change(card, front, put);
        let last = steps.last();
        assert(steps[steps.len() - 1] == last);
        if steps.contains(put) && last != put {
            let i = choose|i: int| 0 <= i < steps.len() && steps[i] == put;
            assert(front[i] == put);
        }
    }
}

/// At every point of a run of a job in which only `put` changes the record, the record
/// of the card is as it was or has `put`; when the job has succeeded, it has `put`. All
/// other records and all clients are as they were.
proof fn lemma_put_run(n: NetState, j: JobState, put: Step, outcomes: Seq<Outcome>)
    requires
        n.cards.contains_key(j.iface),
        j.error is None,
        all_of(j.steps, |s: Step| is_work(s) || s == put),
        is_straight(put),
        j.steps.contains(put),
        booked_card(booked_card(n.cards[j.iface], put), put) == booked_card(n.cards[j.iface], put),
        fitting(n, j, outcomes),
    ensures
        ({
            let (m, k) = run(n, j, outcomes);
            let new = NetState {
                cards: n.cards.insert(j.iface, booked_card(n.cards[j.iface], put)),
                ..n
            };
            &&& m == n || m == new
            &&& succeeded(k) ==> m == new
        }),
{
    let card = n.cards[j.iface];
    assert(all_of(j.steps, |s: Step| is_straight(s))) by {
        assert forall|i: int| 0 <= i < j.steps.len() implies is_straight(#[trigger] j.steps[i]) by {
            assert(is_work(j.steps[i]) || j.steps[i] == put);
        }
    }
    let p = lemma_straight_run(n, j, outcomes);
    let (m, k) = run(n, j, outcomes);
    let done = j.steps.take(p);
    assert(all_of(done, |s: Step| is_work(s) || s == put)) by {
        assert forall|i: int| 0 <= i < done.len() implies is_work(#[trigger] done[i]) || done[i] == put by {
            assert(done[i] == j.steps[i]);
        }
    }
    lemma_one_change(card, done, put);
    assert(n.cards.insert(j.iface, card) =~= n.cards);
    if succeeded(k) {
        assert(done =~= j.steps);
    }
}

/// Switching a card changes its switch and no more of its record: its configurations
/// stay. When the job has succeeded the record has the new switch.
pub proof fn law_link_state(n: NetState, iface: Seq<char>, up: bool, outcomes: Seq<Outcome>)
    requires
        n.cards.contains_key(iface),
        fitting(n, link_job(n, iface, up), outcomes),
    ensures
        ({
            let (m, k) = run(n, link_job(n, iface, up), outcomes);
            let new = NetState {
                cards: n.cards.insert(iface, Card { enabled: up, ..n.cards[iface] }),
                ..n
            };
            &&& m == n || m == new
            &&& succeeded(k) ==> m == new
        }),
{
    let put = Step::PutEnabled(up);
    let j = link_job(n, iface, up);
    assert(j.steps[1] == put);
    lemma_put_run(n, j, put, outcomes);
}

/// Giving a card an IPv4 configuration changes that and no more of its record. When the
/// job has succeeded the record has the new configuration.
pub proof fn law_set_ipv4(n: NetState, iface: Seq<char>, info: Ipv4Info, outcomes: Seq<Outcome>)
    requires
        n.cards.contains_key(iface),
        fitting(n, ipv4_job(n, iface, info), outcomes),
    ensures
        ({
            let (m, k) = run(n, ipv4_job(n, iface, info), outcomes);
            let new = NetState {
                cards: n.cards.insert(iface, Card { ipv4: info, ..n.cards[iface] }),
                ..n
            };
            &&& m == n || m == new
            &&& succeeded(k) ==> m == new
        }),
{
    let put = Step::PutIpv4(info);
    let j = ipv4_job(n, iface, info);
    lemma_ipv4_plan(
        n.dhcp4.contains(iface),
        n.cards[iface].ipv4,
        info,
        |s: Step| is_work(s) || s == put,
    );
    lemma_ipv4_puts(n.dhcp4.contains(iface), n.cards[iface].ipv4, info);
    lemma_put_run(n, j, put, outcomes);
}

proof fn lemma_ipv4_puts(client: bool, old: Ipv4Info, new: Ipv4Info)
    ensures
        ipv4_plan(client, old, new).contains(Step::PutIpv4(new)),
{
    let front = opt(client, Step::Must(Action::StopDhcp4)) + opt(
        has_address4(old),
        Step::Try(Action::DelIpv4Address(old.ip, old.netmask)),
    ) + opt(
        old.gateway != Ipv4Addr::zero(),
        Step::Try(Action::DelIpv4Gateway(old.gateway)),
    );
    assert(ipv4_plan(client, old, new)[front.len() as int] == Step::PutIpv4(new));
}

/// Giving a card an IPv6 configuration changes that and no more of its record. When the
/// job has succeeded the record has the new configuration.
pub proof fn law_set_ipv6(n: NetState, iface: Seq<char>, info: Ipv6Info, outcomes: Seq<Outcome>)
    requires
        n.cards.contains_key(iface),
        fitting(n, ipv6_job(n, iface, info), outcomes),
    ensures
        ({
            let (m, k) = run(n, ipv6_job(n, iface, info), outcomes);
            let new = NetState {
                cards: n.cards.insert(iface, Card { ipv6: info, ..n.cards[iface] }),
                ..n
            };
            &&& m == n || m == new
            &&& succeeded(k) ==> m == new
        }),
{
    let put = Step::PutIpv6(info);
    let j = ipv6_job(n, iface, info);
    lemma_ipv6_plan(
        n.dhcp6.contains(iface),
        n.cards[iface].ipv6,
        info,
        |s: Step| is_work(s) || s == put,
    );
    lemma_ipv6_puts(n.dhcp6.contains(iface), n.cards[iface].ipv6, info);
    lemma_put_run(n, j, put, outcomes);
}

proof fn lemma_ipv6_puts(client: bool, old: Ipv6Info, new: Ipv6Info)
    ensures
        ipv6_plan(client, old, new).contains(Step::PutIpv6(new)),
{
    let front = opt(client, Step::Must(Action::StopDhcp6)) + opt(
        has_address6(old),
        Step::Try(Action::DelIpv6Address(old.ip, old.prefix_len)),
    ) + opt(
        old.gateway != Ipv6Addr::zero(),
        Step::Try(Action::DelIpv6Gateway(old.gateway)),
    );
    assert(ipv6_plan(client, old, new)[front.len() as int] == Step::PutIpv6(new));
}

/// An IPv4 configuration with the address and with the DNS servers of a lease, or with
/// one of the two, or with neither.
pub open spec fn leased4(ipv4: Ipv4Info, lease: Ipv4Info, address: bool, dns: bool) -> Ipv4Info {
    let a = if address {
        Ipv4Info { ip: lease.ip, netmask: lease.netmask, gateway: lease.gateway, ..ipv4 }
    } else {
        ipv4
    };
    if dns {
        Ipv4Info { primary_dns: lease.primary_dns, secondary_dns: lease.secondary_dns, ..a }
    } else {
        a
    }
}

/// The same for IPv6.
pub open spec fn leased6(ipv6: Ipv6Info, lease: Ipv6Info, address: bool, dns: bool) -> Ipv6Info {
    let a = if address {
        Ipv6Info { ip: lease.ip, prefix_len: lease.prefix_len, gateway: lease.gateway, ..ipv6 }
    } else {
        ipv6
    };
    if dns {
        Ipv6Info { primary_dns: lease.primary_dns, secondary_dns: lease.secondary_dns, ..a }
    } else {
        a
    }
}

pub(crate) proof fn lemma_lease4_booked(card: Card, lease: Ipv4Info, steps: Seq<Step>)
    requires
        all_of(
            steps,
            |s: Step| is_work(s) || s == Step::LeaseIpv4(lease) || s == Step::LeaseDns4(lease),
        ),
    ensures
        booked_all(card, steps) == (Card {
            ipv4: leased4(
                card.ipv4,
                lease,
                steps.contains(Step::LeaseIpv4(lease)),
                steps.contains(Step::LeaseDns4(lease)),
            ),
            ..card
        }),
    decreases steps.len(),
{
    if steps.len() > 0 {
        let front = steps.drop_last();
        let last = steps.last();
        assert(steps =~= front.push(last));
        assert(all_of(
            front,
            |s: Step| is_work(s) || s == Step::LeaseIpv4(lease) || s == Step::LeaseDns4(lease),
        ));
        lemma_lease4_booked(card, lease, front);
        assert(steps[steps.len() - 1] == last);
        lemma_contains_push(front, last, Step::LeaseIpv4(lease));
        lemma_contains_push(front, last, Step::LeaseDns4(lease));
    }
}

pub(crate) proof fn lemma_lease6_booked(card: Card, lease: Ipv6Info, steps: Seq<Step>)
    requires
        all_of(
            steps,
            |s: Step| is_work(s) || s == Step::LeaseIpv6(lease) || s == Step::LeaseDns6(lease),
        ),
    ensures
        booked_all(card, steps) == (Card {
            ipv6: leased6(
                card.ipv6,
                lease,
                steps.contains(Step::LeaseIpv6(lease)),
                steps.contains(Step::LeaseDns6(lease)),
            ),
            ..card
        }),
    decreases steps.len(),
{
    if steps.len() > 0 {
        let front = steps.drop_last();
        let last = steps.last();
        assert(steps =~= front.push(last));
        assert(all_of(
            front,
            |s: Step| is_work(s) || s == Step::LeaseIpv6(lease) || s == Step::LeaseDns6(lease),
        ));
        lemma_lease6_booked(card, lease, front);
        assert(steps[steps.len() - 1] == last);
        lemma_contains_push(front, last, Step::LeaseIpv6(lease));
        lemma_contains_push(front, last, Step::LeaseDns6(lease));
    }
}

proof fn lemma_contains_push(front: Seq<Step>, last: Step, s: Step)
    ensures
        front.push(last).contains(s) == (front.contains(s) || last == s),
{
    let all = front.push(last);
    if front.contains(s) {
        let i = choose|i: int| 0 <= i < front.len() && front[i] == s;
        assert(all[i] == s);
    }
    if last == s {
        assert(all[front.len() as int] == s);
    }
    if all.contains(s) && last != s {
        let i = choose|i: int| 0 <= i < all.len() && all[i] == s;
        assert(front[i] == s);
    }
}

/// A DHCPv4 lease changes of a record only the address, and only where addresses come
/// from DHCP, and the DNS servers, and only where those do; never the switches. When
/// the job has succeeded the record has both, as far as they come from DHCP.
pub proof fn law_lease4(n: NetState, iface: Seq<char>, lease: Ipv4Info, outcomes: Seq<Outcome>)
    requires
        n.cards.contains_key(iface),
        fitting(n, lease4_job(n, iface, lease), outcomes),
    ensures
        ({
            let (m, k) = run(n, lease4_job(n, iface, lease), outcomes);
            let card = n.cards[iface];
            exists|address: bool, dns: bool|
                {
                    &&& m == NetState {
                        cards: n.cards.insert(
                            iface,
                            Card { ipv4: #[trigger] leased4(card.ipv4, lease, address, dns), ..card },
                        ),
                        ..n
                    }
                    &&& address ==> card.ipv4.use_dhcp
                    &&& dns ==> card.ipv4.auto_dns
                    &&& succeeded(k) ==> address == card.ipv4.use_dhcp && dns == card.ipv4.auto_dns
                }
        }),
{
    let j = lease4_job(n, iface, lease);
    let card = n.cards[iface];
    let a = Step::LeaseIpv4(lease);
    let b = Step::LeaseDns4(lease);
    let kind = |s: Step| is_work(s) || s == a || s == b;
    lemma_lease4_plan(card.ipv4, lease, kind);
    lemma_lease4_plan(card.ipv4, lease, |s: Step| is_straight(s));
    lemma_lease4_plan(card.ipv4, lease, |s: Step| s == a ==> card.ipv4.use_dhcp);
    lemma_lease4_plan(card.ipv4, lease, |s: Step| s == b ==> card.ipv4.auto_dns);
    let p = lemma_straight_run(n, j, outcomes);
    let (m, k) = run(n, j, outcomes);
    let done = j.steps.take(p);
    assert(all_of(done, kind)) by {
        assert forall|i: int| 0 <= i < done.len() implies kind(#[trigger] done[i]) by {
            assert(done[i] == j.steps[i]);
        }
    }
    lemma_lease4_booked(card, lease, done);
    assert forall|s: Step| #[trigger] done.contains(s) implies j.steps.contains(s) by {
        let i = choose|i: int| 0 <= i < done.len() && done[i] == s;
        assert(j.steps[i] == s);
    }
    if succeeded(k) {
        assert(done =~= j.steps);
        lemma_lease4_holds(card.ipv4, lease);
    }
    let witness = leased4(card.ipv4, lease, done.contains(a), done.contains(b));
    assert(booked_all(card, done).ipv4 == witness);
}

proof fn lemma_lease4_holds(ipv4: Ipv4Info, lease: Ipv4Info)
    ensures
        ipv4.use_dhcp ==> lease4_plan(ipv4, lease).contains(Step::LeaseIpv4(lease)),
        ipv4.auto_dns ==> lease4_plan(ipv4, lease).contains(Step::LeaseDns4(lease)),
{
    let plan = lease4_plan(ipv4, lease);
    let work = opt(
        lease.ip != Ipv4Addr::zero(),
        Step::Must(Action::SetIpv4Address(lease.ip, lease.netmask)),
    ) + opt(
        lease.gateway != Ipv4Addr::zero(),
        Step::Must(Action::SetIpv4Gateway(lease.gateway)),
    );
    if ipv4.use_dhcp {
        assert(plan[work.len() as int] == Step::LeaseIpv4(lease));
    }
    if ipv4.auto_dns {
        assert(plan[plan.len() - 2] == Step::LeaseDns4(lease));
    }
}

/// The same of a DHCPv6 lease.
pub proof fn law_lease6(n: NetState, iface: Seq<char>, lease: Ipv6Info, outcomes: Seq<Outcome>)
    requires
        n.cards.contains_key(iface),
        fitting(n, lease6_job(n, iface, lease), outcomes),
    ensures
        ({
            let (m, k) = run(n, lease6_job(n, iface, lease), outcomes);
            let card = n.cards[iface];
            exists|address: bool, dns: bool|
                {
                    &&& m == NetState {
                        cards: n.cards.insert(
                            iface,
                            Card { ipv6: #[trigger] leased6(card.ipv6, lease, address, dns), ..card },
                        ),
                        ..n
                    }
                    &&& address ==> card.ipv6.use_dhcp
                    &&& dns ==> card.ipv6.auto_dns
                    &&& succeeded(k) ==> address == card.ipv6.use_dhcp && dns == card.ipv6.auto_dns
                }
        }),
{
    let j = lease6_job(n, iface, lease);
    let card = n.cards[iface];
    let a = Step::LeaseIpv6(lease);
    let b = Step::LeaseDns6(lease);
    let kind = |s: Step| is_work(s) || s == a || s == b;
    lemma_lease6_plan(card.ipv6, lease, kind);
    lemma_lease6_plan(card.ipv6, lease, |s: Step| is_straight(s));
    lemma_lease6_plan(card.ipv6, lease, |s: Step| s == a ==> card.ipv6.use_dhcp);
    lemma_lease6_plan(card.ipv6, lease, |s: Step| s == b ==> card.ipv6.auto_dns);
    let p = lemma_straight_run(n, j, outcomes);
    let (m, k) = run(n, j, outcomes);
    let done = j.steps.take(p);
    assert(all_of(done, kind)) by {
        assert forall|i: int| 0 <= i < done.len() implies kind(#[trigger] done[i]) by {
            assert(done[i] == j.steps[i]);
        }
    }
    lemma_lease6_booked(card, lease, done);
    assert forall|s: Step| #[trigger] done.contains(s) implies j.steps.contains(s) by {
        let i = choose|i: int| 0 <= i < done.len() && done[i] == s;
        assert(j.steps[i] == s);
    }
    if succeeded(k) {
        assert(done =~= j.steps);
        lemma_lease6_holds(card.ipv6, lease);
    }
    let witness = leased6(card.ipv6, lease, done.contains(a), done.contains(b));
    assert(booked_all(card, done).ipv6 == witness);
}

proof fn lemma_lease6_holds(ipv6: Ipv6Info, lease: Ipv6Info)
    ensures
        ipv6.use_dhcp ==> lease6_plan(ipv6, lease).contains(Step::LeaseIpv6(lease)),
        ipv6.auto_dns ==> lease6_plan(ipv6, lease).contains(Step::LeaseDns6(lease)),
{
    let plan = lease6_plan(ipv6, lease);
    let work = opt(
        has_address6(lease),
        Step::Must(Action::SetIpv6Address(lease.ip, lease.prefix_len)),
    ) + opt(
        lease.gateway != Ipv6Addr::zero(),
        Step::Must(Action::SetIpv6Gateway(lease.gateway)),
    );
    if ipv6.use_dhcp {
        assert(plan[work.len() as int] == Step::LeaseIpv6(lease));
    }
    if ipv6.auto_dns {
        assert(plan[plan.len() - 2] == Step::LeaseDns6(lease));
    }
}

}
