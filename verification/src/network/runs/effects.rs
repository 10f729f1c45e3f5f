//! What is done to a card when it is given a configuration: which outside work is asked
//! for, which is not, and in which order.
use super::super::actor::{
    booked_card, has_address4, has_address6, ipv4_job, ipv4_plan, ipv6_job, ipv6_plan, opt,
    store_of, Action, NetState, Outcome, Step,
};
use super::super::persist::NetCardStore;
use super::plans::{all_of, lemma_all_of_add, lemma_all_of_opt, lemma_ipv4_plan, lemma_ipv6_plan};
use super::records::{booked_all, is_work, lemma_one_change};
use super::requests::asked;
use super::work::{
    begins, ends_at_failure, is_tidy, lemma_saves_as_last, lemma_saves_as_none, lemma_straight_work,
    lemma_works_add, lemma_works_one, lemma_works_opt, saves_as, work, works,
};
use super::{fitting, run, succeeded};
use crate::{Card, Ipv4Addr, Ipv4Info, Ipv6Addr, Ipv6Info};
use vstd::prelude::*;

verus! {

// ---------------------------------------------------------------------------
// Lists of work
// ---------------------------------------------------------------------------

/// The place of a piece of work among the work for one configuration: first the client
/// stops and what was goes, then comes what is new, and at the end the client starts or
/// the file is written.
pub open spec fn place(a: Action) -> int {
    match a {
        Action::StopDhcp4 | Action::StopDhcp6 => 1,
        Action::DelIpv4Address(_, _) | Action::DelIpv6Address(_, _) => 2,
        Action::DelIpv4Gateway(_) | Action::DelIpv6Gateway(_) => 3,
        Action::SetIpv4Address(_, _) | Action::SetIpv6Address(_, _) => 4,
        Action::SetIpv4Gateway(_) | Action::SetIpv6Gateway(_) => 5,
        Action::UpdateIpv4Dns(_, _) | Action::UpdateIpv6Dns(_, _) => 6,
        Action::StartDhcp4 | Action::StartDhcp6 => 7,
        Action::SaveConfig(_) => 8,
        _ => 0,
    }
}

/// Whether each piece of work stands behind those that it has to follow, and none is
/// asked for twice.
pub open spec fn in_places(all: Seq<Action>) -> bool {
    forall|i: int, j: int|
        0 <= i < j < all.len() ==> place(#[trigger] all[i]) < place(#[trigger] all[j])
}

spec fn in_places_to(all: Seq<Action>, high: int) -> bool {
    in_places(all) && forall|i: int| 0 <= i < all.len() ==> place(#[trigger] all[i]) <= high
}

pub(crate) open spec fn one(b: bool, a: Action) -> Seq<Action> {
    if b {
        seq![a]
    } else {
        seq![]
    }
}

proof fn lemma_one_more(front: Seq<Action>, high: int, b: bool, a: Action)
    requires
        in_places_to(front, high),
        high < place(a),
    ensures
        in_places_to(front + one(b, a), place(a)),
{
}

broadcast proof fn lemma_contains_add(a: Seq<Action>, b: Seq<Action>, x: Action)
    ensures
        #[trigger] (a + b).contains(x) == (a.contains(x) || b.contains(x)),
{
    if a.contains(x) {
        let i = choose|i: int| 0 <= i < a.len() && a[i] == x;
        assert((a + b)[i] == x);
    }
    if b.contains(x) {
        let i = choose|i: int| 0 <= i < b.len() && b[i] == x;
        assert((a + b)[a.len() + i] == x);
    }
    if (a + b).contains(x) {
        let i = choose|i: int| 0 <= i < (a + b).len() && (a + b)[i] == x;
        if i >= a.len() {
            assert(b[i - a.len()] == x);
        }
    }
}

broadcast proof fn lemma_contains_one(b: bool, a: Action, x: Action)
    ensures
        #[trigger] one(b, a).contains(x) == (b && a == x),
{
    if b {
        assert(one(b, a)[0] == a);
    }
}

/// Those of eight pieces of work that are to be done, in order.
#[verifier::opaque]
pub(crate) open spec fn chosen(
    b1: bool,
    a1: Action,
    b2: bool,
    a2: Action,
    b3: bool,
    a3: Action,
    b4: bool,
    a4: Action,
    b5: bool,
    a5: Action,
    b6: bool,
    a6: Action,
    b7: bool,
    a7: Action,
    b8: bool,
    a8: Action,
) -> Seq<Action> {
    one(b1, a1) + one(b2, a2) + one(b3, a3) + one(b4, a4) + one(b5, a5) + one(b6, a6) + one(b7, a7)
        + one(b8, a8)
}

#[verifier::rlimit(40)]
pub(crate) proof fn lemma_chosen(
    b1: bool,
    a1: Action,
    b2: bool,
    a2: Action,
    b3: bool,
    a3: Action,
    b4: bool,
    a4: Action,
    b5: bool,
    a5: Action,
    b6: bool,
    a6: Action,
    b7: bool,
    a7: Action,
    b8: bool,
    a8: Action,
)
    requires
        0 < place(a1) < place(a2) < place(a3) < place(a4),
        place(a4) < place(a5) < place(a6) < place(a7) < place(a8),
    ensures
        in_places(chosen(b1, a1, b2, a2, b3, a3, b4, a4, b5, a5, b6, a6, b7, a7, b8, a8)),
        forall|x: Action|
            #[trigger]
            chosen(b1, a1, b2, a2, b3, a3, b4, a4, b5, a5, b6, a6, b7, a7, b8, a8).contains(x)
                == ({
                ||| b1 && x == a1
                ||| b2 && x == a2
                ||| b3 && x == a3
                ||| b4 && x == a4
                ||| b5 && x == a5
                ||| b6 && x == a6
                ||| b7 && x == a7
                ||| b8 && x == a8
            }),
{
    broadcast use {lemma_contains_add, lemma_contains_one};

    reveal(chosen);
    let q1 = one(b1, a1);
    let q2 = q1 + one(b2, a2);
    lemma_one_more(q1, place(a1), b2, a2);
    let q3 = q2 + one(b3, a3);
    lemma_one_more(q2, place(a2), b3, a3);
    let q4 = q3 + one(b4, a4);
    lemma_one_more(q3, place(a3), b4, a4);
    let q5 = q4 + one(b5, a5);
    lemma_one_more(q4, place(a4), b5, a5);
    let q6 = q5 + one(b6, a6);
    lemma_one_more(q5, place(a5), b6, a6);
    let q7 = q6 + one(b7, a7);
    lemma_one_more(q6, place(a6), b7, a7);
    lemma_one_more(q7, place(a7), b8, a8);
}

pub(crate) proof fn lemma_in_order(
    x1: Seq<Action>,
    x2: Seq<Action>,
    x3: Seq<Action>,
    x4: Seq<Action>,
    x5: Seq<Action>,
    x6: Seq<Action>,
    x7: Seq<Action>,
    x8: Seq<Action>,
)
    ensures
        x1 + x2 + x3 + x4 + x5 + x6 + x7 + x8 == (x1 + x2 + x3) + (x4 + x5 + x6) + (x7 + x8),
{
    assert(x1 + x2 + x3 + x4 + x5 + x6 + x7 + x8 =~= (x1 + x2 + x3) + (x4 + x5 + x6) + (x7 + x8));
}

proof fn lemma_three(
    b1: bool,
    s1: Step,
    b2: bool,
    s2: Step,
    b3: bool,
    s3: Step,
    store: NetCardStore,
)
    ensures
        works(opt(b1, s1) + opt(b2, s2) + opt(b3, s3), store) == (if b1 {
            work(s1, store)
        } else {
            seq![]
        }) + (if b2 {
            work(s2, store)
        } else {
            seq![]
        }) + (if b3 {
            work(s3, store)
        } else {
            seq![]
        }),
{
    broadcast use {lemma_works_add, lemma_works_opt};

}

/// The work of a setting, from that of its pieces.
proof fn lemma_setting_work(
    front: Seq<Step>,
    put: Step,
    enabled: bool,
    back: Seq<Step>,
    dhcp: bool,
    start: Seq<Step>,
    store: NetCardStore,
)
    requires
        work(put, store) == Seq::<Action>::empty(),
        dhcp ==> enabled,
    ensures
        works(
            front + seq![put] + if !enabled {
                seq![Step::Save]
            } else {
                back + if dhcp {
                    start
                } else {
                    seq![Step::Save]
                }
            },
            store,
        ) == works(front, store) + (if enabled {
            works(back, store)
        } else {
            seq![]
        }) + ((if dhcp {
            works(start, store)
        } else {
            seq![]
        }) + one(!dhcp, Action::SaveConfig(store))),
{
    broadcast use lemma_works_add;

    lemma_works_one(put, store);
    lemma_works_one(Step::Save, store);
    let f = works(front, store);
    assert(f + Seq::<Action>::empty() =~= f);
    if dhcp {
        let b = works(back, store);
        let s = works(start, store);
        assert(s + one(!dhcp, Action::SaveConfig(store)) =~= s);
        assert(f + (b + s) =~= f + b + s);
    } else {
        let e = Seq::<Action>::empty();
        let s = seq![Action::SaveConfig(store)];
        assert(e + one(!dhcp, Action::SaveConfig(store)) =~= s);
        if enabled {
            let b = works(back, store);
            assert(f + (b + s) =~= f + b + s);
        } else {
            assert(f + s =~= f + e + s);
        }
    }
}

/// What a setting writes, from its pieces: the record with `put`.
proof fn lemma_setting_saves(
    card: Card,
    front: Seq<Step>,
    put: Step,
    enabled: bool,
    back: Seq<Step>,
    dhcp: bool,
    start: Seq<Step>,
    store: NetCardStore,
)
    requires
        !is_work(put),
        booked_card(booked_card(card, put), put) == booked_card(card, put),
        store_of(booked_card(card, put)) == store,
        all_of(front, |s: Step| is_work(s) && !(s is Save)),
        all_of(back, |s: Step| is_work(s) && !(s is Save)),
        all_of(start, |s: Step| is_work(s) && !(s is Save)),
    ensures
        saves_as(
            card,
            front + seq![put] + if !enabled {
                seq![Step::Save]
            } else {
                back + if dhcp {
                    start
                } else {
                    seq![Step::Save]
                }
            },
            store,
        ),
{
    let quiet = |s: Step| !(s is Save);
    let p = |s: Step| is_work(s) || s == put;
    let first = front + seq![put];
    assert forall|i: int| 0 <= i < first.len() implies quiet(#[trigger] first[i]) && p(first[i]) by {
        if i < front.len() {
            assert(first[i] == front[i]);
        }
    }
    assert(first[front.len() as int] == put);
    if !enabled {
        lemma_one_change(card, first, put);
        lemma_saves_as_last(card, first, Step::Save, store);
        assert(first + seq![Step::Save] =~= first.push(Step::Save));
    } else if dhcp {
        let all = first + (back + start);
        assert forall|i: int| 0 <= i < all.len() implies quiet(#[trigger] all[i]) by {
            if i < first.len() {
                assert(all[i] == first[i]);
            } else if i < first.len() + back.len() {
                assert(all[i] == back[i - first.len()]);
            } else {
                assert(all[i] == start[i - first.len() - back.len()]);
            }
        }
        lemma_saves_as_none(card, all, store);
    } else {
        let all = first + back;
        assert forall|i: int| 0 <= i < all.len() implies quiet(#[trigger] all[i]) && p(all[i]) by {
            if i < first.len() {
                assert(all[i] == first[i]);
            } else {
                assert(all[i] == back[i - first.len()]);
            }
        }
        assert(all[front.len() as int] == put);
        lemma_one_change(card, all, put);
        lemma_saves_as_last(card, all, Step::Save, store);
        assert(first + (back + seq![Step::Save]) =~= all.push(Step::Save));
    }
}

/// Where only `put` changes the record, and only `stop` can fail before it.
proof fn lemma_failure_in(
    card: Card,
    front: Seq<Step>,
    put: Step,
    back: Seq<Step>,
    stop: Step,
    p: int,
)
    requires
        !is_work(put),
        booked_card(booked_card(card, put), put) == booked_card(card, put),
        all_of(front, |s: Step| is_work(s) && (s is Must ==> s == stop)),
        all_of(back, |s: Step| is_work(s) && s != stop),
        0 <= p < front.len() + 1 + back.len(),
        (front + seq![put] + back)[p] is Must,
    ensures
        booked_all(card, (front + seq![put] + back).take(p)) == if (front + seq![put] + back)[p]
            == stop {
            card
        } else {
            booked_card(card, put)
        },
{
    let plan = front + seq![put] + back;
    let at = front.len() as int;
    let done = plan.take(p);
    assert(plan[at] == put);
    if p < at {
        assert(plan[p] == front[p]);
        assert forall|i: int| 0 <= i < done.len() implies is_work(#[trigger] done[i]) || done[i]
            == Step::Save by {
            assert(done[i] == front[i]);
        }
        lemma_one_change(card, done, Step::Save);
    } else {
        assert(plan[p] == back[p - at - 1]);
        assert forall|i: int| 0 <= i < done.len() implies is_work(#[trigger] done[i]) || done[i]
            == put by {
            if i < at {
                assert(done[i] == front[i]);
            } else if i > at {
                assert(done[i] == back[i - at - 1]);
            }
        }
        assert(done[at] == put);
        lemma_one_change(card, done, put);
    }
}

// ---------------------------------------------------------------------------
// Giving a card an IPv4 configuration
// ---------------------------------------------------------------------------

/// `all` is the work of giving a card the IPv4 configuration `new` in the place of
/// `old`. A client stops. An address and a gateway that there were are taken away. Of a
/// configuration that is enabled, address, gateway and DNS servers are set unless they
/// come from DHCP, and if any of them does the client starts again. What needs no DHCP
/// is written to disk as `store`. There is nothing else in `all`.
pub open spec fn sets_ipv4(
    all: Seq<Action>,
    client: bool,
    old: Ipv4Info,
    new: Ipv4Info,
    store: NetCardStore,
) -> bool {
    let none = Ipv4Addr::zero();
    let dhcp = new.enabled && (new.use_dhcp || new.auto_dns);
    &&& in_places(all)
    &&& all.contains(Action::StopDhcp4) <==> client
    &&& all.contains(Action::DelIpv4Address(old.ip, old.netmask)) <==> old.ip != none && old.netmask
        != none
    &&& all.contains(Action::DelIpv4Gateway(old.gateway)) <==> old.gateway != none
    &&& all.contains(Action::SetIpv4Address(new.ip, new.netmask)) <==> new.enabled && !new.use_dhcp
        && new.ip != none && new.netmask != none
    &&& all.contains(Action::SetIpv4Gateway(new.gateway)) <==> new.enabled && !new.use_dhcp
        && new.gateway != none
    &&& all.contains(Action::UpdateIpv4Dns(new.primary_dns, new.secondary_dns)) <==> new.enabled
        && !new.auto_dns
    &&& all.contains(Action::StartDhcp4) <==> client && dhcp
    &&& all.contains(Action::SaveConfig(store)) <==> !dhcp
    &&& forall|a: Action| #[trigger]
        all.contains(a) ==> match a {
            Action::StopDhcp4 | Action::StartDhcp4 => true,
            Action::DelIpv4Address(ip, mask) => ip == old.ip && mask == old.netmask,
            Action::DelIpv4Gateway(gateway) => gateway == old.gateway,
            Action::SetIpv4Address(ip, mask) => ip == new.ip && mask == new.netmask,
            Action::SetIpv4Gateway(gateway) => gateway == new.gateway,
            Action::UpdateIpv4Dns(first, second) => first == new.primary_dns && second
                == new.secondary_dns,
            Action::SaveConfig(written) => written == store,
            _ => false,
        }
}

spec fn ipv4_work(
    client: bool,
    old: Ipv4Info,
    new: Ipv4Info,
    store: NetCardStore,
) -> Seq<Action> {
    let none = Ipv4Addr::zero();
    let dhcp = new.enabled && (new.use_dhcp || new.auto_dns);
    chosen(
        client,
        Action::StopDhcp4,
        has_address4(old),
        Action::DelIpv4Address(old.ip, old.netmask),
        old.gateway != none,
        Action::DelIpv4Gateway(old.gateway),
        new.enabled && !new.use_dhcp && has_address4(new),
        Action::SetIpv4Address(new.ip, new.netmask),
        new.enabled && !new.use_dhcp && new.gateway != none,
        Action::SetIpv4Gateway(new.gateway),
        new.enabled && !new.auto_dns,
        Action::UpdateIpv4Dns(new.primary_dns, new.secondary_dns),
        client && dhcp,
        Action::StartDhcp4,
        !dhcp,
        Action::SaveConfig(store),
    )
}

#[verifier::rlimit(40)]
proof fn lemma_ipv4_work(client: bool, old: Ipv4Info, new: Ipv4Info, store: NetCardStore)
    ensures
        sets_ipv4(ipv4_work(client, old, new, store), client, old, new, store),
{
    let none = Ipv4Addr::zero();
    let dhcp = new.enabled && (new.use_dhcp || new.auto_dns);
    lemma_chosen(
        client,
        Action::StopDhcp4,
        has_address4(old),
        Action::DelIpv4Address(old.ip, old.netmask),
        old.gateway != none,
        Action::DelIpv4Gateway(old.gateway),
        new.enabled && !new.use_dhcp && has_address4(new),
        Action::SetIpv4Address(new.ip, new.netmask),
        new.enabled && !new.use_dhcp && new.gateway != none,
        Action::SetIpv4Gateway(new.gateway),
        new.enabled && !new.auto_dns,
        Action::UpdateIpv4Dns(new.primary_dns, new.secondary_dns),
        client && dhcp,
        Action::StartDhcp4,
        !dhcp,
        Action::SaveConfig(store),
    );
}

pub(crate) proof fn lemma_ipv4_works(
    client: bool,
    old: Ipv4Info,
    new: Ipv4Info,
    store: NetCardStore,
)
    ensures
        sets_ipv4(works(ipv4_plan(client, old, new), store), client, old, new, store),
        all_of(ipv4_plan(client, old, new), |s: Step| is_tidy(s)),
{
    lemma_ipv4_plan(client, old, new, |s: Step| is_tidy(s));
    lemma_ipv4_work(client, old, new, store);
    lemma_ipv4_plan_work(client, old, new, store);
}

#[verifier::rlimit(40)]
proof fn lemma_ipv4_plan_work(client: bool, old: Ipv4Info, new: Ipv4Info, store: NetCardStore)
    ensures
        works(ipv4_plan(client, old, new), store) == ipv4_work(client, old, new, store),
{
    let none = Ipv4Addr::zero();
    let dhcp = new.enabled && (new.use_dhcp || new.auto_dns);
    let stop = Action::StopDhcp4;
    let del = Action::DelIpv4Address(old.ip, old.netmask);
    let del_gateway = Action::DelIpv4Gateway(old.gateway);
    let set = Action::SetIpv4Address(new.ip, new.netmask);
    let set_gateway = Action::SetIpv4Gateway(new.gateway);
    let dns = Action::UpdateIpv4Dns(new.primary_dns, new.secondary_dns);
    let start = Action::StartDhcp4;
    let front = opt(client, Step::Must(stop)) + opt(has_address4(old), Step::Try(del)) + opt(
        old.gateway != none,
        Step::Try(del_gateway),
    );
    let back = opt(!new.use_dhcp && has_address4(new), Step::Must(set)) + opt(
        !new.use_dhcp && new.gateway != none,
        Step::Must(set_gateway),
    ) + opt(!new.auto_dns, Step::Must(dns));
    lemma_three(
        client,
        Step::Must(stop),
        has_address4(old),
        Step::Try(del),
        old.gateway != none,
        Step::Try(del_gateway),
        store,
    );
    lemma_three(
        !new.use_dhcp && has_address4(new),
        Step::Must(set),
        !new.use_dhcp && new.gateway != none,
        Step::Must(set_gateway),
        !new.auto_dns,
        Step::Must(dns),
        store,
    );
    lemma_setting_work(
        front,
        Step::PutIpv4(new),
        new.enabled,
        back,
        dhcp,
        opt(client, Step::Must(start)),
        store,
    );
    lemma_works_opt(client, Step::Must(start), store);
    reveal(chosen);
    lemma_in_order(
        one(client, stop),
        one(has_address4(old), del),
        one(old.gateway != none, del_gateway),
        one(new.enabled && !new.use_dhcp && has_address4(new), set),
        one(new.enabled && !new.use_dhcp && new.gateway != none, set_gateway),
        one(new.enabled && !new.auto_dns, dns),
        one(client && dhcp, start),
        one(!dhcp, Action::SaveConfig(store)),
    );
}

#[verifier::rlimit(40)]
proof fn lemma_ipv4_saves(card: Card, client: bool, old: Ipv4Info, new: Ipv4Info)
    ensures
        saves_as(
            card,
            ipv4_plan(client, old, new),
            NetCardStore { link_up: card.enabled, ipv4: new, ipv6: card.ipv6 },
        ),
{
    broadcast use {lemma_all_of_add, lemma_all_of_opt};

    let store = NetCardStore { link_up: card.enabled, ipv4: new, ipv6: card.ipv6 };
    let put = Step::PutIpv4(new);
    let front = opt(client, Step::Must(Action::StopDhcp4)) + opt(
        has_address4(old),
        Step::Try(Action::DelIpv4Address(old.ip, old.netmask)),
    ) + opt(
        old.gateway != Ipv4Addr::zero(),
        Step::Try(Action::DelIpv4Gateway(old.gateway)),
    );
    let back = opt(
        !new.use_dhcp && has_address4(new),
        Step::Must(Action::SetIpv4Address(new.ip, new.netmask)),
    ) + opt(
        !new.use_dhcp && new.gateway != Ipv4Addr::zero(),
        Step::Must(Action::SetIpv4Gateway(new.gateway)),
    ) + opt(
        !new.auto_dns,
        Step::Must(Action::UpdateIpv4Dns(new.primary_dns, new.secondary_dns)),
    );
    let start = opt(client, Step::Must(Action::StartDhcp4));
    let p = |s: Step| is_work(s) && !(s is Save);
    assert(all_of(front, p));
    assert(all_of(back, p));
    assert(all_of(start, p));
    lemma_setting_saves(
        card,
        front,
        put,
        new.enabled,
        back,
        new.use_dhcp || new.auto_dns,
        start,
        store,
    );
}

/// What fails in an IPv4 plan, and what has happened to the record by then.
#[verifier::rlimit(40)]
proof fn lemma_ipv4_failure(card: Card, client: bool, old: Ipv4Info, new: Ipv4Info, p: int)
    requires
        0 <= p < ipv4_plan(client, old, new).len(),
        ipv4_plan(client, old, new)[p] is Must,
    ensures
        booked_all(card, ipv4_plan(client, old, new).take(p)) == if ipv4_plan(
            client,
            old,
            new,
        )[p] == Step::Must(Action::StopDhcp4) {
            card
        } else {
            Card { ipv4: new, ..card }
        },
{
    broadcast use {lemma_all_of_add, lemma_all_of_opt};

    let put = Step::PutIpv4(new);
    let stop = Step::Must(Action::StopDhcp4);
    let front = opt(client, stop) + opt(
        has_address4(old),
        Step::Try(Action::DelIpv4Address(old.ip, old.netmask)),
    ) + opt(
        old.gateway != Ipv4Addr::zero(),
        Step::Try(Action::DelIpv4Gateway(old.gateway)),
    );
    let back = if !new.enabled {
        seq![Step::Save]
    } else {
        opt(
            !new.use_dhcp && has_address4(new),
            Step::Must(Action::SetIpv4Address(new.ip, new.netmask)),
        ) + opt(
            !new.use_dhcp && new.gateway != Ipv4Addr::zero(),
            Step::Must(Action::SetIpv4Gateway(new.gateway)),
        ) + opt(
            !new.auto_dns,
            Step::Must(Action::UpdateIpv4Dns(new.primary_dns, new.secondary_dns)),
        ) + if new.use_dhcp || new.auto_dns {
            opt(client, Step::Must(Action::StartDhcp4))
        } else {
            seq![Step::Save]
        }
    };
    assert(ipv4_plan(client, old, new) == front + seq![put] + back);
    let late = |s: Step| is_work(s) && s != stop;
    assert(all_of(front, |s: Step| is_work(s) && (s is Must ==> s == stop)));
    assert(all_of(seq![Step::Save], late));
    assert(all_of(back, late));
    lemma_failure_in(card, front, put, back, stop, p);
}

/// Whoever gives a known card an IPv4 configuration gets it: a run that succeeds has
/// asked for all the work that the configuration needs, and any run has asked for a
/// beginning of that. The run fails where a piece of work fails, unless that took away
/// what was or wrote the file, and what is known of the card is then still the old
/// configuration if the client could not be stopped, else the new one.
pub proof fn law_ipv4_done(n: NetState, iface: Seq<char>, info: Ipv4Info, outcomes: Seq<Outcome>)
    requires
        n.cards.contains_key(iface),
        fitting(n, ipv4_job(n, iface, info), outcomes),
    ensures
        ({
            let j = ipv4_job(n, iface, info);
            let (m, k) = run(n, j, outcomes);
            let all = asked(n, j, outcomes);
            let card = n.cards[iface];
            let client = n.dhcp4.contains(iface);
            let store = NetCardStore { link_up: card.enabled, ipv4: info, ipv6: card.ipv6 };
            &&& succeeded(k) ==> sets_ipv4(all, client, card.ipv4, info, store)
            &&& exists|whole: Seq<Action>|
                begins(all, whole) && #[trigger] sets_ipv4(whole, client, card.ipv4, info, store)
            &&& ends_at_failure(all, outcomes, k)
            &&& k.error is Some ==> m.cards[iface] == if all.last() == Action::StopDhcp4 {
                card
            } else {
                Card { ipv4: info, ..card }
            }
        }),
{
    let j = ipv4_job(n, iface, info);
    let (m, k) = run(n, j, outcomes);
    let all = asked(n, j, outcomes);
    let card = n.cards[iface];
    let client = n.dhcp4.contains(iface);
    let store = NetCardStore { link_up: card.enabled, ipv4: info, ipv6: card.ipv6 };
    lemma_ipv4_works(client, card.ipv4, info, store);
    lemma_ipv4_saves(card, client, card.ipv4, info);
    let p = lemma_straight_work(n, j, outcomes, store);
    if k.error is Some {
        lemma_ipv4_failure(card, client, card.ipv4, info, p);
    }
    let whole = works(j.steps, store);
    assert(sets_ipv4(whole, client, card.ipv4, info, store));
}

/// A card with a client whose IPv4 configuration is enabled and takes anything from
/// DHCP has its client stopped at first and started at last whenever the setting
/// succeeds.
pub proof fn law_dhcp4_restarted(
    n: NetState,
    iface: Seq<char>,
    info: Ipv4Info,
    outcomes: Seq<Outcome>,
)
    requires
        n.cards.contains_key(iface),
        n.dhcp4.contains(iface),
        info.enabled,
        info.use_dhcp || info.auto_dns,
        fitting(n, ipv4_job(n, iface, info), outcomes),
        succeeded(run(n, ipv4_job(n, iface, info), outcomes).1),
    ensures
        ({
            let all = asked(n, ipv4_job(n, iface, info), outcomes);
            &&& all.len() >= 2
            &&& all.first() == Action::StopDhcp4
            &&& all.last() == Action::StartDhcp4
        }),
{
    law_ipv4_done(n, iface, info, outcomes);
    let all = asked(n, ipv4_job(n, iface, info), outcomes);
    let card = n.cards[iface];
    let store = NetCardStore { link_up: card.enabled, ipv4: info, ipv6: card.ipv6 };
    assert(sets_ipv4(all, true, card.ipv4, info, store));
    let first = choose|i: int| 0 <= i < all.len() && all[i] == Action::StopDhcp4;
    let last = choose|i: int| 0 <= i < all.len() && all[i] == Action::StartDhcp4;
    assert(all.contains(all[0]));
    assert(all.contains(all[all.len() - 1]));
    if first > 0 {
        assert(place(all[0]) < place(all[first]));
    }
    if last < all.len() - 1 {
        assert(place(all[last]) < place(all[all.len() - 1]));
    }
}

// ---------------------------------------------------------------------------
// Giving a card an IPv6 configuration
// ---------------------------------------------------------------------------

/// `all` is the work of giving a card the IPv6 configuration `new` in the place of
/// `old`. A client stops. An address and a gateway that there were are taken away. Of a
/// configuration that is enabled, address, gateway and DNS servers are set unless they
/// come from DHCP, and if any of them does the client starts again. What needs no DHCP
/// is written to disk as `store`. There is nothing else in `all`.
pub open spec fn sets_ipv6(
    all: Seq<Action>,
    client: bool,
    old: Ipv6Info,
    new: Ipv6Info,
    store: NetCardStore,
) -> bool {
    let none = Ipv6Addr::zero();
    let dhcp = new.enabled && (new.use_dhcp || new.auto_dns);
    &&& in_places(all)
    &&& all.contains(Action::StopDhcp6) <==> client
    &&& all.contains(Action::DelIpv6Address(old.ip, old.prefix_len)) <==> old.ip != none
        && old.prefix_len > 0
    &&& all.contains(Action::DelIpv6Gateway(old.gateway)) <==> old.gateway != none
    &&& all.contains(Action::SetIpv6Address(new.ip, new.prefix_len)) <==> new.enabled && !new.use_dhcp
        && new.ip != none && new.prefix_len > 0
    &&& all.contains(Action::SetIpv6Gateway(new.gateway)) <==> new.enabled && !new.use_dhcp
        && new.gateway != none
    &&& all.contains(Action::UpdateIpv6Dns(new.primary_dns, new.secondary_dns)) <==> new.enabled
        && !new.auto_dns
    &&& all.contains(Action::StartDhcp6) <==> client && dhcp
    &&& all.contains(Action::SaveConfig(store)) <==> !dhcp
    &&& forall|a: Action| #[trigger]
        all.contains(a) ==> match a {
            Action::StopDhcp6 | Action::StartDhcp6 => true,
            Action::DelIpv6Address(ip, prefix_len) => ip == old.ip && prefix_len == old.prefix_len,
            Action::DelIpv6Gateway(gateway) => gateway == old.gateway,
            Action::SetIpv6Address(ip, prefix_len) => ip == new.ip && prefix_len == new.prefix_len,
            Action::SetIpv6Gateway(gateway) => gateway == new.gateway,
            Action::UpdateIpv6Dns(first, second) => first == new.primary_dns && second
                == new.secondary_dns,
            Action::SaveConfig(written) => written == store,
            _ => false,
        }
}

spec fn ipv6_work(
    client: bool,
    old: Ipv6Info,
    new: Ipv6Info,
    store: NetCardStore,
) -> Seq<Action> {
    let none = Ipv6Addr::zero();
    let dhcp = new.enabled && (new.use_dhcp || new.auto_dns);
    chosen(
        client,
        Action::StopDhcp6,
        has_address6(old),
        Action::DelIpv6Address(old.ip, old.prefix_len),
        old.gateway != none,
        Action::DelIpv6Gateway(old.gateway),
        new.enabled && !new.use_dhcp && has_address6(new),
        Action::SetIpv6Address(new.ip, new.prefix_len),
        new.enabled && !new.use_dhcp && new.gateway != none,
        Action::SetIpv6Gateway(new.gateway),
        new.enabled && !new.auto_dns,
        Action::UpdateIpv6Dns(new.primary_dns, new.secondary_dns),
        client && dhcp,
        Action::StartDhcp6,
        !dhcp,
        Action::SaveConfig(store),
    )
}

#[verifier::rlimit(40)]
proof fn lemma_ipv6_work(client: bool, old: Ipv6Info, new: Ipv6Info, store: NetCardStore)
    ensures
        sets_ipv6(ipv6_work(client, old, new, store), client, old, new, store),
{
    let none = Ipv6Addr::zero();
    let dhcp = new.enabled && (new.use_dhcp || new.auto_dns);
    lemma_chosen(
        client,
        Action::StopDhcp6,
        has_address6(old),
        Action::DelIpv6Address(old.ip, old.prefix_len),
        old.gateway != none,
        Action::DelIpv6Gateway(old.gateway),
        new.enabled && !new.use_dhcp && has_address6(new),
        Action::SetIpv6Address(new.ip, new.prefix_len),
        new.enabled && !new.use_dhcp && new.gateway != none,
        Action::SetIpv6Gateway(new.gateway),
        new.enabled && !new.auto_dns,
        Action::UpdateIpv6Dns(new.primary_dns, new.secondary_dns),
        client && dhcp,
        Action::StartDhcp6,
        !dhcp,
        Action::SaveConfig(store),
    );
}

pub(crate) proof fn lemma_ipv6_works(
    client: bool,
    old: Ipv6Info,
    new: Ipv6Info,
    store: NetCardStore,
)
    ensures
        sets_ipv6(works(ipv6_plan(client, old, new), store), client, old, new, store),
        all_of(ipv6_plan(client, old, new), |s: Step| is_tidy(s)),
{
    lemma_ipv6_plan(client, old, new, |s: Step| is_tidy(s));
    lemma_ipv6_work(client, old, new, store);
    lemma_ipv6_plan_work(client, old, new, store);
}

#[verifier::rlimit(40)]
proof fn lemma_ipv6_plan_work(client: bool, old: Ipv6Info, new: Ipv6Info, store: NetCardStore)
    ensures
        works(ipv6_plan(client, old, new), store) == ipv6_work(client, old, new, store),
{
    let none = Ipv6Addr::zero();
    let dhcp = new.enabled && (new.use_dhcp || new.auto_dns);
    let stop = Action::StopDhcp6;
    let del = Action::DelIpv6Address(old.ip, old.prefix_len);
    let del_gateway = Action::DelIpv6Gateway(old.gateway);
    let set = Action::SetIpv6Address(new.ip, new.prefix_len);
    let set_gateway = Action::SetIpv6Gateway(new.gateway);
    let dns = Action::UpdateIpv6Dns(new.primary_dns, new.secondary_dns);
    let start = Action::StartDhcp6;
    let front = opt(client, Step::Must(stop)) + opt(has_address6(old), Step::Try(del)) + opt(
        old.gateway != none,
        Step::Try(del_gateway),
    );
    let back = opt(!new.use_dhcp && has_address6(new), Step::Must(set)) + opt(
        !new.use_dhcp && new.gateway != none,
        Step::Must(set_gateway),
    ) + opt(!new.auto_dns, Step::Must(dns));
    lemma_three(
        client,
        Step::Must(stop),
        has_address6(old),
        Step::Try(del),
        old.gateway != none,
        Step::Try(del_gateway),
        store,
    );
    lemma_three(
        !new.use_dhcp && has_address6(new),
        Step::Must(set),
        !new.use_dhcp && new.gateway != none,
        Step::Must(set_gateway),
        !new.auto_dns,
        Step::Must(dns),
        store,
    );
    lemma_setting_work(
        front,
        Step::PutIpv6(new),
        new.enabled,
        back,
        dhcp,
        opt(client, Step::Must(start)),
        store,
    );
    lemma_works_opt(client, Step::Must(start), store);
    reveal(chosen);
    lemma_in_order(
        one(client, stop),
        one(has_address6(old), del),
        one(old.gateway != none, del_gateway),
        one(new.enabled && !new.use_dhcp && has_address6(new), set),
        one(new.enabled && !new.use_dhcp && new.gateway != none, set_gateway),
        one(new.enabled && !new.auto_dns, dns),
        one(client && dhcp, start),
        one(!dhcp, Action::SaveConfig(store)),
    );
}

#[verifier::rlimit(40)]
proof fn lemma_ipv6_saves(card: Card, client: bool, old: Ipv6Info, new: Ipv6Info)
    ensures
        saves_as(
            card,
            ipv6_plan(client, old, new),
            NetCardStore { link_up: card.enabled, ipv4: card.ipv4, ipv6: new },
        ),
{
    broadcast use {lemma_all_of_add, lemma_all_of_opt};

    let store = NetCardStore { link_up: card.enabled, ipv4: card.ipv4, ipv6: new };
    let put = Step::PutIpv6(new);
    let front = opt(client, Step::Must(Action::StopDhcp6)) + opt(
        has_address6(old),
        Step::Try(Action::DelIpv6Address(old.ip, old.prefix_len)),
    ) + opt(
        old.gateway != Ipv6Addr::zero(),
        Step::Try(Action::DelIpv6Gateway(old.gateway)),
    );
    let back = opt(
        !new.use_dhcp && has_address6(new),
        Step::Must(Action::SetIpv6Address(new.ip, new.prefix_len)),
    ) + opt(
        !new.use_dhcp && new.gateway != Ipv6Addr::zero(),
        Step::Must(Action::SetIpv6Gateway(new.gateway)),
    ) + opt(
        !new.auto_dns,
        Step::Must(Action::UpdateIpv6Dns(new.primary_dns, new.secondary_dns)),
    );
    let start = opt(client, Step::Must(Action::StartDhcp6));
    let p = |s: Step| is_work(s) && !(s is Save);
    assert(all_of(front, p));
    assert(all_of(back, p));
    assert(all_of(start, p));
    lemma_setting_saves(
        card,
        front,
        put,
        new.enabled,
        back,
        new.use_dhcp || new.auto_dns,
        start,
        store,
    );
}

/// What fails in an IPv6 plan, and what has happened to the record by then.
#[verifier::rlimit(40)]
proof fn lemma_ipv6_failure(card: Card, client: bool, old: Ipv6Info, new: Ipv6Info, p: int)
    requires
        0 <= p < ipv6_plan(client, old, new).len(),
        ipv6_plan(client, old, new)[p] is Must,
    ensures
        booked_all(card, ipv6_plan(client, old, new).take(p)) == if ipv6_plan(
            client,
            old,
            new,
        )[p] == Step::Must(Action::StopDhcp6) {
            card
        } else {
            Card { ipv6: new, ..card }
        },
{
    broadcast use {lemma_all_of_add, lemma_all_of_opt};

    let put = Step::PutIpv6(new);
    let stop = Step::Must(Action::StopDhcp6);
    let front = opt(client, stop) + opt(
        has_address6(old),
        Step::Try(Action::DelIpv6Address(old.ip, old.prefix_len)),
    ) + opt(
        old.gateway != Ipv6Addr::zero(),
        Step::Try(Action::DelIpv6Gateway(old.gateway)),
    );
    let back = if !new.enabled {
        seq![Step::Save]
    } else {
        opt(
            !new.use_dhcp && has_address6(new),
            Step::Must(Action::SetIpv6Address(new.ip, new.prefix_len)),
        ) + opt(
            !new.use_dhcp && new.gateway != Ipv6Addr::zero(),
            Step::Must(Action::SetIpv6Gateway(new.gateway)),
        ) + opt(
            !new.auto_dns,
            Step::Must(Action::UpdateIpv6Dns(new.primary_dns, new.secondary_dns)),
        ) + if new.use_dhcp || new.auto_dns {
            opt(client, Step::Must(Action::StartDhcp6))
        } else {
            seq![Step::Save]
        }
    };
    assert(ipv6_plan(client, old, new) == front + seq![put] + back);
    let late = |s: Step| is_work(s) && s != stop;
    assert(all_of(front, |s: Step| is_work(s) && (s is Must ==> s == stop)));
    assert(all_of(seq![Step::Save], late));
    assert(all_of(back, late));
    lemma_failure_in(card, front, put, back, stop, p);
}

/// Whoever gives a known card an IPv6 configuration gets it: a run that succeeds has
/// asked for all the work that the configuration needs, and any run has asked for a
/// beginning of that. The run fails where a piece of work fails, unless that took away
/// what was or wrote the file, and what is known of the card is then still the old
/// configuration if the client could not be stopped, else the new one.
pub proof fn law_ipv6_done(n: NetState, iface: Seq<char>, info: Ipv6Info, outcomes: Seq<Outcome>)
    requires
        n.cards.contains_key(iface),
        fitting(n, ipv6_job(n, iface, info), outcomes),
    ensures
        ({
            let j = ipv6_job(n, iface, info);
            let (m, k) = run(n, j, outcomes);
            let all = asked(n, j, outcomes);
            let card = n.cards[iface];
            let client = n.dhcp6.contains(iface);
            let store = NetCardStore { link_up: card.enabled, ipv4: card.ipv4, ipv6: info };
            &&& succeeded(k) ==> sets_ipv6(all, client, card.ipv6, info, store)
            &&& exists|whole: Seq<Action>|
                begins(all, whole) && #[trigger] sets_ipv6(whole, client, card.ipv6, info, store)
            &&& ends_at_failure(all, outcomes, k)
            &&& k.error is Some ==> m.cards[iface] == if all.last() == Action::StopDhcp6 {
                card
            } else {
                Card { ipv6: info, ..card }
            }
        }),
{
    let j = ipv6_job(n, iface, info);
    let (m, k) = run(n, j, outcomes);
    let all = asked(n, j, outcomes);
    let card = n.cards[iface];
    let client = n.dhcp6.contains(iface);
    let store = NetCardStore { link_up: card.enabled, ipv4: card.ipv4, ipv6: info };
    lemma_ipv6_works(client, card.ipv6, info, store);
    lemma_ipv6_saves(card, client, card.ipv6, info);
    let p = lemma_straight_work(n, j, outcomes, store);
    if k.error is Some {
        lemma_ipv6_failure(card, client, card.ipv6, info, p);
    }
    let whole = works(j.steps, store);
    assert(sets_ipv6(whole, client, card.ipv6, info, store));
}

/// A card with a client whose IPv6 configuration is enabled and takes anything from
/// DHCP has its client stopped at first and started at last whenever the setting
/// succeeds.
pub proof fn law_dhcp6_restarted(
    n: NetState,
    iface: Seq<char>,
    info: Ipv6Info,
    outcomes: Seq<Outcome>,
)
    requires
        n.cards.contains_key(iface),
        n.dhcp6.contains(iface),
        info.enabled,
        info.use_dhcp || info.auto_dns,
        fitting(n, ipv6_job(n, iface, info), outcomes),
        succeeded(run(n, ipv6_job(n, iface, info), outcomes).1),
    ensures
        ({
            let all = asked(n, ipv6_job(n, iface, info), outcomes);
            &&& all.len() >= 2
            &&& all.first() == Action::StopDhcp6
            &&& all.last() == Action::StartDhcp6
        }),
{
    law_ipv6_done(n, iface, info, outcomes);
    let all = asked(n, ipv6_job(n, iface, info), outcomes);
    let card = n.cards[iface];
    let store = NetCardStore { link_up: card.enabled, ipv4: card.ipv4, ipv6: info };
    assert(sets_ipv6(all, true, card.ipv6, info, store));
    let first = choose|i: int| 0 <= i < all.len() && all[i] == Action::StopDhcp6;
    let last = choose|i: int| 0 <= i < all.len() && all[i] == Action::StartDhcp6;
    assert(all.contains(all[0]));
    assert(all.contains(all[all.len() - 1]));
    if first > 0 {
        assert(place(all[0]) < place(all[first]));
    }
    if last < all.len() - 1 {
        assert(place(all[last]) < place(all[all.len() - 1]));
    }
}

/// Of an enabled IPv4 configuration whose setting succeeds, an address, a gateway and DNS
/// servers that do not come from DHCP are set as they are in it, and where nothing comes
/// from DHCP the file is written last, with that configuration.
pub proof fn law_static4_applied(
    n: NetState,
    iface: Seq<char>,
    info: Ipv4Info,
    outcomes: Seq<Outcome>,
)
    requires
        n.cards.contains_key(iface),
        info.enabled,
        fitting(n, ipv4_job(n, iface, info), outcomes),
        succeeded(run(n, ipv4_job(n, iface, info), outcomes).1),
    ensures
        ({
            let all = asked(n, ipv4_job(n, iface, info), outcomes);
            let card = n.cards[iface];
            let none = Ipv4Addr::zero();
            &&& !info.use_dhcp && info.ip != none && info.netmask != none ==> all.contains(
                Action::SetIpv4Address(info.ip, info.netmask),
            )
            &&& !info.use_dhcp && info.gateway != none ==> all.contains(
                Action::SetIpv4Gateway(info.gateway),
            )
            &&& !info.auto_dns ==> all.contains(
                Action::UpdateIpv4Dns(info.primary_dns, info.secondary_dns),
            )
            &&& !info.use_dhcp && !info.auto_dns ==> all.len() > 0 && all.last()
                == Action::SaveConfig(
                NetCardStore { link_up: card.enabled, ipv4: info, ipv6: card.ipv6 },
            )
        }),
{
    law_ipv4_done(n, iface, info, outcomes);
    let all = asked(n, ipv4_job(n, iface, info), outcomes);
    let card = n.cards[iface];
    let store = NetCardStore { link_up: card.enabled, ipv4: info, ipv6: card.ipv6 };
    assert(sets_ipv4(all, n.dhcp4.contains(iface), card.ipv4, info, store));
    if !info.use_dhcp && !info.auto_dns {
        let at = choose|i: int| 0 <= i < all.len() && all[i] == Action::SaveConfig(store);
        assert(all.contains(all[all.len() - 1]));
        if at < all.len() - 1 {
            assert(place(all[at]) < place(all[all.len() - 1]));
        }
    }
}

/// Of an enabled IPv6 configuration whose setting succeeds, an address, a gateway and DNS
/// servers that do not come from DHCP are set as they are in it, and where nothing comes
/// from DHCP the file is written last, with that configuration.
pub proof fn law_static6_applied(
    n: NetState,
    iface: Seq<char>,
    info: Ipv6Info,
    outcomes: Seq<Outcome>,
)
    requires
        n.cards.contains_key(iface),
        info.enabled,
        fitting(n, ipv6_job(n, iface, info), outcomes),
        succeeded(run(n, ipv6_job(n, iface, info), outcomes).1),
    ensures
        ({
            let all = asked(n, ipv6_job(n, iface, info), outcomes);
            let card = n.cards[iface];
            let none = Ipv6Addr::zero();
            &&& !info.use_dhcp && info.ip != none && info.prefix_len > 0 ==> all.contains(
                Action::SetIpv6Address(info.ip, info.prefix_len),
            )
            &&& !info.use_dhcp && info.gateway != none ==> all.contains(
                Action::SetIpv6Gateway(info.gateway),
            )
            &&& !info.auto_dns ==> all.contains(
                Action::UpdateIpv6Dns(info.primary_dns, info.secondary_dns),
            )
            &&& !info.use_dhcp && !info.auto_dns ==> all.len() > 0 && all.last()
                == Action::SaveConfig(
                NetCardStore { link_up: card.enabled, ipv4: card.ipv4, ipv6: info },
            )
        }),
{
    law_ipv6_done(n, iface, info, outcomes);
    let all = asked(n, ipv6_job(n, iface, info), outcomes);
    let card = n.cards[iface];
    let store = NetCardStore { link_up: card.enabled, ipv4: card.ipv4, ipv6: info };
    assert(sets_ipv6(all, n.dhcp6.contains(iface), card.ipv6, info, store));
    if !info.use_dhcp && !info.auto_dns {
        let at = choose|i: int| 0 <= i < all.len() && all[i] == Action::SaveConfig(store);
        assert(all.contains(all[all.len() - 1]));
        if at < all.len() - 1 {
            assert(place(all[at]) < place(all[all.len() - 1]));
        }
    }
}

}
