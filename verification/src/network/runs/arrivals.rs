//! What is done to a card when its link appears, comes up and goes.
use super::super::actor::{
    advanced, apply_plan, booked_card, close_plan, completed, fits, ipv4_plan, ipv6_plan, job,
    link_event, link_plan, names_match, open_plan, past_part, restore_plan, restored_card, settled,
    store_of, wanted, Action, JobState, NetState, NoticeState, Outcome, Step,
};
use super::super::persist::NetCardStore;
use super::effects::{lemma_ipv4_works, lemma_ipv6_works, sets_ipv4, sets_ipv6};
use super::leases::lemma_link_works;
use super::plans::{all_of, lemma_ipv4_plan, lemma_ipv6_plan, lemma_past_part};
use super::requests::asked;
use super::work::{carried_out, ends_at_failure, is_tidy, lemma_part, works};
use super::{fitting, run};
use crate::{Card, HardwareInfo, Ipv4Addr, Ipv4Info, Ipv6Addr, Ipv6Info, LinkState};
use vstd::prelude::*;

verus! {

/// `all` is the work of setting an IPv4 configuration that a card has, and then its IPv6
/// configuration, as in setting each of them alone. Each is carried out to its end or
/// to its first failure, and the second whatever became of the first.
pub open spec fn sets_both(
    all: Seq<Action>,
    outcomes: Seq<Outcome>,
    client4: bool,
    client6: bool,
    store: NetCardStore,
) -> bool {
    exists|work4: Seq<Action>, count4: int, work6: Seq<Action>, count6: int|
        {
            &&& sets_ipv4(work4, client4, store.ipv4, store.ipv4, store)
            &&& sets_ipv6(work6, client6, store.ipv6, store.ipv6, store)
            &&& #[trigger] carried_out(work4, outcomes, count4)
            &&& #[trigger] carried_out(work6, outcomes.skip(count4), count6)
            &&& all == work4.take(count4) + work6.take(count6)
        }
}

proof fn lemma_nothing_left(n: NetState, j: JobState, outcomes: Seq<Outcome>)
    requires
        j.steps.len() == 0,
    ensures
        run(n, j, outcomes) == (n, j),
        asked(n, j, outcomes) == Seq::<Action>::empty(),
{
    assert(wanted(n, j) is None);
    assert(settled(n, j) == (n, j));
}

/// A job of two parts.
#[verifier::rlimit(40)]
proof fn lemma_two_parts(
    n: NetState,
    j: JobState,
    first: Seq<Step>,
    second: Seq<Step>,
    outcomes: Seq<Outcome>,
) -> (counts: (int, int))
    requires
        n.cards.contains_key(j.iface),
        j.error is None,
        j.steps == first + seq![Step::EndPart] + second + seq![Step::EndPart],
        all_of(first, |s: Step| is_tidy(s) && booked_card(n.cards[j.iface], s) == n.cards[j.iface]),
        all_of(second, |s: Step| is_tidy(s) && booked_card(n.cards[j.iface], s) == n.cards[j.iface]),
        fitting(n, j, outcomes),
        run(n, j, outcomes).1.steps.len() == 0,
    ensures
        ({
            let store = store_of(n.cards[j.iface]);
            &&& carried_out(works(first, store), outcomes, counts.0)
            &&& carried_out(works(second, store), outcomes.skip(counts.0), counts.1)
            &&& asked(n, j, outcomes) == works(first, store).take(counts.0) + works(
                second,
                store,
            ).take(counts.1)
            &&& run(n, j, outcomes) == (n, JobState { steps: seq![], ..j })
        }),
{
    let store = store_of(n.cards[j.iface]);
    let end = seq![Step::EndPart];
    assert(j.steps =~= first + end + (second + end));
    let c1 = lemma_part(n, j, first, second + end, outcomes);
    let j2 = JobState { steps: second + end, ..j };
    let later = outcomes.skip(c1);
    assert(second + end =~= second + end + Seq::<Step>::empty());
    let c2 = lemma_part(n, j2, second, Seq::empty(), later);
    let je = JobState { steps: Seq::empty(), ..j2 };
    lemma_nothing_left(n, je, later.skip(c2));
    let w2 = works(second, store);
    assert(w2.take(c2) + Seq::<Action>::empty() =~= w2.take(c2));
    (c1, c2)
}

proof fn lemma_still4(card: Card, client: bool)
    ensures
        all_of(
            ipv4_plan(client, card.ipv4, card.ipv4),
            |s: Step| is_tidy(s) && booked_card(card, s) == card,
        ),
{
    lemma_ipv4_plan(
        client,
        card.ipv4,
        card.ipv4,
        |s: Step| is_tidy(s) && booked_card(card, s) == card,
    );
}

proof fn lemma_still6(card: Card, client: bool)
    ensures
        all_of(
            ipv6_plan(client, card.ipv6, card.ipv6),
            |s: Step| is_tidy(s) && booked_card(card, s) == card,
        ),
{
    lemma_ipv6_plan(
        client,
        card.ipv6,
        card.ipv6,
        |s: Step| is_tidy(s) && booked_card(card, s) == card,
    );
}

proof fn lemma_sets_both(
    work4: Seq<Action>,
    count4: int,
    work6: Seq<Action>,
    count6: int,
    outcomes: Seq<Outcome>,
    client4: bool,
    client6: bool,
    store: NetCardStore,
)
    requires
        sets_ipv4(work4, client4, store.ipv4, store.ipv4, store),
        sets_ipv6(work6, client6, store.ipv6, store.ipv6, store),
        carried_out(work4, outcomes, count4),
        carried_out(work6, outcomes.skip(count4), count6),
    ensures
        sets_both(
            work4.take(count4) + work6.take(count6),
            outcomes,
            client4,
            client6,
            store,
        ),
{
}

#[verifier::rlimit(40)]
proof fn lemma_apply(n: NetState, j: JobState, outcomes: Seq<Outcome>)
    requires
        n.cards.contains_key(j.iface),
        n.cards[j.iface].name == j.iface,
        j.error is None,
        j.steps == apply_plan(n, n.cards[j.iface]),
        fitting(n, j, outcomes),
        run(n, j, outcomes).1.steps.len() == 0,
    ensures
        sets_both(
            asked(n, j, outcomes),
            outcomes,
            n.dhcp4.contains(j.iface),
            n.dhcp6.contains(j.iface),
            store_of(n.cards[j.iface]),
        ),
        run(n, j, outcomes) == (n, JobState { steps: seq![], ..j }),
{
    let card = n.cards[j.iface];
    let store = store_of(card);
    let client4 = n.dhcp4.contains(j.iface);
    let client6 = n.dhcp6.contains(j.iface);
    let p4 = ipv4_plan(client4, card.ipv4, card.ipv4);
    let p6 = ipv6_plan(client6, card.ipv6, card.ipv6);
    lemma_still4(card, client4);
    lemma_still6(card, client6);
    let (count4, count6) = lemma_two_parts(n, j, p4, p6, outcomes);
    lemma_ipv4_works(client4, card.ipv4, card.ipv4, store);
    lemma_ipv6_works(client6, card.ipv6, card.ipv6, store);
    lemma_sets_both(
        works(p4, store),
        count4,
        works(p6, store),
        count6,
        outcomes,
        client4,
        client6,
        store,
    );
}

/// When the link of a known card is reported, its hardware is read. If its link has
/// come up and it is switched on, then the work of setting the IPv4 configuration that
/// is on record for it is asked for, and after that the work of setting the IPv6
/// configuration that is on record; in every other case nothing more is. The job fails
/// only where the hardware cannot be read, and then nothing has changed.
pub proof fn law_relinked_done(n: NetState, iface: Seq<char>, outcomes: Seq<Outcome>)
    requires
        names_match(n),
        n.cards.contains_key(iface),
        fitting(n, link_event(n, iface, true).1, outcomes),
        run(n, link_event(n, iface, true).1, outcomes).1.steps.len() == 0,
    ensures
        ({
            let (n0, j) = link_event(n, iface, true);
            let (m, k) = run(n, j, outcomes);
            let all = asked(n, j, outcomes);
            let card = n.cards[iface];
            let store = NetCardStore { link_up: card.enabled, ipv4: card.ipv4, ipv6: card.ipv6 };
            &&& n0 == n
            &&& all.len() >= 1 && all[0] == Action::ReadHardware
            &&& match outcomes[0] {
                Outcome::Hardware(hardware) => {
                    &&& k.error is None
                    &&& m == NetState {
                        cards: n.cards.insert(iface, Card { hardware, ..card }),
                        ..n
                    }
                    &&& if card.enabled && card.hardware.state != LinkState::Up && hardware.state
                        == LinkState::Up {
                        sets_both(
                            all.skip(1),
                            outcomes.skip(1),
                            n.dhcp4.contains(iface),
                            n.dhcp6.contains(iface),
                            store,
                        )
                    } else {
                        all.len() == 1
                    }
                },
                Outcome::Failed(text) => all.len() == 1 && m == n && k.error == Some(text@),
                _ => false,
            }
        }),
{
    let j = link_event(n, iface, true).1;
    let card = n.cards[iface];
    assert(wanted(n, j) == Some(Action::ReadHardware));
    assert(settled(n, j) == (n, j));
    assert(outcomes.len() > 0);
    let (n2, j2) = completed(n, j, outcomes[0]);
    let later = outcomes.drop_first();
    let all = asked(n, j, outcomes);
    assert(later =~= outcomes.skip(1));
    assert(all == seq![Action::ReadHardware] + asked(n2, j2, later));
    assert(all.skip(1) =~= asked(n2, j2, later));
    match outcomes[0] {
        Outcome::Hardware(hardware) => {
            if j2.steps.len() == 0 {
                lemma_nothing_left(n2, j2, later);
            } else {
                lemma_apply(n2, j2, later);
            }
            if card.enabled && card.hardware.state != LinkState::Up && hardware.state
                == LinkState::Up {
                assert(j2.steps == apply_plan(n, Card { hardware, ..card }));
                assert(j2.steps.last() is EndPart);
            }
        },
        Outcome::Failed(_) => {
            assert(j.steps.drop_first() =~= Seq::<Step>::empty());
            assert(past_part(j.steps.drop_first()) is None);
            assert(past_part(j.steps) is None);
            lemma_nothing_left(n2, j2, later);
        },
        _ => {},
    }
}

// ---------------------------------------------------------------------------
// Adding a card
// ---------------------------------------------------------------------------

proof fn lemma_perform(n: NetState, j: JobState, outcomes: Seq<Outcome>)
    requires
        wanted(n, j) is Some,
        fitting(n, j, outcomes),
        run(n, j, outcomes).1.steps.len() == 0,
    ensures
        outcomes.len() > 0,
        fits(j.steps[0], outcomes[0]),
        ({
            let (n2, j2) = completed(n, j, outcomes[0]);
            let later = outcomes.skip(1);
            &&& run(n, j, outcomes) == run(n2, j2, later)
            &&& fitting(n2, j2, later)
            &&& asked(n, j, outcomes) == seq![wanted(n, j)->Some_0] + asked(n2, j2, later)
        }),
{
    assert(settled(n, j) == (n, j));
    assert(outcomes.len() > 0);
    assert(outcomes.skip(1) =~= outcomes.drop_first());
}

proof fn lemma_book(n: NetState, j: JobState, outcomes: Seq<Outcome>)
    requires
        j.steps.len() > 0,
        wanted(n, j) is None,
        fitting(n, j, outcomes),
    ensures
        ({
            let (n1, j1) = advanced(n, j);
            &&& run(n, j, outcomes) == run(n1, j1, outcomes)
            &&& fitting(n1, j1, outcomes)
            &&& asked(n, j, outcomes) == asked(n1, j1, outcomes)
        }),
{
    assert(settled(n, j) == settled(advanced(n, j).0, advanced(n, j).1));
}

proof fn lemma_gives_up(n: NetState, j: JobState, outcomes: Seq<Outcome>)
    requires
        j.steps.len() > 0,
        j.steps[0] is Must || j.steps[0] is ReadNew,
        all_of(j.steps, |s: Step| !(s is EndPart)),
        outcomes.len() > 0,
        outcomes[0] is Failed,
    ensures
        ({
            let (n2, j2) = completed(n, j, outcomes[0]);
            let later = outcomes.skip(1);
            &&& n2 == n && j2.steps.len() == 0 && j2.error == Some(outcomes[0]->Failed_0@)
            &&& run(n2, j2, later) == (n2, j2)
            &&& asked(n2, j2, later) == Seq::<Action>::empty()
        }),
{
    let i = lemma_past_part(j.steps);
    assert(past_part(j.steps) is None) by {
        if past_part(j.steps) is Some {
            assert(j.steps[i - 1] is EndPart);
        }
    }
    let (n2, j2) = completed(n, j, outcomes[0]);
    lemma_nothing_left(n2, j2, outcomes.skip(1));
}

/// `all` is the work of bringing a new card to what its file `saved` says: its link is
/// switched and its file written anew and, if it is switched on, both its
/// configurations are set, whatever became of the switching.
pub open spec fn brings_up(all: Seq<Action>, outcomes: Seq<Outcome>, saved: NetCardStore) -> bool {
    let switching = seq![Action::SetLink(saved.link_up), Action::SaveConfig(saved)];
    exists|count: int, rest: Seq<Action>|
        {
            &&& #[trigger] carried_out(switching, outcomes, count)
            &&& all == #[trigger] (switching.take(count) + rest)
            &&& if saved.link_up {
                sets_both(rest, outcomes.skip(count), true, true, saved)
            } else {
                rest.len() == 0
            }
        }
}

proof fn lemma_restore(n: NetState, j: JobState, saved: NetCardStore, outcomes: Seq<Outcome>)
    requires
        n.cards.contains_key(j.iface),
        n.cards[j.iface].name == j.iface,
        store_of(n.cards[j.iface]) == saved,
        n.dhcp4.contains(j.iface),
        n.dhcp6.contains(j.iface),
        j.error is None,
        j.steps == restore_plan(n, n.cards[j.iface], true),
        fitting(n, j, outcomes),
        run(n, j, outcomes).1.steps.len() == 0,
    ensures
        brings_up(asked(n, j, outcomes), outcomes, saved),
        run(n, j, outcomes) == (n, JobState { steps: seq![], ..j }),
{
    let card = n.cards[j.iface];
    let up = saved.link_up;
    let part = link_plan(up);
    let rest = if up {
        apply_plan(n, card)
    } else {
        Seq::empty()
    };
    lemma_link_works(up, saved);
    assert(all_of(part, |s: Step| is_tidy(s) && booked_card(card, s) == card));
    assert(j.steps == part + seq![Step::EndPart] + rest);
    let count = lemma_part(n, j, part, rest, outcomes);
    let jr = JobState { steps: rest, ..j };
    let later = outcomes.skip(count);
    let tail = asked(n, jr, later);
    if up {
        lemma_apply(n, jr, later);
    } else {
        lemma_nothing_left(n, jr, later);
    }
    let switching = seq![Action::SetLink(up), Action::SaveConfig(saved)];
    assert(carried_out(switching, outcomes, count));
    assert(asked(n, j, outcomes) == switching.take(count) + tail);
}

/// Adding a card reads its hardware, makes its two clients, DHCPv4 first, and reads its
/// file. Where one of the first three fails the job fails with that and asks for no
/// more, and there is no new card. Else the card is there: of a card without a file
/// nothing more is asked, and it is switched on, takes all its IPv4 configuration from
/// DHCP and has IPv6 disabled; a card with a file has what the file says, and is brought
/// to it.
#[verifier::rlimit(40)]
pub proof fn law_arrived_done(n: NetState, iface: Seq<char>, j: JobState, outcomes: Seq<Outcome>)
    requires
        j == job(iface, seq![Step::ReadNew], NoticeState::Quiet) || !n.cards.contains_key(iface)
            && j == link_event(n, iface, true).1,
        fitting(n, j, outcomes),
        run(n, j, outcomes).1.steps.len() == 0,
    ensures
        ({
            let (m, k) = run(n, j, outcomes);
            let all = asked(n, j, outcomes);
            let opening = seq![
                Action::ReadHardware,
                Action::OpenDhcp4,
                Action::OpenDhcp6,
                Action::LoadConfig,
            ];
            let none = Ipv4Addr::zero();
            let none6 = Ipv6Addr::zero();
            &&& 0 < all.len() <= outcomes.len()
            &&& forall|i: int| 0 <= i < 4 && i < all.len() ==> #[trigger] all[i] == opening[i]
            &&& k.error is Some <==> all.len() < 4
            &&& k.error is Some ==> {
                &&& outcomes[all.len() - 1] is Failed
                &&& k.error == Some(outcomes[all.len() - 1]->Failed_0@)
                &&& m.cards == n.cards
            }
            &&& k.error is None ==> {
                &&& outcomes[0] is Hardware && outcomes[3] is Config
                &&& m.dhcp4 == n.dhcp4.insert(iface) && m.dhcp6 == n.dhcp6.insert(iface)
                &&& m.cards.contains_key(iface)
                &&& m.cards == n.cards.insert(iface, m.cards[iface])
                &&& m.cards[iface].name == iface
                &&& m.cards[iface].hardware == outcomes[0]->Hardware_0
                &&& match outcomes[3]->Config_0 {
                    Some(saved) => {
                        &&& m.cards[iface].enabled == saved.link_up
                        &&& m.cards[iface].ipv4 == saved.ipv4
                        &&& m.cards[iface].ipv6 == saved.ipv6
                        &&& brings_up(all.skip(4), outcomes.skip(4), saved)
                    },
                    None => {
                        let ipv4 = m.cards[iface].ipv4;
                        let ipv6 = m.cards[iface].ipv6;
                        &&& all.len() == 4
                        &&& m.cards[iface].enabled
                        &&& ipv4.enabled && ipv4.use_dhcp && ipv4.auto_dns
                        &&& ipv4.ip == none && ipv4.netmask == none && ipv4.gateway == none
                        &&& ipv4.primary_dns == none && ipv4.secondary_dns == none
                        &&& !ipv6.enabled && ipv6.use_dhcp && ipv6.auto_dns
                        &&& ipv6.ip == none6 && ipv6.prefix_len == 0 && ipv6.gateway == none6
                        &&& ipv6.primary_dns == none6 && ipv6.secondary_dns == none6
                    },
                }
            }
        }),
{
    let all = asked(n, j, outcomes);
    assert(wanted(n, j) == Some(Action::ReadHardware));
    lemma_perform(n, j, outcomes);
    if outcomes[0] is Failed {
        lemma_gives_up(n, j, outcomes);
        assert(all =~= seq![Action::ReadHardware]);
    } else {
        let hardware = outcomes[0]->Hardware_0;
        let plan = open_plan(hardware);
        let j1 = JobState { steps: plan, ..j };
        let o1 = outcomes.skip(1);
        assert(completed(n, j, outcomes[0]) == (n, j1));
        lemma_perform(n, j1, o1);
        assert(o1[0] == outcomes[1]);
        if o1[0] is Failed {
            lemma_gives_up(n, j1, o1);
            assert(all =~= seq![Action::ReadHardware, Action::OpenDhcp4]);
        } else {
            lemma_arrival_opened(n, j1, hardware, o1);
            let (m, k) = run(n, j, outcomes);
            let rest = asked(n, j1, o1);
            assert(all == seq![Action::ReadHardware] + rest);
            assert(rest.len() >= 2 && all[1] == rest[0] && all[2] == rest[1]);
            if rest.len() > 2 {
                assert(all[3] == rest[2]);
                assert(outcomes[3] == o1[2]);
                assert(all.skip(4) =~= rest.skip(3));
                assert(outcomes.skip(4) =~= o1.skip(3));
            } else {
                assert(outcomes[2] == o1[1]);
            }
        }
    }
}

/// The same from the first client on.
proof fn lemma_arrival_opened(
    n: NetState,
    j: JobState,
    hardware: HardwareInfo,
    outcomes: Seq<Outcome>,
)
    requires
        j.error is None,
        j.steps == open_plan(hardware),
        fitting(n, j, outcomes),
        run(n, j, outcomes).1.steps.len() == 0,
        outcomes.len() > 0,
        outcomes[0] is Done,
    ensures
        ({
            let (m, k) = run(n, j, outcomes);
            let all = asked(n, j, outcomes);
            &&& 2 <= all.len() <= outcomes.len()
            &&& all[0] == Action::OpenDhcp4 && all[1] == Action::OpenDhcp6
            &&& all.len() > 2 ==> all[2] == Action::LoadConfig
            &&& all.len() == 2 ==> outcomes[1] is Failed && k.error == Some(
                outcomes[1]->Failed_0@,
            ) && m.cards == n.cards
            &&& all.len() > 2 ==> {
                let card = restored_card(j.iface, hardware, outcomes[2]->Config_0);
                &&& outcomes[2] is Config
                &&& k.error is None
                &&& m.cards == n.cards.insert(j.iface, card)
                &&& m.dhcp4 == n.dhcp4.insert(j.iface) && m.dhcp6 == n.dhcp6.insert(j.iface)
                &&& match outcomes[2]->Config_0 {
                    Some(saved) => brings_up(all.skip(3), outcomes.skip(3), saved),
                    None => all.len() == 3,
                }
            }
        }),
{
    let plan = open_plan(hardware);
    let all = asked(n, j, outcomes);
    lemma_perform(n, j, outcomes);
    let j1 = completed(n, j, outcomes[0]).1;
    let o1 = outcomes.skip(1);
    assert(j1.steps =~= plan.skip(1));
    assert(wanted(n, j1) is None);
    lemma_book(n, j1, o1);
    let (n2, j2) = advanced(n, j1);
    assert(j2.steps =~= plan.skip(2));
    assert(wanted(n2, j2) == Some(Action::OpenDhcp6));
    lemma_perform(n2, j2, o1);
    assert(o1[0] == outcomes[1]);
    if o1[0] is Failed {
        lemma_gives_up(n2, j2, o1);
        assert(all =~= seq![Action::OpenDhcp4, Action::OpenDhcp6]);
    } else {
        let j3 = completed(n2, j2, o1[0]).1;
        let o2 = o1.skip(1);
        assert(j3.steps =~= plan.skip(3));
        assert(wanted(n2, j3) is None);
        lemma_book(n2, j3, o2);
        let (n4, j4) = advanced(n2, j3);
        assert(j4.steps =~= plan.skip(4));
        assert(j4.steps[0] == Step::Load(hardware));
        assert(wanted(n4, j4) == Some(Action::LoadConfig));
        lemma_perform(n4, j4, o2);
        assert(o2[0] == outcomes[2]);
        let saved = o2[0]->Config_0;
        let (n5, j5) = completed(n4, j4, o2[0]);
        let o3 = o2.skip(1);
        let rest = asked(n5, j5, o3);
        assert(o3 =~= outcomes.skip(3));
        assert(all =~= seq![Action::OpenDhcp4, Action::OpenDhcp6, Action::LoadConfig] + rest);
        assert(all.skip(3) =~= rest);
        if let Some(s) = saved {
            assert(n4.dhcp4.contains(j.iface) && n4.dhcp6.contains(j.iface));
            lemma_restore(n5, j5, s, o3);
            assert(rest.len() <= o3.len()) by {
                lemma_asked_len(n5, j5, o3);
            }
        } else {
            lemma_nothing_left(n5, j5, o3);
        }
    }
}

proof fn lemma_asked_len(n: NetState, j: JobState, outcomes: Seq<Outcome>)
    ensures
        asked(n, j, outcomes).len() <= outcomes.len(),
    decreases outcomes.len(),
{
    let (n1, j1) = settled(n, j);
    if outcomes.len() > 0 && wanted(n1, j1) is Some {
        let (n2, j2) = completed(n1, j1, outcomes[0]);
        lemma_asked_len(n2, j2, outcomes.drop_first());
    }
}

// ---------------------------------------------------------------------------
// When nothing fails
// ---------------------------------------------------------------------------

/// Among `all` a client that there is starts for each configuration that is enabled and
/// takes anything from DHCP, and of each that is enabled what does not come from DHCP is
/// set.
pub open spec fn configures(
    all: Seq<Action>,
    client4: bool,
    client6: bool,
    ipv4: Ipv4Info,
    ipv6: Ipv6Info,
) -> bool {
    let none = Ipv4Addr::zero();
    let none6 = Ipv6Addr::zero();
    &&& client4 && ipv4.enabled && (ipv4.use_dhcp || ipv4.auto_dns) ==> all.contains(
        Action::StopDhcp4,
    ) && all.contains(Action::StartDhcp4)
    &&& ipv4.enabled && !ipv4.use_dhcp && ipv4.ip != none && ipv4.netmask != none ==> all.contains(
        Action::SetIpv4Address(ipv4.ip, ipv4.netmask),
    )
    &&& ipv4.enabled && !ipv4.use_dhcp && ipv4.gateway != none ==> all.contains(
        Action::SetIpv4Gateway(ipv4.gateway),
    )
    &&& ipv4.enabled && !ipv4.auto_dns ==> all.contains(
        Action::UpdateIpv4Dns(ipv4.primary_dns, ipv4.secondary_dns),
    )
    &&& client6 && ipv6.enabled && (ipv6.use_dhcp || ipv6.auto_dns) ==> all.contains(
        Action::StopDhcp6,
    ) && all.contains(Action::StartDhcp6)
    &&& ipv6.enabled && !ipv6.use_dhcp && ipv6.ip != none6 && ipv6.prefix_len > 0 ==> all.contains(
        Action::SetIpv6Address(ipv6.ip, ipv6.prefix_len),
    )
    &&& ipv6.enabled && !ipv6.use_dhcp && ipv6.gateway != none6 ==> all.contains(
        Action::SetIpv6Gateway(ipv6.gateway),
    )
    &&& ipv6.enabled && !ipv6.auto_dns ==> all.contains(
        Action::UpdateIpv6Dns(ipv6.primary_dns, ipv6.secondary_dns),
    )
}

proof fn lemma_tail_contains(all: Seq<Action>, from: int, a: Action)
    requires
        0 <= from <= all.len(),
        all.skip(from).contains(a),
    ensures
        all.contains(a),
{
    let i = choose|i: int| 0 <= i < all.skip(from).len() && all.skip(from)[i] == a;
    assert(all[from + i] == a);
}

proof fn lemma_head_contains(a: Seq<Action>, b: Seq<Action>, x: Action)
    requires
        a.contains(x) || b.contains(x),
    ensures
        (a + b).contains(x),
{
    if a.contains(x) {
        let i = choose|i: int| 0 <= i < a.len() && a[i] == x;
        assert((a + b)[i] == x);
    } else {
        let i = choose|i: int| 0 <= i < b.len() && b[i] == x;
        assert((a + b)[a.len() + i] == x);
    }
}

proof fn lemma_configures(
    all: Seq<Action>,
    outcomes: Seq<Outcome>,
    client4: bool,
    client6: bool,
    store: NetCardStore,
)
    requires
        sets_both(all, outcomes, client4, client6, store),
        forall|i: int| 0 <= i < outcomes.len() ==> !(#[trigger] outcomes[i] is Failed),
    ensures
        configures(all, client4, client6, store.ipv4, store.ipv6),
{
    let (work4, count4, work6, count6) = choose|
        work4: Seq<Action>,
        count4: int,
        work6: Seq<Action>,
        count6: int,
    |
        {
            &&& sets_ipv4(work4, client4, store.ipv4, store.ipv4, store)
            &&& sets_ipv6(work6, client6, store.ipv6, store.ipv6, store)
            &&& #[trigger] carried_out(work4, outcomes, count4)
            &&& #[trigger] carried_out(work6, outcomes.skip(count4), count6)
            &&& all == work4.take(count4) + work6.take(count6)
        };
    let later = outcomes.skip(count4);
    assert(count6 < work6.len() ==> later[count6 - 1] == outcomes[count4 + count6 - 1]);
    assert(work4.take(count4) =~= work4);
    assert(work6.take(count6) =~= work6);
    assert forall|x: Action| work4.contains(x) || work6.contains(x) implies #[trigger] all.contains(
        x,
    ) by {
        lemma_head_contains(work4, work6, x);
    }
}

/// When the link of a card that is switched on comes up and nothing fails, the clients
/// of its configurations are started and what is static is set.
pub proof fn law_relinked_configured(n: NetState, iface: Seq<char>, outcomes: Seq<Outcome>)
    requires
        names_match(n),
        n.cards.contains_key(iface),
        fitting(n, link_event(n, iface, true).1, outcomes),
        run(n, link_event(n, iface, true).1, outcomes).1.steps.len() == 0,
        forall|i: int| 0 <= i < outcomes.len() ==> !(#[trigger] outcomes[i] is Failed),
        n.cards[iface].enabled,
        n.cards[iface].hardware.state != LinkState::Up,
        run(n, link_event(n, iface, true).1, outcomes).0.cards[iface].hardware.state
            == LinkState::Up,
    ensures
        configures(
            asked(n, link_event(n, iface, true).1, outcomes),
            n.dhcp4.contains(iface),
            n.dhcp6.contains(iface),
            n.cards[iface].ipv4,
            n.cards[iface].ipv6,
        ),
{
    law_relinked_done(n, iface, outcomes);
    let all = asked(n, link_event(n, iface, true).1, outcomes);
    let card = n.cards[iface];
    let store = NetCardStore { link_up: card.enabled, ipv4: card.ipv4, ipv6: card.ipv6 };
    let later = outcomes.skip(1);
    assert(!(outcomes[0] is Failed));
    assert forall|i: int| 0 <= i < later.len() implies !(#[trigger] later[i] is Failed) by {
        assert(later[i] == outcomes[i + 1]);
    }
    lemma_configures(
        all.skip(1),
        later,
        n.dhcp4.contains(iface),
        n.dhcp6.contains(iface),
        store,
    );
    assert forall|x: Action| all.skip(1).contains(x) implies #[trigger] all.contains(x) by {
        lemma_tail_contains(all, 1, x);
    }
}

/// When a card is added whose file says that it is switched on, and nothing fails, the
/// clients of its configurations are started and what is static is set.
pub proof fn law_arrived_configured(
    n: NetState,
    iface: Seq<char>,
    j: JobState,
    saved: NetCardStore,
    outcomes: Seq<Outcome>,
)
    requires
        j == job(iface, seq![Step::ReadNew], NoticeState::Quiet) || !n.cards.contains_key(iface)
            && j == link_event(n, iface, true).1,
        fitting(n, j, outcomes),
        run(n, j, outcomes).1.steps.len() == 0,
        forall|i: int| 0 <= i < outcomes.len() ==> !(#[trigger] outcomes[i] is Failed),
        outcomes.len() > 3,
        outcomes[3] == Outcome::Config(Some(saved)),
        saved.link_up,
    ensures
        configures(asked(n, j, outcomes), true, true, saved.ipv4, saved.ipv6),
        asked(n, j, outcomes).contains(Action::SetLink(true)),
{
    law_arrived_done(n, iface, j, outcomes);
    let all = asked(n, j, outcomes);
    assert(!(outcomes[all.len() - 1] is Failed));
    let later = outcomes.skip(4);
    let tail = all.skip(4);
    let switching = seq![Action::SetLink(saved.link_up), Action::SaveConfig(saved)];
    assert(brings_up(tail, later, saved));
    let (count, rest) = choose|count: int, rest: Seq<Action>|
        {
            &&& #[trigger] carried_out(switching, later, count)
            &&& tail == #[trigger] (switching.take(count) + rest)
            &&& if saved.link_up {
                sets_both(rest, later.skip(count), true, true, saved)
            } else {
                rest.len() == 0
            }
        };
    assert(carried_out(switching, later, count));
    assert(count < 2 ==> later[count - 1] == outcomes[4 + count - 1]);
    assert(count == 2);
    let end = later.skip(count);
    assert forall|i: int| 0 <= i < end.len() implies !(#[trigger] end[i] is Failed) by {
        assert(end[i] == outcomes[4 + count + i]);
    }
    lemma_configures(rest, end, true, true, saved);
    assert forall|x: Action| rest.contains(x) implies #[trigger] all.contains(x) by {
        lemma_head_contains(switching.take(count), rest, x);
        lemma_tail_contains(all, 4, x);
    }
    assert(switching.take(count).len() == 2);
    assert(tail.len() >= 2 && tail[0] == switching.take(count)[0]);
    assert(tail.contains(tail[0]));
    lemma_tail_contains(all, 4, Action::SetLink(true));
}

// ---------------------------------------------------------------------------
// Removing a card
// ---------------------------------------------------------------------------

/// Removing a card closes those of its two clients that there are, DHCPv4 first. The
/// job fails where that fails, and asks for no more.
pub proof fn law_gone_done(n: NetState, iface: Seq<char>, outcomes: Seq<Outcome>)
    requires
        ({
            let (n0, j) = link_event(n, iface, false);
            fitting(n0, j, outcomes) && run(n0, j, outcomes).1.steps.len() == 0
        }),
    ensures
        ({
            let (n0, j) = link_event(n, iface, false);
            let (m, k) = run(n0, j, outcomes);
            let all = asked(n0, j, outcomes);
            let client4 = n.dhcp4.contains(iface);
            let client6 = n.dhcp6.contains(iface);
            &&& n0 == NetState { cards: n.cards.remove(iface), ..n }
            &&& ends_at_failure(all, outcomes, k)
            &&& all.contains(Action::CloseDhcp4) <==> client4
            &&& all.contains(Action::CloseDhcp6) ==> client6
            &&& client6 && k.error is None ==> all.contains(Action::CloseDhcp6)
            &&& client4 ==> all[0] == Action::CloseDhcp4
            &&& forall|a: Action| #[trigger]
                all.contains(a) ==> a == Action::CloseDhcp4 || a == Action::CloseDhcp6
            &&& all.no_duplicates()
            &&& m.dhcp4 == n.dhcp4.remove(iface)
            &&& k.error is None ==> m.dhcp6 == n.dhcp6.remove(iface)
        }),
{
    let (n0, j) = link_event(n, iface, false);
    let all = asked(n0, j, outcomes);
    let client4 = n.dhcp4.contains(iface);
    let client6 = n.dhcp6.contains(iface);
    let second = close_plan(false, client6);
    let empty = Seq::<Action>::empty();
    assert(close_plan(false, client6) =~= if client6 {
        seq![Step::Forget6, Step::Must(Action::CloseDhcp6)]
    } else {
        seq![]
    });
    if client4 {
        assert(j.steps =~= seq![Step::Forget4, Step::Must(Action::CloseDhcp4)] + second);
        lemma_book(n0, j, outcomes);
        let (n1, j1) = advanced(n0, j);
        assert(j1.steps =~= seq![Step::Must(Action::CloseDhcp4)] + second);
        lemma_perform(n1, j1, outcomes);
        if outcomes[0] is Failed {
            lemma_gives_up(n1, j1, outcomes);
            assert(all =~= seq![Action::CloseDhcp4]);
            assert(all[0] == Action::CloseDhcp4);
        } else {
            let j2 = completed(n1, j1, outcomes[0]).1;
            assert(j2.steps =~= second);
            let later = outcomes.skip(1);
            lemma_close_second(n1, j2, client6, later);
            let rest = asked(n1, j2, later);
            assert(all =~= seq![Action::CloseDhcp4] + rest);
            assert(all[0] == Action::CloseDhcp4);
            if client6 {
                assert(all[1] == Action::CloseDhcp6);
                assert(later[0] == outcomes[1]);
            }
        }
    } else {
        assert(j.steps =~= second);
        assert(n.dhcp4.remove(iface) =~= n.dhcp4);
        lemma_close_second(n0, j, client6, outcomes);
        if client6 {
            assert(all[0] == Action::CloseDhcp6);
        }
    }
}

proof fn lemma_close_second(n: NetState, j: JobState, client6: bool, outcomes: Seq<Outcome>)
    requires
        j.error is None,
        n.dhcp6.contains(j.iface) == client6,
        j.steps == close_plan(false, client6),
        fitting(n, j, outcomes),
        run(n, j, outcomes).1.steps.len() == 0,
    ensures
        ({
            let (m, k) = run(n, j, outcomes);
            let all = asked(n, j, outcomes);
            &&& all == if client6 {
                seq![Action::CloseDhcp6]
            } else {
                seq![]
            }
            &&& m == NetState { dhcp6: n.dhcp6.remove(j.iface), ..n }
            &&& client6 ==> outcomes.len() > 0
            &&& k.error == if client6 && outcomes[0] is Failed {
                Some(outcomes[0]->Failed_0@)
            } else {
                None
            }
        }),
{
    let all = asked(n, j, outcomes);
    if client6 {
        assert(j.steps =~= seq![Step::Forget6, Step::Must(Action::CloseDhcp6)]);
        lemma_book(n, j, outcomes);
        let (n1, j1) = advanced(n, j);
        assert(j1.steps =~= seq![Step::Must(Action::CloseDhcp6)]);
        lemma_perform(n1, j1, outcomes);
        let (n2, j2) = completed(n1, j1, outcomes[0]);
        if outcomes[0] is Failed {
            lemma_gives_up(n1, j1, outcomes);
        } else {
            assert(j2.steps =~= Seq::<Step>::empty());
            lemma_nothing_left(n2, j2, outcomes.skip(1));
        }
        assert(all =~= seq![Action::CloseDhcp6]);
    } else {
        assert(j.steps =~= Seq::<Step>::empty());
        assert(n.dhcp6.remove(j.iface) =~= n.dhcp6);
        lemma_nothing_left(n, j, outcomes);
    }
}

}
