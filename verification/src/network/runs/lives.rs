//! How cards come, come back and go.
use super::super::CardEvent;
use super::super::actor::{
    advanced, apply_plan, booked_card, close_plan, completed, event_of, fits, job, link_event,
    link_plan, names_match, open_plan, past_part, restore_plan, restored_card, store_of, wanted,
    Action, JobState, NetState, NoticeState, Outcome, Step,
};
use super::super::persist::NetCardStore;
use super::clients::{is_closing, opening_at};
use super::plans::{
    all_of, lemma_all_of_add, lemma_all_of_opt, lemma_ipv4_plan, lemma_ipv6_plan, lemma_past_part,
};
use super::records::is_straight;
use super::requests::{asked, asks, lemma_asked};
use super::{fitting, lemma_run_keeps, run, succeeded};
use crate::{Card, HardwareInfo, LinkState};
use vstd::prelude::*;

verus! {

// ---------------------------------------------------------------------------
// Restoring and reapplying
// ---------------------------------------------------------------------------

/// A card that is written to disk and read back is the same card, whatever hardware it
/// is found with.
pub proof fn law_saved_card_restored(card: Card, hardware: HardwareInfo)
    ensures
        restored_card(card.name, hardware, Some(store_of(card))) == (Card { hardware, ..card }),
{
}

/// A step of a part that leaves the record of `card` as it is.
pub open spec fn keeps_card(card: Card, step: Step) -> bool {
    &&& is_straight(step) || step is EndPart
    &&& booked_card(card, step) == card
}

/// A job in parts that leave the record of the card as it is.
pub open spec fn in_parts(n: NetState, j: JobState) -> bool {
    &&& j.error is None
    &&& n.cards.contains_key(j.iface)
    &&& all_of(j.steps, |s: Step| keeps_card(n.cards[j.iface], s))
    &&& j.steps.len() > 0 ==> j.steps.last() is EndPart
}

/// A job in parts changes nothing that is known, and does not fail.
proof fn lemma_in_parts_run(n: NetState, j: JobState, outcomes: Seq<Outcome>)
    requires
        in_parts(n, j),
        fitting(n, j, outcomes),
    ensures
        run(n, j, outcomes).0 == n,
        run(n, j, outcomes).1.error is None,
{
    let p = |m: NetState, k: JobState| m == n && k.iface == j.iface && in_parts(n, k);
    assert forall|m: NetState, k: JobState|
        #![trigger advanced(m, k)]
        p(m, k) && k.steps.len() > 0 && wanted(m, k) is None implies p(
        advanced(m, k).0,
        advanced(m, k).1,
    ) by {
        assert(keeps_card(n.cards[k.iface], k.steps[0]));
        assert(advanced(m, k).0.cards =~= n.cards);
        let rest = k.steps.drop_first();
        assert forall|i: int| 0 <= i < rest.len() implies keeps_card(
            n.cards[k.iface],
            #[trigger] rest[i],
        ) by {
            assert(rest[i] == k.steps[i + 1]);
        }
    }
    assert forall|m: NetState, k: JobState, o: Outcome|
        #![trigger completed(m, k, o)]
        p(m, k) && wanted(m, k) is Some && fits(k.steps[0], o) implies p(
        completed(m, k, o).0,
        completed(m, k, o).1,
    ) by {
        assert(keeps_card(n.cards[k.iface], k.steps[0]));
        let i = lemma_past_part(k.steps);
        assert(k.steps[k.steps.len() - 1] is EndPart);
        let rest = completed(m, k, o).1.steps;
        let from = if rest == k.steps.drop_first() {
            1int
        } else {
            i
        };
        assert(rest =~= k.steps.skip(from));
        assert forall|i: int| 0 <= i < rest.len() implies keeps_card(
            n.cards[k.iface],
            #[trigger] rest[i],
        ) by {
            assert(rest[i] == k.steps[i + from]);
        }
    }
    lemma_run_keeps(p, n, j, outcomes);
}

proof fn lemma_apply_in_parts(n: NetState, card: Card, saved: bool)
    ensures
        all_of(apply_plan(n, card), |s: Step| keeps_card(card, s)),
        apply_plan(n, card).len() > 0 && apply_plan(n, card).last() is EndPart,
        all_of(restore_plan(n, card, saved), |s: Step| keeps_card(card, s)),
        restore_plan(n, card, saved).len() > 0 ==> restore_plan(n, card, saved).last() is EndPart,
{
    broadcast use {lemma_all_of_add, lemma_all_of_opt};

    let p = |s: Step| keeps_card(card, s);
    lemma_ipv4_plan(n.dhcp4.contains(card.name), card.ipv4, card.ipv4, p);
    lemma_ipv6_plan(n.dhcp6.contains(card.name), card.ipv6, card.ipv6, p);
    assert(all_of(seq![Step::EndPart], p));
    assert(all_of(link_plan(card.enabled), p));
    assert(all_of(Seq::<Step>::empty(), p));
}

/// When a card is made of its hardware and of what was on disk, that is its record at
/// once, and what is then done to apply it neither changes the record nor fails the
/// job.
pub proof fn law_restored(
    n: NetState,
    j: JobState,
    hardware: HardwareInfo,
    saved: Option<NetCardStore>,
    outcomes: Seq<Outcome>,
)
    requires
        j.steps == seq![Step::Load(hardware)],
        j.error is None,
        fitting(n, j, seq![Outcome::Config(saved)] + outcomes),
    ensures
        ({
            let (m, k) = run(n, j, seq![Outcome::Config(saved)] + outcomes);
            &&& m == NetState {
                cards: n.cards.insert(j.iface, restored_card(j.iface, hardware, saved)),
                ..n
            }
            &&& k.error is None
        }),
{
    let all = seq![Outcome::Config(saved)] + outcomes;
    assert(all.drop_first() =~= outcomes);
    let (m, k) = completed(n, j, Outcome::Config(saved));
    lemma_apply_in_parts(n, restored_card(j.iface, hardware, saved), saved is Some);
    lemma_in_parts_run(m, k, outcomes);
}

/// A card that was switched off, or of which nothing is on disk, is not configured:
/// behind the reading of its file, at most its link is taken down and its file written.
pub proof fn law_disabled_card_not_configured(
    n: NetState,
    j: JobState,
    hardware: HardwareInfo,
    saved: Option<NetCardStore>,
    outcomes: Seq<Outcome>,
)
    requires
        j.steps == seq![Step::Load(hardware)],
        saved matches Some(s) ==> !s.link_up,
        fitting(n, j, seq![Outcome::Config(saved)] + outcomes),
    ensures
        ({
            let all = asked(n, j, seq![Outcome::Config(saved)] + outcomes);
            &&& all.len() > 0 && all[0] == Action::LoadConfig
            &&& forall|i: int|
                0 < i < all.len() ==> saved is Some && (#[trigger] all[i] == Action::SetLink(false)
                    || all[i] is SaveConfig)
        }),
{
    broadcast use lemma_all_of_add;

    let first = seq![Outcome::Config(saved)] + outcomes;
    assert(first.drop_first() =~= outcomes);
    let (m, k) = completed(n, j, Outcome::Config(saved));
    let q = |a: Action| saved is Some && (a == Action::SetLink(false) || a is SaveConfig);
    let p = |s: Step| asks(s, q);
    assert(all_of(Seq::<Step>::empty(), p));
    if saved is Some {
        assert(all_of(link_plan(false), p));
        assert(all_of(seq![Step::EndPart], p));
    }
    lemma_asked(m, k, outcomes, q);
    let all = asked(n, j, first);
    assert forall|i: int| 0 < i < all.len() implies q(#[trigger] all[i]) by {
        assert(all[i] == asked(m, k, outcomes)[i - 1]);
    }
}

/// When the hardware of a known card is read anew, the record changes in that alone.
/// If the link has come up and the card is switched on, both configurations are
/// applied anew, which changes nothing else and does not fail the job; in every other
/// case nothing is done.
pub proof fn law_reapplied(
    n: NetState,
    j: JobState,
    hardware: HardwareInfo,
    outcomes: Seq<Outcome>,
)
    requires
        names_match(n),
        n.cards.contains_key(j.iface),
        j.steps == seq![Step::ReadChanged],
        j.error is None,
        fitting(n, j, seq![Outcome::Hardware(hardware)] + outcomes),
    ensures
        ({
            let old = n.cards[j.iface];
            let card = Card { hardware, ..old };
            let (m, k) = run(n, j, seq![Outcome::Hardware(hardware)] + outcomes);
            &&& m == NetState { cards: n.cards.insert(j.iface, card), ..n }
            &&& k.error is None
            &&& completed(n, j, Outcome::Hardware(hardware)).1.steps == if old.enabled
                && old.hardware.state != LinkState::Up && hardware.state == LinkState::Up {
                apply_plan(n, card)
            } else {
                seq![]
            }
        }),
{
    let all = seq![Outcome::Hardware(hardware)] + outcomes;
    assert(all.drop_first() =~= outcomes);
    let (m, k) = completed(n, j, Outcome::Hardware(hardware));
    lemma_apply_in_parts(n, Card { hardware, ..n.cards[j.iface] }, true);
    lemma_in_parts_run(m, k, outcomes);
}

// ---------------------------------------------------------------------------
// Adding and removing
// ---------------------------------------------------------------------------

/// Where the adding of a card is.
pub open spec fn adding(n: NetState, iface: Seq<char>, m: NetState, k: JobState) -> bool {
    ||| k.error is Some && k.steps.len() == 0 && m.cards == n.cards
    ||| k.error is None && k.steps == seq![Step::ReadNew] && m.cards == n.cards
    ||| k.error is None && m.cards == n.cards && exists|hardware: HardwareInfo, i: int|
        i < 5 && opening_at(m, k, hardware, i)
    ||| in_parts(m, k) && added(n, iface, m)
}

/// A card has been added, with its record as restored and with its clients.
pub open spec fn added(n: NetState, iface: Seq<char>, m: NetState) -> bool {
    &&& m.dhcp4.contains(iface) && m.dhcp6.contains(iface)
    &&& exists|hardware: HardwareInfo, saved: Option<NetCardStore>|
        m.cards == n.cards.insert(iface, #[trigger] restored_card(iface, hardware, saved))
}

/// Adding a card either fails, and then there is no new card, or leads to the card that
/// its hardware and its file make, with both its clients.
pub proof fn law_added(n: NetState, iface: Seq<char>, notice: NoticeState, outcomes: Seq<Outcome>)
    requires
        fitting(n, job(iface, seq![Step::ReadNew], notice), outcomes),
    ensures
        ({
            let (m, k) = run(n, job(iface, seq![Step::ReadNew], notice), outcomes);
            &&& m.cards == n.cards || added(n, iface, m)
            &&& k.error is Some ==> m.cards == n.cards
            &&& succeeded(k) ==> added(n, iface, m)
        }),
{
    let j = job(iface, seq![Step::ReadNew], notice);
    let p = |m: NetState, k: JobState| k.iface == iface && adding(n, iface, m, k);
    assert forall|m: NetState, k: JobState|
        #![trigger advanced(m, k)]
        p(m, k) && k.steps.len() > 0 && wanted(m, k) is None implies p(
        advanced(m, k).0,
        advanced(m, k).1,
    ) by {
        lemma_adding_booking(n, m, k);
    }
    assert forall|m: NetState, k: JobState, o: Outcome|
        #![trigger completed(m, k, o)]
        p(m, k) && wanted(m, k) is Some && fits(k.steps[0], o) implies p(
        completed(m, k, o).0,
        completed(m, k, o).1,
    ) by {
        lemma_adding_work(n, m, k, o);
    }
    lemma_run_keeps(p, n, j, outcomes);
}

proof fn lemma_adding_booking(n: NetState, m: NetState, k: JobState)
    requires
        adding(n, k.iface, m, k),
        k.steps.len() > 0,
        wanted(m, k) is None,
    ensures
        adding(n, k.iface, advanced(m, k).0, advanced(m, k).1),
{
    let (m2, k2) = advanced(m, k);
    if exists|hardware: HardwareInfo, i: int| i < 5 && opening_at(m, k, hardware, i) {
        let (hardware, i) = choose|hardware: HardwareInfo, i: int|
            i < 5 && opening_at(m, k, hardware, i);
        assert(k.steps[0] == open_plan(hardware)[i]);
        assert(k2.steps =~= open_plan(hardware).skip(i + 1));
        assert(opening_at(m2, k2, hardware, i + 1));
    } else {
        assert(keeps_card(m.cards[k.iface], k.steps[0]));
        assert(m2.cards =~= m.cards);
        assert forall|i: int| 0 <= i < k2.steps.len() implies keeps_card(
            m.cards[k.iface],
            #[trigger] k2.steps[i],
        ) by {
            assert(k2.steps[i] == k.steps[i + 1]);
        }
    }
}

proof fn lemma_adding_work(n: NetState, m: NetState, k: JobState, o: Outcome)
    requires
        adding(n, k.iface, m, k),
        wanted(m, k) is Some,
        fits(k.steps[0], o),
    ensures
        adding(n, k.iface, completed(m, k, o).0, completed(m, k, o).1),
{
    let (m2, k2) = completed(m, k, o);
    let i0 = lemma_past_part(k.steps);
    if k.error is None && k.steps == seq![Step::ReadNew] && m.cards == n.cards {
        match o {
            Outcome::Hardware(hardware) => {
                assert(k2.steps =~= open_plan(hardware).skip(0));
                assert(opening_at(m2, k2, hardware, 0));
            },
            _ => {
                assert(past_part(k.steps) is None);
            },
        }
    } else if exists|hardware: HardwareInfo, i: int| i < 5 && opening_at(m, k, hardware, i) {
        let (hardware, i) = choose|hardware: HardwareInfo, i: int|
            i < 5 && opening_at(m, k, hardware, i);
        assert(k.steps[0] == open_plan(hardware)[i]);
        assert(k.steps.drop_first() =~= open_plan(hardware).skip(i + 1));
        match o {
            Outcome::Done => {
                assert(opening_at(m2, k2, hardware, i + 1));
            },
            Outcome::Failed(_) => {
                assert(past_part(k.steps) is None);
            },
            Outcome::Config(saved) => {
                assert(i == 4);
                lemma_apply_in_parts(
                    m,
                    restored_card(k.iface, hardware, saved),
                    saved is Some,
                );
            },
            Outcome::Hardware(_) => {},
        }
    } else {
        assert(keeps_card(m.cards[k.iface], k.steps[0]));
        assert(k.steps[k.steps.len() - 1] is EndPart);
        let from = if k2.steps == k.steps.drop_first() {
            1int
        } else {
            i0
        };
        assert(k2.steps =~= k.steps.skip(from));
        assert forall|i: int| 0 <= i < k2.steps.len() implies keeps_card(
            m.cards[k.iface],
            #[trigger] k2.steps[i],
        ) by {
            assert(k2.steps[i] == k.steps[i + from]);
        }
    }
}

/// Where the removal of a card is: a client that is still known is still to be closed.
pub open spec fn removing(n: NetState, m: NetState, k: JobState) -> bool {
    &&& m.cards == n.cards
    &&& all_of(k.steps, |s: Step| is_closing(s))
    &&& k.error is None && m.dhcp4.contains(k.iface) ==> k.steps.contains(Step::Forget4)
    &&& k.error is None && m.dhcp6.contains(k.iface) ==> k.steps.contains(Step::Forget6)
    &&& k.error is Some ==> k.steps.len() == 0
}

/// When a link is gone its card is gone at once, and no other. When the job has
/// succeeded its clients are gone too, and the card that there was is reported.
pub proof fn law_removed(n: NetState, iface: Seq<char>, outcomes: Seq<Outcome>)
    requires
        fitting(link_event(n, iface, false).0, link_event(n, iface, false).1, outcomes),
    ensures
        ({
            let (m, k) = run(
                link_event(n, iface, false).0,
                link_event(n, iface, false).1,
                outcomes,
            );
            &&& m.cards == n.cards.remove(iface)
            &&& succeeded(k) ==> !m.dhcp4.contains(iface) && !m.dhcp6.contains(iface)
            &&& event_of(m, k) == if n.cards.contains_key(iface) {
                Some(CardEvent::Removed(n.cards[iface]))
            } else {
                None
            }
        }),
{
    broadcast use lemma_all_of_add;

    let (n0, j) = link_event(n, iface, false);
    let p = |m: NetState, k: JobState|
        k.iface == iface && k.notice == j.notice && removing(n0, m, k);
    assert forall|m: NetState, k: JobState|
        #![trigger advanced(m, k)]
        p(m, k) && k.steps.len() > 0 && wanted(m, k) is None implies p(
        advanced(m, k).0,
        advanced(m, k).1,
    ) by {
        assert(is_closing(k.steps[0]));
        let rest = k.steps.drop_first();
        assert(k.steps =~= seq![k.steps[0]] + rest);
        assert forall|i: int| 0 <= i < rest.len() implies is_closing(#[trigger] rest[i]) by {
            assert(rest[i] == k.steps[i + 1]);
        }
        lemma_contains_first(k.steps, Step::Forget4);
        lemma_contains_first(k.steps, Step::Forget6);
    }
    assert forall|m: NetState, k: JobState, o: Outcome|
        #![trigger completed(m, k, o)]
        p(m, k) && wanted(m, k) is Some && fits(k.steps[0], o) implies p(
        completed(m, k, o).0,
        completed(m, k, o).1,
    ) by {
        assert(is_closing(k.steps[0]));
        let i = lemma_past_part(k.steps);
        assert(past_part(k.steps) is None) by {
            if past_part(k.steps) is Some {
                assert(is_closing(k.steps[i - 1]));
            }
        }
        let rest = k.steps.drop_first();
        assert forall|i: int| 0 <= i < rest.len() implies is_closing(#[trigger] rest[i]) by {
            assert(rest[i] == k.steps[i + 1]);
        }
        lemma_contains_first(k.steps, Step::Forget4);
        lemma_contains_first(k.steps, Step::Forget6);
    }
    let c4 = n.dhcp4.contains(iface);
    let plan = close_plan(c4, n.dhcp6.contains(iface));
    if c4 {
        assert(plan[0] == Step::Forget4);
    }
    if n.dhcp6.contains(iface) {
        assert(plan[plan.len() - 2] == Step::Forget6);
    }
    lemma_run_keeps(p, n0, j, outcomes);
}

proof fn lemma_contains_first(steps: Seq<Step>, s: Step)
    requires
        steps.len() > 0,
    ensures
        steps.contains(s) && steps[0] != s ==> steps.drop_first().contains(s),
{
    if steps.contains(s) && steps[0] != s {
        let i = choose|i: int| 0 <= i < steps.len() && steps[i] == s;
        assert(steps.drop_first()[i - 1] == s);
    }
}

}
