//! What jobs leave alone: unknown cards, other interfaces, and the clients of cards.
use super::super::{not_cached_text, not_found_text};
use super::super::actor::{
    advanced, apply_plan, booked, completed, fits, ipv4_job, ipv6_job, job, lease4_job, lease6_job,
    link_event, link_job, link_plan, names_match, open_plan, past_part, refused, restore_plan,
    restored_card, wanted, JobState, NetState, NoticeState, Outcome, Step,
};
use super::lives::added;
use super::plans::{
    all_of, lemma_all_of_add, lemma_all_of_opt, lemma_ipv4_plan, lemma_ipv6_plan, lemma_lease4_plan,
    lemma_lease6_plan, lemma_past_part,
};
use super::{fitting, lemma_run_keeps, run};
use crate::{Card, HardwareInfo, Ipv4Info, Ipv6Info};
use vstd::prelude::*;

verus! {

// ---------------------------------------------------------------------------
// Refusal
// ---------------------------------------------------------------------------

/// A command for a card that is not known is refused with an error that names it: no
/// outside work is done and nothing changes.
pub proof fn law_unknown_card_refused(
    n: NetState,
    iface: Seq<char>,
    up: bool,
    ipv4: Ipv4Info,
    ipv6: Ipv6Info,
    outcomes: Seq<Outcome>,
)
    requires
        !n.cards.contains_key(iface),
    ensures
        run(n, link_job(n, iface, up), outcomes) == (n, refused(iface, not_found_text(iface))),
        run(n, ipv4_job(n, iface, ipv4), outcomes) == (n, refused(iface, not_found_text(iface))),
        run(n, ipv6_job(n, iface, ipv6), outcomes) == (n, refused(iface, not_found_text(iface))),
        run(n, lease4_job(n, iface, ipv4), outcomes) == (n, refused(iface, not_cached_text(iface))),
        run(n, lease6_job(n, iface, ipv6), outcomes) == (n, refused(iface, not_cached_text(iface))),
{
    assert(wanted(n, refused(iface, not_found_text(iface))) is None);
    assert(wanted(n, refused(iface, not_cached_text(iface))) is None);
}

// ---------------------------------------------------------------------------
// Isolation
// ---------------------------------------------------------------------------

/// Two states that differ in one interface at most.
pub open spec fn same_elsewhere(a: NetState, b: NetState, iface: Seq<char>) -> bool {
    &&& a.cards.remove(iface) == b.cards.remove(iface)
    &&& a.dhcp4.remove(iface) == b.dhcp4.remove(iface)
    &&& a.dhcp6.remove(iface) == b.dhcp6.remove(iface)
}

/// A job touches only its own interface: every other card and every other client is as
/// it was.
pub proof fn law_isolation(n: NetState, j: JobState, outcomes: Seq<Outcome>)
    requires
        fitting(n, j, outcomes),
    ensures
        same_elsewhere(run(n, j, outcomes).0, n, j.iface),
        run(n, j, outcomes).1.iface == j.iface,
{
    let p = |m: NetState, k: JobState| k.iface == j.iface && same_elsewhere(m, n, j.iface);
    assert forall|m: NetState, k: JobState|
        #![trigger advanced(m, k)]
        p(m, k) && k.steps.len() > 0 && wanted(m, k) is None implies p(
        advanced(m, k).0,
        advanced(m, k).1,
    ) by {
        lemma_booked_elsewhere(m, k.iface, k.steps[0]);
    }
    assert forall|m: NetState, k: JobState, o: Outcome|
        #![trigger completed(m, k, o)]
        p(m, k) && wanted(m, k) is Some && fits(k.steps[0], o) implies p(
        completed(m, k, o).0,
        completed(m, k, o).1,
    ) by {
        let m2 = completed(m, k, o).0;
        assert(m2.cards.remove(k.iface) =~= m.cards.remove(k.iface));
    }
    lemma_run_keeps(p, n, j, outcomes);
}

proof fn lemma_booked_elsewhere(n: NetState, iface: Seq<char>, step: Step)
    ensures
        same_elsewhere(booked(n, iface, step), n, iface),
{
    let m = booked(n, iface, step);
    assert(m.cards.remove(iface) =~= n.cards.remove(iface));
    assert(m.dhcp4.remove(iface) =~= n.dhcp4.remove(iface));
    assert(m.dhcp6.remove(iface) =~= n.dhcp6.remove(iface));
}

/// A link event, too, touches only its own interface.
pub proof fn law_link_event_isolation(n: NetState, iface: Seq<char>, added: bool)
    ensures
        same_elsewhere(link_event(n, iface, added).0, n, iface),
{
    assert(link_event(n, iface, added).0.cards.remove(iface) =~= n.cards.remove(iface));
}

// ---------------------------------------------------------------------------
// Every card has its clients
// ---------------------------------------------------------------------------

/// Each card stands under its own name and has both its DHCP clients.
pub open spec fn clients_match(n: NetState) -> bool {
    &&& names_match(n)
    &&& forall|name: Seq<char>| #[trigger]
        n.cards.contains_key(name) ==> n.dhcp4.contains(name) && n.dhcp6.contains(name)
}

/// A step that neither makes nor removes a card or a client.
pub open spec fn is_plain(step: Step) -> bool {
    !(step is Load || step is Register4 || step is Register6 || step is Forget4 || step is Forget6)
}

/// A step that removes a client.
pub open spec fn is_closing(step: Step) -> bool {
    step is Forget4 || step is Forget6 || step is Must
}

/// Where in the opening of a card a job is.
pub open spec fn opening_at(n: NetState, j: JobState, hardware: HardwareInfo, k: int) -> bool {
    &&& 0 <= k <= 5
    &&& j.steps == open_plan(hardware).skip(k)
    &&& k >= 2 ==> n.dhcp4.contains(j.iface)
    &&& k >= 4 ==> n.dhcp6.contains(j.iface)
}

/// What a job has still to do leaves every card its clients.
pub open spec fn sound(n: NetState, j: JobState) -> bool {
    ||| all_of(j.steps, |s: Step| is_plain(s))
    ||| exists|hardware: HardwareInfo, k: int| opening_at(n, j, hardware, k)
    ||| !n.cards.contains_key(j.iface) && all_of(j.steps, |s: Step| is_closing(s))
}

/// The plans of known cards make and remove neither cards nor clients.
proof fn lemma_apply_plain(n: NetState, card: Card)
    ensures
        all_of(apply_plan(n, card), |s: Step| is_plain(s)),
        forall|saved: bool| all_of(#[trigger] restore_plan(n, card, saved), |s: Step| is_plain(s)),
{
    broadcast use {lemma_all_of_add, lemma_all_of_opt};

    let p = |s: Step| is_plain(s);
    lemma_ipv4_plan(n.dhcp4.contains(card.name), card.ipv4, card.ipv4, p);
    lemma_ipv6_plan(n.dhcp6.contains(card.name), card.ipv6, card.ipv6, p);
    assert(all_of(seq![Step::EndPart], p));
    assert(all_of(link_plan(card.enabled), p));
    assert(all_of(Seq::<Step>::empty(), p));
}

proof fn lemma_sound_booking(n: NetState, j: JobState)
    requires
        clients_match(n),
        sound(n, j),
        j.steps.len() > 0,
        wanted(n, j) is None,
    ensures
        clients_match(advanced(n, j).0),
        sound(advanced(n, j).0, advanced(n, j).1),
{
    let (m, k) = advanced(n, j);
    if all_of(j.steps, |s: Step| is_plain(s)) {
        assert(is_plain(j.steps[0]));
    } else if exists|hardware: HardwareInfo, i: int| opening_at(n, j, hardware, i) {
        let (hardware, i) = choose|hardware: HardwareInfo, i: int| opening_at(n, j, hardware, i);
        assert(j.steps[0] == open_plan(hardware)[i]);
        assert(j.steps.drop_first() =~= open_plan(hardware).skip(i + 1));
        assert(opening_at(m, k, hardware, i + 1));
    } else {
        assert(is_closing(j.steps[0]));
    }
}

proof fn lemma_sound_work(n: NetState, j: JobState, o: Outcome)
    requires
        clients_match(n),
        sound(n, j),
        wanted(n, j) is Some,
        fits(j.steps[0], o),
    ensures
        clients_match(completed(n, j, o).0),
        sound(completed(n, j, o).0, completed(n, j, o).1),
{
    let (m, k) = completed(n, j, o);
    let i0 = lemma_past_part(j.steps);
    if all_of(j.steps, |s: Step| is_plain(s)) {
        assert(is_plain(j.steps[0]));
        match o {
            Outcome::Hardware(hardware) => {
                if j.steps[0] is ReadNew {
                    assert(k.steps =~= open_plan(hardware).skip(0));
                    assert(opening_at(m, k, hardware, 0));
                } else if n.cards.contains_key(j.iface) {
                    lemma_apply_plain(n, Card { hardware, ..n.cards[j.iface] });
                }
            },
            _ => {},
        }
    } else if exists|hardware: HardwareInfo, i: int| opening_at(n, j, hardware, i) {
        let (hardware, i) = choose|hardware: HardwareInfo, i: int| opening_at(n, j, hardware, i);
        assert(j.steps[0] == open_plan(hardware)[i]);
        assert(j.steps.drop_first() =~= open_plan(hardware).skip(i + 1));
        match o {
            Outcome::Done => {
                assert(opening_at(m, k, hardware, i + 1));
            },
            Outcome::Failed(_) => {
                assert(past_part(j.steps) is None);
                assert(k.steps.len() == 0);
            },
            Outcome::Config(saved) => {
                assert(i == 4);
                let card = restored_card(j.iface, hardware, saved);
                lemma_apply_plain(n, card);
            },
            Outcome::Hardware(_) => {},
        }
    } else {
        assert(is_closing(j.steps[0]));
    }
}

/// From a state in which every card has its clients, with a job that is sound, every
/// run leads to such a state again.
pub proof fn law_clients_kept(n: NetState, j: JobState, outcomes: Seq<Outcome>)
    requires
        clients_match(n),
        sound(n, j),
        fitting(n, j, outcomes),
    ensures
        clients_match(run(n, j, outcomes).0),
{
    let p = |m: NetState, k: JobState| clients_match(m) && sound(m, k);
    assert forall|m: NetState, k: JobState|
        #![trigger advanced(m, k)]
        p(m, k) && k.steps.len() > 0 && wanted(m, k) is None implies p(
        advanced(m, k).0,
        advanced(m, k).1,
    ) by {
        lemma_sound_booking(m, k);
    }
    assert forall|m: NetState, k: JobState, o: Outcome|
        #![trigger completed(m, k, o)]
        p(m, k) && wanted(m, k) is Some && fits(k.steps[0], o) implies p(
        completed(m, k, o).0,
        completed(m, k, o).1,
    ) by {
        lemma_sound_work(m, k, o);
    }
    lemma_run_keeps(p, n, j, outcomes);
}

/// Every job that the manager starts is sound, and taking in a link event leaves every
/// card its clients.
pub proof fn law_jobs_sound(
    n: NetState,
    iface: Seq<char>,
    up: bool,
    ipv4: Ipv4Info,
    ipv6: Ipv6Info,
    notice: NoticeState,
)
    requires
        clients_match(n),
    ensures
        sound(n, job(iface, seq![Step::ReadNew], notice)),
        sound(n, link_job(n, iface, up)),
        sound(n, ipv4_job(n, iface, ipv4)),
        sound(n, ipv6_job(n, iface, ipv6)),
        sound(n, lease4_job(n, iface, ipv4)),
        sound(n, lease6_job(n, iface, ipv6)),
        sound(link_event(n, iface, up).0, link_event(n, iface, up).1),
        clients_match(link_event(n, iface, up).0),
{
    let p = |s: Step| is_plain(s);
    if n.cards.contains_key(iface) {
        let card = n.cards[iface];
        lemma_ipv4_plan(n.dhcp4.contains(iface), card.ipv4, ipv4, p);
        lemma_ipv6_plan(n.dhcp6.contains(iface), card.ipv6, ipv6, p);
        lemma_lease4_plan(card.ipv4, ipv4, p);
        lemma_lease6_plan(card.ipv6, ipv6, p);
    }
}

}
