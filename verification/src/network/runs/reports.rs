//! What the end of a job is answered with and reported by.
use super::super::actor::{
    advanced, card_answer, completed, fits, ipv4_job, ipv6_job, job, lease4_job, lease6_job,
    link_event, link_job, names_match, next_is, settled, wanted, JobState, NetState, Next,
    NoticeState, Outcome, Step,
};
use super::super::{CardEvent, NetError};
use super::arrivals::{law_arrived_done, law_relinked_done};
use super::records::{law_lease4, law_lease6};
use super::requests::asked;
use super::{fitting, lemma_run_keeps, run, succeeded};
use crate::{Ipv4Info, Ipv6Info, NetCardInfo};
use vstd::prelude::*;

verus! {

/// The end of a job that has failed is answered with its message.
pub open spec fn answers_failure(next: Next, message: Seq<char>) -> bool {
    next matches Next::Finished(Err(e)) && e@ == message
}

/// The end of a job that has not failed is reported by this event, or by none.
pub open spec fn reports(next: Next, event: Option<CardEvent>) -> bool {
    match event {
        None => next matches Next::Finished(Ok(None)),
        Some(event) => next matches Next::Finished(Ok(Some(e))) && e@ == event,
    }
}

proof fn lemma_notice_kept(n: NetState, j: JobState, outcomes: Seq<Outcome>)
    requires
        fitting(n, j, outcomes),
    ensures
        run(n, j, outcomes).1.notice == j.notice,
        run(n, j, outcomes).1.iface == j.iface,
{
    let p = |m: NetState, k: JobState| k.notice == j.notice && k.iface == j.iface;
    assert forall|m: NetState, k: JobState|
        #![trigger advanced(m, k)]
        p(m, k) && k.steps.len() > 0 && wanted(m, k) is None implies p(
        advanced(m, k).0,
        advanced(m, k).1,
    ) by {}
    assert forall|m: NetState, k: JobState, o: Outcome|
        #![trigger completed(m, k, o)]
        p(m, k) && wanted(m, k) is Some && fits(k.steps[0], o) implies p(
        completed(m, k, o).0,
        completed(m, k, o).1,
    ) by {}
    lemma_run_keeps(p, n, j, outcomes);
}

/// Whatever `poll` says of a job, it says the message of a failure where there is one,
/// the next piece of work where there is one, and nothing else that could be done.
pub proof fn law_told(n: NetState, j: JobState, next: Next)
    requires
        next_is(n, j, next),
    ensures
        next matches Next::Perform(action) ==> wanted(n, j) == Some(action) && j.steps.len() > 0,
        next is Finished <==> j.steps.len() == 0,
        next is Finished && j.error is Some ==> answers_failure(next, j.error->Some_0),
        next is Finished && j.error is None ==> next->Finished_0 is Ok,
{
}

/// Switching a card and giving it a configuration are answered without an event.
pub proof fn law_settings_reported(
    n: NetState,
    iface: Seq<char>,
    up: bool,
    ipv4: Ipv4Info,
    ipv6: Ipv6Info,
    j: JobState,
    outcomes: Seq<Outcome>,
    next: Next,
)
    requires
        n.cards.contains_key(iface),
        j == link_job(n, iface, up) || j == ipv4_job(n, iface, ipv4) || j == ipv6_job(
            n,
            iface,
            ipv6,
        ),
        fitting(n, j, outcomes),
        succeeded(run(n, j, outcomes).1),
        next_is(run(n, j, outcomes).0, run(n, j, outcomes).1, next),
    ensures
        reports(next, None),
{
    lemma_notice_kept(n, j, outcomes);
}

/// A lease that has been taken in is reported as a change of the card, with the card as
/// it is then.
pub proof fn law_lease_reported(
    n: NetState,
    iface: Seq<char>,
    ipv4: Ipv4Info,
    ipv6: Ipv6Info,
    j: JobState,
    outcomes: Seq<Outcome>,
    next: Next,
)
    requires
        n.cards.contains_key(iface),
        j == lease4_job(n, iface, ipv4) || j == lease6_job(n, iface, ipv6),
        fitting(n, j, outcomes),
        succeeded(run(n, j, outcomes).1),
        next_is(run(n, j, outcomes).0, run(n, j, outcomes).1, next),
    ensures
        reports(next, Some(CardEvent::Changed(run(n, j, outcomes).0.cards[iface]))),
{
    lemma_notice_kept(n, j, outcomes);
    if j == lease4_job(n, iface, ipv4) {
        law_lease4(n, iface, ipv4, outcomes);
    } else {
        law_lease6(n, iface, ipv6, outcomes);
    }
    assert(run(n, j, outcomes).0.cards.contains_key(iface));
}

/// A link that appears is reported as a new card, and one of a card that is known as a
/// change of it, each with the card as it is then. A card that is added at the start is
/// not reported.
pub proof fn law_arrival_reported(
    n: NetState,
    iface: Seq<char>,
    j: JobState,
    outcomes: Seq<Outcome>,
    next: Next,
)
    requires
        names_match(n),
        j == job(iface, seq![Step::ReadNew], NoticeState::Quiet) || j == link_event(
            n,
            iface,
            true,
        ).1,
        fitting(n, j, outcomes),
        succeeded(run(n, j, outcomes).1),
        next_is(run(n, j, outcomes).0, run(n, j, outcomes).1, next),
    ensures
        ({
            let card = run(n, j, outcomes).0.cards[iface];
            &&& j == link_event(n, iface, true).1 && !n.cards.contains_key(iface) ==> reports(
                next,
                Some(CardEvent::Added(card)),
            )
            &&& j == link_event(n, iface, true).1 && n.cards.contains_key(iface) ==> reports(
                next,
                Some(CardEvent::Changed(card)),
            )
            &&& j == job(iface, seq![Step::ReadNew], NoticeState::Quiet) ==> reports(next, None)
        }),
{
    lemma_notice_kept(n, j, outcomes);
    if j == link_event(n, iface, true).1 && n.cards.contains_key(iface) {
        law_relinked_done(n, iface, outcomes);
    } else {
        law_arrived_done(n, iface, j, outcomes);
    }
}

/// A link that has gone is reported as the removal of the card that there was, as it
/// was, or not at all if there was none.
pub proof fn law_removal_reported(
    n: NetState,
    iface: Seq<char>,
    outcomes: Seq<Outcome>,
    next: Next,
)
    requires
        ({
            let (n0, j) = link_event(n, iface, false);
            let (m, k) = run(n0, j, outcomes);
            fitting(n0, j, outcomes) && succeeded(k) && next_is(m, k, next)
        }),
    ensures
        n.cards.contains_key(iface) ==> reports(next, Some(CardEvent::Removed(n.cards[iface]))),
        !n.cards.contains_key(iface) ==> reports(next, None),
{
    let (n0, j) = link_event(n, iface, false);
    lemma_notice_kept(n0, j, outcomes);
}

/// A command for a card that is not known is answered with a message that names the
/// card, and no work is asked for; so is a lease.
pub proof fn law_unknown_card_told(
    n: NetState,
    iface: Seq<char>,
    up: bool,
    ipv4: Ipv4Info,
    ipv6: Ipv6Info,
    j: JobState,
    outcomes: Seq<Outcome>,
    next: Next,
)
    requires
        !n.cards.contains_key(iface),
        ({
            ||| j == link_job(n, iface, up)
            ||| j == ipv4_job(n, iface, ipv4)
            ||| j == ipv6_job(n, iface, ipv6)
            ||| j == lease4_job(n, iface, ipv4)
            ||| j == lease6_job(n, iface, ipv6)
        }),
        next_is(run(n, j, outcomes).0, run(n, j, outcomes).1, next),
    ensures
        run(n, j, outcomes).0 == n,
        asked(n, j, outcomes).len() == 0,
        answers_failure(next, "Interface '"@ + iface + "' not found"@) || answers_failure(
            next,
            "Interface "@ + iface + " not found in cache"@,
        ),
        j == link_job(n, iface, up) || j == ipv4_job(n, iface, ipv4) || j == ipv6_job(
            n,
            iface,
            ipv6,
        ) ==> answers_failure(next, "Interface '"@ + iface + "' not found"@),
{
    assert(j.steps.len() == 0);
    assert(wanted(n, j) is None);
    assert(settled(n, j) == (n, j));
}

/// The card of a name is answered with that card, as it is known, or, where there is
/// none, with a message that names it.
pub proof fn law_card_told(n: NetState, iface: Seq<char>, r: Result<NetCardInfo, NetError>)
    requires
        card_answer(n, iface, r),
    ensures
        match r {
            Ok(card) => n.cards.contains_key(iface) && card@ == n.cards[iface],
            Err(e) => !n.cards.contains_key(iface) && e@ == "Interface '"@ + iface
                + "' not found"@,
        },
{
}

}
