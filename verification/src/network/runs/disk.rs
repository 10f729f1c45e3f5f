//! What jobs leave on disk.
use super::super::actor::{
    advanced, completed, ipv4_job, ipv6_job, lease4_job, lease6_job, link_job, link_plan, past_part,
    restored_card, settled, store_of, wanted, Action, JobState, NetState, Outcome, Step,
};
use super::super::persist::NetCardStore;
use super::plans::{
    all_of, lemma_ipv4_plan, lemma_ipv6_plan, lemma_lease4_plan, lemma_lease6_plan, lemma_past_part,
};
use super::records::is_straight;
use super::{fitting, lemma_ended, lemma_settled, run, succeeded};
use crate::{Ipv4Info, Ipv6Info};
use vstd::prelude::*;

verus! {

/// What a run asks to be written to disk, in order.
pub open spec fn saves(n: NetState, j: JobState, outcomes: Seq<Outcome>) -> Seq<NetCardStore>
    decreases outcomes.len(),
{
    let (n1, j1) = settled(n, j);
    if outcomes.len() == 0 {
        seq![]
    } else {
        match wanted(n1, j1) {
            None => seq![],
            Some(action) => {
                let (n2, j2) = completed(n1, j1, outcomes[0]);
                let rest = saves(n2, j2, outcomes.drop_first());
                match action {
                    Action::SaveConfig(store) => seq![store] + rest,
                    _ => rest,
                }
            },
        }
    }
}

/// A job of straight steps for a known card, with the writing of its file last.
pub open spec fn saves_last(n: NetState, j: JobState) -> bool {
    &&& n.cards.contains_key(j.iface)
    &&& j.error is None
    &&& all_of(j.steps, |s: Step| is_straight(s))
    &&& j.steps.len() > 0
    &&& j.steps.last() is Save
}

proof fn lemma_saves_last_settled(n: NetState, j: JobState)
    requires
        saves_last(n, j),
    ensures
        saves_last(settled(n, j).0, settled(n, j).1),
        settled(n, j).1.iface == j.iface,
    decreases j.steps.len(),
{
    if wanted(n, j) is None {
        assert(is_straight(j.steps[0]));
        assert(j.steps[j.steps.len() - 1] is Save);
        let (m, k) = advanced(n, j);
        assert forall|i: int| 0 <= i < k.steps.len() implies is_straight(#[trigger] k.steps[i]) by {
            assert(k.steps[i] == j.steps[i + 1]);
        }
        lemma_saves_last_settled(m, k);
    }
}

/// What such a job has written last, when it has succeeded, is what is known of the
/// card.
proof fn lemma_last_save(n: NetState, j: JobState, outcomes: Seq<Outcome>)
    requires
        saves_last(n, j),
        fitting(n, j, outcomes),
    ensures
        ({
            let (m, k) = run(n, j, outcomes);
            succeeded(k) ==> saves(n, j, outcomes).len() > 0 && m.cards.contains_key(j.iface)
                && saves(n, j, outcomes).last() == store_of(m.cards[j.iface])
        }),
    decreases outcomes.len(),
{
    lemma_settled(n, j);
    lemma_saves_last_settled(n, j);
    let (n1, j1) = settled(n, j);
    if outcomes.len() > 0 {
        let (n2, j2) = completed(n1, j1, outcomes[0]);
        let rest = outcomes.drop_first();
        assert(is_straight(j1.steps[0]));
        let i = lemma_past_part(j1.steps);
        assert(past_part(j1.steps) is None) by {
            if past_part(j1.steps) is Some {
                assert(is_straight(j1.steps[i - 1]));
            }
        }
        if j2.error is Some || j1.steps.len() == 1 {
            assert(j2.steps.len() == 0);
            lemma_ended(n2, j2, rest);
            assert(wanted(n2, j2) is None);
            assert(settled(n2, j2) == (n2, j2));
            assert(saves(n2, j2, rest) =~= seq![]);
        } else {
            assert forall|i: int| 0 <= i < j2.steps.len() implies is_straight(
                #[trigger] j2.steps[i],
            ) by {
                assert(j2.steps[i] == j1.steps[i + 1]);
            }
            lemma_last_save(n2, j2, rest);
        }
    }
}

/// Every setting that is all static or switched off, every switching of a link and
/// every lease is on disk when its job has succeeded: what was written last is what is
/// known of the card, and a card that is restored from it is that card.
pub proof fn law_settings_on_disk(
    n: NetState,
    iface: Seq<char>,
    up: bool,
    ipv4: Ipv4Info,
    ipv6: Ipv6Info,
    j: JobState,
    outcomes: Seq<Outcome>,
)
    requires
        n.cards.contains_key(iface),
        ({
            ||| j == link_job(n, iface, up)
            ||| j == ipv4_job(n, iface, ipv4) && (!ipv4.enabled || !ipv4.use_dhcp && !ipv4.auto_dns)
            ||| j == ipv6_job(n, iface, ipv6) && (!ipv6.enabled || !ipv6.use_dhcp && !ipv6.auto_dns)
            ||| j == lease4_job(n, iface, ipv4)
            ||| j == lease6_job(n, iface, ipv6)
        }),
        fitting(n, j, outcomes),
        succeeded(run(n, j, outcomes).1),
    ensures
        ({
            let card = run(n, j, outcomes).0.cards[iface];
            let written = saves(n, j, outcomes);
            &&& written.len() > 0
            &&& written.last() == store_of(card)
            &&& restored_card(card.name, card.hardware, Some(written.last())) == card
        }),
{
    let card = n.cards[iface];
    let p = |s: Step| is_straight(s);
    lemma_ipv4_plan(n.dhcp4.contains(iface), card.ipv4, ipv4, p);
    lemma_ipv6_plan(n.dhcp6.contains(iface), card.ipv6, ipv6, p);
    lemma_lease4_plan(card.ipv4, ipv4, p);
    lemma_lease6_plan(card.ipv6, ipv6, p);
    assert(all_of(link_plan(up), p));
    lemma_last_save(n, j, outcomes);
}

}
