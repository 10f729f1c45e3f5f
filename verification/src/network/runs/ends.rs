//! How jobs end.
use super::super::actor::{
    advanced, apply_plan, completed, fits, ipv4_plan, ipv6_plan, link_plan, open_plan, past_part,
    restore_plan, restored_card, settled, wanted, JobState, NetState, Outcome, Step,
};
use super::plans::{
    all_of, lemma_all_of_add, lemma_all_of_opt, lemma_ipv4_plan, lemma_ipv6_plan, lemma_past_part,
};
use super::{fitting, lemma_ended, lemma_settled, run};
use crate::{Card, HardwareInfo, Ipv4Info, Ipv6Info};
use vstd::prelude::*;

verus! {

/// A job fails only if some of its outside work fails.
pub proof fn law_failure_has_a_cause(n: NetState, j: JobState, outcomes: Seq<Outcome>)
    requires
        j.error is None,
        forall|i: int| 0 <= i < outcomes.len() ==> !(#[trigger] outcomes[i] is Failed),
    ensures
        run(n, j, outcomes).1.error is None,
    decreases outcomes.len(),
{
    lemma_settled(n, j);
    let (n1, j1) = settled(n, j);
    if outcomes.len() > 0 && wanted(n1, j1) is Some {
        assert(!(outcomes[0] is Failed));
        let (n2, j2) = completed(n1, j1, outcomes[0]);
        let rest = outcomes.drop_first();
        assert forall|i: int| 0 <= i < rest.len() implies !(#[trigger] rest[i] is Failed) by {
            assert(rest[i] == outcomes[i + 1]);
        }
        law_failure_has_a_cause(n2, j2, rest);
    }
}

/// A job that has failed has the message of the outside work that failed it.
pub proof fn law_failure_is_told(n: NetState, j: JobState, outcomes: Seq<Outcome>)
    requires
        j.error is None,
        run(n, j, outcomes).1.error is Some,
    ensures
        exists|i: int|
            0 <= i < outcomes.len() && outcomes[i] is Failed && run(n, j, outcomes).1.error == Some(
                (#[trigger] outcomes[i])->Failed_0@,
            ),
    decreases outcomes.len(),
{
    lemma_settled(n, j);
    let (n1, j1) = settled(n, j);
    if outcomes.len() > 0 && wanted(n1, j1) is Some {
        let (n2, j2) = completed(n1, j1, outcomes[0]);
        let rest = outcomes.drop_first();
        if j2.error is Some {
            lemma_ended(n2, j2, rest);
            assert(outcomes[0] is Failed);
        } else {
            law_failure_is_told(n2, j2, rest);
            let i = choose|i: int|
                0 <= i < rest.len() && rest[i] is Failed && run(n, j, outcomes).1.error == Some(
                    (#[trigger] rest[i])->Failed_0@,
                );
            assert(outcomes[i + 1] == rest[i]);
        }
    }
}


/// How much outside work a step can lead to at most.
pub open spec fn weight(step: Step) -> nat {
    match step {
        Step::ReadNew => 40,
        Step::ReadChanged => 30,
        Step::Load(_) => 30,
        _ => 1,
    }
}

/// How much outside work a job can lead to at most.
pub open spec fn total_weight(steps: Seq<Step>) -> nat
    decreases steps.len(),
{
    if steps.len() == 0 {
        0
    } else {
        weight(steps[0]) + total_weight(steps.drop_first())
    }
}

proof fn lemma_weight_light(steps: Seq<Step>)
    requires
        all_of(steps, |s: Step| weight(s) == 1),
    ensures
        total_weight(steps) == steps.len(),
    decreases steps.len(),
{
    if steps.len() > 0 {
        let rest = steps.drop_first();
        assert(weight(steps[0]) == 1);
        assert forall|i: int| 0 <= i < rest.len() implies weight(#[trigger] rest[i]) == 1 by {
            assert(rest[i] == steps[i + 1]);
        }
        lemma_weight_light(rest);
    }
}

proof fn lemma_weight_skip(steps: Seq<Step>, i: int)
    requires
        0 <= i <= steps.len(),
    ensures
        total_weight(steps.skip(i)) <= total_weight(steps),
    decreases i,
{
    if i == 0 {
        assert(steps.skip(0) =~= steps);
    } else {
        assert(steps.skip(i) =~= steps.drop_first().skip(i - 1));
        lemma_weight_skip(steps.drop_first(), i - 1);
    }
}

proof fn lemma_plan_weights(n: NetState, card: Card, saved: bool)
    ensures
        total_weight(apply_plan(n, card)) < 30,
        total_weight(restore_plan(n, card, saved)) < 30,
{
    broadcast use {lemma_all_of_add, lemma_all_of_opt};

    let p = |s: Step| weight(s) == 1;
    lemma_ipv4_plan(n.dhcp4.contains(card.name), card.ipv4, card.ipv4, p);
    lemma_ipv6_plan(n.dhcp6.contains(card.name), card.ipv6, card.ipv6, p);
    assert(all_of(seq![Step::EndPart], p));
    assert(all_of(link_plan(card.enabled), p));
    assert(all_of(Seq::<Step>::empty(), p));
    lemma_weight_light(apply_plan(n, card));
    lemma_weight_light(restore_plan(n, card, saved));
    lemma_plan_lengths(n.dhcp4.contains(card.name), card.ipv4, n.dhcp6.contains(card.name), card.ipv6);
}

proof fn lemma_plan_lengths(c4: bool, ipv4: Ipv4Info, c6: bool, ipv6: Ipv6Info)
    ensures
        ipv4_plan(c4, ipv4, ipv4).len() <= 8,
        ipv6_plan(c6, ipv6, ipv6).len() <= 8,
{
}

proof fn lemma_open_weight(hardware: HardwareInfo)
    ensures
        total_weight(open_plan(hardware)) < 40,
{
    let p0 = open_plan(hardware);
    let p1 = p0.drop_first();
    let p2 = p1.drop_first();
    let p3 = p2.drop_first();
    let p4 = p3.drop_first();
    assert(total_weight(p0) == weight(p0[0]) + total_weight(p1));
    assert(total_weight(p1) == weight(p1[0]) + total_weight(p2));
    assert(total_weight(p2) == weight(p2[0]) + total_weight(p3));
    assert(total_weight(p3) == weight(p3[0]) + total_weight(p4));
    assert(total_weight(p4) == weight(p4[0]) + total_weight(p4.drop_first()));
    assert(total_weight(p4.drop_first()) == 0);
}

proof fn lemma_settled_weight(n: NetState, j: JobState)
    ensures
        total_weight(settled(n, j).1.steps) <= total_weight(j.steps),
    decreases j.steps.len(),
{
    if j.steps.len() > 0 && wanted(n, j) is None {
        lemma_settled_weight(advanced(n, j).0, advanced(n, j).1);
    }
}

proof fn lemma_work_weight(n: NetState, j: JobState, o: Outcome)
    requires
        wanted(n, j) is Some,
        fits(j.steps[0], o),
    ensures
        total_weight(completed(n, j, o).1.steps) < total_weight(j.steps),
{
    let i = lemma_past_part(j.steps);
    if past_part(j.steps) is Some {
        assert(j.steps.skip(i) =~= j.steps.drop_first().skip(i - 1));
        lemma_weight_skip(j.steps.drop_first(), i - 1);
    }
    match o {
        Outcome::Hardware(hardware) => {
            lemma_plan_weights(n, Card { hardware, ..n.cards[j.iface] }, false);
            lemma_open_weight(hardware);
        },
        Outcome::Config(saved) => {
            let hardware = j.steps[0]->Load_0;
            lemma_plan_weights(n, restored_card(j.iface, hardware, saved), saved is Some);
        },
        _ => {},
    }
}

/// Every job comes to its end: after as many outcomes as its weight, at the latest,
/// nothing is left to do.
pub proof fn law_jobs_end(n: NetState, j: JobState, outcomes: Seq<Outcome>)
    requires
        fitting(n, j, outcomes),
        outcomes.len() >= total_weight(j.steps),
    ensures
        run(n, j, outcomes).1.steps.len() == 0,
    decreases outcomes.len(),
{
    lemma_settled(n, j);
    lemma_settled_weight(n, j);
    let (n1, j1) = settled(n, j);
    if wanted(n1, j1) is Some {
        if outcomes.len() > 0 {
            lemma_work_weight(n1, j1, outcomes[0]);
            let (n2, j2) = completed(n1, j1, outcomes[0]);
            law_jobs_end(n2, j2, outcomes.drop_first());
        }
    }
}

}
