//! From the steps of a job to the outside work that its runs ask for.
use super::super::actor::{
    advanced, booked_card, completed, opt, past_part, settled, store_of, wanted, Action, JobState,
    NetState, Outcome, Step,
};
use super::super::persist::NetCardStore;
use super::plans::{all_of, lemma_past_part};
use super::records::{booked_all, is_straight, progress};
use super::requests::asked;
use super::{fitting, run, succeeded};
use crate::Card;
use vstd::prelude::*;

verus! {

/// Work whose failure is passed over: what was configured may be gone already, and the
/// file is written again with the next change.
pub open spec fn optional(a: Action) -> bool {
    ||| a is DelIpv4Address
    ||| a is DelIpv4Gateway
    ||| a is DelIpv6Address
    ||| a is DelIpv6Gateway
    ||| a is SaveConfig
}

/// A straight step whose failure is passed over where its work is optional, and only
/// there.
pub open spec fn is_tidy(step: Step) -> bool {
    &&& is_straight(step)
    &&& step matches Step::Must(a) ==> !optional(a)
    &&& step matches Step::Try(a) ==> optional(a)
}

/// The outside work of one step, with `store` for what is to be written.
pub open spec fn work(step: Step, store: NetCardStore) -> Seq<Action> {
    match step {
        Step::Must(a) => seq![a],
        Step::Try(a) => seq![a],
        Step::Save => seq![Action::SaveConfig(store)],
        _ => seq![],
    }
}

/// The outside work of all `steps`, in order.
pub open spec fn works(steps: Seq<Step>, store: NetCardStore) -> Seq<Action>
    decreases steps.len(),
{
    if steps.len() == 0 {
        seq![]
    } else {
        work(steps[0], store) + works(steps.drop_first(), store)
    }
}

/// Whether, from `card` on, the steps write `store` whenever they write.
pub open spec fn saves_as(card: Card, steps: Seq<Step>, store: NetCardStore) -> bool
    decreases steps.len(),
{
    steps.len() > 0 ==> {
        &&& steps[0] is Save ==> store_of(card) == store
        &&& saves_as(booked_card(card, steps[0]), steps.drop_first(), store)
    }
}

/// Whether `a` is a beginning of `b`.
pub open spec fn begins(a: Seq<Action>, b: Seq<Action>) -> bool {
    a.len() <= b.len() && forall|i: int| 0 <= i < a.len() ==> #[trigger] a[i] == b[i]
}

/// How far the work `whole` of one part came: the first `count` pieces of it were asked
/// for. That is all of it, or as far as the first piece that failed and is not
/// optional.
pub open spec fn carried_out(whole: Seq<Action>, outcomes: Seq<Outcome>, count: int) -> bool {
    &&& 0 <= count <= whole.len()
    &&& count <= outcomes.len()
    &&& forall|i: int|
        0 <= i < count - 1 && outcomes[i] is Failed ==> optional(#[trigger] whole[i])
    &&& count < whole.len() ==> count > 0 && outcomes[count - 1] is Failed && !optional(
        whole[count - 1],
    )
}

/// Work that is not optional ends the job when it fails, with its message, and nothing
/// else fails a job. A job asks for more as long as it is told what came of it.
pub open spec fn ends_at_failure(all: Seq<Action>, outcomes: Seq<Outcome>, k: JobState) -> bool {
    &&& all.len() <= outcomes.len()
    &&& all.len() < outcomes.len() ==> k.steps.len() == 0
    &&& forall|i: int|
        0 <= i < all.len() && outcomes[i] is Failed && !optional(#[trigger] all[i]) ==> {
            &&& i == all.len() - 1
            &&& k.steps.len() == 0
            &&& k.error == Some(outcomes[i]->Failed_0@)
        }
    &&& k.error is Some ==> {
        &&& all.len() > 0
        &&& outcomes[all.len() - 1] is Failed
        &&& !optional(all.last())
    }
}

// ---------------------------------------------------------------------------
// Lists
// ---------------------------------------------------------------------------

pub broadcast proof fn lemma_works_add(a: Seq<Step>, b: Seq<Step>, store: NetCardStore)
    ensures
        #[trigger] works(a + b, store) == works(a, store) + works(b, store),
    decreases a.len(),
{
    if a.len() == 0 {
        assert(a + b =~= b);
        assert(works(a, store) + works(b, store) =~= works(b, store));
    } else {
        lemma_works_add(a.drop_first(), b, store);
        assert((a + b).drop_first() =~= a.drop_first() + b);
        assert(works(a + b, store) =~= works(a, store) + works(b, store));
    }
}

pub proof fn lemma_works_one(step: Step, store: NetCardStore)
    ensures
        works(seq![step], store) == work(step, store),
{
    assert(seq![step].drop_first() =~= Seq::<Step>::empty());
    assert(works(Seq::<Step>::empty(), store) =~= Seq::<Action>::empty());
    assert(work(step, store) + Seq::<Action>::empty() =~= work(step, store));
}

pub broadcast proof fn lemma_works_opt(b: bool, step: Step, store: NetCardStore)
    ensures
        #[trigger] works(opt(b, step), store) == if b {
            work(step, store)
        } else {
            seq![]
        },
{
    lemma_works_one(step, store);
}

/// Bookkeeping may be counted from the front.
proof fn lemma_booked_front(card: Card, steps: Seq<Step>, p: int)
    requires
        0 <= p < steps.len(),
    ensures
        booked_all(booked_card(card, steps[0]), steps.drop_first().take(p)) == booked_all(
            card,
            steps.take(p + 1),
        ),
    decreases p,
{
    let rest = steps.drop_first();
    if p == 0 {
        assert(rest.take(0) =~= Seq::<Step>::empty());
        assert(steps.take(1).drop_last() =~= Seq::<Step>::empty());
        assert(booked_all(card, Seq::<Step>::empty()) == card);
    } else {
        lemma_booked_front(card, steps, p - 1);
        assert(rest.take(p).drop_last() =~= rest.take(p - 1));
        assert(steps.take(p + 1).drop_last() =~= steps.take(p));
    }
}

/// Where no step but the last can write, and that one writes `store`.
pub proof fn lemma_saves_as_last(card: Card, front: Seq<Step>, last: Step, store: NetCardStore)
    requires
        all_of(front, |s: Step| !(s is Save)),
        last is Save ==> store_of(booked_all(card, front)) == store,
    ensures
        saves_as(card, front.push(last), store),
    decreases front.len(),
{
    let steps = front.push(last);
    if front.len() == 0 {
        assert(steps.drop_first() =~= Seq::<Step>::empty());
        assert(saves_as(booked_card(card, last), Seq::<Step>::empty(), store));
    } else {
        let rest = front.drop_first();
        assert(steps.drop_first() =~= rest.push(last));
        assert forall|i: int| 0 <= i < rest.len() implies !(#[trigger] rest[i] is Save) by {
            assert(rest[i] == front[i + 1]);
        }
        lemma_booked_front(card, front, front.len() - 1);
        assert(rest.take(front.len() - 1) =~= rest);
        assert(front.take(front.len() as int) =~= front);
        assert(!(front[0] is Save));
        lemma_saves_as_last(booked_card(card, front[0]), rest, last, store);
    }
}

/// Where no step writes.
pub proof fn lemma_saves_as_none(card: Card, steps: Seq<Step>, store: NetCardStore)
    requires
        all_of(steps, |s: Step| !(s is Save)),
    ensures
        saves_as(card, steps, store),
{
    if steps.len() > 0 {
        let front = steps.drop_last();
        assert(steps =~= front.push(steps.last()));
        assert(!(steps[steps.len() - 1] is Save));
        assert(all_of(front, |s: Step| !(s is Save)));
        lemma_saves_as_last(card, front, steps.last(), store);
    }
}

// ---------------------------------------------------------------------------
// Runs
// ---------------------------------------------------------------------------

proof fn lemma_no_part(steps: Seq<Step>)
    requires
        all_of(steps, |s: Step| is_tidy(s)),
    ensures
        past_part(steps) is None,
{
    let i = lemma_past_part(steps);
    if past_part(steps) is Some {
        assert(is_tidy(steps[i - 1]));
    }
}

/// What a run of straight steps has asked for is the work of the steps that it has come
/// past and, where it failed, of the one that it failed at.
#[verifier::rlimit(40)]
pub proof fn lemma_trace(
    n: NetState,
    j: JobState,
    outcomes: Seq<Outcome>,
    store: NetCardStore,
) -> (p: int)
    requires
        n.cards.contains_key(j.iface),
        j.error is None,
        all_of(j.steps, |s: Step| is_tidy(s)),
        saves_as(n.cards[j.iface], j.steps, store),
        fitting(n, j, outcomes),
    ensures
        ({
            let (m, k) = run(n, j, outcomes);
            let all = asked(n, j, outcomes);
            &&& progress(n, j, m, k, p)
            &&& ends_at_failure(all, outcomes, k)
            &&& k.error is None ==> all == works(j.steps.take(p), store)
            &&& k.error is Some ==> p < j.steps.len() && all == works(j.steps.take(p), store).push(
                all.last(),
            ) && j.steps[p] == Step::Must(all.last())
        }),
    decreases j.steps.len(),
{
    let (m, k) = run(n, j, outcomes);
    let all = asked(n, j, outcomes);
    let card = n.cards[j.iface];
    assert(n.cards.insert(j.iface, card) =~= n.cards);
    assert(j.steps.skip(0) =~= j.steps);
    assert(j.steps.take(0) =~= Seq::<Step>::empty());
    assert(booked_all(card, Seq::<Step>::empty()) == card);
    assert(works(Seq::<Step>::empty(), store) =~= Seq::<Action>::empty());
    if j.steps.len() == 0 {
        assert(progress(n, j, m, k, 0));
        0
    } else {
        let s = j.steps[0];
        let rest = j.steps.drop_first();
        assert(is_tidy(s));
        assert forall|i: int| 0 <= i < rest.len() implies is_tidy(#[trigger] rest[i]) by {
            assert(rest[i] == j.steps[i + 1]);
        }
        if wanted(n, j) is None {
            let (n1, j1) = advanced(n, j);
            assert(settled(n, j) == settled(n1, j1));
            assert(run(n1, j1, outcomes) == (m, k));
            assert(asked(n1, j1, outcomes) == all);
            let q = lemma_trace(n1, j1, outcomes, store);
            lemma_trace_front(card, j.steps, q, store);
            assert(work(s, store) =~= seq![]);
            assert(m.cards =~= n.cards.insert(
                j.iface,
                booked_all(card, j.steps.take(q + 1)),
            ));
            assert(j1.steps.skip(q) =~= j.steps.skip(q + 1));
            assert(works(rest.take(q), store) =~= works(j.steps.take(q + 1), store));
            q + 1
        } else if outcomes.len() == 0 {
            assert(progress(n, j, m, k, 0));
            0
        } else {
            let (n2, j2) = completed(n, j, outcomes[0]);
            let later = outcomes.drop_first();
            let a = wanted(n, j)->Some_0;
            assert(settled(n, j) == (n, j));
            assert(all == seq![a] + asked(n2, j2, later));
            lemma_no_part(j.steps);
            if outcomes[0] is Done || s is Try || s is Save {
                let q = lemma_trace(n2, j2, later, store);
                let tail = asked(n2, j2, later);
                lemma_trace_front(card, j.steps, q, store);
                assert(work(s, store) == seq![a]);
                assert(booked_card(card, s) == card);
                assert(j2.steps.skip(q) =~= j.steps.skip(q + 1));
                assert(works(j.steps.take(q + 1), store) == seq![a] + works(rest.take(q), store));
                if k.error is Some {
                    assert(all.last() == tail.last());
                    assert(all =~= works(j.steps.take(q + 1), store).push(all.last()));
                }
                assert forall|i: int|
                    0 <= i < all.len() && outcomes[i] is Failed && !optional(
                        #[trigger] all[i],
                    ) implies i == all.len() - 1 && k.steps.len() == 0 && k.error == Some(
                    outcomes[i]->Failed_0@,
                ) by {
                    if i > 0 {
                        assert(all[i] == tail[i - 1]);
                        assert(outcomes[i] == later[i - 1]);
                    }
                }
                assert(progress(n, j, m, k, q + 1));
                q + 1
            } else {
                assert(settled(n2, j2) == (n2, j2));
                assert(asked(n2, j2, later) =~= seq![]);
                assert(all =~= seq![a]);
                assert(all =~= works(j.steps.take(0), store).push(all.last()));
                assert(progress(n, j, m, k, 0));
                0
            }
        }
    }
}

proof fn lemma_trace_front(card: Card, steps: Seq<Step>, q: int, store: NetCardStore)
    requires
        0 <= q < steps.len(),
    ensures
        booked_all(booked_card(card, steps[0]), steps.drop_first().take(q)) == booked_all(
            card,
            steps.take(q + 1),
        ),
        works(steps.take(q + 1), store) == work(steps[0], store) + works(
            steps.drop_first().take(q),
            store,
        ),
{
    lemma_booked_front(card, steps, q);
    assert(steps.take(q + 1).drop_first() =~= steps.drop_first().take(q));
}

/// Such a run asks for a beginning of the work of all its steps, and for all of it when
/// the job has succeeded.
pub proof fn lemma_straight_work(
    n: NetState,
    j: JobState,
    outcomes: Seq<Outcome>,
    store: NetCardStore,
) -> (p: int)
    requires
        n.cards.contains_key(j.iface),
        j.error is None,
        all_of(j.steps, |s: Step| is_tidy(s)),
        saves_as(n.cards[j.iface], j.steps, store),
        fitting(n, j, outcomes),
    ensures
        ({
            let (m, k) = run(n, j, outcomes);
            let all = asked(n, j, outcomes);
            &&& progress(n, j, m, k, p)
            &&& ends_at_failure(all, outcomes, k)
            &&& succeeded(k) ==> all == works(j.steps, store)
            &&& begins(all, works(j.steps, store))
            &&& begins(works(j.steps.take(p), store), all)
            &&& k.error is Some ==> p < j.steps.len() && j.steps[p] == Step::Must(all.last())
        }),
{
    let p = lemma_trace(n, j, outcomes, store);
    let (m, k) = run(n, j, outcomes);
    let all = asked(n, j, outcomes);
    let done = j.steps.take(p);
    let rest = j.steps.skip(p);
    assert(j.steps =~= done + rest);
    lemma_works_add(done, rest, store);
    if k.error is Some {
        assert(works(rest, store)[0] == all.last());
    } else if succeeded(k) {
        assert(done =~= j.steps);
    }
    p
}

/// A part of a job that leaves the record of the card as it is: its work is carried
/// out, and then comes the rest of the job.
#[verifier::rlimit(40)]
pub proof fn lemma_part(
    n: NetState,
    j: JobState,
    part: Seq<Step>,
    rest: Seq<Step>,
    outcomes: Seq<Outcome>,
) -> (count: int)
    requires
        n.cards.contains_key(j.iface),
        j.error is None,
        j.steps == part + seq![Step::EndPart] + rest,
        all_of(part, |s: Step| is_tidy(s) && booked_card(n.cards[j.iface], s) == n.cards[j.iface]),
        fitting(n, j, outcomes),
        run(n, j, outcomes).1.steps.len() == 0,
    ensures
        ({
            let whole = works(part, store_of(n.cards[j.iface]));
            let jr = JobState { steps: rest, ..j };
            &&& carried_out(whole, outcomes, count)
            &&& asked(n, j, outcomes) == whole.take(count) + asked(n, jr, outcomes.skip(count))
            &&& run(n, j, outcomes) == run(n, jr, outcomes.skip(count))
            &&& fitting(n, jr, outcomes.skip(count))
        }),
    decreases part.len(),
{
    let card = n.cards[j.iface];
    let store = store_of(card);
    let whole = works(part, store);
    let jr = JobState { steps: rest, ..j };
    let all = asked(n, j, outcomes);
    let s = j.steps[0];
    assert(n.cards.insert(j.iface, card) =~= n.cards);
    assert(outcomes.skip(0) =~= outcomes);
    assert(whole.take(0) =~= Seq::<Action>::empty());
    if part.len() == 0 {
        assert(s is EndPart);
        assert(j.steps.drop_first() =~= rest);
        assert(advanced(n, j) == (n, jr));
        assert(settled(n, j) == settled(n, jr));
        assert(all =~= whole.take(0) + asked(n, jr, outcomes));
        0
    } else {
        let later = part.drop_first();
        assert(s == part[0]);
        assert(j.steps.drop_first() =~= later + seq![Step::EndPart] + rest);
        let j1 = JobState { steps: j.steps.drop_first(), ..j };
        assert forall|i: int| 0 <= i < later.len() implies is_tidy(#[trigger] later[i])
            && booked_card(card, later[i]) == card by {
            assert(later[i] == part[i + 1]);
        }
        if wanted(n, j) is None {
            assert(advanced(n, j) == (n, j1));
            assert(settled(n, j) == settled(n, j1));
            assert(run(n, j, outcomes) == run(n, j1, outcomes));
            assert(asked(n, j1, outcomes) == all);
            let c = lemma_part(n, j1, later, rest, outcomes);
            assert(whole =~= works(later, store));
            c
        } else {
            assert(settled(n, j) == (n, j));
            assert(outcomes.len() > 0);
            let (n2, j2) = completed(n, j, outcomes[0]);
            let a = wanted(n, j)->Some_0;
            let tail = outcomes.drop_first();
            assert(whole =~= seq![a] + works(later, store));
            assert(all == seq![a] + asked(n2, j2, tail));
            if outcomes[0] is Done || s is Try || s is Save {
                assert((n2, j2) == (n, j1));
                let c = lemma_part(n, j1, later, rest, tail);
                assert(tail.skip(c) =~= outcomes.skip(c + 1));
                assert(whole.take(c + 1) =~= seq![a] + works(later, store).take(c));
                assert(all =~= whole.take(c + 1) + asked(n, jr, outcomes.skip(c + 1)));
                assert forall|i: int| 0 <= i < c && outcomes[i] is Failed implies optional(
                    #[trigger] whole[i],
                ) by {
                    if i > 0 {
                        assert(whole[i] == works(later, store)[i - 1]);
                        assert(outcomes[i] == tail[i - 1]);
                    }
                }
                if c + 1 < whole.len() {
                    assert(outcomes[c] == tail[c - 1]);
                    assert(whole[c] == works(later, store)[c - 1]);
                }
                c + 1
            } else {
                lemma_past_this_part(part, rest);
                assert((n2, j2) == (n, jr));
                assert(tail =~= outcomes.skip(1));
                assert(whole.take(1) =~= seq![a]);
                1
            }
        }
    }
}

proof fn lemma_past_this_part(part: Seq<Step>, rest: Seq<Step>)
    requires
        all_of(part, |s: Step| !(s is EndPart)),
    ensures
        past_part(part + seq![Step::EndPart] + rest) == Some(rest),
    decreases part.len(),
{
    let steps = part + seq![Step::EndPart] + rest;
    if part.len() == 0 {
        assert(steps.drop_first() =~= rest);
    } else {
        let later = part.drop_first();
        assert forall|i: int| 0 <= i < later.len() implies !(#[trigger] later[i] is EndPart) by {
            assert(later[i] == part[i + 1]);
        }
        assert(!(part[0] is EndPart));
        assert(steps.drop_first() =~= later + seq![Step::EndPart] + rest);
        lemma_past_this_part(later, rest);
    }
}

}
