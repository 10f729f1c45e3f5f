//! What is known after the start.
use super::super::actor::{job, JobState, NetState, NoticeState, Outcome, Step};
use super::lives::{added, law_added};
use super::{fitting, run, succeeded};
use vstd::prelude::*;

verus! {

/// The job that adds the card of that name at the start.
pub open spec fn add_job(name: Seq<char>) -> JobState {
    job(name, seq![Step::ReadNew], NoticeState::Quiet)
}

/// The state after the jobs of the first `i` names, each with its outcomes.
pub open spec fn after_adding(
    n: NetState,
    names: Seq<Seq<char>>,
    outcomes: Seq<Seq<Outcome>>,
    i: int,
) -> NetState
    decreases i,
{
    if i <= 0 {
        n
    } else {
        run(
            after_adding(n, names, outcomes, i - 1),
            add_job(names[i - 1]),
            outcomes[i - 1],
        ).0
    }
}

/// What becomes of the job of the name at place `i`, after those of the names before it.
pub open spec fn adding_at(
    n: NetState,
    names: Seq<Seq<char>>,
    outcomes: Seq<Seq<Outcome>>,
    i: int,
) -> JobState {
    run(after_adding(n, names, outcomes, i), add_job(names[i]), outcomes[i]).1
}

/// Whether the job of the name at place `i` has its end, with outcomes that it can have.
pub open spec fn ended_at(
    n: NetState,
    names: Seq<Seq<char>>,
    outcomes: Seq<Seq<Outcome>>,
    i: int,
) -> bool {
    &&& fitting(after_adding(n, names, outcomes, i), add_job(names[i]), outcomes[i])
    &&& adding_at(n, names, outcomes, i).steps.len() == 0
}

/// Whether the card of that name was added by the job at place `i`.
pub open spec fn added_at(
    n: NetState,
    names: Seq<Seq<char>>,
    outcomes: Seq<Seq<Outcome>>,
    i: int,
    name: Seq<char>,
) -> bool {
    names[i] == name && succeeded(adding_at(n, names, outcomes, i))
}

/// After the start, the cards that are known are those that were known before and those
/// whose adding succeeded, and no others: a card that cannot be added is passed over and
/// keeps no other from being added. Cards whose name is not among those to be added
/// are as they were.
pub proof fn law_start(n: NetState, names: Seq<Seq<char>>, outcomes: Seq<Seq<Outcome>>)
    requires
        outcomes.len() == names.len(),
        forall|i: int| 0 <= i < names.len() ==> #[trigger] ended_at(n, names, outcomes, i),
    ensures
        ({
            let m = after_adding(n, names, outcomes, names.len() as int);
            &&& forall|name: Seq<char>| #[trigger]
                m.cards.contains_key(name) <==> n.cards.contains_key(name) || exists|i: int|
                    0 <= i < names.len() && added_at(n, names, outcomes, i, name)
            &&& forall|name: Seq<char>|
                n.cards.contains_key(name) && !names.contains(name) ==> #[trigger] m.cards[name]
                    == n.cards[name]
        }),
{
    lemma_started(n, names, outcomes, names.len() as int);
}

proof fn lemma_started(n: NetState, names: Seq<Seq<char>>, outcomes: Seq<Seq<Outcome>>, i: int)
    requires
        0 <= i <= names.len(),
        outcomes.len() == names.len(),
        forall|k: int| 0 <= k < names.len() ==> #[trigger] ended_at(n, names, outcomes, k),
    ensures
        ({
            let m = after_adding(n, names, outcomes, i);
            &&& forall|name: Seq<char>| #[trigger]
                m.cards.contains_key(name) <==> n.cards.contains_key(name) || exists|k: int|
                    0 <= k < i && added_at(n, names, outcomes, k, name)
            &&& forall|name: Seq<char>|
                n.cards.contains_key(name) && !names.contains(name) ==> #[trigger] m.cards[name]
                    == n.cards[name]
        }),
    decreases i,
{
    if i > 0 {
        lemma_started(n, names, outcomes, i - 1);
        assert(ended_at(n, names, outcomes, i - 1));
        let before = after_adding(n, names, outcomes, i - 1);
        let m = after_adding(n, names, outcomes, i);
        let k = adding_at(n, names, outcomes, i - 1);
        law_added(before, names[i - 1], NoticeState::Quiet, outcomes[i - 1]);
        assert(m.cards == before.cards || added(before, names[i - 1], m));
        assert forall|name: Seq<char>| #[trigger] m.cards.contains_key(name) <==> (
        n.cards.contains_key(name) || exists|k: int|
            0 <= k < i && added_at(n, names, outcomes, k, name)) by {
            assert(before.cards.contains_key(name) <==> n.cards.contains_key(name) || exists|k: int|
                0 <= k < i - 1 && added_at(n, names, outcomes, k, name));
            if name == names[i - 1] && succeeded(k) {
                assert(added_at(n, names, outcomes, i - 1, name));
            }
        }
        assert forall|name: Seq<char>|
            n.cards.contains_key(name) && !names.contains(name) implies #[trigger] m.cards[name]
            == n.cards[name] by {
            assert(names.contains(names[i - 1]));
            assert(before.cards[name] == n.cards[name]);
        }
    }
}

}
