//! Runs of jobs, and what holds of every run.
//!
//! A run is what becomes of a job when `poll` and `complete` take turns: a sequence of
//! outcomes, one for each piece of outside work in turn. The laws hold of every run
//! from every state, whatever the outcomes, also of one that has not reached its end.
use super::actor::{advanced, completed, fits, settled, wanted, JobState, NetState, Outcome};
use vstd::prelude::*;

pub mod arrivals;
pub mod clients;
pub mod disk;
pub mod effects;
pub mod ends;
pub mod leases;
pub mod lives;
pub mod plans;
pub mod records;
pub mod reports;
pub mod requests;
pub mod start;
pub mod work;

verus! {

/// State and job after a run with the given outcomes. Outcomes that come after the end
/// of the job are not taken in.
pub open spec fn run(n: NetState, j: JobState, outcomes: Seq<Outcome>) -> (NetState, JobState)
    decreases outcomes.len(),
{
    let (n1, j1) = settled(n, j);
    if outcomes.len() == 0 || wanted(n1, j1) is None {
        (n1, j1)
    } else {
        let (n2, j2) = completed(n1, j1, outcomes[0]);
        run(n2, j2, outcomes.drop_first())
    }
}

/// Whether each outcome of a run is one that the work it is for can have.
pub open spec fn fitting(n: NetState, j: JobState, outcomes: Seq<Outcome>) -> bool
    decreases outcomes.len(),
{
    let (n1, j1) = settled(n, j);
    if outcomes.len() == 0 || wanted(n1, j1) is None {
        true
    } else {
        let (n2, j2) = completed(n1, j1, outcomes[0]);
        fits(j1.steps[0], outcomes[0]) && fitting(n2, j2, outcomes.drop_first())
    }
}

/// Whether a run has brought its job to the end without failure.
pub open spec fn succeeded(j: JobState) -> bool {
    j.steps.len() == 0 && j.error is None
}

// ---------------------------------------------------------------------------
// Invariants of runs
// ---------------------------------------------------------------------------

/// What bookkeeping keeps.
pub open spec fn kept_by_booking(p: spec_fn(NetState, JobState) -> bool) -> bool {
    forall|n: NetState, j: JobState|
        #![trigger advanced(n, j)]
        p(n, j) && j.steps.len() > 0 && wanted(n, j) is None ==> p(
            advanced(n, j).0,
            advanced(n, j).1,
        )
}

/// What outside work keeps.
pub open spec fn kept_by_work(p: spec_fn(NetState, JobState) -> bool) -> bool {
    forall|n: NetState, j: JobState, o: Outcome|
        #![trigger completed(n, j, o)]
        p(n, j) && wanted(n, j) is Some && fits(j.steps[0], o) ==> p(
            completed(n, j, o).0,
            completed(n, j, o).1,
        )
}

proof fn lemma_settled_keeps(p: spec_fn(NetState, JobState) -> bool, n: NetState, j: JobState)
    requires
        p(n, j),
        kept_by_booking(p),
    ensures
        p(settled(n, j).0, settled(n, j).1),
    decreases j.steps.len(),
{
    if j.steps.len() > 0 && wanted(n, j) is None {
        lemma_settled_keeps(p, advanced(n, j).0, advanced(n, j).1);
    }
}

pub proof fn lemma_run_keeps(
    p: spec_fn(NetState, JobState) -> bool,
    n: NetState,
    j: JobState,
    outcomes: Seq<Outcome>,
)
    requires
        p(n, j),
        fitting(n, j, outcomes),
        kept_by_booking(p),
        kept_by_work(p),
    ensures
        p(run(n, j, outcomes).0, run(n, j, outcomes).1),
    decreases outcomes.len(),
{
    lemma_settled_keeps(p, n, j);
    let (n1, j1) = settled(n, j);
    if outcomes.len() > 0 && wanted(n1, j1) is Some {
        let (n2, j2) = completed(n1, j1, outcomes[0]);
        lemma_run_keeps(p, n2, j2, outcomes.drop_first());
    }
}

/// After settling, a job is at its end or has outside work to do.
pub proof fn lemma_settled(n: NetState, j: JobState)
    ensures
        ({
            let (n1, j1) = settled(n, j);
            &&& j1.steps.len() == 0 || wanted(n1, j1) is Some
            &&& settled(n1, j1) == (n1, j1)
            &&& j1.iface == j.iface && j1.notice == j.notice && j1.error == j.error
        }),
    decreases j.steps.len(),
{
    if j.steps.len() > 0 && wanted(n, j) is None {
        lemma_settled(advanced(n, j).0, advanced(n, j).1);
    }
}

/// A job that is at its end stays there.
pub proof fn lemma_ended(n: NetState, j: JobState, outcomes: Seq<Outcome>)
    requires
        j.steps.len() == 0,
    ensures
        run(n, j, outcomes) == (n, j),
{
    assert(wanted(n, j) is None);
}

}
