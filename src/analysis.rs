//! The decisions of analysing one anonymous target, as a step function from
//! the current phase and what the last step reported to the next phase and
//! the step to perform. The steps themselves (fetching dependencies, looking
//! up the execution platform, running the rule, freezing its result) are
//! performed by the caller.

use vstd::prelude::*;

verus! {

/// Where an analysis stands.
#[derive(Debug, Clone, Copy, PartialEq, Eq)]
pub enum Phase {
    /// Waiting for every dependency's analysis, all of them attempted.
    Deps,
    /// Waiting for the execution platform of the stored configuration.
    Platform,
    /// Waiting for the rule implementation to return.
    Rule,
    /// Draining promises that the rule registered, round after round.
    Promises,
    /// Waiting for the providers to be frozen and the actions finalized.
    Finalize,
    Done,
    Failed,
}

/// What the last step reported.
#[derive(Debug, Clone, Copy, PartialEq, Eq)]
pub enum Event {
    /// The step succeeded.
    Succeeded,
    /// The step failed; the caller keeps the error.
    Failed,
    /// A drain round: whether it found pending promises (and resolved and
    /// bound them) or found none.
    Drained(bool),
}

/// The step to perform next.
#[derive(Debug, Clone, Copy, PartialEq, Eq)]
pub enum Step {
    ResolveDeps,
    ResolvePlatform,
    InvokeRule,
    DrainPromises,
    Finalize,
    /// Return the frozen result.
    Finish,
    /// Return the error; no partial result exists.
    Abort,
}

/// The first phase and step of an analysis.
pub open spec fn start_spec() -> (Phase, Step) {
    (Phase::Deps, Step::ResolveDeps)
}

/// The transition of an analysis. A failure at any point aborts it; an
/// event that the phase does not expect is a failure too. Draining repeats
/// until a round finds no pending promise.
pub open spec fn next_spec(phase: Phase, event: Event) -> (Phase, Step) {
    match (phase, event) {
        (Phase::Done, _) => (Phase::Done, Step::Finish),
        (Phase::Failed, _) => (Phase::Failed, Step::Abort),
        (_, Event::Failed) => (Phase::Failed, Step::Abort),
        (Phase::Deps, Event::Succeeded) => (Phase::Platform, Step::ResolvePlatform),
        (Phase::Platform, Event::Succeeded) => (Phase::Rule, Step::InvokeRule),
        (Phase::Rule, Event::Succeeded) => (Phase::Promises, Step::DrainPromises),
        (Phase::Promises, Event::Drained(true)) => (Phase::Promises, Step::DrainPromises),
        (Phase::Promises, Event::Drained(false)) => (Phase::Finalize, Step::Finalize),
        (Phase::Finalize, Event::Succeeded) => (Phase::Done, Step::Finish),
        _ => (Phase::Failed, Step::Abort),
    }
}

pub fn start() -> (r: (Phase, Step))
    ensures
        r == start_spec(),
{
    (Phase::Deps, Step::ResolveDeps)
}

pub fn next(phase: Phase, event: Event) -> (r: (Phase, Step))
    ensures
        r == next_spec(phase, event),
{
    match (phase, event) {
        (Phase::Done, _) => (Phase::Done, Step::Finish),
        (Phase::Failed, _) => (Phase::Failed, Step::Abort),
        (_, Event::Failed) => (Phase::Failed, Step::Abort),
        (Phase::Deps, Event::Succeeded) => (Phase::Platform, Step::ResolvePlatform),
        (Phase::Platform, Event::Succeeded) => (Phase::Rule, Step::InvokeRule),
        (Phase::Rule, Event::Succeeded) => (Phase::Promises, Step::DrainPromises),
        (Phase::Promises, Event::Drained(true)) => (Phase::Promises, Step::DrainPromises),
        (Phase::Promises, Event::Drained(false)) => (Phase::Finalize, Step::Finalize),
        (Phase::Finalize, Event::Succeeded) => (Phase::Done, Step::Finish),
        _ => (Phase::Failed, Step::Abort),
    }
}

/// The phase reached from `phase` by a sequence of events.
pub open spec fn run_spec(phase: Phase, events: Seq<Event>) -> Phase
    decreases events.len(),
{
    if events.len() == 0 {
        phase
    } else {
        run_spec(next_spec(phase, events[0]).0, events.drop_first())
    }
}

/// The order of an analysis: reaching `Done` from the start takes at least
/// five reports, the first three of them successes (dependencies, platform,
/// rule, in that order); and once failed, an analysis stays failed.
pub proof fn lemma_done_needs_every_step(events: Seq<Event>)
    ensures
        run_spec(Phase::Deps, events) == Phase::Done ==> {
            &&& events.len() >= 5
            &&& events[0] == Event::Succeeded
            &&& events[1] == Event::Succeeded
            &&& events[2] == Event::Succeeded
        },
        run_spec(Phase::Failed, events) == Phase::Failed,
{
    lemma_failed_stays(events);
    if run_spec(Phase::Deps, events) == Phase::Done {
        lemma_done_from(Phase::Deps, events);
        let e1 = events.drop_first();
        lemma_done_from(Phase::Platform, e1);
        let e2 = e1.drop_first();
        lemma_done_from(Phase::Rule, e2);
        assert(e1[0] == events[1]);
        assert(e2[0] == events[2]);
    }
}

/// How many steps at least separate a phase from `Done`.
pub open spec fn distance(p: Phase) -> int {
    match p {
        Phase::Deps => 5,
        Phase::Platform => 4,
        Phase::Rule => 3,
        Phase::Promises => 2,
        Phase::Finalize => 1,
        Phase::Done => 0,
        Phase::Failed => 1000,
    }
}

proof fn lemma_failed_stays(events: Seq<Event>)
    ensures
        run_spec(Phase::Failed, events) == Phase::Failed,
    decreases events.len(),
{
    if events.len() > 0 {
        lemma_failed_stays(events.drop_first());
    }
}

proof fn lemma_done_from(p: Phase, events: Seq<Event>)
    requires
        run_spec(p, events) == Phase::Done,
    ensures
        events.len() >= distance(p),
        p != Phase::Done ==> events.len() > 0 && next_spec(p, events[0]).0 != Phase::Failed
            && run_spec(next_spec(p, events[0]).0, events.drop_first()) == Phase::Done,
    decreases events.len(),
{
    if events.len() > 0 {
        let q = next_spec(p, events[0]).0;
        if p == Phase::Failed || q == Phase::Failed {
            lemma_failed_stays(events.drop_first());
        } else {
            lemma_done_from(q, events.drop_first());
        }
    }
}

} // verus!
