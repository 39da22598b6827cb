use vstd::prelude::*;

use crate::error::MigErrorKind;

verus! {

/// Where Stage 1 stands.
#[derive(Clone, Copy, Debug, PartialEq, Eq, Structural)]
pub enum State {
    /// Nothing checked yet.
    Start,
    /// The process runs as root.
    PrivChecked,
    /// The session state is built.
    InfoCollected,
    /// The in-memory root and the handoff configuration are in place.
    Prepared,
    /// The new init is bind-mounted over the old one: there is no way back.
    Handoff,
    /// A step failed before the handoff; the mounts must be undone.
    Cleanup(MigErrorKind),
    /// Stage 1 ended with the handoff done.
    Done,
    /// Stage 1 ended with an error.
    Aborted(MigErrorKind),
}

/// What the last action came to.
#[derive(Clone, Copy, Debug, PartialEq, Eq, Structural)]
pub enum Event {
    Succeeded,
    Failed(MigErrorKind),
}

/// What to do in a state.
#[derive(Clone, Copy, Debug, PartialEq, Eq, Structural)]
pub enum Action {
    /// Check that the process runs as root.
    CheckPrivileges,
    /// Build the session state from the options.
    CollectInfo,
    /// Build the in-memory root and write the handoff configuration.
    Prepare,
    /// Bind-mount the new init and ask init to re-execute.
    SwapInit,
    /// Flush the logs, sync, and give init time to re-execute.
    Finish,
    /// Unmount what was mounted and remove the in-memory root.
    Cleanup,
    /// Nothing: Stage 1 is over.
    Stop,
}

/// The transitions of Stage 1.
pub open spec fn next_state(s: State, e: Event) -> State {
    match (s, e) {
        (State::Start, Event::Succeeded) => State::PrivChecked,
        (State::Start, Event::Failed(k)) => State::Aborted(k),
        (State::PrivChecked, Event::Succeeded) => State::InfoCollected,
        (State::InfoCollected, Event::Succeeded) => State::Prepared,
        (State::Prepared, Event::Succeeded) => State::Handoff,
        (State::PrivChecked, Event::Failed(k)) => State::Cleanup(k),
        (State::InfoCollected, Event::Failed(k)) => State::Cleanup(k),
        (State::Prepared, Event::Failed(k)) => State::Cleanup(k),
        (State::Handoff, _) => State::Done,
        (State::Cleanup(k), _) => State::Aborted(k),
        (State::Done, _) => State::Done,
        (State::Aborted(k), _) => State::Aborted(k),
    }
}

/// The action each state calls for.
pub open spec fn action_for(s: State) -> Action {
    match s {
        State::Start => Action::CheckPrivileges,
        State::PrivChecked => Action::CollectInfo,
        State::InfoCollected => Action::Prepare,
        State::Prepared => Action::SwapInit,
        State::Handoff => Action::Finish,
        State::Cleanup(_) => Action::Cleanup,
        State::Done => Action::Stop,
        State::Aborted(_) => Action::Stop,
    }
}

/// The state after a sequence of events.
pub open spec fn run(s: State, events: Seq<Event>) -> State
    decreases events.len(),
{
    if events.len() == 0 {
        s
    } else {
        run(next_state(s, events[0]), events.drop_first())
    }
}

/// The next state after event `e` in state `s`.
pub fn step(s: State, e: Event) -> (r: State)
    ensures
        r == next_state(s, e),
{
    match (s, e) {
        (State::Start, Event::Succeeded) => State::PrivChecked,
        (State::Start, Event::Failed(k)) => State::Aborted(k),
        (State::PrivChecked, Event::Succeeded) => State::InfoCollected,
        (State::InfoCollected, Event::Succeeded) => State::Prepared,
        (State::Prepared, Event::Succeeded) => State::Handoff,
        (State::PrivChecked, Event::Failed(k)) => State::Cleanup(k),
        (State::InfoCollected, Event::Failed(k)) => State::Cleanup(k),
        (State::Prepared, Event::Failed(k)) => State::Cleanup(k),
        (State::Handoff, _) => State::Done,
        (State::Cleanup(k), _) => State::Aborted(k),
        (State::Done, _) => State::Done,
        (State::Aborted(k), _) => State::Aborted(k),
    }
}

/// The action that state `s` calls for.
pub fn action(s: State) -> (r: Action)
    ensures
        r == action_for(s),
{
    match s {
        State::Start => Action::CheckPrivileges,
        State::PrivChecked => Action::CollectInfo,
        State::InfoCollected => Action::Prepare,
        State::Prepared => Action::SwapInit,
        State::Handoff => Action::Finish,
        State::Cleanup(_) => Action::Cleanup,
        State::Done => Action::Stop,
        State::Aborted(_) => Action::Stop,
    }
}

/// Whether Stage 1 is over, and with which outcome.
pub fn outcome(s: State) -> (r: Option<Result<(), MigErrorKind>>)
    ensures
        s == State::Done ==> r == Some(Ok::<(), MigErrorKind>(())),
        s is Aborted ==> r == Some(Err::<(), MigErrorKind>(s->Aborted_0)),
        !(s == State::Done) && !(s is Aborted) ==> r is None,
{
    match s {
        State::Done => Some(Ok(())),
        State::Aborted(k) => Some(Err(k)),
        _ => None,
    }
}

/// Past the handoff, whatever happens, Stage 1 can only end in success, and
/// cleanup never runs.
pub proof fn lemma_handoff_only_succeeds(events: Seq<Event>)
    ensures
        events.len() > 0 ==> run(State::Handoff, events) == State::Done,
        forall|i: int| 0 <= i <= events.len() ==> !(#[trigger] run(State::Handoff, events.subrange(0, i))
            is Cleanup),
    decreases events.len(),
{
    assert forall|i: int| 0 <= i <= events.len() implies !(#[trigger] run(State::Handoff, events.subrange(0, i))
        is Cleanup) by {
        if i > 0 {
            lemma_done_stays(events.subrange(0, i).drop_first());
        }
    }
    if events.len() > 0 {
        lemma_done_stays(events.drop_first());
    }
}

proof fn lemma_done_stays(events: Seq<Event>)
    ensures
        run(State::Done, events) == State::Done,
    decreases events.len(),
{
    if events.len() > 0 {
        lemma_done_stays(events.drop_first());
    }
}

/// A failure between the privilege check and the handoff leads through
/// cleanup to an error that carries the failure, whatever happens next.
pub proof fn lemma_failure_cleans_up(s: State, k: MigErrorKind, events: Seq<Event>)
    requires
        s == State::PrivChecked || s == State::InfoCollected || s == State::Prepared,
    ensures
        next_state(s, Event::Failed(k)) == State::Cleanup(k),
        action_for(State::Cleanup(k)) == Action::Cleanup,
        events.len() > 0 ==> run(State::Cleanup(k), events) == State::Aborted(k),
    decreases events.len(),
{
    if events.len() > 0 {
        lemma_aborted_stays(k, events.drop_first());
    }
}

proof fn lemma_aborted_stays(k: MigErrorKind, events: Seq<Event>)
    ensures
        run(State::Aborted(k), events) == State::Aborted(k),
    decreases events.len(),
{
    if events.len() > 0 {
        lemma_aborted_stays(k, events.drop_first());
    }
}

} // verus!
