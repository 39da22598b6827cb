use takeover::error::MigErrorKind;
use takeover::orchestrator::{action, outcome, step, Action, Event, State};

fn drive(events: &[Event]) -> (State, Vec<Action>) {
    let mut state = State::Start;
    let mut actions = vec![];
    for e in events {
        actions.push(action(state));
        state = step(state, *e);
    }
    actions.push(action(state));
    (state, actions)
}

#[test]
fn non_root_aborts_without_cleanup() {
    let (state, actions) = drive(&[Event::Failed(MigErrorKind::NotPrivileged)]);
    assert_eq!(state, State::Aborted(MigErrorKind::NotPrivileged));
    assert_eq!(actions, vec![Action::CheckPrivileges, Action::Stop]);
    assert_eq!(outcome(state), Some(Err(MigErrorKind::NotPrivileged)));
}

#[test]
fn successful_run_visits_every_step() {
    let (state, actions) = drive(&[Event::Succeeded; 5]);
    assert_eq!(state, State::Done);
    assert_eq!(
        actions,
        vec![
            Action::CheckPrivileges,
            Action::CollectInfo,
            Action::Prepare,
            Action::SwapInit,
            Action::Finish,
            Action::Stop
        ]
    );
    assert_eq!(outcome(state), Some(Ok(())));
}

#[test]
fn failed_prepare_cleans_up_then_reports() {
    let (state, actions) =
        drive(&[Event::Succeeded, Event::Succeeded, Event::Failed(MigErrorKind::InsufficientMemory), Event::Succeeded]);
    assert_eq!(state, State::Aborted(MigErrorKind::InsufficientMemory));
    assert_eq!(actions[3], Action::Cleanup);
    assert_eq!(outcome(state), Some(Err(MigErrorKind::InsufficientMemory)));
}

#[test]
fn failed_init_swap_cleans_up() {
    assert_eq!(step(State::Prepared, Event::Failed(MigErrorKind::MountFailed)), State::Cleanup(MigErrorKind::MountFailed));
}

#[test]
fn handoff_always_ends_in_success() {
    assert_eq!(step(State::Handoff, Event::Failed(MigErrorKind::CommandFailed)), State::Done);
    assert_eq!(step(State::Done, Event::Failed(MigErrorKind::CommandFailed)), State::Done);
    assert_eq!(outcome(State::Handoff), None);
    assert_eq!(outcome(State::Cleanup(MigErrorKind::CopyFailed)), None);
}
