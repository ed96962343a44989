use shm_mpi::{escalation, next_wait_action, ProcessState, Semaphore, TermSignal, WaitAction};

#[test]
fn wait_ends_when_process_is_over() {
    assert_eq!(next_wait_action(ProcessState::Zombie, 0, None), WaitAction::Finished);
    assert_eq!(next_wait_action(ProcessState::Gone, 5, Some(1)), WaitAction::Finished);
    assert_eq!(next_wait_action(ProcessState::Zombie, 50, Some(10)), WaitAction::Finished);
}

#[test]
fn wait_polls_until_deadline() {
    assert_eq!(next_wait_action(ProcessState::Alive, 0, None), WaitAction::Poll);
    assert_eq!(next_wait_action(ProcessState::Alive, u128::MAX, None), WaitAction::Poll);
    assert_eq!(next_wait_action(ProcessState::Alive, 9, Some(10)), WaitAction::Poll);
    assert_eq!(next_wait_action(ProcessState::Alive, 10, Some(10)), WaitAction::TimedOut);
    assert_eq!(next_wait_action(ProcessState::Alive, 11, Some(10)), WaitAction::TimedOut);
}

#[test]
fn refused_abort_escalates_to_kill() {
    assert_eq!(escalation(TermSignal::Abort, false), Some(TermSignal::Kill));
    assert_eq!(escalation(TermSignal::Abort, true), None);
    assert_eq!(escalation(TermSignal::Kill, false), None);
    assert_eq!(escalation(TermSignal::Kill, true), None);
}

#[test]
fn semaphore_handle_keeps_its_id() {
    let s = Semaphore::from_id(42, 3, "data");
    assert_eq!(s.id(), 42);
    assert_eq!(s.users(), 3);
}
