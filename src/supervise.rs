//! Decisions for waiting on a peer process to end: one poll at a time, with
//! an optional deadline, and the escalation from a graceful signal to a
//! forceful one.

use vstd::prelude::*;

verus! {

/// What a poll of the process table found out about the awaited process.
#[derive(Debug, Clone, Copy, PartialEq, Eq, Structural)]
pub enum ProcessState {
    /// No such process is listed.
    Gone,
    /// It has terminated and waits to be reaped.
    Zombie,
    /// It is still running.
    Alive,
}

/// What the waiter does after a poll.
#[derive(Debug, Clone, Copy, PartialEq, Eq, Structural)]
pub enum WaitAction {
    /// Stop waiting: the process is over.
    Finished,
    /// Poll again.
    Poll,
    /// Stop waiting and run the deadline's action.
    TimedOut,
}

/// A termination signal, from graceful to forceful.
#[derive(Debug, Clone, Copy, PartialEq, Eq, Structural)]
pub enum TermSignal {
    Abort,
    Kill,
}

/// Decides after one poll: the wait is over once the process is gone or a
/// zombie; otherwise it times out once `elapsed_nanos` reaches the deadline,
/// if there is one, and goes on polling until then.
pub fn next_wait_action(state: ProcessState, elapsed_nanos: u128, timeout_nanos: Option<u128>) -> (r:
    WaitAction)
    ensures
        state != ProcessState::Alive ==> r == WaitAction::Finished,
        state == ProcessState::Alive ==> r == (match timeout_nanos {
            Some(t) => if elapsed_nanos >= t {
                WaitAction::TimedOut
            } else {
                WaitAction::Poll
            },
            None => WaitAction::Poll,
        }),
{
    match state {
        ProcessState::Alive => match timeout_nanos {
            Some(t) => {
                if elapsed_nanos >= t {
                    WaitAction::TimedOut
                } else {
                    WaitAction::Poll
                }
            },
            None => WaitAction::Poll,
        },
        _ => WaitAction::Finished,
    }
}

/// The signal to send after `sent` was delivered (`accepted`) or refused: a
/// refused abort escalates to a kill, and nothing follows otherwise.
pub fn escalation(sent: TermSignal, accepted: bool) -> (r: Option<TermSignal>)
    ensures
        r == (if sent == TermSignal::Abort && !accepted {
            Some(TermSignal::Kill)
        } else {
            None
        }),
{
    match sent {
        TermSignal::Abort => {
            if accepted {
                None
            } else {
                Some(TermSignal::Kill)
            }
        },
        TermSignal::Kill => None,
    }
}

} // verus!
