//! Single-slot shared-memory channel between forked processes, and the
//! fork-tree launcher that gives each process a distinct rank.

pub mod buffer;
pub mod channel;
pub mod launcher;
pub mod payload;
pub mod region;
pub mod semaphore;
pub mod supervise;

pub use buffer::{ChannelError, TransferBuffer, RECEIVER, SENDER};
pub use channel::{Receiver, Sender};
pub use launcher::{
    parse_process_count, ForkSide, LaunchError, MpiInformation, SpawnState, SpawnStep, DEFAULT_N,
};
pub use payload::Payload;
pub use semaphore::Semaphore;
pub use supervise::{escalation, next_wait_action, ProcessState, TermSignal, WaitAction};
