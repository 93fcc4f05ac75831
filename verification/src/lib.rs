//! An actor-runtime core: a bounded MPSC inbox that serves as each actor's
//! mailbox, a priority-weighted process scheduler, and the waker and timer
//! plumbing that couples the two.
//!
//! The inbox is a fixed-capacity queue whose slot statuses and receiver
//! cursor live in a single packed status word; the scheduler hands out the
//! ready process with the smallest priority-weighted runtime; wakers carry a
//! `(waker id, process id)` pair and deliver readiness marks through an
//! event queue that the worker loop drains.

pub mod actor_ref;
pub mod http;
pub mod inbox;
pub mod laws;
pub mod messages;
pub mod net;
pub mod options;
pub mod process;
pub mod relay;
pub mod scheduler;
pub mod system;
pub mod timers;
pub mod waker;
pub mod worker;
