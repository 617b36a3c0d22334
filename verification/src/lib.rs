//! A small cooperative scheduling core: poll-based futures, wakers, a
//! single-consumer channel and a single-threaded executor that parks while
//! nothing can make progress.
//!
//! - [`task`]: what a poll answers, wakers, poll contexts, the future trait.
//! - [`channel`]: the rules of a channel as a plain state with exact
//!   contracts, and the thread-safe handles that apply them under a lock.
//! - [`notifier`]: the flag and condition variable at which an executor parks.
//! - [`executor`]: the queue of tasks, one pass over it, the decision that
//!   follows a pass, and the run that strings passes together.
//! - [`sync`]: what is taken on trust from the standard library.

pub mod channel;
pub mod executor;
pub mod future;
pub mod notifier;
pub mod sync;
pub mod task;
