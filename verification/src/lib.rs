//! An in-process publish/subscribe broadcast channel, verified with Verus.
//!
//! A channel is a registry of subscribers, each owning an unbounded FIFO
//! queue.  Broadcasting a value appends a copy of it to the queue of every
//! registered subscriber whose consumer end is still alive; receiving pops
//! from the front of one subscriber's own queue.  Subscribers are keyed by
//! identifiers the channel mints itself, so no two simultaneously registered
//! subscribers ever share an identifier.
//!
//! The `channel` module holds the executable state machine; `model` holds the
//! mathematical view of a channel and the transition functions the contracts
//! are stated over; `laws` proves the channel's global guarantees (fan-out
//! duplication, post-drop exclusion, FIFO order per subscriber, idempotent
//! destruction) from those contracts.

pub mod model;
pub mod channel;
pub mod laws;

pub use channel::Channel;
pub use channel::RecvError;
pub use channel::SendError;
pub use channel::TryRecvError;
pub use channel::new;
