//! A status aggregation service library.
//!
//! External probes push up/down observations for named services; consumers
//! read the latest state, a bounded history of recent observations, and
//! subscribe to a live stream of updates.  The heart of the library is a
//! registry of checkers, each holding a human-facing spec and a bounded
//! ring-buffer history, with a broadcast endpoint per checker and one for
//! the registry membership itself.

pub mod api;
pub mod channel;
pub mod checker;
pub mod digits;
pub mod jsonin;
pub mod jsonout;
pub mod laws;
pub mod messages;
pub mod names;
pub mod registry;
pub mod ringbuffer;
pub mod state;
pub mod text;
pub mod time;
