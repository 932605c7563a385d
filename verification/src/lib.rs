//! A bounded multi-producer multi-consumer queue on a ring of slots, each
//! guarded by a sequence counter.
//!
//! - [`counter`]: the arithmetic of counters that wrap at the width of a
//!   machine word.
//! - [`protocol`]: the decisions of the claim/publish protocol, as functions
//!   of counter values.
//! - [`call`]: one call of `enqueue` or `dequeue` as a sequence of accesses
//!   to shared memory, and the function that decides how a call goes on.
//! - [`mpmc`]: the queue under exclusive access, which runs each call to its
//!   end from its own fields.
//! - [`model`] and [`laws`]: the queue as a sequence of values, and what
//!   holds of every run of calls on it.
//! - [`interleaving`] and [`conservation`]: the calls of many producers and
//!   consumers interleaved access by access, and the proof that no value is
//!   lost or delivered twice.
//!
//! A queue that is shared between threads or interrupt handlers answers the
//! accesses of [`call`] with atomic operations; that part is not in this
//! crate.

pub mod counter;
pub mod protocol;
pub mod call;
pub mod model;
pub mod mpmc;
pub mod laws;
pub mod interleaving;
pub mod conservation;
