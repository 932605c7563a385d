//! One call of `enqueue` or `dequeue`, access by access.
//!
//! A call is a short conversation with shared memory: read the position
//! counter, read the sequence counter of the position's slot, try to claim
//! the position, and then use the slot and hand it on. [`Step`] names the
//! access that comes next, [`Reply`] what the access returned, and
//! [`proceed`] decides how the call goes on. Whoever holds the memory
//! performs the accesses: a queue under exclusive access from its own
//! fields, a shared queue with atomic operations.

use vstd::prelude::*;
use crate::counter::wrap;
use crate::protocol::{
    advance, dequeue_sequence, dequeue_turn, enqueue_sequence, enqueue_turn, slot_index, turn,
    Turn,
};

verus! {

/// Which of the two calls is under way.
#[derive(Clone, Copy, PartialEq, Eq, Debug, Structural)]
pub enum Role {
    /// An `enqueue`: works on the enqueue position and fills a slot.
    Producer,
    /// A `dequeue`: works on the dequeue position and empties a slot.
    Consumer,
}

/// How an access is ordered against the other accesses of its caller.
#[derive(Clone, Copy, PartialEq, Eq, Debug, Structural)]
pub enum Order {
    /// No ordering is asked for.
    Relaxed,
    /// What was written before the matching release store is visible after
    /// this load.
    Acquire,
    /// What was written before this store is visible after the matching
    /// acquire load.
    Release,
}

/// The access to shared memory that a call makes next.
#[derive(Clone, Copy, PartialEq, Eq, Debug, Structural)]
pub enum Step {
    /// Read the position counter of the call's role.
    LoadPosition,
    /// Read the sequence counter of `slot`, the slot of position `pos`.
    LoadSequence { pos: usize, slot: usize },
    /// Compare-and-swap the position counter from `pos` to `next`.
    Claim { pos: usize, next: usize },
    /// The position is claimed and `slot` belongs to the call: a producer
    /// moves its value in, a consumer moves the value out; then store
    /// `sequence` into the slot's sequence counter. The call ends with
    /// success.
    Transfer { slot: usize, sequence: usize },
    /// Touch nothing more. The call ends without effect: for a producer the
    /// queue is full, for a consumer it is empty.
    Fail,
}

/// What an access returned.
#[derive(Clone, Copy, PartialEq, Eq, Debug, Structural)]
pub enum Reply {
    /// The word that a load read.
    Read(usize),
    /// The compare-and-swap succeeded.
    Won,
    /// The compare-and-swap failed.
    Lost,
}

/// The sequence value that a slot must show for position `pos` to be
/// claimed: for a producer the position itself, for a consumer the value its
/// producer publishes.
pub open spec fn target(role: Role, pos: usize) -> usize {
    match role {
        Role::Producer => pos,
        Role::Consumer => wrap(pos + 1),
    }
}

/// The sequence value with which the owner of position `pos` hands its slot
/// on: a producer to the consumer of the same position, a consumer to the
/// producer one lap later.
pub open spec fn handover(role: Role, pos: usize, mask: usize) -> usize {
    match role {
        Role::Producer => wrap(pos + 1),
        Role::Consumer => wrap(pos + mask + 1),
    }
}

/// How a call goes on after `step` was answered with `reply`.
///
/// - A position that was read is followed by a look at its slot.
/// - A slot that is ready is claimed; a slot that is behind ends the call; a
///   slot that is ahead sends the call back to read the position again.
/// - A claim that was won is followed by the transfer; a claim that was lost
///   sends the call back to read the position again.
/// - A call that has ended stays where it is, and a reply that does not
///   answer the step sends the call back to the start.
pub open spec fn successor(role: Role, step: Step, reply: Reply, mask: usize) -> Step {
    match (step, reply) {
        (Step::LoadPosition, Reply::Read(pos)) => Step::LoadSequence { pos, slot: pos & mask },
        (Step::LoadSequence { pos, slot }, Reply::Read(seq)) => match turn(seq, target(role, pos)) {
            Turn::Ready => Step::Claim { pos, next: wrap(pos + 1) },
            Turn::Behind => Step::Fail,
            Turn::Ahead => Step::LoadPosition,
        },
        (Step::Claim { pos, next }, Reply::Won) => Step::Transfer {
            slot: pos & mask,
            sequence: handover(role, pos, mask),
        },
        (Step::Claim { pos, next }, Reply::Lost) => Step::LoadPosition,
        (Step::Transfer { slot, sequence }, _) => step,
        (Step::Fail, _) => step,
        _ => Step::LoadPosition,
    }
}

/// The ordering that `step` asks of its access: positions are read and
/// swapped relaxed, since the swap itself validates them; a sequence counter
/// is read with acquire and, at the end of a transfer, stored with release,
/// so that the slot's value passes from the one who stored it to the one who
/// finds the sequence.
pub open spec fn ordering(step: Step) -> Order {
    match step {
        Step::LoadPosition => Order::Relaxed,
        Step::LoadSequence { pos, slot } => Order::Acquire,
        Step::Claim { pos, next } => Order::Relaxed,
        Step::Transfer { slot, sequence } => Order::Release,
        Step::Fail => Order::Relaxed,
    }
}

/// The step with which every call begins.
pub fn first() -> (step: Step)
    ensures
        step == Step::LoadPosition,
{
    Step::LoadPosition
}

/// Decides how a call of `role` goes on after `step` was answered with
/// `reply`, on a queue of `mask + 1` slots.
pub fn proceed(role: Role, step: Step, reply: Reply, mask: usize) -> (next: Step)
    ensures
        next == successor(role, step, reply, mask),
{
    match step {
        Step::LoadPosition => match reply {
            Reply::Read(pos) => Step::LoadSequence { pos, slot: slot_index(pos, mask) },
            _ => Step::LoadPosition,
        },
        Step::LoadSequence { pos, slot } => match reply {
            Reply::Read(seq) => {
                let found = match role {
                    Role::Producer => enqueue_turn(seq, pos),
                    Role::Consumer => dequeue_turn(seq, pos),
                };
                match found {
                    Turn::Ready => Step::Claim { pos, next: advance(pos) },
                    Turn::Behind => Step::Fail,
                    Turn::Ahead => Step::LoadPosition,
                }
            },
            _ => Step::LoadPosition,
        },
        Step::Claim { pos, next } => match reply {
            Reply::Won => {
                let sequence = match role {
                    Role::Producer => enqueue_sequence(pos),
                    Role::Consumer => dequeue_sequence(pos, mask),
                };
                Step::Transfer { slot: slot_index(pos, mask), sequence }
            },
            Reply::Lost => Step::LoadPosition,
            Reply::Read(_) => Step::LoadPosition,
        },
        Step::Transfer { slot, sequence } => step,
        Step::Fail => step,
    }
}

/// Tells with which ordering the access of `step` is made.
pub fn order(step: Step) -> (o: Order)
    ensures
        o == ordering(step),
{
    match step {
        Step::LoadSequence { pos, slot } => Order::Acquire,
        Step::Transfer { slot, sequence } => Order::Release,
        _ => Order::Relaxed,
    }
}

} // verus!
