//! The claim/publish protocol: how a position selects a slot, how a slot's
//! sequence counter is compared with a position, and which sequence value
//! hands the slot on.
//!
//! Everything here is a pure function of counter values, so the same
//! decisions serve a queue used under exclusive access and one whose counters
//! are shared between producers and consumers.

use vstd::prelude::*;
use crate::counter::{lemma_span, lemma_wrap_add, lemma_wrapping_add, narrow, span, wrap};

verus! {

/// The smallest capacity for which a filled slot and a free slot can be told
/// apart: with a single slot, the sequence that a producer publishes is the
/// one that the next producer waits for.
pub const MIN_CAPACITY: usize = 2;

/// The largest capacity for which the eight-bit comparison is sound: a
/// producer that meets a full queue reads a difference of `1 - capacity` or
/// `-capacity`, which must stay negative in eight signed bits.
pub const MAX_CAPACITY: usize = 128;

/// What a slot's sequence counter says about a position that wants the slot.
#[derive(Clone, Copy, PartialEq, Eq, Debug, Structural)]
pub enum Turn {
    /// The slot has reached the position: it may be claimed.
    Ready,
    /// The slot has not reached the position yet: for a producer the queue is
    /// full, for a consumer it is empty.
    Behind,
    /// The slot is already past the position: a peer claimed it first.
    Ahead,
}

/// A capacity is valid when it is a power of two between [`MIN_CAPACITY`] and
/// [`MAX_CAPACITY`].
pub open spec fn valid_capacity(n: usize) -> bool {
    n == 2 || n == 4 || n == 8 || n == 16 || n == 32 || n == 64 || n == 128
}

/// The wraparound-tolerant difference `seq - target`, taken in eight bits.
pub open spec fn difference(seq: usize, target: usize) -> int {
    narrow(seq - target)
}

/// The role that a slot with sequence counter `seq` plays towards `target`.
pub open spec fn turn(seq: usize, target: usize) -> Turn {
    let d = difference(seq, target);
    if d == 0 {
        Turn::Ready
    } else if d < 0 {
        Turn::Behind
    } else {
        Turn::Ahead
    }
}

proof fn lemma_truncate(x: usize)
    ensures
        (x as i8) as int == narrow(x as int),
{
    assert((x as i8) as int == if x % 256 < 128 {
        (x % 256) as int
    } else {
        (x % 256) as int - 256
    }) by (bit_vector);
}

/// The valid capacities are the numbers from [`MIN_CAPACITY`] to
/// [`MAX_CAPACITY`] with a single bit set.
pub proof fn lemma_capacities(n: usize)
    ensures
        valid_capacity(n) <==> MIN_CAPACITY <= n <= MAX_CAPACITY && n & ((n - 1) as usize) == 0,
{
    assert((n == 2 || n == 4 || n == 8 || n == 16 || n == 32 || n == 64 || n == 128) <==> (2 <= n
        <= 128 && n & ((n - 1) as usize) == 0)) by (bit_vector);
}

/// A valid capacity divides the span of a counter, so a position and the
/// counter that holds it fall on the same slot.
pub proof fn lemma_capacity_divides_span(n: usize)
    requires
        valid_capacity(n),
    ensures
        span() % (n as int) == 0,
{
    lemma_span();
    let s = span();
    if n == 2 {
        assert(s % 2 == 0);
    } else if n == 4 {
        assert(s % 4 == 0);
    } else if n == 8 {
        assert(s % 8 == 0);
    } else if n == 16 {
        assert(s % 16 == 0);
    } else if n == 32 {
        assert(s % 32 == 0);
    } else if n == 64 {
        assert(s % 64 == 0);
    } else {
        assert(s % 128 == 0);
    }
}

/// Masking with `n - 1` is the remainder by `n`.
pub proof fn lemma_mask(pos: usize, n: usize)
    requires
        valid_capacity(n),
    ensures
        pos & ((n - 1) as usize) == pos % n,
{
    if n == 2 {
        assert(pos & 1 == pos % 2) by (bit_vector);
    } else if n == 4 {
        assert(pos & 3 == pos % 4) by (bit_vector);
    } else if n == 8 {
        assert(pos & 7 == pos % 8) by (bit_vector);
    } else if n == 16 {
        assert(pos & 15 == pos % 16) by (bit_vector);
    } else if n == 32 {
        assert(pos & 31 == pos % 32) by (bit_vector);
    } else if n == 64 {
        assert(pos & 63 == pos % 64) by (bit_vector);
    } else {
        assert(pos & 127 == pos % 128) by (bit_vector);
    }
}

/// Tells whether `n` can be the capacity of a queue.
pub fn is_valid_capacity(n: usize) -> (ok: bool)
    ensures
        ok == valid_capacity(n),
{
    proof {
        lemma_capacities(n);
    }
    n >= MIN_CAPACITY && n <= MAX_CAPACITY && n & (n - 1) == 0
}

/// The slot that position `pos` falls on in a buffer of `mask + 1` slots.
pub fn slot_index(pos: usize, mask: usize) -> (idx: usize)
    ensures
        idx == pos & mask,
        idx <= mask,
        mask < usize::MAX && valid_capacity((mask + 1) as usize) ==> idx == pos % ((mask
            + 1) as usize),
{
    proof {
        assert(pos & mask <= mask) by (bit_vector);
        if mask < usize::MAX && valid_capacity((mask + 1) as usize) {
            lemma_mask(pos, (mask + 1) as usize);
        }
    }
    pos & mask
}

/// Computes the difference between a sequence counter and a target in eight
/// signed bits, so that the comparison survives counter wraparound.
pub fn narrow_difference(seq: usize, target: usize) -> (dif: i8)
    ensures
        dif as int == difference(seq, target),
{
    let a: i8 = #[verifier::truncate] (seq as i8);
    let b: i8 = #[verifier::truncate] (target as i8);
    proof {
        lemma_truncate(seq);
        lemma_truncate(target);
    }
    a.wrapping_sub(b)
}

/// The position that follows `pos`.
pub fn advance(pos: usize) -> (next: usize)
    ensures
        next == wrap(pos + 1),
{
    proof {
        lemma_wrapping_add(pos, 1);
    }
    pos.wrapping_add(1)
}

/// What a producer at position `pos` reads from a slot's sequence counter.
///
/// `Ready` means the slot is free for this position, `Behind` that the
/// consumer one lap back has not vacated it (the queue is full), `Ahead` that
/// another producer took the position.
pub fn enqueue_turn(seq: usize, pos: usize) -> (t: Turn)
    ensures
        t == turn(seq, pos),
{
    let dif = narrow_difference(seq, pos);
    if dif == 0 {
        Turn::Ready
    } else if dif < 0 {
        Turn::Behind
    } else {
        Turn::Ahead
    }
}

/// What a consumer at position `pos` reads from a slot's sequence counter.
///
/// The consumer waits for the sequence that the producer of the same position
/// publishes, `pos + 1`. `Ready` means a value is stored, `Behind` that none
/// is (the queue is empty), `Ahead` that another consumer took the position.
pub fn dequeue_turn(seq: usize, pos: usize) -> (t: Turn)
    ensures
        t == turn(seq, wrap(pos + 1)),
{
    let target = advance(pos);
    let dif = narrow_difference(seq, target);
    if dif == 0 {
        Turn::Ready
    } else if dif < 0 {
        Turn::Behind
    } else {
        Turn::Ahead
    }
}

/// The sequence value with which the producer of position `pos` publishes its
/// slot to the consumer of the same position.
pub fn enqueue_sequence(pos: usize) -> (seq: usize)
    ensures
        seq == wrap(pos + 1),
{
    proof {
        lemma_wrapping_add(pos, 1);
    }
    pos.wrapping_add(1)
}

/// The sequence value with which the consumer of position `pos` hands its
/// slot to the producer one lap later, `pos + mask + 1`.
pub fn dequeue_sequence(pos: usize, mask: usize) -> (seq: usize)
    ensures
        seq == wrap(pos + mask + 1),
{
    proof {
        lemma_wrapping_add(pos, mask);
        lemma_wrapping_add(pos.wrapping_add(mask), 1);
        lemma_wrap_add(pos + mask, 1);
    }
    pos.wrapping_add(mask).wrapping_add(1)
}

} // verus!
