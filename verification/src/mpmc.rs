//! A fixed-capacity queue over a ring of slots, each guarded by a sequence
//! counter.
//!
//! The queue owns `N` slots and two position counters that only increase.
//! Position `p` falls on slot `p mod N`. A slot whose sequence counter equals
//! a position is free for the producer of that position; a slot whose
//! sequence counter is one more holds the value of that position, for its
//! consumer. The counters wrap at the width of a machine word, and a slot is
//! compared with a position in eight signed bits only, which is sound for the
//! capacities that [`valid_capacity`] admits.
//!
//! The methods take the queue by exclusive reference and run one call of the
//! protocol to its end: they answer each [`Step`] of the call from the
//! queue's own fields. Without a peer every claim is won at once, so a call
//! never goes back to an earlier step.

use vstd::prelude::*;
use vstd::arithmetic::div_mod::{lemma_mod_add_multiples_vanish, lemma_small_mod};
use crate::call::{first, proceed, Reply, Role, Step};
use crate::counter::{
    distance, lemma_distance_grows, lemma_distance_reaches, lemma_distance_shrinks,
    lemma_narrow_wrap, lemma_remainders_differ, lemma_wrap_add, lemma_wrap_add_mod,
    lemma_wrap_mod, span, wrap,
};
use crate::model::{after_dequeue, after_enqueue, dequeue_result, enqueue_result};
use crate::protocol::{lemma_capacity_divides_span, lemma_mask, turn, valid_capacity, Turn};

verus! {

/// One slot of the ring: room for one value, and the sequence counter that
/// says whose turn it is to use the slot.
pub struct Cell<T> {
    pub data: Option<T>,
    pub sequence: usize,
}

impl<T> Cell<T> {
    fn new(seq: usize) -> (cell: Self)
        ensures
            cell == (Cell::<T> { data: None, sequence: seq }),
    {
        Cell { data: None, sequence: seq }
    }
}

/// Builds the slot array with `core::array::from_fn`, which fills each place
/// with what the closure returns for it; the closure ignores the index, so
/// every slot is `Cell::new(0)`: empty, with sequence counter zero.
#[verifier::external_body]
fn blank_cells<T, const N: usize>() -> (cells: [Cell<T>; N])
    ensures
        forall|i: int|
            0 <= i < N ==> #[trigger] cells[i] == (Cell::<T> { data: None, sequence: 0 }),
{
    core::array::from_fn(|_| Cell::new(0))
}

/// A queue with room for `N` values.
pub struct MpMcQueue<T, const N: usize> {
    buffer: [Cell<T>; N],
    dequeue_pos: usize,
    enqueue_pos: usize,
}

/// A queue with room for 2 values.
pub type Q2<T> = MpMcQueue<T, 2>;

/// A queue with room for 4 values.
pub type Q4<T> = MpMcQueue<T, 4>;

/// A queue with room for 8 values.
pub type Q8<T> = MpMcQueue<T, 8>;

/// A queue with room for 16 values.
pub type Q16<T> = MpMcQueue<T, 16>;

/// A queue with room for 32 values.
pub type Q32<T> = MpMcQueue<T, 32>;

/// A queue with room for 64 values.
pub type Q64<T> = MpMcQueue<T, 64>;

/// How many accesses a call without a peer still has before it, at most.
spec fn rank(step: Step) -> nat {
    match step {
        Step::LoadPosition => 3,
        Step::LoadSequence { pos, slot } => 2,
        Step::Claim { pos, next } => 1,
        Step::Transfer { slot, sequence } => 0,
        Step::Fail => 0,
    }
}

impl<T, const N: usize> View for MpMcQueue<T, N> {
    type V = Seq<T>;

    /// The stored values, oldest first.
    open spec fn view(&self) -> Seq<T> {
        Seq::new(self.count() as nat, |k: int| self.cells()[self.slot(k)].data->0)
    }
}

impl<T, const N: usize> MpMcQueue<T, N> {
    /// The counter of the next position a producer claims.
    pub closed spec fn enqueue_position(&self) -> usize {
        self.enqueue_pos
    }

    /// The counter of the next position a consumer claims.
    pub closed spec fn dequeue_position(&self) -> usize {
        self.dequeue_pos
    }

    /// The `N` slots.
    pub closed spec fn cells(&self) -> Seq<Cell<T>> {
        self.buffer@
    }

    /// How many positions have been enqueued and not yet dequeued.
    pub open spec fn count(&self) -> int {
        distance(self.dequeue_position(), self.enqueue_position())
    }

    /// The slot of the position `k` places past the dequeue position.
    pub open spec fn slot(&self, k: int) -> int {
        (self.dequeue_position() + k) % (N as int)
    }

    /// The slot `k` places past the dequeue position is in its turn: within
    /// the stored range it holds a value and the sequence its producer
    /// published; beyond it, it is empty and waits for its producer.
    pub open spec fn in_turn(&self, k: int) -> bool {
        let cell = self.cells()[self.slot(k)];
        if k < self.count() {
            cell.data is Some && cell.sequence == wrap(self.dequeue_position() + k + 1)
        } else {
            cell.data is None && cell.sequence == wrap(self.dequeue_position() + k)
        }
    }

    /// The queue's invariant: a valid capacity, no more positions in flight
    /// than slots, and every slot in its turn.
    pub open spec fn wf(&self) -> bool {
        &&& valid_capacity(N)
        &&& self.cells().len() == N
        &&& self.count() <= N
        &&& forall|k: int| 0 <= k < N ==> #[trigger] self.in_turn(k)
    }

    /// Creates an empty queue.
    ///
    /// Every slot starts empty with its own index as sequence counter, and
    /// both positions start at zero.
    pub fn new() -> (q: Self)
        requires
            valid_capacity(N),
        ensures
            q.wf(),
            q@ == Seq::<T>::empty(),
            q.enqueue_position() == 0,
            q.dequeue_position() == 0,
            forall|i: int|
                0 <= i < N ==> #[trigger] q.cells()[i] == (Cell::<T> {
                    data: None,
                    sequence: i as usize,
                }),
    {
        let mut cells: [Cell<T>; N] = blank_cells();
        let mut cell_count: usize = 0;
        while cell_count != N
            invariant
                cell_count <= N,
                forall|j: int| 0 <= j < N ==> (#[trigger] cells[j]).data is None,
                forall|j: int| 0 <= j < cell_count ==> (#[trigger] cells[j]).sequence == j,
            decreases N - cell_count,
        {
            cells[cell_count] = Cell::new(cell_count);
            cell_count += 1;
        }
        let q = MpMcQueue { buffer: cells, dequeue_pos: 0, enqueue_pos: 0 };
        proof {
            lemma_small_mod(0, span() as nat);
            assert forall|k: int| 0 <= k < N implies #[trigger] q.in_turn(k) by {
                lemma_small_mod(k as nat, N as nat);
                lemma_small_mod(k as nat, span() as nat);
            }
        }
        q
    }

    /// Takes the oldest value out of the queue, or returns `None` if the
    /// queue is empty.
    ///
    /// The consumer reads the slot of the dequeue position. If the slot holds
    /// the value of that position, it advances the position, moves the value
    /// out and hands the slot to the producer one lap later, with sequence
    /// `position + N`. If the slot still waits for its producer, the queue is
    /// empty and nothing changes.
    pub fn dequeue(&mut self) -> (r: Option<T>)
        requires
            old(self).wf(),
        ensures
            final(self).wf(),
            r == dequeue_result(old(self)@),
            final(self)@ == after_dequeue(old(self)@),
            r is None ==> *final(self) == *old(self),
            r is Some ==> {
                &&& final(self).enqueue_position() == old(self).enqueue_position()
                &&& final(self).dequeue_position() == wrap(old(self).dequeue_position() + 1)
                &&& final(self).cells() == old(self).cells().update(
                    (old(self).dequeue_position() % N) as int,
                    Cell { data: None, sequence: wrap(old(self).dequeue_position() + N) },
                )
            },
    {
        let ghost before = *self;
        let mut step = first();
        loop
            invariant
                before == *old(self),
                before.wf(),
                before.in_dequeue(*self, step),
            decreases rank(step),
        {
            proof {
                before.lemma_dequeue_turn();
                lemma_mask(before.dequeue_pos, N);
            }
            let reply = match step {
                Step::LoadPosition => Reply::Read(self.dequeue_pos),
                Step::LoadSequence { pos, slot } => Reply::Read(self.buffer[slot].sequence),
                Step::Claim { pos, next } => {
                    if self.dequeue_pos == pos {
                        self.dequeue_pos = next;
                        Reply::Won
                    } else {
                        Reply::Lost
                    }
                },
                Step::Transfer { slot, sequence } => {
                    let data = self.buffer[slot].data.take();
                    self.buffer[slot].sequence = sequence;
                    proof {
                        assert(self.buffer@ =~= before.buffer@.update(
                            slot as int,
                            Cell { data: None, sequence },
                        ));
                        before.lemma_dequeued(*self);
                    }
                    return data;
                },
                Step::Fail => {
                    return None;
                },
            };
            step = proceed(Role::Consumer, step, reply, N - 1);
        }
    }

    /// Adds `item` at the back of the queue, or hands it back if the queue is
    /// full.
    ///
    /// The producer reads the slot of the enqueue position. If the slot is
    /// free for that position, it advances the position, stores the value and
    /// publishes the slot to the position's consumer, with sequence
    /// `position + 1`. If the slot still belongs to the position one lap
    /// back, the queue is full and nothing changes.
    pub fn enqueue(&mut self, item: T) -> (r: Result<(), T>)
        requires
            old(self).wf(),
        ensures
            final(self).wf(),
            r == enqueue_result(old(self)@, N as nat, item),
            final(self)@ == after_enqueue(old(self)@, N as nat, item),
            r is Err ==> *final(self) == *old(self),
            r is Ok ==> {
                &&& final(self).dequeue_position() == old(self).dequeue_position()
                &&& final(self).enqueue_position() == wrap(old(self).enqueue_position() + 1)
                &&& final(self).cells() == old(self).cells().update(
                    (old(self).enqueue_position() % N) as int,
                    Cell { data: Some(item), sequence: wrap(old(self).enqueue_position() + 1) },
                )
            },
    {
        let ghost before = *self;
        let mut step = first();
        loop
            invariant
                before == *old(self),
                before.wf(),
                before.in_enqueue(*self, step),
            decreases rank(step),
        {
            proof {
                before.lemma_enqueue_turn();
                lemma_mask(before.enqueue_pos, N);
            }
            let reply = match step {
                Step::LoadPosition => Reply::Read(self.enqueue_pos),
                Step::LoadSequence { pos, slot } => Reply::Read(self.buffer[slot].sequence),
                Step::Claim { pos, next } => {
                    if self.enqueue_pos == pos {
                        self.enqueue_pos = next;
                        Reply::Won
                    } else {
                        Reply::Lost
                    }
                },
                Step::Transfer { slot, sequence } => {
                    self.buffer[slot].data = Some(item);
                    self.buffer[slot].sequence = sequence;
                    proof {
                        assert(self.buffer@ =~= before.buffer@.update(
                            slot as int,
                            Cell { data: Some(item), sequence },
                        ));
                        before.lemma_enqueued(*self, item);
                    }
                    return Ok(());
                },
                Step::Fail => {
                    return Err(item);
                },
            };
            step = proceed(Role::Producer, step, reply, N - 1);
        }
    }

    /// Where a dequeue stands: before the claim nothing has changed and the
    /// call knows the dequeue position; at the transfer the position is
    /// advanced and the slot of the oldest value waits to be emptied.
    spec fn in_dequeue(&self, now: Self, step: Step) -> bool {
        let pos = self.dequeue_pos;
        match step {
            Step::LoadPosition => now == *self,
            Step::LoadSequence { pos: p, slot } => now == *self && p == pos && slot == pos % N,
            Step::Claim { pos: p, next } => now == *self && p == pos && next == wrap(pos + 1)
                && self@.len() > 0,
            Step::Transfer { slot, sequence } => {
                &&& self@.len() > 0
                &&& now.buffer == self.buffer
                &&& now.enqueue_pos == self.enqueue_pos
                &&& now.dequeue_pos == wrap(pos + 1)
                &&& slot == pos % N
                &&& sequence == wrap(pos + N)
            },
            Step::Fail => now == *self && self@.len() == 0,
        }
    }

    /// Where an enqueue stands: before the claim nothing has changed and the
    /// call knows the enqueue position; at the transfer the position is
    /// advanced and the slot past the stored values waits to be filled.
    spec fn in_enqueue(&self, now: Self, step: Step) -> bool {
        let pos = self.enqueue_pos;
        match step {
            Step::LoadPosition => now == *self,
            Step::LoadSequence { pos: p, slot } => now == *self && p == pos && slot == pos % N,
            Step::Claim { pos: p, next } => now == *self && p == pos && next == wrap(pos + 1)
                && self@.len() < N,
            Step::Transfer { slot, sequence } => {
                &&& self@.len() < N
                &&& now.buffer == self.buffer
                &&& now.dequeue_pos == self.dequeue_pos
                &&& now.enqueue_pos == wrap(pos + 1)
                &&& slot == pos % N
                &&& sequence == wrap(pos + 1)
            },
            Step::Fail => now == *self && self@.len() >= N,
        }
    }

    /// What the consumer finds at the dequeue position: the slot of the
    /// oldest value, published, or, in an empty queue, a slot that still
    /// waits for its producer. It never finds the slot ahead of it.
    pub proof fn lemma_dequeue_turn(&self)
        requires
            self.wf(),
        ensures
            self.dequeue_position() % N == self.slot(0),
            turn(
                self.cells()[self.slot(0)].sequence,
                wrap(self.dequeue_position() + 1),
            ) == if self@.len() > 0 {
                Turn::Ready
            } else {
                Turn::Behind
            },
            self@.len() > 0 ==> self.cells()[self.slot(0)].data == Some(self@[0]),
    {
        let deq = self.dequeue_position() as int;
        assert(self.in_turn(0));
        if self.count() == 0 {
            lemma_narrow_wrap(deq, deq + 1);
        }
    }

    /// What the producer finds at the enqueue position: the slot just past
    /// the stored values, free, or, in a full queue, the slot of the oldest
    /// value, one lap behind. It never finds the slot ahead of it.
    pub proof fn lemma_enqueue_turn(&self)
        requires
            self.wf(),
        ensures
            self.enqueue_position() % N == self.slot(
                if self@.len() < N {
                    self@.len() as int
                } else {
                    0
                },
            ),
            turn(
                self.cells()[(self.enqueue_position() % N) as int].sequence,
                self.enqueue_position(),
            ) == if self@.len() < N {
                Turn::Ready
            } else {
                Turn::Behind
            },
    {
        let len = self.count();
        let deq = self.dequeue_position() as int;
        lemma_capacity_divides_span(N);
        lemma_distance_reaches(self.dequeue_position(), self.enqueue_position());
        lemma_wrap_mod(deq + len, N as int);
        if len < N {
            assert(self.in_turn(len));
        } else {
            lemma_mod_add_multiples_vanish(deq, N as int);
            assert(self.in_turn(0));
            lemma_narrow_wrap(deq + 1, deq + N);
        }
    }

    /// The state after a claimed dequeue is well formed and holds the same
    /// values but the oldest.
    proof fn lemma_dequeued(&self, next: Self)
        requires
            self.wf(),
            self.count() > 0,
            next.dequeue_position() == wrap(self.dequeue_position() + 1),
            next.enqueue_position() == self.enqueue_position(),
            next.cells() == self.cells().update(
                self.slot(0),
                Cell { data: None, sequence: wrap(self.dequeue_position() + N) },
            ),
        ensures
            next.wf(),
            next@ == self@.drop_first(),
    {
        let len = self.count();
        let deq = self.dequeue_position() as int;
        lemma_capacity_divides_span(N);
        lemma_distance_shrinks(self.dequeue_position(), self.enqueue_position());
        assert(next.count() == len - 1);
        assert forall|k: int| 0 <= k < N implies #[trigger] next.in_turn(k) by {
            lemma_wrap_add_mod(deq + 1, k, N as int);
            lemma_wrap_add(deq + 1, k);
            lemma_wrap_add(deq + 1, k + 1);
            if k + 1 < N {
                assert(next.slot(k) == self.slot(k + 1));
                assert(self.in_turn(k + 1));
                lemma_remainders_differ(deq, k + 1, 0, N as int);
            } else {
                lemma_mod_add_multiples_vanish(deq, N as int);
                assert(next.slot(k) == self.slot(0));
            }
        }
        assert forall|k: int| 0 <= k < len - 1 implies next@[k] == self@[k + 1] by {
            lemma_wrap_add_mod(deq + 1, k, N as int);
            lemma_remainders_differ(deq, k + 1, 0, N as int);
        }
        assert(next@ =~= self@.drop_first());
    }

    /// The state after a claimed enqueue is well formed and holds one value
    /// more, at the back.
    proof fn lemma_enqueued(&self, next: Self, item: T)
        requires
            self.wf(),
            self.count() < N,
            next.dequeue_position() == self.dequeue_position(),
            next.enqueue_position() == wrap(self.enqueue_position() + 1),
            next.cells() == self.cells().update(
                self.slot(self.count()),
                Cell { data: Some(item), sequence: wrap(self.enqueue_position() + 1) },
            ),
        ensures
            next.wf(),
            next@ == self@.push(item),
    {
        let len = self.count();
        let deq = self.dequeue_position() as int;
        lemma_distance_reaches(self.dequeue_position(), self.enqueue_position());
        lemma_distance_grows(self.dequeue_position(), self.enqueue_position());
        lemma_wrap_add(deq + len, 1);
        assert(next.count() == len + 1);
        assert forall|k: int| 0 <= k < N implies #[trigger] next.in_turn(k) by {
            assert(self.in_turn(k));
            assert(next.slot(k) == self.slot(k));
            if k != len {
                lemma_remainders_differ(deq, k, len, N as int);
            }
        }
        assert forall|k: int| 0 <= k < len implies next@[k] == self@[k] by {
            lemma_remainders_differ(deq, k, len, N as int);
        }
        assert(next@ =~= self@.push(item));
    }
}

} // verus!
