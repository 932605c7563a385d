//! The protocol with many producers and consumers at once, as a transition
//! system.
//!
//! A state holds the shared memory (two position counters and the slots) and,
//! for every producer and consumer, the call it is in. Each event lets one of
//! them do one access to shared memory; how its call goes on is decided by
//! [`successor`], the very function that the executable [`crate::call`]
//! computes. Any sequence of events is a run, so a run stands for one way in
//! which the calls of all producers and consumers can interleave.
//!
//! The model keeps, behind every machine word, the number that the word
//! stands for: positions and sequence counters are natural numbers, and a
//! call sees them wrapped, as [`wrap`] says. Two things the model takes for
//! granted. Accesses take effect one at a time and are seen by all at once;
//! weaker orderings of memory are not described. And a compare-and-swap on a
//! position compares the numbers, not the words: a call that sleeps between
//! reading a position and swapping it while the counter goes round its whole
//! span is outside the model.

use vstd::prelude::*;
use crate::call::{successor, Reply, Role, Step};
use crate::counter::{lemma_wrap_add, lemma_wrap_mod, wrap};
use crate::protocol::{lemma_capacity_divides_span, lemma_mask, turn, valid_capacity, Turn};

verus! {

/// One slot of the shared ring.
pub struct Slot<T> {
    pub sequence: nat,
    pub data: Option<T>,
}

/// A call that is under way.
pub struct Call<T> {
    /// The access that the call makes next.
    pub step: Step,
    /// The position that the call has read last.
    pub pos: nat,
    /// The value of the call: what a producer was given, what a consumer has
    /// moved out.
    pub value: Option<T>,
    /// Whether the call has moved its value into or out of its slot.
    pub moved: bool,
}

/// One step of one producer or consumer.
pub enum Event<T> {
    /// Producer `who` is called with `item`.
    Offer { who: int, item: T },
    /// Producer `who` does its next access to shared memory.
    Produce { who: int },
    /// The weak compare-and-swap of producer `who` fails for no reason.
    ProducerFalters { who: int },
    /// Consumer `who` is called.
    Ask { who: int },
    /// Consumer `who` does its next access to shared memory.
    Consume { who: int },
    /// The weak compare-and-swap of consumer `who` fails for no reason.
    ConsumerFalters { who: int },
}

/// The shared memory, the producers and consumers, and the record of what
/// their calls have returned so far.
pub struct System<T> {
    pub capacity: nat,
    pub enqueue_pos: nat,
    pub dequeue_pos: nat,
    pub slots: Seq<Slot<T>>,
    /// The call of each producer, if it is in one.
    pub producers: Seq<Option<Call<T>>>,
    /// The call of each consumer, if it is in one.
    pub consumers: Seq<Option<Call<T>>>,
    /// The value of each enqueue that returned acceptance, by its position.
    pub accepted: Map<nat, T>,
    /// How many enqueues returned acceptance.
    pub accepts: nat,
    /// The value that each dequeue returned, by its position.
    pub delivered: Map<nat, T>,
    /// How many dequeues returned a value.
    pub deliveries: nat,
    /// Which producer claimed each position.
    pub claimer: Map<nat, int>,
    /// Which consumer claimed each position.
    pub taker: Map<nat, int>,
}

/// What a call reads from a sequence counter about its target: the eight-bit
/// comparison of the two machine words.
pub open spec fn seen(sequence: nat, target: nat) -> Turn {
    turn(wrap(sequence as int), wrap(target as int))
}

/// The sequence number that a slot must show for position `pos` to be
/// claimed.
pub open spec fn goal(role: Role, pos: nat) -> nat {
    match role {
        Role::Producer => pos,
        Role::Consumer => pos + 1,
    }
}

/// The sequence number with which the owner of position `pos` hands its slot
/// on.
pub open spec fn passed_on(role: Role, pos: nat, capacity: nat) -> nat {
    match role {
        Role::Producer => pos + 1,
        Role::Consumer => pos + capacity,
    }
}

impl<T> Call<T> {
    /// The call after its step was answered with `reply`.
    pub open spec fn answered(self, role: Role, reply: Reply, mask: usize) -> Self {
        Call { step: successor(role, self.step, reply, mask), ..self }
    }
}

impl<T> System<T> {
    /// A new queue of `capacity` slots whose producers and consumers are in
    /// no call.
    pub open spec fn init(capacity: nat, producers: nat, consumers: nat) -> Self {
        System {
            capacity,
            enqueue_pos: 0,
            dequeue_pos: 0,
            slots: Seq::new(capacity, |i: int| Slot { sequence: i as nat, data: None }),
            producers: Seq::new(producers, |w: int| None),
            consumers: Seq::new(consumers, |c: int| None),
            accepted: Map::empty(),
            accepts: 0,
            delivered: Map::empty(),
            deliveries: 0,
            claimer: Map::empty(),
            taker: Map::empty(),
        }
    }

    /// The mask that the calls select their slots with.
    pub open spec fn mask(self) -> usize {
        (self.capacity - 1) as usize
    }

    /// The slot that position `p` falls on.
    pub open spec fn slot_of(self, p: nat) -> int {
        (p % self.capacity) as int
    }

    /// The sequence counter of the slot of position `p`.
    pub open spec fn sequence_at(self, p: nat) -> nat {
        self.slots[self.slot_of(p)].sequence
    }

    /// The value stored in the slot of position `p`.
    pub open spec fn data_at(self, p: nat) -> Option<T> {
        self.slots[self.slot_of(p)].data
    }

    /// The state with producer `who` in the call `to`, or in none.
    pub open spec fn with_producer(self, who: int, to: Option<Call<T>>) -> Self {
        System { producers: self.producers.update(who, to), ..self }
    }

    /// The state with consumer `who` in the call `to`, or in none.
    pub open spec fn with_consumer(self, who: int, to: Option<Call<T>>) -> Self {
        System { consumers: self.consumers.update(who, to), ..self }
    }

    /// Producer `who` is called with `item`, if it is in no call.
    pub open spec fn offer(self, who: int, item: T) -> Self {
        if 0 <= who < self.producers.len() && self.producers[who] is None {
            self.with_producer(
                who,
                Some(Call { step: Step::LoadPosition, pos: 0, value: Some(item), moved: false }),
            )
        } else {
            self
        }
    }

    /// Consumer `who` is called, if it is in no call.
    pub open spec fn ask(self, who: int) -> Self {
        if 0 <= who < self.consumers.len() && self.consumers[who] is None {
            self.with_consumer(
                who,
                Some(Call { step: Step::LoadPosition, pos: 0, value: None, moved: false }),
            )
        } else {
            self
        }
    }

    /// The next access of producer `who` to shared memory.
    pub open spec fn produce(self, who: int) -> Self {
        if 0 <= who < self.producers.len() && self.producers[who] is Some {
            let call = self.producers[who]->0;
            match call.step {
                // reads the enqueue position
                Step::LoadPosition => self.with_producer(
                    who,
                    Some(
                        Call { pos: self.enqueue_pos, ..call }.answered(
                            Role::Producer,
                            Reply::Read(wrap(self.enqueue_pos as int)),
                            self.mask(),
                        ),
                    ),
                ),
                // reads the sequence counter; a full queue ends the call
                Step::LoadSequence { pos, slot } => {
                    let next = call.answered(
                        Role::Producer,
                        Reply::Read(wrap(self.slots[slot as int].sequence as int)),
                        self.mask(),
                    );
                    self.with_producer(
                        who,
                        if next.step is Fail {
                            None
                        } else {
                            Some(next)
                        },
                    )
                },
                // compare-and-swap on the enqueue position
                Step::Claim { pos, next } => if self.enqueue_pos == call.pos {
                    System {
                        enqueue_pos: call.pos + 1,
                        claimer: self.claimer.insert(call.pos, who),
                        ..self.with_producer(
                            who,
                            Some(call.answered(Role::Producer, Reply::Won, self.mask())),
                        )
                    }
                } else {
                    self.with_producer(
                        who,
                        Some(call.answered(Role::Producer, Reply::Lost, self.mask())),
                    )
                },
                // stores the value, then publishes the slot; the call returns
                // acceptance
                Step::Transfer { slot, sequence } => if !call.moved {
                    System {
                        slots: self.slots.update(
                            slot as int,
                            Slot { data: call.value, ..self.slots[slot as int] },
                        ),
                        ..self.with_producer(who, Some(Call { moved: true, ..call }))
                    }
                } else {
                    System {
                        slots: self.slots.update(
                            slot as int,
                            Slot {
                                sequence: passed_on(Role::Producer, call.pos, self.capacity),
                                ..self.slots[slot as int]
                            },
                        ),
                        accepted: self.accepted.insert(call.pos, call.value->0),
                        accepts: self.accepts + 1,
                        ..self.with_producer(who, None)
                    }
                },
                Step::Fail => self.with_producer(who, None),
            }
        } else {
            self
        }
    }

    /// The weak compare-and-swap of producer `who` fails without a cause.
    pub open spec fn producer_falters(self, who: int) -> Self {
        if 0 <= who < self.producers.len() && self.producers[who] is Some
            && self.producers[who]->0.step is Claim {
            self.with_producer(
                who,
                Some(self.producers[who]->0.answered(Role::Producer, Reply::Lost, self.mask())),
            )
        } else {
            self
        }
    }

    /// The next access of consumer `who` to shared memory.
    pub open spec fn consume(self, who: int) -> Self {
        if 0 <= who < self.consumers.len() && self.consumers[who] is Some {
            let call = self.consumers[who]->0;
            match call.step {
                // reads the dequeue position
                Step::LoadPosition => self.with_consumer(
                    who,
                    Some(
                        Call { pos: self.dequeue_pos, ..call }.answered(
                            Role::Consumer,
                            Reply::Read(wrap(self.dequeue_pos as int)),
                            self.mask(),
                        ),
                    ),
                ),
                // reads the sequence counter; an empty queue ends the call
                Step::LoadSequence { pos, slot } => {
                    let next = call.answered(
                        Role::Consumer,
                        Reply::Read(wrap(self.slots[slot as int].sequence as int)),
                        self.mask(),
                    );
                    self.with_consumer(
                        who,
                        if next.step is Fail {
                            None
                        } else {
                            Some(next)
                        },
                    )
                },
                // compare-and-swap on the dequeue position
                Step::Claim { pos, next } => if self.dequeue_pos == call.pos {
                    System {
                        dequeue_pos: call.pos + 1,
                        taker: self.taker.insert(call.pos, who),
                        ..self.with_consumer(
                            who,
                            Some(call.answered(Role::Consumer, Reply::Won, self.mask())),
                        )
                    }
                } else {
                    self.with_consumer(
                        who,
                        Some(call.answered(Role::Consumer, Reply::Lost, self.mask())),
                    )
                },
                // moves the value out, then hands the slot on; the call
                // returns the value
                Step::Transfer { slot, sequence } => if !call.moved {
                    System {
                        slots: self.slots.update(
                            slot as int,
                            Slot { data: None, ..self.slots[slot as int] },
                        ),
                        ..self.with_consumer(
                            who,
                            Some(Call { moved: true, value: self.slots[slot as int].data, ..call }),
                        )
                    }
                } else {
                    System {
                        slots: self.slots.update(
                            slot as int,
                            Slot {
                                sequence: passed_on(Role::Consumer, call.pos, self.capacity),
                                ..self.slots[slot as int]
                            },
                        ),
                        delivered: self.delivered.insert(call.pos, call.value->0),
                        deliveries: self.deliveries + 1,
                        ..self.with_consumer(who, None)
                    }
                },
                Step::Fail => self.with_consumer(who, None),
            }
        } else {
            self
        }
    }

    /// The weak compare-and-swap of consumer `who` fails without a cause.
    pub open spec fn consumer_falters(self, who: int) -> Self {
        if 0 <= who < self.consumers.len() && self.consumers[who] is Some
            && self.consumers[who]->0.step is Claim {
            self.with_consumer(
                who,
                Some(self.consumers[who]->0.answered(Role::Consumer, Reply::Lost, self.mask())),
            )
        } else {
            self
        }
    }

    /// The state after `event`.
    pub open spec fn step(self, event: Event<T>) -> Self {
        match event {
            Event::Offer { who, item } => self.offer(who, item),
            Event::Produce { who } => self.produce(who),
            Event::ProducerFalters { who } => self.producer_falters(who),
            Event::Ask { who } => self.ask(who),
            Event::Consume { who } => self.consume(who),
            Event::ConsumerFalters { who } => self.consumer_falters(who),
        }
    }

    /// The state after all of `events`, in order.
    pub open spec fn run(self, events: Seq<Event<T>>) -> Self
        decreases events.len(),
    {
        if events.len() == 0 {
            self
        } else {
            self.run(events.drop_last()).step(events.last())
        }
    }

    /// No producer and no consumer is in a call.
    pub open spec fn quiescent(self) -> bool {
        &&& forall|w: int| 0 <= w < self.producers.len() ==> #[trigger] self.producers[w] is None
        &&& forall|c: int| 0 <= c < self.consumers.len() ==> #[trigger] self.consumers[c] is None
    }
}

/// How a call goes on, told in positions: where a word holds the position
/// `pos` wrapped and a sequence counter holds `sequence` wrapped, the step
/// that follows is the one for the position itself, its slot `pos mod
/// capacity`, and what the eight-bit comparison makes of the two numbers.
pub proof fn lemma_successor(role: Role, capacity: usize, pos: nat, sequence: nat, slot: usize)
    requires
        valid_capacity(capacity),
    ensures
        successor(role, Step::LoadPosition, Reply::Read(wrap(pos as int)), (capacity - 1) as usize)
            == (Step::LoadSequence {
            pos: wrap(pos as int),
            slot: (pos % (capacity as nat)) as usize,
        }),
        successor(
            role,
            Step::LoadSequence { pos: wrap(pos as int), slot },
            Reply::Read(wrap(sequence as int)),
            (capacity - 1) as usize,
        ) == match seen(sequence, goal(role, pos)) {
            Turn::Ready => Step::Claim {
                pos: wrap(pos as int),
                next: wrap((pos + 1) as int),
            },
            Turn::Behind => Step::Fail,
            Turn::Ahead => Step::LoadPosition,
        },
        successor(
            role,
            Step::Claim { pos: wrap(pos as int), next: wrap((pos + 1) as int) },
            Reply::Won,
            (capacity - 1) as usize,
        ) == (Step::Transfer {
            slot: (pos % (capacity as nat)) as usize,
            sequence: wrap(passed_on(role, pos, capacity as nat) as int),
        }),
        successor(
            role,
            Step::Claim { pos: wrap(pos as int), next: wrap((pos + 1) as int) },
            Reply::Lost,
            (capacity - 1) as usize,
        ) == Step::LoadPosition,
{
    lemma_capacity_divides_span(capacity);
    lemma_wrap_mod(pos as int, capacity as int);
    lemma_mask(wrap(pos as int), capacity);
    lemma_wrap_add(pos as int, 1);
    lemma_wrap_add(pos as int, capacity as int);
}

} // verus!
