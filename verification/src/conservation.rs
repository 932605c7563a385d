//! Nothing is lost and nothing is delivered twice, however the calls of the
//! producers and consumers interleave.
//!
//! The proof is an invariant of the transition system of
//! [`crate::interleaving`]: every slot is in one of four turns (free, being
//! filled, full, being drained), the one who fills or drains it is the one
//! who claimed its position, and the record of accepted and delivered values
//! agrees with the counters.

use vstd::prelude::*;
use crate::call::{Role, Step};
use crate::counter::{lemma_narrow_wrap, lemma_remainders_differ, narrow, wrap};
use crate::interleaving::{goal, lemma_successor, passed_on, seen, Call, Event, System};
use crate::protocol::{valid_capacity, Turn};

verus! {

impl<T> System<T> {
    /// The producer that claimed position `q` is storing its value or about
    /// to publish it.
    pub open spec fn filling(self, q: nat) -> bool {
        let w = self.claimer[q];
        &&& 0 <= w < self.producers.len()
        &&& self.producers[w] matches Some(call)
        &&& call.step is Transfer
        &&& call.pos == q
        &&& self.data_at(q) == if call.moved {
            call.value
        } else {
            None
        }
    }

    /// The consumer that claimed position `p` is moving its value out or
    /// about to hand the slot on.
    pub open spec fn draining(self, p: nat) -> bool {
        let c = self.taker[p];
        &&& 0 <= c < self.consumers.len()
        &&& self.consumers[c] matches Some(call)
        &&& call.step is Transfer
        &&& call.pos == p
        &&& if call.moved {
            call.value == Some(self.accepted[p]) && self.data_at(p) is None
        } else {
            self.data_at(p) == Some(self.accepted[p])
        }
    }

    /// The slot of position `q`, one of the `capacity` positions from the
    /// dequeue position on, is in its turn. Past the enqueue position it is
    /// free for `q` or still being drained of the value one lap back; before
    /// it, it is being filled or holds the accepted value of `q`.
    pub open spec fn slot_in_turn(self, q: nat) -> bool {
        let sequence = self.sequence_at(q);
        if q >= self.enqueue_pos {
            ||| sequence == q && self.data_at(q) is None
            ||| q >= self.capacity && sequence == q - self.capacity + 1 && self.draining(
                (q - self.capacity) as nat,
            )
        } else {
            ||| sequence == q && self.filling(q)
            ||| sequence == q + 1 && self.data_at(q) == Some(self.accepted[q])
        }
    }

    /// The words that a call holds are those of the position it has read.
    pub open spec fn words_agree(self, role: Role, call: Call<T>) -> bool {
        match call.step {
            Step::LoadPosition => true,
            Step::LoadSequence { pos, slot } => pos == wrap(call.pos as int) && slot
                == self.slot_of(call.pos),
            Step::Claim { pos, next } => pos == wrap(call.pos as int) && next == wrap(
                (call.pos + 1) as int,
            ),
            Step::Transfer { slot, sequence } => slot == self.slot_of(call.pos) && sequence
                == wrap(passed_on(role, call.pos, self.capacity) as int),
            Step::Fail => false,
        }
    }

    /// What a call of `role` has found is still true: a position it has read
    /// is not past the counter; a slot it has found ready is ready for as
    /// long as the counter stays at its position; and from its claim on, the
    /// sequence counter of the slot stays as the call found it.
    pub open spec fn still_true(self, role: Role, call: Call<T>) -> bool {
        let counter = match role {
            Role::Producer => self.enqueue_pos,
            Role::Consumer => self.dequeue_pos,
        };
        match call.step {
            Step::LoadPosition => !call.moved,
            Step::LoadSequence { pos, slot } => !call.moved && call.pos <= counter,
            Step::Claim { pos, next } => !call.moved && call.pos <= counter && (call.pos == counter
                ==> self.sequence_at(call.pos) == goal(role, call.pos)),
            Step::Transfer { slot, sequence } => call.pos < counter && self.sequence_at(call.pos)
                == goal(role, call.pos),
            Step::Fail => false,
        }
    }

    /// Producer `w` is in order.
    pub open spec fn producer_in_order(self, w: int) -> bool {
        self.producers[w] matches Some(call) ==> {
            &&& call.value is Some
            &&& self.words_agree(Role::Producer, call)
            &&& self.still_true(Role::Producer, call)
            &&& call.step is Transfer ==> self.dequeue_pos <= call.pos
                && self.claimer[call.pos] == w
        }
    }

    /// Consumer `c` is in order.
    pub open spec fn consumer_in_order(self, c: int) -> bool {
        self.consumers[c] matches Some(call) ==> {
            &&& self.words_agree(Role::Consumer, call)
            &&& self.still_true(Role::Consumer, call)
            &&& call.step is Transfer ==> self.dequeue_pos <= call.pos + self.capacity
                && self.taker[call.pos] == c
        }
    }

    /// Position `p` was accepted: a producer claimed it and has published it.
    pub open spec fn published(self, p: nat) -> bool {
        p < self.enqueue_pos && (p < self.dequeue_pos || self.sequence_at(p) != p)
    }

    /// Position `p` was delivered: a consumer claimed it and has handed the
    /// slot on.
    pub open spec fn handed_on(self, p: nat) -> bool {
        p < self.dequeue_pos && (p + self.capacity < self.dequeue_pos || self.sequence_at(p) != p
            + 1)
    }

    /// The invariant of the protocol.
    pub open spec fn inv(self) -> bool {
        &&& self.capacity <= usize::MAX
        &&& valid_capacity(self.capacity as usize)
        &&& self.slots.len() == self.capacity
        &&& self.dequeue_pos <= self.enqueue_pos <= self.dequeue_pos + self.capacity
        &&& forall|q: nat|
            self.dequeue_pos <= q < self.dequeue_pos + self.capacity
                ==> #[trigger] self.slot_in_turn(q)
        &&& forall|w: int| 0 <= w < self.producers.len() ==> #[trigger] self.producer_in_order(w)
        &&& forall|c: int| 0 <= c < self.consumers.len() ==> #[trigger] self.consumer_in_order(c)
        &&& forall|p: nat| #[trigger] self.accepted.dom().contains(p) <==> self.published(p)
        &&& forall|p: nat| #[trigger] self.delivered.dom().contains(p) <==> self.handed_on(p)
        &&& forall|p: nat|
            self.delivered.dom().contains(p) ==> #[trigger] self.delivered[p] == self.accepted[p]
        &&& self.accepted.dom().finite()
        &&& self.accepts == self.accepted.dom().len()
        &&& self.delivered.dom().finite()
        &&& self.deliveries == self.delivered.dom().len()
    }
}

/// Two positions less than a lap apart fall on different slots.
proof fn lemma_slots_differ(capacity: nat, p: nat, q: nat)
    requires
        capacity > 0,
        p != q,
        p < q + capacity,
        q < p + capacity,
    ensures
        p % capacity != q % capacity,
{
    if p < q {
        lemma_remainders_differ(p as int, 0, q - p, capacity as int);
    } else {
        lemma_remainders_differ(q as int, 0, p - q, capacity as int);
    }
}

/// Positions a lap apart fall on the same slot.
proof fn lemma_slots_agree(capacity: nat, p: nat)
    requires
        capacity > 0,
    ensures
        (p + capacity) % capacity == p % capacity,
{
    vstd::arithmetic::div_mod::lemma_mod_add_multiples_vanish(p as int, capacity as int);
}

/// A new queue satisfies the invariant.
pub proof fn lemma_init<T>(capacity: nat, producers: nat, consumers: nat)
    requires
        capacity <= usize::MAX,
        valid_capacity(capacity as usize),
    ensures
        System::<T>::init(capacity, producers, consumers).inv(),
{
    let s = System::<T>::init(capacity, producers, consumers);
    assert forall|q: nat|
        s.dequeue_pos <= q < s.dequeue_pos + s.capacity implies #[trigger] s.slot_in_turn(q) by {
        vstd::arithmetic::div_mod::lemma_small_mod(q, capacity);
    }
    assert(s.accepted.dom() =~= Set::<nat>::empty());
    assert(s.delivered.dom() =~= Set::<nat>::empty());
}

/// A producer that holds no claim may change its mind: if only its own call
/// changes, and it neither held nor takes a claim, the invariant stands as
/// long as the producer itself is in order.
proof fn lemma_producer_moves<T>(pre: System<T>, post: System<T>, who: int, to: Option<Call<T>>)
    requires
        pre.inv(),
        0 <= who < pre.producers.len(),
        post == pre.with_producer(who, to),
        pre.producers[who] matches Some(call) ==> !(call.step is Transfer),
        to matches Some(call) ==> !(call.step is Transfer),
        post.producer_in_order(who),
    ensures
        post.inv(),
{
    assert(pre.producer_in_order(who));
    assert forall|q: nat|
        post.dequeue_pos <= q < post.dequeue_pos + post.capacity
        implies #[trigger] post.slot_in_turn(q) by {
        assert(pre.slot_in_turn(q));
    }
    assert forall|w: int| 0 <= w < post.producers.len() implies #[trigger] post.producer_in_order(
        w,
    ) by {
        if w != who {
            assert(pre.producer_in_order(w));
        }
    }
    assert forall|c: int| 0 <= c < post.consumers.len() implies #[trigger] post.consumer_in_order(
        c,
    ) by {
        assert(pre.consumer_in_order(c));
    }
    assert forall|p: nat| #[trigger] post.accepted.dom().contains(p) <==> post.published(p) by {
        assert(pre.accepted.dom().contains(p) <==> pre.published(p));
    }
    assert forall|p: nat| #[trigger] post.delivered.dom().contains(p) <==> post.handed_on(p) by {
        assert(pre.delivered.dom().contains(p) <==> pre.handed_on(p));
    }
}

/// The same for a consumer that holds no claim.
proof fn lemma_consumer_moves<T>(pre: System<T>, post: System<T>, who: int, to: Option<Call<T>>)
    requires
        pre.inv(),
        0 <= who < pre.consumers.len(),
        post == pre.with_consumer(who, to),
        pre.consumers[who] matches Some(call) ==> !(call.step is Transfer),
        to matches Some(call) ==> !(call.step is Transfer),
        post.consumer_in_order(who),
    ensures
        post.inv(),
{
    assert(pre.consumer_in_order(who));
    assert forall|q: nat|
        post.dequeue_pos <= q < post.dequeue_pos + post.capacity
        implies #[trigger] post.slot_in_turn(q) by {
        assert(pre.slot_in_turn(q));
    }
    assert forall|w: int| 0 <= w < post.producers.len() implies #[trigger] post.producer_in_order(
        w,
    ) by {
        assert(pre.producer_in_order(w));
    }
    assert forall|c: int| 0 <= c < post.consumers.len() implies #[trigger] post.consumer_in_order(
        c,
    ) by {
        if c != who {
            assert(pre.consumer_in_order(c));
        }
    }
    assert forall|p: nat| #[trigger] post.accepted.dom().contains(p) <==> post.published(p) by {
        assert(pre.accepted.dom().contains(p) <==> pre.published(p));
    }
    assert forall|p: nat| #[trigger] post.delivered.dom().contains(p) <==> post.handed_on(p) by {
        assert(pre.delivered.dom().contains(p) <==> pre.handed_on(p));
    }
}

/// A call finds a slot ready exactly if the sequence counter and its target
/// agree in their low eight bits.
proof fn lemma_seen_ready(sequence: nat, target: nat)
    ensures
        seen(sequence, target) == Turn::Ready <==> narrow(sequence - target) == 0,
{
    lemma_narrow_wrap(sequence as int, target as int);
}

/// A producer that reads the current enqueue position and finds its slot
/// ready has found the slot free for that position: the sequence counter is
/// the position itself, not one that merely agrees with it in eight bits.
proof fn lemma_ready_to_enqueue<T>(s: System<T>, pos: nat)
    requires
        s.inv(),
        pos == s.enqueue_pos,
        seen(s.sequence_at(pos), pos) == Turn::Ready,
    ensures
        s.sequence_at(pos) == pos,
{
    lemma_seen_ready(s.sequence_at(pos), pos);
    if pos < s.dequeue_pos + s.capacity {
        assert(s.slot_in_turn(pos));
    } else {
        lemma_slots_agree(s.capacity, s.dequeue_pos);
        assert(s.slot_in_turn(s.dequeue_pos));
    }
}

/// A consumer that reads the current dequeue position and finds its slot
/// ready has found the value of that position: the sequence counter is the
/// one its producer published.
proof fn lemma_ready_to_dequeue<T>(s: System<T>, pos: nat)
    requires
        s.inv(),
        pos == s.dequeue_pos,
        seen(s.sequence_at(pos), pos + 1) == Turn::Ready,
    ensures
        s.sequence_at(pos) == pos + 1,
{
    lemma_seen_ready(s.sequence_at(pos), pos + 1);
    assert(s.slot_in_turn(pos));
}

/// A producer whose compare-and-swap succeeds takes a free slot.
proof fn lemma_producer_claims<T>(pre: System<T>, who: int)
    requires
        pre.inv(),
        0 <= who < pre.producers.len(),
        pre.producers[who] matches Some(call) && call.step is Claim && call.pos == pre.enqueue_pos,
    ensures
        pre.produce(who).inv(),
{
    let post = pre.produce(who);
    let pos = pre.enqueue_pos;
    assert(pre.producer_in_order(who));
    lemma_successor(Role::Producer, pre.capacity as usize, pos, 0, 0);
    if pos >= pre.dequeue_pos + pre.capacity {
        lemma_slots_agree(pre.capacity, pre.dequeue_pos);
        assert(pre.slot_in_turn(pre.dequeue_pos));
        assert(false);
    }
    assert(pre.slot_in_turn(pos));
    assert forall|q: nat|
        post.dequeue_pos <= q < post.dequeue_pos + post.capacity
        implies #[trigger] post.slot_in_turn(q) by {
        assert(pre.slot_in_turn(q));
    }
    assert forall|w: int| 0 <= w < post.producers.len() implies #[trigger] post.producer_in_order(
        w,
    ) by {
        assert(pre.producer_in_order(w));
    }
    assert forall|c: int| 0 <= c < post.consumers.len() implies #[trigger] post.consumer_in_order(
        c,
    ) by {
        assert(pre.consumer_in_order(c));
    }
    assert forall|p: nat| #[trigger] post.accepted.dom().contains(p) <==> post.published(p) by {
        assert(pre.accepted.dom().contains(p) <==> pre.published(p));
    }
    assert forall|p: nat| #[trigger] post.delivered.dom().contains(p) <==> post.handed_on(p) by {
        assert(pre.delivered.dom().contains(p) <==> pre.handed_on(p));
    }
}

/// A producer that stores its value touches no slot but its own.
proof fn lemma_producer_writes<T>(pre: System<T>, who: int)
    requires
        pre.inv(),
        0 <= who < pre.producers.len(),
        pre.producers[who] matches Some(call) && call.step is Transfer && !call.moved,
    ensures
        pre.produce(who).inv(),
{
    let post = pre.produce(who);
    let pos = pre.producers[who]->0.pos;
    assert(pre.producer_in_order(who));
    assert(pre.slot_in_turn(pos));
    assert forall|p: nat| post.sequence_at(p) == pre.sequence_at(p) by {}
    assert forall|q: nat|
        post.dequeue_pos <= q < post.dequeue_pos + post.capacity
        implies #[trigger] post.slot_in_turn(q) by {
        assert(pre.slot_in_turn(q));
        if q != pos {
            lemma_slots_differ(pre.capacity, q, pos);
            if q >= pre.capacity {
                lemma_slots_agree(pre.capacity, (q - pre.capacity) as nat);
            }
        }
    }
    assert forall|w: int| 0 <= w < post.producers.len() implies #[trigger] post.producer_in_order(
        w,
    ) by {
        assert(pre.producer_in_order(w));
    }
    assert forall|c: int| 0 <= c < post.consumers.len() implies #[trigger] post.consumer_in_order(
        c,
    ) by {
        assert(pre.consumer_in_order(c));
    }
    assert forall|p: nat| #[trigger] post.accepted.dom().contains(p) <==> post.published(p) by {
        assert(pre.accepted.dom().contains(p) <==> pre.published(p));
    }
    assert forall|p: nat| #[trigger] post.delivered.dom().contains(p) <==> post.handed_on(p) by {
        assert(pre.delivered.dom().contains(p) <==> pre.handed_on(p));
    }
}

/// A producer that publishes its slot adds its own position to the accepted
/// ones, and no other.
proof fn lemma_producer_publishes<T>(pre: System<T>, who: int)
    requires
        pre.inv(),
        0 <= who < pre.producers.len(),
        pre.producers[who] matches Some(call) && call.step is Transfer && call.moved,
    ensures
        pre.produce(who).inv(),
{
    let post = pre.produce(who);
    let pos = pre.producers[who]->0.pos;
    let n = pre.capacity;
    assert(pre.producer_in_order(who));
    assert(pre.slot_in_turn(pos));
    lemma_slots_differ(n, pos, pos + 1);
    assert forall|q: nat|
        post.dequeue_pos <= q < post.dequeue_pos + post.capacity
        implies #[trigger] post.slot_in_turn(q) by {
        assert(pre.slot_in_turn(q));
        if q != pos {
            lemma_slots_differ(n, q, pos);
            if q >= n {
                lemma_slots_agree(n, (q - n) as nat);
            }
        }
    }
    assert forall|w: int| 0 <= w < post.producers.len() implies #[trigger] post.producer_in_order(
        w,
    ) by {
        assert(pre.producer_in_order(w));
        if w != who && pre.producers[w] is Some {
            let other = pre.producers[w]->0.pos;
            if other == pos + n {
                lemma_slots_agree(n, pos);
            } else if other != pos && other < pos + n && pos < other + n {
                lemma_slots_differ(n, other, pos);
            }
        }
    }
    assert forall|c: int| 0 <= c < post.consumers.len() implies #[trigger] post.consumer_in_order(
        c,
    ) by {
        assert(pre.consumer_in_order(c));
        if pre.consumers[c] is Some {
            let call = pre.consumers[c]->0;
            let other = call.pos;
            if call.step is Transfer {
                lemma_slots_agree(n, other);
                if other + n != pos {
                    lemma_slots_differ(n, other + n, pos);
                }
            } else if other == pre.dequeue_pos && other != pos {
                lemma_slots_differ(n, other, pos);
            }
        }
    }
    assert forall|p: nat| #[trigger] post.accepted.dom().contains(p) <==> post.published(p) by {
        assert(pre.accepted.dom().contains(p) <==> pre.published(p));
    }
    assert forall|p: nat| #[trigger] post.delivered.dom().contains(p) <==> post.handed_on(p) by {
        assert(pre.delivered.dom().contains(p) <==> pre.handed_on(p));
        if p + 1 == pos {
            lemma_slots_differ(n, p, pos);
        }
    }
    assert(!pre.published(pos));
    assert(!pre.handed_on(pos));
    assert forall|p: nat| post.delivered.dom().contains(p) implies #[trigger] post.delivered[p]
        == post.accepted[p] by {
        assert(pre.delivered[p] == pre.accepted[p]);
    }
}

/// Whatever a producer does next, the invariant stands.
pub proof fn lemma_produce<T>(pre: System<T>, who: int)
    requires
        pre.inv(),
    ensures
        pre.produce(who).inv(),
{
    let post = pre.produce(who);
    if 0 <= who < pre.producers.len() && pre.producers[who] is Some {
        let call = pre.producers[who]->0;
        let capacity = pre.capacity as usize;
        assert(pre.producer_in_order(who));
        match call.step {
            Step::LoadPosition => {
                lemma_successor(Role::Producer, capacity, pre.enqueue_pos, 0, 0);
                lemma_producer_moves(pre, post, who, post.producers[who]);
            },
            Step::LoadSequence { pos, slot } => {
                let sequence = pre.sequence_at(call.pos);
                lemma_successor(Role::Producer, capacity, call.pos, sequence, slot);
                if call.pos == pre.enqueue_pos && seen(pre.sequence_at(call.pos), call.pos)
                    == Turn::Ready {
                    lemma_ready_to_enqueue(pre, call.pos);
                }
                lemma_producer_moves(pre, post, who, post.producers[who]);
            },
            Step::Claim { pos, next } => {
                lemma_successor(Role::Producer, capacity, call.pos, 0, 0);
                if pre.enqueue_pos == call.pos {
                    lemma_producer_claims(pre, who);
                } else {
                    lemma_producer_moves(pre, post, who, post.producers[who]);
                }
            },
            Step::Transfer { slot, sequence } => {
                if call.moved {
                    lemma_producer_publishes(pre, who);
                } else {
                    lemma_producer_writes(pre, who);
                }
            },
            Step::Fail => {},
        }
    }
}

/// A consumer whose compare-and-swap succeeds takes a full slot.
proof fn lemma_consumer_claims<T>(pre: System<T>, who: int)
    requires
        pre.inv(),
        0 <= who < pre.consumers.len(),
        pre.consumers[who] matches Some(call) && call.step is Claim && call.pos == pre.dequeue_pos,
    ensures
        pre.consume(who).inv(),
{
    let post = pre.consume(who);
    let pos = pre.dequeue_pos;
    let n = pre.capacity;
    assert(pre.consumer_in_order(who));
    lemma_successor(Role::Consumer, n as usize, pos, 0, 0);
    assert(pre.slot_in_turn(pos));
    lemma_slots_agree(n, pos);
    assert forall|q: nat|
        post.dequeue_pos <= q < post.dequeue_pos + post.capacity
        implies #[trigger] post.slot_in_turn(q) by {
        if q < pos + n {
            assert(pre.slot_in_turn(q));
        }
    }
    assert forall|w: int| 0 <= w < post.producers.len() implies #[trigger] post.producer_in_order(
        w,
    ) by {
        assert(pre.producer_in_order(w));
    }
    assert forall|c: int| 0 <= c < post.consumers.len() implies #[trigger] post.consumer_in_order(
        c,
    ) by {
        assert(pre.consumer_in_order(c));
        if c != who && pre.consumers[c] is Some {
            lemma_slots_agree(n, pre.consumers[c]->0.pos);
        }
    }
    assert forall|p: nat| #[trigger] post.accepted.dom().contains(p) <==> post.published(p) by {
        assert(pre.accepted.dom().contains(p) <==> pre.published(p));
    }
    assert forall|p: nat| #[trigger] post.delivered.dom().contains(p) <==> post.handed_on(p) by {
        assert(pre.delivered.dom().contains(p) <==> pre.handed_on(p));
        if p + n == pos {
            lemma_slots_agree(n, p);
        }
    }
}

/// The consumer that holds the claim of `pos` is the one that drains its
/// slot, and no producer has claimed the position one lap later.
proof fn lemma_claim_drains<T>(s: System<T>, who: int, pos: nat)
    requires
        s.inv(),
        0 <= who < s.consumers.len(),
        s.consumers[who] matches Some(call) && call.step is Transfer && call.pos == pos,
    ensures
        s.draining(pos),
        s.enqueue_pos <= pos + s.capacity,
        s.sequence_at(pos + s.capacity) == pos + 1,
{
    assert(s.consumer_in_order(who));
    lemma_slots_agree(s.capacity, pos);
    assert(s.slot_in_turn(pos + s.capacity));
}

/// A consumer that moves its value out touches no slot but its own.
proof fn lemma_consumer_takes<T>(pre: System<T>, who: int)
    requires
        pre.inv(),
        0 <= who < pre.consumers.len(),
        pre.consumers[who] matches Some(call) && call.step is Transfer && !call.moved,
    ensures
        pre.consume(who).inv(),
{
    let post = pre.consume(who);
    let pos = pre.consumers[who]->0.pos;
    let n = pre.capacity;
    assert(pre.consumer_in_order(who));
    lemma_claim_drains(pre, who, pos);
    lemma_slots_agree(n, pos);
    assert forall|p: nat| post.sequence_at(p) == pre.sequence_at(p) by {}
    assert forall|q: nat|
        post.dequeue_pos <= q < post.dequeue_pos + post.capacity
        implies #[trigger] post.slot_in_turn(q) by {
        assert(pre.slot_in_turn(q));
        if q != pos + n {
            lemma_slots_differ(n, q, pos + n);
            if q >= n {
                lemma_slots_agree(n, (q - n) as nat);
            }
        }
    }
    assert forall|w: int| 0 <= w < post.producers.len() implies #[trigger] post.producer_in_order(
        w,
    ) by {
        assert(pre.producer_in_order(w));
    }
    assert forall|c: int| 0 <= c < post.consumers.len() implies #[trigger] post.consumer_in_order(
        c,
    ) by {
        assert(pre.consumer_in_order(c));
    }
    assert forall|p: nat| #[trigger] post.accepted.dom().contains(p) <==> post.published(p) by {
        assert(pre.accepted.dom().contains(p) <==> pre.published(p));
    }
    assert forall|p: nat| #[trigger] post.delivered.dom().contains(p) <==> post.handed_on(p) by {
        assert(pre.delivered.dom().contains(p) <==> pre.handed_on(p));
    }
}

/// A consumer that hands its slot on adds its own position to the delivered
/// ones, and no other, with the value that was accepted at that position.
proof fn lemma_consumer_hands_on<T>(pre: System<T>, who: int)
    requires
        pre.inv(),
        0 <= who < pre.consumers.len(),
        pre.consumers[who] matches Some(call) && call.step is Transfer && call.moved,
    ensures
        pre.consume(who).inv(),
{
    let post = pre.consume(who);
    let pos = pre.consumers[who]->0.pos;
    let n = pre.capacity;
    assert(pre.consumer_in_order(who));
    lemma_claim_drains(pre, who, pos);
    lemma_slots_agree(n, pos);
    lemma_slots_differ(n, pos, pos + 1);
    assert forall|q: nat|
        post.dequeue_pos <= q < post.dequeue_pos + post.capacity
        implies #[trigger] post.slot_in_turn(q) by {
        assert(pre.slot_in_turn(q));
        if q != pos + n {
            lemma_slots_differ(n, q, pos + n);
            if q >= n {
                lemma_slots_agree(n, (q - n) as nat);
            }
        }
    }
    assert forall|w: int| 0 <= w < post.producers.len() implies #[trigger] post.producer_in_order(
        w,
    ) by {
        assert(pre.producer_in_order(w));
        if pre.producers[w] is Some {
            let other = pre.producers[w]->0.pos;
            if other != pos + n && other < pos + n + n && pos < other {
                lemma_slots_differ(n, other, pos + n);
            }
        }
    }
    assert forall|c: int| 0 <= c < post.consumers.len() implies #[trigger] post.consumer_in_order(
        c,
    ) by {
        assert(pre.consumer_in_order(c));
        if c != who && pre.consumers[c] is Some {
            let call = pre.consumers[c]->0;
            let other = call.pos;
            if call.step is Transfer {
                lemma_slots_differ(n, other, pos);
            } else if other == pre.dequeue_pos && other != pos + n {
                lemma_slots_differ(n, other, pos + n);
            }
        }
    }
    assert forall|p: nat| #[trigger] post.accepted.dom().contains(p) <==> post.published(p) by {
        assert(pre.accepted.dom().contains(p) <==> pre.published(p));
        if p == pos + 1 {
            lemma_slots_differ(n, p, pos);
        }
    }
    assert forall|p: nat| #[trigger] post.delivered.dom().contains(p) <==> post.handed_on(p) by {
        assert(pre.delivered.dom().contains(p) <==> pre.handed_on(p));
        if p + 1 == pos + n {
            lemma_slots_differ(n, p, pos + n);
        }
    }
    assert(pre.published(pos));
    assert(!pre.handed_on(pos));
    assert forall|p: nat| post.delivered.dom().contains(p) implies #[trigger] post.delivered[p]
        == post.accepted[p] by {
        if p != pos {
            assert(pre.delivered[p] == pre.accepted[p]);
        }
    }
}

/// Whatever a consumer does next, the invariant stands.
pub proof fn lemma_consume<T>(pre: System<T>, who: int)
    requires
        pre.inv(),
    ensures
        pre.consume(who).inv(),
{
    let post = pre.consume(who);
    if 0 <= who < pre.consumers.len() && pre.consumers[who] is Some {
        let call = pre.consumers[who]->0;
        let capacity = pre.capacity as usize;
        assert(pre.consumer_in_order(who));
        match call.step {
            Step::LoadPosition => {
                lemma_successor(Role::Consumer, capacity, pre.dequeue_pos, 0, 0);
                lemma_consumer_moves(pre, post, who, post.consumers[who]);
            },
            Step::LoadSequence { pos, slot } => {
                let sequence = pre.sequence_at(call.pos);
                lemma_successor(Role::Consumer, capacity, call.pos, sequence, slot);
                if call.pos == pre.dequeue_pos && seen(pre.sequence_at(call.pos), call.pos + 1)
                    == Turn::Ready {
                    lemma_ready_to_dequeue(pre, call.pos);
                }
                lemma_consumer_moves(pre, post, who, post.consumers[who]);
            },
            Step::Claim { pos, next } => {
                lemma_successor(Role::Consumer, capacity, call.pos, 0, 0);
                if pre.dequeue_pos == call.pos {
                    lemma_consumer_claims(pre, who);
                } else {
                    lemma_consumer_moves(pre, post, who, post.consumers[who]);
                }
            },
            Step::Transfer { slot, sequence } => {
                if call.moved {
                    lemma_consumer_hands_on(pre, who);
                } else {
                    lemma_consumer_takes(pre, who);
                }
            },
            Step::Fail => {},
        }
    }
}

/// Whatever happens next, the invariant stands, and the queue keeps its
/// capacity, its producers and its consumers.
pub proof fn lemma_step<T>(pre: System<T>, event: Event<T>)
    requires
        pre.inv(),
    ensures
        pre.step(event).inv(),
        pre.step(event).capacity == pre.capacity,
        pre.step(event).producers.len() == pre.producers.len(),
        pre.step(event).consumers.len() == pre.consumers.len(),
{
    let post = pre.step(event);
    let capacity = pre.capacity as usize;
    match event {
        Event::Offer { who, item } => {
            if 0 <= who < pre.producers.len() && pre.producers[who] is None {
                lemma_producer_moves(pre, post, who, post.producers[who]);
            }
        },
        Event::Produce { who } => {
            lemma_produce(pre, who);
        },
        Event::ProducerFalters { who } => {
            if 0 <= who < pre.producers.len() && pre.producers[who] is Some
                && pre.producers[who]->0.step is Claim {
                assert(pre.producer_in_order(who));
                lemma_successor(Role::Producer, capacity, pre.producers[who]->0.pos, 0, 0);
                lemma_producer_moves(pre, post, who, post.producers[who]);
            }
        },
        Event::Ask { who } => {
            if 0 <= who < pre.consumers.len() && pre.consumers[who] is None {
                lemma_consumer_moves(pre, post, who, post.consumers[who]);
            }
        },
        Event::Consume { who } => {
            lemma_consume(pre, who);
        },
        Event::ConsumerFalters { who } => {
            if 0 <= who < pre.consumers.len() && pre.consumers[who] is Some
                && pre.consumers[who]->0.step is Claim {
                assert(pre.consumer_in_order(who));
                lemma_successor(Role::Consumer, capacity, pre.consumers[who]->0.pos, 0, 0);
                lemma_consumer_moves(pre, post, who, post.consumers[who]);
            }
        },
    }
}

/// The positions below `n`.
pub open spec fn below(n: nat) -> Set<nat> {
    Set::new(|p: nat| p < n)
}

/// There are `n` positions below `n`.
proof fn lemma_below(n: nat)
    ensures
        below(n).finite(),
        below(n).len() == n,
    decreases n,
{
    if n == 0 {
        assert(below(0) =~= Set::<nat>::empty());
    } else {
        lemma_below((n - 1) as nat);
        assert(below(n) =~= below((n - 1) as nat).insert((n - 1) as nat));
    }
}

/// Once no call is under way, every claimed position has been published and
/// every position claimed by a consumer has been handed on.
proof fn lemma_quiescent<T>(s: System<T>)
    requires
        s.inv(),
        s.quiescent(),
    ensures
        s.accepted.dom() == below(s.enqueue_pos),
        s.delivered.dom() == below(s.dequeue_pos),
{
    assert forall|p: nat| s.accepted.dom().contains(p) <==> below(s.enqueue_pos).contains(p) by {
        assert(s.accepted.dom().contains(p) <==> s.published(p));
        if s.dequeue_pos <= p < s.enqueue_pos {
            assert(s.slot_in_turn(p));
        }
    }
    assert forall|p: nat| s.delivered.dom().contains(p) <==> below(s.dequeue_pos).contains(p) by {
        assert(s.delivered.dom().contains(p) <==> s.handed_on(p));
        if p < s.dequeue_pos <= p + s.capacity {
            lemma_slots_agree(s.capacity, p);
            assert(s.slot_in_turn(p + s.capacity));
        }
    }
    assert(s.accepted.dom() =~= below(s.enqueue_pos));
    assert(s.delivered.dom() =~= below(s.dequeue_pos));
}

/// The invariant holds after every run: however the steps of the producers
/// and consumers of a new queue interleave.
pub proof fn law_invariant<T>(
    capacity: nat,
    producers: nat,
    consumers: nat,
    events: Seq<Event<T>>,
)
    requires
        capacity <= usize::MAX,
        valid_capacity(capacity as usize),
    ensures
        System::<T>::init(capacity, producers, consumers).run(events).inv(),
        System::<T>::init(capacity, producers, consumers).run(events).capacity == capacity,
        System::<T>::init(capacity, producers, consumers).run(events).producers.len() == producers,
        System::<T>::init(capacity, producers, consumers).run(events).consumers.len() == consumers,
    decreases events.len(),
{
    if events.len() == 0 {
        lemma_init::<T>(capacity, producers, consumers);
    } else {
        law_invariant(capacity, producers, consumers, events.drop_last());
        lemma_step(
            System::<T>::init(capacity, producers, consumers).run(events.drop_last()),
            events.last(),
        );
    }
}

/// Conservation: after any run on a new queue,
/// - every delivered value is the value that was accepted at its position,
///   and each position is delivered at most once, so no more dequeues have
///   returned a value than enqueues have returned acceptance;
/// - once no call is under way, the enqueues that returned acceptance are as
///   many as the enqueue position counts and the dequeues that returned a
///   value as many as the dequeue position counts, so the difference is what
///   the queue still holds;
/// - once moreover the queue is drained, exactly the accepted values have
///   been delivered: none is lost and none is duplicated.
pub proof fn law_conservation<T>(
    capacity: nat,
    producers: nat,
    consumers: nat,
    events: Seq<Event<T>>,
)
    requires
        capacity <= usize::MAX,
        valid_capacity(capacity as usize),
    ensures
        ({
            let s = System::<T>::init(capacity, producers, consumers).run(events);
            &&& s.delivered.submap_of(s.accepted)
            &&& s.accepts == s.accepted.dom().len()
            &&& s.deliveries == s.delivered.dom().len()
            &&& s.deliveries <= s.accepts
            &&& s.quiescent() ==> {
                &&& s.accepted.dom() == below(s.enqueue_pos)
                &&& s.delivered.dom() == below(s.dequeue_pos)
                &&& s.accepts == s.enqueue_pos
                &&& s.deliveries == s.dequeue_pos
                &&& s.dequeue_pos <= s.enqueue_pos <= s.dequeue_pos + capacity
            }
            &&& s.quiescent() && s.dequeue_pos == s.enqueue_pos ==> {
                &&& s.delivered == s.accepted
                &&& s.deliveries == s.accepts
            }
        }),
{
    let s = System::<T>::init(capacity, producers, consumers).run(events);
    law_invariant(capacity, producers, consumers, events);
    assert(s.delivered.submap_of(s.accepted)) by {
        assert forall|p: nat| s.delivered.dom().contains(p) implies #[trigger] s.accepted.dom()
            .contains(p) && s.delivered[p] == s.accepted[p] by {
            assert(s.handed_on(p));
            assert(s.published(p));
        }
    }
    vstd::set_lib::lemma_len_subset(s.delivered.dom(), s.accepted.dom());
    if s.quiescent() {
        lemma_quiescent(s);
        lemma_below(s.enqueue_pos);
        lemma_below(s.dequeue_pos);
        if s.dequeue_pos == s.enqueue_pos {
            assert(s.delivered =~= s.accepted);
        }
    }
}

} // verus!
