//! What holds of every run of enqueues and dequeues on one queue.
//!
//! The executable queue promises that each call acts on the queue's contents
//! as the functions of [`crate::model`] say. The laws below follow those
//! functions through whole runs of calls.

use vstd::prelude::*;
use crate::model::{after_dequeue, after_enqueue, dequeue_result, enqueue_result};

verus! {

/// The contents after enqueuing each of `items`, in order.
pub open spec fn enqueue_all<T>(contents: Seq<T>, capacity: nat, items: Seq<T>) -> Seq<T>
    decreases items.len(),
{
    if items.len() == 0 {
        contents
    } else {
        enqueue_all(after_enqueue(contents, capacity, items.first()), capacity, items.drop_first())
    }
}

/// What each of those enqueues returns.
pub open spec fn enqueue_results<T>(contents: Seq<T>, capacity: nat, items: Seq<T>) -> Seq<
    Result<(), T>,
>
    decreases items.len(),
{
    if items.len() == 0 {
        Seq::empty()
    } else {
        seq![enqueue_result(contents, capacity, items.first())] + enqueue_results(
            after_enqueue(contents, capacity, items.first()),
            capacity,
            items.drop_first(),
        )
    }
}

/// The contents after `n` dequeues.
pub open spec fn dequeue_all<T>(contents: Seq<T>, n: nat) -> Seq<T>
    decreases n,
{
    if n == 0 {
        contents
    } else {
        dequeue_all(after_dequeue(contents), (n - 1) as nat)
    }
}

/// What each of those dequeues returns.
pub open spec fn dequeue_results<T>(contents: Seq<T>, n: nat) -> Seq<Option<T>>
    decreases n,
{
    if n == 0 {
        Seq::empty()
    } else {
        seq![dequeue_result(contents)] + dequeue_results(after_dequeue(contents), (n - 1) as nat)
    }
}

/// How many of `wanted` enqueues a queue with `held` values accepts.
pub open spec fn room(capacity: nat, held: nat, wanted: nat) -> nat {
    if held + wanted <= capacity {
        wanted
    } else if held <= capacity {
        (capacity - held) as nat
    } else {
        0
    }
}

/// A run of enqueues accepts values while there is room and rejects every
/// later one, handing back the very value that was offered; the queue then
/// holds what it held, followed by the accepted values in the order offered.
pub proof fn law_enqueue_run<T>(contents: Seq<T>, capacity: nat, items: Seq<T>)
    ensures
        enqueue_results(contents, capacity, items).len() == items.len(),
        forall|i: int|
            0 <= i < items.len() ==> #[trigger] enqueue_results(contents, capacity, items)[i]
                == if i < room(capacity, contents.len(), items.len()) {
                Ok::<(), T>(())
            } else {
                Err::<(), T>(items[i])
            },
        enqueue_all(contents, capacity, items) == contents + items.take(
            room(capacity, contents.len(), items.len()) as int,
        ),
    decreases items.len(),
{
    if items.len() == 0 {
        assert(contents + items.take(0) =~= contents);
    } else {
        let next = after_enqueue(contents, capacity, items.first());
        let rest = items.drop_first();
        law_enqueue_run(next, capacity, rest);
        let accepted = room(capacity, contents.len(), items.len());
        let accepted_rest = room(capacity, next.len(), rest.len());
        assert forall|i: int| 0 <= i < items.len() implies #[trigger] enqueue_results(
            contents,
            capacity,
            items,
        )[i] == if i < accepted {
            Ok::<(), T>(())
        } else {
            Err::<(), T>(items[i])
        } by {
            if i > 0 {
                assert(enqueue_results(contents, capacity, items)[i] == enqueue_results(
                    next,
                    capacity,
                    rest,
                )[i - 1]);
                assert(rest[i - 1] == items[i]);
            }
        }
        assert(next + rest.take(accepted_rest as int) =~= contents + items.take(accepted as int));
    }
}

/// A run of dequeues returns the stored values oldest first, each once, and
/// then nothing, however often it is asked; the queue keeps what was not
/// taken.
pub proof fn law_dequeue_run<T>(contents: Seq<T>, n: nat)
    ensures
        dequeue_results(contents, n).len() == n,
        forall|i: int|
            0 <= i < n ==> #[trigger] dequeue_results(contents, n)[i] == if i < contents.len() {
                Some(contents[i])
            } else {
                None
            },
        dequeue_all(contents, n) == contents.skip(
            if n <= contents.len() {
                n as int
            } else {
                contents.len() as int
            },
        ),
    decreases n,
{
    if n == 0 {
        assert(contents.skip(0) =~= contents);
    } else {
        let next = after_dequeue(contents);
        let m = (n - 1) as nat;
        law_dequeue_run(next, m);
        assert forall|i: int| 0 <= i < n implies #[trigger] dequeue_results(contents, n)[i] == if i
            < contents.len() {
            Some(contents[i])
        } else {
            None
        } by {
            if i > 0 {
                assert(dequeue_results(contents, n)[i] == dequeue_results(next, m)[i - 1]);
            }
        }
        if contents.len() > 0 {
            let taken = if n <= contents.len() {
                n as int
            } else {
                contents.len() as int
            };
            assert(next.skip(taken - 1) =~= contents.skip(taken));
        }
    }
}

/// First in, first out: after any run of enqueues on an empty queue, a run
/// of dequeues returns the accepted values in exactly the order in which
/// they were enqueued.
pub proof fn law_fifo<T>(capacity: nat, items: Seq<T>, n: nat)
    ensures
        enqueue_all(Seq::<T>::empty(), capacity, items) == items.take(
            room(capacity, 0, items.len()) as int,
        ),
        forall|i: int|
            0 <= i < n ==> #[trigger] dequeue_results(
                enqueue_all(Seq::<T>::empty(), capacity, items),
                n,
            )[i] == if i < room(capacity, 0, items.len()) {
                Some(items[i])
            } else {
                None
            },
{
    let accepted = room(capacity, 0, items.len());
    law_enqueue_run(Seq::<T>::empty(), capacity, items);
    assert(Seq::<T>::empty() + items.take(accepted as int) =~= items.take(accepted as int));
    law_dequeue_run(items.take(accepted as int), n);
}

/// The capacity bound: on an empty queue of capacity `N`, `N` enqueues in a
/// row succeed, and the next one fails, returns the value it was given and
/// leaves the queue as it was.
pub proof fn law_capacity_bound<T>(capacity: nat, items: Seq<T>, extra: T)
    requires
        items.len() == capacity,
    ensures
        forall|i: int|
            0 <= i < capacity ==> #[trigger] enqueue_results(Seq::<T>::empty(), capacity, items)[i]
                == Ok::<(), T>(()),
        enqueue_all(Seq::<T>::empty(), capacity, items) == items,
        enqueue_result(items, capacity, extra) == Err::<(), T>(extra),
        after_enqueue(items, capacity, extra) == items,
{
    law_enqueue_run(Seq::<T>::empty(), capacity, items);
    assert(Seq::<T>::empty() + items.take(capacity as int) =~= items);
}

/// An empty queue answers every dequeue with nothing and stays empty, and a
/// queue drained of all it held is such a queue.
pub proof fn law_empty_stays_empty<T>(contents: Seq<T>, n: nat)
    ensures
        dequeue_all(contents, contents.len()) == Seq::<T>::empty(),
        forall|i: int|
            0 <= i < n ==> #[trigger] dequeue_results(Seq::<T>::empty(), n)[i] == None::<T>,
        dequeue_all(Seq::<T>::empty(), n) == Seq::<T>::empty(),
{
    law_dequeue_run(contents, contents.len());
    assert(contents.skip(contents.len() as int) =~= Seq::<T>::empty());
    law_dequeue_run(Seq::<T>::empty(), n);
    assert(Seq::<T>::empty().skip(0) =~= Seq::<T>::empty());
}

} // verus!
