//! The queue as a mathematical object: a sequence of values, oldest first,
//! that never grows past its capacity.

use vstd::prelude::*;

verus! {

/// What an enqueue of `item` returns on a queue that holds `contents`:
/// acceptance while there is room, else the item itself.
pub open spec fn enqueue_result<T>(contents: Seq<T>, capacity: nat, item: T) -> Result<(), T> {
    if contents.len() < capacity {
        Ok(())
    } else {
        Err(item)
    }
}

/// What a queue that held `contents` holds after an enqueue of `item`.
pub open spec fn after_enqueue<T>(contents: Seq<T>, capacity: nat, item: T) -> Seq<T> {
    if contents.len() < capacity {
        contents.push(item)
    } else {
        contents
    }
}

/// What a dequeue returns on a queue that holds `contents`: the oldest value,
/// or nothing from an empty queue.
pub open spec fn dequeue_result<T>(contents: Seq<T>) -> Option<T> {
    if contents.len() > 0 {
        Some(contents[0])
    } else {
        None
    }
}

/// What a queue that held `contents` holds after a dequeue.
pub open spec fn after_dequeue<T>(contents: Seq<T>) -> Seq<T> {
    if contents.len() > 0 {
        contents.drop_first()
    } else {
        contents
    }
}

} // verus!
