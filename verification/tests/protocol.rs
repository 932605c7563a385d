use bounded_mpmc::protocol::{
    advance, dequeue_sequence, dequeue_turn, enqueue_sequence, enqueue_turn, is_valid_capacity,
    narrow_difference, slot_index, Turn, MAX_CAPACITY, MIN_CAPACITY,
};

#[test]
fn difference_of_equal_counters_is_zero() {
    assert_eq!(narrow_difference(0, 0), 0);
    assert_eq!(narrow_difference(77, 77), 0);
    assert_eq!(narrow_difference(usize::MAX, usize::MAX), 0);
}

#[test]
fn difference_is_signed_and_eight_bits_wide() {
    assert_eq!(narrow_difference(1, 0), 1);
    assert_eq!(narrow_difference(0, 1), -1);
    assert_eq!(narrow_difference(127, 0), 127);
    assert_eq!(narrow_difference(128, 0), -128);
    assert_eq!(narrow_difference(0, 128), -128);
    assert_eq!(narrow_difference(0, 127), -127);
    assert_eq!(narrow_difference(256, 0), 0);
    assert_eq!(narrow_difference(300, 41), 3);
    assert_eq!(narrow_difference(1000, 1002), -2);
}

#[test]
fn difference_survives_counter_wraparound() {
    assert_eq!(narrow_difference(0, usize::MAX), 1);
    assert_eq!(narrow_difference(usize::MAX, 0), -1);
    assert_eq!(narrow_difference(1, usize::MAX - 1), 3);
    assert_eq!(narrow_difference(0, 255), 1);
    assert_eq!(narrow_difference(255, 0), -1);
}

#[test]
fn producer_reads_its_turn() {
    // the slot is free for the position
    assert_eq!(enqueue_turn(5, 5), Turn::Ready);
    // the value one lap back (capacity 2) is still in the slot
    assert_eq!(enqueue_turn(4, 5), Turn::Behind);
    // the same at the largest capacity: published at 5 - 128, wanted at 5
    assert_eq!(enqueue_turn(5usize.wrapping_sub(127), 5), Turn::Behind);
    // another producer filled the slot already
    assert_eq!(enqueue_turn(6, 5), Turn::Ahead);
    assert_eq!(enqueue_turn(0, 255), Turn::Ahead);
    assert_eq!(enqueue_turn(255, 0), Turn::Behind);
}

#[test]
fn consumer_reads_its_turn() {
    // the producer of position 5 published 6
    assert_eq!(dequeue_turn(6, 5), Turn::Ready);
    // the slot still waits for its producer
    assert_eq!(dequeue_turn(5, 5), Turn::Behind);
    // another consumer emptied the slot and handed it on (capacity 2)
    assert_eq!(dequeue_turn(7, 5), Turn::Ahead);
    // the target wraps with the counter
    assert_eq!(dequeue_turn(0, usize::MAX), Turn::Ready);
    assert_eq!(dequeue_turn(usize::MAX, usize::MAX), Turn::Behind);
    assert_eq!(dequeue_turn(256, 255), Turn::Ready);
}

#[test]
fn position_selects_slot_by_remainder() {
    assert_eq!(slot_index(0, 1), 0);
    assert_eq!(slot_index(5, 1), 1);
    assert_eq!(slot_index(5, 3), 1);
    assert_eq!(slot_index(130, 127), 2);
    assert_eq!(slot_index(usize::MAX, 127), 127);
    assert_eq!(slot_index(usize::MAX, 1), 1);
    for pos in 0..1000usize {
        assert_eq!(slot_index(pos, 7), pos % 8);
    }
}

#[test]
fn positions_advance_by_one_and_wrap() {
    assert_eq!(advance(0), 1);
    assert_eq!(advance(41), 42);
    assert_eq!(advance(usize::MAX), 0);
}

#[test]
fn producer_publishes_the_next_sequence() {
    assert_eq!(enqueue_sequence(0), 1);
    assert_eq!(enqueue_sequence(255), 256);
    assert_eq!(enqueue_sequence(usize::MAX), 0);
}

#[test]
fn consumer_publishes_one_lap_ahead() {
    assert_eq!(dequeue_sequence(0, 1), 2);
    assert_eq!(dequeue_sequence(5, 3), 9);
    assert_eq!(dequeue_sequence(0, 127), 128);
    assert_eq!(dequeue_sequence(usize::MAX, 1), 1);
    assert_eq!(dequeue_sequence(usize::MAX - 1, 3), 2);
}

#[test]
fn handed_on_slot_is_ready_for_the_next_lap() {
    for mask in [1usize, 3, 7, 15, 31, 63, 127] {
        for pos in [0usize, 1, 100, 255, 256, usize::MAX - 1, usize::MAX] {
            let lap_later = pos.wrapping_add(mask).wrapping_add(1);
            assert_eq!(enqueue_turn(dequeue_sequence(pos, mask), lap_later), Turn::Ready);
            assert_eq!(dequeue_turn(enqueue_sequence(pos), pos), Turn::Ready);
            assert_eq!(slot_index(lap_later, mask), slot_index(pos, mask));
        }
    }
}

#[test]
fn valid_capacities_are_powers_of_two_in_range() {
    assert_eq!(MIN_CAPACITY, 2);
    assert_eq!(MAX_CAPACITY, 128);
    for n in [2usize, 4, 8, 16, 32, 64, 128] {
        assert!(is_valid_capacity(n));
    }
    for n in [0usize, 1, 3, 5, 6, 7, 12, 100, 127, 129, 256, 512, 1 << 20, usize::MAX] {
        assert!(!is_valid_capacity(n));
    }
    let count = (0..1000usize).filter(|n| is_valid_capacity(*n)).count();
    assert_eq!(count, 7);
}
