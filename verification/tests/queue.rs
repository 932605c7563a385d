use bounded_mpmc::mpmc::{MpMcQueue, Q16, Q2, Q32, Q4, Q64, Q8};

#[test]
fn sanity() {
    let mut q = Q2::new();
    q.enqueue(0).unwrap();
    q.enqueue(1).unwrap();
    assert!(q.enqueue(2).is_err());

    assert_eq!(q.dequeue(), Some(0));
    assert_eq!(q.dequeue(), Some(1));
    assert_eq!(q.dequeue(), None);
}

#[test]
fn drain_at_pos255() {
    let mut q = Q2::new();
    for _ in 0..255 {
        assert!(q.enqueue(0).is_ok());
        assert_eq!(q.dequeue(), Some(0));
    }
    // this should not block forever
    assert_eq!(q.dequeue(), None);
}

#[test]
fn full_at_wrapped_pos0() {
    let mut q = Q2::new();
    for _ in 0..254 {
        assert!(q.enqueue(0).is_ok());
        assert_eq!(q.dequeue(), Some(0));
    }
    assert!(q.enqueue(0).is_ok());
    assert!(q.enqueue(0).is_ok());
    // this should not block forever
    assert!(q.enqueue(0).is_err());
}

#[test]
fn full_at_wrapped_pos0_returns_the_value() {
    let mut q = Q2::new();
    for _ in 0..254 {
        assert!(q.enqueue(0).is_ok());
        assert_eq!(q.dequeue(), Some(0));
    }
    assert_eq!(q.enqueue(1), Ok(()));
    assert_eq!(q.enqueue(2), Ok(()));
    assert_eq!(q.enqueue(3), Err(3));
    assert_eq!(q.dequeue(), Some(1));
    assert_eq!(q.dequeue(), Some(2));
    assert_eq!(q.dequeue(), None);
}

#[test]
fn fresh_queue_is_empty_repeatably() {
    let mut q: Q4<u32> = Q4::new();
    assert_eq!(q.dequeue(), None);
    assert_eq!(q.dequeue(), None);
    assert_eq!(q.dequeue(), None);
    // the failed dequeues left the queue usable
    assert_eq!(q.enqueue(7), Ok(()));
    assert_eq!(q.dequeue(), Some(7));
}

#[test]
fn drained_queue_is_empty_repeatably() {
    let mut q: Q4<u32> = Q4::new();
    for v in 0..3 {
        assert_eq!(q.enqueue(v), Ok(()));
    }
    for v in 0..3 {
        assert_eq!(q.dequeue(), Some(v));
    }
    assert_eq!(q.dequeue(), None);
    assert_eq!(q.dequeue(), None);
}

#[test]
fn values_leave_in_the_order_they_came() {
    let mut q: Q8<u32> = Q8::new();
    let items = [31, 4, 15, 9, 26, 5, 35, 8];
    for v in items {
        assert_eq!(q.enqueue(v), Ok(()));
    }
    for v in items {
        assert_eq!(q.dequeue(), Some(v));
    }
    assert_eq!(q.dequeue(), None);
}

#[test]
fn order_holds_across_interleaved_use() {
    let mut q: Q4<u32> = Q4::new();
    let mut next_in = 0;
    let mut next_out = 0;
    // fill levels go up and down while the positions pass 256 several times
    for round in 0..400 {
        let burst = round % 4 + 1;
        for _ in 0..burst {
            if next_in - next_out < 4 {
                assert_eq!(q.enqueue(next_in), Ok(()));
                next_in += 1;
            } else {
                assert_eq!(q.enqueue(next_in), Err(next_in));
            }
        }
        for _ in 0..(round % 3 + 1) {
            if next_out < next_in {
                assert_eq!(q.dequeue(), Some(next_out));
                next_out += 1;
            } else {
                assert_eq!(q.dequeue(), None);
            }
        }
    }
    while next_out < next_in {
        assert_eq!(q.dequeue(), Some(next_out));
        next_out += 1;
    }
    assert_eq!(q.dequeue(), None);
    assert!(next_in > 512);
}

#[test]
fn rejected_value_comes_back_untouched() {
    let mut q: Q2<String> = Q2::new();
    assert_eq!(q.enqueue(String::from("first")), Ok(()));
    assert_eq!(q.enqueue(String::from("second")), Ok(()));
    assert_eq!(q.enqueue(String::from("third")), Err(String::from("third")));
    // the rejection changed nothing
    assert_eq!(q.dequeue(), Some(String::from("first")));
    assert_eq!(q.dequeue(), Some(String::from("second")));
    assert_eq!(q.dequeue(), None);
}

#[test]
fn owned_values_move_through() {
    let mut q: Q4<Vec<u8>> = Q4::new();
    assert_eq!(q.enqueue(vec![1, 2, 3]), Ok(()));
    assert_eq!(q.enqueue(Vec::new()), Ok(()));
    assert_eq!(q.dequeue(), Some(vec![1, 2, 3]));
    assert_eq!(q.enqueue(vec![9]), Ok(()));
    assert_eq!(q.dequeue(), Some(Vec::new()));
    assert_eq!(q.dequeue(), Some(vec![9]));
    assert_eq!(q.dequeue(), None);
}

#[test]
fn capacity_bound_q2() {
    let mut q: Q2<usize> = Q2::new();
    for v in 0..2 {
        assert_eq!(q.enqueue(v), Ok(()));
    }
    assert_eq!(q.enqueue(2), Err(2));
}

#[test]
fn capacity_bound_q4() {
    let mut q: Q4<usize> = Q4::new();
    for v in 0..4 {
        assert_eq!(q.enqueue(v), Ok(()));
    }
    assert_eq!(q.enqueue(4), Err(4));
}

#[test]
fn capacity_bound_q8() {
    let mut q: Q8<usize> = Q8::new();
    for v in 0..8 {
        assert_eq!(q.enqueue(v), Ok(()));
    }
    assert_eq!(q.enqueue(8), Err(8));
}

#[test]
fn capacity_bound_q16() {
    let mut q: Q16<usize> = Q16::new();
    for v in 0..16 {
        assert_eq!(q.enqueue(v), Ok(()));
    }
    assert_eq!(q.enqueue(16), Err(16));
}

#[test]
fn capacity_bound_q32() {
    let mut q: Q32<usize> = Q32::new();
    for v in 0..32 {
        assert_eq!(q.enqueue(v), Ok(()));
    }
    assert_eq!(q.enqueue(32), Err(32));
}

#[test]
fn capacity_bound_q64() {
    let mut q: Q64<usize> = Q64::new();
    for v in 0..64 {
        assert_eq!(q.enqueue(v), Ok(()));
    }
    assert_eq!(q.enqueue(64), Err(64));
    for v in 0..64 {
        assert_eq!(q.dequeue(), Some(v));
    }
    assert_eq!(q.dequeue(), None);
}

#[test]
fn largest_capacity_fills_and_drains() {
    let mut q: MpMcQueue<usize, 128> = MpMcQueue::new();
    // three laps, so that full and empty are met at wrapped positions too
    for lap in 0..3 {
        for v in 0..128 {
            assert_eq!(q.enqueue(lap * 1000 + v), Ok(()));
        }
        assert_eq!(q.enqueue(999), Err(999));
        for v in 0..128 {
            assert_eq!(q.dequeue(), Some(lap * 1000 + v));
        }
        assert_eq!(q.dequeue(), None);
    }
}

#[test]
fn full_queue_stays_full_until_a_dequeue() {
    let mut q: Q2<u8> = Q2::new();
    assert_eq!(q.enqueue(1), Ok(()));
    assert_eq!(q.enqueue(2), Ok(()));
    assert_eq!(q.enqueue(3), Err(3));
    assert_eq!(q.enqueue(4), Err(4));
    assert_eq!(q.dequeue(), Some(1));
    assert_eq!(q.enqueue(5), Ok(()));
    assert_eq!(q.enqueue(6), Err(6));
    assert_eq!(q.dequeue(), Some(2));
    assert_eq!(q.dequeue(), Some(5));
    assert_eq!(q.dequeue(), None);
}
