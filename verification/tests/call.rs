use bounded_mpmc::call::{first, order, proceed, Order, Reply, Role, Step};

#[test]
fn every_call_begins_by_reading_its_position() {
    assert_eq!(first(), Step::LoadPosition);
}

#[test]
fn a_position_is_followed_by_a_look_at_its_slot() {
    assert_eq!(
        proceed(Role::Producer, Step::LoadPosition, Reply::Read(5), 3),
        Step::LoadSequence { pos: 5, slot: 1 }
    );
    assert_eq!(
        proceed(Role::Consumer, Step::LoadPosition, Reply::Read(130), 127),
        Step::LoadSequence { pos: 130, slot: 2 }
    );
    assert_eq!(
        proceed(Role::Consumer, Step::LoadPosition, Reply::Read(usize::MAX), 1),
        Step::LoadSequence {
            pos: usize::MAX,
            slot: 1
        }
    );
}

#[test]
fn producer_claims_a_free_slot() {
    let look = Step::LoadSequence { pos: 5, slot: 1 };
    assert_eq!(
        proceed(Role::Producer, look, Reply::Read(5), 3),
        Step::Claim { pos: 5, next: 6 }
    );
}

#[test]
fn producer_gives_up_on_a_full_queue() {
    // capacity 4: the slot of position 5 still shows the value of position 1
    let look = Step::LoadSequence { pos: 5, slot: 1 };
    assert_eq!(proceed(Role::Producer, look, Reply::Read(2), 3), Step::Fail);
}

#[test]
fn producer_starts_over_behind_a_peer() {
    let look = Step::LoadSequence { pos: 5, slot: 1 };
    assert_eq!(
        proceed(Role::Producer, look, Reply::Read(6), 3),
        Step::LoadPosition
    );
}

#[test]
fn consumer_claims_a_published_slot() {
    let look = Step::LoadSequence { pos: 5, slot: 1 };
    assert_eq!(
        proceed(Role::Consumer, look, Reply::Read(6), 3),
        Step::Claim { pos: 5, next: 6 }
    );
    // the target wraps with the counter
    let look = Step::LoadSequence {
        pos: usize::MAX,
        slot: 3,
    };
    assert_eq!(
        proceed(Role::Consumer, look, Reply::Read(0), 3),
        Step::Claim {
            pos: usize::MAX,
            next: 0
        }
    );
}

#[test]
fn consumer_gives_up_on_an_empty_queue() {
    let look = Step::LoadSequence { pos: 5, slot: 1 };
    assert_eq!(proceed(Role::Consumer, look, Reply::Read(5), 3), Step::Fail);
}

#[test]
fn consumer_starts_over_behind_a_peer() {
    // another consumer has handed the slot on to position 9
    let look = Step::LoadSequence { pos: 5, slot: 1 };
    assert_eq!(
        proceed(Role::Consumer, look, Reply::Read(9), 3),
        Step::LoadPosition
    );
}

#[test]
fn a_won_claim_is_followed_by_the_transfer() {
    let claim = Step::Claim { pos: 5, next: 6 };
    assert_eq!(
        proceed(Role::Producer, claim, Reply::Won, 3),
        Step::Transfer {
            slot: 1,
            sequence: 6
        }
    );
    assert_eq!(
        proceed(Role::Consumer, claim, Reply::Won, 3),
        Step::Transfer {
            slot: 1,
            sequence: 9
        }
    );
    let claim = Step::Claim {
        pos: usize::MAX,
        next: 0,
    };
    assert_eq!(
        proceed(Role::Producer, claim, Reply::Won, 1),
        Step::Transfer {
            slot: 1,
            sequence: 0
        }
    );
    assert_eq!(
        proceed(Role::Consumer, claim, Reply::Won, 1),
        Step::Transfer {
            slot: 1,
            sequence: 1
        }
    );
}

#[test]
fn a_lost_claim_reads_the_position_again() {
    let claim = Step::Claim { pos: 5, next: 6 };
    assert_eq!(
        proceed(Role::Producer, claim, Reply::Lost, 3),
        Step::LoadPosition
    );
    assert_eq!(
        proceed(Role::Consumer, claim, Reply::Lost, 3),
        Step::LoadPosition
    );
}

#[test]
fn a_call_that_has_ended_stays_ended() {
    let transfer = Step::Transfer {
        slot: 1,
        sequence: 6,
    };
    for reply in [Reply::Read(0), Reply::Won, Reply::Lost] {
        assert_eq!(proceed(Role::Producer, transfer, reply, 3), transfer);
        assert_eq!(proceed(Role::Consumer, Step::Fail, reply, 3), Step::Fail);
    }
}

#[test]
fn a_reply_that_answers_nothing_restarts_the_call() {
    assert_eq!(
        proceed(Role::Producer, Step::LoadPosition, Reply::Won, 3),
        Step::LoadPosition
    );
    assert_eq!(
        proceed(
            Role::Consumer,
            Step::LoadSequence { pos: 5, slot: 1 },
            Reply::Lost,
            3
        ),
        Step::LoadPosition
    );
    assert_eq!(
        proceed(
            Role::Producer,
            Step::Claim { pos: 5, next: 6 },
            Reply::Read(5),
            3
        ),
        Step::LoadPosition
    );
}

#[test]
fn accesses_are_ordered_as_the_protocol_asks() {
    assert_eq!(order(Step::LoadPosition), Order::Relaxed);
    assert_eq!(order(Step::LoadSequence { pos: 0, slot: 0 }), Order::Acquire);
    assert_eq!(order(Step::Claim { pos: 0, next: 1 }), Order::Relaxed);
    assert_eq!(
        order(Step::Transfer {
            slot: 0,
            sequence: 1
        }),
        Order::Release
    );
    assert_eq!(order(Step::Fail), Order::Relaxed);
}
