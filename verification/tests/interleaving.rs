use bounded_mpmc::mpmc::Q8;
use bounded_mpmc::call::{first, proceed, Reply, Role, Step};
use bounded_mpmc::protocol::slot_index;

/// A small deterministic generator, so that every run takes the same schedule.
struct Schedule(u64);

impl Schedule {
    fn next(&mut self) -> u64 {
        self.0 ^= self.0 << 13;
        self.0 ^= self.0 >> 7;
        self.0 ^= self.0 << 17;
        self.0
    }

    fn below(&mut self, n: usize) -> usize {
        (self.next() % n as u64) as usize
    }
}

#[test]
fn interleaved_calls_conserve_values() {
    // three producers and two consumers take turns in an arbitrary order,
    // one whole call at a time
    let mut schedule = Schedule(0x9E37_79B9_7F4A_7C15);
    let mut q: Q8<(usize, u32)> = Q8::new();
    let mut sent = [0u32; 3];
    let mut accepted: Vec<(usize, u32)> = Vec::new();
    let mut delivered: Vec<(usize, u32)> = Vec::new();
    let mut rejected = 0;
    let mut empty = 0;
    for _ in 0..5000 {
        let who = schedule.below(5);
        if who < 3 {
            let item = (who, sent[who]);
            match q.enqueue(item) {
                Ok(()) => {
                    accepted.push(item);
                    sent[who] += 1;
                }
                Err(back) => {
                    assert_eq!(back, item);
                    rejected += 1;
                }
            }
        } else {
            match q.dequeue() {
                Some(v) => delivered.push(v),
                None => empty += 1,
            }
        }
    }
    while let Some(v) = q.dequeue() {
        delivered.push(v);
    }
    assert_eq!(delivered.len(), accepted.len());
    assert_eq!(delivered, accepted);
    assert!(rejected > 0);
    assert!(empty > 0);
}

struct Memory {
    mask: usize,
    enqueue_pos: usize,
    dequeue_pos: usize,
    sequence: Vec<usize>,
    data: Vec<Option<u64>>,
}

impl Memory {
    /// A queue whose positions stand at `start`, as if `start` values had
    /// passed through it.
    fn at(capacity: usize, start: usize) -> Memory {
        let mask = capacity - 1;
        let mut sequence = vec![0; capacity];
        for k in 0..capacity {
            let pos = start.wrapping_add(k);
            sequence[slot_index(pos, mask)] = pos;
        }
        Memory {
            mask,
            enqueue_pos: start,
            dequeue_pos: start,
            sequence,
            data: vec![None; capacity],
        }
    }

    /// Answers a load or a claim on the position counter of `role`.
    fn answer(&mut self, role: Role, step: Step) -> Reply {
        let position = match role {
            Role::Producer => &mut self.enqueue_pos,
            Role::Consumer => &mut self.dequeue_pos,
        };
        match step {
            Step::LoadSequence { slot, .. } => Reply::Read(self.sequence[slot]),
            Step::Claim { pos, next } => {
                if *position == pos {
                    *position = next;
                    Reply::Won
                } else {
                    Reply::Lost
                }
            }
            _ => Reply::Read(*position),
        }
    }
}

/// A call between two accesses: its step, and whether the value of a
/// transfer has been moved already.
#[derive(Clone, Copy, PartialEq, Debug)]
struct Phase {
    step: Step,
    moved: bool,
}

impl Phase {
    fn start() -> Phase {
        Phase {
            step: first(),
            moved: false,
        }
    }
}

/// One access of a producer to shared memory. Returns the outcome when the
/// call ends.
fn produce(m: &mut Memory, phase: &mut Phase, item: u64) -> Option<Result<(), u64>> {
    match phase.step {
        Step::Transfer { slot, sequence } => {
            if !phase.moved {
                assert_eq!(m.data[slot], None, "a claimed slot still held a value");
                m.data[slot] = Some(item);
                phase.moved = true;
                None
            } else {
                m.sequence[slot] = sequence;
                *phase = Phase::start();
                Some(Ok(()))
            }
        }
        Step::Fail => {
            *phase = Phase::start();
            Some(Err(item))
        }
        step => {
            let reply = m.answer(Role::Producer, step);
            phase.step = proceed(Role::Producer, step, reply, m.mask);
            None
        }
    }
}

/// One access of a consumer to shared memory. Returns the outcome when the
/// call ends.
fn consume(m: &mut Memory, phase: &mut Phase, held: &mut Option<u64>) -> Option<Option<u64>> {
    match phase.step {
        Step::Transfer { slot, sequence } => {
            if !phase.moved {
                let value = m.data[slot].take();
                assert!(value.is_some(), "a claimed slot held no value");
                *held = value;
                phase.moved = true;
                None
            } else {
                m.sequence[slot] = sequence;
                *phase = Phase::start();
                Some(held.take())
            }
        }
        Step::Fail => {
            *phase = Phase::start();
            Some(None)
        }
        step => {
            let reply = m.answer(Role::Consumer, step);
            phase.step = proceed(Role::Consumer, step, reply, m.mask);
            None
        }
    }
}

/// Lets `producers` producers and `consumers` consumers step through the
/// protocol one memory access at a time, in the order the schedule gives,
/// and checks that what was accepted is what was delivered.
fn run_interleaved(capacity: usize, start: usize, producers: usize, consumers: usize, seed: u64) {
    let mut schedule = Schedule(seed);
    let mut m = Memory::at(capacity, start);
    let mut producing = vec![Phase::start(); producers];
    let mut offered: Vec<u64> = (0..producers as u64).map(|w| w << 32).collect();
    let mut consuming = vec![Phase::start(); consumers];
    let mut held: Vec<Option<u64>> = vec![None; consumers];
    let mut accepted: Vec<u64> = Vec::new();
    let mut delivered: Vec<u64> = Vec::new();

    for _ in 0..40_000 {
        let who = schedule.below(producers + consumers);
        if who < producers {
            match produce(&mut m, &mut producing[who], offered[who]) {
                Some(Ok(())) => {
                    accepted.push(offered[who]);
                    offered[who] += 1;
                }
                Some(Err(back)) => assert_eq!(back, offered[who]),
                None => {}
            }
        } else {
            let c = who - producers;
            if let Some(Some(v)) = consume(&mut m, &mut consuming[c], &mut held[c]) {
                delivered.push(v);
            }
        }
    }
    // let every call that is under way come to its end, then drain
    for w in 0..producers {
        while producing[w] != Phase::start() {
            if let Some(Ok(())) = produce(&mut m, &mut producing[w], offered[w]) {
                accepted.push(offered[w]);
            }
        }
    }
    for c in 0..consumers {
        while consuming[c] != Phase::start() {
            if let Some(Some(v)) = consume(&mut m, &mut consuming[c], &mut held[c]) {
                delivered.push(v);
            }
        }
    }
    loop {
        match consume(&mut m, &mut consuming[0], &mut held[0]) {
            Some(Some(v)) => delivered.push(v),
            Some(None) => break,
            None => {}
        }
    }

    assert!(accepted.len() > capacity);
    assert_eq!(accepted.len(), delivered.len());
    assert_eq!(m.enqueue_pos, start.wrapping_add(accepted.len()));
    assert_eq!(m.dequeue_pos, m.enqueue_pos);
    // each producer's values were delivered once each
    let mut a = accepted.clone();
    let mut d = delivered.clone();
    a.sort();
    d.sort();
    assert_eq!(a, d);
    a.dedup();
    assert_eq!(a.len(), accepted.len());
}

#[test]
fn interleaved_steps_conserve_values() {
    run_interleaved(2, 0, 3, 2, 1);
    run_interleaved(4, 0, 3, 2, 2);
    run_interleaved(8, 0, 2, 5, 3);
    run_interleaved(128, 0, 4, 4, 4);
}

#[test]
fn interleaved_steps_conserve_values_across_wraparound() {
    // the positions pass the end of the machine word during the run
    run_interleaved(2, usize::MAX - 100, 3, 2, 5);
    run_interleaved(4, usize::MAX - 1000, 3, 3, 6);
    run_interleaved(64, usize::MAX - 3, 2, 2, 7);
}

#[test]
fn single_producer_and_consumer_keep_order_under_interleaving() {
    let mut schedule = Schedule(99);
    let mut m = Memory::at(4, 250);
    let mut producing = Phase::start();
    let mut consuming = Phase::start();
    let mut held = None;
    let mut next = 0u64;
    let mut delivered: Vec<u64> = Vec::new();
    for _ in 0..20_000 {
        if schedule.below(2) == 0 {
            if let Some(Ok(())) = produce(&mut m, &mut producing, next) {
                next += 1;
            }
        } else if let Some(Some(v)) = consume(&mut m, &mut consuming, &mut held) {
            delivered.push(v);
        }
    }
    assert!(delivered.len() > 1000);
    for (i, v) in delivered.iter().enumerate() {
        assert_eq!(*v, i as u64);
    }
}
