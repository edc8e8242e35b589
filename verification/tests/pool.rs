use task_simple::{JobState, PoolCore, TicketGenerator};

#[test]
fn ticket_identity() {
    let mut generator = TicketGenerator::new();
    let (a_caller, a_pool) = generator.next();
    let (b_caller, _b_pool) = generator.next();
    assert_eq!(a_caller, a_pool);
    assert_ne!(a_caller, b_caller);
}

#[test]
fn unknown_ticket_is_never_done() {
    let mut other_pool: PoolCore<u64, u64> = PoolCore::new(1);
    let mut pool: PoolCore<u64, u64> = PoolCore::new(1);

    // A ticket issued by a different pool, beyond anything `pool` issued.
    let _ = other_pool.enqueue(1);
    let foreign = other_pool.enqueue(2);

    let own = pool.enqueue(7);
    match pool.collect(foreign) {
        JobState::Ongoing(_) => {}
        JobState::Done(_) => panic!("output for a ticket the pool never issued"),
    }
    match pool.collect(own) {
        JobState::Ongoing(_) => {}
        JobState::Done(_) => panic!("output before any worker ran"),
    }
}

#[test]
fn capacity_and_backlog_excess() {
    let mut pool: PoolCore<u64, u64> = PoolCore::new(2);
    for i in 0..5u64 {
        let _ = pool.enqueue(i);
    }
    assert_eq!(pool.backlog_len(), 5);

    // One assignment pass: both slots take a job, the excess stays queued.
    let plan = pool.fill();
    assert_eq!(plan.len(), 2);
    assert_eq!(pool.backlog_len(), 3);
    assert!(pool.slot_busy(0));
    assert!(pool.slot_busy(1));

    // With every slot busy, another pass submits nothing.
    let plan = pool.fill();
    assert!(plan.is_empty());
    assert_eq!(pool.backlog_len(), 3);
}

#[test]
fn empty_backlog_fills_nothing() {
    let mut pool: PoolCore<u64, u64> = PoolCore::new(3);
    assert!(pool.fill().is_empty());
    assert_eq!(pool.backlog_len(), 0);
    assert!(!pool.slot_busy(0) && !pool.slot_busy(1) && !pool.slot_busy(2));
}

#[test]
fn fifo_per_worker_slot() {
    let mut pool: PoolCore<&str, u64> = PoolCore::new(1);
    let _first = pool.enqueue("first");
    let _second = pool.enqueue("second");

    let plan = pool.fill();
    assert_eq!(plan.len(), 1);
    assert_eq!(plan[0], (0, "first"));

    // The slot still works on the first job: the second is not submitted.
    assert!(pool.fill().is_empty());

    // Only after the first completes does the slot take the second.
    pool.complete(0, 1);
    let plan = pool.fill();
    assert_eq!(plan.len(), 1);
    assert_eq!(plan[0], (0, "second"));
}

#[test]
fn pool_of_three_doubles_in_ticket_order() {
    let mut pool: PoolCore<u64, u64> = PoolCore::new(3);
    let mut tickets = Vec::new();
    for i in 1..=10u64 {
        tickets.push(pool.enqueue(10 * i));
    }

    // Collect each output through its ticket, in issue order, driving the
    // scheduler like a busy `wait_for`. The simulated backends complete in
    // reverse submission order, so completion order differs from ticket
    // order.
    let mut results = Vec::new();
    for ticket in tickets {
        let mut pending = ticket;
        let output = loop {
            let mut outputs: Vec<(usize, u64)> = pool
                .fill()
                .into_iter()
                .map(|(slot, input)| (slot, 2 * input))
                .collect();
            outputs.reverse();
            for (slot, output) in outputs {
                pool.complete(slot, output);
            }
            match pool.collect(pending) {
                JobState::Done(output) => break output,
                JobState::Ongoing(same) => pending = same,
            }
        };
        results.push(output);
    }
    let expected: Vec<u64> = (1..=10u64).map(|i| 20 * i).collect();
    assert_eq!(results, expected);
}

#[test]
fn done_is_collected_exactly_once() {
    let mut pool: PoolCore<u64, u64> = PoolCore::new(1);
    let ticket = pool.enqueue(21);

    let mut pending = ticket;
    // Not yet assigned, so not done.
    pending = match pool.collect(pending) {
        JobState::Ongoing(same) => same,
        JobState::Done(_) => panic!("output before any worker ran"),
    };

    let plan = pool.fill();
    assert_eq!(plan.len(), 1);
    // Submitted but not yet completed: still ongoing.
    pending = match pool.collect(pending) {
        JobState::Ongoing(same) => same,
        JobState::Done(_) => panic!("output before the worker finished"),
    };

    pool.complete(0, 42);
    match pool.collect(pending) {
        JobState::Done(output) => assert_eq!(output, 42),
        JobState::Ongoing(_) => panic!("output missing after completion"),
    }
    // The ticket was consumed with the output: a done result is handed out
    // exactly once.
}
