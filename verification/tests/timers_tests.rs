use sendme::Timers;

#[test]
fn staged_drain_returns_due_entries_in_batches() {
    let mut timers: Timers<&str> = Timers::new();
    timers.insert(100, "first");
    timers.insert(200, "second");
    timers.insert(300, "third");
    assert_eq!(timers.next_wake(), Some(100));

    // woken once the earliest deadline has elapsed, before the second
    let drained = timers.drain_due(150);
    assert_eq!(drained, vec![(100, "first")]);

    // the cache is invalid until recomputed
    assert_eq!(timers.next_wake(), None);
    timers.reset();
    assert_eq!(timers.next_wake(), Some(200));

    // woken again after both remaining deadlines elapsed: both together
    let drained = timers.drain_due(350);
    assert_eq!(drained, vec![(200, "second"), (300, "third")]);
    timers.reset();
    assert_eq!(timers.next_wake(), None);
}

#[test]
fn empty_timers_have_no_wake_up() {
    let timers: Timers<u32> = Timers::new();
    // the embedding waits only when a wake-up is cached, so an empty
    // instance never resolves its wait
    assert_eq!(timers.next_wake(), None);
}

#[test]
fn entries_sharing_a_deadline_drain_together() {
    let mut timers: Timers<u32> = Timers::new();
    timers.insert(50, 1);
    timers.insert(50, 2);
    timers.insert(50, 3);
    let drained = timers.drain_due(50);
    assert_eq!(drained.len(), 3);
    assert!(drained.iter().all(|(d, _)| *d == 50));
    let mut payloads: Vec<u32> = drained.into_iter().map(|(_, x)| x).collect();
    payloads.sort();
    assert_eq!(payloads, vec![1, 2, 3]);
}

#[test]
fn insert_lowering_the_minimum_recomputes_the_wake_up() {
    let mut timers: Timers<&str> = Timers::new();
    timers.insert(500, "late");
    assert_eq!(timers.next_wake(), Some(500));
    timers.insert(20, "early");
    assert_eq!(timers.next_wake(), Some(20));
    timers.insert(100, "middle");
    assert_eq!(timers.next_wake(), Some(20));
}

#[test]
fn past_deadlines_drain_with_the_batch() {
    let mut timers: Timers<&str> = Timers::new();
    timers.insert(10, "overdue");
    timers.insert(40, "due");
    timers.insert(90, "future");
    // woken at 40's deadline, with 10 long past: both come out
    let drained = timers.drain_due(40);
    assert_eq!(drained, vec![(10, "overdue"), (40, "due")]);
    timers.reset();
    assert_eq!(timers.next_wake(), Some(90));
}
