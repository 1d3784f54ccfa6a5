use uwu::offload_job;
use uwu::offload_pair;
use uwu::wake::wake_pair;
use uwu::CountdownTask;
use uwu::Executor;
use uwu::Progress;
use uwu::Task;

#[test]
fn execute() {
    let executor = Executor::new();

    executor.block_on(CountdownTask::new(0, ()));
    executor.block_on(CountdownTask::new(0, ()));
}

#[test]
fn join2() {
    let exec = Executor::new();

    let (job1, t1) = offload_job(|| 1);
    let (job2, t2) = offload_job(|| 2);
    job1.run();
    job2.run();

    let (r1, r2) = exec.block_on(uwu::join2(t1, t2));
    assert_eq!(r1 + r2, 3)
}

#[test]
fn spawn_value() {
    let executor = Executor::new();

    let (job, task) = offload_job(|| 1 + 1);
    job.run();
    let result = executor.block_on(task);
    assert_eq!(result, 2);
}

#[test]
fn ready_task_returns_at_once() {
    // A countdown of zero never notifies anyone, so if the driver parked
    // even once this test would hang instead of passing.
    let executor = Executor::new();
    let got = executor.block_on(CountdownTask::new(0, 7u64));
    assert_eq!(got, 7);
}

#[test]
fn countdown_converges_after_exact_cycles() {
    let (note, _gate) = wake_pair();
    let mut task = CountdownTask::new(3, 9u64);
    for _ in 0..3 {
        match task.attempt_progress(&note) {
            Progress::Completed(_) => panic!("completed before its cycles were spent"),
            Progress::Suspended => {}
        }
    }
    match task.attempt_progress(&note) {
        Progress::Completed(v) => assert_eq!(v, 9),
        Progress::Suspended => panic!("still suspended after its cycles were spent"),
    }
}

#[test]
fn join_completes_either_order() {
    let (note, _gate) = wake_pair();

    // First inner task completes first.
    let (done_a, task_a) = offload_pair();
    let (done_b, task_b) = offload_pair();
    let mut joint = uwu::join2(task_a, task_b);
    assert!(matches!(joint.attempt_progress(&note), Progress::Suspended));
    done_a.complete(10u64);
    assert!(matches!(joint.attempt_progress(&note), Progress::Suspended));
    done_b.complete(20u64);
    match joint.attempt_progress(&note) {
        Progress::Completed(pair) => assert_eq!(pair, (10, 20)),
        Progress::Suspended => panic!("both halves were delivered"),
    }

    // Second inner task completes first.
    let (done_a, task_a) = offload_pair();
    let (done_b, task_b) = offload_pair();
    let mut joint = uwu::join2(task_a, task_b);
    done_b.complete(20u64);
    assert!(matches!(joint.attempt_progress(&note), Progress::Suspended));
    done_a.complete(10u64);
    match joint.attempt_progress(&note) {
        Progress::Completed(pair) => assert_eq!(pair, (10, 20)),
        Progress::Suspended => panic!("both halves were delivered"),
    }
}

#[test]
fn join_completes_in_one_attempt() {
    // Both inner tasks become ready before the first probe: exactly one
    // joint completion comes out.
    let (note, _gate) = wake_pair();
    let (done_a, task_a) = offload_pair();
    let (done_b, task_b) = offload_pair();
    let mut joint = uwu::join2(task_a, task_b);
    done_a.complete(1u64);
    done_b.complete(2u64);
    match joint.attempt_progress(&note) {
        Progress::Completed(pair) => assert_eq!(pair, (1, 2)),
        Progress::Suspended => panic!("both halves were delivered"),
    }
}

#[test]
fn spurious_notifications_are_harmless() {
    // Extra notifications at arbitrary points neither lose nor duplicate a
    // completion: the countdown still yields its one value.
    let (producer, task) = offload_pair();
    let (note, gate) = wake_pair();
    let mut task = task;
    note.notify();
    note.notify();
    assert!(matches!(task.attempt_progress(&note), Progress::Suspended));
    gate.wait();
    note.notify();
    assert!(matches!(task.attempt_progress(&note), Progress::Suspended));
    producer.complete(77u64);
    gate.wait();
    match task.attempt_progress(&note) {
        Progress::Completed(v) => assert_eq!(v, 77),
        Progress::Suspended => panic!("value was delivered and a token was pending"),
    }
    // Late notifications after completion are harmless no-ops.
    note.notify();
    note.notify();

    // And under the executor, extra wakeups only cause extra re-attempts.
    let executor = Executor::new();
    let got = executor.block_on(CountdownTask::new(5, 42u64));
    assert_eq!(got, 42);
}

#[test]
fn no_missed_wakeup_either_interleaving() {
    let (note, gate) = wake_pair();

    // Producer writes the result before the consumer ever polls: the first
    // poll sees the value without any parking.
    let (producer, task) = offload_pair();
    let mut task = task;
    producer.complete(5u64);
    match task.attempt_progress(&note) {
        Progress::Completed(v) => assert_eq!(v, 5),
        Progress::Suspended => panic!("result was already present"),
    }

    // Consumer registers its wake handle first: the producer's later
    // delivery must notify, so the wait returns promptly instead of hanging.
    let (producer, task) = offload_pair();
    let mut task = task;
    assert!(matches!(task.attempt_progress(&note), Progress::Suspended));
    producer.complete(6u64);
    gate.wait();
    match task.attempt_progress(&note) {
        Progress::Completed(v) => assert_eq!(v, 6),
        Progress::Suspended => panic!("result was delivered before the wakeup"),
    }
}

#[test]
fn stress_thousand_offloads() {
    let executor = Executor::new();
    let mut tasks = Vec::new();
    for i in 0..1000u64 {
        let (job, task) = offload_job(move || i);
        job.run();
        tasks.push(task);
    }
    let mut found = vec![false; 1000];
    while tasks.len() >= 2 {
        let b = tasks.pop().unwrap();
        let a = tasks.pop().unwrap();
        let (va, vb) = executor.block_on(uwu::join2(a, b));
        for v in [va, vb] {
            assert!(!found[v as usize], "index delivered twice");
            found[v as usize] = true;
        }
    }
    for (i, seen) in found.iter().enumerate() {
        assert!(*seen, "index {i} was lost");
    }
}

#[test]
fn join_countdowns_under_executor() {
    // Two self-waking tasks with different suspension counts, joined and
    // driven through the real parking loop.
    let exec = Executor::new();
    let a = CountdownTask::new(3, 5u64);
    let b = CountdownTask::new(1, 6u64);
    let pair = exec.block_on(uwu::join2(a, b));
    assert_eq!(pair, (5, 6));
}
