use http_rs::pool::Channel;
use http_rs::pool::Pool;
use http_rs::pool::WorkerMessage;
use http_rs::pool::WorkerState;

/// Constructing a pool of any positive size and tearing it straight
/// down leaves no live worker and nothing queued.
#[test]
fn teardown_with_no_work_leaves_no_live_workers() {
    for size in 1..6usize {
        let mut p = Pool::new(size);
        p.teardown();
        assert_eq!(p.workers.len(), size);
        for w in &p.workers {
            assert_eq!(*w, WorkerState::Exited);
        }
        assert_eq!(p.channel.queue.len(), 0);
        assert!(p.executed.is_empty());
    }
}

/// Submitting N work items and tearing down runs each exactly once.
#[test]
fn every_submission_runs_exactly_once() {
    let mut p = Pool::new(3);
    for i in 0..20usize {
        p.execute(i);
    }
    p.teardown();
    assert_eq!(p.executed.len(), 20);
    let mut seen = vec![0usize; 20];
    for &j in &p.executed {
        seen[j] += 1;
    }
    for c in seen {
        assert_eq!(c, 1);
    }
}

/// Work submitted before teardown is finished before teardown returns.
#[test]
fn teardown_waits_for_pending_work() {
    let mut p = Pool::new(2);
    p.execute(7);
    p.execute(8);
    assert!(p.executed.is_empty());
    p.teardown();
    assert!(p.executed.contains(&7));
    assert!(p.executed.contains(&8));
    assert_eq!(p.executed.len(), 2);
}

/// Ten items on four workers: the log ends up holding each index
/// exactly once, in whatever order the workers got to them.
#[test]
fn ten_items_on_four_workers_log_each_index_once() {
    let mut p = Pool::new(4);
    for i in 0..10usize {
        p.execute(i);
    }
    p.teardown();
    assert_eq!(p.executed.len(), 10);
    for i in 0..10usize {
        assert_eq!(p.executed.iter().filter(|&&j| j == i).count(), 1);
    }
}

/// One worker serializes: the second item cannot run before the first
/// one has finished, because the only worker is busy with the first.
#[test]
fn single_worker_serializes_a_before_b() {
    let mut p = Pool::new(1);
    p.execute(0);
    p.execute(1);
    p.take_message(0);
    assert_eq!(p.workers[0], WorkerState::Busy(0));
    assert!(p.executed.is_empty());
    p.finish_job(0);
    assert_eq!(p.executed, vec![0]);
    p.take_message(0);
    assert_eq!(p.workers[0], WorkerState::Busy(1));
    p.finish_job(0);
    assert_eq!(p.executed, vec![0, 1]);
    p.teardown();
}

/// Two workers really run two items at the same time: after each takes
/// one message, both stand busy at once.
#[test]
fn two_workers_run_two_items_concurrently() {
    let mut p = Pool::new(2);
    p.execute(10);
    p.execute(11);
    p.take_message(0);
    p.take_message(1);
    assert_eq!(p.workers[0], WorkerState::Busy(10));
    assert_eq!(p.workers[1], WorkerState::Busy(11));
    p.finish_job(1);
    p.finish_job(0);
    assert_eq!(p.executed, vec![11, 10]);
    p.teardown();
    assert_eq!(p.executed.len(), 2);
}

/// The channel hands messages out in exactly the order they were sent.
#[test]
fn channel_delivers_in_send_order() {
    let mut c = Channel::new();
    c.send(WorkerMessage::NewJob(1));
    c.send(WorkerMessage::Terminate);
    c.send(WorkerMessage::NewJob(2));
    assert_eq!(c.len(), 3);
    assert_eq!(c.recv(), WorkerMessage::NewJob(1));
    assert_eq!(c.recv(), WorkerMessage::Terminate);
    assert_eq!(c.recv(), WorkerMessage::NewJob(2));
    assert_eq!(c.len(), 0);
}

/// The shutdown protocol sends one terminate signal per worker, behind
/// everything already queued; a worker consumes at most one and exits.
#[test]
fn shutdown_sends_one_terminate_per_worker() {
    let mut p = Pool::new(3);
    p.execute(5);
    p.begin_shutdown();
    assert_eq!(p.channel.queue.len(), 4);
    assert_eq!(p.channel.queue[0], WorkerMessage::NewJob(5));
    for k in 1..4 {
        assert_eq!(p.channel.queue[k], WorkerMessage::Terminate);
    }
    p.take_message(0);
    assert_eq!(p.workers[0], WorkerState::Busy(5));
    p.finish_job(0);
    p.take_message(0);
    assert_eq!(p.workers[0], WorkerState::Exited);
    p.take_message(1);
    p.take_message(2);
    assert_eq!(p.workers[1], WorkerState::Exited);
    assert_eq!(p.workers[2], WorkerState::Exited);
    assert_eq!(p.executed, vec![5]);
    assert_eq!(p.channel.queue.len(), 0);
}
