use crossbeam_channel::unbounded;
use pi_calc::calc::{calc_series, Action, CalcError, Event};
use pi_calc::expr::{Expr, Reg};
use pi_calc::factorial_calculator::FactorialCalculator;
use pi_calc::worker::{Worker, WorkerAction, WorkerEvent};

#[test]
fn send_puts_the_pending_range_into_the_queue() {
    let (sender, receiver) = unbounded();
    let mut evaluator = calc_series(20, 2).ok().unwrap();
    assert!(!evaluator.send(&sender));
    while evaluator.pending() != (Action::Spawn { workers: 2 }) {
        evaluator.advance(Event::Stored { unchanged: false });
    }
    assert!(!evaluator.send(&sender));
    assert_eq!(evaluator.pending(), Action::Spawn { workers: 2 });
    evaluator.advance(Event::Done);
    assert_eq!(evaluator.pending(), Action::Send { task: 0..1 });
    assert!(evaluator.send(&sender));
    assert_eq!(evaluator.pending(), Action::Send { task: 1..2 });
    assert!(evaluator.send(&sender));
    assert!(evaluator.send(&sender));
    assert_eq!(evaluator.pending(), Action::Close);
    assert!(!evaluator.send(&sender));
    drop(sender);
    let sent: Vec<(u64, u64)> = receiver.iter().collect();
    assert_eq!(sent, vec![(0, 1), (1, 2), (2, 3)]);
}

#[test]
fn send_into_a_queue_without_receivers_fails_the_evaluation() {
    let (sender, receiver) = unbounded();
    drop(receiver);
    let mut evaluator = calc_series(20, 2).ok().unwrap();
    while evaluator.pending() != (Action::Spawn { workers: 2 }) {
        evaluator.advance(Event::Stored { unchanged: false });
    }
    evaluator.advance(Event::Done);
    assert!(!evaluator.send(&sender));
    assert_eq!(evaluator.pending(), Action::Fail { error: CalcError::WorkerFailure });
}

#[test]
fn receive_takes_ranges_until_the_queue_is_closed() {
    let (sender, receiver) = unbounded();
    sender.send((0u64, 2u64)).unwrap();
    sender.send((2u64, 3u64)).unwrap();
    drop(sender);
    let cache = FactorialCalculator::new(64, 16);
    let mut worker = Worker::new(&cache);
    assert_eq!(worker.receive(&receiver), None);
    assert_eq!(worker.pending(), WorkerAction::Assign { dst: Reg::Total, expr: Expr::Int(0) });
    let mut received = vec![];
    loop {
        match worker.pending() {
            WorkerAction::Assign { .. } => worker.advance(WorkerEvent::Stored { unchanged: false }),
            WorkerAction::Receive => {
                if let Some(range) = worker.receive(&receiver) {
                    received.push(range);
                }
            }
            WorkerAction::Finish => break,
            WorkerAction::Abort => panic!("the worker aborted"),
        }
    }
    assert_eq!(received, vec![0..2, 2..3]);
    assert_eq!(worker.tasks_done(), 2);
    assert_eq!(worker.receive(&receiver), None);
    assert_eq!(worker.pending(), WorkerAction::Finish);
}

#[test]
fn receive_leaves_the_queue_alone_while_a_range_is_summed() {
    let (sender, receiver) = unbounded();
    sender.send((0u64, 1u64)).unwrap();
    sender.send((1u64, 2u64)).unwrap();
    let cache = FactorialCalculator::new(64, 16);
    let mut worker = Worker::new(&cache);
    worker.advance(WorkerEvent::Stored { unchanged: false });
    assert_eq!(worker.receive(&receiver), Some(0..1));
    assert_eq!(worker.receive(&receiver), None);
    assert_eq!(worker.pending(), WorkerAction::Assign { dst: Reg::Sum, expr: Expr::Int(0) });
    assert_eq!(receiver.len(), 1);
}

#[test]
fn received_range_beyond_the_cache_aborts_the_worker() {
    let (sender, receiver) = unbounded();
    sender.send((3u64, 9u64)).unwrap();
    let cache = FactorialCalculator::new(64, 16);
    let mut worker = Worker::new(&cache);
    worker.advance(WorkerEvent::Stored { unchanged: false });
    assert_eq!(worker.receive(&receiver), Some(3..9));
    assert_eq!(worker.pending(), WorkerAction::Abort);
}
