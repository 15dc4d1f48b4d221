use crossbeam_channel::{unbounded, Receiver};
use num_bigint::BigUint;
use pi_calc::calc::{calc_series, Action, CalcError, Evaluator, Event};
use pi_calc::expr::{Expr, Reg};
use pi_calc::factorial_calculator::FactorialCalculator;
use pi_calc::series::SeriesPartialSum;
use pi_calc::utils::split_range_to_count;
use pi_calc::worker::{Worker, WorkerAction, WorkerEvent};
use std::ops::Range;

const PI_DIGITS: &str = "3.1415926535897932384626433832795028841971693993751058209749445923078164062862089986280348253421170679";

/// A non-negative binary floating-point number: `mant * 2^exp`, with `mant`
/// odd or zero, rounded to a given number of bits after every operation.
#[derive(Debug, Clone, PartialEq, Eq)]
struct Num {
    mant: BigUint,
    exp: i64,
}

fn zero() -> BigUint {
    BigUint::from(0u32)
}

fn rounded(mant: BigUint, exp: i64, prec: u32) -> Num {
    if mant == zero() {
        return Num { mant, exp: 0 };
    }
    let mut mant = mant;
    let mut exp = exp;
    let bits = mant.bits();
    if bits > prec as u64 {
        let shift = bits - prec as u64;
        mant = (mant + (BigUint::from(1u32) << (shift - 1))) >> shift;
        exp += shift as i64;
    }
    let spare = mant.trailing_zeros().unwrap();
    Num { mant: mant >> spare, exp: exp + spare as i64 }
}

fn from_u64(n: u64, prec: u32) -> Num {
    rounded(BigUint::from(n), 0, prec)
}

fn sum_of(a: &Num, b: &Num, prec: u32) -> Num {
    if a.mant == zero() {
        return rounded(b.mant.clone(), b.exp, prec);
    }
    if b.mant == zero() {
        return rounded(a.mant.clone(), a.exp, prec);
    }
    let exp = a.exp.min(b.exp);
    let left = a.mant.clone() << ((a.exp - exp) as u64);
    let right = b.mant.clone() << ((b.exp - exp) as u64);
    rounded(left + right, exp, prec)
}

fn product_of(a: &Num, b: &Num, prec: u32) -> Num {
    rounded(&a.mant * &b.mant, a.exp + b.exp, prec)
}

fn quotient_of(a: &Num, b: &Num, prec: u32) -> Num {
    assert!(b.mant != zero());
    let want = prec as u64 + 2 + b.mant.bits();
    let shift = want.saturating_sub(a.mant.bits());
    let scaled = a.mant.clone() << shift;
    rounded(scaled / &b.mant, a.exp - b.exp - shift as i64, prec)
}

fn power_of(a: &Num, exponent: u64, prec: u32) -> Num {
    rounded(a.mant.pow(exponent as u32), a.exp * exponent as i64, prec)
}

fn root_of(a: &Num, prec: u32) -> Num {
    let mut shift = 2 * (prec as u64 + 2);
    if (a.exp - shift as i64) % 2 != 0 {
        shift += 1;
    }
    let scaled = a.mant.clone() << shift;
    rounded(scaled.sqrt(), (a.exp - shift as i64) / 2, prec)
}

/// The decimal text of `x`, cut off after `places` digits behind the point.
fn decimal_text(x: &Num, places: u32) -> String {
    let scaled = &x.mant * BigUint::from(10u32).pow(places);
    let whole = if x.exp >= 0 { scaled << (x.exp as u64) } else { scaled >> ((-x.exp) as u64) };
    let mut digits = whole.to_string();
    while digits.len() <= places as usize {
        digits.insert(0, '0');
    }
    let point = digits.len() - places as usize;
    format!("{}.{}", &digits[..point], &digits[point..])
}

/// The numbers that a run holds for the library.
struct Registers {
    prec: u32,
    sum: Option<Num>,
    total: Option<Num>,
    incoming: Option<Num>,
    cache: Vec<Num>,
}

fn registers(prec: u32, cache: Vec<Num>) -> Registers {
    Registers { prec, sum: None, total: None, incoming: None, cache }
}

fn value_of(expr: &Expr, regs: &Registers) -> Num {
    let prec = regs.prec;
    match expr {
        Expr::Int(n) => from_u64(*n, prec),
        Expr::Get(Reg::Sum) => regs.sum.clone().unwrap(),
        Expr::Get(Reg::Total) => regs.total.clone().unwrap(),
        Expr::Get(Reg::Incoming) => regs.incoming.clone().unwrap(),
        Expr::Get(Reg::Factorial(i)) => regs.cache[*i as usize].clone(),
        Expr::Add(a, b) => sum_of(&value_of(a, regs), &value_of(b, regs), prec),
        Expr::Mul(a, b) => product_of(&value_of(a, regs), &value_of(b, regs), prec),
        Expr::Div(a, b) => quotient_of(&value_of(a, regs), &value_of(b, regs), prec),
        Expr::Pow(a, exponent) => power_of(&value_of(a, regs), *exponent, prec),
        Expr::Sqrt(a) => root_of(&value_of(a, regs), prec),
        Expr::Recip(a) => quotient_of(&from_u64(1, prec), &value_of(a, regs), prec),
    }
}

/// Stores the value of `expr` in `dst` and says whether `dst` holds the same
/// number as before.
fn assign(regs: &mut Registers, dst: Reg, expr: &Expr) -> bool {
    let value = value_of(expr, regs);
    let slot = match dst {
        Reg::Sum => &mut regs.sum,
        Reg::Total => &mut regs.total,
        Reg::Incoming => &mut regs.incoming,
        Reg::Factorial(i) => {
            assert_eq!(i as usize, regs.cache.len());
            regs.cache.push(value);
            return false;
        }
    };
    let unchanged = slot.as_ref() == Some(&value);
    *slot = Some(value);
    unchanged
}

/// Runs one worker until it asks for a range, finishes or aborts.
fn run_worker(worker: &mut Worker, regs: &mut Registers) -> WorkerAction {
    loop {
        match worker.pending() {
            WorkerAction::Assign { dst, expr } => {
                let unchanged = assign(regs, dst, &expr);
                worker.advance(WorkerEvent::Stored { unchanged });
            }
            other => return other,
        }
    }
}

/// Runs the workers on the closed queue, each taking a range in its turn,
/// and returns their totals; `None` where a worker aborted.
fn run_pool(
    count: u64,
    cache: &FactorialCalculator,
    numbers: &[Num],
    queue: &Receiver<(u64, u64)>,
) -> Vec<Option<Num>> {
    let mut workers: Vec<(Worker, Registers, bool)> = (0..count)
        .map(|_| (Worker::new(cache), registers(cache.precision, numbers.to_vec()), false))
        .collect();
    loop {
        let mut busy = false;
        for (worker, regs, ended) in workers.iter_mut() {
            if *ended {
                continue;
            }
            match run_worker(worker, regs) {
                WorkerAction::Receive => {
                    busy = true;
                    worker.receive(queue);
                }
                _ => *ended = true,
            }
        }
        if !busy {
            break;
        }
    }
    workers
        .into_iter()
        .map(|(worker, regs, _)| match worker.pending() {
            WorkerAction::Finish => regs.total,
            _ => None,
        })
        .collect()
}

/// Runs an evaluation to its end. The workers of the pool are played in
/// turns, once the queue is closed.
fn run(mut evaluator: Evaluator) -> Result<String, CalcError> {
    let cache = evaluator.cache();
    let mut regs = registers(cache.precision, vec![]);
    let (queue_in, queue_out) = unbounded();
    let mut queue_in = Some(queue_in);
    let mut workers = 0;
    let mut totals: Vec<Option<Num>> = vec![];
    loop {
        match evaluator.pending() {
            Action::Assign { dst, expr } => {
                let unchanged = assign(&mut regs, dst, &expr);
                evaluator.advance(Event::Stored { unchanged });
            }
            Action::Spawn { workers: count } => {
                workers = count;
                evaluator.advance(Event::Done);
            }
            Action::Send { .. } => {
                evaluator.send(queue_in.as_ref().unwrap());
            }
            Action::Close => {
                queue_in = None;
                totals = run_pool(workers, &cache, &regs.cache, &queue_out);
                evaluator.advance(Event::Done);
            }
            Action::Join { worker } => match totals[worker as usize].take() {
                Some(total) => {
                    regs.incoming = Some(total);
                    evaluator.advance(Event::Done);
                }
                None => evaluator.advance(Event::Failed),
            },
            Action::Render => {
                let text = decimal_text(regs.total.as_ref().unwrap(), 2 * cache.precision);
                evaluator.advance(Event::Text(text));
            }
            Action::Finish => return Ok(evaluator.result().unwrap()),
            Action::Fail { error } => return Err(error),
        }
    }
}

fn calc(digits: u32, threads: u64) -> String {
    run(calc_series(digits, threads).ok().unwrap()).unwrap()
}

fn actions_until_close(mut evaluator: Evaluator) -> (Vec<Action>, Evaluator) {
    let mut seen = vec![];
    loop {
        let action = evaluator.pending();
        match &action {
            Action::Assign { .. } => evaluator.advance(Event::Stored { unchanged: false }),
            Action::Spawn { .. } | Action::Send { .. } => evaluator.advance(Event::Done),
            _ => return (seen, evaluator),
        }
        if !matches!(action, Action::Assign { .. }) {
            seen.push(action);
        }
    }
}

#[test]
fn test_backend_rounds_to_precision() {
    assert_eq!(from_u64(120, 64), Num { mant: BigUint::from(15u32), exp: 3 });
    assert_eq!(from_u64(5, 2), Num { mant: BigUint::from(3u32), exp: 1 });
    let third = quotient_of(&from_u64(1, 64), &from_u64(3, 64), 64);
    assert_eq!(decimal_text(&third, 10), "0.3333333333");
    let root = root_of(&from_u64(2, 100), 100);
    assert_eq!(decimal_text(&root, 20), "1.41421356237309504880");
    assert_eq!(decimal_text(&power_of(&from_u64(396, 64), 2, 64), 1), "156816.0");
}

#[test]
fn ten_digits_with_four_threads() {
    assert_eq!(calc(10, 4), "3.1415926535");
}

#[test]
fn ten_digits_through_the_pool() {
    assert_eq!(calc(10, 2), "3.1415926535");
}

#[test]
fn one_digit() {
    assert_eq!(calc(1, 1), "3.1");
}

#[test]
fn fifty_digits_agree_between_one_and_four_threads() {
    let single = calc(50, 1);
    assert_eq!(single, &PI_DIGITS[..52]);
    assert_eq!(calc(50, 4), single);
}

#[test]
fn result_does_not_depend_on_thread_count() {
    for digits in [1u32, 6, 7, 8, 14, 20, 33, 50, 64, 100] {
        let single = calc(digits, 1);
        for threads in [2u64, 4, 8] {
            assert_eq!(calc(digits, threads), single);
        }
    }
}

#[test]
fn digits_are_those_of_pi() {
    for digits in [1u32, 2, 3, 4, 5, 6, 8, 9, 10, 13, 14, 15, 20, 33, 50, 64, 98] {
        for threads in [1u64, 3] {
            assert_eq!(calc(digits, threads), &PI_DIGITS[..digits as usize + 2]);
        }
    }
}

#[test]
fn seven_digits_come_from_a_single_term() {
    assert_eq!(calc(7, 1), "3.1415927");
}

#[test]
fn result_is_never_longer_than_digits_plus_two() {
    for digits in 1..40u32 {
        assert_eq!(calc(digits, 3).len(), digits as usize + 2);
    }
}

#[test]
fn zero_digits_are_refused() {
    assert_eq!(calc_series(0, 4).err(), Some(CalcError::Configuration));
}

#[test]
fn zero_threads_are_refused() {
    assert_eq!(calc_series(10, 0).err(), Some(CalcError::Configuration));
    assert_eq!(calc_series(0, 0).err(), Some(CalcError::Configuration));
}

#[test]
fn cache_has_working_precision_and_four_times_the_terms() {
    let evaluator = calc_series(50, 1).ok().unwrap();
    assert_eq!(evaluator.cache(), FactorialCalculator { precision: 199, n: 32 });
    let evaluator = calc_series(1, 1).ok().unwrap();
    assert_eq!(evaluator.cache(), FactorialCalculator { precision: 36, n: 4 });
}

#[test]
fn cache_is_filled_first_and_from_index_zero() {
    let mut evaluator = calc_series(10, 1).ok().unwrap();
    assert_eq!(
        evaluator.pending(),
        Action::Assign { dst: Reg::Factorial(0), expr: Expr::Int(1) }
    );
    for i in 1..=8u64 {
        evaluator.advance(Event::Stored { unchanged: false });
        let expr = Expr::Mul(Box::new(Expr::Get(Reg::Factorial(i - 1))), Box::new(Expr::Int(i)));
        assert_eq!(evaluator.pending(), Action::Assign { dst: Reg::Factorial(i), expr });
    }
    evaluator.advance(Event::Stored { unchanged: false });
    assert_eq!(evaluator.pending(), Action::Assign { dst: Reg::Sum, expr: Expr::Int(0) });
}

#[test]
fn factorials_are_exact_at_sufficient_precision() {
    let cache = FactorialCalculator::new(64, 20);
    let mut regs = registers(cache.precision, vec![]);
    for i in 0..=cache.n {
        assign(&mut regs, Reg::Factorial(i), &cache.entry(i));
    }
    assert_eq!(value_of(&cache.get(5), &regs), from_u64(120, 64));
    assert_eq!(value_of(&cache.get(0), &regs), from_u64(1, 64));
    assert_eq!(value_of(&cache.get(20), &regs), from_u64(2432902008176640000, 64));
}

#[test]
fn pool_gets_twice_as_many_ranges_as_threads() {
    let evaluator = calc_series(50, 4).ok().unwrap();
    let (seen, evaluator) = actions_until_close(evaluator);
    let mut expected = vec![Action::Spawn { workers: 4 }];
    for task in split_range_to_count(&(0..8), 8) {
        expected.push(Action::Send { task });
    }
    assert_eq!(seen, expected);
    assert_eq!(evaluator.pending(), Action::Close);
}

#[test]
fn pool_gets_one_range_for_each_term_when_terms_are_few() {
    let evaluator = calc_series(20, 3).ok().unwrap();
    let (seen, _) = actions_until_close(evaluator);
    assert_eq!(
        seen,
        vec![
            Action::Spawn { workers: 3 },
            Action::Send { task: 0..1 },
            Action::Send { task: 1..2 },
            Action::Send { task: 2..3 },
        ]
    );
}

#[test]
fn more_threads_than_terms_sum_directly() {
    let evaluator = calc_series(20, 4).ok().unwrap();
    let (seen, evaluator) = actions_until_close(evaluator);
    assert_eq!(seen, vec![]);
    assert_eq!(evaluator.pending(), Action::Render);
}

#[test]
fn pool_totals_are_joined_in_order_and_folded() {
    let (_, mut evaluator) = actions_until_close(calc_series(20, 2).ok().unwrap());
    assert_eq!(evaluator.pending(), Action::Close);
    evaluator.advance(Event::Done);
    assert_eq!(evaluator.pending(), Action::Assign { dst: Reg::Total, expr: Expr::Int(0) });
    evaluator.advance(Event::Stored { unchanged: false });
    let fold = || Action::Assign {
        dst: Reg::Total,
        expr: Expr::Add(Box::new(Expr::Get(Reg::Total)), Box::new(Expr::Get(Reg::Incoming))),
    };
    for worker in 0..2u64 {
        assert_eq!(evaluator.pending(), Action::Join { worker });
        evaluator.advance(Event::Done);
        assert_eq!(evaluator.pending(), fold());
        evaluator.advance(Event::Stored { unchanged: false });
    }
    let scale = Expr::Mul(
        Box::new(Expr::Get(Reg::Total)),
        Box::new(Expr::Div(
            Box::new(Expr::Mul(
                Box::new(Expr::Int(2)),
                Box::new(Expr::Sqrt(Box::new(Expr::Int(2)))),
            )),
            Box::new(Expr::Int(9801)),
        )),
    );
    assert_eq!(evaluator.pending(), Action::Assign { dst: Reg::Total, expr: scale });
    evaluator.advance(Event::Stored { unchanged: false });
    let invert = Expr::Recip(Box::new(Expr::Get(Reg::Total)));
    assert_eq!(evaluator.pending(), Action::Assign { dst: Reg::Total, expr: invert });
    evaluator.advance(Event::Stored { unchanged: false });
    assert_eq!(evaluator.pending(), Action::Render);
    assert_eq!(evaluator.result(), None);
    evaluator.advance(Event::Text("3.14159265358979323846264338327950288".to_string()));
    assert_eq!(evaluator.pending(), Action::Finish);
    assert_eq!(evaluator.result(), Some("3.14159265358979323846".to_string()));
}

#[test]
fn direct_sum_becomes_the_total() {
    let mut evaluator = calc_series(7, 1).ok().unwrap();
    for _ in 0..=4 {
        evaluator.advance(Event::Stored { unchanged: false });
    }
    assert_eq!(evaluator.pending(), Action::Assign { dst: Reg::Sum, expr: Expr::Int(0) });
    evaluator.advance(Event::Stored { unchanged: false });
    evaluator.advance(Event::Stored { unchanged: false });
    assert_eq!(
        evaluator.pending(),
        Action::Assign { dst: Reg::Total, expr: Expr::Get(Reg::Sum) }
    );
}

#[test]
fn failed_join_fails_the_evaluation() {
    let (_, mut evaluator) = actions_until_close(calc_series(20, 2).ok().unwrap());
    evaluator.advance(Event::Done);
    evaluator.advance(Event::Stored { unchanged: false });
    evaluator.advance(Event::Done);
    evaluator.advance(Event::Stored { unchanged: false });
    assert_eq!(evaluator.pending(), Action::Join { worker: 1 });
    evaluator.advance(Event::Failed);
    assert_eq!(evaluator.pending(), Action::Fail { error: CalcError::WorkerFailure });
    evaluator.advance(Event::Done);
    evaluator.advance(Event::Text("3.14".to_string()));
    assert_eq!(evaluator.pending(), Action::Fail { error: CalcError::WorkerFailure });
    assert_eq!(evaluator.result(), None);
}

#[test]
fn failed_send_fails_the_evaluation() {
    let mut evaluator = calc_series(20, 2).ok().unwrap();
    while evaluator.pending() != (Action::Spawn { workers: 2 }) {
        evaluator.advance(Event::Stored { unchanged: false });
    }
    evaluator.advance(Event::Done);
    assert_eq!(evaluator.pending(), Action::Send { task: 0..1 });
    evaluator.advance(Event::Failed);
    assert_eq!(run(evaluator), Err(CalcError::WorkerFailure));
}

#[test]
fn failed_start_fails_the_evaluation() {
    let mut evaluator = calc_series(20, 2).ok().unwrap();
    while evaluator.pending() != (Action::Spawn { workers: 2 }) {
        evaluator.advance(Event::Stored { unchanged: false });
    }
    evaluator.advance(Event::Failed);
    assert_eq!(run(evaluator), Err(CalcError::WorkerFailure));
}

#[test]
fn report_that_answers_nothing_is_ignored() {
    let mut evaluator = calc_series(10, 1).ok().unwrap();
    evaluator.advance(Event::Done);
    evaluator.advance(Event::Failed);
    evaluator.advance(Event::Text("3.14".to_string()));
    assert_eq!(
        evaluator.pending(),
        Action::Assign { dst: Reg::Factorial(0), expr: Expr::Int(1) }
    );
}

#[test]
fn worker_sums_each_range_into_its_total() {
    let cache = FactorialCalculator::new(64, 16);
    let mut worker = Worker::new(&cache);
    assert_eq!(worker.pending(), WorkerAction::Assign { dst: Reg::Total, expr: Expr::Int(0) });
    worker.advance(WorkerEvent::Stored { unchanged: false });
    assert_eq!(worker.pending(), WorkerAction::Receive);
    worker.advance(WorkerEvent::Task(2..3));
    assert_eq!(worker.pending(), WorkerAction::Assign { dst: Reg::Sum, expr: Expr::Int(0) });
    worker.advance(WorkerEvent::Stored { unchanged: false });
    match worker.pending() {
        WorkerAction::Assign { dst: Reg::Sum, expr: Expr::Add(sum, _) } => {
            assert_eq!(*sum, Expr::Get(Reg::Sum))
        }
        other => panic!("{:?}", other),
    }
    worker.advance(WorkerEvent::Stored { unchanged: false });
    assert_eq!(
        worker.pending(),
        WorkerAction::Assign {
            dst: Reg::Total,
            expr: Expr::Add(Box::new(Expr::Get(Reg::Total)), Box::new(Expr::Get(Reg::Sum))),
        }
    );
    assert_eq!(worker.tasks_done(), 0);
    worker.advance(WorkerEvent::Stored { unchanged: false });
    assert_eq!(worker.tasks_done(), 1);
    assert_eq!(worker.pending(), WorkerAction::Receive);
    worker.advance(WorkerEvent::Closed);
    assert_eq!(worker.pending(), WorkerAction::Finish);
    worker.advance(WorkerEvent::Task(0..1));
    assert_eq!(worker.pending(), WorkerAction::Finish);
    assert_eq!(worker.tasks_done(), 1);
}

#[test]
fn worker_aborts_on_range_beyond_the_cache() {
    let cache = FactorialCalculator::new(64, 16);
    let mut worker = Worker::new(&cache);
    worker.advance(WorkerEvent::Stored { unchanged: false });
    worker.advance(WorkerEvent::Task(4..6));
    assert_eq!(worker.pending(), WorkerAction::Abort);
    worker.advance(WorkerEvent::Closed);
    assert_eq!(worker.pending(), WorkerAction::Abort);
}

#[test]
fn worker_ignores_report_that_answers_nothing() {
    let cache = FactorialCalculator::new(64, 16);
    let mut worker = Worker::new(&cache);
    worker.advance(WorkerEvent::Closed);
    worker.advance(WorkerEvent::Task(0..1));
    assert_eq!(worker.pending(), WorkerAction::Assign { dst: Reg::Total, expr: Expr::Int(0) });
    worker.advance(WorkerEvent::Stored { unchanged: false });
    worker.advance(WorkerEvent::Stored { unchanged: false });
    assert_eq!(worker.pending(), WorkerAction::Receive);
}

#[test]
fn aborted_worker_fails_the_evaluation() {
    let cache = FactorialCalculator::new(64, 4);
    let numbers: Vec<Num> = vec![from_u64(1, 64); 5];
    let (queue_in, queue_out) = unbounded();
    queue_in.send((0, 1)).unwrap();
    queue_in.send((1, 3)).unwrap();
    drop(queue_in);
    let totals = run_pool(2, &cache, &numbers, &queue_out);
    assert!(totals[0].is_some());
    assert!(totals[1].is_none());
}

#[test]
fn summation_ends_early_at_low_precision() {
    let cache = FactorialCalculator::new(64, 400);
    let mut regs = registers(cache.precision, vec![]);
    for i in 0..=cache.n {
        assign(&mut regs, Reg::Factorial(i), &cache.entry(i));
    }
    let mut sum = SeriesPartialSum::new(&(0..100), &cache);
    while let Some(expr) = sum.pending() {
        let unchanged = assign(&mut regs, Reg::Sum, &expr);
        sum.advance(unchanged);
    }
    assert!(sum.terms_added() < 100);
    assert_eq!(sum.terms_added(), 4);
}

#[test]
fn pieces_sum_to_the_same_digits_as_the_whole() {
    let cache = FactorialCalculator::new(199, 32);
    let mut regs = registers(cache.precision, vec![]);
    for i in 0..=cache.n {
        assign(&mut regs, Reg::Factorial(i), &cache.entry(i));
    }
    let mut sum_range = |range: Range<u64>| {
        let mut sum = SeriesPartialSum::new(&range, &cache);
        while let Some(expr) = sum.pending() {
            let unchanged = assign(&mut regs, Reg::Sum, &expr);
            sum.advance(unchanged);
        }
        regs.sum.clone().unwrap()
    };
    let whole = sum_range(0..8);
    for count in 1..=8u64 {
        let mut total = from_u64(0, 199);
        for piece in split_range_to_count(&(0..8), count) {
            total = sum_of(&total, &sum_range(piece), 199);
        }
        assert_eq!(decimal_text(&total, 55), decimal_text(&whole, 55));
    }
    assert_eq!(&decimal_text(&whole, 55)[..20], "1103.000026831974573");
}

/// The actions of an evaluation in which every action is carried out and
/// every value stored is a new one, each as a short label.
fn course(mut evaluator: Evaluator) -> Vec<String> {
    let mut labels = vec![];
    loop {
        let action = evaluator.pending();
        let (label, event) = match &action {
            Action::Assign { dst: Reg::Factorial(i), .. } => {
                (format!("entry {}", i), Event::Stored { unchanged: false })
            }
            Action::Assign { dst, .. } => {
                (format!("store {:?}", dst), Event::Stored { unchanged: false })
            }
            Action::Spawn { workers } => (format!("spawn {}", workers), Event::Done),
            Action::Send { task } => (format!("send {:?}", task), Event::Done),
            Action::Close => ("close".to_string(), Event::Done),
            Action::Join { worker } => (format!("join {}", worker), Event::Done),
            Action::Render => ("render".to_string(), Event::Text("3.14159".to_string())),
            Action::Finish => ("finish".to_string(), Event::Done),
            Action::Fail { error } => (format!("fail {:?}", error), Event::Done),
        };
        labels.push(label);
        if matches!(action, Action::Finish | Action::Fail { .. }) {
            return labels;
        }
        evaluator.advance(event);
    }
}

#[test]
fn course_of_a_direct_evaluation() {
    let labels = course(calc_series(8, 1).ok().unwrap());
    let expected = [
        "entry 0", "entry 1", "entry 2", "entry 3", "entry 4", "entry 5", "entry 6", "entry 7",
        "entry 8", "store Sum", "store Sum", "store Sum", "store Total", "store Total",
        "store Total", "render", "finish",
    ];
    assert_eq!(labels, expected);
}

#[test]
fn course_of_an_evaluation_with_a_pool() {
    let labels = course(calc_series(8, 2).ok().unwrap());
    let expected = [
        "entry 0", "entry 1", "entry 2", "entry 3", "entry 4", "entry 5", "entry 6", "entry 7",
        "entry 8", "spawn 2", "send 0..1", "send 1..2", "close", "store Total", "join 0",
        "store Total", "join 1", "store Total", "store Total", "store Total", "render", "finish",
    ];
    assert_eq!(labels, expected);
}
