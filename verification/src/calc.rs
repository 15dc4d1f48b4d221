//! The evaluation of pi to a requested number of decimal digits.
//!
//! An evaluation derives the number of terms and the working precision from
//! the digits asked for, fills the factorial cache, sums the series, either
//! directly or through a pool of workers, scales and inverts the sum, and
//! cuts the decimal text of the result down to the digits asked for.

use crate::expr::{lemma_factorials_below_grows, Expr, Reg};
use crate::factorial_calculator::{
    factorial_entry, lemma_entry_reads_earlier_entries, FactorialCalculator,
};
use crate::queue::send_range;
use crate::series::{
    lemma_sum_step, lemma_term_reads_cache, lemma_terms_over_partition, term_spec, terms,
    terms_of_all, SeriesPartialSum, SumPhase, SumState,
};
use crate::utils::{
    is_partition, lemma_partition_is_ordered, lemma_split_is_partition, lemma_split_saturates,
    split_range_to_count, split_spec,
};
use crossbeam_channel::Sender;
use std::ops::Range;
use vstd::prelude::*;
use vstd::string::*;

verus! {

/// Why an evaluation did not yield a result.
#[derive(Debug, Clone, Copy, PartialEq, Eq)]
pub enum CalcError {
    /// Zero digits or zero threads were asked for.
    Configuration,
    /// A worker of the pool ended abnormally.
    WorkerFailure,
}

/// Decimal digits that every term of the series is relied on to add.
pub const DIGITS_PER_TERM: u32 = 7;

/// Decimal digits carried beyond those asked for, to take up rounding errors.
pub const GUARD_DIGITS: u32 = 10;

/// The binary logarithm of ten, times `LOG2_10_SCALE`, rounded down.
pub const LOG2_10_SCALED: u128 = 3_321_928_094_887_362_347;

/// The factor by which `LOG2_10_SCALED` is scaled.
pub const LOG2_10_SCALE: u128 = 1_000_000_000_000_000_000;

/// Most digits that can be asked for: with the guard digits added, the
/// working precision in bits still fits in a `u32`.
pub const MAX_PRECISION_DIGITS: u32 = 1_292_913_976;

/// Divisor in the factor `2 * sqrt(2) / 9801` that the sum of the series is
/// scaled by.
pub const SCALE_DIVISOR: u64 = 9801;

/// Number of terms summed for `digits` decimal digits: `digits / DIGITS_PER_TERM`, rounded up.
pub open spec fn iterations_spec(digits: u32) -> u64 {
    ((digits + DIGITS_PER_TERM - 1) / (DIGITS_PER_TERM as int)) as u64
}

/// Bits of mantissa that hold `digits` decimal digits: `digits * log2(10)`, rounded down.
pub open spec fn bits_spec(digits: nat) -> nat {
    digits * (LOG2_10_SCALED as nat) / (LOG2_10_SCALE as nat)
}

/// Bits of mantissa that an evaluation to `digits` decimal digits works with.
pub open spec fn working_precision_spec(digits: u32) -> u32 {
    bits_spec((digits + GUARD_DIGITS) as nat) as u32
}

/// The factorial cache of an evaluation to `digits` decimal digits: at the
/// working precision, up to the factorial of four times the number of terms.
pub open spec fn cache_spec(digits: u32) -> FactorialCalculator {
    FactorialCalculator {
        precision: working_precision_spec(digits),
        n: (4 * iterations_spec(digits)) as u64,
    }
}

/// Whether the series is summed directly, without a pool: with one thread,
/// or with fewer terms than threads.
pub open spec fn direct_spec(digits: u32, threads: u64) -> bool {
    iterations_spec(digits) < threads || threads == 1
}

/// The ranges that the pool is given: the terms split into twice as many
/// pieces as there are threads.
pub open spec fn tasks_spec(digits: u32, threads: u64) -> Seq<Range<u64>> {
    split_spec(Range { start: 0, end: iterations_spec(digits) }, 2 * threads as nat)
}

/// The scaled sum: `Reg::Total` times `2 * sqrt(2) / 9801`.
pub open spec fn scaled_spec() -> Expr {
    Expr::times(
        Expr::Get(Reg::Total),
        Expr::over(
            Expr::times(Expr::Int(2), Expr::Sqrt(Box::new(Expr::Int(2)))),
            Expr::Int(SCALE_DIVISOR),
        ),
    )
}

/// The text cut down to `digits` digits after the point: its first
/// `digits + 2` characters, or all of it where it is shorter.
pub open spec fn truncate_spec(text: Seq<char>, digits: u32) -> Seq<char> {
    if text.len() <= digits + 2 {
        text
    } else {
        text.subrange(0, digits + 2)
    }
}

/// Number of terms of the series to sum for `digits` decimal digits.
pub fn iterations_for(digits: u32) -> (n: u64)
    ensures
        n == iterations_spec(digits),
{
    (digits as u64 + (DIGITS_PER_TERM as u64 - 1)) / (DIGITS_PER_TERM as u64)
}

/// Bits of mantissa that hold `digits` decimal digits.
pub fn bits_for_digits(digits: u32) -> (bits: u64)
    ensures
        bits == bits_spec(digits as nat),
{
    let scaled: u128 = digits as u128 * LOG2_10_SCALED;
    (scaled / LOG2_10_SCALE) as u64
}

/// Cuts the decimal text of a number down to `digits` digits after the
/// point. Nothing is rounded: the digits that stay are those of `text`.
pub fn truncate_digits(text: &str, digits: u32) -> (cut: String)
    ensures
        cut@ == truncate_spec(text@, digits),
{
    let keep: u64 = digits as u64 + 2;
    let len = text.unicode_len();
    if len as u64 <= keep {
        text.to_owned()
    } else {
        text.substring_char(0, keep as usize).to_owned()
    }
}

/// What an evaluation asks of the program that runs it.
#[derive(Debug, PartialEq, Eq)]
pub enum Action {
    /// Evaluate `expr` at the working precision and store the value in `dst`.
    Assign { dst: Reg, expr: Expr },
    /// Open the queue and start this many workers on it.
    Spawn { workers: u64 },
    /// Put this range into the queue.
    Send { task: Range<u64> },
    /// Close the queue: nothing more will be put into it.
    Close,
    /// Wait for this worker to finish and store its total in `Reg::Incoming`.
    Join { worker: u64 },
    /// Hand in the decimal text of `Reg::Total`.
    Render,
    /// Nothing more: the evaluation has its result.
    Finish,
    /// Nothing more: the evaluation has failed.
    Fail { error: CalcError },
}

/// What the program that runs an evaluation reports back.
#[derive(Debug, PartialEq, Eq)]
pub enum Event {
    /// The value was stored; `unchanged` says whether the register holds the
    /// same number as before.
    Stored { unchanged: bool },
    /// The workers were started, the range was put into the queue, the queue
    /// was closed, or the worker was joined.
    Done,
    /// That could not be done, because a worker has ended abnormally.
    Failed,
    /// The decimal text of the value.
    Text(String),
}

/// What an evaluation does next.
pub enum Phase {
    /// Entry `entry` of the factorial cache is to be filled.
    Cache { entry: u64 },
    /// The series is being summed directly.
    Direct(SumState),
    /// The sum of the series is to become the total.
    Adopt,
    /// The workers are to be started.
    Spawn,
    /// Task `task` is to be put into the queue.
    Send { task: nat },
    /// The queue is to be closed.
    Close,
    /// The total is to be set to zero.
    Zero,
    /// The worker is to be joined.
    Join { worker: u64 },
    /// The total of the worker joined last is to be added to the total.
    Fold { worker: u64 },
    /// The total is to be scaled.
    Scale,
    /// The total is to be inverted.
    Invert,
    /// The decimal text of the total is to be handed in.
    Render,
    /// The evaluation has its result, these characters.
    Finished(Seq<char>),
    /// The evaluation has failed.
    Failed(CalcError),
}

/// The state of an evaluation.
pub struct EvaluatorState {
    /// Decimal digits asked for.
    pub digits: u32,
    /// Threads asked for.
    pub threads: u64,
    /// What the evaluation does next.
    pub phase: Phase,
}

impl EvaluatorState {
    /// The state in which an evaluation begins.
    pub open spec fn initial(digits: u32, threads: u64) -> EvaluatorState {
        EvaluatorState { digits, threads, phase: Phase::Cache { entry: 0 } }
    }

    /// The phase that follows once the total holds the sum of the series.
    pub open spec fn summed(self) -> EvaluatorState {
        EvaluatorState { phase: Phase::Scale, ..self }
    }

    /// The state in which the evaluation has failed with `error`.
    pub open spec fn failed(self, error: CalcError) -> EvaluatorState {
        EvaluatorState { phase: Phase::Failed(error), ..self }
    }

    /// What the evaluation asks for in this state.
    pub open spec fn pending(self) -> Action {
        match self.phase {
            Phase::Cache { entry } => Action::Assign {
                dst: Reg::Factorial(entry),
                expr: factorial_entry(entry),
            },
            Phase::Direct(sum) => Action::Assign { dst: Reg::Sum, expr: sum.pending().unwrap() },
            Phase::Adopt => Action::Assign { dst: Reg::Total, expr: Expr::Get(Reg::Sum) },
            Phase::Spawn => Action::Spawn { workers: self.threads },
            Phase::Send { task } => Action::Send {
                task: tasks_spec(self.digits, self.threads)[task as int],
            },
            Phase::Close => Action::Close,
            Phase::Zero => Action::Assign { dst: Reg::Total, expr: Expr::Int(0) },
            Phase::Join { worker } => Action::Join { worker },
            Phase::Fold { .. } => Action::Assign {
                dst: Reg::Total,
                expr: Expr::plus(Expr::Get(Reg::Total), Expr::Get(Reg::Incoming)),
            },
            Phase::Scale => Action::Assign { dst: Reg::Total, expr: scaled_spec() },
            Phase::Invert => Action::Assign {
                dst: Reg::Total,
                expr: Expr::Recip(Box::new(Expr::Get(Reg::Total))),
            },
            Phase::Render => Action::Render,
            Phase::Finished(_) => Action::Finish,
            Phase::Failed(error) => Action::Fail { error },
        }
    }

    /// The state after `event`. An event that does not answer the pending
    /// action changes nothing.
    pub open spec fn advance(self, event: Event) -> EvaluatorState {
        let cache = cache_spec(self.digits);
        let tasks = tasks_spec(self.digits, self.threads);
        match (self.phase, event) {
            (Phase::Cache { entry }, Event::Stored { .. }) => EvaluatorState {
                phase: if entry < cache.n {
                    Phase::Cache { entry: (entry + 1) as u64 }
                } else if direct_spec(self.digits, self.threads) {
                    Phase::Direct(
                        SumState::initial(Range { start: 0, end: iterations_spec(self.digits) }),
                    )
                } else {
                    Phase::Spawn
                },
                ..self
            },
            (Phase::Direct(sum), Event::Stored { unchanged }) => EvaluatorState {
                phase: if sum.advance(unchanged).phase == SumPhase::Done {
                    Phase::Adopt
                } else {
                    Phase::Direct(sum.advance(unchanged))
                },
                ..self
            },
            (Phase::Adopt, Event::Stored { .. }) => self.summed(),
            (Phase::Spawn, Event::Done) => EvaluatorState {
                phase: if tasks.len() > 0 {
                    Phase::Send { task: 0 }
                } else {
                    Phase::Close
                },
                ..self
            },
            (Phase::Spawn, Event::Failed) => self.failed(CalcError::WorkerFailure),
            (Phase::Send { task }, Event::Done) => EvaluatorState {
                phase: if task + 1 < tasks.len() {
                    Phase::Send { task: task + 1 }
                } else {
                    Phase::Close
                },
                ..self
            },
            (Phase::Send { .. }, Event::Failed) => self.failed(CalcError::WorkerFailure),
            (Phase::Close, Event::Done) => EvaluatorState { phase: Phase::Zero, ..self },
            (Phase::Zero, Event::Stored { .. }) => EvaluatorState {
                phase: Phase::Join { worker: 0 },
                ..self
            },
            (Phase::Join { worker }, Event::Done) => EvaluatorState {
                phase: Phase::Fold { worker },
                ..self
            },
            (Phase::Join { .. }, Event::Failed) => self.failed(CalcError::WorkerFailure),
            (Phase::Fold { worker }, Event::Stored { .. }) => if worker + 1 < self.threads {
                EvaluatorState { phase: Phase::Join { worker: (worker + 1) as u64 }, ..self }
            } else {
                self.summed()
            },
            (Phase::Scale, Event::Stored { .. }) => EvaluatorState { phase: Phase::Invert, ..self },
            (Phase::Invert, Event::Stored { .. }) => EvaluatorState {
                phase: Phase::Render,
                ..self
            },
            (Phase::Render, Event::Text(text)) => EvaluatorState {
                phase: Phase::Finished(truncate_spec(text@, self.digits)),
                ..self
            },
            _ => self,
        }
    }

    /// What holds of every state of an evaluation.
    pub open spec fn wf(self) -> bool {
        &&& 1 <= self.digits <= MAX_PRECISION_DIGITS
        &&& 1 <= self.threads
        &&& match self.phase {
            Phase::Cache { entry } => entry <= cache_spec(self.digits).n,
            Phase::Direct(sum) => {
                &&& direct_spec(self.digits, self.threads)
                &&& sum.wf()
                &&& sum.phase != SumPhase::Done
                &&& sum.start == 0
                &&& sum.end == iterations_spec(self.digits)
            },
            Phase::Adopt => direct_spec(self.digits, self.threads),
            Phase::Spawn | Phase::Close | Phase::Zero => !direct_spec(self.digits, self.threads),
            Phase::Send { task } => {
                &&& !direct_spec(self.digits, self.threads)
                &&& task < tasks_spec(self.digits, self.threads).len()
            },
            Phase::Join { worker } | Phase::Fold { worker } => {
                &&& !direct_spec(self.digits, self.threads)
                &&& worker < self.threads
            },
            Phase::Finished(text) => text.len() <= self.digits + 2,
            _ => true,
        }
    }

    /// Whether `event` answers the action that is pending in this state.
    pub open spec fn answered_by(self, event: Event) -> bool {
        match self.pending() {
            Action::Assign { .. } => event is Stored,
            Action::Spawn { .. } | Action::Send { .. } | Action::Join { .. } => event is Done
                || event is Failed,
            Action::Close => event is Done,
            Action::Render => event is Text,
            Action::Finish | Action::Fail { .. } => false,
        }
    }

    /// Most actions that the evaluation still asks for, the pending one
    /// among them.
    pub open spec fn steps_left(self) -> nat {
        let terms = iterations_spec(self.digits) as nat;
        let entries = cache_spec(self.digits).n as nat;
        let tasks = tasks_spec(self.digits, self.threads).len();
        let threads = self.threads as nat;
        let direct = 5 + terms;
        let joins = 2 * threads + 3;
        let pool = 3 + tasks + joins;
        match self.phase {
            Phase::Cache { entry } => (entries + 1 - entry) as nat + if direct_spec(
                self.digits,
                self.threads,
            ) {
                direct
            } else {
                pool
            },
            Phase::Direct(sum) => (match sum.phase {
                SumPhase::Zero => 2 + (sum.end - sum.next),
                _ => 1 + (sum.end - sum.next),
            }) as nat + 3,
            Phase::Adopt => 4,
            Phase::Spawn => pool,
            Phase::Send { task } => (2 + tasks - task) as nat + joins,
            Phase::Close => 2 + joins,
            Phase::Zero => 1 + joins,
            Phase::Join { worker } => (2 * (threads - worker) + 3) as nat,
            Phase::Fold { worker } => (2 * (threads - worker) + 2) as nat,
            Phase::Scale => 3,
            Phase::Invert => 2,
            Phase::Render => 1,
            Phase::Finished(_) | Phase::Failed(_) => 0,
        }
    }

    /// The state after the events, one after the other.
    pub open spec fn run(self, events: Seq<Event>) -> EvaluatorState
        decreases events.len(),
    {
        if events.len() == 0 {
            self
        } else {
            self.run(events.drop_last()).advance(events.last())
        }
    }
}

/// The working precision of every evaluation fits in a `u32`, and four times
/// its number of terms in a `u64`.
pub proof fn lemma_plan_fits(digits: u32)
    requires
        digits <= MAX_PRECISION_DIGITS,
    ensures
        bits_spec((digits + GUARD_DIGITS) as nat) <= u32::MAX,
        4 * iterations_spec(digits) <= u64::MAX,
        digits >= 1 ==> iterations_spec(digits) >= 1,
        digits >= 1 ==> bits_spec((digits + GUARD_DIGITS) as nat) >= 1,
{
    let d = (digits + GUARD_DIGITS) as nat;
    let num = LOG2_10_SCALED as nat;
    let den = LOG2_10_SCALE as nat;
    let most = (MAX_PRECISION_DIGITS + GUARD_DIGITS) as nat;
    assert(d * num <= most * num) by (nonlinear_arith)
        requires
            d <= most,
    ;
    assert(most * num / den <= u32::MAX);
    vstd::arithmetic::div_mod::lemma_div_is_ordered(
        (d * num) as int,
        (most * num) as int,
        den as int,
    );
    if digits >= 1 {
        assert(d * num >= den) by (nonlinear_arith)
            requires
                d >= 1,
                num == 3_321_928_094_887_362_347,
                den == 1_000_000_000_000_000_000,
        ;
        vstd::arithmetic::div_mod::lemma_div_is_ordered(den as int, (d * num) as int, den as int);
        vstd::arithmetic::div_mod::lemma_div_by_self(den as int);
    }
}

/// The ranges that the pool is given cut the terms of the series up, none
/// of them asks for a factorial that the cache does not hold, and there are
/// at least as many of them as there are threads.
pub proof fn lemma_tasks_cut_up_the_series(digits: u32, threads: u64)
    requires
        1 <= digits <= MAX_PRECISION_DIGITS,
        1 <= threads,
    ensures
        is_partition(
            tasks_spec(digits, threads),
            Range { start: 0, end: iterations_spec(digits) },
        ),
        forall|i: int|
            0 <= i < tasks_spec(digits, threads).len() ==> cache_spec(digits).serves_range(
                (#[trigger] tasks_spec(digits, threads)[i]).start,
                tasks_spec(digits, threads)[i].end,
            ),
        !direct_spec(digits, threads) ==> tasks_spec(digits, threads).len() >= threads,
        cache_spec(digits).serves_range(0, iterations_spec(digits)),
{
    lemma_plan_fits(digits);
    let range = Range { start: 0, end: iterations_spec(digits) };
    let tasks = tasks_spec(digits, threads);
    lemma_split_is_partition(range, 2 * threads as nat);
    assert forall|i: int| 0 <= i < tasks.len() implies cache_spec(digits).serves_range(
        (#[trigger] tasks[i]).start,
        tasks[i].end,
    ) by {
        if i < tasks.len() - 1 {
            lemma_partition_is_ordered(tasks, range, i, tasks.len() - 1);
        }
    }
}

/// Whatever the number of threads, the ranges that the pool is given hold
/// the terms that a direct summation adds, each once and in the same order.
pub proof fn lemma_pool_sums_the_same_terms(digits: u32, threads: u64)
    requires
        1 <= digits <= MAX_PRECISION_DIGITS,
        1 <= threads,
    ensures
        terms_of_all(tasks_spec(digits, threads)) == terms(
            Range { start: 0, end: iterations_spec(digits) },
        ),
{
    lemma_tasks_cut_up_the_series(digits, threads);
    lemma_terms_over_partition(
        tasks_spec(digits, threads),
        Range { start: 0, end: iterations_spec(digits) },
    );
}

/// A step keeps an evaluation well formed and leaves the digits and the
/// threads asked for as they are.
pub proof fn lemma_evaluator_step(state: EvaluatorState, event: Event)
    requires
        state.wf(),
    ensures
        state.advance(event).wf(),
        state.advance(event).digits == state.digits,
        state.advance(event).threads == state.threads,
{
    lemma_plan_fits(state.digits);
    match (state.phase, event) {
        (Phase::Direct(sum), Event::Stored { unchanged }) => {
            lemma_sum_step(sum, unchanged);
        },
        (Phase::Render, Event::Text(text)) => {
            assert(truncate_spec(text@, state.digits).len() <= state.digits + 2);
        },
        _ => {},
    }
}

/// A run keeps an evaluation well formed and leaves the digits and the
/// threads asked for as they are.
pub proof fn lemma_evaluator_run(state: EvaluatorState, events: Seq<Event>)
    requires
        state.wf(),
    ensures
        state.run(events).wf(),
        state.run(events).digits == state.digits,
        state.run(events).threads == state.threads,
    decreases events.len(),
{
    if events.len() > 0 {
        lemma_evaluator_run(state, events.drop_last());
        lemma_evaluator_step(state.run(events.drop_last()), events.last());
    }
}

/// An evaluation never reads past its cache. While the cache is filled,
/// entry after entry, what it asks to evaluate reads only entries filled
/// before; after that, only entries that the cache holds. So no index is
/// ever out of range.
pub proof fn lemma_evaluator_reads_within_cache(state: EvaluatorState)
    requires
        state.wf(),
    ensures
        state.pending() matches Action::Assign { dst, expr } ==> match state.phase {
            Phase::Cache { entry } => dst == Reg::Factorial(entry) && expr.factorials_below(
                entry as nat,
            ),
            _ => !(dst is Factorial) && expr.factorials_below(
                (cache_spec(state.digits).n + 1) as nat,
            ),
        },
{
    reveal_with_fuel(Expr::factorials_below, 5);
    lemma_plan_fits(state.digits);
    match state.phase {
        Phase::Cache { entry } => {
            lemma_entry_reads_earlier_entries(entry);
        },
        Phase::Direct(sum) => {
            if sum.phase == SumPhase::Adding {
                lemma_term_reads_cache(sum.next);
                lemma_factorials_below_grows(
                    term_spec(sum.next),
                    (4 * sum.next + 1) as nat,
                    (cache_spec(state.digits).n + 1) as nat,
                );
            }
        },
        _ => {},
    }
}

/// Every evaluation comes to an end: an answer to the pending action leaves
/// fewer actions to ask for, and none are left only when the evaluation has
/// finished or failed.
pub proof fn lemma_evaluation_ends(state: EvaluatorState, event: Event)
    requires
        state.wf(),
        state.answered_by(event),
    ensures
        state.advance(event).steps_left() < state.steps_left(),
        state.steps_left() == 0 <==> state.phase is Finished || state.phase is Failed,
{
    lemma_plan_fits(state.digits);
    match (state.phase, event) {
        (Phase::Direct(sum), Event::Stored { unchanged }) => {
            lemma_sum_step(sum, unchanged);
        },
        _ => {},
    }
}

/// The result of an evaluation is never longer than `3.` and the digits
/// asked for.
pub proof fn lemma_result_length(state: EvaluatorState, event: Event)
    requires
        state.wf(),
    ensures
        state.advance(event).phase matches Phase::Finished(text) ==> text.len() <= state.digits
            + 2,
{
    lemma_evaluator_step(state, event);
}

/// An evaluation that has finished or failed stays as it is, whatever is
/// reported to it: after a failure no result comes, and a result is not
/// taken back.
pub proof fn lemma_evaluator_end_is_final(state: EvaluatorState, events: Seq<Event>)
    requires
        state.phase is Finished || state.phase is Failed,
    ensures
        state.run(events) == state,
    decreases events.len(),
{
    if events.len() > 0 {
        lemma_evaluator_end_is_final(state, events.drop_last());
    }
}

/// An evaluation fails only through a worker: it is in no failed state
/// unless a start, a send or a join was answered with `Event::Failed`.
pub proof fn lemma_failure_comes_from_workers(state: EvaluatorState, event: Event)
    requires
        !(state.phase is Failed),
        state.advance(event).phase is Failed,
    ensures
        event == Event::Failed,
        state.phase is Spawn || state.phase is Send || state.phase is Join,
        state.advance(event).phase == Phase::Failed(CalcError::WorkerFailure),
{
}

/// With one thread, or with more threads than terms, the evaluation does
/// not depend on the number of threads: given the same reports, it asks for
/// the same things in the same order.
pub proof fn lemma_direct_ignores_threads(
    digits: u32,
    threads: u64,
    others: u64,
    events: Seq<Event>,
)
    requires
        1 <= digits <= MAX_PRECISION_DIGITS,
        1 <= threads,
        1 <= others,
        direct_spec(digits, threads),
        direct_spec(digits, others),
    ensures
        EvaluatorState::initial(digits, threads).run(events).phase == EvaluatorState::initial(
            digits,
            others,
        ).run(events).phase,
        EvaluatorState::initial(digits, threads).run(events).pending() == EvaluatorState::initial(
            digits,
            others,
        ).run(events).pending(),
    decreases events.len(),
{
    let one = EvaluatorState::initial(digits, threads);
    let other = EvaluatorState::initial(digits, others);
    lemma_plan_fits(digits);
    if events.len() > 0 {
        lemma_direct_ignores_threads(digits, threads, others, events.drop_last());
        lemma_evaluator_run(one, events.drop_last());
        lemma_evaluator_run(other, events.drop_last());
    }
    lemma_evaluator_run(one, events);
    lemma_evaluator_run(other, events);
}

enum Stage {
    Cache { entry: u64 },
    Direct(SeriesPartialSum),
    Adopt,
    Spawn,
    Send { task: usize },
    Close,
    Zero,
    Join { worker: u64 },
    Fold { worker: u64 },
    Scale,
    Invert,
    Render,
    Finished(String),
    Failed(CalcError),
}

/// An evaluation of pi, one step at a time.
///
/// The program that runs the evaluation does what [`Evaluator::pending`]
/// asks for and reports the outcome through [`Evaluator::advance`], until
/// the evaluation finishes or fails. It holds the numbers, does the
/// arithmetic and runs the threads; which numbers, which arithmetic and
/// which ranges is decided here.
pub struct Evaluator {
    digits: u32,
    threads: u64,
    iterations: u64,
    cache: FactorialCalculator,
    tasks: Vec<Range<u64>>,
    stage: Stage,
}

impl View for Evaluator {
    type V = EvaluatorState;

    closed spec fn view(&self) -> EvaluatorState {
        EvaluatorState {
            digits: self.digits,
            threads: self.threads,
            phase: match self.stage {
                Stage::Cache { entry } => Phase::Cache { entry },
                Stage::Direct(sum) => Phase::Direct(sum@),
                Stage::Adopt => Phase::Adopt,
                Stage::Spawn => Phase::Spawn,
                Stage::Send { task } => Phase::Send { task: task as nat },
                Stage::Close => Phase::Close,
                Stage::Zero => Phase::Zero,
                Stage::Join { worker } => Phase::Join { worker },
                Stage::Fold { worker } => Phase::Fold { worker },
                Stage::Scale => Phase::Scale,
                Stage::Invert => Phase::Invert,
                Stage::Render => Phase::Render,
                Stage::Finished(text) => Phase::Finished(text@),
                Stage::Failed(error) => Phase::Failed(error),
            },
        }
    }
}

impl Evaluator {
    #[verifier::type_invariant]
    spec fn inv(self) -> bool {
        &&& self@.wf()
        &&& self.iterations == iterations_spec(self.digits)
        &&& self.cache == cache_spec(self.digits)
        &&& !direct_spec(self.digits, self.threads) ==> self.tasks@ == tasks_spec(
            self.digits,
            self.threads,
        )
        &&& match self.stage {
            Stage::Direct(sum) => sum.cache() == self.cache,
            _ => true,
        }
    }

    /// What the program is to do next.
    pub fn pending(&self) -> (action: Action)
        ensures
            action == self@.pending(),
            self@.wf(),
    {
        proof {
            use_type_invariant(self);
        }
        match &self.stage {
            Stage::Cache { entry } => Action::Assign {
                dst: Reg::Factorial(*entry),
                expr: self.cache.entry(*entry),
            },
            Stage::Direct(sum) => match sum.pending() {
                Some(expr) => Action::Assign { dst: Reg::Sum, expr },
                None => Action::Fail { error: CalcError::WorkerFailure },
            },
            Stage::Adopt => Action::Assign { dst: Reg::Total, expr: Expr::Get(Reg::Sum) },
            Stage::Spawn => Action::Spawn { workers: self.threads },
            Stage::Send { task } => {
                let task = &self.tasks[*task];
                Action::Send { task: Range { start: task.start, end: task.end } }
            },
            Stage::Close => Action::Close,
            Stage::Zero => Action::Assign { dst: Reg::Total, expr: Expr::Int(0) },
            Stage::Join { worker } => Action::Join { worker: *worker },
            Stage::Fold { .. } => Action::Assign {
                dst: Reg::Total,
                expr: Expr::plus(Expr::Get(Reg::Total), Expr::Get(Reg::Incoming)),
            },
            Stage::Scale => Action::Assign {
                dst: Reg::Total,
                expr: Expr::times(
                    Expr::Get(Reg::Total),
                    Expr::over(
                        Expr::times(Expr::Int(2), Expr::Sqrt(Box::new(Expr::Int(2)))),
                        Expr::Int(SCALE_DIVISOR),
                    ),
                ),
            },
            Stage::Invert => Action::Assign {
                dst: Reg::Total,
                expr: Expr::Recip(Box::new(Expr::Get(Reg::Total))),
            },
            Stage::Render => Action::Render,
            Stage::Finished(_) => Action::Finish,
            Stage::Failed(error) => Action::Fail { error: *error },
        }
    }

    /// Takes note of what the program reports.
    pub fn advance(&mut self, event: Event)
        ensures
            final(self)@ == old(self)@.advance(event),
            final(self)@.wf(),
    {
        proof {
            use_type_invariant(&*self);
            lemma_plan_fits(self.digits);
        }
        let mut stage = Stage::Failed(CalcError::WorkerFailure);
        std::mem::swap(&mut self.stage, &mut stage);
        let direct = self.iterations < self.threads || self.threads == 1;
        let next = match (stage, event) {
            (Stage::Cache { entry }, Event::Stored { .. }) => {
                if entry < self.cache.n {
                    Stage::Cache { entry: entry + 1 }
                } else if direct {
                    let range = Range { start: 0, end: self.iterations };
                    Stage::Direct(SeriesPartialSum::new(&range, &self.cache))
                } else {
                    Stage::Spawn
                }
            },
            (Stage::Direct(sum), Event::Stored { unchanged }) => {
                let mut sum = sum;
                sum.advance(unchanged);
                if sum.is_done() {
                    Stage::Adopt
                } else {
                    Stage::Direct(sum)
                }
            },
            (Stage::Adopt, Event::Stored { .. }) => Stage::Scale,
            (Stage::Spawn, Event::Done) => {
                if self.tasks.len() > 0 {
                    Stage::Send { task: 0 }
                } else {
                    Stage::Close
                }
            },
            (Stage::Spawn, Event::Failed) => Stage::Failed(CalcError::WorkerFailure),
            (Stage::Send { task }, Event::Done) => {
                if task + 1 < self.tasks.len() {
                    Stage::Send { task: task + 1 }
                } else {
                    Stage::Close
                }
            },
            (Stage::Send { .. }, Event::Failed) => Stage::Failed(CalcError::WorkerFailure),
            (Stage::Close, Event::Done) => Stage::Zero,
            (Stage::Zero, Event::Stored { .. }) => Stage::Join { worker: 0 },
            (Stage::Join { worker }, Event::Done) => Stage::Fold { worker },
            (Stage::Join { .. }, Event::Failed) => Stage::Failed(CalcError::WorkerFailure),
            (Stage::Fold { worker }, Event::Stored { .. }) => {
                if worker + 1 < self.threads {
                    Stage::Join { worker: worker + 1 }
                } else {
                    Stage::Scale
                }
            },
            (Stage::Scale, Event::Stored { .. }) => Stage::Invert,
            (Stage::Invert, Event::Stored { .. }) => Stage::Render,
            (Stage::Render, Event::Text(text)) => Stage::Finished(
                truncate_digits(text.as_str(), self.digits),
            ),
            (stage, _) => stage,
        };
        self.stage = next;
    }

    /// Does what an evaluation that has a range to send asks for: puts the
    /// range into the queue and takes note of the outcome, a failure where
    /// the queue no longer takes anything because every worker is gone.
    /// Nothing is sent, and nothing changes, unless a range is to be sent.
    pub fn send(&mut self, sender: &Sender<(u64, u64)>) -> (sent: bool)
        ensures
            old(self)@.phase is Send ==> final(self)@ == old(self)@.advance(
                if sent {
                    Event::Done
                } else {
                    Event::Failed
                },
            ),
            !(old(self)@.phase is Send) ==> !sent && final(self)@ == old(self)@,
    {
        proof {
            use_type_invariant(&*self);
        }
        let (start, end) = match &self.stage {
            Stage::Send { task } => (self.tasks[*task].start, self.tasks[*task].end),
            _ => {
                return false;
            },
        };
        let sent = send_range(sender, start, end);
        if sent {
            self.advance(Event::Done);
        } else {
            self.advance(Event::Failed);
        }
        sent
    }

    /// The digits of pi, once the evaluation has finished: `3.` and the
    /// digits asked for.
    pub fn result(&self) -> (digits: Option<String>)
        ensures
            match self@.phase {
                Phase::Finished(text) => digits.is_some() && digits.unwrap()@ == text
                    && text.len() <= self@.digits + 2,
                _ => digits.is_none(),
            },
    {
        proof {
            use_type_invariant(self);
        }
        match &self.stage {
            Stage::Finished(text) => Some(text.clone()),
            _ => None,
        }
    }

    /// Number of terms of the series that the evaluation sums at most.
    pub fn iterations(&self) -> (n: u64)
        ensures
            n == iterations_spec(self@.digits),
    {
        proof {
            use_type_invariant(self);
        }
        self.iterations
    }

    /// The factorial cache of the evaluation, which its workers read too.
    pub fn cache(&self) -> (cache: FactorialCalculator)
        ensures
            cache == cache_spec(self@.digits),
    {
        proof {
            use_type_invariant(self);
        }
        self.cache
    }
}

/// Begins the evaluation of pi to `input_precision` decimal digits after
/// the point, with `thread_count` threads. Zero digits or zero threads are
/// refused, before anything is computed.
pub fn calc_series(input_precision: u32, thread_count: u64) -> (evaluation: Result<
    Evaluator,
    CalcError,
>)
    requires
        input_precision <= MAX_PRECISION_DIGITS,
    ensures
        match evaluation {
            Ok(evaluator) => {
                &&& input_precision > 0
                &&& thread_count > 0
                &&& evaluator@ == EvaluatorState::initial(input_precision, thread_count)
                &&& evaluator@.wf()
            },
            Err(error) => {
                &&& input_precision == 0 || thread_count == 0
                &&& error == CalcError::Configuration
            },
        },
{
    if input_precision == 0 || thread_count == 0 {
        return Err(CalcError::Configuration);
    }
    proof {
        lemma_plan_fits(input_precision);
    }
    let iterations = iterations_for(input_precision);
    let precision = bits_for_digits(input_precision + GUARD_DIGITS) as u32;
    let cache = FactorialCalculator::new(precision, 4 * iterations);
    let tasks = if iterations < thread_count || thread_count == 1 {
        Vec::new()
    } else {
        let pieces = if thread_count > u64::MAX / 2 {
            u64::MAX
        } else {
            2 * thread_count
        };
        proof {
            if thread_count > u64::MAX / 2 {
                lemma_split_saturates(
                    Range { start: 0, end: iterations },
                    2 * thread_count as nat,
                );
            }
        }
        split_range_to_count(&Range { start: 0, end: iterations }, pieces)
    };
    Ok(
        Evaluator {
            digits: input_precision,
            threads: thread_count,
            iterations,
            cache,
            tasks,
            stage: Stage::Cache { entry: 0 },
        },
    )
}

} // verus!
