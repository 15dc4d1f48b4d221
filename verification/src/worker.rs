//! A worker of the pool: it takes ranges from the shared queue until the
//! queue is closed and drained, sums each, and gathers the sums in a total
//! of its own.

use crate::expr::{lemma_factorials_below_grows, Expr, Reg};
use crate::factorial_calculator::FactorialCalculator;
use crate::queue::recv_range;
use crate::series::{
    lemma_sum_step, lemma_term_reads_cache, term_spec, SeriesPartialSum, SumPhase, SumState,
};
use crossbeam_channel::Receiver;
use std::ops::Range;
use vstd::prelude::*;

verus! {

/// What a worker asks of the thread that runs it.
#[derive(Debug, PartialEq, Eq)]
pub enum WorkerAction {
    /// Evaluate `expr` and store the value in `dst`.
    Assign { dst: Reg, expr: Expr },
    /// Take the next range from the queue, waiting for one if need be.
    Receive,
    /// Hand over `Reg::Total`: the queue is closed and drained.
    Finish,
    /// End abnormally: a range was received that the factorial cache does
    /// not serve.
    Abort,
}

/// What the thread that runs a worker reports back.
#[derive(Debug, PartialEq, Eq)]
pub enum WorkerEvent {
    /// The value was stored; `unchanged` says whether the register holds the
    /// same number as before.
    Stored { unchanged: bool },
    /// The queue handed out this range.
    Task(Range<u64>),
    /// The queue is closed and holds nothing more.
    Closed,
}

/// What a worker does next.
pub enum WorkerPhase {
    /// The total is to be set to zero.
    Start,
    /// The next range is to be taken from the queue.
    Idle,
    /// A range is being summed.
    Summing(SumState),
    /// The sum of the range is to be added to the total.
    Folding,
    /// The total is complete.
    Finished,
    /// The worker has ended abnormally.
    Aborted,
}

/// The state of a worker.
pub struct WorkerState {
    /// The factorial cache that the terms read.
    pub cache: FactorialCalculator,
    /// What the worker does next.
    pub phase: WorkerPhase,
    /// Number of ranges whose sums are in the total.
    pub tasks_done: u64,
}

impl WorkerState {
    /// The state in which a worker begins.
    pub open spec fn initial(cache: FactorialCalculator) -> WorkerState {
        WorkerState { cache, phase: WorkerPhase::Start, tasks_done: 0 }
    }

    /// What the worker asks for in this state.
    pub open spec fn pending(self) -> WorkerAction {
        match self.phase {
            WorkerPhase::Start => WorkerAction::Assign { dst: Reg::Total, expr: Expr::Int(0) },
            WorkerPhase::Idle => WorkerAction::Receive,
            WorkerPhase::Summing(sum) => WorkerAction::Assign {
                dst: Reg::Sum,
                expr: sum.pending().unwrap(),
            },
            WorkerPhase::Folding => WorkerAction::Assign {
                dst: Reg::Total,
                expr: Expr::plus(Expr::Get(Reg::Total), Expr::Get(Reg::Sum)),
            },
            WorkerPhase::Finished => WorkerAction::Finish,
            WorkerPhase::Aborted => WorkerAction::Abort,
        }
    }

    /// The state after `event`. An event that does not answer the pending
    /// action changes nothing.
    pub open spec fn advance(self, event: WorkerEvent) -> WorkerState {
        match (self.phase, event) {
            (WorkerPhase::Start, WorkerEvent::Stored { .. }) => WorkerState {
                phase: WorkerPhase::Idle,
                ..self
            },
            (WorkerPhase::Idle, WorkerEvent::Task(range)) => WorkerState {
                phase: if self.cache.serves_range(range.start, range.end) {
                    WorkerPhase::Summing(SumState::initial(range))
                } else {
                    WorkerPhase::Aborted
                },
                ..self
            },
            (WorkerPhase::Idle, WorkerEvent::Closed) => WorkerState {
                phase: WorkerPhase::Finished,
                ..self
            },
            (WorkerPhase::Summing(sum), WorkerEvent::Stored { unchanged }) => WorkerState {
                phase: if sum.advance(unchanged).phase == SumPhase::Done {
                    WorkerPhase::Folding
                } else {
                    WorkerPhase::Summing(sum.advance(unchanged))
                },
                ..self
            },
            (WorkerPhase::Folding, WorkerEvent::Stored { .. }) => WorkerState {
                phase: WorkerPhase::Idle,
                tasks_done: if self.tasks_done < u64::MAX {
                    (self.tasks_done + 1) as u64
                } else {
                    self.tasks_done
                },
                ..self
            },
            _ => self,
        }
    }

    /// What holds of every state of a worker.
    pub open spec fn wf(self) -> bool {
        match self.phase {
            WorkerPhase::Summing(sum) => {
                &&& sum.wf()
                &&& sum.phase != SumPhase::Done
                &&& self.cache.serves_range(sum.start, sum.end)
            },
            _ => true,
        }
    }

    /// The state after the events, one after the other.
    pub open spec fn run(self, events: Seq<WorkerEvent>) -> WorkerState
        decreases events.len(),
    {
        if events.len() == 0 {
            self
        } else {
            self.run(events.drop_last()).advance(events.last())
        }
    }
}

/// A step keeps a worker well formed, leaves its cache alone and never
/// lowers the number of ranges it has done.
pub proof fn lemma_worker_step(state: WorkerState, event: WorkerEvent)
    requires
        state.wf(),
    ensures
        state.advance(event).wf(),
        state.advance(event).cache == state.cache,
        state.advance(event).tasks_done >= state.tasks_done,
{
    match (state.phase, event) {
        (WorkerPhase::Summing(sum), WorkerEvent::Stored { unchanged }) => {
            lemma_sum_step(sum, unchanged);
        },
        _ => {},
    }
}

/// A worker never reads past its cache: what it asks to evaluate goes to
/// the sum or the total, and reads no factorial but those that the cache
/// holds. So no index is ever out of range.
pub proof fn lemma_worker_reads_within_cache(state: WorkerState)
    requires
        state.wf(),
    ensures
        state.pending() matches WorkerAction::Assign { dst, expr } ==> (dst == Reg::Sum || dst
            == Reg::Total) && expr.factorials_below((state.cache.n + 1) as nat)
            && !expr.reads(Reg::Incoming),
{
    reveal_with_fuel(Expr::factorials_below, 3);
    reveal_with_fuel(Expr::reads, 3);
    match state.phase {
        WorkerPhase::Summing(sum) => {
            if sum.phase == SumPhase::Adding {
                lemma_term_reads_cache(sum.next);
                lemma_factorials_below_grows(
                    term_spec(sum.next),
                    (4 * sum.next + 1) as nat,
                    (state.cache.n + 1) as nat,
                );
            }
        },
        _ => {},
    }
}

/// A worker that has finished or aborted stays as it is, whatever is
/// reported to it.
pub proof fn lemma_worker_end_is_final(state: WorkerState, events: Seq<WorkerEvent>)
    requires
        state.phase is Finished || state.phase is Aborted,
    ensures
        state.run(events) == state,
    decreases events.len(),
{
    if events.len() > 0 {
        lemma_worker_end_is_final(state, events.drop_last());
    }
}

enum Stage {
    Start,
    Idle,
    Summing(SeriesPartialSum),
    Folding,
    Finished,
    Aborted,
}

/// A worker of the pool, one step at a time.
///
/// The thread that runs the worker does what [`Worker::pending`] asks for and
/// reports the outcome through [`Worker::advance`], until the worker
/// finishes or aborts.
pub struct Worker {
    cache: FactorialCalculator,
    stage: Stage,
    tasks_done: u64,
}

impl View for Worker {
    type V = WorkerState;

    closed spec fn view(&self) -> WorkerState {
        WorkerState {
            cache: self.cache,
            phase: match self.stage {
                Stage::Start => WorkerPhase::Start,
                Stage::Idle => WorkerPhase::Idle,
                Stage::Summing(sum) => WorkerPhase::Summing(sum@),
                Stage::Folding => WorkerPhase::Folding,
                Stage::Finished => WorkerPhase::Finished,
                Stage::Aborted => WorkerPhase::Aborted,
            },
            tasks_done: self.tasks_done,
        }
    }
}

impl Worker {
    #[verifier::type_invariant]
    spec fn inv(self) -> bool {
        match self.stage {
            Stage::Summing(sum) => sum@.phase != SumPhase::Done && sum.cache() == self.cache,
            _ => true,
        }
    }

    /// A worker that has not begun, over the factorial cache `cache`.
    pub fn new(cache: &FactorialCalculator) -> (worker: Self)
        ensures
            worker@ == WorkerState::initial(*cache),
    {
        Worker { cache: *cache, stage: Stage::Start, tasks_done: 0 }
    }

    /// What the thread is to do next.
    pub fn pending(&self) -> (action: WorkerAction)
        ensures
            action == self@.pending(),
    {
        proof {
            use_type_invariant(self);
        }
        match &self.stage {
            Stage::Start => WorkerAction::Assign { dst: Reg::Total, expr: Expr::Int(0) },
            Stage::Idle => WorkerAction::Receive,
            Stage::Summing(sum) => {
                match sum.pending() {
                    Some(expr) => WorkerAction::Assign { dst: Reg::Sum, expr },
                    None => WorkerAction::Abort,
                }
            },
            Stage::Folding => WorkerAction::Assign {
                dst: Reg::Total,
                expr: Expr::plus(Expr::Get(Reg::Total), Expr::Get(Reg::Sum)),
            },
            Stage::Finished => WorkerAction::Finish,
            Stage::Aborted => WorkerAction::Abort,
        }
    }

    /// Takes note of what the thread reports.
    pub fn advance(&mut self, event: WorkerEvent)
        ensures
            final(self)@ == old(self)@.advance(event),
    {
        proof {
            use_type_invariant(&*self);
        }
        let cache = self.cache;
        let tasks_done = self.tasks_done;
        let mut stage = Stage::Aborted;
        std::mem::swap(&mut self.stage, &mut stage);
        let next = match (stage, event) {
            (Stage::Start, WorkerEvent::Stored { .. }) => Worker {
                cache,
                stage: Stage::Idle,
                tasks_done,
            },
            (Stage::Idle, WorkerEvent::Task(range)) => {
                if cache.can_serve(range.start, range.end) {
                    let sum = SeriesPartialSum::new(&range, &cache);
                    Worker { cache, stage: Stage::Summing(sum), tasks_done }
                } else {
                    Worker { cache, stage: Stage::Aborted, tasks_done }
                }
            },
            (Stage::Idle, WorkerEvent::Closed) => Worker {
                cache,
                stage: Stage::Finished,
                tasks_done,
            },
            (Stage::Summing(sum), WorkerEvent::Stored { unchanged }) => {
                let mut sum = sum;
                sum.advance(unchanged);
                if sum.is_done() {
                    Worker { cache, stage: Stage::Folding, tasks_done }
                } else {
                    Worker { cache, stage: Stage::Summing(sum), tasks_done }
                }
            },
            (Stage::Folding, WorkerEvent::Stored { .. }) => {
                let tasks_done = if tasks_done < u64::MAX {
                    tasks_done + 1
                } else {
                    tasks_done
                };
                Worker { cache, stage: Stage::Idle, tasks_done }
            },
            (stage, _) => Worker { cache, stage, tasks_done },
        };
        *self = next;
    }

    /// Does what a worker that is waiting for a range asks for: takes the
    /// next range from the queue, waiting for one if need be, and takes note
    /// of it, or of the queue being closed. The range is handed on to the
    /// caller. Nothing is taken from the queue, and nothing changes, unless
    /// a range is what the worker is waiting for.
    pub fn receive(&mut self, receiver: &Receiver<(u64, u64)>) -> (task: Option<Range<u64>>)
        ensures
            final(self)@ == old(self)@.advance(
                match task {
                    Some(range) => WorkerEvent::Task(range),
                    None => WorkerEvent::Closed,
                },
            ),
            !(old(self)@.phase is Idle) ==> task.is_none(),
    {
        match &self.stage {
            Stage::Idle => {},
            _ => {
                return None;
            },
        }
        match recv_range(receiver) {
            Some((start, end)) => {
                self.advance(WorkerEvent::Task(Range { start, end }));
                Some(Range { start, end })
            },
            None => {
                self.advance(WorkerEvent::Closed);
                None
            },
        }
    }

    /// Number of ranges whose sums are in the total.
    pub fn tasks_done(&self) -> (count: u64)
        ensures
            count == self@.tasks_done,
    {
        self.tasks_done
    }
}

} // verus!
