//! The course of an evaluation in which nothing goes wrong and every term
//! counts: phase by phase, in closed form.

use crate::calc::{
    cache_spec, direct_spec, iterations_spec, lemma_evaluator_step, lemma_plan_fits,
    lemma_tasks_cut_up_the_series, tasks_spec, Action, EvaluatorState, Event, Phase,
    MAX_PRECISION_DIGITS,
};
use crate::series::{SumPhase, SumState};
use vstd::prelude::*;

verus! {

/// The answer to an action that is carried out without more ado: the value
/// was stored and is a new one, or the thing was done.
pub open spec fn plain_answer(action: Action) -> Event {
    match action {
        Action::Assign { .. } => Event::Stored { unchanged: false },
        _ => Event::Done,
    }
}

/// The state of an evaluation after `steps` actions were answered plainly.
pub open spec fn after(state: EvaluatorState, steps: nat) -> EvaluatorState
    decreases steps,
{
    if steps == 0 {
        state
    } else {
        let before = after(state, (steps - 1) as nat);
        before.advance(plain_answer(before.pending()))
    }
}

/// The state of the direct summation of `terms` terms in which `added` of
/// them have been added.
pub open spec fn summing(terms: u64, added: nat) -> SumState {
    SumState { start: 0, next: added as u64, end: terms, phase: SumPhase::Adding }
}

/// What an evaluation does after `steps` plainly answered actions.
///
/// First come the entries of the factorial cache, from index 0 to four
/// times the number of terms. A direct evaluation then sets the sum to
/// zero, adds the terms in ascending order and makes the sum its total. An
/// evaluation with a pool starts the workers, puts the ranges of the
/// partition into the queue in ascending order, closes the queue, sets its
/// total to zero, and joins the workers in ascending order, adding the
/// total of each one to its own right after the join. Either way the total
/// is then scaled, inverted and handed in as text.
pub open spec fn schedule(digits: u32, threads: u64, steps: nat) -> Phase {
    let terms = iterations_spec(digits);
    let entries = cache_spec(digits).n as nat + 1;
    let tasks = tasks_spec(digits, threads).len();
    if steps < entries {
        Phase::Cache { entry: steps as u64 }
    } else if direct_spec(digits, threads) {
        let step = (steps - entries) as nat;
        if step == 0 {
            Phase::Direct(SumState { phase: SumPhase::Zero, ..summing(terms, 0) })
        } else if step <= terms {
            Phase::Direct(summing(terms, (step - 1) as nat))
        } else if step == terms + 1 {
            Phase::Adopt
        } else if step == terms + 2 {
            Phase::Scale
        } else if step == terms + 3 {
            Phase::Invert
        } else {
            Phase::Render
        }
    } else {
        let step = (steps - entries) as nat;
        let joining = (step - tasks - 3) as nat;
        if step == 0 {
            Phase::Spawn
        } else if step <= tasks {
            Phase::Send { task: (step - 1) as nat }
        } else if step == tasks + 1 {
            Phase::Close
        } else if step == tasks + 2 {
            Phase::Zero
        } else if joining < 2 * threads {
            if joining % 2 == 0 {
                Phase::Join { worker: (joining / 2) as u64 }
            } else {
                Phase::Fold { worker: (joining / 2) as u64 }
            }
        } else if joining == 2 * threads {
            Phase::Scale
        } else if joining == 2 * threads + 1 {
            Phase::Invert
        } else {
            Phase::Render
        }
    }
}

/// One plainly answered action takes an evaluation from one step of the
/// schedule to the next.
proof fn lemma_schedule_step(state: EvaluatorState, steps: nat)
    requires
        state.wf(),
        state.phase == schedule(state.digits, state.threads, steps),
    ensures
        state.advance(plain_answer(state.pending())).phase == schedule(
            state.digits,
            state.threads,
            steps + 1,
        ),
{
    let digits = state.digits;
    let threads = state.threads;
    let terms = iterations_spec(digits);
    let entries = cache_spec(digits).n as nat + 1;
    let tasks = tasks_spec(digits, threads).len();
    let next = state.advance(plain_answer(state.pending()));
    lemma_plan_fits(digits);
    assert(!direct_spec(digits, threads) ==> tasks >= threads >= 2) by {
        lemma_tasks_cut_up_the_series(digits, threads);
    }
    if steps < entries {
        assert(state.phase == Phase::Cache { entry: steps as u64 });
    } else if direct_spec(digits, threads) {
        let step = (steps - entries) as nat;
        if step == 0 {
        } else if step <= terms {
            assert(state.phase == Phase::Direct(summing(terms, (step - 1) as nat)));
        } else {
        }
    } else {
        let step = (steps - entries) as nat;
        let joining = (step - tasks - 3) as nat;
        if step <= tasks + 2 {
            if step == tasks + 2 {
                assert(next.phase == Phase::Join { worker: 0 });
            }
        } else if joining < 2 * threads {
            let worker = (joining / 2) as u64;
            if joining % 2 == 0 {
                assert(state.phase == Phase::Join { worker });
                assert(next.phase == Phase::Fold { worker });
                assert((joining + 1) / 2 == joining / 2);
            } else {
                assert(state.phase == Phase::Fold { worker });
                assert((joining + 1) / 2 == joining / 2 + 1);
                assert((joining + 1) % 2 == 0);
            }
        } else {
        }
    }
}

/// An evaluation in which every action is answered plainly follows the
/// schedule.
pub proof fn lemma_evaluation_follows_schedule(digits: u32, threads: u64, steps: nat)
    requires
        1 <= digits <= MAX_PRECISION_DIGITS,
        1 <= threads,
    ensures
        after(EvaluatorState::initial(digits, threads), steps).wf(),
        after(EvaluatorState::initial(digits, threads), steps).digits == digits,
        after(EvaluatorState::initial(digits, threads), steps).threads == threads,
        after(EvaluatorState::initial(digits, threads), steps).phase == schedule(
            digits,
            threads,
            steps,
        ),
    decreases steps,
{
    let begin = EvaluatorState::initial(digits, threads);
    if steps == 0 {
        lemma_plan_fits(digits);
    } else {
        lemma_evaluation_follows_schedule(digits, threads, (steps - 1) as nat);
        let before = after(begin, (steps - 1) as nat);
        lemma_evaluator_step(before, plain_answer(before.pending()));
        lemma_schedule_step(before, (steps - 1) as nat);
    }
}

} // verus!
