//! The series for pi and its partial sums.
//!
//! Term `k` of the series is
//! `(4k)! * (1103 + 26390 * k) / ((k!)^4 * 396^(4k))`,
//! and the sum of all terms is `9801 / (2 * sqrt(2) * pi)`.

use crate::expr::{Expr, Reg};
use crate::factorial_calculator::{exact_entries, factorial, FactorialCalculator};
use crate::utils::{is_partition, lemma_partition_without_last, range_len};
use std::ops::Range;
use vstd::arithmetic::power::{lemma_pow_positive, pow};
use vstd::prelude::*;

verus! {

/// Constant summand of the linear factor of a term.
pub const LINEAR_OFFSET: u64 = 1103;

/// Slope of the linear factor of a term.
pub const LINEAR_SLOPE: u64 = 26390;

/// Base of the power in the denominator of a term.
pub const POWER_BASE: u64 = 396;

/// Numerator of term `k`: `(4k)! * (1103 + 26390 * k)`.
pub open spec fn numerator_spec(k: u64) -> Expr {
    Expr::times(
        Expr::Get(Reg::Factorial((4 * k) as u64)),
        Expr::plus(Expr::Int(LINEAR_OFFSET), Expr::times(Expr::Int(LINEAR_SLOPE), Expr::Int(k))),
    )
}

/// Denominator of term `k`: `(k!)^4 * 396^(4k)`.
pub open spec fn denominator_spec(k: u64) -> Expr {
    Expr::times(
        Expr::power(Expr::Get(Reg::Factorial(k)), 4),
        Expr::power(Expr::Int(POWER_BASE), (4 * k) as u64),
    )
}

/// Term `k` of the series, over the factorial cache.
pub open spec fn term_spec(k: u64) -> Expr {
    Expr::over(numerator_spec(k), denominator_spec(k))
}

/// Term `k` of the series, over the entries of `cache`.
pub fn term(k: u64, cache: &FactorialCalculator) -> (expr: Expr)
    requires
        cache.serves(k),
    ensures
        expr == term_spec(k),
{
    let top1 = cache.get(4 * k);
    let top2 = Expr::plus(
        Expr::Int(LINEAR_OFFSET),
        Expr::times(Expr::Int(LINEAR_SLOPE), Expr::Int(k)),
    );
    let bottom1 = Expr::power(cache.get(k), 4);
    let bottom2 = Expr::power(Expr::Int(POWER_BASE), 4 * k);
    Expr::over(Expr::times(top1, top2), Expr::times(bottom1, bottom2))
}

/// The terms of `range`, in ascending order.
pub open spec fn terms(range: Range<u64>) -> Seq<Expr> {
    Seq::new(range_len(range), |i: int| term_spec((range.start + i) as u64))
}

/// The terms of all of `pieces`, piece after piece.
pub open spec fn terms_of_all(pieces: Seq<Range<u64>>) -> Seq<Expr>
    decreases pieces.len(),
{
    if pieces.len() == 0 {
        Seq::empty()
    } else {
        terms_of_all(pieces.drop_last()) + terms(pieces.last())
    }
}

/// The factorial of every number is positive.
pub proof fn lemma_factorial_is_positive(n: nat)
    ensures
        factorial(n) > 0,
    decreases n,
{
    if n > 0 {
        lemma_factorial_is_positive((n - 1) as nat);
        assert(n * factorial((n - 1) as nat) > 0) by (nonlinear_arith)
            requires
                n > 0,
                factorial((n - 1) as nat) > 0,
        ;
    }
}

/// Over a cache whose entries are the factorials of their indices, term `k`
/// is the quotient of `(4k)! * (1103 + 26390 * k)` and `(k!)^4 * 396^(4k)`,
/// and its denominator is not zero.
pub proof fn lemma_term_is_the_term_of_the_series(k: u64)
    requires
        4 * k <= u64::MAX,
    ensures
        term_spec(k) == Expr::over(numerator_spec(k), denominator_spec(k)),
        numerator_spec(k).whole_value(exact_entries()) == Some(
            factorial(4 * k as nat) * (1103 + 26390 * k),
        ),
        denominator_spec(k).whole_value(exact_entries()) == Some(
            pow(factorial(k as nat) as int, 4) * pow(396, 4 * k as nat),
        ),
        pow(factorial(k as nat) as int, 4) * pow(396, 4 * k as nat) > 0,
{
    reveal_with_fuel(Expr::whole_value, 4);
    lemma_factorial_is_positive(k as nat);
    lemma_pow_positive(factorial(k as nat) as int, 4);
    lemma_pow_positive(396, 4 * k as nat);
    assert(pow(factorial(k as nat) as int, 4) * pow(396, 4 * k as nat) > 0) by (nonlinear_arith)
        requires
            pow(factorial(k as nat) as int, 4) > 0,
            pow(396, 4 * k as nat) > 0,
    ;
}

/// A term reads the factorials of `k` and of `4 * k` and no other register.
pub proof fn lemma_term_reads_cache(k: u64)
    requires
        4 * k <= u64::MAX,
    ensures
        term_spec(k).factorials_below((4 * k + 1) as nat),
        !term_spec(k).reads(Reg::Sum),
        !term_spec(k).reads(Reg::Total),
        !term_spec(k).reads(Reg::Incoming),
{
    reveal_with_fuel(Expr::factorials_below, 5);
    reveal_with_fuel(Expr::reads, 5);
}

/// Summing piece after piece adds the same terms, in the same order, as
/// summing the whole range at once. (The sums may still differ in their last
/// bits: each is rounded on its own, and a summation that starts from zero
/// can end early where the whole would go on.)
pub proof fn lemma_terms_over_partition(pieces: Seq<Range<u64>>, range: Range<u64>)
    requires
        is_partition(pieces, range),
    ensures
        terms_of_all(pieces) == terms(range),
    decreases pieces.len(),
{
    if pieces.len() == 0 {
        assert(terms(range) =~= Seq::<Expr>::empty());
    } else {
        lemma_partition_without_last(pieces, range);
        let before = Range { start: range.start, end: pieces.last().start };
        lemma_terms_over_partition(pieces.drop_last(), before);
        assert(terms(before) + terms(pieces.last()) =~= terms(range));
    }
}

/// What a summation does next.
#[derive(Debug, Clone, Copy, PartialEq, Eq)]
pub enum SumPhase {
    /// The sum is to be set to zero.
    Zero,
    /// The next term is to be added to the sum.
    Adding,
    /// Nothing is left to do: the sum is complete.
    Done,
}

/// The state of a summation over the terms `start..end`.
pub struct SumState {
    /// Index of the first term of the range.
    pub start: u64,
    /// Index of the term that is added next.
    pub next: u64,
    /// Index after the last term of the range.
    pub end: u64,
    /// What the summation does next.
    pub phase: SumPhase,
}

impl SumState {
    /// The state in which the summation over `range` begins. A range whose
    /// end is not above its start holds no term.
    pub open spec fn initial(range: Range<u64>) -> SumState {
        SumState {
            start: range.start,
            next: range.start,
            end: if range.start < range.end {
                range.end
            } else {
                range.start
            },
            phase: SumPhase::Zero,
        }
    }

    /// The value that the sum is to be given next, if the summation is not
    /// complete.
    pub open spec fn pending(self) -> Option<Expr> {
        match self.phase {
            SumPhase::Zero => Some(Expr::Int(0)),
            SumPhase::Adding => Some(Expr::plus(Expr::Get(Reg::Sum), term_spec(self.next))),
            SumPhase::Done => None,
        }
    }

    /// The state after the pending value was stored. `unchanged` says whether
    /// the sum is the same number as before. Once a term has left the sum
    /// unchanged, the terms after it are too small to count at the working
    /// precision, and the summation ends.
    pub open spec fn advance(self, unchanged: bool) -> SumState {
        match self.phase {
            SumPhase::Zero => SumState {
                phase: if self.next < self.end {
                    SumPhase::Adding
                } else {
                    SumPhase::Done
                },
                ..self
            },
            SumPhase::Adding => SumState {
                next: (self.next + 1) as u64,
                phase: if unchanged || self.next + 1 >= self.end {
                    SumPhase::Done
                } else {
                    SumPhase::Adding
                },
                ..self
            },
            SumPhase::Done => self,
        }
    }

    /// Number of terms that have been added to the sum.
    pub open spec fn terms_added(self) -> nat {
        (self.next - self.start) as nat
    }

    /// What holds of every state of a summation.
    pub open spec fn wf(self) -> bool {
        &&& self.start <= self.next <= self.end
        &&& self.phase == SumPhase::Adding ==> self.next < self.end
        &&& self.phase == SumPhase::Zero ==> self.next == self.start
    }

    /// The terms that have been added to the sum, in the order in which they were added.
    pub open spec fn added(self) -> Seq<Expr> {
        terms(Range { start: self.start, end: self.next })
    }

    /// The state after the pending values were stored one after the other,
    /// where `unchanged[i]` says whether the `i`-th of them left the sum as
    /// it was.
    pub open spec fn run(self, unchanged: Seq<bool>) -> SumState
        decreases unchanged.len(),
    {
        if unchanged.len() == 0 {
            self
        } else {
            self.run(unchanged.drop_last()).advance(unchanged.last())
        }
    }
}

/// A step keeps a summation well formed and within its range, and a step
/// that adds a term adds the one after those added before.
pub proof fn lemma_sum_step(state: SumState, unchanged: bool)
    requires
        state.wf(),
    ensures
        state.advance(unchanged).wf(),
        state.advance(unchanged).start == state.start,
        state.advance(unchanged).end == state.end,
        state.phase == SumPhase::Adding ==> state.pending() == Some(
            Expr::plus(Expr::Get(Reg::Sum), term_spec(state.next)),
        ) && state.advance(unchanged).added() == state.added().push(term_spec(state.next)),
        state.phase != SumPhase::Adding ==> state.advance(unchanged).added() == state.added(),
{
    let after = state.advance(unchanged);
    if state.phase == SumPhase::Adding {
        assert(after.added() =~= state.added().push(term_spec(state.next)));
    }
}

/// Early termination: once a term has left the sum unchanged, the summation
/// is complete and stays so, whatever is reported to it. If that term was
/// not the last of the range, fewer terms have been added than the range holds.
pub proof fn lemma_early_termination(state: SumState, later: Seq<bool>)
    requires
        state.wf(),
        state.phase == SumPhase::Adding,
    ensures
        state.advance(true).run(later) == state.advance(true),
        state.advance(true).pending() == None::<Expr>,
        state.advance(true).terms_added() == state.terms_added() + 1,
        state.next + 1 < state.end ==> state.advance(true).terms_added() < state.end
            - state.start,
    decreases later.len(),
{
    if later.len() > 0 {
        lemma_early_termination(state, later.drop_last());
    }
}

/// A summation in which every term changes the sum adds all the terms of
/// its range: after the sum was set to zero and `i` terms were added, the
/// next term is pending, and after the last one nothing is.
pub proof fn lemma_full_summation(range: Range<u64>, i: nat)
    requires
        i <= range_len(range),
    ensures
        SumState::initial(range).run(Seq::new(i + 1, |j: int| false)).wf(),
        SumState::initial(range).run(Seq::new(i + 1, |j: int| false)).added() == terms(
            range,
        ).take(i as int),
        SumState::initial(range).run(Seq::new(i + 1, |j: int| false)).phase == if i < range_len(
            range,
        ) {
            SumPhase::Adding
        } else {
            SumPhase::Done
        },
    decreases i,
{
    let events = Seq::new(i + 1, |j: int| false);
    let begin = SumState::initial(range);
    if i == 0 {
        assert(events.drop_last() =~= Seq::<bool>::empty());
        assert(begin.run(events.drop_last()) == begin);
        assert(begin.run(events) == begin.advance(false));
        assert(begin.advance(false).added() =~= terms(range).take(0));
    } else {
        let before = Seq::new(i as nat, |j: int| false);
        assert(events.drop_last() =~= before);
        lemma_full_summation(range, (i - 1) as nat);
        let state = begin.run(before);
        lemma_sum_step(state, false);
        lemma_run_keeps_range(begin, before);
        assert(state.added().len() == i - 1);
        assert(state.next == range.start + i - 1);
        assert(terms(range).take(i as int - 1).push(term_spec(state.next)) =~= terms(range).take(
            i as int,
        ));
    }
}

/// A run keeps a summation well formed and within its range.
pub proof fn lemma_run_keeps_range(state: SumState, unchanged: Seq<bool>)
    requires
        state.wf(),
    ensures
        state.run(unchanged).wf(),
        state.run(unchanged).start == state.start,
        state.run(unchanged).end == state.end,
    decreases unchanged.len(),
{
    if unchanged.len() > 0 {
        lemma_run_keeps_range(state, unchanged.drop_last());
        lemma_sum_step(state.run(unchanged.drop_last()), unchanged.last());
    }
}

/// The sum of the terms of one range of the series, one step at a time.
///
/// The backend keeps the sum in `Reg::Sum`. It stores there what
/// [`SeriesPartialSum::pending`] asks for, and reports through
/// [`SeriesPartialSum::advance`] whether that changed the sum, until nothing is pending.
pub struct SeriesPartialSum {
    start: u64,
    next: u64,
    end: u64,
    phase: SumPhase,
    cache: FactorialCalculator,
}

impl View for SeriesPartialSum {
    type V = SumState;

    closed spec fn view(&self) -> SumState {
        SumState { start: self.start, next: self.next, end: self.end, phase: self.phase }
    }
}

impl SeriesPartialSum {
    #[verifier::type_invariant]
    spec fn inv(self) -> bool {
        &&& self@.wf()
        &&& self.cache.serves_range(self.start, self.end)
    }

    /// The factorial cache that the terms read.
    pub closed spec fn cache(self) -> FactorialCalculator {
        self.cache
    }

    /// Begins the summation of the terms of `range`.
    pub fn new(range: &Range<u64>, cache: &FactorialCalculator) -> (sum: Self)
        requires
            cache.serves_range(range.start, range.end),
        ensures
            sum@ == SumState::initial(*range),
            sum.cache() == *cache,
    {
        let end = if range.start < range.end {
            range.end
        } else {
            range.start
        };
        SeriesPartialSum {
            start: range.start,
            next: range.start,
            end,
            phase: SumPhase::Zero,
            cache: *cache,
        }
    }

    /// The value to store in `Reg::Sum` next, or `None` when the sum is complete.
    pub fn pending(&self) -> (expr: Option<Expr>)
        ensures
            expr == self@.pending(),
            self@.wf(),
    {
        proof {
            use_type_invariant(self);
        }
        match self.phase {
            SumPhase::Zero => Some(Expr::Int(0)),
            SumPhase::Adding => Some(Expr::plus(Expr::Get(Reg::Sum), term(self.next, &self.cache))),
            SumPhase::Done => None,
        }
    }

    /// Takes note that the pending value was stored, and of whether the sum
    /// is the same number as before.
    pub fn advance(&mut self, unchanged: bool)
        ensures
            final(self)@ == old(self)@.advance(unchanged),
            final(self).cache() == old(self).cache(),
            final(self)@.wf(),
    {
        proof {
            use_type_invariant(&*self);
        }
        match self.phase {
            SumPhase::Zero => {
                self.phase = if self.next < self.end {
                    SumPhase::Adding
                } else {
                    SumPhase::Done
                };
            },
            SumPhase::Adding => {
                let next = self.next + 1;
                let phase = if unchanged || next >= self.end {
                    SumPhase::Done
                } else {
                    SumPhase::Adding
                };
                *self = SeriesPartialSum { next, phase, ..*self };
            },
            SumPhase::Done => {},
        }
    }

    /// Whether the sum is complete.
    pub fn is_done(&self) -> (done: bool)
        ensures
            done == (self@.phase == SumPhase::Done),
    {
        match self.phase {
            SumPhase::Done => true,
            _ => false,
        }
    }

    /// Number of terms that have been added to the sum.
    pub fn terms_added(&self) -> (count: u64)
        ensures
            count == self@.terms_added(),
    {
        proof {
            use_type_invariant(self);
        }
        self.next - self.start
    }
}

} // verus!
