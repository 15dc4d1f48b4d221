//! The table of factorials that the terms of the series read.

use crate::expr::{Expr, Reg};
use vstd::prelude::*;

verus! {

/// How entry `i` of the factorial cache is computed: entry 0 is one, and
/// every later entry is the entry before it times its own index.
pub open spec fn factorial_entry(i: u64) -> Expr {
    if i == 0 {
        Expr::Int(1)
    } else {
        Expr::times(Expr::Get(Reg::Factorial((i - 1) as u64)), Expr::Int(i))
    }
}

/// The factorial of `n`.
pub open spec fn factorial(n: nat) -> nat
    decreases n,
{
    if n == 0 {
        1
    } else {
        n * factorial((n - 1) as nat)
    }
}

/// Registers in which every entry of the cache holds the factorial of its
/// index exactly.
pub open spec fn exact_entries() -> spec_fn(Reg) -> int {
    |reg: Reg|
        match reg {
            Reg::Factorial(i) => factorial(i as nat) as int,
            _ => 0,
        }
}

/// A cache of the factorials of `0..=n`, all at one working precision.
///
/// The numbers themselves are with the backend, as the registers
/// `Reg::Factorial(0)` to `Reg::Factorial(n)`. This type knows which entries
/// there are, how each is computed, and hands out references to them.
#[derive(Debug, Clone, Copy, PartialEq, Eq)]
pub struct FactorialCalculator {
    /// Bits of mantissa that every entry is computed with.
    pub precision: u32,
    /// Index of the last entry.
    pub n: u64,
}

impl FactorialCalculator {
    /// Describes the cache of the factorials of `0..=n` at `precision` bits.
    pub fn new(precision: u32, n: u64) -> (cache: Self)
        ensures
            cache == (FactorialCalculator { precision, n }),
    {
        FactorialCalculator { precision, n }
    }

    /// The computation that fills entry `i`.
    pub fn entry(&self, i: u64) -> (expr: Expr)
        requires
            i <= self.n,
        ensures
            expr == factorial_entry(i),
    {
        if i == 0 {
            Expr::Int(1)
        } else {
            Expr::times(Expr::Get(Reg::Factorial(i - 1)), Expr::Int(i))
        }
    }

    /// The factorial of `i`, as a reference to its entry.
    pub fn get(&self, i: u64) -> (expr: Expr)
        requires
            i <= self.n,
        ensures
            expr == Expr::Get(Reg::Factorial(i)),
    {
        Expr::Get(Reg::Factorial(i))
    }

    /// Whether the cache holds every factorial that term `k` of the series
    /// reads, the largest of which is that of `4 * k`.
    pub open spec fn serves(&self, k: u64) -> bool {
        4 * k <= self.n
    }

    /// Whether the cache holds every factorial that the terms `start..end` read.
    pub open spec fn serves_range(&self, start: u64, end: u64) -> bool {
        start < end ==> self.serves((end - 1) as u64)
    }

    /// Whether the cache holds every factorial that the terms `start..end` read.
    pub fn can_serve(&self, start: u64, end: u64) -> (ok: bool)
        ensures
            ok == self.serves_range(start, end),
    {
        start >= end || end - 1 <= self.n / 4
    }
}

/// An entry reads no entry but the one before it, so the cache can be filled
/// from index 0 upwards.
pub proof fn lemma_entry_reads_earlier_entries(i: u64)
    ensures
        factorial_entry(i).factorials_below(i as nat),
        !factorial_entry(i).reads(Reg::Sum),
        !factorial_entry(i).reads(Reg::Total),
        !factorial_entry(i).reads(Reg::Incoming),
{
    reveal_with_fuel(Expr::factorials_below, 3);
    reveal_with_fuel(Expr::reads, 3);
}

/// Where nothing is rounded, every entry is the factorial of its index:
/// computed from entries that hold the factorials of their indices, entry
/// `i` is the factorial of `i`.
pub proof fn lemma_entries_are_factorials(i: u64)
    ensures
        factorial_entry(i).whole_value(exact_entries()) == Some(factorial(i as nat) as int),
{
    reveal_with_fuel(Expr::whole_value, 3);
    if i > 0 {
        let before = factorial((i - 1) as nat) as int;
        assert(factorial(i as nat) == i * factorial((i - 1) as nat));
        assert(before * i == i * before) by (nonlinear_arith);
    }
}

} // verus!
