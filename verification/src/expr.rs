//! The arithmetic that an evaluation asks of its number backend.
//!
//! The library never holds a number. It names the values that the backend
//! keeps ([`Reg`]) and writes down, as an [`Expr`], how a new value is got
//! from them. Every node of an expression stands for one operation, rounded
//! to the working precision of the evaluation.

use vstd::prelude::*;

verus! {

/// A value that the backend keeps for the library.
#[derive(Debug, Clone, Copy, PartialEq, Eq)]
pub enum Reg {
    /// The partial sum of the range that is being summed.
    Sum,
    /// What has been gathered so far: by a worker over its tasks, by the
    /// evaluation over its workers.
    Total,
    /// The total that the worker joined last has handed over.
    Incoming,
    /// The entry of the factorial cache with this index.
    Factorial(u64),
}

/// A number, written as the operations that yield it.
#[derive(Debug, PartialEq, Eq)]
pub enum Expr {
    /// The integer itself.
    Int(u64),
    /// The value that a register holds at the moment of evaluation.
    Get(Reg),
    /// Sum of the two operands.
    Add(Box<Expr>, Box<Expr>),
    /// Product of the two operands.
    Mul(Box<Expr>, Box<Expr>),
    /// The first operand divided by the second.
    Div(Box<Expr>, Box<Expr>),
    /// The operand raised to the exponent.
    Pow(Box<Expr>, u64),
    /// Square root of the operand.
    Sqrt(Box<Expr>),
    /// One divided by the operand.
    Recip(Box<Expr>),
}

impl Expr {
    /// Whether every entry of the factorial cache that the expression reads
    /// has an index below `bound`.
    pub open spec fn factorials_below(self, bound: nat) -> bool
        decreases self,
    {
        match self {
            Expr::Int(_) => true,
            Expr::Get(reg) => match reg {
                Reg::Factorial(i) => i < bound,
                _ => true,
            },
            Expr::Add(a, b) => a.factorials_below(bound) && b.factorials_below(bound),
            Expr::Mul(a, b) => a.factorials_below(bound) && b.factorials_below(bound),
            Expr::Div(a, b) => a.factorials_below(bound) && b.factorials_below(bound),
            Expr::Pow(a, _) => a.factorials_below(bound),
            Expr::Sqrt(a) => a.factorials_below(bound),
            Expr::Recip(a) => a.factorials_below(bound),
        }
    }

    /// Whether the expression reads the register `reg`.
    pub open spec fn reads(self, reg: Reg) -> bool
        decreases self,
    {
        match self {
            Expr::Int(_) => false,
            Expr::Get(r) => r == reg,
            Expr::Add(a, b) => a.reads(reg) || b.reads(reg),
            Expr::Mul(a, b) => a.reads(reg) || b.reads(reg),
            Expr::Div(a, b) => a.reads(reg) || b.reads(reg),
            Expr::Pow(a, _) => a.reads(reg),
            Expr::Sqrt(a) => a.reads(reg),
            Expr::Recip(a) => a.reads(reg),
        }
    }

    /// The exact value of an expression in whole numbers, where `regs` gives
    /// the value of each register. Quotients, roots and reciprocals have
    /// none.
    pub open spec fn whole_value(self, regs: spec_fn(Reg) -> int) -> Option<int>
        decreases self,
    {
        match self {
            Expr::Int(n) => Some(n as int),
            Expr::Get(reg) => Some(regs(reg)),
            Expr::Add(a, b) => match (a.whole_value(regs), b.whole_value(regs)) {
                (Some(x), Some(y)) => Some(x + y),
                _ => None,
            },
            Expr::Mul(a, b) => match (a.whole_value(regs), b.whole_value(regs)) {
                (Some(x), Some(y)) => Some(x * y),
                _ => None,
            },
            Expr::Pow(a, exponent) => match a.whole_value(regs) {
                Some(x) => Some(vstd::arithmetic::power::pow(x, exponent as nat)),
                None => None,
            },
            Expr::Div(_, _) => None,
            Expr::Sqrt(_) => None,
            Expr::Recip(_) => None,
        }
    }

    /// The sum `a + b`.
    pub open spec fn plus_spec(a: Expr, b: Expr) -> Expr {
        Expr::Add(Box::new(a), Box::new(b))
    }

    /// The product `a * b`.
    pub open spec fn times_spec(a: Expr, b: Expr) -> Expr {
        Expr::Mul(Box::new(a), Box::new(b))
    }

    /// The quotient `a / b`.
    pub open spec fn over_spec(a: Expr, b: Expr) -> Expr {
        Expr::Div(Box::new(a), Box::new(b))
    }

    /// The power `a ^ exponent`.
    pub open spec fn power_spec(a: Expr, exponent: u64) -> Expr {
        Expr::Pow(Box::new(a), exponent)
    }

    /// The sum `a + b`.
    #[verifier::when_used_as_spec(plus_spec)]
    pub fn plus(a: Expr, b: Expr) -> (r: Expr)
        ensures
            r == Expr::Add(Box::new(a), Box::new(b)),
    {
        Expr::Add(Box::new(a), Box::new(b))
    }

    /// The product `a * b`.
    #[verifier::when_used_as_spec(times_spec)]
    pub fn times(a: Expr, b: Expr) -> (r: Expr)
        ensures
            r == Expr::Mul(Box::new(a), Box::new(b)),
    {
        Expr::Mul(Box::new(a), Box::new(b))
    }

    /// The quotient `a / b`.
    #[verifier::when_used_as_spec(over_spec)]
    pub fn over(a: Expr, b: Expr) -> (r: Expr)
        ensures
            r == Expr::Div(Box::new(a), Box::new(b)),
    {
        Expr::Div(Box::new(a), Box::new(b))
    }

    /// The power `a ^ exponent`.
    #[verifier::when_used_as_spec(power_spec)]
    pub fn power(a: Expr, exponent: u64) -> (r: Expr)
        ensures
            r == Expr::Pow(Box::new(a), exponent),
    {
        Expr::Pow(Box::new(a), exponent)
    }
}

/// What reads only entries below one bound reads only entries below any
/// greater bound.
pub proof fn lemma_factorials_below_grows(expr: Expr, bound: nat, greater: nat)
    requires
        expr.factorials_below(bound),
        bound <= greater,
    ensures
        expr.factorials_below(greater),
    decreases expr,
{
    match expr {
        Expr::Int(_) => {},
        Expr::Get(_) => {},
        Expr::Add(a, b) => {
            lemma_factorials_below_grows(*a, bound, greater);
            lemma_factorials_below_grows(*b, bound, greater);
        },
        Expr::Mul(a, b) => {
            lemma_factorials_below_grows(*a, bound, greater);
            lemma_factorials_below_grows(*b, bound, greater);
        },
        Expr::Div(a, b) => {
            lemma_factorials_below_grows(*a, bound, greater);
            lemma_factorials_below_grows(*b, bound, greater);
        },
        Expr::Pow(a, _) => {
            lemma_factorials_below_grows(*a, bound, greater);
        },
        Expr::Sqrt(a) => {
            lemma_factorials_below_grows(*a, bound, greater);
        },
        Expr::Recip(a) => {
            lemma_factorials_below_grows(*a, bound, greater);
        },
    }
}

} // verus!
