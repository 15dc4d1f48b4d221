//! Pi to any number of decimal digits, from Ramanujan's series, with the
//! summation spread over a pool of worker threads.
//!
//! The library decides what is computed, and in which order: how many terms
//! are summed and at which working precision, how the factorial cache is
//! filled, which ranges of terms the workers are given, when a summation
//! may end early, and how the result is cut down to the digits asked for.
//! It holds no number itself. The program that uses it keeps the numbers in
//! an arbitrary-precision backend, evaluates the expressions that the
//! library hands out, and runs the threads.

pub mod calc;
pub mod expr;
pub mod factorial_calculator;
mod queue;
pub mod schedule;
pub mod series;
pub mod utils;
pub mod worker;
