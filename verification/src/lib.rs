//! The decision core of a multi-timeframe IC3 model checker.
//!
//! The SAT solvers, the transition system and the obligation queue live
//! outside this crate. What the checker decides from their answers lives
//! here: each of its loops is a machine that says which question to put next
//! and how the answer moves the search, and each of its computations is a
//! function on literals, cubes and counters.

pub mod block;
pub mod check;
pub mod code_set;
pub mod double;
pub mod duration;
pub mod history;
pub mod ic3;
pub mod lemma;
pub mod lit;
pub mod luby;
pub mod mic;
pub mod mtblock;
pub mod multitf;
pub mod params;
pub mod parse;
pub mod percentile;
pub mod pred;
pub mod refine;
pub mod rng;
pub mod statistic;
pub mod tally;
pub mod unroll;
pub mod unsize_percentile_calculator;
pub mod witness;
