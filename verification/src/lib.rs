//! A verified toolkit for token-based judging harnesses: a strict
//! line-and-token input reader for whitespace-separated integers, a decimal
//! formatter for solver output, extremum reductions, and a tiered checker
//! that grades a contestant's raw output against an ordered list of
//! acceptability predicates.

pub mod checker;
pub mod errors;
pub mod minmax;
pub mod output;
pub mod reader;
pub mod text;
