//! The id -> value memory tables of a Cairo prover: the values of the memory
//! are kept in three tables (full-size field elements, small values and
//! relocatable values), the lookups of each value are counted, and each table
//! is written out as trace columns of 9-bit limbs, together with the range
//! checks and lookups that the interaction trace is built from.
//!
//! - `memory`: memory ids, their encoding, and the memory the tables read.
//! - `felt`: splitting values into 9-bit limbs.
//! - `column`: packed trace columns and multiplicity counters.
//! - `claim`: the tables, lookup counting, `deduce_output`, `write_trace`.
//! - `trace`: the trace of each table.
//! - `interaction`: the lookups of each table for the interaction trace.
//! - `laws`: what the traces and lookups promise of each other.
//! - `adapter`: the public memory addresses of a run.
//! - `arith`: powers of two and rounding.
use vstd::prelude::*;

pub mod adapter;
pub mod arith;
pub mod claim;
pub mod column;
pub mod felt;
pub mod interaction;
pub mod laws;
pub mod memory;
pub mod trace;

verus! {
} // verus!
