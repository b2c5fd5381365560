//! Execution-trace generator and algebraic constraint set for a small
//! stack machine over the Mersenne-31 prime field.
pub mod field;
pub mod vm;
pub mod air;
