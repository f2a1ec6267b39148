//! A tiny arithmetized stack machine over the Mersenne-31 prime field.
//!
//! The library executes a sequence of stack instructions, records one
//! snapshot per executed instruction, and turns the run history into a
//! power-of-two-length trace matrix of field elements together with the
//! algebraic (AIR) constraints that every honestly generated trace
//! satisfies.  Field arithmetic is performed by the `p3_mersenne_31`
//! crate behind a small set of trusted wrappers.

pub mod air;
pub mod field;
pub mod trace;
pub mod vm;
