//! Wormula: a "parse once, evaluate often" engine for predicate formulas
//! of the kind one writes in a SQL WHERE clause.
//!
//! A textual formula (boolean combinators, comparisons, string / number /
//! regex literals and named variables) is parsed into an abstract syntax
//! tree, compiled once into stack-machine code for a sandboxed virtual
//! machine with linear memory, and then evaluated repeatedly against
//! changing variable bindings.
//!
//! The crate also ships the value runtime that owns all runtime values
//! (typed slots, boolean and comparison primitives) and an assembler that
//! packages the generated code into a binary module with fixed imports,
//! exports and function indices.

pub mod codegen;
pub mod evaluator;
pub mod parse;
pub mod runtime;
pub mod term;
pub mod wasm;

use vstd::prelude::*;

verus! {

/// The number of value slots a freshly created state reserves; slot 0 is
/// never handed out, variables and literals live in `[1, RESERVED_SLOTS)`.
pub const RESERVED_SLOTS: i64 = 1000;

} // verus!
