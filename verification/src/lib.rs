//! A small symbolic-expression core: a typed value lattice, an
//! environment-backed variable store, an evaluator that reduces
//! expressions to normal form, and a lowering pass that turns an
//! environment's bindings into plain code-generation directives.

pub mod env;
pub mod errors;
pub mod eval;
pub mod lower;
pub mod value;
