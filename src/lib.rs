//! A bidirectional type checker, a structural subtyping relation and a
//! substitution-based evaluator for a small typed lambda calculus.
pub mod ast;
pub mod simple;
