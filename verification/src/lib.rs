//! A minimal call-by-value functional language with two evaluators:
//! one that substitutes arguments into function bodies, and one that
//! evaluates against an environment and builds closures.

pub mod ast;
pub mod ast_closure;
pub mod equivalence;
pub mod laws;
pub mod term;
