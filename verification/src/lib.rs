//! Evaluation core of a homoiconic, pattern-matching-oriented language.
//!
//! The crate provides the term algebra with its structural-equality and
//! classification rules, the splice-flattening simplifier, the pattern
//! matcher, and the evaluator with function application.  Text parsing,
//! the identifier interner, and the standard-library bootstrap are outside
//! collaborators: identifiers are compared structurally here, which is
//! exactly what the interner's canonical-handle guarantee stands in for.

pub mod bindings;
pub mod classify;
pub mod convert;
pub mod eq;
pub mod error;
pub mod idents;
pub mod interp;
pub mod laws;
pub mod semantics;
pub mod simplify;
pub mod term;

pub use term::Builtin;
pub use term::Fun;
pub use term::Ident;
pub use term::Number;
pub use term::SExpr;
pub use term::SExprKind;
