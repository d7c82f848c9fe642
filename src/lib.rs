//! De Bruijn-indexed expression language: a tree-walking evaluator and a
//! closure-converting lowering pass to a statement-based mid-level form.
pub mod effect;
pub mod literal;
pub mod shape;
pub mod types;
pub mod pattern;
pub mod expr;
pub mod closure;
pub mod value;
pub mod error;
pub mod ops;
pub mod matching;
pub mod prims;
pub mod semantics;
pub mod eval;
pub mod mir;
pub mod decl;
pub mod lower;
pub mod interp;
