//! A verified tree-walking evaluator for a small Lisp-family language.
//!
//! The library models runtime values, a lexically scoped environment chain
//! with closure capture, special-form dispatch, and built-in operators, and
//! proves each evaluation step equal to a mathematical interpreter over the
//! value model.
pub mod ast;
pub mod closure;
pub mod builtins;
pub mod core_atom;
pub mod core_comparison;
pub mod core_file;
pub mod core_list;
pub mod core_meta;
pub mod core_recursive;
pub mod core_utils;
pub mod env;
pub mod error;
pub mod eval;
pub mod io;
pub mod laws;
pub mod math;
pub mod parser;
pub mod semantics;
pub mod text;
pub mod tokenizer;
