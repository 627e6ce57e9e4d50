//! A small dynamically typed, Lisp-like language: a tagged value model,
//! lexically nested environments held in an arena of frames, a registry of
//! native operations, and a tree-walking evaluator with partial application
//! and variadic binding.

use vstd::prelude::*;

pub mod builtin;
pub mod eval;
pub mod lenv;
pub mod lval;
pub mod parser;
pub mod util;

pub use builtin::initialize;
pub use eval::{Interp, eval, run_files};
pub use lenv::{LEnv, Scopes};
pub use lval::{LBuiltin, LVal};
