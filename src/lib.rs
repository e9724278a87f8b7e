//! An embeddable interpreter for a small expression language, with a
//! pluggable tracer that observes each execution step. Source text is split
//! into tokens (`lexer`), parsed into statements (`parser`, `ast`) and run
//! (`eval`) by an `Interpreter` that notifies the tracer it holds, if any
//! (`trace`). Each stage is proved to compute exactly its spec function.
use vstd::prelude::*;

pub mod value;
pub mod trace;
pub mod lexer;
pub mod ast;
pub mod parser;
pub mod eval;
pub mod interpreter;

pub use interpreter::{Interpreter, RunError};

verus! {

} // verus!
