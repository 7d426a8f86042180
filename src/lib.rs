//! Maps each line of a Lua source file to the name of the function that
//! lexically encloses it.
//!
//! [`walk::gather_function_line_spans`] walks a [`syntax::Block`] and records
//! one [`walk::FunctionSpan`] per function, named after the assignment
//! target, declaration or table key it is bound to; [`index::SpanIndex`]
//! answers which function encloses a given line. [`laws`] states what holds
//! of every walk.
pub mod syntax;
pub mod names;
pub mod walk;
pub mod index;
pub mod laws;
