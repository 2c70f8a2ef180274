//! An interpreter for a small query language that declares data-processing
//! pipelines: a query names one buffered source and a chain of registered
//! filters; processing the source drains its buffer through that chain.
use vstd::prelude::*;

pub mod datum;
pub mod errors;
pub mod filters;
pub mod interpreter;
pub mod laws;
pub mod lexer;
pub mod parser;
pub mod pipeline;
pub mod table;

pub use datum::Datum;
pub use errors::Error;
pub use filters::{Batch, Filter, GreaterThan};
pub use interpreter::{Interpreter, Source};
pub use lexer::{Lexer, Token};
pub use parser::parse_pipeline;
pub use pipeline::Pipeline;
pub use table::NameTable;

verus! {

} // verus!
