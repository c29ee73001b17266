//! Sierra: a small language that compiles to C.
use vstd::prelude::*;

pub mod text;
pub mod table;
pub mod token;
pub mod lexer;
pub mod ast;
pub mod parser;
pub mod analysis;
pub mod semantics;
pub mod emit;
pub mod compiler;
pub mod laws;

verus! {
} // verus!
