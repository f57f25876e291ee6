//! A front end for a small expression language: a lexer, a precedence-climbing
//! parser, and a code generator that lowers the syntax tree into an SSA
//! control-flow graph held in a compilation unit.

use vstd::prelude::*;

pub mod ast;
pub mod codegen;
pub mod driver;
pub mod ir;
pub mod lexer;
pub mod parser;
pub mod small_cstr;

pub use small_cstr::{SmallCStr, SMALL_STR_SIZE};

verus! {

/// Either type, for APIs accepting two types.
pub enum Either<A, B> {
    A(A),
    B(B),
}

} // verus!
