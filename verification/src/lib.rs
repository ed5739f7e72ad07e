use vstd::prelude::*;

pub mod ast;
pub mod value;
pub mod env;
pub mod arith;
pub mod chars;
pub mod text;
pub mod builtins;
pub mod semantics;
pub mod eval;
pub mod lexer;
pub mod grammar;
pub mod budget;
pub mod precedence;
pub mod numerals;
pub mod bits;
pub mod parser;
pub mod laws;
pub mod session;

verus! {
} // verus!
