//! Scribe: a Yul to Miden assembly transpiler.
//!
//! The crate parses Yul source text into an abstract syntax tree, infers the
//! `u32`/`u256` types of its values, and generates Miden assembly from it.
use vstd::prelude::*;

pub mod u256;
pub mod text;
pub mod types;
pub mod scope;
pub mod type_inference;
pub mod utils;
pub mod miden_model;
pub mod miden_generator;
pub mod ast_optimization;
pub mod parser;
pub mod ast_tree;
pub mod optimizer;
pub mod repl;
pub mod prototype;
pub mod miden_yul;
pub mod zero_model;
pub mod zero_generator;
pub mod test_utilities;
pub mod miden_semantics;

verus! {

} // verus!
