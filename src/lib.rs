//! Single-pass translation of WebAssembly function bodies into an SSA intermediate
//! representation with extended basic blocks.
//!
//! - `operator`: the WebAssembly MVP operators, and the IR instruction each numeric one maps to.
//! - `ir` and `builder`: the handles and instructions of the IR, and the builder that records
//!   them, block by block.
//! - `environ`: what the module provides to a function (globals, heaps, signatures, functions).
//! - `state`: the value stack, the control stack, the unreachable-code counters and the entity
//!   caches of one function translation.
//! - `code_translator`: the translation of one operator, in reachable or unreachable code.
//! - `func_translator`: the translation of a whole body.
use vstd::prelude::*;

pub mod builder;
pub mod code_translator;
pub mod environ;
pub mod func_translator;
pub mod ir;
pub mod operator;
pub mod state;

verus! {

} // verus!
