//! Concurrent module-graph construction core of a source-to-source bundler.
//!
//! Given an entry module identifier, the worker loop discovers, analyzes and
//! emits every transitively reachable module exactly once: a job queue carries
//! pending module references, a processed set enforces at-most-once analysis,
//! a symbol box issues globally unique symbol marks, and a statement index
//! records where each mark was declared.

pub mod ast;
pub mod graph;
pub mod module;
pub mod scanner;
pub mod shared;
pub mod symbol_box;
pub mod types;
pub mod worker;

use vstd::prelude::*;

verus! {

} // verus!
