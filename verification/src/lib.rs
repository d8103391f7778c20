//! The runtime core of a small Lisp: NaN-boxed values, an arena heap with a
//! mark-and-sweep collector, lexical scopes, and a tree-walking evaluator.

pub mod builtins;
pub mod evaluator;
pub mod gc;
pub mod lisp;
pub mod printer;
pub mod reader;
pub mod repl;
pub mod list;
pub mod math;
pub mod result;
pub mod symbols_table;
pub mod types;
