//! Execution core of a bytecode interpreter: lexical addresses, a frame arena
//! that addresses resolve against, literal materialization and the
//! instruction-dispatch loop with tail calls and local exception handling.

pub mod env;
pub mod futures;
pub mod ir;
pub mod keyed;
pub mod order;
pub mod value;
