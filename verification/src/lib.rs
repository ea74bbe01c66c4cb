//! Execution core of a small Lisp runtime: a fixed-capacity tagged-cell
//! object memory with a mark/sweep/compact garbage collector, and a
//! bytecode virtual machine that evaluates compiled expressions over it.

pub mod cell;
pub mod pool;
pub mod vecpool;
pub mod trace;
pub mod machine;
pub mod gc;
pub mod error;
pub mod symtab;
pub mod port;
pub mod vm;
pub mod compact;
