//! A minimal stack-based bytecode interpreter.
//!
//! A program is a sequence of textual instruction lines. Execution runs the
//! lines against a bounded operand stack and a flat variable table, producing
//! a single `i32` result or a typed error. The meaning of a program is pinned
//! down by a specification-level step machine (`machine`), and the executable
//! interpreter is verified to produce exactly an outcome of that machine.

pub mod error;
pub mod interpreter;
pub mod machine;
pub mod parse;
pub mod stack;
pub mod text;
pub mod vm;

pub use error::Error;
pub use error::ErrView;
pub use interpreter::Interpreter;
pub use interpreter::execute_unary;
pub use vm::unquote_var;
