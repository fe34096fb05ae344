//! A minimal compiler front end and execution engine: source text for a
//! small expression-oriented language is tokenized, parsed by precedence
//! climbing, lowered in a single pass to a flat bytecode list, and executed
//! on a frame-based stack machine.  Every stage carries a contract over its
//! mathematical model.

pub mod token;
pub mod typing;
pub mod lexer;
pub mod node;
pub mod parser;
pub mod vm_base;
pub mod codegen;
pub mod vm;
