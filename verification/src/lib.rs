//! A single-pass bytecode compiler and stack-based virtual machine for a
//! small expression language (numbers, booleans, nil, arithmetic, comparison,
//! and negation).
//!
//! Source text is tokenized by [`lexer`], compiled straight to bytecode by the
//! operator-precedence parser in [`compiler`] (no intermediate tree), and the
//! resulting [`chunk::Chunk`] is executed by [`vm::VM`] over a fixed-capacity
//! [`stack::Stack`] of [`value::Value`]s.

pub mod chunk;
pub mod compiler;
pub mod console;
pub mod float;
pub mod lexer;
pub mod stack;
pub mod value;
pub mod vm;
