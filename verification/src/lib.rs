//! An execution engine for an eight-symbol tape language: programs are
//! resolved into matched bracket pairs and then either run against a
//! fixed-size byte tape or emitted as Rust source.
//!
//! `program` and `brackets` build a program and its jump table, `tape` is
//! the memory, `parser` finds the next operation, `machine` says what a
//! transition is, `interpreter` performs transitions and whole runs,
//! `transpiler` emits source text, and `commentary` proves that bytes
//! which denote no operation do not matter.

pub mod brackets;
pub mod commentary;
pub mod context;
pub mod decimal;
pub mod instruction;
pub mod interpreter;
pub mod machine;
pub mod parser;
pub mod program;
pub mod tape;
pub mod transpiler;
