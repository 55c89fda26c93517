//! A small ahead-of-time compiler for a minimal imperative language.
//!
//! The pipeline turns a classified token stream into a statically typed
//! abstract syntax tree and then emits textual assembly for a 64-bit
//! register-based calling convention.  Lexing, file handling and process
//! orchestration live outside this crate; the crate consumes plain token
//! values and hands back plain statement trees, diagnostics and assembly
//! lines.

pub mod token;
pub mod strutil;
pub mod ast;
pub mod diag;
pub mod digits;
pub mod escape;
pub mod typecheck;
pub mod parse;
pub mod codegen;
pub mod pipeline;
pub mod total;
