//! A tiny just-in-time compiler for boolean predicates over an integer domain.
//!
//! The compiler lays out one compare-and-return block of x86-64 machine code
//! per domain value inside an arena that the caller provides as bytes, and the
//! crate proves, against a small model of the processor, that the emitted
//! code computes the predicate.
//!
//! - [`arena`]: the size of an arena and its initial fill.
//! - [`emit`]: the cursor-based writer through which all code reaches the arena.
//! - [`isa`]: the instructions that are emitted, their encodings and a decoder.
//! - [`predicate`]: the predicates that can be compiled.
//! - [`compiler`]: the layout of the code and the build itself.
//! - [`machine`]: the processor model and an interpreter for arena code.
//! - [`laws`]: what an invocation of compiled code does, proved.
//! - [`error`]: the ways in which a build can fail.
//!
//! Making the arena executable and calling into it are left to the caller.

pub mod arena;
pub mod compiler;
pub mod emit;
pub mod error;
pub mod isa;
pub mod laws;
pub mod machine;
pub mod predicate;
