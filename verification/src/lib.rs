//! Translation pipeline from a subset of LLVM-style textual IR to a
//! fixed-width instruction stream for a 32-bit RISC-style register machine.
//!
//! The stages run in one direction: text is lexed into tokens, parsed into a
//! typed module, checked for compatibility, translated function by function
//! into target instructions, register-allocated, and finally serialized to
//! bytes.

pub mod emit;
pub mod ir;
pub mod parser;
pub mod regalloc;
pub mod target;
pub mod text;
pub mod translate;
