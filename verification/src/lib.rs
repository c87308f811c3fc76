//! A small Brainfuck tool chain: a parser that resolves bracket jumps, a
//! reference interpreter over a byte tape, and a code generator that emits
//! AArch64 machine code for the same instruction set.
//!
//! The unsafe half of the just-in-time pipeline (mapping an executable page,
//! copying the generated bytes in, and calling into it) lives outside this
//! library; the library produces the machine-code buffer and states exactly
//! which bytes it holds.

pub mod codegen;
pub mod interp;
pub mod ops;
pub mod parser;
