//! A single-pass compiler and stack machine for a small expression language:
//! source text is scanned into tokens, compiled by a Pratt parser straight
//! into a bytecode chunk, and executed on a bounded operand stack.
//!
//! Numbers are IEEE-754 binary64 values carried as their bit patterns. The
//! library decides everything about them that needs no rounding (sign,
//! equality, order); the four rounding operations and the reading of a decimal
//! literal are performed by the host, which hands the resulting bits back in.

pub mod values;
pub mod chunk;
pub mod scanner;
pub mod compiler;
pub mod virtual_machine;
