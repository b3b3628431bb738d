//! Assembler for a small robot-control instruction set.
//!
//! Source text in a tiny assembly language is classified line by line into
//! typed nodes, then laid out by a two-pass assembler into two fixed-size
//! 256-byte memory images (an instruction image and a data image), with
//! forward label references resolved by a placeholder-then-patch scheme.

pub mod api;
pub mod assemble;
pub mod label;
pub mod laws;
pub mod line;
pub mod opcode;
pub mod register;
pub mod robot;
pub mod text;
pub mod user;
