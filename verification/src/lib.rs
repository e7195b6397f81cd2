//! The execution core of a stack-based bytecode interpreter for a
//! 256-bit-word virtual machine: a bounded operand stack, a zero-filled
//! auto-growing memory, and a fetch-decode-execute loop over a program of
//! single-byte opcodes, each proved against a mathematical model of the
//! machine's state.

use vstd::prelude::*;

pub mod error;
pub mod execution;
pub mod memory;
pub mod stack;
pub mod word;
