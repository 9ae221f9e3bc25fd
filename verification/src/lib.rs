//! Assembler for a custom 8-bit computer: turns a line-oriented assembly
//! program into a stream of opcode/operand byte pairs.

pub mod error;
pub mod files;
pub mod instruction;
pub mod operand;
pub mod program;
pub mod text;
