//! The Synacor virtual machine and its assembler.
//!
//! `instruction` holds the instruction set that both tools share, `parser`
//! turns assembly text into program elements, `assembler` resolves labels
//! and emits the binary image, and `vm` loads and runs such an image.

pub mod assembler;
pub mod instruction;
pub mod parser;
pub mod vm;
pub mod wire;
