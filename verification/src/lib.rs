//! An interpreter for the LC-3 architecture: a 16-bit, word-addressed
//! machine with eight general-purpose registers, a program counter, a
//! three-valued condition code, a 65,536-word memory with two memory-mapped
//! keyboard addresses, and a service-call (TRAP) mechanism for host I/O.
//!
//! The crate is organised leaves-first: bit utilities, memory, the two
//! decoders, the host byte channels, and the execution engine.

pub mod bytes;
pub mod host;
pub mod memory;
pub mod opcode;
pub mod trap;
pub mod vm;
