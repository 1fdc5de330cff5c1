//! A CHIP-8 virtual machine: instruction decoding, machine memory and the
//! execution engine, with their behaviour stated as contracts.
pub mod chip8;
pub mod isa;
pub mod machine;
pub mod mem;

pub use chip8::Chip8;
pub use isa::Op;
pub use machine::{Effect, Fault};
pub use mem::Mem;
