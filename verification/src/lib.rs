//! A verified interpreter core for a small byte-code virtual machine with
//! 16 opcode families, 16 eight-bit registers, a 4 KiB address space, a
//! bounded call stack, two countdown timers, a 64x32 monochrome framebuffer
//! and a 16-key input device.
//!
//! The machine's transition relation is written down once, as the spec
//! function [`model::spec_step`]; the executable interpreter is proved to
//! implement it exactly.

pub mod laws;
pub mod model;
pub mod vm;

pub use model::ErrorKind;
pub use model::Model;
pub use model::StepResult;
pub use vm::Chip8;
