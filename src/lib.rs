//! A CHIP-8 virtual machine: instruction decoding, the fetch-decode-execute
//! step, the call stack and the XOR-drawn monochrome display.
//!
//! `machine::next_state` states what one step does; `Chip8::step_with_random`
//! is proved to do exactly that, with the random byte handed in, and
//! `Chip8::single_iteration` does it with a byte from the thread-local
//! random generator.

pub mod decode;
pub mod display;
pub mod laws;
pub mod machine;
mod rng;
pub mod text;

pub use decode::{decode, fields, Fields, Opcode};
pub use display::{SCREEN_HEIGHT, SCREEN_WIDTH};
pub use machine::{Chip8, Chip8Error, MEMORY_SIZE, PROGRAM_START, STACK_DEPTH};
pub use text::format_line;
