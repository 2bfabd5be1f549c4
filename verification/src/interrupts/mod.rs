//! Interrupts: the descriptor table entries, the PIC set-up, the keyboard,
//! and what the CPU exception handlers print and decide.

pub mod idt;
pub mod keyboard;
pub mod pic;
pub mod exceptions;
pub mod utils;
