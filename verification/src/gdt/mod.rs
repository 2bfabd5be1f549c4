//! The global descriptor table.

pub mod gdt;
