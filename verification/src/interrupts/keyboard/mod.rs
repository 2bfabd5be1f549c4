//! The PS/2 keyboard.

pub mod caracter_map;
pub mod init;
