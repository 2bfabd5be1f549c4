//! VGA text mode.

pub mod text_mod;
