//! The 80x25 text screen: colours, the cursor and the character cells.

pub mod cursor;
pub mod out;
