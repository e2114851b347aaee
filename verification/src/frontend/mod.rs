//! What turns a resolved tree into output for a concrete target.

pub mod text;
pub mod tui;
