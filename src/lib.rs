//! Directory listing: argument parsing, entry filtering and classification,
//! and the two output layouts (long and horizontal).

pub mod entry;
pub mod flags;
pub mod render;
pub mod style;
pub mod text;
