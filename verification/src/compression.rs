//! Compression of source files to their structural outline.
pub mod types;
pub mod extract;
