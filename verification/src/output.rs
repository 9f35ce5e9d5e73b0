//! Plain-text renderings for the terminal.
pub mod timing;
pub mod profiles;
pub mod table;
