//! Building deterministic context packs.
pub mod budget;
pub mod candidate;
pub mod excerpt;
pub mod pack;
pub mod languages;
pub mod report;
pub mod markdown;
pub mod types;
pub mod focus;
