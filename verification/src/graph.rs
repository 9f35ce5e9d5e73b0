//! Dependency graphs between the files of a project.
pub mod types;
pub mod resolve;
pub mod assemble;
pub mod select;
pub mod metrics;
pub mod report;
pub mod imports;
pub mod render;
