//! Line-of-code metrics.
pub mod scanner;
pub mod types;
pub mod report;
pub mod ignore;
