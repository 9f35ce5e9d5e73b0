//! Sephera: verified line counting, context packing and dependency-graph logic.
pub mod line_slices;
pub mod text;
pub mod config;
pub mod code_loc;
pub mod context;
pub mod sorting;
pub mod paths;
pub mod strset;
pub mod strops;
pub mod syntax;
pub mod fmt;
pub mod graph;
pub mod compression;
pub mod runtime;
pub mod output;
pub mod args;
pub mod project_files;
