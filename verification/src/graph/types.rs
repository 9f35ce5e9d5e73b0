//! The data of a dependency graph.
use vstd::prelude::*;

verus! {

/// A single import statement extracted from a source file.
#[derive(Debug, Clone, PartialEq, Eq)]
pub struct ImportStatement {
    /// The import path as written in the source (`std::io`, `./utils`, `fmt`).
    pub raw_path: String,
    /// The line where the import appears, counted from 1.
    pub line: u64,
}

/// Imports extracted from a single source file.
#[derive(Debug, Clone, PartialEq, Eq)]
pub struct FileImports {
    /// Normalized relative path of the source file.
    pub file_path: String,
    /// Detected language name of the file.
    pub language: Option<String>,
    /// The import statements of the file, in source order.
    pub imports: Vec<ImportStatement>,
}

/// An edge of the dependency graph.
#[derive(Debug, Clone, PartialEq, Eq)]
pub struct GraphEdge {
    /// The file that holds the import.
    pub from: String,
    /// The imported file, when the import resolves to a file of the project.
    pub to: Option<String>,
    /// The import path as written in the source.
    pub import_path: String,
    /// Whether the import resolved to a file of the project.
    pub resolved: bool,
}

/// A node of the dependency graph with its degrees.
#[derive(Debug, Clone, PartialEq, Eq)]
pub struct GraphNode {
    pub file_path: String,
    pub language: Option<String>,
    /// Number of imports this file makes (out-degree).
    pub imports_count: u64,
    /// Number of imports of this file by others (in-degree).
    pub imported_by_count: u64,
}

/// A file paired with a count, for rankings.
#[derive(Debug, Clone, PartialEq, Eq)]
pub struct FileMetric {
    pub file_path: String,
    pub count: u64,
}

/// Metrics computed from a dependency graph.
#[derive(Debug, Clone, PartialEq, Eq)]
pub struct GraphMetrics {
    pub total_files: u64,
    pub total_internal_edges: u64,
    pub total_external_edges: u64,
    pub circular_dependencies: u64,
    /// Files with the most imports, at most ten.
    pub most_importing: Vec<FileMetric>,
    /// Files imported most often, at most ten.
    pub most_imported: Vec<FileMetric>,
    /// Circular dependency chains; each ends with the file it starts with.
    pub cycles: Vec<Vec<String>>,
}

/// Query mode for narrowing a graph.
#[derive(Debug, Clone, PartialEq, Eq)]
pub enum GraphQuery {
    /// Everything that depends on the given file.
    DependsOn(String),
}

/// The complete dependency graph report.
#[derive(Debug, Clone, PartialEq, Eq)]
pub struct GraphReport {
    pub base_path: String,
    pub focus_paths: Vec<String>,
    pub depth: Option<u32>,
    pub query: Option<GraphQuery>,
    pub nodes: Vec<GraphNode>,
    pub edges: Vec<GraphEdge>,
    pub metrics: GraphMetrics,
}

/// Output format of the graph command.
#[derive(Debug, Clone, Copy, PartialEq, Eq, Structural)]
pub enum GraphFormat {
    Json,
    Markdown,
    Xml,
    Dot,
}

/// One file of the graph under construction, with its neighbours in the
/// order the imports were met.
#[derive(Debug, Clone, PartialEq, Eq)]
pub struct NodeEntry {
    pub file_path: String,
    pub language: Option<String>,
    pub imports: Vec<String>,
    pub imported_by: Vec<String>,
}

} // verus!
