use sephera::compression::types::SupportedLanguage;
use sephera::graph::assemble::FileImportData;
use sephera::graph::imports::{extract_imports, import_language};
use sephera::graph::metrics::{compute_metrics, detect_cycles};
use sephera::graph::report::{build_focus_set, build_graph_report};
use sephera::graph::select::GraphError;
use sephera::project_files::{project_file, sort_project_files};
use sephera::graph::render::render_graph;
use sephera::graph::resolve::{
    resolve_c_cpp_import, resolve_go_import, resolve_java_import, resolve_js_ts_import,
    resolve_python_import, resolve_rust_import, simplify_relative_path,
};
use sephera::graph::types::{GraphEdge, GraphFormat, GraphMetrics, GraphNode, GraphQuery, GraphReport, NodeEntry};
use sephera::strset::set_from;

fn known_files(paths: &[&str]) -> Vec<String> {
    let list: Vec<String> = paths.iter().map(|path| (*path).to_owned()).collect();
    set_from(&list)
}

fn sample_report() -> GraphReport {
    GraphReport {
        base_path: String::from("/tmp/test"),
        focus_paths: vec![],
        depth: Some(0),
        query: Some(GraphQuery::DependsOn("src/lib.rs".to_owned())),
        nodes: vec![
            GraphNode {
                file_path: "src/main.rs".to_owned(),
                language: Some(String::from("Rust")),
                imports_count: 1,
                imported_by_count: 0,
            },
            GraphNode {
                file_path: "src/lib.rs".to_owned(),
                language: Some(String::from("Rust")),
                imports_count: 0,
                imported_by_count: 1,
            },
        ],
        edges: vec![GraphEdge {
            from: "src/main.rs".to_owned(),
            to: Some("src/lib.rs".to_owned()),
            import_path: "crate::lib".to_owned(),
            resolved: true,
        }],
        metrics: GraphMetrics {
            total_files: 2,
            total_internal_edges: 1,
            total_external_edges: 0,
            circular_dependencies: 0,
            most_importing: vec![],
            most_imported: vec![],
            cycles: vec![],
        },
    }
}

#[test]
fn markdown_output_contains_diagram() {
    let report = sample_report();
    let md = render_graph(&report, GraphFormat::Markdown).unwrap();
    assert!(md.contains("# Dependency Graph Report"));
    assert!(md.contains("**Depth:** `0`"));
    assert!(md.contains("**Query:** `depends_on:src/lib.rs`"));
    assert!(md.contains("```mermaid"));
    assert!(md.contains("graph LR"));
}

#[test]
fn xml_output_is_structured() {
    let report = sample_report();
    let xml = render_graph(&report, GraphFormat::Xml).unwrap();
    assert!(xml.contains("<?xml version="));
    assert!(xml.contains("<dependency-graph>"));
    assert!(xml.contains("<selection>"));
    assert!(xml.contains("<query>depends_on:src/lib.rs</query>"));
    assert!(xml.contains("<nodes>"));
    assert!(xml.contains("<edges>"));
    assert!(xml.contains("</dependency-graph>"));
}

#[test]
fn dot_output_is_valid() {
    let report = sample_report();
    let dot = render_graph(&report, GraphFormat::Dot).unwrap();
    assert!(dot.contains("digraph dependencies"));
    assert!(dot.contains("rankdir=LR"));
    assert!(dot.contains("->"));
}

#[test]
fn json_is_left_to_the_caller() {
    assert!(render_graph(&sample_report(), GraphFormat::Json).is_none());
}

#[test]
fn xml_escapes_special_characters() {
    let mut report = sample_report();
    report.nodes[0].file_path = String::from("src/a&b<c>.rs");
    let xml = render_graph(&report, GraphFormat::Xml).unwrap();
    assert!(xml.contains("src/a&amp;b&lt;c&gt;.rs"));
    assert!(!xml.contains("a&b<c>"));
}

#[test]
fn rust_simple_use() {
    let source = b"use std::io;\n";
    let imports = extract_imports(source, SupportedLanguage::Rust).unwrap();
    assert_eq!(imports.len(), 1);
    assert_eq!(imports[0].raw_path, "std::io");
    assert_eq!(imports[0].line, 1);
}

#[test]
fn rust_crate_use() {
    let source = b"use crate::core::graph;\n";
    let imports = extract_imports(source, SupportedLanguage::Rust).unwrap();
    assert_eq!(imports.len(), 1);
    assert_eq!(imports[0].raw_path, "crate::core::graph");
}

#[test]
fn rust_grouped_use() {
    let source = b"use std::collections::{HashMap, BTreeMap};\n";
    let imports = extract_imports(source, SupportedLanguage::Rust).unwrap();
    assert_eq!(imports.len(), 2);
    assert_eq!(imports[0].raw_path, "std::collections::HashMap");
    assert_eq!(imports[1].raw_path, "std::collections::BTreeMap");
}

#[test]
fn rust_super_use() {
    let source = b"use super::types::Token;\n";
    let imports = extract_imports(source, SupportedLanguage::Rust).unwrap();
    assert_eq!(imports.len(), 1);
    assert_eq!(imports[0].raw_path, "super::types::Token");
}

#[test]
fn rust_multiple_uses() {
    let source = b"use std::io;\nuse std::fs;\n\nfn main() {}\n";
    let imports = extract_imports(source, SupportedLanguage::Rust).unwrap();
    assert_eq!(imports.len(), 2);
    assert_eq!(imports[0].raw_path, "std::io");
    assert_eq!(imports[1].raw_path, "std::fs");
}

#[test]
fn python_import() {
    let source = b"import os\nimport sys\n";
    let imports = extract_imports(source, SupportedLanguage::Python).unwrap();
    assert_eq!(imports.len(), 2);
    assert_eq!(imports[0].raw_path, "os");
    assert_eq!(imports[1].raw_path, "sys");
}

#[test]
fn python_from_import() {
    let source = b"from pathlib import Path\n";
    let imports = extract_imports(source, SupportedLanguage::Python).unwrap();
    assert_eq!(imports.len(), 1);
    assert_eq!(imports[0].raw_path, "pathlib");
}

#[test]
fn python_parent_relative_from_import() {
    let source = b"from ..shared.util import helper\n";
    let imports = extract_imports(source, SupportedLanguage::Python).unwrap();
    assert_eq!(imports.len(), 1);
    assert_eq!(imports[0].raw_path, "..shared.util");
}

#[test]
fn js_import_from() {
    let source = b"import { foo } from './bar';\n";
    let imports = extract_imports(source, SupportedLanguage::JavaScript).unwrap();
    assert_eq!(imports.len(), 1);
    assert_eq!(imports[0].raw_path, "./bar");
}

#[test]
fn go_single_import() {
    let source = b"package main\n\nimport \"fmt\"\n";
    let imports = extract_imports(source, SupportedLanguage::Go).unwrap();
    assert_eq!(imports.len(), 1);
    assert_eq!(imports[0].raw_path, "fmt");
}

#[test]
fn go_grouped_imports() {
    let source = b"package main\n\nimport (\n\t\"fmt\"\n\t\"os\"\n)\n";
    let imports = extract_imports(source, SupportedLanguage::Go).unwrap();
    assert_eq!(imports.len(), 2);
}

#[test]
fn java_import() {
    let source = b"import java.util.List;\nimport java.io.File;\n\nclass Main {}\n";
    let imports = extract_imports(source, SupportedLanguage::Java).unwrap();
    assert_eq!(imports.len(), 2);
    assert_eq!(imports[0].raw_path, "java.util.List");
    assert_eq!(imports[1].raw_path, "java.io.File");
}

#[test]
fn c_include_local() {
    let source = b"#include \"myheader.h\"\n";
    let imports = extract_imports(source, SupportedLanguage::C).unwrap();
    assert_eq!(imports.len(), 1);
    assert_eq!(imports[0].raw_path, "myheader.h");
}

#[test]
fn c_include_system() {
    let source = b"#include <stdio.h>\n";
    let imports = extract_imports(source, SupportedLanguage::C).unwrap();
    assert_eq!(imports.len(), 1);
    assert_eq!(imports[0].raw_path, "<stdio.h>");
}

#[test]
fn cpp_multiple_includes() {
    let source = b"#include <iostream>\n#include \"utils.h\"\n";
    let imports = extract_imports(source, SupportedLanguage::Cpp).unwrap();
    assert_eq!(imports.len(), 2);
    assert_eq!(imports[0].raw_path, "<iostream>");
    assert_eq!(imports[1].raw_path, "utils.h");
}

#[test]
fn import_lines_count_from_one() {
    let source = b"\n\nuse std::io;\n";
    let imports = extract_imports(source, SupportedLanguage::Rust).unwrap();
    assert_eq!(imports[0].line, 3);
}

#[test]
fn resolves_rust_imports_for_crate_self_and_super_modules() {
    let files = known_files(&[
        "src/main.rs",
        "src/core/graph.rs",
        "src/core/graph/mod.rs",
        "src/core/graph/parser.rs",
        "src/core/graph/types.rs",
    ]);

    assert_eq!(resolve_rust_import("crate::core::graph", "src/main.rs", &files), Some("src/core/graph.rs".to_owned()));
    assert_eq!(resolve_rust_import("self::types", "src/core/graph/mod.rs", &files), Some("src/core/graph/types.rs".to_owned()));
    assert_eq!(
        resolve_rust_import("super::types", "src/core/graph/parser.rs", &files),
        Some("src/core/graph/types.rs".to_owned())
    );
}

#[test]
fn resolves_python_imports_for_absolute_and_relative_modules() {
    let files = known_files(&["pkg/local.py", "pkg/sub/module.py", "pkg/shared/util.py", "pkg/shared/__init__.py"]);

    assert_eq!(resolve_python_import("pkg.local", "pkg/sub/module.py", &files), Some("pkg/local.py".to_owned()));
    assert_eq!(resolve_python_import(".local", "pkg/module.py", &files), Some("pkg/local.py".to_owned()));
    assert_eq!(resolve_python_import("..shared.util", "pkg/sub/module.py", &files), Some("pkg/shared/util.py".to_owned()));
    assert_eq!(resolve_python_import("requests", "pkg/sub/module.py", &files), None);
}

#[test]
fn resolves_js_ts_imports_with_relative_paths_and_index_files() {
    let files = known_files(&["src/main.ts", "src/utils.ts", "src/lib/index.ts", "src/components/button.jsx"]);

    assert_eq!(resolve_js_ts_import("./utils", "src/main.ts", &files), Some("src/utils.ts".to_owned()));
    assert_eq!(resolve_js_ts_import("../lib", "src/features/item.ts", &files), Some("src/lib/index.ts".to_owned()));
    assert_eq!(resolve_js_ts_import("react", "src/main.ts", &files), None);
}

#[test]
fn resolves_go_java_and_c_family_imports() {
    let go_files = known_files(&["internal/app/main.go", "internal/pkg/service.go"]);
    assert_eq!(resolve_go_import("github.com/demo/pkg", &go_files), Some("internal/pkg/service.go".to_owned()));
    assert_eq!(resolve_go_import("fmt", &go_files), None);

    let java_files = known_files(&["src/com/example/utils/Helper.java", "utils/Helper.java"]);
    assert_eq!(
        resolve_java_import("com.example.utils.Helper", &java_files),
        Some("src/com/example/utils/Helper.java".to_owned())
    );
    assert_eq!(resolve_java_import("utils.Helper", &java_files), Some("utils/Helper.java".to_owned()));

    let c_files = known_files(&["src/main.c", "include/util.h", "util.h"]);
    assert_eq!(resolve_c_cpp_import("util.h", "src/main.c", &c_files), Some("util.h".to_owned()));
    assert_eq!(resolve_c_cpp_import("<stdio.h>", "src/main.c", &c_files), None);
}

#[test]
fn simplify_relative_path_works() {
    assert_eq!(simplify_relative_path("src/core", "../utils"), "src/utils");
    assert_eq!(simplify_relative_path("src", "./helpers"), "src/helpers");
    assert_eq!(simplify_relative_path("", "./foo"), "foo");
}

const DEMO_BASE: &str = "/demo";

/// The graph of a project whose files are given by relative path and text.
fn graph_of(
    sources: &[(&str, &str)],
    focus: &[&str],
    depth: Option<u32>,
    query: Option<GraphQuery>,
) -> Result<GraphReport, GraphError> {
    let files = sort_project_files(
        sources
            .iter()
            .map(|(path, text)| project_file(format!("{DEMO_BASE}/{path}"), (*path).to_owned(), text.len() as u64))
            .collect(),
    );
    let mut imports = Vec::new();
    for file in &files {
        let Some(language) = import_language(file.size_bytes, &file.language) else {
            continue;
        };
        let text = sources.iter().find(|(path, _)| *path == file.relative_path).unwrap().1;
        imports.push(FileImportData {
            file_path: file.normalized_relative_path.clone(),
            language: file.language.clone(),
            ts_language: language,
            imports: extract_imports(text.as_bytes(), language).unwrap_or_default(),
        });
    }
    let paths: Vec<String> = files.iter().map(|f| f.normalized_relative_path.clone()).collect();
    let focus: Vec<String> = focus.iter().map(|f| (*f).to_owned()).collect();
    let focus_set = build_focus_set(DEMO_BASE, &focus);
    build_graph_report(DEMO_BASE, &focus_set, &focus, &imports, &set_from(&paths), depth, query)
}

fn node_paths(report: &GraphReport) -> Vec<&str> {
    report.nodes.iter().map(|node| node.file_path.as_str()).collect()
}

#[test]
fn builds_graph_for_rust_project() {
    let report = graph_of(
        &[("src/main.rs", "use crate::utils;\n\nfn main() {}\n"), ("src/utils.rs", "pub fn helper() -> bool { true }\n")],
        &[],
        None,
        None,
    )
    .unwrap();
    assert!(report.nodes.len() >= 2);
    assert!(!report.edges.is_empty());
}

#[test]
fn detects_circular_dependency() {
    let report = graph_of(
        &[("a.rs", "use crate::b;\n\npub fn a() {}\n"), ("b.rs", "use crate::a;\n\npub fn b() {}\n")],
        &[],
        None,
        None,
    )
    .unwrap();
    assert!(report.metrics.circular_dependencies > 0, "should detect circular dependency between a.rs and b.rs");
}

#[test]
fn nested_rust_super_imports_resolve_to_sibling_module() {
    let report = graph_of(
        &[
            ("src/lib.rs", "mod outer;\n"),
            ("src/outer/mod.rs", "mod parser;\nmod types;\n"),
            ("src/outer/parser.rs", "use super::types::Token;\n\npub fn parse(_: Token) {}\n"),
            ("src/outer/types.rs", "pub struct Token;\n"),
        ],
        &[],
        None,
        None,
    )
    .unwrap();
    assert!(report.edges.iter().any(|edge| {
        edge.from == "src/outer/parser.rs" && edge.to.as_deref() == Some("src/outer/types.rs") && edge.resolved
    }));
}

#[test]
fn parent_relative_python_imports_resolve_across_packages() {
    let report = graph_of(
        &[
            ("pkg/app/main.py", "from ..shared.util import helper\n"),
            ("pkg/shared/util.py", "def helper() -> None:\n    pass\n"),
        ],
        &[],
        None,
        None,
    )
    .unwrap();
    assert!(report.edges.iter().any(|edge| {
        edge.from == "pkg/app/main.py" && edge.to.as_deref() == Some("pkg/shared/util.py") && edge.resolved
    }));
}

#[test]
fn focus_and_depth_zero_keep_roots_and_direct_dependencies_only() {
    let report = graph_of(
        &[
            ("src/main.rs", "use crate::middle;\n"),
            ("src/middle.rs", "use crate::leaf;\n"),
            ("src/leaf.rs", "pub fn leaf() {}\n"),
        ],
        &["src/main.rs"],
        Some(0),
        None,
    )
    .unwrap();
    assert_eq!(node_paths(&report), vec!["src/main.rs", "src/middle.rs"]);
    assert_eq!(report.metrics.total_files, 2);
    assert_eq!(report.metrics.total_internal_edges, 1);
    assert_eq!(report.metrics.most_imported[0].file_path, "src/middle.rs");
}

#[test]
fn depends_on_query_returns_reverse_impact_subgraph() {
    let report = graph_of(
        &[
            ("src/main.rs", "use crate::service;\n"),
            ("src/service.rs", "use crate::util;\n"),
            ("src/util.rs", "pub fn util() {}\n"),
        ],
        &[],
        Some(1),
        Some(GraphQuery::DependsOn("src/util.rs".to_owned())),
    )
    .unwrap();
    assert_eq!(node_paths(&report), vec!["src/main.rs", "src/service.rs", "src/util.rs"]);
    assert_eq!(report.query, Some(GraphQuery::DependsOn("src/util.rs".to_owned())));
    assert_eq!(report.depth, Some(1));
}

#[test]
fn depends_on_query_requires_existing_node() {
    let error = graph_of(
        &[("src/main.rs", "fn main() {}\n")],
        &[],
        None,
        Some(GraphQuery::DependsOn("src/missing.rs".to_owned())),
    )
    .unwrap_err();
    assert!(error.message().contains("did not resolve to an analyzed graph node"));
}

#[test]
fn empty_directory_produces_empty_graph() {
    let report = graph_of(&[], &[], None, None).unwrap();
    assert!(report.nodes.is_empty());
    assert!(report.edges.is_empty());
}

#[test]
fn report_edges_join_report_nodes() {
    let report = graph_of(
        &[
            ("src/main.rs", "use crate::middle;\nuse std::io;\n"),
            ("src/middle.rs", "use crate::leaf;\n"),
            ("src/leaf.rs", "pub fn leaf() {}\n"),
        ],
        &["src/main.rs"],
        Some(0),
        None,
    )
    .unwrap();
    let nodes = node_paths(&report);
    assert!(!report.edges.is_empty());
    for edge in &report.edges {
        assert!(nodes.contains(&edge.from.as_str()));
        if edge.resolved {
            assert!(nodes.contains(&edge.to.as_deref().unwrap()));
        }
    }
}

#[test]
fn each_cycle_is_reported_once() {
    let report = graph_of(
        &[
            ("a.rs", "use crate::b;\n"),
            ("b.rs", "use crate::c;\nuse crate::a;\n"),
            ("c.rs", "use crate::b;\n"),
        ],
        &[],
        None,
        None,
    )
    .unwrap();
    assert_eq!(report.metrics.circular_dependencies, 2);
    assert_eq!(report.metrics.cycles.len(), 2);
    let mut keys: Vec<Vec<String>> = report
        .metrics
        .cycles
        .iter()
        .map(|c| {
            let mut k = c.clone();
            k.sort();
            k
        })
        .collect();
    keys.dedup();
    assert_eq!(keys.len(), 2);
}

#[test]
fn cycle_behind_other_files_is_found() {
    let report = graph_of(
        &[
            ("x.rs", "use crate::a;\nuse crate::d;\n"),
            ("a.rs", "use crate::b;\n"),
            ("b.rs", "use crate::c;\n"),
            ("c.rs", "use crate::a;\n"),
            ("d.rs", "pub fn d() {}\n"),
        ],
        &[],
        None,
        None,
    )
    .unwrap();
    assert_eq!(report.metrics.circular_dependencies, 1);
}

#[test]
fn acyclic_graph_reports_no_cycle() {
    let report = graph_of(
        &[
            ("top.rs", "use crate::left;\nuse crate::right;\n"),
            ("left.rs", "use crate::bottom;\n"),
            ("right.rs", "use crate::bottom;\n"),
            ("bottom.rs", "pub fn b() {}\n"),
        ],
        &[],
        None,
        None,
    )
    .unwrap();
    assert_eq!(report.metrics.circular_dependencies, 0);
}

fn entry(path: &str, imports: &[&str]) -> NodeEntry {
    NodeEntry {
        file_path: path.to_owned(),
        language: None,
        imports: imports.iter().map(|p| (*p).to_owned()).collect(),
        imported_by: Vec::new(),
    }
}

#[test]
fn cycle_detection_reports_every_cycle_the_walk_finds() {
    let nodes = vec![
        entry("a", &["b"]),
        entry("b", &["a", "c"]),
        entry("c", &["d"]),
        entry("d", &["c", "b"]),
    ];
    let cycles = detect_cycles(&nodes);
    let expected: Vec<Vec<String>> = vec![
        vec!["a".into(), "b".into(), "a".into()],
        vec!["c".into(), "d".into(), "c".into()],
        vec!["b".into(), "c".into(), "d".into(), "b".into()],
    ];
    assert_eq!(cycles, expected);
    let metrics = compute_metrics(&nodes, &Vec::new());
    assert_eq!(metrics.cycles, expected);
    assert_eq!(metrics.circular_dependencies, 3);
}
