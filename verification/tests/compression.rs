use sephera::compression::extract::{compress_source, extract_compressed, extraction_rules};
use sephera::compression::types::{CompressedOutput, CompressionMode, SupportedLanguage};
use sephera::syntax::{new_parser, parse_source};

fn compress(source: &str, language: SupportedLanguage, mode: CompressionMode) -> CompressedOutput {
    let bytes = source.as_bytes();
    let tree = parse_source(bytes, language).unwrap();
    extract_compressed(bytes, &tree, language, mode)
}

#[test]
fn compress_source_rust_signatures() {
    let source = b"use std::io;\n\npub fn run() -> Result<(), Error> {\n    Ok(())\n}\n";
    let output = compress_source(source, SupportedLanguage::Rust, CompressionMode::Signatures).unwrap();
    assert!(output.content.contains("use std::io"));
    assert!(output.content.contains("pub fn run()"));
    assert!(output.content.contains("{ … }"));
    assert!(!output.content.contains("Ok(())"));
}

#[test]
fn compress_source_none_returns_full() {
    let source = b"fn main() { println!(\"hi\"); }\n";
    let output = compress_source(source, SupportedLanguage::Rust, CompressionMode::Disabled).unwrap();
    assert_eq!(output.content.as_bytes(), source);
    assert_eq!(output.items_extracted, 0);
}

#[test]
fn compress_source_python_class() {
    let source = b"class Foo:\n    def bar(self):\n        return 42\n";
    let output = compress_source(source, SupportedLanguage::Python, CompressionMode::Signatures).unwrap();
    assert!(output.content.contains("class Foo"));
    assert!(!output.content.contains("return 42"));
}

#[test]
fn compress_source_go_function() {
    let source = b"package main\n\nfunc Hello() string {\n\treturn \"hello\"\n}\n";
    let output = compress_source(source, SupportedLanguage::Go, CompressionMode::Signatures).unwrap();
    assert!(output.content.contains("package main"));
    assert!(output.content.contains("func Hello()"));
    assert!(output.content.contains("{ … }"));
}

#[test]
fn creates_parser_for_all_languages() {
    for language in SupportedLanguage::all() {
        let parser = new_parser(language);
        assert!(parser.is_some(), "failed to create parser for {language:?}");
    }
}

#[test]
fn resolves_language_names() {
    assert_eq!(SupportedLanguage::from_language_name("Rust"), Some(SupportedLanguage::Rust));
    assert_eq!(SupportedLanguage::from_language_name("Python"), Some(SupportedLanguage::Python));
    assert_eq!(SupportedLanguage::from_language_name("TypeScript"), Some(SupportedLanguage::TypeScript));
    assert_eq!(SupportedLanguage::from_language_name("JavaScript"), Some(SupportedLanguage::JavaScript));
    assert_eq!(SupportedLanguage::from_language_name("Go"), Some(SupportedLanguage::Go));
    assert_eq!(SupportedLanguage::from_language_name("Java"), Some(SupportedLanguage::Java));
    assert_eq!(SupportedLanguage::from_language_name("C++"), Some(SupportedLanguage::Cpp));
    assert_eq!(SupportedLanguage::from_language_name("C"), Some(SupportedLanguage::C));
}

#[test]
fn returns_none_for_unsupported_languages() {
    assert_eq!(SupportedLanguage::from_language_name("TOML"), None);
    assert_eq!(SupportedLanguage::from_language_name("YAML"), None);
    assert_eq!(SupportedLanguage::from_language_name("Markdown"), None);
}

#[test]
fn parses_simple_rust_source() {
    let tree = parse_source(b"fn main() {}", SupportedLanguage::Rust).unwrap();
    assert!(!tree.has_error);
}

#[test]
fn parses_simple_python_source() {
    let tree = parse_source(b"def greet(name):\n    print(name)\n", SupportedLanguage::Python).unwrap();
    assert!(!tree.has_error);
}

#[test]
fn compression_mode_names() {
    assert_eq!(CompressionMode::Disabled.as_str(), "none");
    assert_eq!(CompressionMode::Signatures.as_str(), "signatures");
    assert_eq!(CompressionMode::Skeleton.as_str(), "skeleton");
    assert!(!CompressionMode::Disabled.is_enabled());
    assert!(CompressionMode::Skeleton.is_enabled());
}

#[test]
fn rust_signatures_elides_function_body() {
    let result = compress("fn add(a: i32, b: i32) -> i32 {\n    a + b\n}\n", SupportedLanguage::Rust, CompressionMode::Signatures);
    assert!(result.content.contains("fn add(a: i32, b: i32) -> i32"));
    assert!(result.content.contains("{ … }"));
    assert!(!result.content.contains("a + b"));
    assert_eq!(result.items_extracted, 1);
}

#[test]
fn rust_keeps_use_declarations() {
    let result = compress("use std::collections::HashMap;\n\nfn main() {}\n", SupportedLanguage::Rust, CompressionMode::Signatures);
    assert!(result.content.contains("use std::collections::HashMap;"));
}

#[test]
fn rust_keeps_struct_definitions() {
    let result = compress("pub struct Point {\n    pub x: f64,\n    pub y: f64,\n}\n", SupportedLanguage::Rust, CompressionMode::Signatures);
    assert!(result.content.contains("pub struct Point"));
    assert!(result.content.contains("pub x: f64"));
}

#[test]
fn rust_keeps_enum_definitions() {
    let result = compress("pub enum Color {\n    Red,\n    Green,\n    Blue,\n}\n", SupportedLanguage::Rust, CompressionMode::Signatures);
    assert!(result.content.contains("pub enum Color"));
    assert!(result.content.contains("Red"));
}

#[test]
fn rust_none_mode_returns_full_source() {
    let source = "fn main() {\n    println!(\"hello\");\n}\n";
    let result = compress(source, SupportedLanguage::Rust, CompressionMode::Disabled);
    assert_eq!(result.content, source);
    assert_eq!(result.items_extracted, 0);
}

#[test]
fn python_signatures_elides_function_body() {
    let result = compress("def greet(name: str) -> str:\n    return f\"Hello {name}\"\n", SupportedLanguage::Python, CompressionMode::Signatures);
    assert!(result.content.contains("def greet("));
    assert!(!result.content.contains("return"));
}

#[test]
fn python_keeps_imports() {
    let result = compress("import os\nfrom pathlib import Path\n\ndef main():\n    pass\n", SupportedLanguage::Python, CompressionMode::Signatures);
    assert!(result.content.contains("import os"));
    assert!(result.content.contains("from pathlib import Path"));
}

#[test]
fn go_signatures_elides_function_body() {
    let result = compress("package main\n\nfunc Add(a int, b int) int {\n\treturn a + b\n}\n", SupportedLanguage::Go, CompressionMode::Signatures);
    assert!(result.content.contains("func Add(a int, b int) int"));
    assert!(result.content.contains("{ … }"));
    assert!(!result.content.contains("return a + b"));
}

#[test]
fn go_keeps_package_and_imports() {
    let result = compress(
        "package main\n\nimport \"fmt\"\n\nfunc main() {\n\tfmt.Println(\"hi\")\n}\n",
        SupportedLanguage::Go,
        CompressionMode::Signatures,
    );
    assert!(result.content.contains("package main"));
    assert!(result.content.contains("import \"fmt\""));
}

#[test]
fn javascript_signatures_elides_function_body() {
    let result = compress("function greet(name) {\n  return `Hello ${name}`;\n}\n", SupportedLanguage::JavaScript, CompressionMode::Signatures);
    assert!(result.content.contains("function greet(name)"));
    assert!(result.content.contains("{ … }"));
}

#[test]
fn javascript_keeps_imports() {
    let result = compress("import { foo } from './bar';\n\nfunction main() {}\n", SupportedLanguage::JavaScript, CompressionMode::Signatures);
    assert!(result.content.contains("import { foo } from './bar'"));
}

#[test]
fn reports_parse_errors() {
    let result = compress("fn broken( {\n", SupportedLanguage::Rust, CompressionMode::Signatures);
    assert!(result.had_parse_errors);
}

#[test]
fn extracts_multiple_items() {
    let result = compress(
        "use std::io;\n\npub struct Config {\n    pub path: String,\n}\n\npub fn run(config: Config) -> Result<(), String> {\n    Ok(())\n}\n\npub fn helper() -> bool {\n    true\n}\n",
        SupportedLanguage::Rust,
        CompressionMode::Signatures,
    );
    assert!(result.items_extracted >= 4);
    assert!(result.content.contains("use std::io"));
    assert!(result.content.contains("pub struct Config"));
    assert!(result.content.contains("pub fn run("));
    assert!(result.content.contains("pub fn helper("));
}

#[test]
fn rule_kind_lists_do_not_overlap() {
    let all = [
        SupportedLanguage::Rust,
        SupportedLanguage::Python,
        SupportedLanguage::TypeScript,
        SupportedLanguage::JavaScript,
        SupportedLanguage::Go,
        SupportedLanguage::Java,
        SupportedLanguage::Cpp,
        SupportedLanguage::C,
    ];
    for language in all {
        let rules = extraction_rules(language);
        for kind in &rules.body_nodes {
            assert!(!rules.keep_nodes.contains(kind));
            assert!(!rules.skeleton_nodes.contains(kind));
        }
        for kind in &rules.keep_nodes {
            assert!(!rules.skeleton_nodes.contains(kind));
        }
        let has_skeleton = matches!(
            language,
            SupportedLanguage::Python | SupportedLanguage::TypeScript | SupportedLanguage::JavaScript
        );
        assert_eq!(!rules.skeleton_nodes.is_empty(), has_skeleton);
    }
    let c = extraction_rules(SupportedLanguage::C);
    let cpp = extraction_rules(SupportedLanguage::Cpp);
    assert_eq!(c.body_nodes, cpp.body_nodes);
    assert_eq!(c.keep_nodes, cpp.keep_nodes);
    assert_eq!(c.body_field_names, cpp.body_field_names);
    assert_eq!(c.skeleton_nodes, cpp.skeleton_nodes);
}

#[test]
fn skeleton_extends_signatures() {
    let python: &[u8] = b"import os\n\ndef main():\n    return 1\n\nif __name__ == '__main__':\n    main()\n";
    let sig = compress_source(python, SupportedLanguage::Python, CompressionMode::Signatures).unwrap();
    let skel = compress_source(python, SupportedLanguage::Python, CompressionMode::Skeleton).unwrap();
    assert_eq!(sig.items_extracted, 2);
    assert_eq!(skel.items_extracted, 3);
    assert_eq!(sig.had_parse_errors, skel.had_parse_errors);
    assert!(skel.content.starts_with(&sig.content));

    let rust: &[u8] = b"use std::io;\n\nfn main() {\n    println!(\"hi\");\n}\n";
    let sig = compress_source(rust, SupportedLanguage::Rust, CompressionMode::Signatures).unwrap();
    let skel = compress_source(rust, SupportedLanguage::Rust, CompressionMode::Skeleton).unwrap();
    assert_eq!(sig, skel);

    let none = compress_source(rust, SupportedLanguage::Rust, CompressionMode::Disabled).unwrap();
    assert_eq!(none.content, String::from_utf8_lossy(rust).into_owned());
    assert_eq!(none.items_extracted, 0);
    assert!(!none.had_parse_errors);
}
