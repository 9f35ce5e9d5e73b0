//! Compressing a source file to its outline: the top-level declarations of
//! its syntax tree, with bodies elided as `{ … }`.
use vstd::prelude::*;
use vstd::string::*;
use crate::compression::types::{CompressedOutput, CompressionMode, SupportedLanguage};
use crate::graph::imports::{node_text, node_text_spec, ParseFailure};
use crate::paths::{join_seq, join_strings, views};
use crate::strops::{trim_end, trim_end_spec};
use crate::syntax::{node_of_record, nodes_well_formed, parse_source, syntax_tree, tree_of_records, NodeRecordView, SyntaxNode, SyntaxTree};
use crate::text::{decode_lossy, lossy_text, str_eq};

verus! {

/// The node kinds that matter when compressing a language.
pub struct ExtractionRules {
    /// Kinds whose signature is kept and whose body is elided.
    pub body_nodes: Vec<&'static str>,
    /// Kinds kept in full.
    pub keep_nodes: Vec<&'static str>,
    /// Kinds of the body child to elide.
    pub body_field_names: Vec<&'static str>,
    /// Kinds kept with elided bodies in skeleton mode only.
    pub skeleton_nodes: Vec<&'static str>,
}

pub open spec fn strs(v: Seq<&'static str>) -> Seq<Seq<char>> {
    v.map_values(|s: &'static str| s@)
}

/// The rules of a language as plain values: body kinds, kept kinds, body
/// child kinds, skeleton kinds.
pub open spec fn rules_spec(language: SupportedLanguage) -> (Seq<Seq<char>>, Seq<Seq<char>>, Seq<Seq<char>>, Seq<Seq<char>>) {
    match language {
        SupportedLanguage::Rust => (
            seq!["function_item"@, "impl_item"@, "trait_item"@],
            seq!["use_declaration"@, "struct_item"@, "enum_item"@, "type_item"@, "const_item"@, "static_item"@,
                "mod_item"@, "extern_crate_declaration"@, "attribute_item"@, "macro_definition"@],
            seq!["block"@, "declaration_list"@],
            seq![],
        ),
        SupportedLanguage::Python => (
            seq!["function_definition"@, "class_definition"@],
            seq!["import_statement"@, "import_from_statement"@, "global_statement"@, "expression_statement"@],
            seq!["block"@, "body"@],
            seq!["if_statement"@, "for_statement"@, "while_statement"@],
        ),
        SupportedLanguage::TypeScript => (
            seq!["function_declaration"@, "method_definition"@, "arrow_function"@, "class_declaration"@],
            seq!["import_statement"@, "export_statement"@, "interface_declaration"@, "type_alias_declaration"@,
                "enum_declaration"@, "lexical_declaration"@, "variable_declaration"@],
            seq!["statement_block"@, "body"@, "class_body"@],
            seq!["if_statement"@, "for_statement"@],
        ),
        SupportedLanguage::JavaScript => (
            seq!["function_declaration"@, "method_definition"@, "arrow_function"@, "class_declaration"@],
            seq!["import_statement"@, "export_statement"@, "lexical_declaration"@, "variable_declaration"@],
            seq!["statement_block"@, "body"@, "class_body"@],
            seq!["if_statement"@, "for_statement"@],
        ),
        SupportedLanguage::Go => (
            seq!["function_declaration"@, "method_declaration"@],
            seq!["import_declaration"@, "package_clause"@, "type_declaration"@, "const_declaration"@, "var_declaration"@],
            seq!["block"@, "body"@],
            seq![],
        ),
        SupportedLanguage::Java => (
            seq!["method_declaration"@, "constructor_declaration"@, "class_declaration"@],
            seq!["import_declaration"@, "package_declaration"@, "interface_declaration"@, "enum_declaration"@,
                "annotation_type_declaration"@, "field_declaration"@],
            seq!["block"@, "body"@, "class_body"@],
            seq![],
        ),
        SupportedLanguage::Cpp | SupportedLanguage::C => (
            seq!["function_definition"@, "template_declaration"@],
            seq!["preproc_include"@, "preproc_def"@, "preproc_ifdef"@, "type_definition"@, "declaration"@,
                "struct_specifier"@, "enum_specifier"@, "namespace_definition"@, "using_declaration"@],
            seq!["compound_statement"@, "body"@],
            seq![],
        ),
    }
}

pub open spec fn rules_view(r: ExtractionRules) -> (Seq<Seq<char>>, Seq<Seq<char>>, Seq<Seq<char>>, Seq<Seq<char>>) {
    (strs(r.body_nodes@), strs(r.keep_nodes@), strs(r.body_field_names@), strs(r.skeleton_nodes@))
}

/// The extraction rules of a language.
pub fn extraction_rules(language: SupportedLanguage) -> (r: ExtractionRules)
    ensures
        rules_view(r) == rules_spec(language),
{
    let r = match language {
        SupportedLanguage::Rust => ExtractionRules {
            body_nodes: vec!["function_item", "impl_item", "trait_item"],
            keep_nodes: vec!["use_declaration", "struct_item", "enum_item", "type_item", "const_item", "static_item",
                "mod_item", "extern_crate_declaration", "attribute_item", "macro_definition"],
            body_field_names: vec!["block", "declaration_list"],
            skeleton_nodes: vec![],
        },
        SupportedLanguage::Python => ExtractionRules {
            body_nodes: vec!["function_definition", "class_definition"],
            keep_nodes: vec!["import_statement", "import_from_statement", "global_statement", "expression_statement"],
            body_field_names: vec!["block", "body"],
            skeleton_nodes: vec!["if_statement", "for_statement", "while_statement"],
        },
        SupportedLanguage::TypeScript => ExtractionRules {
            body_nodes: vec!["function_declaration", "method_definition", "arrow_function", "class_declaration"],
            keep_nodes: vec!["import_statement", "export_statement", "interface_declaration", "type_alias_declaration",
                "enum_declaration", "lexical_declaration", "variable_declaration"],
            body_field_names: vec!["statement_block", "body", "class_body"],
            skeleton_nodes: vec!["if_statement", "for_statement"],
        },
        SupportedLanguage::JavaScript => ExtractionRules {
            body_nodes: vec!["function_declaration", "method_definition", "arrow_function", "class_declaration"],
            keep_nodes: vec!["import_statement", "export_statement", "lexical_declaration", "variable_declaration"],
            body_field_names: vec!["statement_block", "body", "class_body"],
            skeleton_nodes: vec!["if_statement", "for_statement"],
        },
        SupportedLanguage::Go => ExtractionRules {
            body_nodes: vec!["function_declaration", "method_declaration"],
            keep_nodes: vec!["import_declaration", "package_clause", "type_declaration", "const_declaration", "var_declaration"],
            body_field_names: vec!["block", "body"],
            skeleton_nodes: vec![],
        },
        SupportedLanguage::Java => ExtractionRules {
            body_nodes: vec!["method_declaration", "constructor_declaration", "class_declaration"],
            keep_nodes: vec!["import_declaration", "package_declaration", "interface_declaration", "enum_declaration",
                "annotation_type_declaration", "field_declaration"],
            body_field_names: vec!["block", "body", "class_body"],
            skeleton_nodes: vec![],
        },
        SupportedLanguage::Cpp | SupportedLanguage::C => ExtractionRules {
            body_nodes: vec!["function_definition", "template_declaration"],
            keep_nodes: vec!["preproc_include", "preproc_def", "preproc_ifdef", "type_definition", "declaration",
                "struct_specifier", "enum_specifier", "namespace_definition", "using_declaration"],
            body_field_names: vec!["compound_statement", "body"],
            skeleton_nodes: vec![],
        },
    };
    assert(rules_view(r) =~~= rules_spec(language));
    r
}

/// No element of `a` occurs in `b`.
pub open spec fn disjoint_kinds(a: Seq<Seq<char>>, b: Seq<Seq<char>>) -> bool {
    forall|i: int, j: int| 0 <= i < a.len() && 0 <= j < b.len() ==> a[i] != b[j]
}

/// The kind lists of these rules share no kind.
proof fn lemma_rust_kinds_disjoint(language: SupportedLanguage)
    requires
        language is Rust,
    ensures
        disjoint_kinds(rules_spec(language).0, rules_spec(language).1),
        disjoint_kinds(rules_spec(language).0, rules_spec(language).3),
        disjoint_kinds(rules_spec(language).1, rules_spec(language).3),
{
    reveal_strlit("attribute_item");
    reveal_strlit("const_item");
    reveal_strlit("enum_item");
    reveal_strlit("extern_crate_declaration");
    reveal_strlit("function_item");
    reveal_strlit("impl_item");
    reveal_strlit("macro_definition");
    reveal_strlit("mod_item");
    reveal_strlit("static_item");
    reveal_strlit("struct_item");
    reveal_strlit("trait_item");
    reveal_strlit("type_item");
    reveal_strlit("use_declaration");
    assert("attribute_item"@.len() == 14);
    assert("const_item"@.len() == 10);
    assert("enum_item"@.len() == 9);
    assert("extern_crate_declaration"@.len() == 24);
    assert("function_item"@.len() == 13);
    assert("impl_item"@.len() == 9);
    assert("macro_definition"@.len() == 16);
    assert("mod_item"@.len() == 8);
    assert("static_item"@.len() == 11);
    assert("struct_item"@.len() == 11);
    assert("trait_item"@.len() == 10);
    assert("type_item"@.len() == 9);
    assert("use_declaration"@.len() == 15);
    let (body, keep, _fields, skeleton) = rules_spec(language);
    assert(body.len() == 3);
    assert(body[0] == "function_item"@);
    assert(body[1] == "impl_item"@);
    assert(body[2] == "trait_item"@);
    assert(keep.len() == 10);
    assert(keep[0] == "use_declaration"@);
    assert(keep[1] == "struct_item"@);
    assert(keep[2] == "enum_item"@);
    assert(keep[3] == "type_item"@);
    assert(keep[4] == "const_item"@);
    assert(keep[5] == "static_item"@);
    assert(keep[6] == "mod_item"@);
    assert(keep[7] == "extern_crate_declaration"@);
    assert(keep[8] == "attribute_item"@);
    assert(keep[9] == "macro_definition"@);
    assert(skeleton.len() == 0);
    assert("impl_item"@[0] != "enum_item"@[0]);
    assert("impl_item"@[0] != "type_item"@[0]);
    assert("trait_item"@[0] != "const_item"@[0]);
    assert forall|i: int, j: int| 0 <= i < body.len() && 0 <= j < keep.len() implies body[i] != keep[j] by {
        assert(i == 0 || i == 1 || i == 2);
        assert(j == 0 || j == 1 || j == 2 || j == 3 || j == 4 || j == 5 || j == 6 || j == 7 || j == 8 || j == 9);
    }
}

/// The kind lists of these rules share no kind.
proof fn lemma_python_kinds_disjoint(language: SupportedLanguage)
    requires
        language is Python,
    ensures
        disjoint_kinds(rules_spec(language).0, rules_spec(language).1),
        disjoint_kinds(rules_spec(language).0, rules_spec(language).3),
        disjoint_kinds(rules_spec(language).1, rules_spec(language).3),
{
    reveal_strlit("class_definition");
    reveal_strlit("expression_statement");
    reveal_strlit("for_statement");
    reveal_strlit("function_definition");
    reveal_strlit("global_statement");
    reveal_strlit("if_statement");
    reveal_strlit("import_from_statement");
    reveal_strlit("import_statement");
    reveal_strlit("while_statement");
    assert("class_definition"@.len() == 16);
    assert("expression_statement"@.len() == 20);
    assert("for_statement"@.len() == 13);
    assert("function_definition"@.len() == 19);
    assert("global_statement"@.len() == 16);
    assert("if_statement"@.len() == 12);
    assert("import_from_statement"@.len() == 21);
    assert("import_statement"@.len() == 16);
    assert("while_statement"@.len() == 15);
    let (body, keep, _fields, skeleton) = rules_spec(language);
    assert(body.len() == 2);
    assert(body[0] == "function_definition"@);
    assert(body[1] == "class_definition"@);
    assert(keep.len() == 4);
    assert(keep[0] == "import_statement"@);
    assert(keep[1] == "import_from_statement"@);
    assert(keep[2] == "global_statement"@);
    assert(keep[3] == "expression_statement"@);
    assert(skeleton.len() == 3);
    assert(skeleton[0] == "if_statement"@);
    assert(skeleton[1] == "for_statement"@);
    assert(skeleton[2] == "while_statement"@);
    assert("class_definition"@[0] != "import_statement"@[0]);
    assert("class_definition"@[0] != "global_statement"@[0]);
    assert forall|i: int, j: int| 0 <= i < body.len() && 0 <= j < keep.len() implies body[i] != keep[j] by {
        assert(i == 0 || i == 1);
        assert(j == 0 || j == 1 || j == 2 || j == 3);
    }
    assert forall|i: int, j: int| 0 <= i < body.len() && 0 <= j < skeleton.len() implies body[i] != skeleton[j] by {
        assert(i == 0 || i == 1);
        assert(j == 0 || j == 1 || j == 2);
    }
    assert forall|i: int, j: int| 0 <= i < keep.len() && 0 <= j < skeleton.len() implies keep[i] != skeleton[j] by {
        assert(i == 0 || i == 1 || i == 2 || i == 3);
        assert(j == 0 || j == 1 || j == 2);
    }
}

/// The kind lists of these rules share no kind.
proof fn lemma_typescript_kinds_disjoint(language: SupportedLanguage)
    requires
        language is TypeScript,
    ensures
        disjoint_kinds(rules_spec(language).0, rules_spec(language).1),
        disjoint_kinds(rules_spec(language).0, rules_spec(language).3),
        disjoint_kinds(rules_spec(language).1, rules_spec(language).3),
{
    reveal_strlit("arrow_function");
    reveal_strlit("class_declaration");
    reveal_strlit("enum_declaration");
    reveal_strlit("export_statement");
    reveal_strlit("for_statement");
    reveal_strlit("function_declaration");
    reveal_strlit("if_statement");
    reveal_strlit("import_statement");
    reveal_strlit("interface_declaration");
    reveal_strlit("lexical_declaration");
    reveal_strlit("method_definition");
    reveal_strlit("type_alias_declaration");
    reveal_strlit("variable_declaration");
    assert("arrow_function"@.len() == 14);
    assert("class_declaration"@.len() == 17);
    assert("enum_declaration"@.len() == 16);
    assert("export_statement"@.len() == 16);
    assert("for_statement"@.len() == 13);
    assert("function_declaration"@.len() == 20);
    assert("if_statement"@.len() == 12);
    assert("import_statement"@.len() == 16);
    assert("interface_declaration"@.len() == 21);
    assert("lexical_declaration"@.len() == 19);
    assert("method_definition"@.len() == 17);
    assert("type_alias_declaration"@.len() == 22);
    assert("variable_declaration"@.len() == 20);
    let (body, keep, _fields, skeleton) = rules_spec(language);
    assert(body.len() == 4);
    assert(body[0] == "function_declaration"@);
    assert(body[1] == "method_definition"@);
    assert(body[2] == "arrow_function"@);
    assert(body[3] == "class_declaration"@);
    assert(keep.len() == 7);
    assert(keep[0] == "import_statement"@);
    assert(keep[1] == "export_statement"@);
    assert(keep[2] == "interface_declaration"@);
    assert(keep[3] == "type_alias_declaration"@);
    assert(keep[4] == "enum_declaration"@);
    assert(keep[5] == "lexical_declaration"@);
    assert(keep[6] == "variable_declaration"@);
    assert(skeleton.len() == 2);
    assert(skeleton[0] == "if_statement"@);
    assert(skeleton[1] == "for_statement"@);
    assert("function_declaration"@[0] != "variable_declaration"@[0]);
    assert forall|i: int, j: int| 0 <= i < body.len() && 0 <= j < keep.len() implies body[i] != keep[j] by {
        assert(i == 0 || i == 1 || i == 2 || i == 3);
        assert(j == 0 || j == 1 || j == 2 || j == 3 || j == 4 || j == 5 || j == 6);
    }
    assert forall|i: int, j: int| 0 <= i < body.len() && 0 <= j < skeleton.len() implies body[i] != skeleton[j] by {
        assert(i == 0 || i == 1 || i == 2 || i == 3);
        assert(j == 0 || j == 1);
    }
    assert forall|i: int, j: int| 0 <= i < keep.len() && 0 <= j < skeleton.len() implies keep[i] != skeleton[j] by {
        assert(i == 0 || i == 1 || i == 2 || i == 3 || i == 4 || i == 5 || i == 6);
        assert(j == 0 || j == 1);
    }
}

/// The kind lists of these rules share no kind.
proof fn lemma_javascript_kinds_disjoint(language: SupportedLanguage)
    requires
        language is JavaScript,
    ensures
        disjoint_kinds(rules_spec(language).0, rules_spec(language).1),
        disjoint_kinds(rules_spec(language).0, rules_spec(language).3),
        disjoint_kinds(rules_spec(language).1, rules_spec(language).3),
{
    reveal_strlit("arrow_function");
    reveal_strlit("class_declaration");
    reveal_strlit("export_statement");
    reveal_strlit("for_statement");
    reveal_strlit("function_declaration");
    reveal_strlit("if_statement");
    reveal_strlit("import_statement");
    reveal_strlit("lexical_declaration");
    reveal_strlit("method_definition");
    reveal_strlit("variable_declaration");
    assert("arrow_function"@.len() == 14);
    assert("class_declaration"@.len() == 17);
    assert("export_statement"@.len() == 16);
    assert("for_statement"@.len() == 13);
    assert("function_declaration"@.len() == 20);
    assert("if_statement"@.len() == 12);
    assert("import_statement"@.len() == 16);
    assert("lexical_declaration"@.len() == 19);
    assert("method_definition"@.len() == 17);
    assert("variable_declaration"@.len() == 20);
    let (body, keep, _fields, skeleton) = rules_spec(language);
    assert(body.len() == 4);
    assert(body[0] == "function_declaration"@);
    assert(body[1] == "method_definition"@);
    assert(body[2] == "arrow_function"@);
    assert(body[3] == "class_declaration"@);
    assert(keep.len() == 4);
    assert(keep[0] == "import_statement"@);
    assert(keep[1] == "export_statement"@);
    assert(keep[2] == "lexical_declaration"@);
    assert(keep[3] == "variable_declaration"@);
    assert(skeleton.len() == 2);
    assert(skeleton[0] == "if_statement"@);
    assert(skeleton[1] == "for_statement"@);
    assert("function_declaration"@[0] != "variable_declaration"@[0]);
    assert forall|i: int, j: int| 0 <= i < body.len() && 0 <= j < keep.len() implies body[i] != keep[j] by {
        assert(i == 0 || i == 1 || i == 2 || i == 3);
        assert(j == 0 || j == 1 || j == 2 || j == 3);
    }
    assert forall|i: int, j: int| 0 <= i < body.len() && 0 <= j < skeleton.len() implies body[i] != skeleton[j] by {
        assert(i == 0 || i == 1 || i == 2 || i == 3);
        assert(j == 0 || j == 1);
    }
    assert forall|i: int, j: int| 0 <= i < keep.len() && 0 <= j < skeleton.len() implies keep[i] != skeleton[j] by {
        assert(i == 0 || i == 1 || i == 2 || i == 3);
        assert(j == 0 || j == 1);
    }
}

/// The kind lists of these rules share no kind.
proof fn lemma_go_kinds_disjoint(language: SupportedLanguage)
    requires
        language is Go,
    ensures
        disjoint_kinds(rules_spec(language).0, rules_spec(language).1),
        disjoint_kinds(rules_spec(language).0, rules_spec(language).3),
        disjoint_kinds(rules_spec(language).1, rules_spec(language).3),
{
    reveal_strlit("const_declaration");
    reveal_strlit("function_declaration");
    reveal_strlit("import_declaration");
    reveal_strlit("method_declaration");
    reveal_strlit("package_clause");
    reveal_strlit("type_declaration");
    reveal_strlit("var_declaration");
    assert("const_declaration"@.len() == 17);
    assert("function_declaration"@.len() == 20);
    assert("import_declaration"@.len() == 18);
    assert("method_declaration"@.len() == 18);
    assert("package_clause"@.len() == 14);
    assert("type_declaration"@.len() == 16);
    assert("var_declaration"@.len() == 15);
    let (body, keep, _fields, skeleton) = rules_spec(language);
    assert(body.len() == 2);
    assert(body[0] == "function_declaration"@);
    assert(body[1] == "method_declaration"@);
    assert(keep.len() == 5);
    assert(keep[0] == "import_declaration"@);
    assert(keep[1] == "package_clause"@);
    assert(keep[2] == "type_declaration"@);
    assert(keep[3] == "const_declaration"@);
    assert(keep[4] == "var_declaration"@);
    assert(skeleton.len() == 0);
    assert("method_declaration"@[0] != "import_declaration"@[0]);
    assert forall|i: int, j: int| 0 <= i < body.len() && 0 <= j < keep.len() implies body[i] != keep[j] by {
        assert(i == 0 || i == 1);
        assert(j == 0 || j == 1 || j == 2 || j == 3 || j == 4);
    }
}

/// The kind lists of these rules share no kind.
proof fn lemma_java_kinds_disjoint(language: SupportedLanguage)
    requires
        language is Java,
    ensures
        disjoint_kinds(rules_spec(language).0, rules_spec(language).1),
        disjoint_kinds(rules_spec(language).0, rules_spec(language).3),
        disjoint_kinds(rules_spec(language).1, rules_spec(language).3),
{
    reveal_strlit("annotation_type_declaration");
    reveal_strlit("class_declaration");
    reveal_strlit("constructor_declaration");
    reveal_strlit("enum_declaration");
    reveal_strlit("field_declaration");
    reveal_strlit("import_declaration");
    reveal_strlit("interface_declaration");
    reveal_strlit("method_declaration");
    reveal_strlit("package_declaration");
    assert("annotation_type_declaration"@.len() == 27);
    assert("class_declaration"@.len() == 17);
    assert("constructor_declaration"@.len() == 23);
    assert("enum_declaration"@.len() == 16);
    assert("field_declaration"@.len() == 17);
    assert("import_declaration"@.len() == 18);
    assert("interface_declaration"@.len() == 21);
    assert("method_declaration"@.len() == 18);
    assert("package_declaration"@.len() == 19);
    let (body, keep, _fields, skeleton) = rules_spec(language);
    assert(body.len() == 3);
    assert(body[0] == "method_declaration"@);
    assert(body[1] == "constructor_declaration"@);
    assert(body[2] == "class_declaration"@);
    assert(keep.len() == 6);
    assert(keep[0] == "import_declaration"@);
    assert(keep[1] == "package_declaration"@);
    assert(keep[2] == "interface_declaration"@);
    assert(keep[3] == "enum_declaration"@);
    assert(keep[4] == "annotation_type_declaration"@);
    assert(keep[5] == "field_declaration"@);
    assert(skeleton.len() == 0);
    assert("method_declaration"@[0] != "import_declaration"@[0]);
    assert("class_declaration"@[0] != "field_declaration"@[0]);
    assert forall|i: int, j: int| 0 <= i < body.len() && 0 <= j < keep.len() implies body[i] != keep[j] by {
        assert(i == 0 || i == 1 || i == 2);
        assert(j == 0 || j == 1 || j == 2 || j == 3 || j == 4 || j == 5);
    }
}

/// The kind lists of these rules share no kind.
proof fn lemma_cpp_kinds_disjoint(language: SupportedLanguage)
    requires
        language is Cpp || language is C,
    ensures
        disjoint_kinds(rules_spec(language).0, rules_spec(language).1),
        disjoint_kinds(rules_spec(language).0, rules_spec(language).3),
        disjoint_kinds(rules_spec(language).1, rules_spec(language).3),
{
    reveal_strlit("declaration");
    reveal_strlit("enum_specifier");
    reveal_strlit("function_definition");
    reveal_strlit("namespace_definition");
    reveal_strlit("preproc_def");
    reveal_strlit("preproc_ifdef");
    reveal_strlit("preproc_include");
    reveal_strlit("struct_specifier");
    reveal_strlit("template_declaration");
    reveal_strlit("type_definition");
    reveal_strlit("using_declaration");
    assert("declaration"@.len() == 11);
    assert("enum_specifier"@.len() == 14);
    assert("function_definition"@.len() == 19);
    assert("namespace_definition"@.len() == 20);
    assert("preproc_def"@.len() == 11);
    assert("preproc_ifdef"@.len() == 13);
    assert("preproc_include"@.len() == 15);
    assert("struct_specifier"@.len() == 16);
    assert("template_declaration"@.len() == 20);
    assert("type_definition"@.len() == 15);
    assert("using_declaration"@.len() == 17);
    let (body, keep, _fields, skeleton) = rules_spec(language);
    assert(body.len() == 2);
    assert(body[0] == "function_definition"@);
    assert(body[1] == "template_declaration"@);
    assert(keep.len() == 9);
    assert(keep[0] == "preproc_include"@);
    assert(keep[1] == "preproc_def"@);
    assert(keep[2] == "preproc_ifdef"@);
    assert(keep[3] == "type_definition"@);
    assert(keep[4] == "declaration"@);
    assert(keep[5] == "struct_specifier"@);
    assert(keep[6] == "enum_specifier"@);
    assert(keep[7] == "namespace_definition"@);
    assert(keep[8] == "using_declaration"@);
    assert(skeleton.len() == 0);
    assert("template_declaration"@[0] != "namespace_definition"@[0]);
    assert forall|i: int, j: int| 0 <= i < body.len() && 0 <= j < keep.len() implies body[i] != keep[j] by {
        assert(i == 0 || i == 1);
        assert(j == 0 || j == 1 || j == 2 || j == 3 || j == 4 || j == 5 || j == 6 || j == 7 || j == 8);
    }
}

proof fn lemma_kinds_disjoint(language: SupportedLanguage)
    ensures
        disjoint_kinds(rules_spec(language).0, rules_spec(language).1),
        disjoint_kinds(rules_spec(language).0, rules_spec(language).3),
        disjoint_kinds(rules_spec(language).1, rules_spec(language).3),
        rules_spec(language).3.len() > 0 <==> (language is Python || language is TypeScript || language is JavaScript),
{
    match language {
        SupportedLanguage::Rust => lemma_rust_kinds_disjoint(language),
        SupportedLanguage::Python => lemma_python_kinds_disjoint(language),
        SupportedLanguage::TypeScript => lemma_typescript_kinds_disjoint(language),
        SupportedLanguage::JavaScript => lemma_javascript_kinds_disjoint(language),
        SupportedLanguage::Go => lemma_go_kinds_disjoint(language),
        SupportedLanguage::Java => lemma_java_kinds_disjoint(language),
        SupportedLanguage::Cpp | SupportedLanguage::C => lemma_cpp_kinds_disjoint(language),
    }
}

/// The extraction rules of every language (`r`, as `extraction_rules`
/// returns them): a node kind is at most one of a kind with an elided body,
/// a kind kept in full and a kind kept in skeleton mode only; and only
/// Python, TypeScript and JavaScript have skeleton-only kinds.
pub proof fn law_extraction_rules(language: SupportedLanguage, r: ExtractionRules)
    requires
        rules_view(r) == rules_spec(language),
    ensures
        disjoint_kinds(strs(r.body_nodes@), strs(r.keep_nodes@)),
        disjoint_kinds(strs(r.body_nodes@), strs(r.skeleton_nodes@)),
        disjoint_kinds(strs(r.keep_nodes@), strs(r.skeleton_nodes@)),
        r.skeleton_nodes@.len() > 0 <==> (language is Python || language is TypeScript || language is JavaScript),
{
    lemma_kinds_disjoint(language);
    assert(strs(r.skeleton_nodes@).len() == r.skeleton_nodes@.len());
}

/// C and C++ are compressed by the same rules: the rules `extraction_rules`
/// returns for the two are equal field by field.
pub proof fn law_c_rules_equal_cpp(c: ExtractionRules, cpp: ExtractionRules)
    requires
        rules_view(c) == rules_spec(SupportedLanguage::C),
        rules_view(cpp) == rules_spec(SupportedLanguage::Cpp),
    ensures
        strs(c.body_nodes@) == strs(cpp.body_nodes@),
        strs(c.keep_nodes@) == strs(cpp.keep_nodes@),
        strs(c.body_field_names@) == strs(cpp.body_field_names@),
        strs(c.skeleton_nodes@) == strs(cpp.skeleton_nodes@),
{
}

fn contains_str_of(list: &Vec<&'static str>, k: &str) -> (r: bool)
    ensures
        r == strs(list@).contains(k@),
{
    let mut i: usize = 0;
    while i < list.len()
        invariant
            i <= list@.len(),
            forall|j: int| 0 <= j < i ==> list@[j]@ != k@,
        decreases list@.len() - i,
    {
        if str_eq(list[i], k) {
            assert(strs(list@)[i as int] == k@);
            return true;
        }
        i = i + 1;
    }
    proof {
        if strs(list@).contains(k@) {
            let j = choose|j: int| 0 <= j < strs(list@).len() && strs(list@)[j] == k@;
            assert(list@[j]@ == k@);
        }
    }
    false
}

/// The text from the start of node `n` to byte `end`, clamped to the source.
pub open spec fn head_text(source: Seq<u8>, n: SyntaxNode, end: usize) -> Seq<char> {
    let s = if n.start_byte <= source.len() { n.start_byte as int } else { source.len() as int };
    let e0 = if end <= source.len() { end as int } else { source.len() as int };
    let e = if e0 < s { s } else { e0 };
    trim_end_spec(lossy_text(source.subrange(s, e)))
}

/// Node `i` with the body child elided: the text up to the first child of
/// a body kind, then ` { … }`; the whole text when it has no such child.
pub open spec fn elided_from(source: Seq<u8>, t: Seq<SyntaxNode>, i: int, fields: Seq<Seq<char>>, from: int) -> Seq<char>
    decreases t[i].children@.len() - from,
{
    if from < 0 || from >= t[i].children@.len() {
        node_text_spec(source, t[i])
    } else {
        let c = t[t[i].children@[from] as int];
        if fields.contains(c.kind@) {
            head_text(source, t[i], c.start_byte) + " { … }"@
        } else {
            elided_from(source, t, i, fields, from + 1)
        }
    }
}

/// What compressing keeps of top-level node `i`, if anything.
pub open spec fn node_extract(source: Seq<u8>, t: Seq<SyntaxNode>, i: int, language: SupportedLanguage, mode: CompressionMode) -> Option<Seq<char>> {
    let k = t[i].kind@;
    let rules = rules_spec(language);
    if k == "comment"@ || k == "line_comment"@ || k == "block_comment"@ {
        let text = node_text_spec(source, t[i]);
        if text.len() > 0 { Some(text) } else { None }
    } else if rules.0.contains(k) {
        Some(elided_from(source, t, i, rules.2, 0))
    } else if rules.1.contains(k) {
        Some(node_text_spec(source, t[i]))
    } else if mode == CompressionMode::Skeleton && rules.3.contains(k) {
        Some(elided_from(source, t, i, rules.2, 0))
    } else {
        None
    }
}

/// The pieces kept of the first `n` children of the root, in order.
pub open spec fn outline_upto(source: Seq<u8>, t: Seq<SyntaxNode>, n: int, language: SupportedLanguage, mode: CompressionMode) -> Seq<Seq<char>>
    decreases n,
{
    if n <= 0 || t.len() == 0 {
        Seq::empty()
    } else {
        let prev = outline_upto(source, t, n - 1, language, mode);
        match node_extract(source, t, t[0].children@[n - 1] as int, language, mode) {
            Some(p) => prev.push(p),
            None => prev,
        }
    }
}

/// The pieces kept of the root's children.
pub open spec fn outline(source: Seq<u8>, t: Seq<SyntaxNode>, language: SupportedLanguage, mode: CompressionMode) -> Seq<Seq<char>> {
    if t.len() == 0 { Seq::empty() } else { outline_upto(source, t, t[0].children@.len() as int, language, mode) }
}

fn head_text_of(source: &[u8], n: &SyntaxNode, end: usize) -> (r: String)
    ensures
        r@ == head_text(source@, *n, end),
{
    let s = if n.start_byte <= source.len() { n.start_byte } else { source.len() };
    let e = if end <= source.len() { end } else { source.len() };
    let e = if e < s { s } else { e };
    let slice = vstd::slice::slice_subrange(source, s, e);
    let text = decode_lossy(slice);
    trim_end(text.as_str())
}

fn elided_of(source: &[u8], t: &Vec<SyntaxNode>, i: usize, rules: &ExtractionRules) -> (r: String)
    requires
        i < t@.len(),
        nodes_well_formed(t@),
    ensures
        r@ == elided_from(source@, t@, i as int, strs(rules.body_field_names@), 0),
{
    let n = t[i].children.len();
    let mut j: usize = 0;
    while j < n
        invariant
            i < t@.len(),
            nodes_well_formed(t@),
            n == t@[i as int].children@.len(),
            j <= n,
            elided_from(source@, t@, i as int, strs(rules.body_field_names@), j as int)
                == elided_from(source@, t@, i as int, strs(rules.body_field_names@), 0),
        decreases n - j,
    {
        let ci = t[i].children[j];
        assert(ci < t@.len());
        if contains_str_of(&rules.body_field_names, t[ci].kind.as_str()) {
            let mut sig = head_text_of(source, &t[i], t[ci].start_byte);
            sig.append(" { … }");
            return sig;
        }
        j = j + 1;
    }
    node_text(source, &t[i])
}

/// What compressing keeps of node `i`.
pub fn extract_node(source: &[u8], t: &Vec<SyntaxNode>, i: usize, rules: &ExtractionRules, language: SupportedLanguage, mode: CompressionMode) -> (r: Option<String>)
    requires
        i < t@.len(),
        nodes_well_formed(t@),
        rules_view(*rules) == rules_spec(language),
    ensures
        match r {
            Some(s) => node_extract(source@, t@, i as int, language, mode) == Some(s@),
            None => node_extract(source@, t@, i as int, language, mode) is None,
        },
{
    let k = t[i].kind.as_str();
    if str_eq(k, "comment") || str_eq(k, "line_comment") || str_eq(k, "block_comment") {
        let text = node_text(source, &t[i]);
        if text.unicode_len() > 0 {
            return Some(text);
        }
        return None;
    }
    if contains_str_of(&rules.body_nodes, k) {
        return Some(elided_of(source, t, i, rules));
    }
    if contains_str_of(&rules.keep_nodes, k) {
        return Some(node_text(source, &t[i]));
    }
    if mode == CompressionMode::Skeleton && contains_str_of(&rules.skeleton_nodes, k) {
        return Some(elided_of(source, t, i, rules));
    }
    None
}

/// The compressed form of a source file given its syntax tree: with no
/// compression the text itself; otherwise the kept top-level pieces joined
/// by blank lines, with their number.
pub open spec fn compressed_spec(source: Seq<u8>, tree: SyntaxTree, language: SupportedLanguage, mode: CompressionMode, r: CompressedOutput) -> bool {
    &&& r.had_parse_errors == tree.has_error
    &&& if mode == CompressionMode::Disabled {
        r.content@ == lossy_text(source) && r.items_extracted == 0
    } else {
        let pieces = outline(source, tree.nodes@, language, mode);
        r.content@ == join_seq(pieces, "\n\n"@) && r.items_extracted == pieces.len()
    }
}

/// Compresses a source file given its syntax tree.
pub fn extract_compressed(source: &[u8], tree: &SyntaxTree, language: SupportedLanguage, mode: CompressionMode) -> (r: CompressedOutput)
    requires
        tree.well_formed(),
    ensures
        compressed_spec(source@, *tree, language, mode, r),
{
    if mode == CompressionMode::Disabled {
        return CompressedOutput { content: decode_lossy(source), items_extracted: 0, had_parse_errors: tree.has_error };
    }
    let t = &tree.nodes;
    let rules = extraction_rules(language);
    let mut lines: Vec<String> = Vec::new();
    if t.len() > 0 {
        let n = t[0].children.len();
        let mut j: usize = 0;
        while j < n
            invariant
                t@.len() > 0,
                nodes_well_formed(t@),
                n == t@[0].children@.len(),
                j <= n,
                rules_view(rules) == rules_spec(language),
                views(lines@) == outline_upto(source@, t@, j as int, language, mode),
                lines@.len() <= j,
            decreases n - j,
        {
            let ci = t[0].children[j];
            assert(ci < t@.len());
            let ghost before = views(lines@);
            match extract_node(source, t, ci, &rules, language, mode) {
                Some(p) => {
                    lines.push(p);
                    assert(views(lines@) =~= before.push(lines@.last()@));
                },
                None => {},
            }
            j = j + 1;
        }
    } else {
        assert(views(lines@) =~= Seq::<Seq<char>>::empty());
    }
    let content = join_strings(&lines, "\n\n");
    CompressedOutput { content, items_extracted: lines.len() as u64, had_parse_errors: tree.has_error }
}

/// `o` is the compressed form of `source` for the syntax tree tree-sitter
/// gives of it.
pub open spec fn compressed_by_parse(source: Seq<u8>, language: SupportedLanguage, mode: CompressionMode, o: CompressedOutput) -> bool {
    exists|t: SyntaxTree| t.well_formed() && tree_of_records(t, syntax_tree(source, language))
        && #[trigger] compressed_spec(source, t, language, mode, o)
}

/// `o` is what compressing `source` in `mode` gives: with no compression
/// the text as it is, nothing extracted and no parse errors; otherwise the
/// outline of the syntax tree the parser gives.
pub open spec fn compress_result(source: Seq<u8>, language: SupportedLanguage, mode: CompressionMode, o: CompressedOutput) -> bool {
    if mode == CompressionMode::Disabled {
        o.content@ == lossy_text(source) && o.items_extracted == 0 && !o.had_parse_errors
    } else {
        compressed_by_parse(source, language, mode, o)
    }
}

/// Compresses a source file: with no compression its text as it is;
/// otherwise the outline of the syntax tree the parser gives.
pub fn compress_source(source: &[u8], language: SupportedLanguage, mode: CompressionMode) -> (r: Result<CompressedOutput, ParseFailure>)
    ensures
        r matches Ok(o) && compress_result(source@, language, mode, o),
{
    if mode == CompressionMode::Disabled {
        return Ok(CompressedOutput { content: decode_lossy(source), items_extracted: 0, had_parse_errors: false });
    }
    match parse_source(source, language) {
        Some(tree) => {
            let o = extract_compressed(source, &tree, language, mode);
            assert(tree.well_formed() && tree_of_records(tree, syntax_tree(source@, language))
                && compressed_spec(source@, tree, language, mode, o));
            assert(compressed_by_parse(source@, language, mode, o));
            Ok(o)
        },
        None => Err(ParseFailure::NoTree),
    }
}

/// The nodes of `a` and `b` agree in every field that compressing reads.
pub open spec fn same_nodes(a: Seq<SyntaxNode>, b: Seq<SyntaxNode>) -> bool {
    &&& a.len() == b.len()
    &&& forall|i: int| 0 <= i < a.len() ==> {
        &&& (#[trigger] a[i]).kind@ == b[i].kind@
        &&& a[i].start_byte == b[i].start_byte
        &&& a[i].end_byte == b[i].end_byte
        &&& a[i].children@ == b[i].children@
    }
}

proof fn lemma_records_same_nodes(a: SyntaxTree, b: SyntaxTree, rs: Seq<NodeRecordView>)
    requires
        tree_of_records(a, rs),
        tree_of_records(b, rs),
    ensures
        same_nodes(a.nodes@, b.nodes@),
        a.has_error == b.has_error,
{
    assert forall|i: int| 0 <= i < a.nodes@.len() implies {
        &&& (#[trigger] a.nodes@[i]).kind@ == b.nodes@[i].kind@
        &&& a.nodes@[i].start_byte == b.nodes@[i].start_byte
        &&& a.nodes@[i].end_byte == b.nodes@[i].end_byte
        &&& a.nodes@[i].children@ == b.nodes@[i].children@
    } by {
        assert(node_of_record(a.nodes@[i], rs, i));
        assert(node_of_record(b.nodes@[i], rs, i));
    }
}

proof fn lemma_elided_same(source: Seq<u8>, a: Seq<SyntaxNode>, b: Seq<SyntaxNode>, i: int, fields: Seq<Seq<char>>, from: int)
    requires
        same_nodes(a, b),
        nodes_well_formed(a),
        0 <= i < a.len(),
    ensures
        elided_from(source, a, i, fields, from) == elided_from(source, b, i, fields, from),
    decreases a[i].children@.len() - from,
{
    assert(a[i].children@ == b[i].children@);
    if 0 <= from < a[i].children@.len() {
        let k = a[i].children@[from] as int;
        assert(a[k].kind@ == b[k].kind@);
        lemma_elided_same(source, a, b, i, fields, from + 1);
    }
}

proof fn lemma_extract_same(source: Seq<u8>, a: Seq<SyntaxNode>, b: Seq<SyntaxNode>, i: int, language: SupportedLanguage, mode: CompressionMode)
    requires
        same_nodes(a, b),
        nodes_well_formed(a),
        0 <= i < a.len(),
    ensures
        node_extract(source, a, i, language, mode) == node_extract(source, b, i, language, mode),
{
    assert(a[i].kind@ == b[i].kind@);
    lemma_elided_same(source, a, b, i, rules_spec(language).2, 0);
}

proof fn lemma_outline_upto_same(source: Seq<u8>, a: Seq<SyntaxNode>, b: Seq<SyntaxNode>, n: int, language: SupportedLanguage, mode: CompressionMode)
    requires
        same_nodes(a, b),
        nodes_well_formed(a),
        a.len() > 0,
        n <= a[0].children@.len(),
    ensures
        outline_upto(source, a, n, language, mode) == outline_upto(source, b, n, language, mode),
    decreases n,
{
    if n > 0 {
        assert(a[0].children@ == b[0].children@);
        lemma_outline_upto_same(source, a, b, n - 1, language, mode);
        lemma_extract_same(source, a, b, a[0].children@[n - 1] as int, language, mode);
    }
}

proof fn lemma_outline_modes(source: Seq<u8>, t: Seq<SyntaxNode>, n: int, language: SupportedLanguage)
    requires
        nodes_well_formed(t),
        t.len() > 0,
        n <= t[0].children@.len(),
    ensures
        outline_upto(source, t, n, language, CompressionMode::Skeleton).len()
            >= outline_upto(source, t, n, language, CompressionMode::Signatures).len(),
        rules_spec(language).3.len() == 0 ==> outline_upto(source, t, n, language, CompressionMode::Skeleton)
            == outline_upto(source, t, n, language, CompressionMode::Signatures),
    decreases n,
{
    if n > 0 {
        lemma_outline_modes(source, t, n - 1, language);
        let k = t[0].children@[n - 1] as int;
        if rules_spec(language).3.len() == 0 {
            assert(!rules_spec(language).3.contains(t[k].kind@));
        }
    }
}

/// Compressing one source in each mode (`sig`, `skel` and `plain` as
/// `compress_source` gives them): signatures and skeleton report the same
/// parse errors and the skeleton keeps at least as many pieces; for Rust,
/// Go, Java, C++ and C, which have no skeleton-only kinds, the two are the
/// same text with the same number of pieces; with no compression the result
/// is the text itself, with nothing extracted and no parse errors.
pub proof fn law_compression_modes(
    source: Seq<u8>,
    language: SupportedLanguage,
    sig: CompressedOutput,
    skel: CompressedOutput,
    plain: CompressedOutput,
)
    requires
        compress_result(source, language, CompressionMode::Signatures, sig),
        compress_result(source, language, CompressionMode::Skeleton, skel),
        compress_result(source, language, CompressionMode::Disabled, plain),
    ensures
        skel.had_parse_errors == sig.had_parse_errors,
        skel.items_extracted >= sig.items_extracted,
        (language is Rust || language is Go || language is Java || language is Cpp || language is C)
            ==> skel.content@ == sig.content@ && skel.items_extracted == sig.items_extracted,
        plain.content@ == lossy_text(source),
        plain.items_extracted == 0,
        !plain.had_parse_errors,
{
    lemma_kinds_disjoint(language);
    let rs = syntax_tree(source, language);
    let t1 = choose|t: SyntaxTree| t.well_formed() && tree_of_records(t, rs)
        && #[trigger] compressed_spec(source, t, language, CompressionMode::Signatures, sig);
    let t2 = choose|t: SyntaxTree| t.well_formed() && tree_of_records(t, rs)
        && #[trigger] compressed_spec(source, t, language, CompressionMode::Skeleton, skel);
    lemma_records_same_nodes(t2, t1, rs);
    let a = t1.nodes@;
    if a.len() > 0 {
        let n = a[0].children@.len() as int;
        lemma_outline_upto_same(source, t2.nodes@, a, n, language, CompressionMode::Skeleton);
        lemma_outline_modes(source, a, n, language);
    }
}

} // verus!
