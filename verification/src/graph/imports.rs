//! Import statements of a source file, read from its syntax tree.
use vstd::prelude::*;
use vstd::string::*;
use crate::compression::types::{language_for_name, SupportedLanguage};
use crate::graph::types::ImportStatement;
use crate::paths::{concat_str, strip_prefix, strip_prefix_spec, views};
use crate::strops::{
    char_class, chars1, chars2, chars3, contains_str, find_spec, trim, trim_by, trim_chars, trim_end, trim_end_by, trim_end_spec,
    trim_spec, trim_start_by, trim_start_pat, trim_start_pat_spec, substring, lemma_find_from,
};
use crate::syntax::{parse_source, syntax_tree, tree_of_records, SyntaxNode, SyntaxTree, nodes_well_formed};
use crate::text::{decode_lossy, lossy_text, seq_starts_with, split_char, split_on, starts_with, str_eq};

verus! {

/// An import as plain values: path and line.
pub type ImportV = (Seq<char>, u64);

pub open spec fn import_view(i: ImportStatement) -> ImportV {
    (i.raw_path@, i.line)
}

pub open spec fn imports_view(s: Seq<ImportStatement>) -> Seq<ImportV> {
    s.map_values(|i: ImportStatement| import_view(i))
}

/// The end of a node's text, clamped to the source and to its start.
pub open spec fn clamped_end(len: nat, n: SyntaxNode) -> int {
    let e = if n.end_byte < len { n.end_byte as int } else { len as int };
    if e < n.start_byte { n.start_byte as int } else { e }
}

/// The text of a node, decoded leniently, without trailing whitespace; empty
/// when the node starts past the end of the source.
pub open spec fn node_text_spec(source: Seq<u8>, n: SyntaxNode) -> Seq<char> {
    if n.start_byte >= source.len() {
        Seq::empty()
    } else {
        trim_end_spec(lossy_text(source.subrange(n.start_byte as int, clamped_end(source.len(), n))))
    }
}

/// The text of a node.
pub fn node_text(source: &[u8], n: &SyntaxNode) -> (r: String)
    ensures
        r@ == node_text_spec(source@, *n),
{
    if n.start_byte >= source.len() {
        return String::new();
    }
    let e = if n.end_byte < source.len() { n.end_byte } else { source.len() };
    let e = if e < n.start_byte { n.start_byte } else { e };
    let slice = vstd::slice::slice_subrange(source, n.start_byte, e);
    let text = decode_lossy(slice);
    trim_end(text.as_str())
}

/// The line of a node, counted from 1.
pub open spec fn line_of(n: SyntaxNode) -> u64 {
    if (n.start_row as int) < u64::MAX { (n.start_row + 1) as u64 } else { 1 }
}

fn node_line(n: &SyntaxNode) -> (r: u64)
    ensures
        r == line_of(*n),
{
    let row = n.start_row as u64;
    if row < u64::MAX { row + 1 } else { 1 }
}

/// `s` without its leading `p`, or `s` itself.
pub open spec fn strip_prefix_or(s: Seq<char>, p: Seq<char>) -> Seq<char> {
    match strip_prefix_spec(s, p) {
        Some(t) => t,
        None => s,
    }
}

fn strip_prefix_or_self(s: &str, p: &str) -> (r: String)
    ensures
        r@ == strip_prefix_or(s@, p@),
{
    match strip_prefix(s, p) {
        Some(t) => t,
        None => s.to_owned(),
    }
}

pub open spec fn one(c: char) -> spec_fn(char) -> bool {
    char_class(seq![c])
}

// ---- Rust ----

/// The path of a `use` declaration: without `use `, the trailing `;` and
/// surrounding whitespace.
pub open spec fn rust_use_path(text: Seq<char>) -> Seq<char> {
    trim_spec(trim_end_by(strip_prefix_or(text, "use "@), one(';')))
}

/// The members of a `{...}` group of a `use`, each under the base path.
pub open spec fn rust_group_paths(items: Seq<Seq<char>>, base: Seq<char>) -> Seq<Seq<char>>
    decreases items.len(),
{
    if items.len() == 0 {
        Seq::empty()
    } else {
        let prev = rust_group_paths(items.drop_last(), base);
        let t = trim_spec(items.last());
        if t.len() == 0 { prev } else { prev.push(base + "::"@ + t) }
    }
}

/// The paths a `use` declaration imports: one per member of a group, or the
/// whole path.
pub open spec fn rust_use_paths(text: Seq<char>) -> Seq<Seq<char>> {
    let path = rust_use_path(text);
    let b = find_spec(path, "{"@);
    if b == -1 {
        seq![path]
    } else {
        let base = trim_end_by(path.take(b), one(':'));
        let group = trim_end_by(trim_start_by(path.skip(b), one('{')), one('}'));
        let results = rust_group_paths(split_on(group, ','), base);
        if results.len() == 0 { seq![path] } else { results }
    }
}

fn rust_use_paths_of(text: &str) -> (r: Vec<String>)
    ensures
        views(r@) == rust_use_paths(text@),
{
    proof { reveal_strlit("{"); }
    let stripped = strip_prefix_or_self(text, "use ");
    let no_semi = trim_chars(stripped.as_str(), chars1(';'), false, true);
    let path = trim(no_semi.as_str());
    let pv = crate::text::chars_of(path.as_str());
    let brace = chars1('{');
    assert(brace@ == "{"@);
    match crate::strops::find_chars(&pv, &brace) {
        None => {
            let r = vec![path];
            assert(views(r@) =~= seq![r@[0]@]);
            r
        },
        Some(b) => {
            let head = substring(path.as_str(), 0, b);
            let base = trim_chars(head.as_str(), chars1(':'), false, true);
            let tail = substring(path.as_str(), b, pv.len());
            let group = trim_chars(tail.as_str(), chars1('{'), true, false);
            let group = trim_chars(group.as_str(), chars1('}'), false, true);
            let items = split_char(group.as_str(), ',');
            let mut results: Vec<String> = Vec::new();
            let mut i: usize = 0;
            while i < items.len()
                invariant
                    i <= items@.len(),
                    views(results@) == rust_group_paths(views(items@).take(i as int), base@),
                decreases items@.len() - i,
            {
                assert(views(items@).take(i + 1).drop_last() =~= views(items@).take(i as int));
                let t = trim(items[i].as_str());
                if t.unicode_len() > 0 {
                    let mut p = base.clone();
                    p.append("::");
                    p.append(t.as_str());
                    let ghost before = views(results@);
                    results.push(p);
                    assert(views(results@) =~= before.push(base@ + "::"@ + t@));
                }
                i = i + 1;
            }
            assert(views(items@).take(i as int) =~= views(items@));
            if results.len() == 0 {
                let r = vec![path];
                assert(views(r@) =~= seq![r@[0]@]);
                r
            } else {
                results
            }
        },
    }
}

// ---- Python ----

/// The modules of an `import a, b` statement.
pub open spec fn python_import_paths(text: Seq<char>) -> Seq<Seq<char>> {
    split_on(trim_spec(strip_prefix_or(text, "import "@)), ',').map_values(|p: Seq<char>| trim_spec(p))
}

/// The module of a `from m import x` statement: the part before ` import`.
pub open spec fn python_from_module(text: Seq<char>) -> Seq<char> {
    let path = trim_spec(strip_prefix_or(text, "from "@));
    let i = find_spec(path, " import"@);
    trim_spec(if i == -1 { path } else { path.take(i) })
}

fn python_import_paths_of(text: &str) -> (r: Vec<String>)
    ensures
        views(r@) == python_import_paths(text@),
{
    let stripped = strip_prefix_or_self(text, "import ");
    let path = trim(stripped.as_str());
    let parts = split_char(path.as_str(), ',');
    let mut r: Vec<String> = Vec::new();
    let mut i: usize = 0;
    while i < parts.len()
        invariant
            i <= parts@.len(),
            views(r@) == views(parts@).take(i as int).map_values(|p: Seq<char>| trim_spec(p)),
        decreases parts@.len() - i,
    {
        let ghost before = views(r@);
        r.push(trim(parts[i].as_str()));
        assert(views(r@) =~= before.push(trim_spec(parts@[i as int]@)));
        i = i + 1;
        assert(views(parts@).take(i as int).map_values(|p: Seq<char>| trim_spec(p)) =~= before.push(trim_spec(parts@[i - 1]@)));
    }
    assert(views(parts@).take(i as int) =~= views(parts@));
    r
}

fn python_from_module_of(text: &str) -> (r: String)
    ensures
        r@ == python_from_module(text@),
{
    let stripped = strip_prefix_or_self(text, "from ");
    let path = trim(stripped.as_str());
    let pv = crate::text::chars_of(path.as_str());
    let pat = crate::text::chars_of(" import");
    match crate::strops::find_chars(&pv, &pat) {
        Some(i) => {
            let head = substring(path.as_str(), 0, i);
            trim(head.as_str())
        },
        None => trim(path.as_str()),
    }
}

// ---- JavaScript / TypeScript ----

pub open spec fn js_quotes() -> spec_fn(char) -> bool {
    char_class(seq!['\'', '"', ';'])
}

/// The module of an `import`/`export` statement: the quoted path after
/// `from `, or the path of a side-effect `import 'x'`.
pub open spec fn js_statement_path(text: Seq<char>) -> Option<Seq<char>> {
    let f = find_spec(text, "from "@);
    let via_from = if f != -1 { trim_by(trim_spec(text.skip(f + 5)), js_quotes()) } else { Seq::empty() };
    if f != -1 && via_from.len() > 0 {
        Some(via_from)
    } else if seq_starts_with(text, "import "@) && f == -1 {
        let p = trim_by(trim_spec(strip_prefix_or(text, "import "@)), js_quotes());
        if p.len() > 0 && find_spec(p, " "@) == -1 { Some(p) } else { None }
    } else {
        None
    }
}

/// The module of a `require('x')` call.
pub open spec fn js_require_path(text: Seq<char>) -> Option<Seq<char>> {
    if seq_starts_with(text, "require("@) {
        let p = trim_by(trim_end_by(trim_start_pat_spec(text, "require("@), one(')')), char_class(seq!['\'', '"']));
        if p.len() > 0 { Some(p) } else { None }
    } else {
        None
    }
}

fn js_statement_path_of(text: &str) -> (r: Option<String>)
    ensures
        opt_seq(r) == js_statement_path(text@),
{
    proof { reveal_strlit("from "); }
    let tv = crate::text::chars_of(text);
    let pat = crate::text::chars_of("from ");
    assert(pat@.len() == 5);
    let f = crate::strops::find_chars(&tv, &pat);
    match f {
        Some(i) => {
            let tlen = tv.len();
            assert(i + 5 <= tlen);
            let rest = substring(text, i + 5, tlen);
            let t = trim(rest.as_str());
            let p = trim_chars(t.as_str(), chars3('\'', '"', ';'), true, true);
            if p.unicode_len() > 0 {
                return Some(p);
            }
            None
        },
        None => {
            if starts_with(text, "import ") {
                let stripped = strip_prefix_or_self(text, "import ");
                let t = trim(stripped.as_str());
                let p = trim_chars(t.as_str(), chars3('\'', '"', ';'), true, true);
                if p.unicode_len() > 0 && !contains_str(p.as_str(), " ") {
                    return Some(p);
                }
            }
            None
        },
    }
}

fn js_require_path_of(text: &str) -> (r: Option<String>)
    ensures
        opt_seq(r) == js_require_path(text@),
{
    if starts_with(text, "require(") {
        let a = trim_start_pat(text, "require(");
        let b = trim_chars(a.as_str(), chars1(')'), false, true);
        let p = trim_chars(b.as_str(), chars2('\'', '"'), true, true);
        if p.unicode_len() > 0 {
            return Some(p);
        }
    }
    None
}

pub open spec fn opt_seq(o: Option<String>) -> Option<Seq<char>> {
    match o {
        Some(s) => Some(s@),
        None => None,
    }
}

// ---- Java ----

/// The path of a Java `import` (static or not).
pub open spec fn java_import_path(text: Seq<char>) -> Seq<char> {
    trim_spec(trim_end_by(trim_start_pat_spec(strip_prefix_or(text, "import "@), "static "@), one(';')))
}

fn java_import_path_of(text: &str) -> (r: String)
    ensures
        r@ == java_import_path(text@),
{
    let a = strip_prefix_or_self(text, "import ");
    let b = trim_start_pat(a.as_str(), "static ");
    let c = trim_chars(b.as_str(), chars1(';'), false, true);
    trim(c.as_str())
}

// ---- Per node ----

/// A node's children that exist in the tree.
pub open spec fn child_at(t: Seq<SyntaxNode>, i: int, j: int) -> SyntaxNode {
    t[t[i].children@[j] as int]
}

/// The path of a Go `import_spec`: its first string literal child with a
/// non-empty unquoted text.
pub open spec fn go_spec_path(source: Seq<u8>, t: Seq<SyntaxNode>, i: int, from: int) -> Option<Seq<char>>
    decreases t[i].children@.len() - from,
{
    if from < 0 || from >= t[i].children@.len() {
        None
    } else {
        let c = child_at(t, i, from);
        let p = trim_by(node_text_spec(source, c), one('"'));
        if c.kind@ == "interpreted_string_literal"@ && p.len() > 0 {
            Some(p)
        } else {
            go_spec_path(source, t, i, from + 1)
        }
    }
}

pub open spec fn go_spec_import(source: Seq<u8>, t: Seq<SyntaxNode>, i: int) -> Seq<ImportV> {
    match go_spec_path(source, t, i, 0) {
        Some(p) => seq![(p, line_of(t[i]))],
        None => Seq::empty(),
    }
}

/// The imports of the `import_spec` children of an `import_spec_list`.
pub open spec fn go_list_imports(source: Seq<u8>, t: Seq<SyntaxNode>, i: int, n: int) -> Seq<ImportV>
    decreases n,
{
    if n <= 0 {
        Seq::empty()
    } else {
        let prev = go_list_imports(source, t, i, n - 1);
        let ci = t[i].children@[n - 1] as int;
        if t[ci].kind@ == "import_spec"@ { prev + go_spec_import(source, t, ci) } else { prev }
    }
}

/// The imports a child of an `import_declaration` contributes.
pub open spec fn go_child_imports(source: Seq<u8>, t: Seq<SyntaxNode>, decl: int, ci: int) -> Seq<ImportV> {
    let c = t[ci];
    if c.kind@ == "import_spec"@ {
        go_spec_import(source, t, ci)
    } else if c.kind@ == "import_spec_list"@ {
        go_list_imports(source, t, ci, c.children@.len() as int)
    } else if c.kind@ == "interpreted_string_literal"@ {
        let p = trim_by(node_text_spec(source, c), one('"'));
        if p.len() > 0 { seq![(p, line_of(t[decl]))] } else { Seq::empty() }
    } else {
        Seq::empty()
    }
}

pub open spec fn go_decl_imports(source: Seq<u8>, t: Seq<SyntaxNode>, i: int, n: int) -> Seq<ImportV>
    decreases n,
{
    if n <= 0 {
        Seq::empty()
    } else {
        go_decl_imports(source, t, i, n - 1) + go_child_imports(source, t, i, t[i].children@[n - 1] as int)
    }
}

/// The include of a C or C++ `preproc_include`: its first quoted or
/// system path child with a non-empty path.
pub open spec fn c_include_path(source: Seq<u8>, t: Seq<SyntaxNode>, i: int, from: int) -> Option<Seq<char>>
    decreases t[i].children@.len() - from,
{
    if from < 0 || from >= t[i].children@.len() {
        None
    } else {
        let c = child_at(t, i, from);
        let text = node_text_spec(source, c);
        let quoted = trim_by(text, one('"'));
        let system = trim_end_by(trim_start_by(text, one('<')), one('>'));
        if c.kind@ == "string_literal"@ && quoted.len() > 0 {
            Some(quoted)
        } else if c.kind@ == "system_lib_string"@ && system.len() > 0 {
            Some("<"@ + system + ">"@)
        } else {
            c_include_path(source, t, i, from + 1)
        }
    }
}

/// The imports node `i` of the tree makes, in the file's language.
pub open spec fn node_imports(source: Seq<u8>, t: Seq<SyntaxNode>, i: int, language: SupportedLanguage) -> Seq<ImportV> {
    let n = t[i];
    let k = n.kind@;
    let text = node_text_spec(source, n);
    let line = line_of(n);
    match language {
        SupportedLanguage::Rust => if k == "use_declaration"@ {
            rust_use_paths(text).map_values(|p: Seq<char>| (p, line))
        } else {
            Seq::empty()
        },
        SupportedLanguage::Python => if k == "import_statement"@ {
            python_import_paths(text).map_values(|p: Seq<char>| (p, line))
        } else if k == "import_from_statement"@ {
            seq![(python_from_module(text), line)]
        } else {
            Seq::empty()
        },
        SupportedLanguage::TypeScript | SupportedLanguage::JavaScript => if k == "import_statement"@ || k == "export_statement"@ {
            match js_statement_path(text) {
                Some(p) => seq![(p, line)],
                None => Seq::empty(),
            }
        } else if k == "call_expression"@ {
            match js_require_path(text) {
                Some(p) => seq![(p, line)],
                None => Seq::empty(),
            }
        } else {
            Seq::empty()
        },
        SupportedLanguage::Go => if k == "import_declaration"@ {
            go_decl_imports(source, t, i, n.children@.len() as int)
        } else {
            Seq::empty()
        },
        SupportedLanguage::Java => if k == "import_declaration"@ {
            seq![(java_import_path(text), line)]
        } else {
            Seq::empty()
        },
        SupportedLanguage::C | SupportedLanguage::Cpp => if k == "preproc_include"@ {
            match c_include_path(source, t, i, 0) {
                Some(p) => seq![(p, line)],
                None => Seq::empty(),
            }
        } else {
            Seq::empty()
        },
    }
}

/// The imports of the first `n` nodes of the tree, node by node.
pub open spec fn tree_imports_upto(source: Seq<u8>, t: Seq<SyntaxNode>, n: int, language: SupportedLanguage) -> Seq<ImportV>
    decreases n,
{
    if n <= 0 {
        Seq::empty()
    } else {
        tree_imports_upto(source, t, n - 1, language) + node_imports(source, t, n - 1, language)
    }
}

/// The imports of a syntax tree: those of every node, in pre-order.
pub open spec fn tree_imports(source: Seq<u8>, t: Seq<SyntaxNode>, language: SupportedLanguage) -> Seq<ImportV> {
    tree_imports_upto(source, t, t.len() as int, language)
}

fn push_all(out: &mut Vec<ImportStatement>, paths: Vec<String>, line: u64)
    ensures
        imports_view(final(out)@) == imports_view(old(out)@) + views(paths@).map_values(|p: Seq<char>| (p, line)),
{
    let ghost start = imports_view(out@);
    let mut i: usize = 0;
    while i < paths.len()
        invariant
            i <= paths@.len(),
            imports_view(out@) == start + views(paths@).take(i as int).map_values(|p: Seq<char>| (p, line)),
        decreases paths@.len() - i,
    {
        let ghost before = imports_view(out@);
        out.push(ImportStatement { raw_path: paths[i].clone(), line });
        assert(imports_view(out@) =~= before.push((paths@[i as int]@, line)));
        i = i + 1;
        assert(start + views(paths@).take(i as int).map_values(|p: Seq<char>| (p, line)) =~= before.push((paths@[i - 1]@, line)));
    }
    assert(views(paths@).take(i as int) =~= views(paths@));
}

fn push_one(out: &mut Vec<ImportStatement>, path: String, line: u64)
    ensures
        imports_view(final(out)@) == imports_view(old(out)@).push((path@, line)),
{
    let ghost before = imports_view(out@);
    out.push(ImportStatement { raw_path: path, line });
    assert(imports_view(out@) =~= before.push((path@, line)));
}

fn go_spec_path_of(source: &[u8], t: &Vec<SyntaxNode>, i: usize) -> (r: Option<String>)
    requires
        i < t@.len(),
        nodes_well_formed(t@),
    ensures
        opt_seq(r) == go_spec_path(source@, t@, i as int, 0),
{
    let n = t[i].children.len();
    let mut j: usize = 0;
    while j < n
        invariant
            i < t@.len(),
            nodes_well_formed(t@),
            n == t@[i as int].children@.len(),
            j <= n,
            go_spec_path(source@, t@, i as int, j as int) == go_spec_path(source@, t@, i as int, 0),
        decreases n - j,
    {
        let ci = t[i].children[j];
        assert(ci < t@.len());
        let c = &t[ci];
        let text = node_text(source, c);
        let p = trim_chars(text.as_str(), chars1('"'), true, true);
        if str_eq(c.kind.as_str(), "interpreted_string_literal") && p.unicode_len() > 0 {
            return Some(p);
        }
        j = j + 1;
    }
    None
}

fn go_imports_of(source: &[u8], t: &Vec<SyntaxNode>, i: usize, out: &mut Vec<ImportStatement>)
    requires
        i < t@.len(),
        nodes_well_formed(t@),
    ensures
        imports_view(final(out)@) == imports_view(old(out)@) + go_decl_imports(source@, t@, i as int, t@[i as int].children@.len() as int),
{
    let n = t[i].children.len();
    let ghost start = imports_view(out@);
    let decl_line = node_line(&t[i]);
    let mut j: usize = 0;
    while j < n
        invariant
            i < t@.len(),
            nodes_well_formed(t@),
            n == t@[i as int].children@.len(),
            j <= n,
            decl_line == line_of(t@[i as int]),
            imports_view(out@) == start + go_decl_imports(source@, t@, i as int, j as int),
        decreases n - j,
    {
        let ci = t[i].children[j];
        assert(ci < t@.len());
        let ghost before = imports_view(out@);
        let c = &t[ci];
        if str_eq(c.kind.as_str(), "import_spec") {
            match go_spec_path_of(source, t, ci) {
                Some(p) => push_one(out, p, node_line(c)),
                None => {},
            }
            assert(imports_view(out@) =~= before + go_child_imports(source@, t@, i as int, ci as int));
        } else if str_eq(c.kind.as_str(), "import_spec_list") {
            let m = c.children.len();
            let mut k: usize = 0;
            while k < m
                invariant
                    ci < t@.len(),
                    nodes_well_formed(t@),
                    m == t@[ci as int].children@.len(),
                    k <= m,
                    imports_view(out@) == before + go_list_imports(source@, t@, ci as int, k as int),
                decreases m - k,
            {
                let si = t[ci].children[k];
                assert(si < t@.len());
                let ghost b2 = imports_view(out@);
                if str_eq(t[si].kind.as_str(), "import_spec") {
                    match go_spec_path_of(source, t, si) {
                        Some(p) => push_one(out, p, node_line(&t[si])),
                        None => {},
                    }
                    assert(imports_view(out@) =~= b2 + go_spec_import(source@, t@, si as int));
                }
                k = k + 1;
                assert(imports_view(out@) =~= before + go_list_imports(source@, t@, ci as int, k as int));
            }
            assert(imports_view(out@) =~= before + go_child_imports(source@, t@, i as int, ci as int));
        } else if str_eq(c.kind.as_str(), "interpreted_string_literal") {
            let text = node_text(source, c);
            let p = trim_chars(text.as_str(), chars1('"'), true, true);
            if p.unicode_len() > 0 {
                push_one(out, p, decl_line);
            }
            assert(imports_view(out@) =~= before + go_child_imports(source@, t@, i as int, ci as int));
        } else {
            assert(imports_view(out@) =~= before + go_child_imports(source@, t@, i as int, ci as int));
        }
        j = j + 1;
        assert(imports_view(out@) =~= start + go_decl_imports(source@, t@, i as int, j as int));
    }
}

fn c_include_of(source: &[u8], t: &Vec<SyntaxNode>, i: usize) -> (r: Option<String>)
    requires
        i < t@.len(),
        nodes_well_formed(t@),
    ensures
        opt_seq(r) == c_include_path(source@, t@, i as int, 0),
{
    let n = t[i].children.len();
    let mut j: usize = 0;
    while j < n
        invariant
            i < t@.len(),
            nodes_well_formed(t@),
            n == t@[i as int].children@.len(),
            j <= n,
            c_include_path(source@, t@, i as int, j as int) == c_include_path(source@, t@, i as int, 0),
        decreases n - j,
    {
        let ci = t[i].children[j];
        assert(ci < t@.len());
        let c = &t[ci];
        let text = node_text(source, c);
        let quoted = trim_chars(text.as_str(), chars1('"'), true, true);
        let a = trim_chars(text.as_str(), chars1('<'), true, false);
        let system = trim_chars(a.as_str(), chars1('>'), false, true);
        if str_eq(c.kind.as_str(), "string_literal") && quoted.unicode_len() > 0 {
            return Some(quoted);
        } else if str_eq(c.kind.as_str(), "system_lib_string") && system.unicode_len() > 0 {
            let mut p = "<".to_owned();
            p.append(system.as_str());
            p.append(">");
            return Some(p);
        }
        j = j + 1;
    }
    None
}

/// Appends the imports node `i` makes.
fn node_imports_of(source: &[u8], t: &Vec<SyntaxNode>, i: usize, language: SupportedLanguage, out: &mut Vec<ImportStatement>)
    requires
        i < t@.len(),
        nodes_well_formed(t@),
    ensures
        imports_view(final(out)@) == imports_view(old(out)@) + node_imports(source@, t@, i as int, language),
{
    let n = &t[i];
    let k = n.kind.as_str();
    let ghost before = imports_view(out@);
    match language {
        SupportedLanguage::Rust => {
            if str_eq(k, "use_declaration") {
                let text = node_text(source, n);
                push_all(out, rust_use_paths_of(text.as_str()), node_line(n));
            } else {
                assert(imports_view(out@) =~= before + Seq::<ImportV>::empty());
            }
        },
        SupportedLanguage::Python => {
            if str_eq(k, "import_statement") {
                let text = node_text(source, n);
                push_all(out, python_import_paths_of(text.as_str()), node_line(n));
            } else if str_eq(k, "import_from_statement") {
                let text = node_text(source, n);
                push_one(out, python_from_module_of(text.as_str()), node_line(n));
                assert(imports_view(out@) =~= before + node_imports(source@, t@, i as int, language));
            } else {
                assert(imports_view(out@) =~= before + Seq::<ImportV>::empty());
            }
        },
        SupportedLanguage::TypeScript | SupportedLanguage::JavaScript => {
            if str_eq(k, "import_statement") || str_eq(k, "export_statement") {
                let text = node_text(source, n);
                match js_statement_path_of(text.as_str()) {
                    Some(p) => push_one(out, p, node_line(n)),
                    None => {},
                }
                assert(imports_view(out@) =~= before + node_imports(source@, t@, i as int, language));
            } else if str_eq(k, "call_expression") {
                let text = node_text(source, n);
                match js_require_path_of(text.as_str()) {
                    Some(p) => push_one(out, p, node_line(n)),
                    None => {},
                }
                assert(imports_view(out@) =~= before + node_imports(source@, t@, i as int, language));
            } else {
                assert(imports_view(out@) =~= before + Seq::<ImportV>::empty());
            }
        },
        SupportedLanguage::Go => {
            if str_eq(k, "import_declaration") {
                go_imports_of(source, t, i, out);
            } else {
                assert(imports_view(out@) =~= before + Seq::<ImportV>::empty());
            }
        },
        SupportedLanguage::Java => {
            if str_eq(k, "import_declaration") {
                let text = node_text(source, n);
                push_one(out, java_import_path_of(text.as_str()), node_line(n));
                assert(imports_view(out@) =~= before + node_imports(source@, t@, i as int, language));
            } else {
                assert(imports_view(out@) =~= before + Seq::<ImportV>::empty());
            }
        },
        SupportedLanguage::C | SupportedLanguage::Cpp => {
            if str_eq(k, "preproc_include") {
                match c_include_of(source, t, i) {
                    Some(p) => push_one(out, p, node_line(n)),
                    None => {},
                }
                assert(imports_view(out@) =~= before + node_imports(source@, t@, i as int, language));
            } else {
                assert(imports_view(out@) =~= before + Seq::<ImportV>::empty());
            }
        },
    }
}

/// The imports of a syntax tree of `source`, node by node in pre-order.
pub fn imports_from_tree(source: &[u8], tree: &SyntaxTree, language: SupportedLanguage) -> (r: Vec<ImportStatement>)
    requires
        tree.well_formed(),
    ensures
        imports_view(r@) == tree_imports(source@, tree.nodes@, language),
{
    let t = &tree.nodes;
    let mut out: Vec<ImportStatement> = Vec::new();
    let mut i: usize = 0;
    assert(imports_view(out@) =~= Seq::<ImportV>::empty());
    while i < t.len()
        invariant
            i <= t@.len(),
            nodes_well_formed(t@),
            imports_view(out@) == tree_imports_upto(source@, t@, i as int, language),
        decreases t@.len() - i,
    {
        node_imports_of(source, t, i, language, &mut out);
        i = i + 1;
    }
    out
}

/// Why no imports could be read.
#[derive(Debug, Clone, PartialEq, Eq, Structural)]
pub enum ParseFailure {
    /// The grammar was refused or the parser gave no tree.
    NoTree,
}

/// The import statements of a source file: those of the syntax tree
/// tree-sitter gives of it, in pre-order.
pub fn extract_imports(source: &[u8], language: SupportedLanguage) -> (r: Result<Vec<ImportStatement>, ParseFailure>)
    ensures
        r matches Ok(v) && exists|t: SyntaxTree| t.well_formed() && tree_of_records(t, syntax_tree(source@, language))
            && imports_view(v@) == #[trigger] tree_imports(source@, t.nodes@, language),
{
    match parse_source(source, language) {
        Some(tree) => {
            let v = imports_from_tree(source, &tree, language);
            assert(tree.well_formed() && tree_of_records(tree, syntax_tree(source@, language))
                && imports_view(v@) == tree_imports(source@, tree.nodes@, language));
            Ok(v)
        },
        None => Err(ParseFailure::NoTree),
    }
}

/// Files larger than this are not read for imports: 512 KiB.
pub const MAX_IMPORT_FILE_BYTES: u64 = 524288u64;

/// The grammar to read a file's imports with: none for an empty file, a
/// file over `MAX_IMPORT_FILE_BYTES`, or a language without a grammar.
pub fn import_language(size_bytes: u64, language: &Option<String>) -> (r: Option<SupportedLanguage>)
    ensures
        r == (if size_bytes == 0 || size_bytes > MAX_IMPORT_FILE_BYTES {
            None
        } else {
            match *language {
                Some(l) => language_for_name(l@),
                None => None,
            }
        }),
{
    if size_bytes == 0 || size_bytes > MAX_IMPORT_FILE_BYTES {
        return None;
    }
    match language {
        Some(l) => SupportedLanguage::from_language_name(l.as_str()),
        None => None,
    }
}

} // verus!
