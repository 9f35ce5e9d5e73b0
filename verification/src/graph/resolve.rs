//! Resolution of import paths to files of the project, per language.
//!
//! The known files are given as a vector of normalized relative paths in
//! ascending order; where a rule scans them, the first match in that order wins.
use vstd::prelude::*;
use vstd::string::*;
use crate::compression::types::SupportedLanguage;
use crate::paths::{
    concat_str, contains_string, join_seq, join_strings, last_part, last_segment, parent_of,
    parent_part, replace_char, replace_char_spec, replace_seq, replace_str, rsplit_once,
    rsplit_once_spec, strip_prefix, strip_prefix_spec, strip_suffix, strip_suffix_spec, views,
};
use crate::text::{chars_of, ends_with, seq_ends_with, seq_starts_with, split_char, split_on, starts_with, str_eq, string_from_chars};

verus! {

/// `c` is one of the known files.
pub open spec fn is_known(known: Seq<String>, c: Seq<char>) -> bool {
    views(known).contains(c)
}

/// The first candidate that is a known file.
pub open spec fn first_known(cands: Seq<Seq<char>>, known: Seq<String>) -> Option<Seq<char>>
    decreases cands.len(),
{
    if cands.len() == 0 {
        None
    } else if is_known(known, cands[0]) {
        Some(cands[0])
    } else {
        first_known(cands.drop_first(), known)
    }
}

/// Index of the last element of `s` equal to `x`, or -1.
pub open spec fn rposition<A>(s: Seq<A>, x: A) -> int
    decreases s.len(),
{
    if s.len() == 0 {
        -1
    } else if s.last() == x {
        s.len() - 1
    } else {
        rposition(s.drop_last(), x)
    }
}

pub proof fn lemma_rposition<A>(s: Seq<A>, x: A)
    ensures
        -1 <= rposition(s, x) < s.len(),
        rposition(s, x) >= 0 ==> s[rposition(s, x)] == x,
    decreases s.len(),
{
    if s.len() > 0 && s.last() != x {
        lemma_rposition(s.drop_last(), x);
    }
}

/// The module path of a Rust source file: the path without `/mod.rs` or `.rs`.
pub open spec fn rust_mod_path_spec(source: Seq<char>) -> Seq<char> {
    match strip_suffix_spec(source, "/mod.rs"@) {
        Some(t) => t,
        None => match strip_suffix_spec(source, ".rs"@) {
            Some(t) => t,
            None => source,
        },
    }
}

/// The module path of the parent module of a Rust source file.
pub open spec fn rust_module_parent_spec(source: Seq<char>) -> Seq<char> {
    parent_of(rust_mod_path_spec(source), '/')
}

/// The directories of `source` up to and including its last `src`, or the
/// empty path when no directory is named `src`.
pub open spec fn rust_crate_root_spec(source: Seq<char>) -> Seq<char> {
    let parts = split_on(source, '/').drop_last();
    let i = rposition(parts, "src"@);
    if i < 0 {
        Seq::empty()
    } else {
        join_seq(parts.take(i + 1), "/"@)
    }
}

/// A module path `rest` (with `::`) placed under the directory `base`.
pub open spec fn qualify_rust_spec(base: Seq<char>, rest: Seq<char>) -> Seq<char> {
    let r = replace_seq(rest, "::"@, "/"@);
    if base.len() == 0 {
        r
    } else {
        base + "/"@ + r
    }
}

/// The files a Rust module path may live in, in the order they are tried.
pub open spec fn rust_module_candidates(mod_path: Seq<char>) -> Seq<Seq<char>> {
    let fp = replace_seq(mod_path, "::"@, "/"@);
    let first = seq![fp + ".rs"@, fp + "/mod.rs"@];
    match rsplit_once_spec(fp, '/') {
        Some(p) => first.push(p.0 + ".rs"@),
        None => first,
    }
}

/// Where a Rust `use` path resolves: `super::`, `self::` and `crate::` paths
/// only, relative to the parent module, the module itself or the crate root.
pub open spec fn resolve_rust_spec(import: Seq<char>, source: Seq<char>, known: Seq<String>) -> Option<Seq<char>> {
    match strip_prefix_spec(import, "super::"@) {
        Some(rest) => first_known(rust_module_candidates(qualify_rust_spec(rust_module_parent_spec(source), rest)), known),
        None => match strip_prefix_spec(import, "self::"@) {
            Some(rest) => first_known(rust_module_candidates(qualify_rust_spec(rust_mod_path_spec(source), rest)), known),
            None => match strip_prefix_spec(import, "crate::"@) {
                Some(rest) => first_known(rust_module_candidates(qualify_rust_spec(rust_crate_root_spec(source), rest)), known),
                None => None,
            },
        },
    }
}

/// Number of leading dots of a Python import.
pub open spec fn leading_dots(s: Seq<char>) -> nat
    decreases s.len(),
{
    if s.len() > 0 && s[0] == '.' {
        1 + leading_dots(s.drop_first())
    } else {
        0
    }
}

/// `base` with its last `levels` directories removed.
pub open spec fn ascend_spec(base: Seq<char>, levels: nat) -> Seq<char> {
    let parts = if base.len() == 0 { Seq::<Seq<char>>::empty() } else { split_on(base, '/') };
    let keep = if parts.len() > levels { parts.len() - levels } else { 0 };
    join_seq(parts.take(keep), "/"@)
}

/// `module` under the directory `base`.
pub open spec fn join_python_spec(base: Seq<char>, module: Seq<char>) -> Seq<char> {
    if base.len() == 0 {
        module
    } else if module.len() == 0 {
        base
    } else {
        base + "/"@ + module
    }
}

/// The files a Python module may live in.
pub open spec fn python_candidates(module: Seq<char>) -> Seq<Seq<char>> {
    seq![module + ".py"@, module + "/__init__.py"@]
}

/// Where a Python import resolves: a relative import is tried from the
/// package of the source file, ascending one package per dot after the
/// first; then the dotted path is tried from the project root.
pub open spec fn resolve_python_spec(import: Seq<char>, source: Seq<char>, known: Seq<String>) -> Option<Seq<char>> {
    let n = leading_dots(import);
    let fp = replace_char_spec(import.skip(n as int), '.', '/');
    let relative = if n > 0 {
        first_known(python_candidates(join_python_spec(ascend_spec(parent_of(source, '/'), (n - 1) as nat), fp)), known)
    } else {
        None
    };
    if relative is Some {
        relative
    } else {
        first_known(python_candidates(fp), known)
    }
}

/// One step of walking a relative path: `..` leaves a directory, `.` and
/// empty segments stay, others enter.
pub open spec fn simplify_step(parts: Seq<Seq<char>>, seg: Seq<char>) -> Seq<Seq<char>> {
    if seg == ".."@ {
        if parts.len() > 0 { parts.drop_last() } else { parts }
    } else if seg == "."@ || seg.len() == 0 {
        parts
    } else {
        parts.push(seg)
    }
}

pub open spec fn simplify_fold(parts: Seq<Seq<char>>, segs: Seq<Seq<char>>) -> Seq<Seq<char>>
    decreases segs.len(),
{
    if segs.len() == 0 {
        parts
    } else {
        simplify_fold(simplify_step(parts, segs[0]), segs.drop_first())
    }
}

/// The path reached from directory `base` by walking `relative`.
pub open spec fn simplify_relative_spec(base: Seq<char>, relative: Seq<char>) -> Seq<char> {
    let start = if base.len() == 0 { Seq::<Seq<char>>::empty() } else { split_on(base, '/') };
    join_seq(simplify_fold(start, split_on(relative, '/')), "/"@)
}

/// The files a JavaScript or TypeScript module path may denote.
pub open spec fn js_candidates(resolved: Seq<char>) -> Seq<Seq<char>> {
    seq![
        resolved,
        resolved + ".ts"@,
        resolved + ".tsx"@,
        resolved + ".js"@,
        resolved + ".jsx"@,
        resolved + "/index.ts"@,
        resolved + "/index.js"@,
    ]
}

/// Where a JavaScript or TypeScript import resolves: relative imports only.
pub open spec fn resolve_js_ts_spec(import: Seq<char>, source: Seq<char>, known: Seq<String>) -> Option<Seq<char>> {
    if !seq_starts_with(import, "."@) {
        None
    } else {
        first_known(js_candidates(simplify_relative_spec(parent_of(source, '/'), import)), known)
    }
}

/// A JavaScript or TypeScript import resolves only when it is relative;
/// then to the first known file among the module path itself and the path
/// with `.ts`, `.tsx`, `.js`, `.jsx`, `/index.ts` or `/index.js` appended,
/// tried in that order; and to nothing when none is known.
pub proof fn law_js_ts_resolution(import: Seq<char>, source: Seq<char>, known: Seq<String>)
    ensures
        !seq_starts_with(import, "."@) ==> resolve_js_ts_spec(import, source, known) is None,
        seq_starts_with(import, "."@) ==> ({
            let b = simplify_relative_spec(parent_of(source, '/'), import);
            let r = resolve_js_ts_spec(import, source, known);
            &&& (is_known(known, b) ==> r == Some(b))
            &&& (!is_known(known, b) && is_known(known, b + ".ts"@) ==> r == Some(b + ".ts"@))
            &&& (!is_known(known, b) && !is_known(known, b + ".ts"@) && is_known(known, b + ".tsx"@)
                ==> r == Some(b + ".tsx"@))
            &&& (!is_known(known, b) && !is_known(known, b + ".ts"@) && !is_known(known, b + ".tsx"@)
                && is_known(known, b + ".js"@) ==> r == Some(b + ".js"@))
            &&& (!is_known(known, b) && !is_known(known, b + ".ts"@) && !is_known(known, b + ".tsx"@)
                && !is_known(known, b + ".js"@) && is_known(known, b + ".jsx"@) ==> r == Some(b + ".jsx"@))
            &&& (!is_known(known, b) && !is_known(known, b + ".ts"@) && !is_known(known, b + ".tsx"@)
                && !is_known(known, b + ".js"@) && !is_known(known, b + ".jsx"@) && is_known(known, b + "/index.ts"@)
                ==> r == Some(b + "/index.ts"@))
            &&& (!is_known(known, b) && !is_known(known, b + ".ts"@) && !is_known(known, b + ".tsx"@)
                && !is_known(known, b + ".js"@) && !is_known(known, b + ".jsx"@) && !is_known(known, b + "/index.ts"@)
                && is_known(known, b + "/index.js"@) ==> r == Some(b + "/index.js"@))
            &&& (!is_known(known, b) && !is_known(known, b + ".ts"@) && !is_known(known, b + ".tsx"@)
                && !is_known(known, b + ".js"@) && !is_known(known, b + ".jsx"@) && !is_known(known, b + "/index.ts"@)
                && !is_known(known, b + "/index.js"@) ==> r is None)
        }),
{
    let b = simplify_relative_spec(parent_of(source, '/'), import);
    let c = js_candidates(b);
    reveal_with_fuel(first_known, 8);
    assert(c.drop_first() =~= seq![b + ".ts"@, b + ".tsx"@, b + ".js"@, b + ".jsx"@, b + "/index.ts"@, b + "/index.js"@]);
    assert(c.drop_first().drop_first() =~= seq![b + ".tsx"@, b + ".js"@, b + ".jsx"@, b + "/index.ts"@, b + "/index.js"@]);
    assert(c.drop_first().drop_first().drop_first() =~= seq![b + ".js"@, b + ".jsx"@, b + "/index.ts"@, b + "/index.js"@]);
    assert(c.drop_first().drop_first().drop_first().drop_first() =~= seq![b + ".jsx"@, b + "/index.ts"@, b + "/index.js"@]);
    assert(c.drop_first().drop_first().drop_first().drop_first().drop_first() =~= seq![b + "/index.ts"@, b + "/index.js"@]);
    assert(c.drop_first().drop_first().drop_first().drop_first().drop_first().drop_first() =~= seq![b + "/index.js"@]);
    assert(c.drop_first().drop_first().drop_first().drop_first().drop_first().drop_first().drop_first() =~= Seq::<Seq<char>>::empty());
}

/// The file name of `f` has the extension `go`, in either case.
pub open spec fn has_go_extension(f: Seq<char>) -> bool {
    let name = last_segment(f, '/');
    match rsplit_once_spec(name, '.') {
        Some(p) => p.0.len() > 0 && p.1.len() == 2 && (p.1[0] == 'g' || p.1[0] == 'G') && (p.1[1] == 'o' || p.1[1] == 'O'),
        None => false,
    }
}

/// `f` is a Go file in a directory named `dir`.
pub open spec fn go_file_in_dir(f: Seq<char>, dir: Seq<char>) -> bool {
    has_go_extension(f) && last_segment(parent_of(f, '/'), '/') == dir
}

/// The first known file that is a Go file in a directory named `dir`.
pub open spec fn first_go_file(known: Seq<Seq<char>>, dir: Seq<char>) -> Option<Seq<char>>
    decreases known.len(),
{
    if known.len() == 0 {
        None
    } else if go_file_in_dir(known[0], dir) {
        Some(known[0])
    } else {
        first_go_file(known.drop_first(), dir)
    }
}

/// Where a Go import resolves: a Go file in a directory named like the last
/// segment of the import path.
pub open spec fn resolve_go_spec(import: Seq<char>, known: Seq<String>) -> Option<Seq<char>> {
    first_go_file(views(known), last_segment(import, '/'))
}

/// `k` is `c`, or ends with `/` followed by `c`.
pub open spec fn java_suffix_matches(k: Seq<char>, c: Seq<char>) -> bool {
    k == c || (seq_ends_with(k, c) && seq_ends_with(k.take(k.len() - c.len()), "/"@))
}

pub open spec fn first_suffix_match(known: Seq<Seq<char>>, c: Seq<char>) -> Option<Seq<char>>
    decreases known.len(),
{
    if known.len() == 0 {
        None
    } else if java_suffix_matches(known[0], c) {
        Some(known[0])
    } else {
        first_suffix_match(known.drop_first(), c)
    }
}

/// A Java candidate path: known as it is, or as the tail of a known path.
pub open spec fn java_try(c: Seq<char>, known: Seq<String>) -> Option<Seq<char>> {
    if is_known(known, c) {
        Some(c)
    } else {
        first_suffix_match(views(known), c)
    }
}

/// The Java candidate paths for a slash-separated class path: the full path,
/// then the path without its first 0, 1, 2, ... segments.
pub open spec fn java_candidates(fp: Seq<char>) -> Seq<Seq<char>> {
    let parts = split_on(fp, '/');
    seq![fp + ".java"@] + Seq::new(parts.len(), |s: int| join_seq(parts.skip(s), "/"@) + ".java"@)
}

pub open spec fn first_java(cands: Seq<Seq<char>>, known: Seq<String>) -> Option<Seq<char>>
    decreases cands.len(),
{
    if cands.len() == 0 {
        None
    } else if java_try(cands[0], known) is Some {
        java_try(cands[0], known)
    } else {
        first_java(cands.drop_first(), known)
    }
}

/// Where a Java import resolves.
pub open spec fn resolve_java_spec(import: Seq<char>, known: Seq<String>) -> Option<Seq<char>> {
    first_java(java_candidates(replace_char_spec(import, '.', '/')), known)
}

/// Where a C or C++ include resolves: beside the including file, then from
/// the project root; system includes (`<...>`) never resolve.
pub open spec fn resolve_c_cpp_spec(import: Seq<char>, source: Seq<char>, known: Seq<String>) -> Option<Seq<char>> {
    if seq_starts_with(import, "<"@) {
        None
    } else {
        let p = parent_of(source, '/');
        let c = if p.len() == 0 { import } else { p + "/"@ + import };
        if is_known(known, c) {
            Some(c)
        } else if is_known(known, import) {
            Some(import)
        } else {
            None
        }
    }
}

/// Where an import of a file in the given language resolves.
pub open spec fn resolve_import_spec(
    import: Seq<char>,
    source: Seq<char>,
    language: SupportedLanguage,
    known: Seq<String>,
) -> Option<Seq<char>> {
    match language {
        SupportedLanguage::Rust => resolve_rust_spec(import, source, known),
        SupportedLanguage::Python => resolve_python_spec(import, source, known),
        SupportedLanguage::TypeScript | SupportedLanguage::JavaScript => resolve_js_ts_spec(import, source, known),
        SupportedLanguage::Go => resolve_go_spec(import, known),
        SupportedLanguage::Java => resolve_java_spec(import, known),
        SupportedLanguage::C | SupportedLanguage::Cpp => resolve_c_cpp_spec(import, source, known),
    }
}

/// The view of an optional string.
pub open spec fn opt_view(o: Option<String>) -> Option<Seq<char>> {
    match o {
        Some(s) => Some(s@),
        None => None,
    }
}

/// The first of `cands` that is a known file.
pub fn first_known_file(cands: &Vec<String>, known: &Vec<String>) -> (r: Option<String>)
    ensures
        opt_view(r) == first_known(views(cands@), known@),
{
    let mut i: usize = 0;
    assert(views(cands@).skip(0) =~= views(cands@));
    while i < cands.len()
        invariant
            i <= cands@.len(),
            first_known(views(cands@).skip(i as int), known@) == first_known(views(cands@), known@),
        decreases cands@.len() - i,
    {
        let ghost rest = views(cands@).skip(i as int);
        assert(rest[0] == cands@[i as int]@);
        assert(rest.drop_first() =~= views(cands@).skip(i + 1));
        if contains_string(known, cands[i].as_str()) {
            return Some(cands[i].clone());
        }
        i = i + 1;
    }
    None
}

/// The module path of a Rust source file.
pub fn rust_mod_path(source: &str) -> (r: String)
    ensures
        r@ == rust_mod_path_spec(source@),
{
    match strip_suffix(source, "/mod.rs") {
        Some(t) => t,
        None => match strip_suffix(source, ".rs") {
            Some(t) => t,
            None => source.to_owned(),
        },
    }
}

/// The module path of the parent module of a Rust source file.
pub fn rust_module_parent(source: &str) -> (r: String)
    ensures
        r@ == rust_module_parent_spec(source@),
{
    let m = rust_mod_path(source);
    parent_part(m.as_str(), '/')
}

/// The strings `v[from..to]`.
pub fn sub_strings(v: &Vec<String>, from: usize, to: usize) -> (r: Vec<String>)
    requires
        from <= to <= v@.len(),
    ensures
        views(r@) == views(v@).subrange(from as int, to as int),
{
    let mut r: Vec<String> = Vec::new();
    let mut i = from;
    while i < to
        invariant
            from <= i <= to <= v@.len(),
            views(r@) == views(v@).subrange(from as int, i as int),
        decreases to - i,
    {
        let ghost before = views(r@);
        let item = v[i].clone();
        assert(item@ == v@[i as int]@);
        r.push(item);
        assert(views(r@) =~= before.push(v@[i as int]@));
        i = i + 1;
        assert(views(r@) =~= views(v@).subrange(from as int, i as int));
    }
    r
}

/// The crate root directory of a Rust source file.
pub fn rust_crate_root(source: &str) -> (r: String)
    ensures
        r@ == rust_crate_root_spec(source@),
{
    let mut parts = split_char(source, '/');
    proof { crate::text::lemma_split_on_nonempty(source@, '/'); }
    let ghost all = views(parts@);
    parts.pop();
    assert(views(parts@) =~= all.drop_last());
    let ghost ps = views(parts@);
    proof { lemma_rposition(ps, "src"@); }
    let mut i = parts.len();
    assert(ps.take(i as int) =~= ps);
    while i > 0
        invariant
            i <= parts@.len(),
            ps == views(parts@),
            ps == split_on(source@, '/').drop_last(),
            rposition(ps, "src"@) == rposition(ps.take(i as int), "src"@),
        decreases i,
    {
        assert(ps.take(i as int).drop_last() =~= ps.take(i - 1));
        assert(ps.take(i as int).last() == parts@[i - 1]@);
        if str_eq(parts[i - 1].as_str(), "src") {
            assert(rposition(ps.take(i as int), "src"@) == i - 1);
            let kept = sub_strings(&parts, 0, i);
            assert(views(kept@) =~= ps.take(i as int));
            assert(ps == split_on(source@, '/').drop_last());
            assert(rposition(ps, "src"@) == i - 1);
            let joined = join_strings(&kept, "/");
            assert(joined@ == join_seq(ps.take(i as int), "/"@));
            return joined;
        }
        i = i - 1;
    }
    String::new()
}

/// A module path placed under a directory.
pub fn qualify_rust_mod_path(base: &str, rest: &str) -> (r: String)
    ensures
        r@ == qualify_rust_spec(base@, rest@),
{
    proof { reveal_strlit("::"); }
    let r = replace_str(rest, "::", "/");
    if base.unicode_len() == 0 {
        r
    } else {
        let mut out = base.to_owned();
        out.append("/");
        out.append(r.as_str());
        out
    }
}

/// The first of the files a Rust module path may live in that is known.
pub fn try_resolve_rust_module(mod_path: &str, known: &Vec<String>) -> (r: Option<String>)
    ensures
        opt_view(r) == first_known(rust_module_candidates(mod_path@), known@),
{
    proof { reveal_strlit("::"); }
    let fp = replace_str(mod_path, "::", "/");
    let mut cands: Vec<String> = Vec::new();
    cands.push(concat_str(fp.as_str(), ".rs"));
    cands.push(concat_str(fp.as_str(), "/mod.rs"));
    match rsplit_once(fp.as_str(), '/') {
        Some(p) => {
            cands.push(concat_str(p.0.as_str(), ".rs"));
        },
        None => {},
    }
    assert(views(cands@) =~= rust_module_candidates(mod_path@));
    first_known_file(&cands, known)
}

/// Resolves a Rust `use` path to a known file.
pub fn resolve_rust_import(import: &str, source: &str, known: &Vec<String>) -> (r: Option<String>)
    ensures
        opt_view(r) == resolve_rust_spec(import@, source@, known@),
{
    if let Some(rest) = strip_prefix(import, "super::") {
        let parent = rust_module_parent(source);
        let q = qualify_rust_mod_path(parent.as_str(), rest.as_str());
        return try_resolve_rust_module(q.as_str(), known);
    }
    if let Some(rest) = strip_prefix(import, "self::") {
        let m = rust_mod_path(source);
        let q = qualify_rust_mod_path(m.as_str(), rest.as_str());
        return try_resolve_rust_module(q.as_str(), known);
    }
    match strip_prefix(import, "crate::") {
        Some(rest) => {
            let root = rust_crate_root(source);
            let q = qualify_rust_mod_path(root.as_str(), rest.as_str());
            try_resolve_rust_module(q.as_str(), known)
        },
        None => None,
    }
}

/// `base` with its last `levels` directories removed.
pub fn ascend_python_package(base: &str, levels: usize) -> (r: String)
    ensures
        r@ == ascend_spec(base@, levels as nat),
{
    let mut parts: Vec<String> = if base.unicode_len() == 0 {
        Vec::new()
    } else {
        split_char(base, '/')
    };
    let ghost all = views(parts@);
    let keep = if parts.len() > levels { parts.len() - levels } else { 0 };
    parts.truncate(keep);
    assert(views(parts@) =~= all.take(keep as int));
    join_strings(&parts, "/")
}

/// A module path under a package directory.
pub fn join_python_mod_path(base: &str, module: &str) -> (r: String)
    ensures
        r@ == join_python_spec(base@, module@),
{
    if base.unicode_len() == 0 {
        module.to_owned()
    } else if module.unicode_len() == 0 {
        base.to_owned()
    } else {
        let mut out = base.to_owned();
        out.append("/");
        out.append(module);
        out
    }
}

/// The files a Python module may live in.
pub fn python_module_candidates(module: &str) -> (r: Vec<String>)
    ensures
        views(r@) == python_candidates(module@),
{
    let mut r: Vec<String> = Vec::new();
    r.push(concat_str(module, ".py"));
    r.push(concat_str(module, "/__init__.py"));
    assert(views(r@) =~= python_candidates(module@));
    r
}

/// Number of leading dots of `s`.
pub fn count_leading_dots(s: &Vec<char>) -> (r: usize)
    ensures
        r == leading_dots(s@),
        r <= s@.len(),
{
    let mut i: usize = 0;
    assert(s@.skip(0) =~= s@);
    while i < s.len() && s[i] == '.'
        invariant
            i <= s@.len(),
            leading_dots(s@) == i + leading_dots(s@.skip(i as int)),
        decreases s@.len() - i,
    {
        assert(s@.skip(i as int).drop_first() =~= s@.skip(i + 1));
        i = i + 1;
    }
    i
}

/// Resolves a Python import to a known file.
pub fn resolve_python_import(import: &str, source: &str, known: &Vec<String>) -> (r: Option<String>)
    ensures
        opt_view(r) == resolve_python_spec(import@, source@, known@),
{
    let chars = chars_of(import);
    let n = count_leading_dots(&chars);
    let module = string_from_chars(&chars, n, chars.len());
    assert(module@ =~= import@.skip(n as int));
    let fp = replace_char(module.as_str(), '.', '/');
    if n > 0 {
        let module_base = parent_part(source, '/');
        let base = ascend_python_package(module_base.as_str(), n - 1);
        let rel = join_python_mod_path(base.as_str(), fp.as_str());
        let cands = python_module_candidates(rel.as_str());
        let found = first_known_file(&cands, known);
        if found.is_some() {
            return found;
        }
    }
    let cands = python_module_candidates(fp.as_str());
    first_known_file(&cands, known)
}

proof fn lemma_simplify_fold_skip(parts: Seq<Seq<char>>, segs: Seq<Seq<char>>, i: int)
    requires
        0 <= i < segs.len(),
    ensures
        simplify_fold(parts, segs.skip(i)) == simplify_fold(simplify_step(parts, segs[i]), segs.skip(i + 1)),
{
    assert(segs.skip(i).drop_first() =~= segs.skip(i + 1));
}

/// The path reached from directory `base` by walking `relative`.
pub fn simplify_relative_path(base: &str, relative: &str) -> (r: String)
    ensures
        r@ == simplify_relative_spec(base@, relative@),
{
    proof { reveal_strlit(".."); reveal_strlit("."); }
    let mut parts: Vec<String> = if base.unicode_len() == 0 {
        let e: Vec<String> = Vec::new();
        assert(views(e@) =~= Seq::<Seq<char>>::empty());
        e
    } else {
        split_char(base, '/')
    };
    let segs = split_char(relative, '/');
    let ghost segv = views(segs@);
    let ghost target = simplify_fold(views(parts@), segv);
    let mut i: usize = 0;
    assert(segv.skip(0) =~= segv);
    while i < segs.len()
        invariant
            i <= segs@.len(),
            segv == views(segs@),
            simplify_fold(views(parts@), segv.skip(i as int)) == target,
        decreases segs@.len() - i,
    {
        proof { lemma_simplify_fold_skip(views(parts@), segv, i as int); }
        let ghost before = views(parts@);
        let seg = segs[i].as_str();
        if str_eq(seg, "..") {
            parts.pop();
            assert(views(parts@) =~= simplify_step(before, segv[i as int]));
        } else if str_eq(seg, ".") || seg.unicode_len() == 0 {
            assert(views(parts@) =~= simplify_step(before, segv[i as int]));
        } else {
            parts.push(segs[i].clone());
            assert(views(parts@) =~= simplify_step(before, segv[i as int]));
        }
        i = i + 1;
    }
    assert(segv.skip(i as int) =~= Seq::<Seq<char>>::empty());
    join_strings(&parts, "/")
}

/// Resolves a relative JavaScript or TypeScript import to a known file.
pub fn resolve_js_ts_import(import: &str, source: &str, known: &Vec<String>) -> (r: Option<String>)
    ensures
        opt_view(r) == resolve_js_ts_spec(import@, source@, known@),
{
    if !starts_with(import, ".") {
        return None;
    }
    let parent = parent_part(source, '/');
    let resolved = simplify_relative_path(parent.as_str(), import);
    let mut cands: Vec<String> = Vec::new();
    cands.push(resolved.clone());
    cands.push(concat_str(resolved.as_str(), ".ts"));
    cands.push(concat_str(resolved.as_str(), ".tsx"));
    cands.push(concat_str(resolved.as_str(), ".js"));
    cands.push(concat_str(resolved.as_str(), ".jsx"));
    cands.push(concat_str(resolved.as_str(), "/index.ts"));
    cands.push(concat_str(resolved.as_str(), "/index.js"));
    assert(views(cands@) =~= js_candidates(resolved@));
    first_known_file(&cands, known)
}

/// Whether the file name of `f` has the extension `go`, in either case.
pub fn is_go_file(f: &str) -> (r: bool)
    ensures
        r == has_go_extension(f@),
{
    let name = last_part(f, '/');
    match rsplit_once(name.as_str(), '.') {
        Some(p) => {
            let ext = chars_of(p.1.as_str());
            p.0.unicode_len() > 0 && ext.len() == 2 && (ext[0] == 'g' || ext[0] == 'G') && (ext[1] == 'o' || ext[1] == 'O')
        },
        None => false,
    }
}

/// Resolves a Go import to the first known Go file in a directory named like
/// the import's last segment.
pub fn resolve_go_import(import: &str, known: &Vec<String>) -> (r: Option<String>)
    ensures
        opt_view(r) == resolve_go_spec(import@, known@),
{
    let dir = last_part(import, '/');
    let mut i: usize = 0;
    assert(views(known@).skip(0) =~= views(known@));
    while i < known.len()
        invariant
            i <= known@.len(),
            first_go_file(views(known@).skip(i as int), dir@) == resolve_go_spec(import@, known@),
        decreases known@.len() - i,
    {
        let ghost rest = views(known@).skip(i as int);
        assert(rest[0] == known@[i as int]@);
        assert(rest.drop_first() =~= views(known@).skip(i + 1));
        let f = known[i].as_str();
        if is_go_file(f) {
            let file_dir = parent_part(f, '/');
            let dir_name = last_part(file_dir.as_str(), '/');
            if str_eq(dir_name.as_str(), dir.as_str()) {
                return Some(known[i].clone());
            }
        }
        i = i + 1;
    }
    None
}

/// The first known path that is `c` or ends with `/` followed by `c`.
pub fn find_java_suffix_match(c: &str, known: &Vec<String>) -> (r: Option<String>)
    ensures
        opt_view(r) == first_suffix_match(views(known@), c@),
{
    let mut i: usize = 0;
    assert(views(known@).skip(0) =~= views(known@));
    while i < known.len()
        invariant
            i <= known@.len(),
            first_suffix_match(views(known@).skip(i as int), c@) == first_suffix_match(views(known@), c@),
        decreases known@.len() - i,
    {
        let ghost rest = views(known@).skip(i as int);
        assert(rest[0] == known@[i as int]@);
        assert(rest.drop_first() =~= views(known@).skip(i + 1));
        let k = known[i].as_str();
        let hit = if str_eq(k, c) {
            true
        } else {
            match strip_suffix(k, c) {
                Some(prefix) => ends_with(prefix.as_str(), "/"),
                None => false,
            }
        };
        if hit {
            return Some(known[i].clone());
        }
        i = i + 1;
    }
    None
}

fn java_try_candidate(c: &str, known: &Vec<String>) -> (r: Option<String>)
    ensures
        opt_view(r) == java_try(c@, known@),
{
    if contains_string(known, c) {
        Some(c.to_owned())
    } else {
        find_java_suffix_match(c, known)
    }
}

/// Resolves a Java import to a known file.
pub fn resolve_java_import(import: &str, known: &Vec<String>) -> (r: Option<String>)
    ensures
        opt_view(r) == resolve_java_spec(import@, known@),
{
    let fp = replace_char(import, '.', '/');
    let parts = split_char(fp.as_str(), '/');
    let mut cands: Vec<String> = Vec::new();
    cands.push(concat_str(fp.as_str(), ".java"));
    let mut s: usize = 0;
    while s < parts.len()
        invariant
            s <= parts@.len(),
            views(parts@) == split_on(fp@, '/'),
            views(cands@) == java_candidates(fp@).take(s + 1),
        decreases parts@.len() - s,
    {
        let tail = sub_strings(&parts, s, parts.len());
        assert(views(tail@) =~= split_on(fp@, '/').skip(s as int));
        let joined = join_strings(&tail, "/");
        let ghost before = views(cands@);
        cands.push(concat_str(joined.as_str(), ".java"));
        proof {
            let jc = java_candidates(fp@);
            assert(jc[s + 1] == join_seq(split_on(fp@, '/').skip(s as int), "/"@) + ".java"@);
            assert(views(cands@) =~= before.push(jc[s + 1]));
            assert(jc.take(s + 2) =~= jc.take(s + 1).push(jc[s + 1]));
        }
        s = s + 1;
    }
    assert(java_candidates(fp@).len() == parts@.len() + 1);
    assert(java_candidates(fp@).take(parts@.len() as int + 1) =~= java_candidates(fp@));
    assert(views(cands@) =~= java_candidates(fp@));
    let mut i: usize = 0;
    let ghost cv = views(cands@);
    assert(cv.skip(0) =~= cv);
    while i < cands.len()
        invariant
            i <= cands@.len(),
            cv == views(cands@),
            first_java(cv.skip(i as int), known@) == first_java(cv, known@),
            first_java(cv, known@) == resolve_java_spec(import@, known@),
        decreases cands@.len() - i,
    {
        assert(cv.skip(i as int)[0] == cands@[i as int]@);
        assert(cv.skip(i as int).drop_first() =~= cv.skip(i + 1));
        let found = java_try_candidate(cands[i].as_str(), known);
        if found.is_some() {
            assert(first_java(cv.skip(i as int), known@) == java_try(cv[i as int], known@));
            return found;
        }
        i = i + 1;
    }
    None
}

/// Resolves a C or C++ include to a known file.
pub fn resolve_c_cpp_import(import: &str, source: &str, known: &Vec<String>) -> (r: Option<String>)
    ensures
        opt_view(r) == resolve_c_cpp_spec(import@, source@, known@),
{
    if starts_with(import, "<") {
        return None;
    }
    let parent = parent_part(source, '/');
    let c = if parent.unicode_len() == 0 {
        import.to_owned()
    } else {
        let mut out = parent.clone();
        out.append("/");
        out.append(import);
        out
    };
    if contains_string(known, c.as_str()) {
        return Some(c);
    }
    if contains_string(known, import) {
        return Some(import.to_owned());
    }
    None
}

/// Resolves an import of a file in the given language to a known file.
pub fn resolve_import(import: &str, source: &str, language: SupportedLanguage, known: &Vec<String>) -> (r: Option<String>)
    ensures
        opt_view(r) == resolve_import_spec(import@, source@, language, known@),
{
    match language {
        SupportedLanguage::Rust => resolve_rust_import(import, source, known),
        SupportedLanguage::Python => resolve_python_import(import, source, known),
        SupportedLanguage::TypeScript | SupportedLanguage::JavaScript => resolve_js_ts_import(import, source, known),
        SupportedLanguage::Go => resolve_go_import(import, known),
        SupportedLanguage::Java => resolve_java_import(import, known),
        SupportedLanguage::C | SupportedLanguage::Cpp => resolve_c_cpp_import(import, source, known),
    }
}

} // verus!
