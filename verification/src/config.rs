//! Language and comment-style descriptions.
use vstd::prelude::*;
use vstd::string::*;
use crate::paths::{last_index_of, last_part, last_segment, lemma_last_index_of, rfind_char};
use crate::text::{chars_of, str_eq};

verus! {

/// The comment delimiters of a language.
#[derive(Debug, Clone, Copy, PartialEq, Eq)]
pub struct CommentStyle {
    pub single_line: Option<&'static str>,
    pub multi_line_start: Option<&'static str>,
    pub multi_line_end: Option<&'static str>,
}

impl CommentStyle {
    /// A style with the given delimiters.
    pub fn new(
        single_line: Option<&'static str>,
        multi_line_start: Option<&'static str>,
        multi_line_end: Option<&'static str>,
    ) -> (r: Self)
        ensures
            r.single_line == single_line,
            r.multi_line_start == multi_line_start,
            r.multi_line_end == multi_line_end,
    {
        CommentStyle { single_line, multi_line_start, multi_line_end }
    }

    /// The style has no comment syntax at all.
    pub open spec fn spec_is_commentless(self) -> bool {
        self.single_line is None && self.multi_line_start is None && self.multi_line_end is None
    }

    /// Whether the style has no comment syntax at all.
    pub fn is_commentless(self) -> (r: bool)
        ensures
            r == self.spec_is_commentless(),
    {
        self.single_line.is_none() && self.multi_line_start.is_none()
            && self.multi_line_end.is_none()
    }

    /// Every delimiter that is present is non-empty.
    pub open spec fn well_formed(self) -> bool {
        &&& (self.single_line matches Some(t) ==> t.spec_bytes().len() > 0)
        &&& (self.multi_line_start matches Some(t) ==> t.spec_bytes().len() > 0)
        &&& (self.multi_line_end matches Some(t) ==> t.spec_bytes().len() > 0)
    }
}

/// A language known to the line counter.
#[derive(Debug, Clone, Copy, PartialEq, Eq)]
pub struct LanguageConfig {
    pub name: &'static str,
    pub extensions: &'static [&'static str],
    pub exact_names: &'static [&'static str],
    pub comment_style: &'static CommentStyle,
}

impl LanguageConfig {
    /// A language with the given name, extensions, exact file names and style.
    pub fn new(
        name: &'static str,
        extensions: &'static [&'static str],
        exact_names: &'static [&'static str],
        comment_style: &'static CommentStyle,
    ) -> (r: Self)
        ensures
            r.name == name,
            r.extensions == extensions,
            r.exact_names == exact_names,
            r.comment_style == comment_style,
    {
        LanguageConfig { name, extensions, exact_names, comment_style }
    }
}

/// `//` line comments and `/* */` blocks.
pub fn c_style() -> (r: &'static CommentStyle)
    ensures
        r.single_line == Some("//"),
        r.multi_line_start == Some("/*"),
        r.multi_line_end == Some("*/"),
        r.well_formed(),
{
    proof { reveal_strlit("//"); reveal_strlit("/*"); reveal_strlit("*/"); }
    &CommentStyle { single_line: Some("//"), multi_line_start: Some("/*"), multi_line_end: Some("*/") }
}

/// `#` line comments.
pub fn shell_style() -> (r: &'static CommentStyle)
    ensures
        r.single_line == Some("#"),
        r.multi_line_start is None,
        r.multi_line_end is None,
        r.well_formed(),
{
    proof { reveal_strlit("#"); }
    &CommentStyle { single_line: Some("#"), multi_line_start: None, multi_line_end: None }
}

/// `#` line comments and `"""` blocks.
pub fn python_style() -> (r: &'static CommentStyle)
    ensures
        r.single_line == Some("#"),
        r.multi_line_start == Some("\"\"\""),
        r.multi_line_end == Some("\"\"\""),
        r.well_formed(),
{
    proof { reveal_strlit("#"); reveal_strlit("\"\"\""); reveal_strlit("\"\"\""); }
    &CommentStyle { single_line: Some("#"), multi_line_start: Some("\"\"\""), multi_line_end: Some("\"\"\"") }
}

/// `--` line comments and `/* */` blocks.
pub fn sql_style() -> (r: &'static CommentStyle)
    ensures
        r.single_line == Some("--"),
        r.multi_line_start == Some("/*"),
        r.multi_line_end == Some("*/"),
        r.well_formed(),
{
    proof { reveal_strlit("--"); reveal_strlit("/*"); reveal_strlit("*/"); }
    &CommentStyle { single_line: Some("--"), multi_line_start: Some("/*"), multi_line_end: Some("*/") }
}

/// `<!-- -->` blocks only.
pub fn html_style() -> (r: &'static CommentStyle)
    ensures
        r.single_line is None,
        r.multi_line_start == Some("<!--"),
        r.multi_line_end == Some("-->"),
        r.well_formed(),
{
    proof { reveal_strlit("<!--"); reveal_strlit("-->"); }
    &CommentStyle { single_line: None, multi_line_start: Some("<!--"), multi_line_end: Some("-->") }
}

/// `;` line comments.
pub fn lisp_style() -> (r: &'static CommentStyle)
    ensures
        r.single_line == Some(";"),
        r.multi_line_start is None,
        r.multi_line_end is None,
        r.well_formed(),
{
    proof { reveal_strlit(";"); }
    &CommentStyle { single_line: Some(";"), multi_line_start: None, multi_line_end: None }
}

/// `--` line comments and `{- -}` blocks.
pub fn haskell_style() -> (r: &'static CommentStyle)
    ensures
        r.single_line == Some("--"),
        r.multi_line_start == Some("{-"),
        r.multi_line_end == Some("-}"),
        r.well_formed(),
{
    proof { reveal_strlit("--"); reveal_strlit("{-"); reveal_strlit("-}"); }
    &CommentStyle { single_line: Some("--"), multi_line_start: Some("{-"), multi_line_end: Some("-}") }
}

/// `--` line comments and `--[[ ]]` blocks.
pub fn lua_style() -> (r: &'static CommentStyle)
    ensures
        r.single_line == Some("--"),
        r.multi_line_start == Some("--[["),
        r.multi_line_end == Some("]]"),
        r.well_formed(),
{
    proof { reveal_strlit("--"); reveal_strlit("--[["); reveal_strlit("]]"); }
    &CommentStyle { single_line: Some("--"), multi_line_start: Some("--[["), multi_line_end: Some("]]") }
}

/// `/* */` blocks only.
pub fn css_style() -> (r: &'static CommentStyle)
    ensures
        r.single_line is None,
        r.multi_line_start == Some("/*"),
        r.multi_line_end == Some("*/"),
        r.well_formed(),
{
    proof { reveal_strlit("/*"); reveal_strlit("*/"); }
    &CommentStyle { single_line: None, multi_line_start: Some("/*"), multi_line_end: Some("*/") }
}

/// `%` line comments.
pub fn percent_style() -> (r: &'static CommentStyle)
    ensures
        r.single_line == Some("%"),
        r.multi_line_start is None,
        r.multi_line_end is None,
        r.well_formed(),
{
    proof { reveal_strlit("%"); }
    &CommentStyle { single_line: Some("%"), multi_line_start: None, multi_line_end: None }
}

/// `"` line comments.
pub fn quote_style() -> (r: &'static CommentStyle)
    ensures
        r.single_line == Some("\""),
        r.multi_line_start is None,
        r.multi_line_end is None,
        r.well_formed(),
{
    proof { reveal_strlit("\""); }
    &CommentStyle { single_line: Some("\""), multi_line_start: None, multi_line_end: None }
}

/// `(* *)` blocks only.
pub fn ml_style() -> (r: &'static CommentStyle)
    ensures
        r.single_line is None,
        r.multi_line_start == Some("(*"),
        r.multi_line_end == Some("*)"),
        r.well_formed(),
{
    proof { reveal_strlit("(*"); reveal_strlit("*)"); }
    &CommentStyle { single_line: None, multi_line_start: Some("(*"), multi_line_end: Some("*)") }
}

/// `!` line comments.
pub fn bang_style() -> (r: &'static CommentStyle)
    ensures
        r.single_line == Some("!"),
        r.multi_line_start is None,
        r.multi_line_end is None,
        r.well_formed(),
{
    proof { reveal_strlit("!"); }
    &CommentStyle { single_line: Some("!"), multi_line_start: None, multi_line_end: None }
}

/// `//` line comments only.
pub fn double_slash_style() -> (r: &'static CommentStyle)
    ensures
        r.single_line == Some("//"),
        r.multi_line_start is None,
        r.multi_line_end is None,
        r.well_formed(),
{
    proof { reveal_strlit("//"); }
    &CommentStyle { single_line: Some("//"), multi_line_start: None, multi_line_end: None }
}

/// No comment syntax.
pub fn no_comment() -> (r: &'static CommentStyle)
    ensures
        r.spec_is_commentless(),
        r.well_formed(),
{
    &CommentStyle { single_line: None, multi_line_start: None, multi_line_end: None }
}

/// `--` line comments.
pub fn dashdash_style() -> (r: &'static CommentStyle)
    ensures
        r.single_line == Some("--"),
        r.multi_line_start is None,
        r.multi_line_end is None,
        r.well_formed(),
{
    proof { reveal_strlit("--"); }
    &CommentStyle { single_line: Some("--"), multi_line_start: None, multi_line_end: None }
}

/// `::` line comments.
pub fn rem_style() -> (r: &'static CommentStyle)
    ensures
        r.single_line == Some("::"),
        r.multi_line_start is None,
        r.multi_line_end is None,
        r.well_formed(),
{
    proof { reveal_strlit("::"); }
    &CommentStyle { single_line: Some("::"), multi_line_start: None, multi_line_end: None }
}

/// `//` line comments and `(* *)` blocks.
pub fn fsharp_style() -> (r: &'static CommentStyle)
    ensures
        r.single_line == Some("//"),
        r.multi_line_start == Some("(*"),
        r.multi_line_end == Some("*)"),
        r.well_formed(),
{
    proof { reveal_strlit("//"); reveal_strlit("(*"); reveal_strlit("*)"); }
    &CommentStyle { single_line: Some("//"), multi_line_start: Some("(*"), multi_line_end: Some("*)") }
}

/// `#` line comments and `#= =#` blocks.
pub fn julia_style() -> (r: &'static CommentStyle)
    ensures
        r.single_line == Some("#"),
        r.multi_line_start == Some("#="),
        r.multi_line_end == Some("=#"),
        r.well_formed(),
{
    proof { reveal_strlit("#"); reveal_strlit("#="); reveal_strlit("=#"); }
    &CommentStyle { single_line: Some("#"), multi_line_start: Some("#="), multi_line_end: Some("=#") }
}

/// `#` line comments and `/* */` blocks.
pub fn nix_style() -> (r: &'static CommentStyle)
    ensures
        r.single_line == Some("#"),
        r.multi_line_start == Some("/*"),
        r.multi_line_end == Some("*/"),
        r.well_formed(),
{
    proof { reveal_strlit("#"); reveal_strlit("/*"); reveal_strlit("*/"); }
    &CommentStyle { single_line: Some("#"), multi_line_start: Some("/*"), multi_line_end: Some("*/") }
}

/// `#` line comments and `<# #>` blocks.
pub fn powershell_style() -> (r: &'static CommentStyle)
    ensures
        r.single_line == Some("#"),
        r.multi_line_start == Some("<#"),
        r.multi_line_end == Some("#>"),
        r.well_formed(),
{
    proof { reveal_strlit("#"); reveal_strlit("<#"); reveal_strlit("#>"); }
    &CommentStyle { single_line: Some("#"), multi_line_start: Some("<#"), multi_line_end: Some("#>") }
}

/// Every language of the table has a well-formed comment style.
pub open spec fn table_well_formed(t: Seq<LanguageConfig>) -> bool {
    forall|i: int| 0 <= i < t.len() ==> (#[trigger] t[i]).comment_style.well_formed()
}

fn push_language(
    t: &mut Vec<LanguageConfig>,
    name: &'static str,
    extensions: &'static [&'static str],
    exact_names: &'static [&'static str],
    comment_style: &'static CommentStyle,
)
    requires
        table_well_formed(old(t)@),
        comment_style.well_formed(),
    ensures
        final(t)@ == old(t)@.push(LanguageConfig { name, extensions, exact_names, comment_style }),
        table_well_formed(final(t)@),
{
    t.push(LanguageConfig::new(name, extensions, exact_names, comment_style));
}

/// The table of languages that the line counter knows, in alphabetical
/// order of their names.
pub open spec fn builtin_table() -> Seq<LanguageConfig> {
    table_part_0()
        + table_part_1()
        + table_part_2()
        + table_part_3()
        + table_part_4()
        + table_part_5()
        + table_part_6()
        + table_part_7()
        + table_part_8()
        + table_part_9()
        + table_part_10()
        + table_part_11()
        + table_part_12()
}

/// Part 0 of the language table.
pub open spec fn table_part_0() -> Seq<LanguageConfig> {
    seq![
        LanguageConfig { name: "AWK", extensions: &[".awk"], exact_names: &[], comment_style: &CommentStyle { single_line: Some("#"), multi_line_start: None, multi_line_end: None } },
        LanguageConfig { name: "ActionScript", extensions: &[".as"], exact_names: &[], comment_style: &CommentStyle { single_line: Some("//"), multi_line_start: Some("/*"), multi_line_end: Some("*/") } },
        LanguageConfig { name: "Ada", extensions: &[".ada", ".adb", ".ads"], exact_names: &[], comment_style: &CommentStyle { single_line: Some("--"), multi_line_start: None, multi_line_end: None } },
        LanguageConfig { name: "Agda", extensions: &[".agda"], exact_names: &[], comment_style: &CommentStyle { single_line: Some("--"), multi_line_start: Some("{-"), multi_line_end: Some("-}") } },
        LanguageConfig { name: "AppleScript", extensions: &[".applescript"], exact_names: &[], comment_style: &CommentStyle { single_line: Some("--"), multi_line_start: None, multi_line_end: None } },
        LanguageConfig { name: "Arduino", extensions: &[".ino"], exact_names: &[], comment_style: &CommentStyle { single_line: Some("//"), multi_line_start: Some("/*"), multi_line_end: Some("*/") } },
        LanguageConfig { name: "AsciiDoc", extensions: &[".adoc", ".asciidoc"], exact_names: &[], comment_style: &CommentStyle { single_line: Some("//"), multi_line_start: None, multi_line_end: None } },
        LanguageConfig { name: "Assembly", extensions: &[".asm", ".s"], exact_names: &[], comment_style: &CommentStyle { single_line: Some(";"), multi_line_start: None, multi_line_end: None } }
    ]
}

fn push_part_0(t: &mut Vec<LanguageConfig>)
    requires
        table_well_formed(old(t)@),
    ensures
        final(t)@ == old(t)@ + table_part_0(),
        table_well_formed(final(t)@),
{
    let ghost start = t@;
    push_language(t, "AWK", &[".awk"], &[], shell_style());
    push_language(t, "ActionScript", &[".as"], &[], c_style());
    push_language(t, "Ada", &[".ada", ".adb", ".ads"], &[], dashdash_style());
    push_language(t, "Agda", &[".agda"], &[], haskell_style());
    push_language(t, "AppleScript", &[".applescript"], &[], dashdash_style());
    push_language(t, "Arduino", &[".ino"], &[], c_style());
    push_language(t, "AsciiDoc", &[".adoc", ".asciidoc"], &[], double_slash_style());
    push_language(t, "Assembly", &[".asm", ".s"], &[], lisp_style());
    assert(t@ =~= start + table_part_0());
}

/// Part 1 of the language table.
pub open spec fn table_part_1() -> Seq<LanguageConfig> {
    seq![
        LanguageConfig { name: "Astro", extensions: &[".astro"], exact_names: &[], comment_style: &CommentStyle { single_line: None, multi_line_start: Some("<!--"), multi_line_end: Some("-->") } },
        LanguageConfig { name: "Batch", extensions: &[".bat", ".cmd"], exact_names: &[], comment_style: &CommentStyle { single_line: Some("::"), multi_line_start: None, multi_line_end: None } },
        LanguageConfig { name: "Bazel", extensions: &[".bzl"], exact_names: &["BUILD", "BUILD.bazel", "WORKSPACE"], comment_style: &CommentStyle { single_line: Some("#"), multi_line_start: None, multi_line_end: None } },
        LanguageConfig { name: "Bicep", extensions: &[".bicep"], exact_names: &[], comment_style: &CommentStyle { single_line: Some("//"), multi_line_start: Some("/*"), multi_line_end: Some("*/") } },
        LanguageConfig { name: "C", extensions: &[".c", ".h"], exact_names: &[], comment_style: &CommentStyle { single_line: Some("//"), multi_line_start: Some("/*"), multi_line_end: Some("*/") } },
        LanguageConfig { name: "C#", extensions: &[".cs"], exact_names: &[], comment_style: &CommentStyle { single_line: Some("//"), multi_line_start: Some("/*"), multi_line_end: Some("*/") } },
        LanguageConfig { name: "C++", extensions: &[".cc", ".cpp", ".cxx", ".hh", ".hpp", ".hxx"], exact_names: &[], comment_style: &CommentStyle { single_line: Some("//"), multi_line_start: Some("/*"), multi_line_end: Some("*/") } },
        LanguageConfig { name: "CMake", extensions: &[".cmake"], exact_names: &["CMakeLists.txt"], comment_style: &CommentStyle { single_line: Some("#"), multi_line_start: None, multi_line_end: None } }
    ]
}

fn push_part_1(t: &mut Vec<LanguageConfig>)
    requires
        table_well_formed(old(t)@),
    ensures
        final(t)@ == old(t)@ + table_part_1(),
        table_well_formed(final(t)@),
{
    let ghost start = t@;
    push_language(t, "Astro", &[".astro"], &[], html_style());
    push_language(t, "Batch", &[".bat", ".cmd"], &[], rem_style());
    push_language(t, "Bazel", &[".bzl"], &["BUILD", "BUILD.bazel", "WORKSPACE"], shell_style());
    push_language(t, "Bicep", &[".bicep"], &[], c_style());
    push_language(t, "C", &[".c", ".h"], &[], c_style());
    push_language(t, "C#", &[".cs"], &[], c_style());
    push_language(t, "C++", &[".cc", ".cpp", ".cxx", ".hh", ".hpp", ".hxx"], &[], c_style());
    push_language(t, "CMake", &[".cmake"], &["CMakeLists.txt"], shell_style());
    assert(t@ =~= start + table_part_1());
}

/// Part 2 of the language table.
pub open spec fn table_part_2() -> Seq<LanguageConfig> {
    seq![
        LanguageConfig { name: "CSS", extensions: &[".css"], exact_names: &[], comment_style: &CommentStyle { single_line: None, multi_line_start: Some("/*"), multi_line_end: Some("*/") } },
        LanguageConfig { name: "CSV", extensions: &[".csv"], exact_names: &[], comment_style: &CommentStyle { single_line: None, multi_line_start: None, multi_line_end: None } },
        LanguageConfig { name: "CUDA", extensions: &[".cu", ".cuh"], exact_names: &[], comment_style: &CommentStyle { single_line: Some("//"), multi_line_start: Some("/*"), multi_line_end: Some("*/") } },
        LanguageConfig { name: "Cabal", extensions: &[".cabal"], exact_names: &[], comment_style: &CommentStyle { single_line: Some("--"), multi_line_start: None, multi_line_end: None } },
        LanguageConfig { name: "Clojure", extensions: &[".clj", ".cljs", ".cljc", ".edn"], exact_names: &[], comment_style: &CommentStyle { single_line: Some(";"), multi_line_start: None, multi_line_end: None } },
        LanguageConfig { name: "CoffeeScript", extensions: &[".coffee"], exact_names: &[], comment_style: &CommentStyle { single_line: Some("#"), multi_line_start: None, multi_line_end: None } },
        LanguageConfig { name: "Crystal", extensions: &[".cr"], exact_names: &[], comment_style: &CommentStyle { single_line: Some("#"), multi_line_start: None, multi_line_end: None } },
        LanguageConfig { name: "Cython", extensions: &[".pyx", ".pxd"], exact_names: &[], comment_style: &CommentStyle { single_line: Some("#"), multi_line_start: Some("\"\"\""), multi_line_end: Some("\"\"\"") } }
    ]
}

fn push_part_2(t: &mut Vec<LanguageConfig>)
    requires
        table_well_formed(old(t)@),
    ensures
        final(t)@ == old(t)@ + table_part_2(),
        table_well_formed(final(t)@),
{
    let ghost start = t@;
    push_language(t, "CSS", &[".css"], &[], css_style());
    push_language(t, "CSV", &[".csv"], &[], no_comment());
    push_language(t, "CUDA", &[".cu", ".cuh"], &[], c_style());
    push_language(t, "Cabal", &[".cabal"], &[], dashdash_style());
    push_language(t, "Clojure", &[".clj", ".cljs", ".cljc", ".edn"], &[], lisp_style());
    push_language(t, "CoffeeScript", &[".coffee"], &[], shell_style());
    push_language(t, "Crystal", &[".cr"], &[], shell_style());
    push_language(t, "Cython", &[".pyx", ".pxd"], &[], python_style());
    assert(t@ =~= start + table_part_2());
}

/// Part 3 of the language table.
pub open spec fn table_part_3() -> Seq<LanguageConfig> {
    seq![
        LanguageConfig { name: "D", extensions: &[".d"], exact_names: &[], comment_style: &CommentStyle { single_line: Some("//"), multi_line_start: Some("/*"), multi_line_end: Some("*/") } },
        LanguageConfig { name: "Dart", extensions: &[".dart"], exact_names: &[], comment_style: &CommentStyle { single_line: Some("//"), multi_line_start: Some("/*"), multi_line_end: Some("*/") } },
        LanguageConfig { name: "Dhall", extensions: &[".dhall"], exact_names: &[], comment_style: &CommentStyle { single_line: Some("--"), multi_line_start: Some("{-"), multi_line_end: Some("-}") } },
        LanguageConfig { name: "Dockerfile", extensions: &[".dockerfile"], exact_names: &["Dockerfile"], comment_style: &CommentStyle { single_line: Some("#"), multi_line_start: None, multi_line_end: None } },
        LanguageConfig { name: "Elixir", extensions: &[".ex", ".exs"], exact_names: &[], comment_style: &CommentStyle { single_line: Some("#"), multi_line_start: None, multi_line_end: None } },
        LanguageConfig { name: "Elm", extensions: &[".elm"], exact_names: &[], comment_style: &CommentStyle { single_line: Some("--"), multi_line_start: Some("{-"), multi_line_end: Some("-}") } },
        LanguageConfig { name: "Emacs Lisp", extensions: &[".el"], exact_names: &[], comment_style: &CommentStyle { single_line: Some(";"), multi_line_start: None, multi_line_end: None } },
        LanguageConfig { name: "Erlang", extensions: &[".erl", ".hrl"], exact_names: &[], comment_style: &CommentStyle { single_line: Some("%"), multi_line_start: None, multi_line_end: None } }
    ]
}

fn push_part_3(t: &mut Vec<LanguageConfig>)
    requires
        table_well_formed(old(t)@),
    ensures
        final(t)@ == old(t)@ + table_part_3(),
        table_well_formed(final(t)@),
{
    let ghost start = t@;
    push_language(t, "D", &[".d"], &[], c_style());
    push_language(t, "Dart", &[".dart"], &[], c_style());
    push_language(t, "Dhall", &[".dhall"], &[], haskell_style());
    push_language(t, "Dockerfile", &[".dockerfile"], &["Dockerfile"], shell_style());
    push_language(t, "Elixir", &[".ex", ".exs"], &[], shell_style());
    push_language(t, "Elm", &[".elm"], &[], haskell_style());
    push_language(t, "Emacs Lisp", &[".el"], &[], lisp_style());
    push_language(t, "Erlang", &[".erl", ".hrl"], &[], percent_style());
    assert(t@ =~= start + table_part_3());
}

/// Part 4 of the language table.
pub open spec fn table_part_4() -> Seq<LanguageConfig> {
    seq![
        LanguageConfig { name: "F#", extensions: &[".fs", ".fsi", ".fsx"], exact_names: &[], comment_style: &CommentStyle { single_line: Some("//"), multi_line_start: Some("(*"), multi_line_end: Some("*)") } },
        LanguageConfig { name: "Fennel", extensions: &[".fnl"], exact_names: &[], comment_style: &CommentStyle { single_line: Some(";"), multi_line_start: None, multi_line_end: None } },
        LanguageConfig { name: "Fortran", extensions: &[".f90", ".f95", ".f03", ".f08"], exact_names: &[], comment_style: &CommentStyle { single_line: Some("!"), multi_line_start: None, multi_line_end: None } },
        LanguageConfig { name: "GLSL", extensions: &[".glsl", ".vert", ".frag"], exact_names: &[], comment_style: &CommentStyle { single_line: Some("//"), multi_line_start: Some("/*"), multi_line_end: Some("*/") } },
        LanguageConfig { name: "Gleam", extensions: &[".gleam"], exact_names: &[], comment_style: &CommentStyle { single_line: Some("//"), multi_line_start: None, multi_line_end: None } },
        LanguageConfig { name: "Go", extensions: &[".go"], exact_names: &[], comment_style: &CommentStyle { single_line: Some("//"), multi_line_start: Some("/*"), multi_line_end: Some("*/") } },
        LanguageConfig { name: "GraphQL", extensions: &[".graphql", ".gql"], exact_names: &[], comment_style: &CommentStyle { single_line: Some("#"), multi_line_start: None, multi_line_end: None } },
        LanguageConfig { name: "Groovy", extensions: &[".groovy", ".gradle"], exact_names: &[], comment_style: &CommentStyle { single_line: Some("//"), multi_line_start: Some("/*"), multi_line_end: Some("*/") } }
    ]
}

fn push_part_4(t: &mut Vec<LanguageConfig>)
    requires
        table_well_formed(old(t)@),
    ensures
        final(t)@ == old(t)@ + table_part_4(),
        table_well_formed(final(t)@),
{
    let ghost start = t@;
    push_language(t, "F#", &[".fs", ".fsi", ".fsx"], &[], fsharp_style());
    push_language(t, "Fennel", &[".fnl"], &[], lisp_style());
    push_language(t, "Fortran", &[".f90", ".f95", ".f03", ".f08"], &[], bang_style());
    push_language(t, "GLSL", &[".glsl", ".vert", ".frag"], &[], c_style());
    push_language(t, "Gleam", &[".gleam"], &[], double_slash_style());
    push_language(t, "Go", &[".go"], &[], c_style());
    push_language(t, "GraphQL", &[".graphql", ".gql"], &[], shell_style());
    push_language(t, "Groovy", &[".groovy", ".gradle"], &[], c_style());
    assert(t@ =~= start + table_part_4());
}

/// Part 5 of the language table.
pub open spec fn table_part_5() -> Seq<LanguageConfig> {
    seq![
        LanguageConfig { name: "HCL", extensions: &[".hcl"], exact_names: &[], comment_style: &CommentStyle { single_line: Some("#"), multi_line_start: None, multi_line_end: None } },
        LanguageConfig { name: "HTML", extensions: &[".html", ".htm"], exact_names: &[], comment_style: &CommentStyle { single_line: None, multi_line_start: Some("<!--"), multi_line_end: Some("-->") } },
        LanguageConfig { name: "Hack", extensions: &[".hack"], exact_names: &[], comment_style: &CommentStyle { single_line: Some("//"), multi_line_start: Some("/*"), multi_line_end: Some("*/") } },
        LanguageConfig { name: "Haskell", extensions: &[".hs", ".lhs"], exact_names: &[], comment_style: &CommentStyle { single_line: Some("--"), multi_line_start: Some("{-"), multi_line_end: Some("-}") } },
        LanguageConfig { name: "Haxe", extensions: &[".hx"], exact_names: &[], comment_style: &CommentStyle { single_line: Some("//"), multi_line_start: Some("/*"), multi_line_end: Some("*/") } },
        LanguageConfig { name: "INI", extensions: &[".ini", ".cfg"], exact_names: &[], comment_style: &CommentStyle { single_line: Some(";"), multi_line_start: None, multi_line_end: None } },
        LanguageConfig { name: "Idris", extensions: &[".idr"], exact_names: &[], comment_style: &CommentStyle { single_line: Some("--"), multi_line_start: Some("{-"), multi_line_end: Some("-}") } },
        LanguageConfig { name: "JSON", extensions: &[".json"], exact_names: &[], comment_style: &CommentStyle { single_line: None, multi_line_start: None, multi_line_end: None } }
    ]
}

fn push_part_5(t: &mut Vec<LanguageConfig>)
    requires
        table_well_formed(old(t)@),
    ensures
        final(t)@ == old(t)@ + table_part_5(),
        table_well_formed(final(t)@),
{
    let ghost start = t@;
    push_language(t, "HCL", &[".hcl"], &[], shell_style());
    push_language(t, "HTML", &[".html", ".htm"], &[], html_style());
    push_language(t, "Hack", &[".hack"], &[], c_style());
    push_language(t, "Haskell", &[".hs", ".lhs"], &[], haskell_style());
    push_language(t, "Haxe", &[".hx"], &[], c_style());
    push_language(t, "INI", &[".ini", ".cfg"], &[], lisp_style());
    push_language(t, "Idris", &[".idr"], &[], haskell_style());
    push_language(t, "JSON", &[".json"], &[], no_comment());
    assert(t@ =~= start + table_part_5());
}

/// Part 6 of the language table.
pub open spec fn table_part_6() -> Seq<LanguageConfig> {
    seq![
        LanguageConfig { name: "JSON5", extensions: &[".json5"], exact_names: &[], comment_style: &CommentStyle { single_line: Some("//"), multi_line_start: Some("/*"), multi_line_end: Some("*/") } },
        LanguageConfig { name: "Java", extensions: &[".java"], exact_names: &[], comment_style: &CommentStyle { single_line: Some("//"), multi_line_start: Some("/*"), multi_line_end: Some("*/") } },
        LanguageConfig { name: "JavaScript", extensions: &[".js", ".mjs", ".cjs", ".jsx"], exact_names: &[], comment_style: &CommentStyle { single_line: Some("//"), multi_line_start: Some("/*"), multi_line_end: Some("*/") } },
        LanguageConfig { name: "Jsonnet", extensions: &[".jsonnet", ".libsonnet"], exact_names: &[], comment_style: &CommentStyle { single_line: Some("//"), multi_line_start: Some("/*"), multi_line_end: Some("*/") } },
        LanguageConfig { name: "Julia", extensions: &[".jl"], exact_names: &[], comment_style: &CommentStyle { single_line: Some("#"), multi_line_start: Some("#="), multi_line_end: Some("=#") } },
        LanguageConfig { name: "Just", extensions: &[".just"], exact_names: &["justfile", "Justfile"], comment_style: &CommentStyle { single_line: Some("#"), multi_line_start: None, multi_line_end: None } },
        LanguageConfig { name: "Kotlin", extensions: &[".kt", ".kts"], exact_names: &[], comment_style: &CommentStyle { single_line: Some("//"), multi_line_start: Some("/*"), multi_line_end: Some("*/") } },
        LanguageConfig { name: "LaTeX", extensions: &[".tex", ".sty", ".cls"], exact_names: &[], comment_style: &CommentStyle { single_line: Some("%"), multi_line_start: None, multi_line_end: None } }
    ]
}

fn push_part_6(t: &mut Vec<LanguageConfig>)
    requires
        table_well_formed(old(t)@),
    ensures
        final(t)@ == old(t)@ + table_part_6(),
        table_well_formed(final(t)@),
{
    let ghost start = t@;
    push_language(t, "JSON5", &[".json5"], &[], c_style());
    push_language(t, "Java", &[".java"], &[], c_style());
    push_language(t, "JavaScript", &[".js", ".mjs", ".cjs", ".jsx"], &[], c_style());
    push_language(t, "Jsonnet", &[".jsonnet", ".libsonnet"], &[], c_style());
    push_language(t, "Julia", &[".jl"], &[], julia_style());
    push_language(t, "Just", &[".just"], &["justfile", "Justfile"], shell_style());
    push_language(t, "Kotlin", &[".kt", ".kts"], &[], c_style());
    push_language(t, "LaTeX", &[".tex", ".sty", ".cls"], &[], percent_style());
    assert(t@ =~= start + table_part_6());
}

/// Part 7 of the language table.
pub open spec fn table_part_7() -> Seq<LanguageConfig> {
    seq![
        LanguageConfig { name: "Lean", extensions: &[".lean"], exact_names: &[], comment_style: &CommentStyle { single_line: Some("--"), multi_line_start: None, multi_line_end: None } },
        LanguageConfig { name: "Less", extensions: &[".less"], exact_names: &[], comment_style: &CommentStyle { single_line: Some("//"), multi_line_start: Some("/*"), multi_line_end: Some("*/") } },
        LanguageConfig { name: "Lua", extensions: &[".lua"], exact_names: &[], comment_style: &CommentStyle { single_line: Some("--"), multi_line_start: Some("--[["), multi_line_end: Some("]]") } },
        LanguageConfig { name: "Makefile", extensions: &[".mk", ".mak"], exact_names: &["Makefile", "makefile", "GNUmakefile"], comment_style: &CommentStyle { single_line: Some("#"), multi_line_start: None, multi_line_end: None } },
        LanguageConfig { name: "Markdown", extensions: &[".md", ".markdown"], exact_names: &[], comment_style: &CommentStyle { single_line: None, multi_line_start: Some("<!--"), multi_line_end: Some("-->") } },
        LanguageConfig { name: "Meson", extensions: &[], exact_names: &["meson.build", "meson_options.txt"], comment_style: &CommentStyle { single_line: Some("#"), multi_line_start: None, multi_line_end: None } },
        LanguageConfig { name: "Mojo", extensions: &[".mojo"], exact_names: &[], comment_style: &CommentStyle { single_line: Some("#"), multi_line_start: Some("\"\"\""), multi_line_end: Some("\"\"\"") } },
        LanguageConfig { name: "Nim", extensions: &[".nim"], exact_names: &[], comment_style: &CommentStyle { single_line: Some("#"), multi_line_start: None, multi_line_end: None } }
    ]
}

fn push_part_7(t: &mut Vec<LanguageConfig>)
    requires
        table_well_formed(old(t)@),
    ensures
        final(t)@ == old(t)@ + table_part_7(),
        table_well_formed(final(t)@),
{
    let ghost start = t@;
    push_language(t, "Lean", &[".lean"], &[], dashdash_style());
    push_language(t, "Less", &[".less"], &[], c_style());
    push_language(t, "Lua", &[".lua"], &[], lua_style());
    push_language(t, "Makefile", &[".mk", ".mak"], &["Makefile", "makefile", "GNUmakefile"], shell_style());
    push_language(t, "Markdown", &[".md", ".markdown"], &[], html_style());
    push_language(t, "Meson", &[], &["meson.build", "meson_options.txt"], shell_style());
    push_language(t, "Mojo", &[".mojo"], &[], python_style());
    push_language(t, "Nim", &[".nim"], &[], shell_style());
    assert(t@ =~= start + table_part_7());
}

/// Part 8 of the language table.
pub open spec fn table_part_8() -> Seq<LanguageConfig> {
    seq![
        LanguageConfig { name: "Nix", extensions: &[".nix"], exact_names: &[], comment_style: &CommentStyle { single_line: Some("#"), multi_line_start: Some("/*"), multi_line_end: Some("*/") } },
        LanguageConfig { name: "Nushell", extensions: &[".nu"], exact_names: &[], comment_style: &CommentStyle { single_line: Some("#"), multi_line_start: None, multi_line_end: None } },
        LanguageConfig { name: "OCaml", extensions: &[".ml", ".mli"], exact_names: &[], comment_style: &CommentStyle { single_line: None, multi_line_start: Some("(*"), multi_line_end: Some("*)") } },
        LanguageConfig { name: "Objective-C", extensions: &[".m", ".mm"], exact_names: &[], comment_style: &CommentStyle { single_line: Some("//"), multi_line_start: Some("/*"), multi_line_end: Some("*/") } },
        LanguageConfig { name: "Odin", extensions: &[".odin"], exact_names: &[], comment_style: &CommentStyle { single_line: Some("//"), multi_line_start: Some("/*"), multi_line_end: Some("*/") } },
        LanguageConfig { name: "PHP", extensions: &[".php"], exact_names: &[], comment_style: &CommentStyle { single_line: Some("//"), multi_line_start: Some("/*"), multi_line_end: Some("*/") } },
        LanguageConfig { name: "Pascal", extensions: &[".pas"], exact_names: &[], comment_style: &CommentStyle { single_line: Some("//"), multi_line_start: None, multi_line_end: None } },
        LanguageConfig { name: "Perl", extensions: &[".pl", ".pm"], exact_names: &[], comment_style: &CommentStyle { single_line: Some("#"), multi_line_start: None, multi_line_end: None } }
    ]
}

fn push_part_8(t: &mut Vec<LanguageConfig>)
    requires
        table_well_formed(old(t)@),
    ensures
        final(t)@ == old(t)@ + table_part_8(),
        table_well_formed(final(t)@),
{
    let ghost start = t@;
    push_language(t, "Nix", &[".nix"], &[], nix_style());
    push_language(t, "Nushell", &[".nu"], &[], shell_style());
    push_language(t, "OCaml", &[".ml", ".mli"], &[], ml_style());
    push_language(t, "Objective-C", &[".m", ".mm"], &[], c_style());
    push_language(t, "Odin", &[".odin"], &[], c_style());
    push_language(t, "PHP", &[".php"], &[], c_style());
    push_language(t, "Pascal", &[".pas"], &[], double_slash_style());
    push_language(t, "Perl", &[".pl", ".pm"], &[], shell_style());
    assert(t@ =~= start + table_part_8());
}

/// Part 9 of the language table.
pub open spec fn table_part_9() -> Seq<LanguageConfig> {
    seq![
        LanguageConfig { name: "Plain Text", extensions: &[".txt"], exact_names: &[], comment_style: &CommentStyle { single_line: None, multi_line_start: None, multi_line_end: None } },
        LanguageConfig { name: "PowerShell", extensions: &[".ps1", ".psm1", ".psd1"], exact_names: &[], comment_style: &CommentStyle { single_line: Some("#"), multi_line_start: Some("<#"), multi_line_end: Some("#>") } },
        LanguageConfig { name: "Protocol Buffers", extensions: &[".proto"], exact_names: &[], comment_style: &CommentStyle { single_line: Some("//"), multi_line_start: Some("/*"), multi_line_end: Some("*/") } },
        LanguageConfig { name: "PureScript", extensions: &[".purs"], exact_names: &[], comment_style: &CommentStyle { single_line: Some("--"), multi_line_start: Some("{-"), multi_line_end: Some("-}") } },
        LanguageConfig { name: "Python", extensions: &[".py", ".pyi", ".pyw"], exact_names: &[], comment_style: &CommentStyle { single_line: Some("#"), multi_line_start: Some("\"\"\""), multi_line_end: Some("\"\"\"") } },
        LanguageConfig { name: "QML", extensions: &[".qml"], exact_names: &[], comment_style: &CommentStyle { single_line: Some("//"), multi_line_start: Some("/*"), multi_line_end: Some("*/") } },
        LanguageConfig { name: "R", extensions: &[".r"], exact_names: &[], comment_style: &CommentStyle { single_line: Some("#"), multi_line_start: None, multi_line_end: None } },
        LanguageConfig { name: "Racket", extensions: &[".rkt"], exact_names: &[], comment_style: &CommentStyle { single_line: Some(";"), multi_line_start: None, multi_line_end: None } }
    ]
}

fn push_part_9(t: &mut Vec<LanguageConfig>)
    requires
        table_well_formed(old(t)@),
    ensures
        final(t)@ == old(t)@ + table_part_9(),
        table_well_formed(final(t)@),
{
    let ghost start = t@;
    push_language(t, "Plain Text", &[".txt"], &[], no_comment());
    push_language(t, "PowerShell", &[".ps1", ".psm1", ".psd1"], &[], powershell_style());
    push_language(t, "Protocol Buffers", &[".proto"], &[], c_style());
    push_language(t, "PureScript", &[".purs"], &[], haskell_style());
    push_language(t, "Python", &[".py", ".pyi", ".pyw"], &[], python_style());
    push_language(t, "QML", &[".qml"], &[], c_style());
    push_language(t, "R", &[".r"], &[], shell_style());
    push_language(t, "Racket", &[".rkt"], &[], lisp_style());
    assert(t@ =~= start + table_part_9());
}

/// Part 10 of the language table.
pub open spec fn table_part_10() -> Seq<LanguageConfig> {
    seq![
        LanguageConfig { name: "Ruby", extensions: &[".rb", ".rake", ".gemspec"], exact_names: &["Rakefile", "Gemfile"], comment_style: &CommentStyle { single_line: Some("#"), multi_line_start: None, multi_line_end: None } },
        LanguageConfig { name: "Rust", extensions: &[".rs"], exact_names: &[], comment_style: &CommentStyle { single_line: Some("//"), multi_line_start: Some("/*"), multi_line_end: Some("*/") } },
        LanguageConfig { name: "SCSS", extensions: &[".scss"], exact_names: &[], comment_style: &CommentStyle { single_line: Some("//"), multi_line_start: Some("/*"), multi_line_end: Some("*/") } },
        LanguageConfig { name: "SQL", extensions: &[".sql"], exact_names: &[], comment_style: &CommentStyle { single_line: Some("--"), multi_line_start: Some("/*"), multi_line_end: Some("*/") } },
        LanguageConfig { name: "Sass", extensions: &[".sass"], exact_names: &[], comment_style: &CommentStyle { single_line: Some("//"), multi_line_start: Some("/*"), multi_line_end: Some("*/") } },
        LanguageConfig { name: "Scala", extensions: &[".scala", ".sc"], exact_names: &[], comment_style: &CommentStyle { single_line: Some("//"), multi_line_start: Some("/*"), multi_line_end: Some("*/") } },
        LanguageConfig { name: "Scheme", extensions: &[".scm", ".ss"], exact_names: &[], comment_style: &CommentStyle { single_line: Some(";"), multi_line_start: None, multi_line_end: None } },
        LanguageConfig { name: "Shell", extensions: &[".sh", ".bash", ".zsh", ".fish", ".ksh"], exact_names: &[".bashrc", ".zshrc", ".profile"], comment_style: &CommentStyle { single_line: Some("#"), multi_line_start: None, multi_line_end: None } }
    ]
}

fn push_part_10(t: &mut Vec<LanguageConfig>)
    requires
        table_well_formed(old(t)@),
    ensures
        final(t)@ == old(t)@ + table_part_10(),
        table_well_formed(final(t)@),
{
    let ghost start = t@;
    push_language(t, "Ruby", &[".rb", ".rake", ".gemspec"], &["Rakefile", "Gemfile"], shell_style());
    push_language(t, "Rust", &[".rs"], &[], c_style());
    push_language(t, "SCSS", &[".scss"], &[], c_style());
    push_language(t, "SQL", &[".sql"], &[], sql_style());
    push_language(t, "Sass", &[".sass"], &[], c_style());
    push_language(t, "Scala", &[".scala", ".sc"], &[], c_style());
    push_language(t, "Scheme", &[".scm", ".ss"], &[], lisp_style());
    push_language(t, "Shell", &[".sh", ".bash", ".zsh", ".fish", ".ksh"], &[".bashrc", ".zshrc", ".profile"], shell_style());
    assert(t@ =~= start + table_part_10());
}

/// Part 11 of the language table.
pub open spec fn table_part_11() -> Seq<LanguageConfig> {
    seq![
        LanguageConfig { name: "Solidity", extensions: &[".sol"], exact_names: &[], comment_style: &CommentStyle { single_line: Some("//"), multi_line_start: Some("/*"), multi_line_end: Some("*/") } },
        LanguageConfig { name: "Starlark", extensions: &[".star"], exact_names: &[], comment_style: &CommentStyle { single_line: Some("#"), multi_line_start: None, multi_line_end: None } },
        LanguageConfig { name: "Svelte", extensions: &[".svelte"], exact_names: &[], comment_style: &CommentStyle { single_line: None, multi_line_start: Some("<!--"), multi_line_end: Some("-->") } },
        LanguageConfig { name: "Swift", extensions: &[".swift"], exact_names: &[], comment_style: &CommentStyle { single_line: Some("//"), multi_line_start: Some("/*"), multi_line_end: Some("*/") } },
        LanguageConfig { name: "TOML", extensions: &[".toml"], exact_names: &[], comment_style: &CommentStyle { single_line: Some("#"), multi_line_start: None, multi_line_end: None } },
        LanguageConfig { name: "Tcl", extensions: &[".tcl"], exact_names: &[], comment_style: &CommentStyle { single_line: Some("#"), multi_line_start: None, multi_line_end: None } },
        LanguageConfig { name: "Terraform", extensions: &[".tf", ".tfvars"], exact_names: &[], comment_style: &CommentStyle { single_line: Some("#"), multi_line_start: None, multi_line_end: None } },
        LanguageConfig { name: "TypeScript", extensions: &[".ts", ".tsx", ".mts", ".cts"], exact_names: &[], comment_style: &CommentStyle { single_line: Some("//"), multi_line_start: Some("/*"), multi_line_end: Some("*/") } }
    ]
}

fn push_part_11(t: &mut Vec<LanguageConfig>)
    requires
        table_well_formed(old(t)@),
    ensures
        final(t)@ == old(t)@ + table_part_11(),
        table_well_formed(final(t)@),
{
    let ghost start = t@;
    push_language(t, "Solidity", &[".sol"], &[], c_style());
    push_language(t, "Starlark", &[".star"], &[], shell_style());
    push_language(t, "Svelte", &[".svelte"], &[], html_style());
    push_language(t, "Swift", &[".swift"], &[], c_style());
    push_language(t, "TOML", &[".toml"], &[], shell_style());
    push_language(t, "Tcl", &[".tcl"], &[], shell_style());
    push_language(t, "Terraform", &[".tf", ".tfvars"], &[], shell_style());
    push_language(t, "TypeScript", &[".ts", ".tsx", ".mts", ".cts"], &[], c_style());
    assert(t@ =~= start + table_part_11());
}

/// Part 12 of the language table.
pub open spec fn table_part_12() -> Seq<LanguageConfig> {
    seq![
        LanguageConfig { name: "VHDL", extensions: &[".vhd", ".vhdl"], exact_names: &[], comment_style: &CommentStyle { single_line: Some("--"), multi_line_start: None, multi_line_end: None } },
        LanguageConfig { name: "Verilog", extensions: &[".v", ".vh", ".sv", ".svh"], exact_names: &[], comment_style: &CommentStyle { single_line: Some("//"), multi_line_start: Some("/*"), multi_line_end: Some("*/") } },
        LanguageConfig { name: "Vim Script", extensions: &[".vim"], exact_names: &[".vimrc", "_vimrc", ".gvimrc"], comment_style: &CommentStyle { single_line: Some("\""), multi_line_start: None, multi_line_end: None } },
        LanguageConfig { name: "Vue", extensions: &[".vue"], exact_names: &[], comment_style: &CommentStyle { single_line: None, multi_line_start: Some("<!--"), multi_line_end: Some("-->") } },
        LanguageConfig { name: "XML", extensions: &[".xml", ".xsd", ".xsl", ".svg"], exact_names: &[], comment_style: &CommentStyle { single_line: None, multi_line_start: Some("<!--"), multi_line_end: Some("-->") } },
        LanguageConfig { name: "YAML", extensions: &[".yaml", ".yml"], exact_names: &[], comment_style: &CommentStyle { single_line: Some("#"), multi_line_start: None, multi_line_end: None } },
        LanguageConfig { name: "Zig", extensions: &[".zig"], exact_names: &[], comment_style: &CommentStyle { single_line: Some("//"), multi_line_start: None, multi_line_end: None } }
    ]
}

fn push_part_12(t: &mut Vec<LanguageConfig>)
    requires
        table_well_formed(old(t)@),
    ensures
        final(t)@ == old(t)@ + table_part_12(),
        table_well_formed(final(t)@),
{
    let ghost start = t@;
    push_language(t, "VHDL", &[".vhd", ".vhdl"], &[], dashdash_style());
    push_language(t, "Verilog", &[".v", ".vh", ".sv", ".svh"], &[], c_style());
    push_language(t, "Vim Script", &[".vim"], &[".vimrc", "_vimrc", ".gvimrc"], quote_style());
    push_language(t, "Vue", &[".vue"], &[], html_style());
    push_language(t, "XML", &[".xml", ".xsd", ".xsl", ".svg"], &[], html_style());
    push_language(t, "YAML", &[".yaml", ".yml"], &[], shell_style());
    push_language(t, "Zig", &[".zig"], &[], double_slash_style());
    assert(t@ =~= start + table_part_12());
}

/// The languages that the line counter knows, in alphabetical order.
pub fn builtin_languages() -> (r: Vec<LanguageConfig>)
    ensures
        r@ == builtin_table(),
        table_well_formed(r@),
{
    let mut t: Vec<LanguageConfig> = Vec::new();
    push_part_0(&mut t);
    push_part_1(&mut t);
    push_part_2(&mut t);
    push_part_3(&mut t);
    push_part_4(&mut t);
    push_part_5(&mut t);
    push_part_6(&mut t);
    push_part_7(&mut t);
    push_part_8(&mut t);
    push_part_9(&mut t);
    push_part_10(&mut t);
    push_part_11(&mut t);
    push_part_12(&mut t);
    assert(t@ =~= builtin_table());
    t
}

/// `s` with `A`..`Z` turned into `a`..`z`.
pub open spec fn ascii_lower(s: Seq<char>) -> Seq<char> {
    s.map_values(|c: char| if 'A' <= c && c <= 'Z' { ((c as u8) + 32) as char } else { c })
}

fn to_ascii_lower(v: &Vec<char>, from: usize) -> (r: String)
    requires
        from <= v@.len(),
    ensures
        r@ == ascii_lower(v@.skip(from as int)),
{
    let mut r = String::new();
    let mut i: usize = from;
    while i < v.len()
        invariant
            from <= i <= v@.len(),
            r@ == ascii_lower(v@.subrange(from as int, i as int)),
        decreases v@.len() - i,
    {
        let c = v[i];
        let l = if 'A' <= c && c <= 'Z' { ((c as u8) + 32) as char } else { c };
        crate::text::push_char(&mut r, l);
        i = i + 1;
        assert(r@ =~= ascii_lower(v@.subrange(from as int, i as int)));
    }
    assert(v@.subrange(from as int, i as int) =~= v@.skip(from as int));
    r
}

/// The file name of a path: its last `/`-separated segment.
pub open spec fn path_file_name(path: Seq<char>) -> Seq<char> {
    last_segment(path, '/')
}

/// The extension of a file name, from its last `.` on and lower-cased;
/// a name whose only `.` comes first (such as `.vimrc`) has none.
pub open spec fn file_extension(name: Seq<char>) -> Option<Seq<char>> {
    let k = last_index_of(name, '.');
    if k <= 0 { None } else { Some(ascii_lower(name.skip(k))) }
}

/// `names` holds `x`.
pub open spec fn lists_name(names: Seq<&'static str>, x: Seq<char>) -> bool {
    exists|i: int| 0 <= i < names.len() && (#[trigger] names[i])@ == x
}

/// The position of the first language of `t` that lists `name` among its
/// exact file names.
pub open spec fn first_exact(t: Seq<LanguageConfig>, name: Seq<char>) -> Option<int>
    decreases t.len(),
{
    if t.len() == 0 {
        None
    } else if lists_name(t[0].exact_names@, name) {
        Some(0)
    } else {
        match first_exact(t.drop_first(), name) {
            Some(i) => Some(i + 1),
            None => None,
        }
    }
}

/// The position of the first language of `t` that lists `ext` among its
/// extensions.
pub open spec fn first_extension(t: Seq<LanguageConfig>, ext: Seq<char>) -> Option<int>
    decreases t.len(),
{
    if t.len() == 0 {
        None
    } else if lists_name(t[0].extensions@, ext) {
        Some(0)
    } else {
        match first_extension(t.drop_first(), ext) {
            Some(i) => Some(i + 1),
            None => None,
        }
    }
}

/// The language of `t` for the file at `path`: an exact file name wins over
/// an extension, and an earlier language over a later one.
pub open spec fn language_match(t: Seq<LanguageConfig>, path: Seq<char>) -> Option<int> {
    let name = path_file_name(path);
    match first_exact(t, name) {
        Some(i) => Some(i),
        None => match file_extension(name) {
            Some(e) => first_extension(t, e),
            None => None,
        },
    }
}

fn slice_lists(names: &'static [&'static str], x: &str) -> (r: bool)
    ensures
        r == lists_name(names@, x@),
{
    let mut j: usize = 0;
    while j < names.len()
        invariant
            j <= names@.len(),
            forall|k: int| 0 <= k < j ==> (#[trigger] names@[k])@ != x@,
        decreases names@.len() - j,
    {
        if str_eq(names[j], x) {
            return true;
        }
        j = j + 1;
    }
    false
}

/// The first language of `t` that lists `x` among its exact names, or
/// among its extensions.
fn find_language(t: &Vec<LanguageConfig>, x: &str, exact: bool) -> (r: Option<usize>)
    ensures
        exact ==> match r {
            Some(i) => first_exact(t@, x@) == Some(i as int),
            None => first_exact(t@, x@) is None,
        },
        !exact ==> match r {
            Some(i) => first_extension(t@, x@) == Some(i as int),
            None => first_extension(t@, x@) is None,
        },
{
    let mut i: usize = 0;
    assert(t@.skip(0) =~= t@);
    while i < t.len()
        invariant
            i <= t@.len(),
            exact ==> first_exact(t@, x@) == match first_exact(t@.skip(i as int), x@) { Some(k) => Some(k + i), None => None::<int> },
            !exact ==> first_extension(t@, x@) == match first_extension(t@.skip(i as int), x@) { Some(k) => Some(k + i), None => None::<int> },
        decreases t@.len() - i,
    {
        assert(t@.skip(i as int)[0] == t@[i as int]);
        assert(t@.skip(i as int).drop_first() =~= t@.skip(i + 1));
        let hit = if exact { slice_lists(t[i].exact_names, x) } else { slice_lists(t[i].extensions, x) };
        if hit {
            return Some(i);
        }
        i = i + 1;
    }
    assert(t@.skip(i as int) =~= Seq::<LanguageConfig>::empty());
    None
}

/// The language of `table` for the file at `path`, with its position.
pub fn language_in(table: &Vec<LanguageConfig>, path: &str) -> (r: Option<(usize, LanguageConfig)>)
    ensures
        match r {
            Some((i, l)) => language_match(table@, path@) == Some(i as int) && l == table@[i as int],
            None => language_match(table@, path@) is None,
        },
{
    let name = last_part(path, '/');
    let found = match find_language(table, name.as_str(), true) {
        Some(i) => Some(i),
        None => {
            let v = chars_of(name.as_str());
            proof { lemma_last_index_of(v@, '.'); }
            match rfind_char(&v, '.') {
                Some(k) => if k == 0 {
                    None
                } else {
                    let ext = to_ascii_lower(&v, k);
                    find_language(table, ext.as_str(), false)
                },
                None => None,
            }
        },
    };
    match found {
        Some(i) => {
            proof {
                lemma_first_bounds(table@, name@);
                match file_extension(name@) {
                    Some(e) => lemma_first_ext_bounds(table@, e),
                    None => {},
                }
            }
            Some((i, table[i]))
        },
        None => None,
    }
}

proof fn lemma_first_bounds(t: Seq<LanguageConfig>, x: Seq<char>)
    ensures
        first_exact(t, x) matches Some(i) ==> 0 <= i < t.len(),
    decreases t.len(),
{
    if t.len() > 0 {
        lemma_first_bounds(t.drop_first(), x);
    }
}

proof fn lemma_first_ext_bounds(t: Seq<LanguageConfig>, x: Seq<char>)
    ensures
        first_extension(t, x) matches Some(i) ==> 0 <= i < t.len(),
    decreases t.len(),
{
    if t.len() > 0 {
        lemma_first_ext_bounds(t.drop_first(), x);
    }
}

/// The built-in language for the file at `path`, with its position in the
/// table.
pub fn language_for_path(path: &str) -> (r: Option<(usize, LanguageConfig)>)
    ensures
        match r {
            Some((i, l)) => language_match(builtin_table(), path@) == Some(i as int) && l == builtin_table()[i as int],
            None => language_match(builtin_table(), path@) is None,
        },
{
    let table = builtin_languages();
    language_in(&table, path)
}

/// A TypeScript file extension.
pub open spec fn typescript_extension(e: Seq<char>) -> bool {
    e == ".ts"@ || e == ".tsx"@ || e == ".mts"@ || e == ".cts"@
}

proof fn lemma_table_part_0_typescript(e: Seq<char>)
    requires
        typescript_extension(e),
    ensures
        forall|j: int| 0 <= j < 8 ==> !lists_name(#[trigger] table_part_0()[j].extensions@, e),
{
    assert(table_part_0().len() == 8);
    reveal_strlit(".ada");
    reveal_strlit(".adb");
    reveal_strlit(".adoc");
    reveal_strlit(".ads");
    reveal_strlit(".agda");
    reveal_strlit(".applescript");
    reveal_strlit(".as");
    reveal_strlit(".asciidoc");
    reveal_strlit(".asm");
    reveal_strlit(".awk");
    reveal_strlit(".cts");
    reveal_strlit(".ino");
    reveal_strlit(".mts");
    reveal_strlit(".s");
    reveal_strlit(".ts");
    reveal_strlit(".tsx");
    assert(".ada"@.len() == 4);
    assert(".adb"@.len() == 4);
    assert(".adoc"@.len() == 5);
    assert(".ads"@.len() == 4);
    assert(".agda"@.len() == 5);
    assert(".applescript"@.len() == 12);
    assert(".as"@.len() == 3);
    assert(".asciidoc"@.len() == 9);
    assert(".asm"@.len() == 4);
    assert(".awk"@.len() == 4);
    assert(".cts"@.len() == 4);
    assert(".ino"@.len() == 4);
    assert(".mts"@.len() == 4);
    assert(".s"@.len() == 2);
    assert(".ts"@.len() == 3);
    assert(".tsx"@.len() == 4);
    assert(".awk"@[1] != ".tsx"@[1]);
    assert(".awk"@[1] != ".mts"@[1]);
    assert(".awk"@[1] != ".cts"@[1]);
    assert(".as"@[1] != ".ts"@[1]);
    assert(".ada"@[1] != ".tsx"@[1]);
    assert(".ada"@[1] != ".mts"@[1]);
    assert(".ada"@[1] != ".cts"@[1]);
    assert(".adb"@[1] != ".tsx"@[1]);
    assert(".adb"@[1] != ".mts"@[1]);
    assert(".adb"@[1] != ".cts"@[1]);
    assert(".ads"@[1] != ".tsx"@[1]);
    assert(".ads"@[1] != ".mts"@[1]);
    assert(".ads"@[1] != ".cts"@[1]);
    assert(".ino"@[1] != ".tsx"@[1]);
    assert(".ino"@[1] != ".mts"@[1]);
    assert(".ino"@[1] != ".cts"@[1]);
    assert(".asm"@[1] != ".tsx"@[1]);
    assert(".asm"@[1] != ".mts"@[1]);
    assert(".asm"@[1] != ".cts"@[1]);
    let t = table_part_0();
    assert(t[0].extensions@.len() == 1);
    assert(t[0].extensions@[0] == ".awk");
    assert forall|i: int| 0 <= i < t[0].extensions@.len() implies t[0].extensions@[i]@ != e by {
        assert(i == 0);
    }
    assert(t[1].extensions@.len() == 1);
    assert(t[1].extensions@[0] == ".as");
    assert forall|i: int| 0 <= i < t[1].extensions@.len() implies t[1].extensions@[i]@ != e by {
        assert(i == 0);
    }
    assert(t[2].extensions@.len() == 3);
    assert(t[2].extensions@[0] == ".ada");
    assert(t[2].extensions@[1] == ".adb");
    assert(t[2].extensions@[2] == ".ads");
    assert forall|i: int| 0 <= i < t[2].extensions@.len() implies t[2].extensions@[i]@ != e by {
        assert(i == 0 || i == 1 || i == 2);
    }
    assert(t[3].extensions@.len() == 1);
    assert(t[3].extensions@[0] == ".agda");
    assert forall|i: int| 0 <= i < t[3].extensions@.len() implies t[3].extensions@[i]@ != e by {
        assert(i == 0);
    }
    assert(t[4].extensions@.len() == 1);
    assert(t[4].extensions@[0] == ".applescript");
    assert forall|i: int| 0 <= i < t[4].extensions@.len() implies t[4].extensions@[i]@ != e by {
        assert(i == 0);
    }
    assert(t[5].extensions@.len() == 1);
    assert(t[5].extensions@[0] == ".ino");
    assert forall|i: int| 0 <= i < t[5].extensions@.len() implies t[5].extensions@[i]@ != e by {
        assert(i == 0);
    }
    assert(t[6].extensions@.len() == 2);
    assert(t[6].extensions@[0] == ".adoc");
    assert(t[6].extensions@[1] == ".asciidoc");
    assert forall|i: int| 0 <= i < t[6].extensions@.len() implies t[6].extensions@[i]@ != e by {
        assert(i == 0 || i == 1);
    }
    assert(t[7].extensions@.len() == 2);
    assert(t[7].extensions@[0] == ".asm");
    assert(t[7].extensions@[1] == ".s");
    assert forall|i: int| 0 <= i < t[7].extensions@.len() implies t[7].extensions@[i]@ != e by {
        assert(i == 0 || i == 1);
    }
    assert forall|j: int| 0 <= j < 8 implies !lists_name(#[trigger] t[j].extensions@, e) by {
        assert(j == 0 || j == 1 || j == 2 || j == 3 || j == 4 || j == 5 || j == 6 || j == 7);
    }
}

proof fn lemma_table_part_1_typescript(e: Seq<char>)
    requires
        typescript_extension(e),
    ensures
        forall|j: int| 0 <= j < 8 ==> !lists_name(#[trigger] table_part_1()[j].extensions@, e),
{
    assert(table_part_1().len() == 8);
    reveal_strlit(".astro");
    reveal_strlit(".bat");
    reveal_strlit(".bicep");
    reveal_strlit(".bzl");
    reveal_strlit(".c");
    reveal_strlit(".cc");
    reveal_strlit(".cmake");
    reveal_strlit(".cmd");
    reveal_strlit(".cpp");
    reveal_strlit(".cs");
    reveal_strlit(".cts");
    reveal_strlit(".cxx");
    reveal_strlit(".h");
    reveal_strlit(".hh");
    reveal_strlit(".hpp");
    reveal_strlit(".hxx");
    reveal_strlit(".mts");
    reveal_strlit(".ts");
    reveal_strlit(".tsx");
    assert(".astro"@.len() == 6);
    assert(".bat"@.len() == 4);
    assert(".bicep"@.len() == 6);
    assert(".bzl"@.len() == 4);
    assert(".c"@.len() == 2);
    assert(".cc"@.len() == 3);
    assert(".cmake"@.len() == 6);
    assert(".cmd"@.len() == 4);
    assert(".cpp"@.len() == 4);
    assert(".cs"@.len() == 3);
    assert(".cts"@.len() == 4);
    assert(".cxx"@.len() == 4);
    assert(".h"@.len() == 2);
    assert(".hh"@.len() == 3);
    assert(".hpp"@.len() == 4);
    assert(".hxx"@.len() == 4);
    assert(".mts"@.len() == 4);
    assert(".ts"@.len() == 3);
    assert(".tsx"@.len() == 4);
    assert(".bat"@[1] != ".tsx"@[1]);
    assert(".bat"@[1] != ".mts"@[1]);
    assert(".bat"@[1] != ".cts"@[1]);
    assert(".cmd"@[1] != ".tsx"@[1]);
    assert(".cmd"@[1] != ".mts"@[1]);
    assert(".cmd"@[2] != ".cts"@[2]);
    assert(".bzl"@[1] != ".tsx"@[1]);
    assert(".bzl"@[1] != ".mts"@[1]);
    assert(".bzl"@[1] != ".cts"@[1]);
    assert(".cs"@[1] != ".ts"@[1]);
    assert(".cc"@[1] != ".ts"@[1]);
    assert(".cpp"@[1] != ".tsx"@[1]);
    assert(".cpp"@[1] != ".mts"@[1]);
    assert(".cpp"@[2] != ".cts"@[2]);
    assert(".cxx"@[1] != ".tsx"@[1]);
    assert(".cxx"@[1] != ".mts"@[1]);
    assert(".cxx"@[2] != ".cts"@[2]);
    assert(".hh"@[1] != ".ts"@[1]);
    assert(".hpp"@[1] != ".tsx"@[1]);
    assert(".hpp"@[1] != ".mts"@[1]);
    assert(".hpp"@[1] != ".cts"@[1]);
    assert(".hxx"@[1] != ".tsx"@[1]);
    assert(".hxx"@[1] != ".mts"@[1]);
    assert(".hxx"@[1] != ".cts"@[1]);
    let t = table_part_1();
    assert(t[0].extensions@.len() == 1);
    assert(t[0].extensions@[0] == ".astro");
    assert forall|i: int| 0 <= i < t[0].extensions@.len() implies t[0].extensions@[i]@ != e by {
        assert(i == 0);
    }
    assert(t[1].extensions@.len() == 2);
    assert(t[1].extensions@[0] == ".bat");
    assert(t[1].extensions@[1] == ".cmd");
    assert forall|i: int| 0 <= i < t[1].extensions@.len() implies t[1].extensions@[i]@ != e by {
        assert(i == 0 || i == 1);
    }
    assert(t[2].extensions@.len() == 1);
    assert(t[2].extensions@[0] == ".bzl");
    assert forall|i: int| 0 <= i < t[2].extensions@.len() implies t[2].extensions@[i]@ != e by {
        assert(i == 0);
    }
    assert(t[3].extensions@.len() == 1);
    assert(t[3].extensions@[0] == ".bicep");
    assert forall|i: int| 0 <= i < t[3].extensions@.len() implies t[3].extensions@[i]@ != e by {
        assert(i == 0);
    }
    assert(t[4].extensions@.len() == 2);
    assert(t[4].extensions@[0] == ".c");
    assert(t[4].extensions@[1] == ".h");
    assert forall|i: int| 0 <= i < t[4].extensions@.len() implies t[4].extensions@[i]@ != e by {
        assert(i == 0 || i == 1);
    }
    assert(t[5].extensions@.len() == 1);
    assert(t[5].extensions@[0] == ".cs");
    assert forall|i: int| 0 <= i < t[5].extensions@.len() implies t[5].extensions@[i]@ != e by {
        assert(i == 0);
    }
    assert(t[6].extensions@.len() == 6);
    assert(t[6].extensions@[0] == ".cc");
    assert(t[6].extensions@[1] == ".cpp");
    assert(t[6].extensions@[2] == ".cxx");
    assert(t[6].extensions@[3] == ".hh");
    assert(t[6].extensions@[4] == ".hpp");
    assert(t[6].extensions@[5] == ".hxx");
    assert forall|i: int| 0 <= i < t[6].extensions@.len() implies t[6].extensions@[i]@ != e by {
        assert(i == 0 || i == 1 || i == 2 || i == 3 || i == 4 || i == 5);
    }
    assert(t[7].extensions@.len() == 1);
    assert(t[7].extensions@[0] == ".cmake");
    assert forall|i: int| 0 <= i < t[7].extensions@.len() implies t[7].extensions@[i]@ != e by {
        assert(i == 0);
    }
    assert forall|j: int| 0 <= j < 8 implies !lists_name(#[trigger] t[j].extensions@, e) by {
        assert(j == 0 || j == 1 || j == 2 || j == 3 || j == 4 || j == 5 || j == 6 || j == 7);
    }
}

proof fn lemma_table_part_2_typescript(e: Seq<char>)
    requires
        typescript_extension(e),
    ensures
        forall|j: int| 0 <= j < 8 ==> !lists_name(#[trigger] table_part_2()[j].extensions@, e),
{
    assert(table_part_2().len() == 8);
    reveal_strlit(".cabal");
    reveal_strlit(".clj");
    reveal_strlit(".cljc");
    reveal_strlit(".cljs");
    reveal_strlit(".coffee");
    reveal_strlit(".cr");
    reveal_strlit(".css");
    reveal_strlit(".csv");
    reveal_strlit(".cts");
    reveal_strlit(".cu");
    reveal_strlit(".cuh");
    reveal_strlit(".edn");
    reveal_strlit(".mts");
    reveal_strlit(".pxd");
    reveal_strlit(".pyx");
    reveal_strlit(".ts");
    reveal_strlit(".tsx");
    assert(".cabal"@.len() == 6);
    assert(".clj"@.len() == 4);
    assert(".cljc"@.len() == 5);
    assert(".cljs"@.len() == 5);
    assert(".coffee"@.len() == 7);
    assert(".cr"@.len() == 3);
    assert(".css"@.len() == 4);
    assert(".csv"@.len() == 4);
    assert(".cts"@.len() == 4);
    assert(".cu"@.len() == 3);
    assert(".cuh"@.len() == 4);
    assert(".edn"@.len() == 4);
    assert(".mts"@.len() == 4);
    assert(".pxd"@.len() == 4);
    assert(".pyx"@.len() == 4);
    assert(".ts"@.len() == 3);
    assert(".tsx"@.len() == 4);
    assert(".css"@[1] != ".tsx"@[1]);
    assert(".css"@[1] != ".mts"@[1]);
    assert(".css"@[2] != ".cts"@[2]);
    assert(".csv"@[1] != ".tsx"@[1]);
    assert(".csv"@[1] != ".mts"@[1]);
    assert(".csv"@[2] != ".cts"@[2]);
    assert(".cu"@[1] != ".ts"@[1]);
    assert(".cuh"@[1] != ".tsx"@[1]);
    assert(".cuh"@[1] != ".mts"@[1]);
    assert(".cuh"@[2] != ".cts"@[2]);
    assert(".clj"@[1] != ".tsx"@[1]);
    assert(".clj"@[1] != ".mts"@[1]);
    assert(".clj"@[2] != ".cts"@[2]);
    assert(".edn"@[1] != ".tsx"@[1]);
    assert(".edn"@[1] != ".mts"@[1]);
    assert(".edn"@[1] != ".cts"@[1]);
    assert(".cr"@[1] != ".ts"@[1]);
    assert(".pyx"@[1] != ".tsx"@[1]);
    assert(".pyx"@[1] != ".mts"@[1]);
    assert(".pyx"@[1] != ".cts"@[1]);
    assert(".pxd"@[1] != ".tsx"@[1]);
    assert(".pxd"@[1] != ".mts"@[1]);
    assert(".pxd"@[1] != ".cts"@[1]);
    let t = table_part_2();
    assert(t[0].extensions@.len() == 1);
    assert(t[0].extensions@[0] == ".css");
    assert forall|i: int| 0 <= i < t[0].extensions@.len() implies t[0].extensions@[i]@ != e by {
        assert(i == 0);
    }
    assert(t[1].extensions@.len() == 1);
    assert(t[1].extensions@[0] == ".csv");
    assert forall|i: int| 0 <= i < t[1].extensions@.len() implies t[1].extensions@[i]@ != e by {
        assert(i == 0);
    }
    assert(t[2].extensions@.len() == 2);
    assert(t[2].extensions@[0] == ".cu");
    assert(t[2].extensions@[1] == ".cuh");
    assert forall|i: int| 0 <= i < t[2].extensions@.len() implies t[2].extensions@[i]@ != e by {
        assert(i == 0 || i == 1);
    }
    assert(t[3].extensions@.len() == 1);
    assert(t[3].extensions@[0] == ".cabal");
    assert forall|i: int| 0 <= i < t[3].extensions@.len() implies t[3].extensions@[i]@ != e by {
        assert(i == 0);
    }
    assert(t[4].extensions@.len() == 4);
    assert(t[4].extensions@[0] == ".clj");
    assert(t[4].extensions@[1] == ".cljs");
    assert(t[4].extensions@[2] == ".cljc");
    assert(t[4].extensions@[3] == ".edn");
    assert forall|i: int| 0 <= i < t[4].extensions@.len() implies t[4].extensions@[i]@ != e by {
        assert(i == 0 || i == 1 || i == 2 || i == 3);
    }
    assert(t[5].extensions@.len() == 1);
    assert(t[5].extensions@[0] == ".coffee");
    assert forall|i: int| 0 <= i < t[5].extensions@.len() implies t[5].extensions@[i]@ != e by {
        assert(i == 0);
    }
    assert(t[6].extensions@.len() == 1);
    assert(t[6].extensions@[0] == ".cr");
    assert forall|i: int| 0 <= i < t[6].extensions@.len() implies t[6].extensions@[i]@ != e by {
        assert(i == 0);
    }
    assert(t[7].extensions@.len() == 2);
    assert(t[7].extensions@[0] == ".pyx");
    assert(t[7].extensions@[1] == ".pxd");
    assert forall|i: int| 0 <= i < t[7].extensions@.len() implies t[7].extensions@[i]@ != e by {
        assert(i == 0 || i == 1);
    }
    assert forall|j: int| 0 <= j < 8 implies !lists_name(#[trigger] t[j].extensions@, e) by {
        assert(j == 0 || j == 1 || j == 2 || j == 3 || j == 4 || j == 5 || j == 6 || j == 7);
    }
}

proof fn lemma_table_part_3_typescript(e: Seq<char>)
    requires
        typescript_extension(e),
    ensures
        forall|j: int| 0 <= j < 8 ==> !lists_name(#[trigger] table_part_3()[j].extensions@, e),
{
    assert(table_part_3().len() == 8);
    reveal_strlit(".cts");
    reveal_strlit(".d");
    reveal_strlit(".dart");
    reveal_strlit(".dhall");
    reveal_strlit(".dockerfile");
    reveal_strlit(".el");
    reveal_strlit(".elm");
    reveal_strlit(".erl");
    reveal_strlit(".ex");
    reveal_strlit(".exs");
    reveal_strlit(".hrl");
    reveal_strlit(".mts");
    reveal_strlit(".ts");
    reveal_strlit(".tsx");
    assert(".cts"@.len() == 4);
    assert(".d"@.len() == 2);
    assert(".dart"@.len() == 5);
    assert(".dhall"@.len() == 6);
    assert(".dockerfile"@.len() == 11);
    assert(".el"@.len() == 3);
    assert(".elm"@.len() == 4);
    assert(".erl"@.len() == 4);
    assert(".ex"@.len() == 3);
    assert(".exs"@.len() == 4);
    assert(".hrl"@.len() == 4);
    assert(".mts"@.len() == 4);
    assert(".ts"@.len() == 3);
    assert(".tsx"@.len() == 4);
    assert(".ex"@[1] != ".ts"@[1]);
    assert(".exs"@[1] != ".tsx"@[1]);
    assert(".exs"@[1] != ".mts"@[1]);
    assert(".exs"@[1] != ".cts"@[1]);
    assert(".elm"@[1] != ".tsx"@[1]);
    assert(".elm"@[1] != ".mts"@[1]);
    assert(".elm"@[1] != ".cts"@[1]);
    assert(".el"@[1] != ".ts"@[1]);
    assert(".erl"@[1] != ".tsx"@[1]);
    assert(".erl"@[1] != ".mts"@[1]);
    assert(".erl"@[1] != ".cts"@[1]);
    assert(".hrl"@[1] != ".tsx"@[1]);
    assert(".hrl"@[1] != ".mts"@[1]);
    assert(".hrl"@[1] != ".cts"@[1]);
    let t = table_part_3();
    assert(t[0].extensions@.len() == 1);
    assert(t[0].extensions@[0] == ".d");
    assert forall|i: int| 0 <= i < t[0].extensions@.len() implies t[0].extensions@[i]@ != e by {
        assert(i == 0);
    }
    assert(t[1].extensions@.len() == 1);
    assert(t[1].extensions@[0] == ".dart");
    assert forall|i: int| 0 <= i < t[1].extensions@.len() implies t[1].extensions@[i]@ != e by {
        assert(i == 0);
    }
    assert(t[2].extensions@.len() == 1);
    assert(t[2].extensions@[0] == ".dhall");
    assert forall|i: int| 0 <= i < t[2].extensions@.len() implies t[2].extensions@[i]@ != e by {
        assert(i == 0);
    }
    assert(t[3].extensions@.len() == 1);
    assert(t[3].extensions@[0] == ".dockerfile");
    assert forall|i: int| 0 <= i < t[3].extensions@.len() implies t[3].extensions@[i]@ != e by {
        assert(i == 0);
    }
    assert(t[4].extensions@.len() == 2);
    assert(t[4].extensions@[0] == ".ex");
    assert(t[4].extensions@[1] == ".exs");
    assert forall|i: int| 0 <= i < t[4].extensions@.len() implies t[4].extensions@[i]@ != e by {
        assert(i == 0 || i == 1);
    }
    assert(t[5].extensions@.len() == 1);
    assert(t[5].extensions@[0] == ".elm");
    assert forall|i: int| 0 <= i < t[5].extensions@.len() implies t[5].extensions@[i]@ != e by {
        assert(i == 0);
    }
    assert(t[6].extensions@.len() == 1);
    assert(t[6].extensions@[0] == ".el");
    assert forall|i: int| 0 <= i < t[6].extensions@.len() implies t[6].extensions@[i]@ != e by {
        assert(i == 0);
    }
    assert(t[7].extensions@.len() == 2);
    assert(t[7].extensions@[0] == ".erl");
    assert(t[7].extensions@[1] == ".hrl");
    assert forall|i: int| 0 <= i < t[7].extensions@.len() implies t[7].extensions@[i]@ != e by {
        assert(i == 0 || i == 1);
    }
    assert forall|j: int| 0 <= j < 8 implies !lists_name(#[trigger] t[j].extensions@, e) by {
        assert(j == 0 || j == 1 || j == 2 || j == 3 || j == 4 || j == 5 || j == 6 || j == 7);
    }
}

proof fn lemma_table_part_4_typescript(e: Seq<char>)
    requires
        typescript_extension(e),
    ensures
        forall|j: int| 0 <= j < 8 ==> !lists_name(#[trigger] table_part_4()[j].extensions@, e),
{
    assert(table_part_4().len() == 8);
    reveal_strlit(".cts");
    reveal_strlit(".f03");
    reveal_strlit(".f08");
    reveal_strlit(".f90");
    reveal_strlit(".f95");
    reveal_strlit(".fnl");
    reveal_strlit(".frag");
    reveal_strlit(".fs");
    reveal_strlit(".fsi");
    reveal_strlit(".fsx");
    reveal_strlit(".gleam");
    reveal_strlit(".glsl");
    reveal_strlit(".go");
    reveal_strlit(".gql");
    reveal_strlit(".gradle");
    reveal_strlit(".graphql");
    reveal_strlit(".groovy");
    reveal_strlit(".mts");
    reveal_strlit(".ts");
    reveal_strlit(".tsx");
    reveal_strlit(".vert");
    assert(".cts"@.len() == 4);
    assert(".f03"@.len() == 4);
    assert(".f08"@.len() == 4);
    assert(".f90"@.len() == 4);
    assert(".f95"@.len() == 4);
    assert(".fnl"@.len() == 4);
    assert(".frag"@.len() == 5);
    assert(".fs"@.len() == 3);
    assert(".fsi"@.len() == 4);
    assert(".fsx"@.len() == 4);
    assert(".gleam"@.len() == 6);
    assert(".glsl"@.len() == 5);
    assert(".go"@.len() == 3);
    assert(".gql"@.len() == 4);
    assert(".gradle"@.len() == 7);
    assert(".graphql"@.len() == 8);
    assert(".groovy"@.len() == 7);
    assert(".mts"@.len() == 4);
    assert(".ts"@.len() == 3);
    assert(".tsx"@.len() == 4);
    assert(".vert"@.len() == 5);
    assert(".fs"@[1] != ".ts"@[1]);
    assert(".fsi"@[1] != ".tsx"@[1]);
    assert(".fsi"@[1] != ".mts"@[1]);
    assert(".fsi"@[1] != ".cts"@[1]);
    assert(".fsx"@[1] != ".tsx"@[1]);
    assert(".fsx"@[1] != ".mts"@[1]);
    assert(".fsx"@[1] != ".cts"@[1]);
    assert(".fnl"@[1] != ".tsx"@[1]);
    assert(".fnl"@[1] != ".mts"@[1]);
    assert(".fnl"@[1] != ".cts"@[1]);
    assert(".f90"@[1] != ".tsx"@[1]);
    assert(".f90"@[1] != ".mts"@[1]);
    assert(".f90"@[1] != ".cts"@[1]);
    assert(".f95"@[1] != ".tsx"@[1]);
    assert(".f95"@[1] != ".mts"@[1]);
    assert(".f95"@[1] != ".cts"@[1]);
    assert(".f03"@[1] != ".tsx"@[1]);
    assert(".f03"@[1] != ".mts"@[1]);
    assert(".f03"@[1] != ".cts"@[1]);
    assert(".f08"@[1] != ".tsx"@[1]);
    assert(".f08"@[1] != ".mts"@[1]);
    assert(".f08"@[1] != ".cts"@[1]);
    assert(".go"@[1] != ".ts"@[1]);
    assert(".gql"@[1] != ".tsx"@[1]);
    assert(".gql"@[1] != ".mts"@[1]);
    assert(".gql"@[1] != ".cts"@[1]);
    let t = table_part_4();
    assert(t[0].extensions@.len() == 3);
    assert(t[0].extensions@[0] == ".fs");
    assert(t[0].extensions@[1] == ".fsi");
    assert(t[0].extensions@[2] == ".fsx");
    assert forall|i: int| 0 <= i < t[0].extensions@.len() implies t[0].extensions@[i]@ != e by {
        assert(i == 0 || i == 1 || i == 2);
    }
    assert(t[1].extensions@.len() == 1);
    assert(t[1].extensions@[0] == ".fnl");
    assert forall|i: int| 0 <= i < t[1].extensions@.len() implies t[1].extensions@[i]@ != e by {
        assert(i == 0);
    }
    assert(t[2].extensions@.len() == 4);
    assert(t[2].extensions@[0] == ".f90");
    assert(t[2].extensions@[1] == ".f95");
    assert(t[2].extensions@[2] == ".f03");
    assert(t[2].extensions@[3] == ".f08");
    assert forall|i: int| 0 <= i < t[2].extensions@.len() implies t[2].extensions@[i]@ != e by {
        assert(i == 0 || i == 1 || i == 2 || i == 3);
    }
    assert(t[3].extensions@.len() == 3);
    assert(t[3].extensions@[0] == ".glsl");
    assert(t[3].extensions@[1] == ".vert");
    assert(t[3].extensions@[2] == ".frag");
    assert forall|i: int| 0 <= i < t[3].extensions@.len() implies t[3].extensions@[i]@ != e by {
        assert(i == 0 || i == 1 || i == 2);
    }
    assert(t[4].extensions@.len() == 1);
    assert(t[4].extensions@[0] == ".gleam");
    assert forall|i: int| 0 <= i < t[4].extensions@.len() implies t[4].extensions@[i]@ != e by {
        assert(i == 0);
    }
    assert(t[5].extensions@.len() == 1);
    assert(t[5].extensions@[0] == ".go");
    assert forall|i: int| 0 <= i < t[5].extensions@.len() implies t[5].extensions@[i]@ != e by {
        assert(i == 0);
    }
    assert(t[6].extensions@.len() == 2);
    assert(t[6].extensions@[0] == ".graphql");
    assert(t[6].extensions@[1] == ".gql");
    assert forall|i: int| 0 <= i < t[6].extensions@.len() implies t[6].extensions@[i]@ != e by {
        assert(i == 0 || i == 1);
    }
    assert(t[7].extensions@.len() == 2);
    assert(t[7].extensions@[0] == ".groovy");
    assert(t[7].extensions@[1] == ".gradle");
    assert forall|i: int| 0 <= i < t[7].extensions@.len() implies t[7].extensions@[i]@ != e by {
        assert(i == 0 || i == 1);
    }
    assert forall|j: int| 0 <= j < 8 implies !lists_name(#[trigger] t[j].extensions@, e) by {
        assert(j == 0 || j == 1 || j == 2 || j == 3 || j == 4 || j == 5 || j == 6 || j == 7);
    }
}

proof fn lemma_table_part_5_typescript(e: Seq<char>)
    requires
        typescript_extension(e),
    ensures
        forall|j: int| 0 <= j < 8 ==> !lists_name(#[trigger] table_part_5()[j].extensions@, e),
{
    assert(table_part_5().len() == 8);
    reveal_strlit(".cfg");
    reveal_strlit(".cts");
    reveal_strlit(".hack");
    reveal_strlit(".hcl");
    reveal_strlit(".hs");
    reveal_strlit(".htm");
    reveal_strlit(".html");
    reveal_strlit(".hx");
    reveal_strlit(".idr");
    reveal_strlit(".ini");
    reveal_strlit(".json");
    reveal_strlit(".lhs");
    reveal_strlit(".mts");
    reveal_strlit(".ts");
    reveal_strlit(".tsx");
    assert(".cfg"@.len() == 4);
    assert(".cts"@.len() == 4);
    assert(".hack"@.len() == 5);
    assert(".hcl"@.len() == 4);
    assert(".hs"@.len() == 3);
    assert(".htm"@.len() == 4);
    assert(".html"@.len() == 5);
    assert(".hx"@.len() == 3);
    assert(".idr"@.len() == 4);
    assert(".ini"@.len() == 4);
    assert(".json"@.len() == 5);
    assert(".lhs"@.len() == 4);
    assert(".mts"@.len() == 4);
    assert(".ts"@.len() == 3);
    assert(".tsx"@.len() == 4);
    assert(".hcl"@[1] != ".tsx"@[1]);
    assert(".hcl"@[1] != ".mts"@[1]);
    assert(".hcl"@[1] != ".cts"@[1]);
    assert(".htm"@[1] != ".tsx"@[1]);
    assert(".htm"@[1] != ".mts"@[1]);
    assert(".htm"@[1] != ".cts"@[1]);
    assert(".hs"@[1] != ".ts"@[1]);
    assert(".lhs"@[1] != ".tsx"@[1]);
    assert(".lhs"@[1] != ".mts"@[1]);
    assert(".lhs"@[1] != ".cts"@[1]);
    assert(".hx"@[1] != ".ts"@[1]);
    assert(".ini"@[1] != ".tsx"@[1]);
    assert(".ini"@[1] != ".mts"@[1]);
    assert(".ini"@[1] != ".cts"@[1]);
    assert(".cfg"@[1] != ".tsx"@[1]);
    assert(".cfg"@[1] != ".mts"@[1]);
    assert(".cfg"@[2] != ".cts"@[2]);
    assert(".idr"@[1] != ".tsx"@[1]);
    assert(".idr"@[1] != ".mts"@[1]);
    assert(".idr"@[1] != ".cts"@[1]);
    let t = table_part_5();
    assert(t[0].extensions@.len() == 1);
    assert(t[0].extensions@[0] == ".hcl");
    assert forall|i: int| 0 <= i < t[0].extensions@.len() implies t[0].extensions@[i]@ != e by {
        assert(i == 0);
    }
    assert(t[1].extensions@.len() == 2);
    assert(t[1].extensions@[0] == ".html");
    assert(t[1].extensions@[1] == ".htm");
    assert forall|i: int| 0 <= i < t[1].extensions@.len() implies t[1].extensions@[i]@ != e by {
        assert(i == 0 || i == 1);
    }
    assert(t[2].extensions@.len() == 1);
    assert(t[2].extensions@[0] == ".hack");
    assert forall|i: int| 0 <= i < t[2].extensions@.len() implies t[2].extensions@[i]@ != e by {
        assert(i == 0);
    }
    assert(t[3].extensions@.len() == 2);
    assert(t[3].extensions@[0] == ".hs");
    assert(t[3].extensions@[1] == ".lhs");
    assert forall|i: int| 0 <= i < t[3].extensions@.len() implies t[3].extensions@[i]@ != e by {
        assert(i == 0 || i == 1);
    }
    assert(t[4].extensions@.len() == 1);
    assert(t[4].extensions@[0] == ".hx");
    assert forall|i: int| 0 <= i < t[4].extensions@.len() implies t[4].extensions@[i]@ != e by {
        assert(i == 0);
    }
    assert(t[5].extensions@.len() == 2);
    assert(t[5].extensions@[0] == ".ini");
    assert(t[5].extensions@[1] == ".cfg");
    assert forall|i: int| 0 <= i < t[5].extensions@.len() implies t[5].extensions@[i]@ != e by {
        assert(i == 0 || i == 1);
    }
    assert(t[6].extensions@.len() == 1);
    assert(t[6].extensions@[0] == ".idr");
    assert forall|i: int| 0 <= i < t[6].extensions@.len() implies t[6].extensions@[i]@ != e by {
        assert(i == 0);
    }
    assert(t[7].extensions@.len() == 1);
    assert(t[7].extensions@[0] == ".json");
    assert forall|i: int| 0 <= i < t[7].extensions@.len() implies t[7].extensions@[i]@ != e by {
        assert(i == 0);
    }
    assert forall|j: int| 0 <= j < 8 implies !lists_name(#[trigger] t[j].extensions@, e) by {
        assert(j == 0 || j == 1 || j == 2 || j == 3 || j == 4 || j == 5 || j == 6 || j == 7);
    }
}

proof fn lemma_table_part_6_typescript(e: Seq<char>)
    requires
        typescript_extension(e),
    ensures
        forall|j: int| 0 <= j < 8 ==> !lists_name(#[trigger] table_part_6()[j].extensions@, e),
{
    assert(table_part_6().len() == 8);
    reveal_strlit(".cjs");
    reveal_strlit(".cls");
    reveal_strlit(".cts");
    reveal_strlit(".java");
    reveal_strlit(".jl");
    reveal_strlit(".js");
    reveal_strlit(".json5");
    reveal_strlit(".jsonnet");
    reveal_strlit(".jsx");
    reveal_strlit(".just");
    reveal_strlit(".kt");
    reveal_strlit(".kts");
    reveal_strlit(".libsonnet");
    reveal_strlit(".mjs");
    reveal_strlit(".mts");
    reveal_strlit(".sty");
    reveal_strlit(".tex");
    reveal_strlit(".ts");
    reveal_strlit(".tsx");
    assert(".cjs"@.len() == 4);
    assert(".cls"@.len() == 4);
    assert(".cts"@.len() == 4);
    assert(".java"@.len() == 5);
    assert(".jl"@.len() == 3);
    assert(".js"@.len() == 3);
    assert(".json5"@.len() == 6);
    assert(".jsonnet"@.len() == 8);
    assert(".jsx"@.len() == 4);
    assert(".just"@.len() == 5);
    assert(".kt"@.len() == 3);
    assert(".kts"@.len() == 4);
    assert(".libsonnet"@.len() == 10);
    assert(".mjs"@.len() == 4);
    assert(".mts"@.len() == 4);
    assert(".sty"@.len() == 4);
    assert(".tex"@.len() == 4);
    assert(".ts"@.len() == 3);
    assert(".tsx"@.len() == 4);
    assert(".js"@[1] != ".ts"@[1]);
    assert(".mjs"@[1] != ".tsx"@[1]);
    assert(".mjs"@[2] != ".mts"@[2]);
    assert(".mjs"@[1] != ".cts"@[1]);
    assert(".cjs"@[1] != ".tsx"@[1]);
    assert(".cjs"@[1] != ".mts"@[1]);
    assert(".cjs"@[2] != ".cts"@[2]);
    assert(".jsx"@[1] != ".tsx"@[1]);
    assert(".jsx"@[1] != ".mts"@[1]);
    assert(".jsx"@[1] != ".cts"@[1]);
    assert(".jl"@[1] != ".ts"@[1]);
    assert(".kt"@[1] != ".ts"@[1]);
    assert(".kts"@[1] != ".tsx"@[1]);
    assert(".kts"@[1] != ".mts"@[1]);
    assert(".kts"@[1] != ".cts"@[1]);
    assert(".tex"@[2] != ".tsx"@[2]);
    assert(".tex"@[1] != ".mts"@[1]);
    assert(".tex"@[1] != ".cts"@[1]);
    assert(".sty"@[1] != ".tsx"@[1]);
    assert(".sty"@[1] != ".mts"@[1]);
    assert(".sty"@[1] != ".cts"@[1]);
    assert(".cls"@[1] != ".tsx"@[1]);
    assert(".cls"@[1] != ".mts"@[1]);
    assert(".cls"@[2] != ".cts"@[2]);
    let t = table_part_6();
    assert(t[0].extensions@.len() == 1);
    assert(t[0].extensions@[0] == ".json5");
    assert forall|i: int| 0 <= i < t[0].extensions@.len() implies t[0].extensions@[i]@ != e by {
        assert(i == 0);
    }
    assert(t[1].extensions@.len() == 1);
    assert(t[1].extensions@[0] == ".java");
    assert forall|i: int| 0 <= i < t[1].extensions@.len() implies t[1].extensions@[i]@ != e by {
        assert(i == 0);
    }
    assert(t[2].extensions@.len() == 4);
    assert(t[2].extensions@[0] == ".js");
    assert(t[2].extensions@[1] == ".mjs");
    assert(t[2].extensions@[2] == ".cjs");
    assert(t[2].extensions@[3] == ".jsx");
    assert forall|i: int| 0 <= i < t[2].extensions@.len() implies t[2].extensions@[i]@ != e by {
        assert(i == 0 || i == 1 || i == 2 || i == 3);
    }
    assert(t[3].extensions@.len() == 2);
    assert(t[3].extensions@[0] == ".jsonnet");
    assert(t[3].extensions@[1] == ".libsonnet");
    assert forall|i: int| 0 <= i < t[3].extensions@.len() implies t[3].extensions@[i]@ != e by {
        assert(i == 0 || i == 1);
    }
    assert(t[4].extensions@.len() == 1);
    assert(t[4].extensions@[0] == ".jl");
    assert forall|i: int| 0 <= i < t[4].extensions@.len() implies t[4].extensions@[i]@ != e by {
        assert(i == 0);
    }
    assert(t[5].extensions@.len() == 1);
    assert(t[5].extensions@[0] == ".just");
    assert forall|i: int| 0 <= i < t[5].extensions@.len() implies t[5].extensions@[i]@ != e by {
        assert(i == 0);
    }
    assert(t[6].extensions@.len() == 2);
    assert(t[6].extensions@[0] == ".kt");
    assert(t[6].extensions@[1] == ".kts");
    assert forall|i: int| 0 <= i < t[6].extensions@.len() implies t[6].extensions@[i]@ != e by {
        assert(i == 0 || i == 1);
    }
    assert(t[7].extensions@.len() == 3);
    assert(t[7].extensions@[0] == ".tex");
    assert(t[7].extensions@[1] == ".sty");
    assert(t[7].extensions@[2] == ".cls");
    assert forall|i: int| 0 <= i < t[7].extensions@.len() implies t[7].extensions@[i]@ != e by {
        assert(i == 0 || i == 1 || i == 2);
    }
    assert forall|j: int| 0 <= j < 8 implies !lists_name(#[trigger] t[j].extensions@, e) by {
        assert(j == 0 || j == 1 || j == 2 || j == 3 || j == 4 || j == 5 || j == 6 || j == 7);
    }
}

proof fn lemma_table_part_7_typescript(e: Seq<char>)
    requires
        typescript_extension(e),
    ensures
        forall|j: int| 0 <= j < 8 ==> !lists_name(#[trigger] table_part_7()[j].extensions@, e),
{
    assert(table_part_7().len() == 8);
    reveal_strlit(".cts");
    reveal_strlit(".lean");
    reveal_strlit(".less");
    reveal_strlit(".lua");
    reveal_strlit(".mak");
    reveal_strlit(".markdown");
    reveal_strlit(".md");
    reveal_strlit(".mk");
    reveal_strlit(".mojo");
    reveal_strlit(".mts");
    reveal_strlit(".nim");
    reveal_strlit(".ts");
    reveal_strlit(".tsx");
    assert(".cts"@.len() == 4);
    assert(".lean"@.len() == 5);
    assert(".less"@.len() == 5);
    assert(".lua"@.len() == 4);
    assert(".mak"@.len() == 4);
    assert(".markdown"@.len() == 9);
    assert(".md"@.len() == 3);
    assert(".mk"@.len() == 3);
    assert(".mojo"@.len() == 5);
    assert(".mts"@.len() == 4);
    assert(".nim"@.len() == 4);
    assert(".ts"@.len() == 3);
    assert(".tsx"@.len() == 4);
    assert(".lua"@[1] != ".tsx"@[1]);
    assert(".lua"@[1] != ".mts"@[1]);
    assert(".lua"@[1] != ".cts"@[1]);
    assert(".mk"@[1] != ".ts"@[1]);
    assert(".mak"@[1] != ".tsx"@[1]);
    assert(".mak"@[2] != ".mts"@[2]);
    assert(".mak"@[1] != ".cts"@[1]);
    assert(".md"@[1] != ".ts"@[1]);
    assert(".nim"@[1] != ".tsx"@[1]);
    assert(".nim"@[1] != ".mts"@[1]);
    assert(".nim"@[1] != ".cts"@[1]);
    let t = table_part_7();
    assert(t[0].extensions@.len() == 1);
    assert(t[0].extensions@[0] == ".lean");
    assert forall|i: int| 0 <= i < t[0].extensions@.len() implies t[0].extensions@[i]@ != e by {
        assert(i == 0);
    }
    assert(t[1].extensions@.len() == 1);
    assert(t[1].extensions@[0] == ".less");
    assert forall|i: int| 0 <= i < t[1].extensions@.len() implies t[1].extensions@[i]@ != e by {
        assert(i == 0);
    }
    assert(t[2].extensions@.len() == 1);
    assert(t[2].extensions@[0] == ".lua");
    assert forall|i: int| 0 <= i < t[2].extensions@.len() implies t[2].extensions@[i]@ != e by {
        assert(i == 0);
    }
    assert(t[3].extensions@.len() == 2);
    assert(t[3].extensions@[0] == ".mk");
    assert(t[3].extensions@[1] == ".mak");
    assert forall|i: int| 0 <= i < t[3].extensions@.len() implies t[3].extensions@[i]@ != e by {
        assert(i == 0 || i == 1);
    }
    assert(t[4].extensions@.len() == 2);
    assert(t[4].extensions@[0] == ".md");
    assert(t[4].extensions@[1] == ".markdown");
    assert forall|i: int| 0 <= i < t[4].extensions@.len() implies t[4].extensions@[i]@ != e by {
        assert(i == 0 || i == 1);
    }
    assert(t[5].extensions@.len() == 0);
    assert(t[6].extensions@.len() == 1);
    assert(t[6].extensions@[0] == ".mojo");
    assert forall|i: int| 0 <= i < t[6].extensions@.len() implies t[6].extensions@[i]@ != e by {
        assert(i == 0);
    }
    assert(t[7].extensions@.len() == 1);
    assert(t[7].extensions@[0] == ".nim");
    assert forall|i: int| 0 <= i < t[7].extensions@.len() implies t[7].extensions@[i]@ != e by {
        assert(i == 0);
    }
    assert forall|j: int| 0 <= j < 8 implies !lists_name(#[trigger] t[j].extensions@, e) by {
        assert(j == 0 || j == 1 || j == 2 || j == 3 || j == 4 || j == 5 || j == 6 || j == 7);
    }
}

proof fn lemma_table_part_8_typescript(e: Seq<char>)
    requires
        typescript_extension(e),
    ensures
        forall|j: int| 0 <= j < 8 ==> !lists_name(#[trigger] table_part_8()[j].extensions@, e),
{
    assert(table_part_8().len() == 8);
    reveal_strlit(".cts");
    reveal_strlit(".m");
    reveal_strlit(".ml");
    reveal_strlit(".mli");
    reveal_strlit(".mm");
    reveal_strlit(".mts");
    reveal_strlit(".nix");
    reveal_strlit(".nu");
    reveal_strlit(".odin");
    reveal_strlit(".pas");
    reveal_strlit(".php");
    reveal_strlit(".pl");
    reveal_strlit(".pm");
    reveal_strlit(".ts");
    reveal_strlit(".tsx");
    assert(".cts"@.len() == 4);
    assert(".m"@.len() == 2);
    assert(".ml"@.len() == 3);
    assert(".mli"@.len() == 4);
    assert(".mm"@.len() == 3);
    assert(".mts"@.len() == 4);
    assert(".nix"@.len() == 4);
    assert(".nu"@.len() == 3);
    assert(".odin"@.len() == 5);
    assert(".pas"@.len() == 4);
    assert(".php"@.len() == 4);
    assert(".pl"@.len() == 3);
    assert(".pm"@.len() == 3);
    assert(".ts"@.len() == 3);
    assert(".tsx"@.len() == 4);
    assert(".nix"@[1] != ".tsx"@[1]);
    assert(".nix"@[1] != ".mts"@[1]);
    assert(".nix"@[1] != ".cts"@[1]);
    assert(".nu"@[1] != ".ts"@[1]);
    assert(".ml"@[1] != ".ts"@[1]);
    assert(".mli"@[1] != ".tsx"@[1]);
    assert(".mli"@[2] != ".mts"@[2]);
    assert(".mli"@[1] != ".cts"@[1]);
    assert(".mm"@[1] != ".ts"@[1]);
    assert(".php"@[1] != ".tsx"@[1]);
    assert(".php"@[1] != ".mts"@[1]);
    assert(".php"@[1] != ".cts"@[1]);
    assert(".pas"@[1] != ".tsx"@[1]);
    assert(".pas"@[1] != ".mts"@[1]);
    assert(".pas"@[1] != ".cts"@[1]);
    assert(".pl"@[1] != ".ts"@[1]);
    assert(".pm"@[1] != ".ts"@[1]);
    let t = table_part_8();
    assert(t[0].extensions@.len() == 1);
    assert(t[0].extensions@[0] == ".nix");
    assert forall|i: int| 0 <= i < t[0].extensions@.len() implies t[0].extensions@[i]@ != e by {
        assert(i == 0);
    }
    assert(t[1].extensions@.len() == 1);
    assert(t[1].extensions@[0] == ".nu");
    assert forall|i: int| 0 <= i < t[1].extensions@.len() implies t[1].extensions@[i]@ != e by {
        assert(i == 0);
    }
    assert(t[2].extensions@.len() == 2);
    assert(t[2].extensions@[0] == ".ml");
    assert(t[2].extensions@[1] == ".mli");
    assert forall|i: int| 0 <= i < t[2].extensions@.len() implies t[2].extensions@[i]@ != e by {
        assert(i == 0 || i == 1);
    }
    assert(t[3].extensions@.len() == 2);
    assert(t[3].extensions@[0] == ".m");
    assert(t[3].extensions@[1] == ".mm");
    assert forall|i: int| 0 <= i < t[3].extensions@.len() implies t[3].extensions@[i]@ != e by {
        assert(i == 0 || i == 1);
    }
    assert(t[4].extensions@.len() == 1);
    assert(t[4].extensions@[0] == ".odin");
    assert forall|i: int| 0 <= i < t[4].extensions@.len() implies t[4].extensions@[i]@ != e by {
        assert(i == 0);
    }
    assert(t[5].extensions@.len() == 1);
    assert(t[5].extensions@[0] == ".php");
    assert forall|i: int| 0 <= i < t[5].extensions@.len() implies t[5].extensions@[i]@ != e by {
        assert(i == 0);
    }
    assert(t[6].extensions@.len() == 1);
    assert(t[6].extensions@[0] == ".pas");
    assert forall|i: int| 0 <= i < t[6].extensions@.len() implies t[6].extensions@[i]@ != e by {
        assert(i == 0);
    }
    assert(t[7].extensions@.len() == 2);
    assert(t[7].extensions@[0] == ".pl");
    assert(t[7].extensions@[1] == ".pm");
    assert forall|i: int| 0 <= i < t[7].extensions@.len() implies t[7].extensions@[i]@ != e by {
        assert(i == 0 || i == 1);
    }
    assert forall|j: int| 0 <= j < 8 implies !lists_name(#[trigger] t[j].extensions@, e) by {
        assert(j == 0 || j == 1 || j == 2 || j == 3 || j == 4 || j == 5 || j == 6 || j == 7);
    }
}

proof fn lemma_table_part_9_typescript(e: Seq<char>)
    requires
        typescript_extension(e),
    ensures
        forall|j: int| 0 <= j < 8 ==> !lists_name(#[trigger] table_part_9()[j].extensions@, e),
{
    assert(table_part_9().len() == 8);
    reveal_strlit(".cts");
    reveal_strlit(".mts");
    reveal_strlit(".proto");
    reveal_strlit(".ps1");
    reveal_strlit(".psd1");
    reveal_strlit(".psm1");
    reveal_strlit(".purs");
    reveal_strlit(".py");
    reveal_strlit(".pyi");
    reveal_strlit(".pyw");
    reveal_strlit(".qml");
    reveal_strlit(".r");
    reveal_strlit(".rkt");
    reveal_strlit(".ts");
    reveal_strlit(".tsx");
    reveal_strlit(".txt");
    assert(".cts"@.len() == 4);
    assert(".mts"@.len() == 4);
    assert(".proto"@.len() == 6);
    assert(".ps1"@.len() == 4);
    assert(".psd1"@.len() == 5);
    assert(".psm1"@.len() == 5);
    assert(".purs"@.len() == 5);
    assert(".py"@.len() == 3);
    assert(".pyi"@.len() == 4);
    assert(".pyw"@.len() == 4);
    assert(".qml"@.len() == 4);
    assert(".r"@.len() == 2);
    assert(".rkt"@.len() == 4);
    assert(".ts"@.len() == 3);
    assert(".tsx"@.len() == 4);
    assert(".txt"@.len() == 4);
    assert(".txt"@[2] != ".tsx"@[2]);
    assert(".txt"@[1] != ".mts"@[1]);
    assert(".txt"@[1] != ".cts"@[1]);
    assert(".ps1"@[1] != ".tsx"@[1]);
    assert(".ps1"@[1] != ".mts"@[1]);
    assert(".ps1"@[1] != ".cts"@[1]);
    assert(".py"@[1] != ".ts"@[1]);
    assert(".pyi"@[1] != ".tsx"@[1]);
    assert(".pyi"@[1] != ".mts"@[1]);
    assert(".pyi"@[1] != ".cts"@[1]);
    assert(".pyw"@[1] != ".tsx"@[1]);
    assert(".pyw"@[1] != ".mts"@[1]);
    assert(".pyw"@[1] != ".cts"@[1]);
    assert(".qml"@[1] != ".tsx"@[1]);
    assert(".qml"@[1] != ".mts"@[1]);
    assert(".qml"@[1] != ".cts"@[1]);
    assert(".rkt"@[1] != ".tsx"@[1]);
    assert(".rkt"@[1] != ".mts"@[1]);
    assert(".rkt"@[1] != ".cts"@[1]);
    let t = table_part_9();
    assert(t[0].extensions@.len() == 1);
    assert(t[0].extensions@[0] == ".txt");
    assert forall|i: int| 0 <= i < t[0].extensions@.len() implies t[0].extensions@[i]@ != e by {
        assert(i == 0);
    }
    assert(t[1].extensions@.len() == 3);
    assert(t[1].extensions@[0] == ".ps1");
    assert(t[1].extensions@[1] == ".psm1");
    assert(t[1].extensions@[2] == ".psd1");
    assert forall|i: int| 0 <= i < t[1].extensions@.len() implies t[1].extensions@[i]@ != e by {
        assert(i == 0 || i == 1 || i == 2);
    }
    assert(t[2].extensions@.len() == 1);
    assert(t[2].extensions@[0] == ".proto");
    assert forall|i: int| 0 <= i < t[2].extensions@.len() implies t[2].extensions@[i]@ != e by {
        assert(i == 0);
    }
    assert(t[3].extensions@.len() == 1);
    assert(t[3].extensions@[0] == ".purs");
    assert forall|i: int| 0 <= i < t[3].extensions@.len() implies t[3].extensions@[i]@ != e by {
        assert(i == 0);
    }
    assert(t[4].extensions@.len() == 3);
    assert(t[4].extensions@[0] == ".py");
    assert(t[4].extensions@[1] == ".pyi");
    assert(t[4].extensions@[2] == ".pyw");
    assert forall|i: int| 0 <= i < t[4].extensions@.len() implies t[4].extensions@[i]@ != e by {
        assert(i == 0 || i == 1 || i == 2);
    }
    assert(t[5].extensions@.len() == 1);
    assert(t[5].extensions@[0] == ".qml");
    assert forall|i: int| 0 <= i < t[5].extensions@.len() implies t[5].extensions@[i]@ != e by {
        assert(i == 0);
    }
    assert(t[6].extensions@.len() == 1);
    assert(t[6].extensions@[0] == ".r");
    assert forall|i: int| 0 <= i < t[6].extensions@.len() implies t[6].extensions@[i]@ != e by {
        assert(i == 0);
    }
    assert(t[7].extensions@.len() == 1);
    assert(t[7].extensions@[0] == ".rkt");
    assert forall|i: int| 0 <= i < t[7].extensions@.len() implies t[7].extensions@[i]@ != e by {
        assert(i == 0);
    }
    assert forall|j: int| 0 <= j < 8 implies !lists_name(#[trigger] t[j].extensions@, e) by {
        assert(j == 0 || j == 1 || j == 2 || j == 3 || j == 4 || j == 5 || j == 6 || j == 7);
    }
}

proof fn lemma_table_part_10_typescript(e: Seq<char>)
    requires
        typescript_extension(e),
    ensures
        forall|j: int| 0 <= j < 8 ==> !lists_name(#[trigger] table_part_10()[j].extensions@, e),
{
    assert(table_part_10().len() == 8);
    reveal_strlit(".bash");
    reveal_strlit(".cts");
    reveal_strlit(".fish");
    reveal_strlit(".gemspec");
    reveal_strlit(".ksh");
    reveal_strlit(".mts");
    reveal_strlit(".rake");
    reveal_strlit(".rb");
    reveal_strlit(".rs");
    reveal_strlit(".sass");
    reveal_strlit(".sc");
    reveal_strlit(".scala");
    reveal_strlit(".scm");
    reveal_strlit(".scss");
    reveal_strlit(".sh");
    reveal_strlit(".sql");
    reveal_strlit(".ss");
    reveal_strlit(".ts");
    reveal_strlit(".tsx");
    reveal_strlit(".zsh");
    assert(".bash"@.len() == 5);
    assert(".cts"@.len() == 4);
    assert(".fish"@.len() == 5);
    assert(".gemspec"@.len() == 8);
    assert(".ksh"@.len() == 4);
    assert(".mts"@.len() == 4);
    assert(".rake"@.len() == 5);
    assert(".rb"@.len() == 3);
    assert(".rs"@.len() == 3);
    assert(".sass"@.len() == 5);
    assert(".sc"@.len() == 3);
    assert(".scala"@.len() == 6);
    assert(".scm"@.len() == 4);
    assert(".scss"@.len() == 5);
    assert(".sh"@.len() == 3);
    assert(".sql"@.len() == 4);
    assert(".ss"@.len() == 3);
    assert(".ts"@.len() == 3);
    assert(".tsx"@.len() == 4);
    assert(".zsh"@.len() == 4);
    assert(".rb"@[1] != ".ts"@[1]);
    assert(".rs"@[1] != ".ts"@[1]);
    assert(".sql"@[1] != ".tsx"@[1]);
    assert(".sql"@[1] != ".mts"@[1]);
    assert(".sql"@[1] != ".cts"@[1]);
    assert(".sc"@[1] != ".ts"@[1]);
    assert(".scm"@[1] != ".tsx"@[1]);
    assert(".scm"@[1] != ".mts"@[1]);
    assert(".scm"@[1] != ".cts"@[1]);
    assert(".ss"@[1] != ".ts"@[1]);
    assert(".sh"@[1] != ".ts"@[1]);
    assert(".zsh"@[1] != ".tsx"@[1]);
    assert(".zsh"@[1] != ".mts"@[1]);
    assert(".zsh"@[1] != ".cts"@[1]);
    assert(".ksh"@[1] != ".tsx"@[1]);
    assert(".ksh"@[1] != ".mts"@[1]);
    assert(".ksh"@[1] != ".cts"@[1]);
    let t = table_part_10();
    assert(t[0].extensions@.len() == 3);
    assert(t[0].extensions@[0] == ".rb");
    assert(t[0].extensions@[1] == ".rake");
    assert(t[0].extensions@[2] == ".gemspec");
    assert forall|i: int| 0 <= i < t[0].extensions@.len() implies t[0].extensions@[i]@ != e by {
        assert(i == 0 || i == 1 || i == 2);
    }
    assert(t[1].extensions@.len() == 1);
    assert(t[1].extensions@[0] == ".rs");
    assert forall|i: int| 0 <= i < t[1].extensions@.len() implies t[1].extensions@[i]@ != e by {
        assert(i == 0);
    }
    assert(t[2].extensions@.len() == 1);
    assert(t[2].extensions@[0] == ".scss");
    assert forall|i: int| 0 <= i < t[2].extensions@.len() implies t[2].extensions@[i]@ != e by {
        assert(i == 0);
    }
    assert(t[3].extensions@.len() == 1);
    assert(t[3].extensions@[0] == ".sql");
    assert forall|i: int| 0 <= i < t[3].extensions@.len() implies t[3].extensions@[i]@ != e by {
        assert(i == 0);
    }
    assert(t[4].extensions@.len() == 1);
    assert(t[4].extensions@[0] == ".sass");
    assert forall|i: int| 0 <= i < t[4].extensions@.len() implies t[4].extensions@[i]@ != e by {
        assert(i == 0);
    }
    assert(t[5].extensions@.len() == 2);
    assert(t[5].extensions@[0] == ".scala");
    assert(t[5].extensions@[1] == ".sc");
    assert forall|i: int| 0 <= i < t[5].extensions@.len() implies t[5].extensions@[i]@ != e by {
        assert(i == 0 || i == 1);
    }
    assert(t[6].extensions@.len() == 2);
    assert(t[6].extensions@[0] == ".scm");
    assert(t[6].extensions@[1] == ".ss");
    assert forall|i: int| 0 <= i < t[6].extensions@.len() implies t[6].extensions@[i]@ != e by {
        assert(i == 0 || i == 1);
    }
    assert(t[7].extensions@.len() == 5);
    assert(t[7].extensions@[0] == ".sh");
    assert(t[7].extensions@[1] == ".bash");
    assert(t[7].extensions@[2] == ".zsh");
    assert(t[7].extensions@[3] == ".fish");
    assert(t[7].extensions@[4] == ".ksh");
    assert forall|i: int| 0 <= i < t[7].extensions@.len() implies t[7].extensions@[i]@ != e by {
        assert(i == 0 || i == 1 || i == 2 || i == 3 || i == 4);
    }
    assert forall|j: int| 0 <= j < 8 implies !lists_name(#[trigger] t[j].extensions@, e) by {
        assert(j == 0 || j == 1 || j == 2 || j == 3 || j == 4 || j == 5 || j == 6 || j == 7);
    }
}

proof fn lemma_table_part_11_typescript(e: Seq<char>)
    requires
        typescript_extension(e),
    ensures
        forall|j: int| 0 <= j < 7 ==> !lists_name(#[trigger] table_part_11()[j].extensions@, e),
        lists_name(table_part_11()[7].extensions@, e),
{
    reveal_strlit(".cts");
    reveal_strlit(".mts");
    reveal_strlit(".sol");
    reveal_strlit(".star");
    reveal_strlit(".svelte");
    reveal_strlit(".swift");
    reveal_strlit(".tcl");
    reveal_strlit(".tf");
    reveal_strlit(".tfvars");
    reveal_strlit(".toml");
    reveal_strlit(".ts");
    reveal_strlit(".tsx");
    assert(".cts"@.len() == 4);
    assert(".mts"@.len() == 4);
    assert(".sol"@.len() == 4);
    assert(".star"@.len() == 5);
    assert(".svelte"@.len() == 7);
    assert(".swift"@.len() == 6);
    assert(".tcl"@.len() == 4);
    assert(".tf"@.len() == 3);
    assert(".tfvars"@.len() == 7);
    assert(".toml"@.len() == 5);
    assert(".ts"@.len() == 3);
    assert(".tsx"@.len() == 4);
    assert(".sol"@[1] != ".tsx"@[1]);
    assert(".sol"@[1] != ".mts"@[1]);
    assert(".sol"@[1] != ".cts"@[1]);
    assert(".tcl"@[2] != ".tsx"@[2]);
    assert(".tcl"@[1] != ".mts"@[1]);
    assert(".tcl"@[1] != ".cts"@[1]);
    assert(".tf"@[2] != ".ts"@[2]);
    let t = table_part_11();
    assert(t[0].extensions@.len() == 1);
    assert(t[0].extensions@[0] == ".sol");
    assert forall|i: int| 0 <= i < t[0].extensions@.len() implies t[0].extensions@[i]@ != e by {
        assert(i == 0);
    }
    assert(t[1].extensions@.len() == 1);
    assert(t[1].extensions@[0] == ".star");
    assert forall|i: int| 0 <= i < t[1].extensions@.len() implies t[1].extensions@[i]@ != e by {
        assert(i == 0);
    }
    assert(t[2].extensions@.len() == 1);
    assert(t[2].extensions@[0] == ".svelte");
    assert forall|i: int| 0 <= i < t[2].extensions@.len() implies t[2].extensions@[i]@ != e by {
        assert(i == 0);
    }
    assert(t[3].extensions@.len() == 1);
    assert(t[3].extensions@[0] == ".swift");
    assert forall|i: int| 0 <= i < t[3].extensions@.len() implies t[3].extensions@[i]@ != e by {
        assert(i == 0);
    }
    assert(t[4].extensions@.len() == 1);
    assert(t[4].extensions@[0] == ".toml");
    assert forall|i: int| 0 <= i < t[4].extensions@.len() implies t[4].extensions@[i]@ != e by {
        assert(i == 0);
    }
    assert(t[5].extensions@.len() == 1);
    assert(t[5].extensions@[0] == ".tcl");
    assert forall|i: int| 0 <= i < t[5].extensions@.len() implies t[5].extensions@[i]@ != e by {
        assert(i == 0);
    }
    assert(t[6].extensions@.len() == 2);
    assert(t[6].extensions@[0] == ".tf");
    assert(t[6].extensions@[1] == ".tfvars");
    assert forall|i: int| 0 <= i < t[6].extensions@.len() implies t[6].extensions@[i]@ != e by {
        assert(i == 0 || i == 1);
    }
    assert forall|j: int| 0 <= j < 7 implies !lists_name(#[trigger] t[j].extensions@, e) by {
        assert(j == 0 || j == 1 || j == 2 || j == 3 || j == 4 || j == 5 || j == 6);
    }
    assert(t[7].extensions@.len() == 4);
    assert(t[7].extensions@[0] == ".ts");
    assert(t[7].extensions@[1] == ".tsx");
    assert(t[7].extensions@[2] == ".mts");
    assert(t[7].extensions@[3] == ".cts");
    assert(t[7].extensions@[0]@ == ".ts"@ && t[7].extensions@[1]@ == ".tsx"@ && t[7].extensions@[2]@ == ".mts"@ && t[7].extensions@[3]@ == ".cts"@);
}

proof fn lemma_first_ext_skip(a: Seq<LanguageConfig>, b: Seq<LanguageConfig>, e: Seq<char>)
    requires
        forall|j: int| 0 <= j < a.len() ==> !lists_name(#[trigger] a[j].extensions@, e),
    ensures
        first_extension(a + b, e) == (match first_extension(b, e) {
            Some(i) => Some(i + a.len()),
            None => None::<int>,
        }),
    decreases a.len(),
{
    if a.len() > 0 {
        assert((a + b).drop_first() =~= a.drop_first() + b);
        assert((a + b)[0] == a[0]);
        assert forall|j: int| 0 <= j < a.drop_first().len() implies !lists_name(#[trigger] a.drop_first()[j].extensions@, e) by {
            assert(a.drop_first()[j] == a[j + 1]);
        }
        lemma_first_ext_skip(a.drop_first(), b, e);
    } else {
        assert(a + b =~= b);
    }
}

proof fn lemma_first_ext_keep(a: Seq<LanguageConfig>, b: Seq<LanguageConfig>, e: Seq<char>, i: int)
    requires
        first_extension(a, e) == Some(i),
    ensures
        first_extension(a + b, e) == Some(i),
    decreases a.len(),
{
    if a.len() > 0 {
        assert((a + b)[0] == a[0]);
        if !lists_name(a[0].extensions@, e) {
            assert((a + b).drop_first() =~= a.drop_first() + b);
            lemma_first_ext_keep(a.drop_first(), b, e, i - 1);
        }
    }
}

proof fn lemma_none_list(a: Seq<LanguageConfig>, b: Seq<LanguageConfig>, e: Seq<char>)
    requires
        forall|j: int| 0 <= j < a.len() ==> !lists_name(#[trigger] a[j].extensions@, e),
        forall|j: int| 0 <= j < b.len() ==> !lists_name(#[trigger] b[j].extensions@, e),
    ensures
        forall|j: int| 0 <= j < (a + b).len() ==> !lists_name(#[trigger] (a + b)[j].extensions@, e),
{
    assert forall|j: int| 0 <= j < (a + b).len() implies !lists_name(#[trigger] (a + b)[j].extensions@, e) by {
        if j < a.len() {
            assert((a + b)[j] == a[j]);
        } else {
            assert((a + b)[j] == b[j - a.len()]);
        }
    }
}

/// Every TypeScript extension (`.ts`, `.tsx`, `.mts`, `.cts`, in any
/// letter case) makes a file TypeScript, unless its whole name is one a
/// language lists by name: no other language claims these extensions.
pub proof fn law_typescript_extensions(path: Seq<char>)
    requires
        first_exact(builtin_table(), path_file_name(path)) is None,
        file_extension(path_file_name(path)) matches Some(e) && typescript_extension(e),
    ensures
        language_match(builtin_table(), path) matches Some(i) && builtin_table()[i].name@ == "TypeScript"@,
{
    let e = file_extension(path_file_name(path))->0;
    lemma_table_part_0_typescript(e);
    lemma_table_part_1_typescript(e);
    lemma_table_part_2_typescript(e);
    lemma_table_part_3_typescript(e);
    lemma_table_part_4_typescript(e);
    lemma_table_part_5_typescript(e);
    lemma_table_part_6_typescript(e);
    lemma_table_part_7_typescript(e);
    lemma_table_part_8_typescript(e);
    lemma_table_part_9_typescript(e);
    lemma_table_part_10_typescript(e);
    lemma_table_part_11_typescript(e);
    let a1 = table_part_0() + table_part_1();
    lemma_none_list(table_part_0(), table_part_1(), e);
    let a2 = a1 + table_part_2();
    lemma_none_list(a1, table_part_2(), e);
    let a3 = a2 + table_part_3();
    lemma_none_list(a2, table_part_3(), e);
    let a4 = a3 + table_part_4();
    lemma_none_list(a3, table_part_4(), e);
    let a5 = a4 + table_part_5();
    lemma_none_list(a4, table_part_5(), e);
    let a6 = a5 + table_part_6();
    lemma_none_list(a5, table_part_6(), e);
    let a7 = a6 + table_part_7();
    lemma_none_list(a6, table_part_7(), e);
    let a8 = a7 + table_part_8();
    lemma_none_list(a7, table_part_8(), e);
    let a9 = a8 + table_part_9();
    lemma_none_list(a8, table_part_9(), e);
    let a10 = a9 + table_part_10();
    lemma_none_list(a9, table_part_10(), e);
    assert(a10.len() == 88);
    let p11 = table_part_11();
    let head = p11.take(7);
    assert forall|j: int| 0 <= j < head.len() implies !lists_name(#[trigger] head[j].extensions@, e) by {
        assert(head[j] == p11[j]);
    }
    assert(p11 =~= head + p11.skip(7));
    assert(first_extension(p11.skip(7), e) == Some(0int)) by {
        assert(p11.skip(7)[0] == p11[7]);
    }
    lemma_first_ext_skip(head, p11.skip(7), e);
    lemma_first_ext_skip(a10, p11, e);
    lemma_first_ext_keep(a10 + p11, table_part_12(), e, 95);
    assert(builtin_table() == a10 + p11 + table_part_12());
    assert(builtin_table()[95] == p11[7]);
}

} // verus!
