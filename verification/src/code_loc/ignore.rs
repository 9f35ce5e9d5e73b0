//! Ignore patterns: globs matched against file names, regular expressions
//! matched against relative paths.
use vstd::prelude::*;
use vstd::string::*;
use regex::Regex;
use globset::{Glob, GlobSet};
use crate::context::report::{normalize_relative_path, normalized_relative};
use crate::paths::views;
use crate::runtime::diff::{components, path_components};
use crate::text::{chars_of, str_eq};

verus! {

#[verifier::external_type_specification]
#[verifier::external_body]
pub struct ExRegex(regex::Regex);

#[verifier::external_type_specification]
#[verifier::external_body]
pub struct ExGlob(globset::Glob);

#[verifier::external_type_specification]
#[verifier::external_body]
pub struct ExGlobSet(globset::GlobSet);

/// The error text of `regex::Regex::new` on a pattern, or `None` when the
/// pattern compiles.
pub uninterp spec fn regex_new_error(pattern: Seq<char>) -> Option<Seq<char>>;

/// Whether the regular expression `pattern` matches somewhere in `text`
/// (`Regex::is_match`).
pub uninterp spec fn regex_matches(pattern: Seq<char>, text: Seq<char>) -> bool;

/// The error text of `globset::Glob::new` on a pattern, or `None` when the
/// pattern parses.
pub uninterp spec fn glob_new_error(pattern: Seq<char>) -> Option<Seq<char>>;

/// The error text of `globset::GlobSet::new` on globs parsed from the
/// patterns, or `None` when the set builds.
pub uninterp spec fn glob_set_new_error(patterns: Seq<Seq<char>>) -> Option<Seq<char>>;

/// Whether some glob of the set built from the patterns matches `text`
/// (`GlobSet::is_match`).
pub uninterp spec fn glob_set_matches(patterns: Seq<Seq<char>>, text: Seq<char>) -> bool;

/// A compiled regular expression with the pattern it was compiled from.
#[derive(Debug)]
pub struct CompiledRegex {
    pattern: String,
    regex: Regex,
}

impl CompiledRegex {
    pub closed spec fn spec_pattern(&self) -> Seq<char> {
        self.pattern@
    }
}

/// A parsed glob with its pattern.
#[derive(Debug)]
pub struct CompiledGlob {
    pattern: String,
    glob: Glob,
}

impl CompiledGlob {
    pub closed spec fn spec_pattern(&self) -> Seq<char> {
        self.pattern@
    }
}

/// A set of globs with their patterns, in order.
#[derive(Debug)]
pub struct CompiledGlobSet {
    patterns: Vec<String>,
    set: GlobSet,
}

impl CompiledGlobSet {
    pub closed spec fn spec_patterns(&self) -> Seq<Seq<char>> {
        views(self.patterns@)
    }
}

/// `Regex::new`: the compiled pattern, or the error's display text. A
/// `CompiledRegex` is only made here, so its regex is always the one
/// compiled from its pattern.
#[verifier::external_body]
fn compile_regex(pattern: &str) -> (r: Result<CompiledRegex, String>)
    ensures
        match r {
            Ok(c) => regex_new_error(pattern@) is None && c.spec_pattern() == pattern@,
            Err(e) => regex_new_error(pattern@) == Some(e@),
        },
{
    match Regex::new(pattern) {
        Ok(regex) => Ok(CompiledRegex { pattern: pattern.to_owned(), regex }),
        Err(e) => Err(e.to_string()),
    }
}

/// `Regex::is_match` of the compiled pattern on `text`.
#[verifier::external_body]
fn regex_is_match(c: &CompiledRegex, text: &str) -> (r: bool)
    ensures
        r == regex_matches(c.spec_pattern(), text@),
{
    c.regex.is_match(text)
}

/// `Glob::new`: the parsed pattern, or the error's display text. A
/// `CompiledGlob` is only made here.
#[verifier::external_body]
fn compile_glob(pattern: &str) -> (r: Result<CompiledGlob, String>)
    ensures
        match r {
            Ok(g) => glob_new_error(pattern@) is None && g.spec_pattern() == pattern@,
            Err(e) => glob_new_error(pattern@) == Some(e@),
        },
{
    match Glob::new(pattern) {
        Ok(glob) => Ok(CompiledGlob { pattern: pattern.to_owned(), glob }),
        Err(e) => Err(e.to_string()),
    }
}

/// The patterns of parsed globs, in order.
pub open spec fn glob_patterns(globs: Seq<CompiledGlob>) -> Seq<Seq<char>> {
    globs.map_values(|g: CompiledGlob| g.spec_pattern())
}

/// `GlobSet::new` on the globs: the set, or the error's display text. An
/// empty collection always builds (the source returns the empty set).
#[verifier::external_body]
fn glob_set_new(globs: &Vec<CompiledGlob>) -> (r: Result<CompiledGlobSet, String>)
    ensures
        globs@.len() == 0 ==> r is Ok,
        match r {
            Ok(s) => glob_set_new_error(glob_patterns(globs@)) is None && s.spec_patterns() == glob_patterns(globs@),
            Err(e) => glob_set_new_error(glob_patterns(globs@)) == Some(e@),
        },
{
    match GlobSet::new(globs.iter().map(|g| &g.glob)) {
        Ok(set) => Ok(CompiledGlobSet { patterns: globs.iter().map(|g| g.pattern.clone()).collect(), set }),
        Err(e) => Err(e.to_string()),
    }
}

/// `GlobSet::is_match` on `text`; an empty set matches nothing (the source
/// checks for emptiness first).
#[verifier::external_body]
fn glob_set_is_match(s: &CompiledGlobSet, text: &str) -> (r: bool)
    ensures
        r == glob_set_matches(s.spec_patterns(), text@),
        s.spec_patterns().len() == 0 ==> !r,
{
    s.set.is_match(text)
}

/// The pattern is a glob: it holds `*`, `?` or `[`.
pub open spec fn is_glob(pattern: Seq<char>) -> bool {
    exists|i: int| 0 <= i < pattern.len() && (pattern[i] == '*' || pattern[i] == '?' || pattern[i] == '[')
}

/// Whether the pattern is a glob.
pub fn is_glob_pattern(pattern: &str) -> (r: bool)
    ensures
        r == is_glob(pattern@),
{
    let v = chars_of(pattern);
    let mut i: usize = 0;
    while i < v.len()
        invariant
            i <= v@.len(),
            v@ == pattern@,
            forall|j: int| 0 <= j < i ==> !(v@[j] == '*' || v@[j] == '?' || v@[j] == '['),
        decreases v@.len() - i,
    {
        let c = v[i];
        if c == '*' || c == '?' || c == '[' {
            return true;
        }
        i = i + 1;
    }
    false
}

/// The patterns of `patterns` that are globs (or not), in order.
pub open spec fn split_patterns(patterns: Seq<Seq<char>>, globs: bool) -> Seq<Seq<char>>
    decreases patterns.len(),
{
    if patterns.len() == 0 {
        Seq::empty()
    } else {
        let prev = split_patterns(patterns.drop_last(), globs);
        if is_glob(patterns.last()) == globs { prev.push(patterns.last()) } else { prev }
    }
}

/// Paths to leave out of an analysis.
#[derive(Debug)]
pub struct IgnoreMatcher {
    regex_ignore: Vec<CompiledRegex>,
    glob_ignore: CompiledGlobSet,
}

impl IgnoreMatcher {
    /// The regular-expression patterns, in order.
    pub closed spec fn regex_patterns(&self) -> Seq<Seq<char>> {
        self.regex_ignore@.map_values(|c: CompiledRegex| c.spec_pattern())
    }

    /// The glob patterns, in order.
    pub closed spec fn glob_patterns(&self) -> Seq<Seq<char>> {
        self.glob_ignore.spec_patterns()
    }

    /// A matcher that ignores nothing.
    pub fn empty() -> (r: Self)
        ensures
            r.regex_patterns().len() == 0,
            r.glob_patterns().len() == 0,
    {
        let globs: Vec<CompiledGlob> = Vec::new();
        let set = match glob_set_new(&globs) {
            Ok(s) => s,
            Err(_) => vstd::pervasive::unreached(),
        };
        let r = IgnoreMatcher { regex_ignore: Vec::new(), glob_ignore: set };
        assert(r.regex_patterns() =~= Seq::<Seq<char>>::empty());
        r
    }
}

/// Why the pattern cannot be used, if it cannot.
pub open spec fn pattern_error(p: Seq<char>) -> Option<Seq<char>> {
    if is_glob(p) {
        match glob_new_error(p) {
            Some(e) => Some("invalid glob ignore pattern `"@ + p + "`: "@ + e),
            None => None,
        }
    } else {
        match regex_new_error(p) {
            Some(e) => Some("invalid regex ignore pattern `"@ + p + "`: "@ + e),
            None => None,
        }
    }
}

/// The error of the first unusable pattern, if any.
pub open spec fn first_pattern_error(ps: Seq<Seq<char>>) -> Option<Seq<char>>
    decreases ps.len(),
{
    if ps.len() == 0 {
        None
    } else {
        match pattern_error(ps[0]) {
            Some(e) => Some(e),
            None => first_pattern_error(ps.drop_first()),
        }
    }
}

/// The last name of a path's components, skipping `.`; none for a path
/// that ends in `..` or has no names.
pub open spec fn last_name(c: Seq<Seq<char>>) -> Option<Seq<char>>
    decreases c.len(),
{
    if c.len() == 0 {
        None
    } else if c.last() == "."@ {
        last_name(c.drop_last())
    } else if c.last() == ".."@ {
        None
    } else {
        Some(c.last())
    }
}

/// The file name of a path, if it has one.
pub open spec fn file_name_opt(p: Seq<char>) -> Option<Seq<char>> {
    last_name(components(p))
}

/// A path is ignored when a regular expression matches its normalized
/// form, or a glob matches its file name.
pub open spec fn ignored_by(regexes: Seq<Seq<char>>, globs: Seq<Seq<char>>, path: Seq<char>) -> bool {
    (exists|i: int| 0 <= i < regexes.len() && regex_matches(#[trigger] regexes[i], normalized_relative(path)))
    || (match file_name_opt(path) {
        Some(f) => glob_set_matches(globs, f),
        None => false,
    })
}

fn file_name_of_path(p: &str) -> (r: Option<String>)
    ensures
        match r {
            Some(f) => file_name_opt(p@) == Some(f@),
            None => file_name_opt(p@) is None,
        },
{
    proof { reveal_strlit("."); reveal_strlit(".."); }
    let c = path_components(p);
    let mut k = c.len();
    assert(views(c@).take(k as int) =~= views(c@));
    while k > 0
        invariant
            k <= c@.len(),
            views(c@) == components(p@),
            last_name(components(p@)) == last_name(views(c@).take(k as int)),
        decreases k,
    {
        assert(views(c@).take(k as int).drop_last() =~= views(c@).take(k - 1));
        assert(views(c@).take(k as int).last() == c@[k - 1]@);
        if str_eq(c[k - 1].as_str(), ".") {
            k = k - 1;
        } else if str_eq(c[k - 1].as_str(), "..") {
            return None;
        } else {
            return Some(c[k - 1].as_str().to_owned());
        }
    }
    None
}

impl IgnoreMatcher {
    /// Compiles ignore patterns: those holding `*`, `?` or `[` as globs,
    /// the others as regular expressions, in order; the first bad pattern
    /// is reported.
    pub fn from_patterns(patterns: &Vec<String>) -> (r: Result<Self, String>)
        ensures
            match first_pattern_error(views(patterns@)) {
                Some(e) => r matches Err(m) && m@ == e,
                None => match glob_set_new_error(split_patterns(views(patterns@), true)) {
                    Some(e) => r matches Err(m) && m@ == "failed to compile ignore glob set: "@ + e,
                    None => r matches Ok(m) && m.regex_patterns() == split_patterns(views(patterns@), false)
                        && m.glob_patterns() == split_patterns(views(patterns@), true),
                },
            },
    {
        let mut regexes: Vec<CompiledRegex> = Vec::new();
        let mut globs: Vec<CompiledGlob> = Vec::new();
        let mut i: usize = 0;
        assert(views(patterns@).skip(0) =~= views(patterns@));
        while i < patterns.len()
            invariant
                i <= patterns@.len(),
                first_pattern_error(views(patterns@)) == first_pattern_error(views(patterns@).skip(i as int)),
                regexes@.map_values(|c: CompiledRegex| c.spec_pattern()) == split_patterns(views(patterns@).take(i as int), false),
                glob_patterns(globs@) == split_patterns(views(patterns@).take(i as int), true),
            decreases patterns@.len() - i,
        {
            let p = patterns[i].as_str();
            assert(views(patterns@).skip(i as int)[0] == p@);
            assert(views(patterns@).skip(i as int).drop_first() =~= views(patterns@).skip(i + 1));
            assert(views(patterns@).take(i + 1).drop_last() =~= views(patterns@).take(i as int));
            assert(views(patterns@).take(i + 1).last() == p@);
            if is_glob_pattern(p) {
                match compile_glob(p) {
                    Ok(g) => {
                        let ghost before = glob_patterns(globs@);
                        globs.push(g);
                        assert(glob_patterns(globs@) =~= before.push(p@));
                    },
                    Err(e) => {
                        let mut m = "invalid glob ignore pattern `".to_owned();
                        m.append(p);
                        m.append("`: ");
                        m.append(e.as_str());
                        return Err(m);
                    },
                }
            } else {
                match compile_regex(p) {
                    Ok(c) => {
                        let ghost before = regexes@.map_values(|c: CompiledRegex| c.spec_pattern());
                        regexes.push(c);
                        assert(regexes@.map_values(|c: CompiledRegex| c.spec_pattern()) =~= before.push(p@));
                    },
                    Err(e) => {
                        let mut m = "invalid regex ignore pattern `".to_owned();
                        m.append(p);
                        m.append("`: ");
                        m.append(e.as_str());
                        return Err(m);
                    },
                }
            }
            i = i + 1;
        }
        assert(views(patterns@).take(i as int) =~= views(patterns@));
        assert(views(patterns@).skip(i as int) =~= Seq::<Seq<char>>::empty());
        match glob_set_new(&globs) {
            Ok(set) => Ok(IgnoreMatcher { regex_ignore: regexes, glob_ignore: set }),
            Err(e) => {
                let mut m = "failed to compile ignore glob set: ".to_owned();
                m.append(e.as_str());
                Err(m)
            },
        }
    }

    /// Whether the path (relative to the analysed directory) is ignored.
    pub fn is_ignored(&self, relative_path: &str) -> (r: bool)
        ensures
            r == ignored_by(self.regex_patterns(), self.glob_patterns(), relative_path@),
    {
        let normalized = normalize_relative_path(relative_path);
        let mut i: usize = 0;
        while i < self.regex_ignore.len()
            invariant
                i <= self.regex_ignore@.len(),
                normalized@ == normalized_relative(relative_path@),
                forall|j: int| 0 <= j < i ==> !regex_matches(#[trigger] self.regex_patterns()[j], normalized_relative(relative_path@)),
            decreases self.regex_ignore@.len() - i,
        {
            if regex_is_match(&self.regex_ignore[i], normalized.as_str()) {
                assert(self.regex_patterns()[i as int] == self.regex_ignore@[i as int].spec_pattern());
                return true;
            }
            assert(self.regex_patterns()[i as int] == self.regex_ignore@[i as int].spec_pattern());
            i = i + 1;
        }
        match file_name_of_path(relative_path) {
            Some(f) => glob_set_is_match(&self.glob_ignore, f.as_str()),
            None => false,
        }
    }
}

/// Every ignore pattern is used exactly once: as a glob when it holds `*`,
/// `?` or `[`, as a regular expression otherwise, in the order given.
pub proof fn law_every_pattern_used_once(patterns: Seq<Seq<char>>)
    ensures
        split_patterns(patterns, true).len() + split_patterns(patterns, false).len() == patterns.len(),
        forall|p: Seq<char>| #[trigger] split_patterns(patterns, true).contains(p) ==> is_glob(p) && patterns.contains(p),
        forall|p: Seq<char>| #[trigger] split_patterns(patterns, false).contains(p) ==> !is_glob(p) && patterns.contains(p),
        forall|p: Seq<char>| #[trigger] patterns.contains(p) ==> (if is_glob(p) {
            split_patterns(patterns, true).contains(p)
        } else {
            split_patterns(patterns, false).contains(p)
        }),
    decreases patterns.len(),
{
    if patterns.len() > 0 {
        let prev = patterns.drop_last();
        let x = patterns.last();
        law_every_pattern_used_once(prev);
        assert(patterns =~= prev.push(x));
        assert(patterns.drop_last() =~= prev);
        assert forall|p: Seq<char>| #[trigger] split_patterns(patterns, true).contains(p) implies is_glob(p) && patterns.contains(p) by {
            if split_patterns(prev, true).contains(p) {
                assert(prev.contains(p));
                let k = choose|k: int| 0 <= k < prev.len() && prev[k] == p;
                assert(patterns[k] == p);
            } else {
                assert(p == x);
                assert(patterns[patterns.len() - 1] == p);
            }
        }
        assert forall|p: Seq<char>| #[trigger] split_patterns(patterns, false).contains(p) implies !is_glob(p) && patterns.contains(p) by {
            if split_patterns(prev, false).contains(p) {
                assert(prev.contains(p));
                let k = choose|k: int| 0 <= k < prev.len() && prev[k] == p;
                assert(patterns[k] == p);
            } else {
                assert(p == x);
                assert(patterns[patterns.len() - 1] == p);
            }
        }
        assert forall|p: Seq<char>| #[trigger] patterns.contains(p) implies (if is_glob(p) {
            split_patterns(patterns, true).contains(p)
        } else {
            split_patterns(patterns, false).contains(p)
        }) by {
            let k = choose|k: int| 0 <= k < patterns.len() && patterns[k] == p;
            if k < prev.len() {
                assert(prev[k] == p);
                assert(prev.contains(p));
                if is_glob(p) {
                    let j = choose|j: int| 0 <= j < split_patterns(prev, true).len() && split_patterns(prev, true)[j] == p;
                    assert(split_patterns(patterns, true)[j] == p);
                } else {
                    let j = choose|j: int| 0 <= j < split_patterns(prev, false).len() && split_patterns(prev, false)[j] == p;
                    assert(split_patterns(patterns, false)[j] == p);
                }
            } else {
                assert(p == x);
                if is_glob(p) {
                    assert(split_patterns(patterns, true).last() == p);
                } else {
                    assert(split_patterns(patterns, false).last() == p);
                }
            }
        }
    }
}

} // verus!
