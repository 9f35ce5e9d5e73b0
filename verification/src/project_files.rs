//! The files of a project: what is known of each, and their order.
use vstd::prelude::*;
use vstd::seq_lib::*;
use vstd::string::*;
use crate::code_loc::ignore::{ignored_by, IgnoreMatcher};
use crate::config::{builtin_table, language_for_path, language_match};
use crate::context::candidate::ProjectFile;
use crate::context::report::{normalize_relative_path, normalized_relative};
use crate::sorting::{key_lt, keys_sorted, lemma_text_lt_irreflexive, sort_by_key, text_lt, SortKey};
use crate::text::chars_of;

verus! {

/// Whether a directory walk enters the entry at `depth` (the root is at
/// depth zero) whose path relative to the root is `relative_path`: the root
/// always, anything else unless it is ignored.
pub fn should_visit(depth: usize, relative_path: &str, ignore: &IgnoreMatcher) -> (r: bool)
    ensures
        r == (depth == 0 || !ignored_by(ignore.regex_patterns(), ignore.glob_patterns(), relative_path@)),
{
    depth == 0 || !ignore.is_ignored(relative_path)
}

/// The language name the built-in table gives the file at `path`.
pub open spec fn language_name_of(path: Seq<char>) -> Option<Seq<char>> {
    match language_match(builtin_table(), path) {
        Some(i) => Some(builtin_table()[i].name@),
        None => None,
    }
}

/// A file found at `absolute_path`, `relative_path` below the root, of
/// `size_bytes` bytes; its language is looked up by its path.
pub fn project_file(absolute_path: String, relative_path: String, size_bytes: u64) -> (r: ProjectFile)
    ensures
        r.absolute_path == absolute_path,
        r.relative_path == relative_path,
        r.normalized_relative_path@ == normalized_relative(relative_path@),
        r.size_bytes == size_bytes,
        match language_name_of(absolute_path@) {
            Some(n) => r.language matches Some(l) && l@ == n,
            None => r.language is None,
        },
{
    let language = match language_for_path(absolute_path.as_str()) {
        Some((_, l)) => Some(l.name.to_owned()),
        None => None,
    };
    let normalized = normalize_relative_path(relative_path.as_str());
    ProjectFile { absolute_path, relative_path, normalized_relative_path: normalized, size_bytes, language }
}

pub open spec fn file_key_of(k: SortKey, i: int, f: ProjectFile) -> bool {
    k.a == 0 && k.b == 0 && k.c == 0 && k.text@ == f.normalized_relative_path@ && k.index == i
}

/// The files ordered by normalized relative path; the same files as given.
pub fn sort_project_files(files: Vec<ProjectFile>) -> (r: Vec<ProjectFile>)
    requires
        files@.len() <= u64::MAX,
    ensures
        r@.to_multiset() == files@.to_multiset(),
        forall|i: int, j: int| 0 <= i < j < r@.len() ==> !text_lt(#[trigger] r@[j].normalized_relative_path@, #[trigger] r@[i].normalized_relative_path@),
{
    broadcast use group_to_multiset_ensures;
    let ghost orig = files@;
    let mut pairs: Vec<(SortKey, ProjectFile)> = Vec::new();
    let mut rest = files;
    let n = rest.len();
    let mut i: usize = 0;
    while i < n
        invariant
            i <= n,
            n == orig.len(),
            n <= u64::MAX,
            rest@ == orig.skip(i as int),
            pairs@.len() == i,
            forall|k: int| 0 <= k < i ==> file_key_of((#[trigger] pairs@[k]).0, k, pairs@[k].1) && pairs@[k].1 == orig[k],
        decreases n - i,
    {
        let f = rest.remove(0);
        assert(f == orig[i as int]);
        assert(rest@ =~= orig.skip(i + 1));
        let key = SortKey { a: 0, b: 0, c: 0, text: chars_of(f.normalized_relative_path.as_str()), index: i as u64 };
        pairs.push((key, f));
        i = i + 1;
    }
    let ghost before = pairs@;
    assert(before.map_values(|p: (SortKey, ProjectFile)| p.1) =~= orig);
    let sorted = sort_by_key(pairs);
    let ghost sv = sorted@;
    proof {
        assert forall|a: int| 0 <= a < sv.len() implies before.contains(#[trigger] sv[a]) by {
            assert(sv.contains(sv[a]));
            to_multiset_contains(sv, sv[a]);
            to_multiset_contains(before, sv[a]);
        }
        assert forall|a: int, b: int| 0 <= a < b < sv.len() implies !text_lt(#[trigger] sv[b].1.normalized_relative_path@, #[trigger] sv[a].1.normalized_relative_path@) by {
            assert(before.contains(sv[a]));
            assert(before.contains(sv[b]));
            let ia = choose|x: int| 0 <= x < before.len() && before[x] == sv[a];
            let ib = choose|x: int| 0 <= x < before.len() && before[x] == sv[b];
            assert(file_key_of(sv[a].0, ia, sv[a].1));
            assert(file_key_of(sv[b].0, ib, sv[b].1));
            assert(!key_lt(sv[b].0, sv[a].0));
            lemma_text_lt_irreflexive(sv[a].1.normalized_relative_path@);
        }
    }
    let mut out: Vec<ProjectFile> = Vec::new();
    let mut rest2 = sorted;
    let total = rest2.len();
    let mut m: usize = 0;
    while rest2.len() > 0
        invariant
            total == sv.len(),
            m + rest2@.len() == total,
            rest2@ == sv.skip(m as int),
            out@ == sv.take(m as int).map_values(|p: (SortKey, ProjectFile)| p.1),
        decreases rest2@.len(),
    {
        let p = rest2.remove(0);
        assert(p == sv[m as int]);
        out.push(p.1);
        proof {
            assert(sv.take(m + 1) =~= sv.take(m as int).push(sv[m as int]));
            assert(rest2@ =~= sv.skip(m + 1));
        }
        m = m + 1;
        assert(out@ =~= sv.take(m as int).map_values(|p: (SortKey, ProjectFile)| p.1));
    }
    proof {
        assert(sv.take(m as int) =~= sv);
        let f = |p: (SortKey, ProjectFile)| p.1;
        crate::sorting::lemma_multiset_map_values(sv, before, f);
        assert forall|a: int, b: int| 0 <= a < b < out@.len() implies !text_lt(#[trigger] out@[b].normalized_relative_path@, #[trigger] out@[a].normalized_relative_path@) by {
            assert(out@[a] == sv[a].1 && out@[b] == sv[b].1);
        }
    }
    out
}

} // verus!
