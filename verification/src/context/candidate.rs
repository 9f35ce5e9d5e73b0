//! Which project files are worth packing, and in which class.
use vstd::prelude::*;
use vstd::string::*;
use crate::graph::select::{path_matches_focus, path_matches_focus_spec};
use crate::line_slices::{lines_of, LineSlices};
use crate::paths::{contains_string, last_part, last_segment, views};
use crate::text::{chars_of, seq_starts_with, split_char, split_on, starts_with, str_eq};
use super::types::SelectionClass;

verus! {

/// A file of the project.
#[derive(Debug, Clone)]
pub struct ProjectFile {
    /// Where the file is on disk.
    pub absolute_path: String,
    /// The path relative to the base, as the platform writes it.
    pub relative_path: String,
    /// The relative path with `/` separators.
    pub normalized_relative_path: String,
    pub size_bytes: u64,
    /// The detected language, if any.
    pub language: Option<String>,
}

/// Whether a focus path names a file or a directory.
#[derive(Debug, Clone, Copy, PartialEq, Eq, Structural)]
pub enum FocusKind {
    File,
    Directory,
}

/// A focus path resolved against the base directory.
#[derive(Debug, Clone)]
pub struct ResolvedFocus {
    pub relative_path: String,
    pub normalized_relative_path: String,
    pub kind: FocusKind,
}

/// The class a focus gives a file: a focused file itself, or a file under a
/// focused directory; the first matching focus decides.
pub open spec fn focus_class(rel: Seq<char>, focuses: Seq<ResolvedFocus>) -> Option<SelectionClass>
    decreases focuses.len(),
{
    if focuses.len() == 0 {
        None
    } else {
        let f = focuses[0];
        match f.kind {
            FocusKind::File => if rel == f.relative_path@ {
                Some(SelectionClass::FocusedFile)
            } else {
                focus_class(rel, focuses.drop_first())
            },
            FocusKind::Directory => if f.relative_path@.len() == 0 || path_matches_focus_spec(rel, f.relative_path@) {
                Some(SelectionClass::FocusedDescendant)
            } else {
                focus_class(rel, focuses.drop_first())
            },
        }
    }
}

/// The class a focus gives a file, if any.
pub fn classify_focus(file: &ProjectFile, focuses: &Vec<ResolvedFocus>) -> (r: Option<SelectionClass>)
    ensures
        r == focus_class(file.relative_path@, focuses@),
{
    let mut i: usize = 0;
    assert(focuses@.skip(0) =~= focuses@);
    while i < focuses.len()
        invariant
            i <= focuses@.len(),
            focus_class(file.relative_path@, focuses@.skip(i as int)) == focus_class(file.relative_path@, focuses@),
        decreases focuses@.len() - i,
    {
        assert(focuses@.skip(i as int)[0] == focuses@[i as int]);
        assert(focuses@.skip(i as int).drop_first() =~= focuses@.skip(i + 1));
        let f = &focuses[i];
        match f.kind {
            FocusKind::File => {
                if str_eq(file.relative_path.as_str(), f.relative_path.as_str()) {
                    return Some(SelectionClass::FocusedFile);
                }
            },
            FocusKind::Directory => {
                if f.relative_path.unicode_len() == 0 || path_matches_focus(file.relative_path.as_str(), f.relative_path.as_str()) {
                    return Some(SelectionClass::FocusedDescendant);
                }
            },
        }
        i = i + 1;
    }
    None
}

/// Files under `.github/workflows/`.
pub open spec fn workflow_path(p: Seq<char>) -> bool {
    seq_starts_with(p, ".github/workflows/"@)
}

/// Whether a path is a CI workflow.
pub fn is_workflow_file(p: &str) -> (r: bool)
    ensures
        r == workflow_path(p@),
{
    starts_with(p, ".github/workflows/")
}

/// The directories whose files carry little signal for a reader.
pub open spec fn low_signal_prefixes() -> Seq<Seq<char>> {
    seq![".git/"@, ".venv/"@, "__pycache__/"@, "benchmarks/generated_corpus/"@, "benchmarks/reports/"@, "build/"@,
        "dist/"@, "fuzz/artifacts/"@, "fuzz/corpus/"@, "fuzz/target/"@, "node_modules/"@, "target/"@]
}

pub open spec fn low_signal_path(p: Seq<char>) -> bool {
    exists|i: int| 0 <= i < low_signal_prefixes().len() && seq_starts_with(p, #[trigger] low_signal_prefixes()[i])
}

/// Whether a path lies in a generated, vendored or build directory.
pub fn is_low_signal_path(p: &str) -> (r: bool)
    ensures
        r == low_signal_path(p@),
{
    let prefixes = vec![".git/", ".venv/", "__pycache__/", "benchmarks/generated_corpus/", "benchmarks/reports/", "build/",
        "dist/", "fuzz/artifacts/", "fuzz/corpus/", "fuzz/target/", "node_modules/", "target/"];
    assert(prefixes@.map_values(|s: &str| s@) =~= low_signal_prefixes());
    let mut i: usize = 0;
    while i < prefixes.len()
        invariant
            i <= prefixes@.len(),
            prefixes@.map_values(|s: &str| s@) == low_signal_prefixes(),
            forall|j: int| 0 <= j < i ==> !seq_starts_with(p@, #[trigger] low_signal_prefixes()[j]),
        decreases prefixes@.len() - i,
    {
        assert(prefixes@.map_values(|s: &str| s@)[i as int] == prefixes@[i as int]@);
        if starts_with(p, prefixes[i]) {
            return true;
        }
        i = i + 1;
    }
    false
}

/// `s` with ASCII letters in upper case.
pub open spec fn ascii_upper(s: Seq<char>) -> Seq<char> {
    s.map_values(|c: char| if 'a' <= c && c <= 'z' { ((c as u8) - 32) as char } else { c })
}

fn to_ascii_upper(s: &str) -> (r: Vec<char>)
    ensures
        r@ == ascii_upper(s@),
{
    let v = chars_of(s);
    let mut r: Vec<char> = Vec::new();
    let mut i: usize = 0;
    while i < v.len()
        invariant
            i <= v@.len(),
            v@ == s@,
            r@ == ascii_upper(v@.take(i as int)),
        decreases v@.len() - i,
    {
        let c = v[i];
        let u = if 'a' <= c && c <= 'z' { ((c as u8) - 32) as char } else { c };
        r.push(u);
        i = i + 1;
        assert(r@ =~= ascii_upper(v@.take(i as int)));
    }
    assert(v@.take(i as int) =~= v@);
    r
}

/// The file name of a relative path: its last segment.
pub open spec fn file_name_of(p: Seq<char>) -> Seq<char> {
    last_segment(p, '/')
}

/// The names of manifests and repository metadata files.
pub open spec fn metadata_names() -> Seq<Seq<char>> {
    seq![".gitignore"@, ".gitattributes"@, ".editorconfig"@, "Cargo.toml"@, "Cargo.lock"@, "package.json"@,
        "pyproject.toml"@, "poetry.lock"@, "composer.json"@]
}

/// Manifests, lock files, repository settings, and README, LICENSE and
/// CHANGELOG files in any letter case.
pub open spec fn manifest_path(p: Seq<char>) -> bool {
    let name = file_name_of(p);
    let upper = ascii_upper(name);
    name.len() > 0 && (metadata_names().contains(name) || seq_starts_with(upper, "README"@)
        || seq_starts_with(upper, "LICENSE"@) || seq_starts_with(upper, "CHANGELOG"@))
}

fn starts_with_chars(v: &Vec<char>, p: &str) -> (r: bool)
    ensures
        r == seq_starts_with(v@, p@),
{
    let pv = chars_of(p);
    let r = crate::text::chars_match_at(v, 0, &pv);
    proof {
        if pv@.len() <= v@.len() {
            assert(v@.subrange(0, pv@.len() as int) =~= v@.take(pv@.len() as int));
        }
    }
    r
}

/// Whether a path is a manifest or metadata file.
pub fn is_manifest_or_metadata_file(p: &str) -> (r: bool)
    ensures
        r == manifest_path(p@),
{
    let name = last_part(p, '/');
    if name.unicode_len() == 0 {
        return false;
    }
    let names = vec![".gitignore", ".gitattributes", ".editorconfig", "Cargo.toml", "Cargo.lock", "package.json",
        "pyproject.toml", "poetry.lock", "composer.json"];
    assert(names@.map_values(|s: &str| s@) =~= metadata_names());
    let mut i: usize = 0;
    while i < names.len()
        invariant
            i <= names@.len(),
            names@.map_values(|s: &str| s@) == metadata_names(),
            name@.len() > 0,
            name@ == file_name_of(p@),
            forall|j: int| 0 <= j < i ==> metadata_names()[j] != name@,
        decreases names@.len() - i,
    {
        assert(names@.map_values(|s: &str| s@)[i as int] == names@[i as int]@);
        if str_eq(name.as_str(), names[i]) {
            assert(metadata_names()[i as int] == name@);
            assert(metadata_names().contains(name@));
            return true;
        }
        i = i + 1;
    }
    let upper = to_ascii_upper(name.as_str());
    proof {
        if metadata_names().contains(name@) {
            let j = choose|j: int| 0 <= j < metadata_names().len() && metadata_names()[j] == name@;
            assert(false);
        }
    }
    starts_with_chars(&upper, "README") || starts_with_chars(&upper, "LICENSE") || starts_with_chars(&upper, "CHANGELOG")
}

/// `mod.rs`, and files named `main.*` or `lib.*`.
pub open spec fn entrypoint_path(p: Seq<char>) -> bool {
    let name = file_name_of(p);
    name == "mod.rs"@ || seq_starts_with(name, "main."@) || seq_starts_with(name, "lib."@)
}

/// Whether a path is a program or library entry point.
pub fn is_entrypoint_file(p: &str) -> (r: bool)
    ensures
        r == entrypoint_path(p@),
{
    let name = last_part(p, '/');
    str_eq(name.as_str(), "mod.rs") || starts_with(name.as_str(), "main.") || starts_with(name.as_str(), "lib.")
}

/// Files under a `tests`, `examples` or `benches` directory.
pub open spec fn adjacent_test_path(p: Seq<char>) -> bool {
    let parts = split_on(p, '/');
    parts.contains("tests"@) || parts.contains("examples"@) || parts.contains("benches"@)
}

/// Whether a path lies under a tests, examples or benches directory.
pub fn is_adjacent_test_file(p: &str) -> (r: bool)
    ensures
        r == adjacent_test_path(p@),
{
    let parts = split_char(p, '/');
    contains_string(&parts, "tests") || contains_string(&parts, "examples") || contains_string(&parts, "benches")
}

/// The ordered set of changed paths contains `p`.
pub open spec fn in_diff(diff: Seq<String>, p: Seq<char>) -> bool {
    views(diff).contains(p)
}

/// A file not focused, not changed and not a workflow, whose name is
/// `.gitignore`, `.gitattributes`, `.editorconfig`, `Cargo.toml`,
/// `Cargo.lock`, `package.json`, `pyproject.toml`, `poetry.lock` or
/// `composer.json`, is a manifest.
pub proof fn law_manifest_names(f: ProjectFile, focuses: Seq<ResolvedFocus>, diff: Seq<String>)
    requires
        focus_class(f.relative_path@, focuses) is None,
        !in_diff(diff, f.normalized_relative_path@),
        !workflow_path(f.normalized_relative_path@),
        ({
            let n = file_name_of(f.relative_path@);
            n == ".gitignore"@ || n == ".gitattributes"@ || n == ".editorconfig"@ || n == "Cargo.toml"@ || n == "Cargo.lock"@ || n == "package.json"@ || n == "pyproject.toml"@ || n == "poetry.lock"@ || n == "composer.json"@
        }),
    ensures
        manifest_path(f.relative_path@),
        selection_class_of(f, focuses, diff) == SelectionClass::Manifest,
{
    reveal_strlit(".gitignore");
    reveal_strlit(".gitattributes");
    reveal_strlit(".editorconfig");
    reveal_strlit("Cargo.toml");
    reveal_strlit("Cargo.lock");
    reveal_strlit("package.json");
    reveal_strlit("pyproject.toml");
    reveal_strlit("poetry.lock");
    reveal_strlit("composer.json");
    assert(metadata_names()[0] == ".gitignore"@);
    assert(metadata_names()[1] == ".gitattributes"@);
    assert(metadata_names()[2] == ".editorconfig"@);
    assert(metadata_names()[3] == "Cargo.toml"@);
    assert(metadata_names()[4] == "Cargo.lock"@);
    assert(metadata_names()[5] == "package.json"@);
    assert(metadata_names()[6] == "pyproject.toml"@);
    assert(metadata_names()[7] == "poetry.lock"@);
    assert(metadata_names()[8] == "composer.json"@);
    let n = file_name_of(f.relative_path@);
    assert(n.len() > 0);
    assert(metadata_names().contains(n));
}

/// The class of a file: its focus class, else changed, workflow, manifest,
/// entry point, test-adjacent, in that order of precedence, else general.
pub open spec fn selection_class_of(f: ProjectFile, focuses: Seq<ResolvedFocus>, diff: Seq<String>) -> SelectionClass {
    match focus_class(f.relative_path@, focuses) {
        Some(c) => c,
        None => if in_diff(diff, f.normalized_relative_path@) {
            SelectionClass::DiffFile
        } else if workflow_path(f.normalized_relative_path@) {
            SelectionClass::Workflow
        } else if manifest_path(f.relative_path@) {
            SelectionClass::Manifest
        } else if entrypoint_path(f.relative_path@) {
            SelectionClass::Entrypoint
        } else if adjacent_test_path(f.relative_path@) {
            SelectionClass::AdjacentTest
        } else {
            SelectionClass::General
        },
    }
}

/// The class of a file.
pub fn classify_selection(f: &ProjectFile, focuses: &Vec<ResolvedFocus>, diff: &Vec<String>) -> (r: SelectionClass)
    ensures
        r == selection_class_of(*f, focuses@, diff@),
{
    if let Some(c) = classify_focus(f, focuses) {
        return c;
    }
    if contains_string(diff, f.normalized_relative_path.as_str()) {
        SelectionClass::DiffFile
    } else if is_workflow_file(f.normalized_relative_path.as_str()) {
        SelectionClass::Workflow
    } else if is_manifest_or_metadata_file(f.relative_path.as_str()) {
        SelectionClass::Manifest
    } else if is_entrypoint_file(f.relative_path.as_str()) {
        SelectionClass::Entrypoint
    } else if is_adjacent_test_file(f.relative_path.as_str()) {
        SelectionClass::AdjacentTest
    } else {
        SelectionClass::General
    }
}

/// A file may be packed when it changed, has a language, or is a manifest
/// or workflow.
pub open spec fn context_candidate(f: ProjectFile, diff: Seq<String>) -> bool {
    in_diff(diff, f.normalized_relative_path@) || f.language is Some || manifest_path(f.relative_path@)
        || workflow_path(f.normalized_relative_path@)
}

/// Whether a file may be packed.
pub fn is_context_candidate(f: &ProjectFile, diff: &Vec<String>) -> (r: bool)
    ensures
        r == context_candidate(*f, diff@),
{
    contains_string(diff, f.normalized_relative_path.as_str()) || f.language.is_some()
        || is_manifest_or_metadata_file(f.relative_path.as_str()) || is_workflow_file(f.normalized_relative_path.as_str())
}

/// Some line of the sniffed bytes is longer than 2000 bytes.
pub open spec fn minified(bytes: Seq<u8>) -> bool {
    exists|i: int| 0 <= i < lines_of(bytes).len() && #[trigger] lines_of(bytes)[i].len() > 2000
}

/// Whether the sniffed bytes look minified.
pub fn looks_minified(bytes: &[u8]) -> (r: bool)
    ensures
        r == minified(bytes@),
{
    let mut lines = LineSlices::new(bytes);
    let ghost all = lines_of(bytes@);
    let ghost mut seen: int = 0;
    loop
        invariant
            all == lines_of(bytes@),
            lines.bytes@ == bytes@,
            lines.cursor <= lines.bytes@.len(),
            0 <= seen <= all.len(),
            lines.remaining() == all.skip(seen),
            forall|j: int| 0 <= j < seen ==> #[trigger] all[j].len() <= 2000,
        decreases all.len() - seen,
    {
        let ghost before = lines.remaining();
        match lines.next_line() {
            Some(line) => {
                proof {
                    assert(before.len() > 0);
                    assert(line@ == before[0]);
                    assert(before[0] == all[seen]);
                    assert(before.drop_first() =~= all.skip(seen + 1));
                }
                if line.len() > 2000 {
                    assert(all[seen].len() > 2000);
                    return true;
                }
                proof { seen = seen + 1; }
            },
            None => {
                proof {
                    assert(before.len() == 0);
                    assert(seen == all.len());
                }
                return false;
            },
        }
    }
}

/// Whether the sniffed bytes hold a NUL byte.
pub fn has_nul(bytes: &[u8]) -> (r: bool)
    ensures
        r == bytes@.contains(0u8),
{
    let mut i: usize = 0;
    while i < bytes.len()
        invariant
            i <= bytes@.len(),
            forall|j: int| 0 <= j < i ==> bytes@[j] != 0u8,
        decreases bytes@.len() - i,
    {
        if bytes[i] == 0 {
            assert(bytes@[i as int] == 0u8);
            return true;
        }
        i = i + 1;
    }
    false
}

/// A file that may be packed, with its class.
#[derive(Debug, Clone)]
pub struct ContextCandidate {
    pub absolute_path: String,
    pub normalized_relative_path: String,
    pub language: Option<String>,
    pub selection_class: SelectionClass,
    pub size_bytes: u64,
}

/// Largest file size that may be packed: 1 MiB.
pub const MAX_CANDIDATE_BYTES: u64 = 1048576u64;

/// A file is read for sniffing when it may be packed, is not empty and is
/// at most 1 MiB.
pub open spec fn needs_sniff(f: ProjectFile, diff: Seq<String>) -> bool {
    context_candidate(f, diff) && f.size_bytes != 0 && f.size_bytes <= MAX_CANDIDATE_BYTES
}

/// Whether a file should be read for sniffing.
pub fn should_sniff(f: &ProjectFile, diff: &Vec<String>) -> (r: bool)
    ensures
        r == needs_sniff(*f, diff@),
{
    is_context_candidate(f, diff) && f.size_bytes != 0 && f.size_bytes <= MAX_CANDIDATE_BYTES
}

/// Sniffed bytes are acceptable when they hold no NUL byte and do not look
/// minified.
pub open spec fn sniff_ok(bytes: Seq<u8>) -> bool {
    !bytes.contains(0u8) && !minified(bytes)
}

pub open spec fn opt_view(o: Option<String>) -> Option<Seq<char>> {
    match o {
        Some(s) => Some(s@),
        None => None,
    }
}

/// A candidate is the file's path, language and size with its class.
pub open spec fn candidate_of(c: ContextCandidate, f: ProjectFile, focuses: Seq<ResolvedFocus>, diff: Seq<String>) -> bool {
    &&& c.absolute_path@ == f.absolute_path@
    &&& c.normalized_relative_path@ == f.normalized_relative_path@
    &&& opt_view(c.language) == opt_view(f.language)
    &&& c.selection_class == selection_class_of(f, focuses, diff)
    &&& c.size_bytes == f.size_bytes
}

/// The candidates of the first `n` files: those that needed sniffing and
/// whose sniffed bytes are acceptable, in file order.
pub open spec fn candidates_upto(files: Seq<ProjectFile>, sniffs: Seq<Vec<u8>>, focuses: Seq<ResolvedFocus>, diff: Seq<String>, n: int, cands: Seq<ContextCandidate>) -> bool
    decreases n,
{
    if n <= 0 {
        cands.len() == 0
    } else {
        let f = files[n - 1];
        if needs_sniff(f, diff) && sniff_ok(sniffs[n - 1]@) {
            cands.len() > 0 && candidate_of(cands.last(), f, focuses, diff)
                && candidates_upto(files, sniffs, focuses, diff, n - 1, cands.drop_last())
        } else {
            candidates_upto(files, sniffs, focuses, diff, n - 1, cands)
        }
    }
}

fn clone_opt(o: &Option<String>) -> (r: Option<String>)
    ensures
        opt_view(r) == opt_view(*o),
{
    match o {
        Some(s) => Some(s.clone()),
        None => None,
    }
}

/// The candidates among the files, given the sniffed bytes of each file
/// (only those of files that need sniffing are looked at).
pub fn collect_context_candidates(
    files: &Vec<ProjectFile>,
    sniffs: &Vec<Vec<u8>>,
    focuses: &Vec<ResolvedFocus>,
    diff: &Vec<String>,
) -> (r: Vec<ContextCandidate>)
    requires
        sniffs@.len() == files@.len(),
    ensures
        candidates_upto(files@, sniffs@, focuses@, diff@, files@.len() as int, r@),
{
    let mut out: Vec<ContextCandidate> = Vec::new();
    let mut i: usize = 0;
    while i < files.len()
        invariant
            i <= files@.len(),
            sniffs@.len() == files@.len(),
            candidates_upto(files@, sniffs@, focuses@, diff@, i as int, out@),
        decreases files@.len() - i,
    {
        let f = &files[i];
        if should_sniff(f, diff) && !has_nul(sniffs[i].as_slice()) && !looks_minified(sniffs[i].as_slice()) {
            let c = ContextCandidate {
                absolute_path: f.absolute_path.clone(),
                normalized_relative_path: f.normalized_relative_path.clone(),
                language: clone_opt(&f.language),
                selection_class: classify_selection(f, focuses, diff),
                size_bytes: f.size_bytes,
            };
            let ghost before = out@;
            out.push(c);
            assert(out@.drop_last() =~= before);
        }
        i = i + 1;
    }
    out
}

/// A file is considered for the pack when a focus covers it, it changed, or
/// it is not in a low-signal directory.
pub open spec fn considered(f: ProjectFile, focuses: Seq<ResolvedFocus>, diff: Seq<String>) -> bool {
    focus_class(f.relative_path@, focuses) is Some || in_diff(diff, f.normalized_relative_path@)
        || !low_signal_path(f.normalized_relative_path@)
}

/// The indices of the considered files, in order.
pub fn filter_context_project_files(files: &Vec<ProjectFile>, focuses: &Vec<ResolvedFocus>, diff: &Vec<String>) -> (r: Vec<usize>)
    ensures
        r@.map_values(|i: usize| i as int) == Seq::new(files@.len(), |i: int| i).filter(|i: int| considered(files@[i], focuses@, diff@)),
{
    let ghost p = |i: int| considered(files@[i], focuses@, diff@);
    let mut r: Vec<usize> = Vec::new();
    let mut i: usize = 0;
    while i < files.len()
        invariant
            i <= files@.len(),
            p == (|i: int| considered(files@[i], focuses@, diff@)),
            r@.map_values(|i: usize| i as int) == Seq::new(i as nat, |k: int| k).filter(p),
        decreases files@.len() - i,
    {
        proof {
            reveal(Seq::filter);
            let s = Seq::new((i + 1) as nat, |k: int| k);
            assert(s.drop_last() =~= Seq::new(i as nat, |k: int| k));
            assert(s.filter(p) == (if p(s.last()) { s.drop_last().filter(p).push(s.last()) } else { s.drop_last().filter(p) }));
        }
        let f = &files[i];
        let keep = classify_focus(f, focuses).is_some() || contains_string(diff, f.normalized_relative_path.as_str())
            || !is_low_signal_path(f.normalized_relative_path.as_str());
        let ghost before = r@.map_values(|i: usize| i as int);
        if keep {
            r.push(i);
            assert(r@.map_values(|i: usize| i as int) =~= before.push(i as int));
        }
        i = i + 1;
    }
    proof {
        assert(Seq::new(i as nat, |k: int| k) =~= Seq::new(files@.len(), |k: int| k));
    }
    r
}

} // verus!
