//! Assembling a context pack: metadata, language and group summaries.
use vstd::prelude::*;
use vstd::string::*;
use crate::paths::{replace_char, replace_char_spec, views};
use crate::strset::{set_insert, strictly_sorted};
use super::budget::{estimate_metadata_tokens, metadata_estimate, ContextBudget};
use super::candidate::{ProjectFile, ResolvedFocus};
use super::languages::{entry_ok, lang_before, language_present, summarize_languages};
use super::pack::{count_selected_changed_files, group_order, in_group, sat_add, summaries_upto, summarize_groups, token_sum};
use super::types::{ContextDiffMetadata, ContextDiffSelection, ContextFile, ContextGroupKind, ContextGroupSummary, ContextMetadata, ContextReport};

verus! {

/// A relative path with `/` separators; `.` for the empty path.
pub open spec fn normalized_relative(p: Seq<char>) -> Seq<char> {
    let n = replace_char_spec(p, '\\', '/');
    if n.len() == 0 { "."@ } else { n }
}

/// A relative path with `/` separators; `.` for the empty path.
pub fn normalize_relative_path(p: &str) -> (r: String)
    ensures
        r@ == normalized_relative(p@),
{
    let n = replace_char(p, '\\', '/');
    if n.unicode_len() == 0 {
        ".".to_owned()
    } else {
        n
    }
}

/// The changed paths, normalized, as an ordered set.
pub fn normalize_diff_paths(paths: &Vec<String>) -> (r: Vec<String>)
    ensures
        strictly_sorted(views(r@)),
        forall|x: Seq<char>| views(r@).contains(x) <==> exists|i: int| 0 <= i < paths@.len() && x == normalized_relative(#[trigger] paths@[i]@),
{
    let mut r: Vec<String> = Vec::new();
    let mut i: usize = 0;
    while i < paths.len()
        invariant
            i <= paths@.len(),
            strictly_sorted(views(r@)),
            forall|x: Seq<char>| views(r@).contains(x) <==> exists|j: int| 0 <= j < i && x == normalized_relative(#[trigger] paths@[j]@),
        decreases paths@.len() - i,
    {
        let n = normalize_relative_path(paths[i].as_str());
        set_insert(&mut r, n);
        proof {
            assert forall|x: Seq<char>| views(r@).contains(x) <==> exists|j: int| 0 <= j < i + 1 && x == normalized_relative(#[trigger] paths@[j]@) by {
                if x == normalized_relative(paths@[i as int]@) {
                    assert(0 <= i < i + 1);
                }
            }
        }
        i = i + 1;
    }
    r
}

/// The normalized paths of the focuses, in order.
pub fn display_focus_paths(focuses: &Vec<ResolvedFocus>) -> (r: Vec<String>)
    ensures
        views(r@) == focuses@.map_values(|f: ResolvedFocus| f.normalized_relative_path@),
{
    let mut r: Vec<String> = Vec::new();
    let mut i: usize = 0;
    while i < focuses.len()
        invariant
            i <= focuses@.len(),
            views(r@) == focuses@.take(i as int).map_values(|f: ResolvedFocus| f.normalized_relative_path@),
        decreases focuses@.len() - i,
    {
        let ghost before = views(r@);
        r.push(focuses[i].normalized_relative_path.clone());
        assert(views(r@) =~= before.push(focuses@[i as int].normalized_relative_path@));
        i = i + 1;
        assert(views(r@) =~= focuses@.take(i as int).map_values(|f: ResolvedFocus| f.normalized_relative_path@));
    }
    assert(focuses@.take(i as int) =~= focuses@);
    r
}

/// The saturating sum of the token estimates of the files.
pub fn sum_tokens(files: &Vec<ContextFile>) -> (r: u64)
    ensures
        r == token_sum(files@),
{
    let mut t: u64 = 0;
    let mut i: usize = 0;
    while i < files.len()
        invariant
            i <= files@.len(),
            t == token_sum(files@.take(i as int)),
        decreases files@.len() - i,
    {
        assert(files@.take(i + 1).drop_last() =~= files@.take(i as int));
        t = t.saturating_add(files[i].estimated_tokens);
        i = i + 1;
    }
    assert(files@.take(i as int) =~= files@);
    t
}

/// The number of truncated files.
pub fn count_truncated(files: &Vec<ContextFile>) -> (r: u64)
    ensures
        r == files@.filter(|f: ContextFile| f.truncated).len(),
{
    let ghost p = |f: ContextFile| f.truncated;
    let mut n: u64 = 0;
    let mut i: usize = 0;
    while i < files.len()
        invariant
            i <= files@.len(),
            p == (|f: ContextFile| f.truncated),
            n == files@.take(i as int).filter(p).len(),
            n <= i,
        decreases files@.len() - i,
    {
        proof {
            reveal(Seq::filter);
            let t = files@.take(i + 1);
            assert(t.drop_last() =~= files@.take(i as int));
            assert(t.filter(p) == (if p(t.last()) { t.drop_last().filter(p).push(t.last()) } else { t.drop_last().filter(p) }));
        }
        if files[i].truncated {
            n = n + 1;
        }
        i = i + 1;
    }
    assert(files@.take(i as int) =~= files@);
    n
}

/// `x` is one of the changed paths, normalized.
pub open spec fn is_changed_path(changed: Seq<String>, x: Seq<char>) -> bool {
    exists|i: int| 0 <= i < changed.len() && x == normalized_relative(#[trigger] changed[i]@)
}

/// The pack of the selected files, with its metadata: the budget split,
/// token estimates (excerpts plus metadata, saturating), file counts, the
/// language summary of the considered files and the group summaries.
pub fn assemble_context_report(
    base_path: &str,
    focuses: &Vec<ResolvedFocus>,
    diff: &Option<ContextDiffSelection>,
    budget_tokens: u64,
    considered: &Vec<ProjectFile>,
    files: Vec<ContextFile>,
) -> (r: ContextReport)
    requires
        128 + 16 * considered@.len() + 24 * files@.len() + 16 * focuses@.len() <= u64::MAX,
    ensures
        r.metadata.base_path@ == base_path@,
        views(r.metadata.focus_paths@) == focuses@.map_values(|f: ResolvedFocus| f.normalized_relative_path@),
        r.metadata.budget_tokens == budget_tokens,
        r.metadata.metadata_budget_tokens + r.metadata.excerpt_budget_tokens == budget_tokens,
        r.metadata.metadata_budget_tokens == super::budget::div_ceil(budget_tokens as nat, 10),
        r.metadata.estimated_excerpt_tokens == token_sum(files@),
        r.metadata.estimated_metadata_tokens == metadata_estimate(
            r.dominant_languages@.len(), files@.len(), focuses@.len(), r.metadata.metadata_budget_tokens as nat),
        r.metadata.estimated_tokens == sat_add(r.metadata.estimated_excerpt_tokens, r.metadata.estimated_metadata_tokens),
        r.metadata.files_considered == considered@.len(),
        r.metadata.files_selected == files@.len(),
        r.metadata.truncated_files == files@.filter(|f: ContextFile| f.truncated).len(),
        r.files@ == files@,
        summaries_upto(files@, group_order().len() as int, r.groups@),
        r.dominant_languages@.len() <= considered@.len(),
        forall|x: Seq<char>| (exists|i: int| 0 <= i < r.dominant_languages@.len() && (#[trigger] r.dominant_languages@[i]).language@ == x)
            <==> language_present(considered@, x),
        forall|i: int, j: int| 0 <= i < j < r.dominant_languages@.len() ==> (#[trigger] r.dominant_languages@[i]).language@
            != (#[trigger] r.dominant_languages@[j]).language@,
        forall|i: int| 0 <= i < r.dominant_languages@.len() ==> entry_ok(#[trigger] r.dominant_languages@[i], considered@),
        forall|i: int, j: int| 0 <= i < j < r.dominant_languages@.len() ==> !lang_before(#[trigger] r.dominant_languages@[j], #[trigger] r.dominant_languages@[i]),
        match *diff {
            None => r.metadata.diff is None,
            Some(d) => r.metadata.diff matches Some(m) && m.spec@ == d.spec@ && m.repo_root@ == d.repo_root@
                && m.changed_files_detected == d.changed_files_detected
                && m.changed_files_in_scope == d.changed_files_in_scope
                && m.changed_files_selected == files@.filter(|f: ContextFile| is_changed_path(d.changed_paths@, f.relative_path@)).len()
                && m.skipped_deleted_or_missing == d.skipped_deleted_or_missing,
        },
{
    let budget = ContextBudget::new(budget_tokens);
    let dominant_languages = summarize_languages(considered);
    proof {
        assert(dominant_languages@.len() <= considered@.len()) by {
            lemma_languages_bounded(dominant_languages@, considered@);
        }
    }
    let estimated_excerpt_tokens = sum_tokens(&files);
    let estimated_metadata_tokens = estimate_metadata_tokens(dominant_languages.len(), files.len(), focuses.len(), budget.metadata_tokens());
    let truncated_files = count_truncated(&files);
    let groups = summarize_groups(&files);
    let diff_meta = match diff {
        None => None,
        Some(d) => {
            let diff_paths = normalize_diff_paths(&d.changed_paths);
            let selected = count_selected_changed_files(&files, &diff_paths);
            proof {
                let p1 = |f: ContextFile| views(diff_paths@).contains(f.relative_path@);
                let p2 = |f: ContextFile| is_changed_path(d.changed_paths@, f.relative_path@);
                assert(p1 =~= p2);
            }
            Some(ContextDiffMetadata {
                spec: d.spec.clone(),
                repo_root: d.repo_root.clone(),
                changed_files_detected: d.changed_files_detected,
                changed_files_in_scope: d.changed_files_in_scope,
                changed_files_selected: selected,
                skipped_deleted_or_missing: d.skipped_deleted_or_missing,
            })
        },
    };
    let metadata = ContextMetadata {
        base_path: base_path.to_owned(),
        focus_paths: display_focus_paths(focuses),
        diff: diff_meta,
        budget_tokens: budget.total_tokens(),
        metadata_budget_tokens: budget.metadata_tokens(),
        excerpt_budget_tokens: budget.excerpt_tokens(),
        estimated_tokens: estimated_excerpt_tokens.saturating_add(estimated_metadata_tokens),
        estimated_metadata_tokens,
        estimated_excerpt_tokens,
        files_considered: considered.len() as u64,
        files_selected: files.len() as u64,
        truncated_files,
    };
    ContextReport { metadata, dominant_languages, groups, files }
}

proof fn lemma_languages_bounded(langs: Seq<super::types::ContextLanguageSummary>, files: Seq<ProjectFile>)
    requires
        forall|i: int, j: int| 0 <= i < j < langs.len() ==> (#[trigger] langs[i]).language@ != (#[trigger] langs[j]).language@,
        forall|x: Seq<char>| (exists|i: int| 0 <= i < langs.len() && (#[trigger] langs[i]).language@ == x) <==> super::languages::language_present(files, x),
    ensures
        langs.len() <= files.len(),
{
    broadcast use vstd::seq_lib::seq_to_set_is_finite;
    let ls = langs.map_values(|s: super::types::ContextLanguageSummary| s.language@);
    let fs = Seq::new(files.len(), |i: int| match files[i].language { Some(l) => l@, None => Seq::<char>::empty() });
    assert(ls.no_duplicates()) by {
        assert forall|i: int, j: int| 0 <= i < ls.len() && 0 <= j < ls.len() && i != j implies ls[i] != ls[j] by {
            if i < j {
                assert(langs[i].language@ != langs[j].language@);
            } else {
                assert(langs[j].language@ != langs[i].language@);
            }
        }
    }
    ls.unique_seq_to_set();
    fs.lemma_cardinality_of_set();
    assert forall|x: Seq<char>| ls.to_set().contains(x) implies fs.to_set().contains(x) by {
        let i = choose|i: int| 0 <= i < ls.len() && ls[i] == x;
        assert(langs[i].language@ == x);
        assert(super::languages::language_present(files, x));
        let a = choose|a: int| 0 <= a < files.len() && super::candidate::opt_view(#[trigger] files[a].language) == Some(x);
        assert(fs[a] == x);
    }
    vstd::set_lib::lemma_len_subset(ls.to_set(), fs.to_set());
}

/// How many files a sequence of group summaries counts.
pub open spec fn summary_files(sums: Seq<ContextGroupSummary>) -> int
    decreases sums.len(),
{
    if sums.len() == 0 { 0 } else { summary_files(sums.drop_last()) + sums.last().files }
}

/// How many files the first `n` groups of the order hold.
pub open spec fn group_files_upto(files: Seq<ContextFile>, n: int) -> int
    decreases n,
{
    if n <= 0 { 0 } else { group_files_upto(files, n - 1) + in_group(files, group_order()[n - 1]).len() }
}

proof fn lemma_summaries_count(files: Seq<ContextFile>, n: int, sums: Seq<ContextGroupSummary>)
    requires
        0 <= n <= group_order().len(),
        summaries_upto(files, n, sums),
    ensures
        summary_files(sums) == group_files_upto(files, n),
    decreases n,
{
    if n > 0 {
        let g = group_order()[n - 1];
        if in_group(files, g).len() > 0 {
            lemma_summaries_count(files, n - 1, sums.drop_last());
        } else {
            lemma_summaries_count(files, n - 1, sums);
        }
    }
}

proof fn lemma_groups_partition(files: Seq<ContextFile>)
    ensures
        group_files_upto(files, group_order().len() as int) == files.len(),
    decreases files.len(),
{
    reveal(Seq::filter);
    reveal_with_fuel(group_files_upto, 8);
    if files.len() > 0 {
        let d = files.drop_last();
        lemma_groups_partition(d);
        reveal_with_fuel(group_files_upto, 8);
        let x = files.last();
        assert(files.drop_last() =~= d);
        assert forall|g: ContextGroupKind| #[trigger] in_group(files, g).len() == in_group(d, g).len() + (if x.group == g { 1int } else { 0int }) by {
            assert(in_group(files, g) == (if x.group == g { in_group(d, g).push(x) } else { in_group(d, g) }));
        }
        assert(in_group(files, ContextGroupKind::Focus).len() == in_group(d, ContextGroupKind::Focus).len() + (if x.group == ContextGroupKind::Focus { 1int } else { 0int }));
        assert(in_group(files, ContextGroupKind::Changes).len() == in_group(d, ContextGroupKind::Changes).len() + (if x.group == ContextGroupKind::Changes { 1int } else { 0int }));
        assert(in_group(files, ContextGroupKind::Entrypoints).len() == in_group(d, ContextGroupKind::Entrypoints).len() + (if x.group == ContextGroupKind::Entrypoints { 1int } else { 0int }));
        assert(in_group(files, ContextGroupKind::Testing).len() == in_group(d, ContextGroupKind::Testing).len() + (if x.group == ContextGroupKind::Testing { 1int } else { 0int }));
        assert(in_group(files, ContextGroupKind::ProjectMetadata).len() == in_group(d, ContextGroupKind::ProjectMetadata).len() + (if x.group == ContextGroupKind::ProjectMetadata { 1int } else { 0int }));
        assert(in_group(files, ContextGroupKind::Workflows).len() == in_group(d, ContextGroupKind::Workflows).len() + (if x.group == ContextGroupKind::Workflows { 1int } else { 0int }));
        assert(in_group(files, ContextGroupKind::General).len() == in_group(d, ContextGroupKind::General).len() + (if x.group == ContextGroupKind::General { 1int } else { 0int }));
    } else {
        assert forall|g: ContextGroupKind| #[trigger] in_group(files, g).len() == 0 by {}
        assert(in_group(files, ContextGroupKind::Focus).len() == 0);
        assert(in_group(files, ContextGroupKind::Changes).len() == 0);
        assert(in_group(files, ContextGroupKind::Entrypoints).len() == 0);
        assert(in_group(files, ContextGroupKind::Testing).len() == 0);
        assert(in_group(files, ContextGroupKind::ProjectMetadata).len() == 0);
        assert(in_group(files, ContextGroupKind::Workflows).len() == 0);
        assert(in_group(files, ContextGroupKind::General).len() == 0);
    }
}

/// The group summaries of a pack count every selected file exactly once:
/// their file counts add up to the number of selected files.
pub proof fn law_groups_cover_selected_files(files: Seq<ContextFile>, sums: Seq<ContextGroupSummary>)
    requires
        summaries_upto(files, group_order().len() as int, sums),
    ensures
        summary_files(sums) == files.len(),
{
    lemma_summaries_count(files, group_order().len() as int, sums);
    lemma_groups_partition(files);
}

} // verus!
