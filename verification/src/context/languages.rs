//! The languages of the files considered for a pack, largest first.
use vstd::prelude::*;
use vstd::seq_lib::*;
use crate::paths::views;
use crate::sorting::{key_lt, keys_sorted, lemma_multiset_map_values, lemma_text_lt_irreflexive, sort_by_key, text_lt, SortKey};
use crate::strset::{set_insert, strictly_sorted};
use crate::text::{chars_of, str_eq};
use super::candidate::{opt_view, ProjectFile};
use super::types::ContextLanguageSummary;

verus! {

/// The file has language `x`.
pub open spec fn has_language(x: Seq<char>) -> spec_fn(ProjectFile) -> bool {
    |f: ProjectFile| opt_view(f.language) == Some(x)
}

/// The saturating sum of the sizes of the files.
pub open spec fn size_sum(files: Seq<ProjectFile>) -> u64
    decreases files.len(),
{
    if files.len() == 0 {
        0
    } else {
        let a = size_sum(files.drop_last());
        let b = files.last().size_bytes;
        if a + b <= u64::MAX { (a + b) as u64 } else { u64::MAX }
    }
}

/// Some file has language `x`.
pub open spec fn language_present(files: Seq<ProjectFile>, x: Seq<char>) -> bool {
    exists|i: int| 0 <= i < files.len() && opt_view(#[trigger] files[i].language) == Some(x)
}

/// `x` is listed before `y`: more bytes, then more files, then by name.
pub open spec fn lang_before(x: ContextLanguageSummary, y: ContextLanguageSummary) -> bool {
    x.size_bytes > y.size_bytes || (x.size_bytes == y.size_bytes && (x.files > y.files
        || (x.files == y.files && text_lt(x.language@, y.language@))))
}

/// The summary gives the number of files of its language and their total
/// size.
pub open spec fn entry_ok(s: ContextLanguageSummary, files: Seq<ProjectFile>) -> bool {
    let gf = files.filter(has_language(s.language@));
    s.files == gf.len() && s.size_bytes == size_sum(gf)
}

fn language_totals(files: &Vec<ProjectFile>, x: &str) -> (r: (u64, u64))
    ensures
        r.0 == files@.filter(has_language(x@)).len(),
        r.1 == size_sum(files@.filter(has_language(x@))),
{
    let ghost p = has_language(x@);
    let mut count: u64 = 0;
    let mut size: u64 = 0;
    let mut i: usize = 0;
    while i < files.len()
        invariant
            i <= files@.len(),
            p == has_language(x@),
            count == files@.take(i as int).filter(p).len(),
            size == size_sum(files@.take(i as int).filter(p)),
            count <= i,
        decreases files@.len() - i,
    {
        proof {
            reveal(Seq::filter);
            let t = files@.take(i + 1);
            assert(t.drop_last() =~= files@.take(i as int));
            assert(t.filter(p) == (if p(t.last()) { t.drop_last().filter(p).push(t.last()) } else { t.drop_last().filter(p) }));
            let fp = t.drop_last().filter(p).push(t.last());
            assert(fp.drop_last() =~= t.drop_last().filter(p));
        }
        let hit = match &files[i].language {
            Some(l) => str_eq(l.as_str(), x),
            None => false,
        };
        if hit {
            count = count + 1;
            size = size.saturating_add(files[i].size_bytes);
        }
        i = i + 1;
    }
    assert(files@.take(i as int) =~= files@);
    (count, size)
}

pub open spec fn lang_key_of(k: SortKey, s: ContextLanguageSummary) -> bool {
    k.a == u64::MAX - s.size_bytes && k.b == u64::MAX - s.files && k.c == 0 && k.text@ == s.language@
}

proof fn lemma_lang_sorted(sv: Seq<(SortKey, ContextLanguageSummary)>, before: Seq<(SortKey, ContextLanguageSummary)>)
    requires
        sv.to_multiset() == before.to_multiset(),
        keys_sorted(sv),
        forall|k: int| 0 <= k < before.len() ==> lang_key_of((#[trigger] before[k]).0, before[k].1),
    ensures
        forall|a: int, b: int| 0 <= a < b < sv.len() ==> !lang_before(#[trigger] sv[b].1, #[trigger] sv[a].1),
        forall|a: int| 0 <= a < sv.len() ==> before.contains(#[trigger] sv[a]),
{
    assert forall|a: int| 0 <= a < sv.len() implies before.contains(#[trigger] sv[a]) by {
        assert(sv.contains(sv[a]));
        to_multiset_contains(sv, sv[a]);
        to_multiset_contains(before, sv[a]);
    }
    assert forall|a: int, b: int| 0 <= a < b < sv.len() implies !lang_before(#[trigger] sv[b].1, #[trigger] sv[a].1) by {
        assert(before.contains(sv[a]));
        assert(before.contains(sv[b]));
        let ia = choose|x: int| 0 <= x < before.len() && before[x] == sv[a];
        let ib = choose|x: int| 0 <= x < before.len() && before[x] == sv[b];
        assert(lang_key_of(sv[a].0, sv[a].1));
        assert(lang_key_of(sv[b].0, sv[b].1));
        assert(!key_lt(sv[b].0, sv[a].0));
        lemma_text_lt_irreflexive(sv[a].1.language@);
    }
}

/// The languages of the files with their numbers of files and total sizes,
/// each once, ordered by size, then number of files (both descending), then
/// name.
pub fn summarize_languages(files: &Vec<ProjectFile>) -> (r: Vec<ContextLanguageSummary>)
    ensures
        forall|x: Seq<char>| (exists|i: int| 0 <= i < r@.len() && (#[trigger] r@[i]).language@ == x) <==> language_present(files@, x),
        forall|i: int, j: int| 0 <= i < j < r@.len() ==> (#[trigger] r@[i]).language@ != (#[trigger] r@[j]).language@,
        forall|i: int| 0 <= i < r@.len() ==> entry_ok(#[trigger] r@[i], files@),
        forall|i: int, j: int| 0 <= i < j < r@.len() ==> !lang_before(#[trigger] r@[j], #[trigger] r@[i]),
{
    let mut names: Vec<String> = Vec::new();
    let mut i: usize = 0;
    while i < files.len()
        invariant
            i <= files@.len(),
            strictly_sorted(views(names@)),
            forall|x: Seq<char>| views(names@).contains(x) <==> exists|a: int| 0 <= a < i && opt_view(#[trigger] files@[a].language) == Some(x),
        decreases files@.len() - i,
    {
        match &files[i].language {
            Some(l) => {
                set_insert(&mut names, l.clone());
            },
            None => {},
        }
        proof {
            assert forall|x: Seq<char>| views(names@).contains(x) <==> exists|a: int| 0 <= a < i + 1 && opt_view(#[trigger] files@[a].language) == Some(x) by {
                if opt_view(files@[i as int].language) == Some(x) {
                    assert(0 <= i < i + 1);
                }
            }
        }
        i = i + 1;
    }
    proof { crate::strset::lemma_sorted_no_duplicates(views(names@)); }
    let mut pairs: Vec<(SortKey, ContextLanguageSummary)> = Vec::new();
    let mut k: usize = 0;
    while k < names.len()
        invariant
            k <= names@.len(),
            views(names@).no_duplicates(),
            pairs@.len() == k,
            forall|a: int| 0 <= a < k ==> lang_key_of((#[trigger] pairs@[a]).0, pairs@[a].1),
            forall|a: int| 0 <= a < k ==> entry_ok((#[trigger] pairs@[a]).1, files@),
            forall|a: int| 0 <= a < k ==> (#[trigger] pairs@[a]).1.language@ == names@[a]@,
        decreases names@.len() - k,
    {
        let (count, size) = language_totals(files, names[k].as_str());
        let s = ContextLanguageSummary { language: names[k].clone(), files: count, size_bytes: size };
        let key = SortKey { a: u64::MAX - size, b: u64::MAX - count, c: 0, text: chars_of(names[k].as_str()), index: k as u64 };
        pairs.push((key, s));
        k = k + 1;
    }
    let ghost before = pairs@;
    let sorted = sort_by_key(pairs);
    let ghost sv = sorted@;
    proof { lemma_lang_sorted(sv, before); }
    let mut out: Vec<ContextLanguageSummary> = Vec::new();
    let mut rest = sorted;
    let total = rest.len();
    let mut m: usize = 0;
    while rest.len() > 0
        invariant
            total == sv.len(),
            m + rest@.len() == total,
            rest@ == sv.skip(m as int),
            out@ == sv.take(m as int).map_values(|p: (SortKey, ContextLanguageSummary)| p.1),
        decreases rest@.len(),
    {
        let p = rest.remove(0);
        assert(p == sv[m as int]);
        out.push(p.1);
        proof {
            assert(sv.take(m + 1) =~= sv.take(m as int).push(sv[m as int]));
            assert(rest@ =~= sv.skip(m + 1));
        }
        m = m + 1;
        assert(out@ =~= sv.take(m as int).map_values(|p: (SortKey, ContextLanguageSummary)| p.1));
    }
    proof {
        assert(sv.take(m as int) =~= sv);
        let f = |p: (SortKey, ContextLanguageSummary)| p.1;
        lemma_multiset_map_values(sv, before, f);
        assert forall|a: int| 0 <= a < out@.len() implies entry_ok(#[trigger] out@[a], files@) by {
            assert(before.contains(sv[a]));
            let x = choose|x: int| 0 <= x < before.len() && before[x] == sv[a];
        }
        assert forall|a: int, b: int| 0 <= a < b < out@.len() implies !lang_before(#[trigger] out@[b], #[trigger] out@[a]) by {
            assert(out@[a] == sv[a].1 && out@[b] == sv[b].1);
        }
        let lang = |p: (SortKey, ContextLanguageSummary)| p.1.language@;
        assert(before.map_values(lang) =~= views(names@));
        lemma_multiset_map_values(sv, before, lang);
        views(names@).lemma_multiset_has_no_duplicates();
        sv.map_values(lang).lemma_multiset_has_no_duplicates_conv();
        assert forall|a: int, b: int| 0 <= a < b < out@.len() implies (#[trigger] out@[a]).language@ != (#[trigger] out@[b]).language@ by {
            assert(sv.map_values(lang)[a] == out@[a].language@);
            assert(sv.map_values(lang)[b] == out@[b].language@);
        }
        assert forall|x: Seq<char>| (exists|i: int| 0 <= i < out@.len() && (#[trigger] out@[i]).language@ == x) <==> language_present(files@, x) by {
            if exists|i: int| 0 <= i < out@.len() && (#[trigger] out@[i]).language@ == x {
                let i = choose|i: int| 0 <= i < out@.len() && (#[trigger] out@[i]).language@ == x;
                assert(before.contains(sv[i]));
                let xi = choose|y: int| 0 <= y < before.len() && before[y] == sv[i];
                assert(views(names@)[xi] == x);
                assert(views(names@).contains(x));
            }
            if language_present(files@, x) {
                assert(exists|a: int| 0 <= a < files@.len() && opt_view(#[trigger] files@[a].language) == Some(x));
                assert(views(names@).contains(x));
                let xi = choose|y: int| 0 <= y < views(names@).len() && views(names@)[y] == x;
                assert(before[xi].1.language@ == x);
                to_multiset_contains(before, before[xi]);
                assert(before.contains(before[xi]));
                to_multiset_contains(sv, before[xi]);
                let i = choose|y: int| 0 <= y < sv.len() && sv[y] == before[xi];
                assert(out@[i].language@ == x);
            }
        }
    }
    out
}

} // verus!
