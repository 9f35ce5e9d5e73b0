//! The line-count report: languages with content, their totals, and order.
use vstd::prelude::*;
use vstd::seq_lib::*;
use crate::config::LanguageConfig;
use crate::sorting::{key_lt, keys_sorted, lemma_multiset_map_values, lemma_text_lt_irreflexive, sort_by_key, text_lt, SortKey};
use crate::text::chars_of;
use super::types::{LanguageLoc, LocMetrics};

verus! {

/// A line-count report of a directory tree.
#[derive(Debug, Clone, PartialEq, Eq)]
pub struct CodeLocReport {
    pub base_path: String,
    pub by_language: Vec<LanguageLoc>,
    pub totals: LocMetrics,
    pub files_scanned: u64,
    pub languages_detected: usize,
    /// How long the analysis took, in nanoseconds.
    pub elapsed_nanos: u128,
}

/// The languages whose metrics have some content, with those metrics, in
/// table order.
pub open spec fn contentful(table: Seq<LanguageConfig>, m: Seq<LocMetrics>) -> Seq<LanguageLoc>
    decreases m.len(),
{
    if m.len() == 0 {
        Seq::empty()
    } else {
        let prev = contentful(table, m.drop_last());
        if m.last().spec_has_content() {
            prev.push(LanguageLoc { language: table[m.len() - 1].name, metrics: m.last() })
        } else {
            prev
        }
    }
}

/// The field-by-field sums of the metrics.
pub open spec fn metric_sums(s: Seq<LanguageLoc>) -> (int, int, int, int)
    decreases s.len(),
{
    if s.len() == 0 {
        (0, 0, 0, 0)
    } else {
        let (a, b, c, d) = metric_sums(s.drop_last());
        let m = s.last().metrics;
        (a + m.code_lines, b + m.comment_lines, c + m.empty_lines, d + m.size_bytes)
    }
}

/// Every field sum fits in a `u64`.
pub open spec fn sums_fit(s: Seq<LanguageLoc>) -> bool {
    let (a, b, c, d) = metric_sums(s);
    a <= u64::MAX && b <= u64::MAX && c <= u64::MAX && d <= u64::MAX
}

proof fn lemma_sums_monotone(s: Seq<LanguageLoc>, k: int)
    requires
        0 <= k <= s.len(),
    ensures
        metric_sums(s.take(k)).0 <= metric_sums(s).0,
        metric_sums(s.take(k)).1 <= metric_sums(s).1,
        metric_sums(s.take(k)).2 <= metric_sums(s).2,
        metric_sums(s.take(k)).3 <= metric_sums(s).3,
        0 <= metric_sums(s.take(k)).0 && 0 <= metric_sums(s.take(k)).1,
        0 <= metric_sums(s.take(k)).2 && 0 <= metric_sums(s.take(k)).3,
    decreases s.len() - k,
{
    if k < s.len() {
        lemma_sums_monotone(s, k + 1);
        assert(s.take(k + 1).drop_last() =~= s.take(k));
        lemma_sums_nonneg(s.take(k));
    } else {
        assert(s.take(k) =~= s);
        lemma_sums_nonneg(s);
    }
}

proof fn lemma_sums_nonneg(s: Seq<LanguageLoc>)
    ensures
        metric_sums(s).0 >= 0 && metric_sums(s).1 >= 0 && metric_sums(s).2 >= 0 && metric_sums(s).3 >= 0,
    decreases s.len(),
{
    if s.len() > 0 {
        lemma_sums_nonneg(s.drop_last());
    }
}

/// `x` is listed before `y`: more code lines, then more comment lines, then
/// more empty lines, then by name.
pub open spec fn loc_before(x: LanguageLoc, y: LanguageLoc) -> bool {
    let (a, b) = (x.metrics, y.metrics);
    a.code_lines > b.code_lines || (a.code_lines == b.code_lines && (a.comment_lines > b.comment_lines
        || (a.comment_lines == b.comment_lines && (a.empty_lines > b.empty_lines
        || (a.empty_lines == b.empty_lines && text_lt(x.language@, y.language@))))))
}

fn contentful_entries(languages: &Vec<LanguageConfig>, metrics: &Vec<LocMetrics>) -> (r: Vec<LanguageLoc>)
    requires
        metrics@.len() <= languages@.len(),
    ensures
        r@ == contentful(languages@, metrics@),
{
    let mut r: Vec<LanguageLoc> = Vec::new();
    let mut i: usize = 0;
    while i < metrics.len()
        invariant
            i <= metrics@.len() <= languages@.len(),
            r@ == contentful(languages@, metrics@.take(i as int)),
        decreases metrics@.len() - i,
    {
        assert(metrics@.take(i + 1).drop_last() =~= metrics@.take(i as int));
        let m = metrics[i];
        if m.has_content() {
            r.push(LanguageLoc { language: languages[i].name, metrics: m });
        }
        i = i + 1;
    }
    assert(metrics@.take(i as int) =~= metrics@);
    r
}

/// Whether the totals of the languages with content fit in 64 bits.
pub fn loc_totals_fit(languages: &Vec<LanguageConfig>, metrics: &Vec<LocMetrics>) -> (r: bool)
    requires
        metrics@.len() <= languages@.len(),
    ensures
        r == sums_fit(contentful(languages@, metrics@)),
{
    let entries = contentful_entries(languages, metrics);
    let ghost s = entries@;
    let mut t = LocMetrics::zero();
    let mut i: usize = 0;
    while i < entries.len()
        invariant
            i <= s.len(),
            entries@ == s,
            s == contentful(languages@, metrics@),
            metric_sums(s.take(i as int)) == (t.code_lines as int, t.comment_lines as int, t.empty_lines as int, t.size_bytes as int),
        decreases s.len() - i,
    {
        assert(s.take(i + 1).drop_last() =~= s.take(i as int));
        let m = entries[i].metrics;
        let next = match (t.code_lines.checked_add(m.code_lines), t.comment_lines.checked_add(m.comment_lines),
            t.empty_lines.checked_add(m.empty_lines), t.size_bytes.checked_add(m.size_bytes)) {
            (Some(a), Some(b), Some(c), Some(d)) => LocMetrics { code_lines: a, comment_lines: b, empty_lines: c, size_bytes: d },
            _ => {
                proof {
                    lemma_sums_monotone(s, i + 1);
                    assert(s.take(i + 1).last() == s[i as int]);
                    let (a, b, c, d) = metric_sums(s.take(i + 1));
                    assert(a > u64::MAX || b > u64::MAX || c > u64::MAX || d > u64::MAX);
                }
                return false;
            },
        };
        t = next;
        i = i + 1;
    }
    assert(s.take(i as int) =~= s);
    true
}

pub open spec fn loc_key_of(k: SortKey, l: LanguageLoc) -> bool {
    &&& k.a == u64::MAX - l.metrics.code_lines
    &&& k.b == u64::MAX - l.metrics.comment_lines
    &&& k.c == u64::MAX - l.metrics.empty_lines
    &&& k.text@ == l.language@
}

proof fn lemma_loc_sorted(sv: Seq<(SortKey, LanguageLoc)>, before: Seq<(SortKey, LanguageLoc)>)
    requires
        sv.to_multiset() == before.to_multiset(),
        keys_sorted(sv),
        forall|k: int| 0 <= k < before.len() ==> loc_key_of((#[trigger] before[k]).0, before[k].1),
    ensures
        forall|a: int, b: int| 0 <= a < b < sv.len() ==> !loc_before(#[trigger] sv[b].1, #[trigger] sv[a].1),
{
    assert forall|a: int| 0 <= a < sv.len() implies before.contains(#[trigger] sv[a]) by {
        assert(sv.contains(sv[a]));
        to_multiset_contains(sv, sv[a]);
        to_multiset_contains(before, sv[a]);
    }
    assert forall|a: int, b: int| 0 <= a < b < sv.len() implies !loc_before(#[trigger] sv[b].1, #[trigger] sv[a].1) by {
        assert(before.contains(sv[a]));
        assert(before.contains(sv[b]));
        assert(loc_key_of(sv[a].0, sv[a].1));
        assert(loc_key_of(sv[b].0, sv[b].1));
        assert(!key_lt(sv[b].0, sv[a].0));
        lemma_text_lt_irreflexive(sv[a].1.language@);
    }
}

/// The report of a tree: `metrics` holds the summed metrics of the files of
/// each language of `languages`, in table order. The languages with content
/// are listed by code lines, comment lines and empty lines (each
/// descending), then by name; the totals sum them.
pub fn build_loc_report(
    base_path: String,
    languages: &Vec<LanguageConfig>,
    metrics: &Vec<LocMetrics>,
    files_scanned: u64,
    elapsed_nanos: u128,
) -> (r: CodeLocReport)
    requires
        metrics@.len() <= languages@.len(),
        sums_fit(contentful(languages@, metrics@)),
    ensures
        r.base_path == base_path,
        r.by_language@.to_multiset() == contentful(languages@, metrics@).to_multiset(),
        forall|i: int, j: int| 0 <= i < j < r.by_language@.len() ==> !loc_before(#[trigger] r.by_language@[j], #[trigger] r.by_language@[i]),
        metric_sums(contentful(languages@, metrics@)) == (r.totals.code_lines as int, r.totals.comment_lines as int,
            r.totals.empty_lines as int, r.totals.size_bytes as int),
        r.languages_detected == r.by_language@.len(),
        r.files_scanned == files_scanned,
        r.elapsed_nanos == elapsed_nanos,
{
    broadcast use group_to_multiset_ensures;
    let entries = contentful_entries(languages, metrics);
    let ghost s = entries@;
    let mut totals = LocMetrics::zero();
    let mut pairs: Vec<(SortKey, LanguageLoc)> = Vec::new();
    let mut i: usize = 0;
    while i < entries.len()
        invariant
            i <= s.len(),
            entries@ == s,
            sums_fit(s),
            metric_sums(s.take(i as int)) == (totals.code_lines as int, totals.comment_lines as int,
                totals.empty_lines as int, totals.size_bytes as int),
            pairs@.len() == i,
            forall|k: int| 0 <= k < i ==> loc_key_of((#[trigger] pairs@[k]).0, pairs@[k].1),
            pairs@.map_values(|p: (SortKey, LanguageLoc)| p.1) == s.take(i as int),
        decreases s.len() - i,
    {
        assert(s.take(i + 1).drop_last() =~= s.take(i as int));
        proof { lemma_sums_monotone(s, i + 1); }
        let e = entries[i];
        totals.add_assign(e.metrics);
        let key = SortKey {
            a: u64::MAX - e.metrics.code_lines,
            b: u64::MAX - e.metrics.comment_lines,
            c: u64::MAX - e.metrics.empty_lines,
            text: chars_of(e.language),
            index: i as u64,
        };
        let ghost before = pairs@.map_values(|p: (SortKey, LanguageLoc)| p.1);
        pairs.push((key, e));
        assert(pairs@.map_values(|p: (SortKey, LanguageLoc)| p.1) =~= before.push(e));
        assert(s.take(i + 1) =~= s.take(i as int).push(e));
        i = i + 1;
    }
    assert(s.take(i as int) =~= s);
    let ghost before = pairs@;
    let sorted = sort_by_key(pairs);
    let ghost sv = sorted@;
    proof { lemma_loc_sorted(sv, before); }
    let mut out: Vec<LanguageLoc> = Vec::new();
    let mut rest = sorted;
    let total = rest.len();
    let mut m: usize = 0;
    while rest.len() > 0
        invariant
            total == sv.len(),
            m + rest@.len() == total,
            rest@ == sv.skip(m as int),
            out@ == sv.take(m as int).map_values(|p: (SortKey, LanguageLoc)| p.1),
        decreases rest@.len(),
    {
        let p = rest.remove(0);
        assert(p == sv[m as int]);
        out.push(p.1);
        proof {
            assert(sv.take(m + 1) =~= sv.take(m as int).push(sv[m as int]));
            assert(rest@ =~= sv.skip(m + 1));
        }
        m = m + 1;
        assert(out@ =~= sv.take(m as int).map_values(|p: (SortKey, LanguageLoc)| p.1));
    }
    proof {
        assert(sv.take(m as int) =~= sv);
        let f = |p: (SortKey, LanguageLoc)| p.1;
        lemma_multiset_map_values(sv, before, f);
        assert forall|a: int, b: int| 0 <= a < b < out@.len() implies !loc_before(#[trigger] out@[b], #[trigger] out@[a]) by {
            assert(out@[a] == sv[a].1 && out@[b] == sv[b].1);
        }
    }
    let n = out.len();
    CodeLocReport { base_path, by_language: out, totals, files_scanned, languages_detected: n, elapsed_nanos }
}

proof fn lemma_sums_remove(s: Seq<LanguageLoc>, k: int)
    requires
        0 <= k < s.len(),
    ensures
        ({
            let (a, b, c, d) = metric_sums(s.remove(k));
            let m = s[k].metrics;
            metric_sums(s) == (a + m.code_lines, b + m.comment_lines, c + m.empty_lines, d + m.size_bytes)
        }),
    decreases s.len(),
{
    if k < s.len() - 1 {
        lemma_sums_remove(s.drop_last(), k);
        assert(s.remove(k).drop_last() =~= s.drop_last().remove(k));
        assert(s.remove(k).last() == s.last());
    } else {
        assert(s.remove(k) =~= s.drop_last());
    }
}

proof fn lemma_sums_permutation(a: Seq<LanguageLoc>, b: Seq<LanguageLoc>)
    requires
        a.to_multiset() == b.to_multiset(),
    ensures
        metric_sums(a) == metric_sums(b),
    decreases a.len(),
{
    broadcast use group_to_multiset_ensures;
    to_multiset_len(a);
    to_multiset_len(b);
    if a.len() > 0 {
        let x = a.last();
        assert(a =~= a.drop_last().push(x));
        to_multiset_build(a.drop_last(), x);
        assert(a.to_multiset().count(x) > 0);
        to_multiset_contains(b, x);
        let k = choose|k: int| 0 <= k < b.len() && b[k] == x;
        to_multiset_remove(b, k);
        assert(a.drop_last().to_multiset() =~= b.remove(k).to_multiset());
        lemma_sums_permutation(a.drop_last(), b.remove(k));
        lemma_sums_remove(b, k);
    }
}

/// The field-by-field sums of the metrics of the scanned files whose
/// language is the one at `language` in the table.
pub open spec fn language_sum(files: Seq<(usize, LocMetrics)>, language: int) -> (int, int, int, int)
    decreases files.len(),
{
    if files.len() == 0 {
        (0, 0, 0, 0)
    } else {
        let (a, b, c, d) = language_sum(files.drop_last(), language);
        let (index, m) = files.last();
        if index == language {
            (a + m.code_lines, b + m.comment_lines, c + m.empty_lines, d + m.size_bytes)
        } else {
            (a, b, c, d)
        }
    }
}

/// Every field of the four sums fits in a `u64`.
pub open spec fn sum_fits(t: (int, int, int, int)) -> bool {
    t.0 <= u64::MAX && t.1 <= u64::MAX && t.2 <= u64::MAX && t.3 <= u64::MAX
}

/// The metrics hold the four sums.
pub open spec fn metrics_are(m: LocMetrics, t: (int, int, int, int)) -> bool {
    m.code_lines == t.0 && m.comment_lines == t.1 && m.empty_lines == t.2 && m.size_bytes == t.3
}

proof fn lemma_language_sum_prefix(files: Seq<(usize, LocMetrics)>, j: int, language: int)
    requires
        0 <= j <= files.len(),
    ensures
        ({
            let p = language_sum(files.take(j), language);
            let t = language_sum(files, language);
            p.0 <= t.0 && p.1 <= t.1 && p.2 <= t.2 && p.3 <= t.3
        }),
    decreases files.len(),
{
    if j < files.len() {
        assert(files.take(j) =~= files.drop_last().take(j));
        lemma_language_sum_prefix(files.drop_last(), j, language);
    } else {
        assert(files.take(j) =~= files);
    }
}

/// Adds up the metrics of the scanned files by language: `files` pairs the
/// index of each file's language in a table of `language_count` languages
/// with the file's metrics. `None` when some language's sum does not fit.
pub fn sum_by_language(language_count: usize, files: &Vec<(usize, LocMetrics)>) -> (r: Option<Vec<LocMetrics>>)
    requires
        forall|i: int| 0 <= i < files@.len() ==> (#[trigger] files@[i]).0 < language_count,
    ensures
        r is Some <==> forall|k: int| 0 <= k < language_count ==> sum_fits(#[trigger] language_sum(files@, k)),
        r matches Some(v) ==> v@.len() == language_count
            && forall|k: int| 0 <= k < language_count ==> metrics_are(#[trigger] v@[k], language_sum(files@, k)),
{
    let mut sums: Vec<LocMetrics> = Vec::new();
    let mut k: usize = 0;
    while k < language_count
        invariant
            k <= language_count,
            sums@.len() == k,
            forall|j: int| 0 <= j < k ==> metrics_are(#[trigger] sums@[j], (0, 0, 0, 0)),
        decreases language_count - k,
    {
        sums.push(LocMetrics::zero());
        k = k + 1;
    }
    assert forall|j: int| 0 <= j < language_count implies language_sum(files@.take(0), j) == (0int, 0int, 0int, 0int) by {
        assert(files@.take(0).len() == 0);
    }
    let mut i: usize = 0;
    while i < files.len()
        invariant
            i <= files@.len(),
            sums@.len() == language_count,
            forall|j: int| 0 <= j < files@.len() ==> (#[trigger] files@[j]).0 < language_count,
            forall|j: int| 0 <= j < language_count ==> metrics_are(#[trigger] sums@[j], language_sum(files@.take(i as int), j)),
        decreases files@.len() - i,
    {
        let (index, m) = files[i];
        assert(files@.take(i + 1).drop_last() =~= files@.take(i as int));
        assert(files@.take(i + 1).last() == files@[i as int]);
        match sums[index].checked_add(m) {
            Some(next) => {
                sums.set(index, next);
            },
            None => {
                proof {
                    lemma_language_sum_prefix(files@, i + 1, index as int);
                    assert(!sum_fits(language_sum(files@, index as int)));
                }
                return None;
            },
        }
        i = i + 1;
    }
    assert(files@.take(i as int) =~= files@);
    assert forall|k: int| 0 <= k < language_count implies sum_fits(#[trigger] language_sum(files@, k)) by {
        assert(metrics_are(sums@[k], language_sum(files@, k)));
    }
    Some(sums)
}

/// In a line-count report, the totals are the sums of the languages' rows:
/// the table's `Totals` row adds up the rows above it.
pub proof fn law_totals_are_row_sums(r: CodeLocReport, languages: Seq<LanguageConfig>, metrics: Seq<LocMetrics>)
    requires
        r.by_language@.to_multiset() == contentful(languages, metrics).to_multiset(),
        metric_sums(contentful(languages, metrics)) == (r.totals.code_lines as int, r.totals.comment_lines as int,
            r.totals.empty_lines as int, r.totals.size_bytes as int),
    ensures
        metric_sums(r.by_language@) == (r.totals.code_lines as int, r.totals.comment_lines as int,
            r.totals.empty_lines as int, r.totals.size_bytes as int),
{
    lemma_sums_permutation(r.by_language@, contentful(languages, metrics));
}

} // verus!
