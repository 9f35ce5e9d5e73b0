//! Focus paths resolved against the analysed directory.
use vstd::prelude::*;
use vstd::seq_lib::*;
use vstd::string::*;
use crate::runtime::diff::{path_remainder, path_starts_with, strip_path_prefix};
use crate::sorting::{key_lt, keys_sorted, lemma_text_lt_irreflexive, sort_by_key, text_lt, SortKey};
use crate::text::{chars_of, str_eq};
use super::candidate::{FocusKind, ResolvedFocus};
use super::report::{normalize_relative_path, normalized_relative};

verus! {

/// The error for a focus path outside the analysed directory.
pub open spec fn focus_outside_error(raw: Seq<char>, base: Seq<char>) -> Seq<char> {
    "focus path `"@ + raw + "` must resolve inside `"@ + base + "`"@
}

/// A focus path given as `raw_focus`, whose canonical form is
/// `canonical_focus`, resolved against the analysed directory `base_path`
/// with canonical form `canonical_base`; `is_dir` tells whether it names a
/// directory. It must lie inside the directory.
pub fn resolve_focus(
    raw_focus: &str,
    base_path: &str,
    canonical_base: &str,
    canonical_focus: &str,
    is_dir: bool,
) -> (r: Result<ResolvedFocus, String>)
    ensures
        path_starts_with(canonical_focus@, canonical_base@) ==> (r matches Ok(f)
            && f.relative_path@ == path_remainder(canonical_focus@, canonical_base@)
            && f.normalized_relative_path@ == normalized_relative(f.relative_path@)
            && f.kind == (if is_dir { FocusKind::Directory } else { FocusKind::File })),
        !path_starts_with(canonical_focus@, canonical_base@) ==> (r matches Err(e) && e@ == focus_outside_error(raw_focus@, base_path@)),
{
    match strip_path_prefix(canonical_focus, canonical_base) {
        Some(rel) => {
            let normalized = normalize_relative_path(rel.as_str());
            Ok(ResolvedFocus {
                relative_path: rel,
                normalized_relative_path: normalized,
                kind: if is_dir { FocusKind::Directory } else { FocusKind::File },
            })
        },
        None => {
            let mut m = "focus path `".to_owned();
            m.append(raw_focus);
            m.append("` must resolve inside `");
            m.append(base_path);
            m.append("`");
            Err(m)
        },
    }
}

/// The order of focuses: by normalized path, then files before
/// directories.
pub open spec fn focus_lt(x: ResolvedFocus, y: ResolvedFocus) -> bool {
    text_lt(x.normalized_relative_path@, y.normalized_relative_path@)
        || (x.normalized_relative_path@ == y.normalized_relative_path@ && x.kind == FocusKind::File && y.kind == FocusKind::Directory)
}

/// Two focuses are the same.
pub open spec fn same_focus(x: ResolvedFocus, y: ResolvedFocus) -> bool {
    x.relative_path@ == y.relative_path@ && x.normalized_relative_path@ == y.normalized_relative_path@ && x.kind == y.kind
}

/// `s` holds a focus that is the same as `f`.
pub open spec fn has_same_focus(s: Seq<ResolvedFocus>, f: ResolvedFocus) -> bool {
    exists|j: int| 0 <= j < s.len() && same_focus(f, #[trigger] s[j])
}

pub open spec fn focus_key_of(k: SortKey, f: ResolvedFocus) -> bool {
    k.a == 0 && k.b == 0 && k.c == 0 && k.text@ == f.normalized_relative_path@
        && k.index == (if f.kind == FocusKind::File { 0u64 } else { 1u64 })
}

fn clone_focus(f: &ResolvedFocus) -> (r: ResolvedFocus)
    ensures
        r.relative_path@ == f.relative_path@,
        r.normalized_relative_path@ == f.normalized_relative_path@,
        r.kind == f.kind,
{
    ResolvedFocus {
        relative_path: f.relative_path.as_str().to_owned(),
        normalized_relative_path: f.normalized_relative_path.as_str().to_owned(),
        kind: f.kind,
    }
}

/// The focuses in order, each once where equal ones meet: sorted by
/// normalized path, then files before directories, with adjacent duplicates
/// dropped.
pub fn sort_focuses(focuses: &Vec<ResolvedFocus>) -> (r: Vec<ResolvedFocus>)
    ensures
        forall|i: int, j: int| 0 <= i < j < r@.len() ==> !focus_lt(#[trigger] r@[j], #[trigger] r@[i]),
        forall|i: int| 0 <= i < r@.len() - 1 ==> !same_focus(#[trigger] r@[i], r@[i + 1]),
        forall|i: int| 0 <= i < r@.len() ==> has_same_focus(focuses@, #[trigger] r@[i]),
        forall|j: int| 0 <= j < focuses@.len() ==> has_same_focus(r@, #[trigger] focuses@[j]),
{
    broadcast use group_to_multiset_ensures;
    let ghost orig = focuses@;
    let mut pairs: Vec<(SortKey, ResolvedFocus)> = Vec::new();
    let n = focuses.len();
    let mut i: usize = 0;
    while i < n
        invariant
            i <= n,
            n == orig.len(),
            orig == focuses@,
            pairs@.len() == i,
            forall|k: int| 0 <= k < i ==> focus_key_of((#[trigger] pairs@[k]).0, pairs@[k].1) && same_focus(pairs@[k].1, orig[k]),
        decreases n - i,
    {
        let f = clone_focus(&focuses[i]);
        let key = SortKey {
            a: 0,
            b: 0,
            c: 0,
            text: chars_of(f.normalized_relative_path.as_str()),
            index: match f.kind { FocusKind::File => 0, FocusKind::Directory => 1 },
        };
        pairs.push((key, f));
        i = i + 1;
    }
    let ghost before = pairs@;
    let sorted = sort_by_key(pairs);
    let ghost sv = sorted@;
    proof {
        assert forall|a: int| 0 <= a < sv.len() implies before.contains(#[trigger] sv[a]) by {
            assert(sv.contains(sv[a]));
            to_multiset_contains(sv, sv[a]);
            to_multiset_contains(before, sv[a]);
        }
        assert forall|b: int| 0 <= b < before.len() implies sv.contains(#[trigger] before[b]) by {
            assert(before.contains(before[b]));
            to_multiset_contains(before, before[b]);
            to_multiset_contains(sv, before[b]);
        }
        assert forall|a: int, b: int| 0 <= a < b < sv.len() implies !focus_lt(#[trigger] sv[b].1, #[trigger] sv[a].1) by {
            assert(before.contains(sv[a]));
            assert(before.contains(sv[b]));
            assert(focus_key_of(sv[a].0, sv[a].1));
            assert(focus_key_of(sv[b].0, sv[b].1));
            assert(!key_lt(sv[b].0, sv[a].0));
            lemma_text_lt_irreflexive(sv[a].1.normalized_relative_path@);
        }
    }
    let mut out: Vec<ResolvedFocus> = Vec::new();
    let ghost mut src: Seq<int> = Seq::empty();
    let mut k: usize = 0;
    while k < sorted.len()
        invariant
            k <= sv.len(),
            sorted@ == sv,
            src.len() == out@.len(),
            forall|a: int, b: int| 0 <= a < b < sv.len() ==> !focus_lt(#[trigger] sv[b].1, #[trigger] sv[a].1),
            forall|t: int| 0 <= t < out@.len() ==> 0 <= #[trigger] src[t] < k && same_focus(out@[t], sv[src[t]].1),
            forall|t: int, u: int| 0 <= t < u < out@.len() ==> #[trigger] src[t] < #[trigger] src[u],
            forall|t: int| 0 <= t < out@.len() - 1 ==> !same_focus(#[trigger] out@[t], out@[t + 1]),
            forall|b: int| 0 <= b < k ==> exists|t: int| 0 <= t < out@.len() && same_focus(out@[t], #[trigger] sv[b].1),
            k > 0 ==> out@.len() > 0 && same_focus(out@.last(), sv[k - 1].1),
        decreases sv.len() - k,
    {
        let f = &sorted[k].1;
        let ghost old_out = out@;
        let dup = out.len() > 0 && {
            let last = &out[out.len() - 1];
            str_eq(last.relative_path.as_str(), f.relative_path.as_str())
                && str_eq(last.normalized_relative_path.as_str(), f.normalized_relative_path.as_str())
                && last.kind == f.kind
        };
        if !dup {
            let ghost old_len = out@.len();
            out.push(clone_focus(f));
            proof { src = src.push(k as int); }
            assert(same_focus(out@[old_len as int], sv[k as int].1));
        } else {
            assert(same_focus(out@[out@.len() - 1], sv[k as int].1));
        }
        proof {
            assert forall|b: int| 0 <= b < k + 1 implies exists|t: int| 0 <= t < out@.len() && same_focus(out@[t], #[trigger] sv[b].1) by {
                if b < k {
                    let t = choose|t: int| 0 <= t < old_out.len() && same_focus(old_out[t], sv[b].1);
                    assert(out@[t] == old_out[t]);
                } else {
                    assert(same_focus(out@[out@.len() - 1], sv[b].1));
                }
            }
        }
        k = k + 1;
    }
    proof {
        assert forall|i: int, j: int| 0 <= i < j < out@.len() implies !focus_lt(#[trigger] out@[j], #[trigger] out@[i]) by {
            assert(src[i] < src[j]);
            assert(!focus_lt(sv[src[j]].1, sv[src[i]].1));
        }
        assert forall|i: int| 0 <= i < out@.len() implies has_same_focus(focuses@, #[trigger] out@[i]) by {
            let s = src[i];
            assert(before.contains(sv[s]));
            let j = choose|j: int| 0 <= j < before.len() && before[j] == sv[s];
            assert(same_focus(before[j].1, orig[j]));
            assert(same_focus(out@[i], orig[j]));
            assert(same_focus(out@[i], focuses@[j]));
        }
        assert forall|j: int| 0 <= j < orig.len() implies has_same_focus(out@, #[trigger] orig[j]) by {
            assert(same_focus(before[j].1, orig[j]));
            assert(sv.contains(before[j]));
            let b = choose|b: int| 0 <= b < sv.len() && sv[b] == before[j];
            assert(same_focus(sv[b].1, orig[j]));
            let t = choose|t: int| 0 <= t < out@.len() && same_focus(out@[t], sv[b].1);
            assert(same_focus(orig[j], out@[t]));
        }
    }
    out
}

} // verus!
