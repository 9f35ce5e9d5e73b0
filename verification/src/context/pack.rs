//! Ranking candidates, reading them into excerpts within the token budget,
//! and summarizing the pack.
use vstd::prelude::*;
use vstd::seq_lib::*;
use crate::paths::{contains_string, views};
use crate::sorting::{key_lt, keys_sorted, lemma_multiset_map_values, sort_by_key, text_lt, SortKey};
use crate::text::{chars_of, utf8_len};
use super::budget::{estimate_tokens_from_bytes, tokens_for_bytes, ContextBudget};
use super::candidate::{opt_view, ContextCandidate, ProjectFile};
use super::excerpt::{
    build_full_excerpt, build_head_excerpt, byte_limit_for, decoded_lines, excerpt_line_cap, excerpt_token_cap,
    head_from, include_full_file, join_lines, lemma_head_fits, line_cap, minimum_partial_excerpt_tokens, should_include_full_file,
    strip_utf8_bom, token_cap, utf8_len_capped, without_bom,
};
use super::budget::div_ceil;
use super::types::{ContextExcerpt, ContextFile, ContextGroupKind, ContextGroupSummary, ContextLanguageSummary, SelectionClass};

verus! {

/// How early a class comes in the ranking (smaller first).
pub open spec fn priority(c: SelectionClass) -> nat {
    match c {
        SelectionClass::FocusedFile => 0,
        SelectionClass::DiffFile => 1,
        SelectionClass::FocusedDescendant => 2,
        SelectionClass::Manifest => 3,
        SelectionClass::Workflow => 4,
        SelectionClass::Entrypoint => 5,
        SelectionClass::AdjacentTest => 6,
        SelectionClass::General => 7,
    }
}

/// How early a class comes in the ranking.
pub fn selection_priority(c: SelectionClass) -> (r: u8)
    ensures
        r == priority(c),
{
    match c {
        SelectionClass::FocusedFile => 0,
        SelectionClass::DiffFile => 1,
        SelectionClass::FocusedDescendant => 2,
        SelectionClass::Manifest => 3,
        SelectionClass::Workflow => 4,
        SelectionClass::Entrypoint => 5,
        SelectionClass::AdjacentTest => 6,
        SelectionClass::General => 7,
    }
}

/// The classes rank in this order, whatever the sizes and paths: focused
/// files, then changed files, focused descendants, manifests, workflows,
/// entry points, adjacent tests, and last general files. A candidate of an
/// earlier class ranks before any candidate of a later class.
pub proof fn law_class_order(x: ContextCandidate, y: ContextCandidate)
    ensures
        x.selection_class == SelectionClass::FocusedFile && y.selection_class != SelectionClass::FocusedFile
            ==> cand_lt(x, y),
        x.selection_class == SelectionClass::DiffFile && y.selection_class != SelectionClass::FocusedFile
            && y.selection_class != SelectionClass::DiffFile ==> cand_lt(x, y),
        x.selection_class == SelectionClass::FocusedDescendant && y.selection_class != SelectionClass::FocusedFile
            && y.selection_class != SelectionClass::DiffFile && y.selection_class != SelectionClass::FocusedDescendant
            ==> cand_lt(x, y),
        x.selection_class == SelectionClass::Manifest && (y.selection_class == SelectionClass::Workflow
            || y.selection_class == SelectionClass::Entrypoint || y.selection_class == SelectionClass::AdjacentTest
            || y.selection_class == SelectionClass::General) ==> cand_lt(x, y),
        x.selection_class == SelectionClass::Workflow && (y.selection_class == SelectionClass::Entrypoint
            || y.selection_class == SelectionClass::AdjacentTest || y.selection_class == SelectionClass::General)
            ==> cand_lt(x, y),
        x.selection_class == SelectionClass::Entrypoint && (y.selection_class == SelectionClass::AdjacentTest
            || y.selection_class == SelectionClass::General) ==> cand_lt(x, y),
        x.selection_class == SelectionClass::AdjacentTest && y.selection_class == SelectionClass::General
            ==> cand_lt(x, y),
{
}

/// `x` ranks before `y`: by class priority, then size, then path.
pub open spec fn cand_lt(x: ContextCandidate, y: ContextCandidate) -> bool {
    if priority(x.selection_class) != priority(y.selection_class) {
        priority(x.selection_class) < priority(y.selection_class)
    } else if x.size_bytes != y.size_bytes {
        x.size_bytes < y.size_bytes
    } else {
        text_lt(x.normalized_relative_path@, y.normalized_relative_path@)
    }
}

pub open spec fn key_of(k: SortKey, c: ContextCandidate) -> bool {
    k.a == priority(c.selection_class) && k.b == c.size_bytes && k.c == 0 && k.text@ == c.normalized_relative_path@
}

proof fn lemma_ranked(sv: Seq<(SortKey, ContextCandidate)>, before: Seq<(SortKey, ContextCandidate)>)
    requires
        sv.to_multiset() == before.to_multiset(),
        keys_sorted(sv),
        forall|k: int| 0 <= k < before.len() ==> key_of((#[trigger] before[k]).0, before[k].1),
    ensures
        forall|a: int, b: int| 0 <= a < b < sv.len() ==> !cand_lt(#[trigger] sv[b].1, #[trigger] sv[a].1),
{
    assert forall|a: int, b: int| 0 <= a < b < sv.len() implies !cand_lt(#[trigger] sv[b].1, #[trigger] sv[a].1) by {
        assert(sv.contains(sv[a]));
        assert(sv.contains(sv[b]));
        to_multiset_contains(sv, sv[a]);
        to_multiset_contains(sv, sv[b]);
        to_multiset_contains(before, sv[a]);
        to_multiset_contains(before, sv[b]);
        let ia = choose|x: int| 0 <= x < before.len() && before[x] == sv[a];
        let ib = choose|x: int| 0 <= x < before.len() && before[x] == sv[b];
        assert(key_of(sv[a].0, sv[a].1));
        assert(key_of(sv[b].0, sv[b].1));
        assert(!key_lt(sv[b].0, sv[a].0));
        crate::sorting::lemma_text_lt_irreflexive(sv[a].1.normalized_relative_path@);
    }
}

/// `perm` places `r` in `cands`: entry `k` of `r` is the candidate at
/// `perm[k]`, no position is used twice, and of two entries that do not rank
/// apart the one that came first in `cands` comes first.
pub open spec fn stable_placement(r: Seq<ContextCandidate>, cands: Seq<ContextCandidate>, perm: Seq<int>) -> bool {
    &&& perm.len() == r.len()
    &&& r.len() == cands.len()
    &&& forall|k: int| 0 <= k < r.len() ==> 0 <= #[trigger] perm[k] < cands.len() && r[k] == cands[perm[k]]
    &&& forall|k: int, l: int| 0 <= k < l < r.len() ==> #[trigger] perm[k] != #[trigger] perm[l]
    &&& forall|k: int, l: int| 0 <= k < l < r.len() && !cand_lt(#[trigger] r[k], #[trigger] r[l]) ==> perm[k] < perm[l]
}

/// `r` is `cands` in stable ranking order: equal-ranking candidates keep
/// their input order.
pub open spec fn stably_ranked(r: Seq<ContextCandidate>, cands: Seq<ContextCandidate>) -> bool {
    exists|perm: Seq<int>| #[trigger] stable_placement(r, cands, perm)
}

proof fn lemma_distinct_entries(sv: Seq<(SortKey, ContextCandidate)>, before: Seq<(SortKey, ContextCandidate)>, k: int, l: int)
    requires
        sv.to_multiset() == before.to_multiset(),
        forall|j: int| 0 <= j < before.len() ==> (#[trigger] before[j]).0.index == j,
        0 <= k < l < sv.len(),
    ensures
        sv[k] != sv[l],
{
    broadcast use group_to_multiset_ensures;
    if sv[k] == sv[l] {
        let x = sv[k];
        to_multiset_remove(sv, k);
        assert(sv.remove(k)[l - 1] == x);
        assert(sv.remove(k).contains(x));
        to_multiset_contains(sv.remove(k), x);
        assert(sv.contains(x));
        to_multiset_contains(sv, x);
        to_multiset_contains(before, x);
        let ia = choose|a: int| 0 <= a < before.len() && before[a] == x;
        to_multiset_remove(before, ia);
        to_multiset_contains(before.remove(ia), x);
        let jb = choose|b: int| 0 <= b < before.remove(ia).len() && before.remove(ia)[b] == x;
        let j = if jb < ia { jb } else { jb + 1 };
        assert(before[j] == x);
        assert(before[j].0.index == j && before[ia].0.index == ia);
    }
}

proof fn lemma_stable(sv: Seq<(SortKey, ContextCandidate)>, before: Seq<(SortKey, ContextCandidate)>, orig: Seq<ContextCandidate>)
    requires
        sv.to_multiset() == before.to_multiset(),
        keys_sorted(sv),
        before.len() == orig.len(),
        forall|j: int| 0 <= j < before.len() ==> key_of((#[trigger] before[j]).0, before[j].1)
            && before[j].0.index == j && before[j].1 == orig[j],
    ensures
        stable_placement(sv.map_values(|p: (SortKey, ContextCandidate)| p.1), orig,
            Seq::new(sv.len(), |k: int| sv[k].0.index as int)),
{
    broadcast use group_to_multiset_ensures;
    to_multiset_len(sv);
    to_multiset_len(before);
    let r = sv.map_values(|p: (SortKey, ContextCandidate)| p.1);
    let perm = Seq::new(sv.len(), |k: int| sv[k].0.index as int);
    assert forall|k: int| 0 <= k < r.len() implies 0 <= #[trigger] perm[k] < orig.len() && r[k] == orig[perm[k]] by {
        assert(sv.contains(sv[k]));
        to_multiset_contains(sv, sv[k]);
        to_multiset_contains(before, sv[k]);
        let a = choose|a: int| 0 <= a < before.len() && before[a] == sv[k];
        assert(before[a].0.index == a);
    }
    assert forall|k: int, l: int| 0 <= k < l < r.len() implies #[trigger] perm[k] != #[trigger] perm[l] by {
        lemma_distinct_entries(sv, before, k, l);
        assert(r[k] == orig[perm[k]] && r[l] == orig[perm[l]]);
        if perm[k] == perm[l] {
            assert(sv.contains(sv[k]));
            to_multiset_contains(sv, sv[k]);
            to_multiset_contains(before, sv[k]);
            assert(sv.contains(sv[l]));
            to_multiset_contains(sv, sv[l]);
            to_multiset_contains(before, sv[l]);
            let a = choose|a: int| 0 <= a < before.len() && before[a] == sv[k];
            let b = choose|b: int| 0 <= b < before.len() && before[b] == sv[l];
            assert(before[a].0.index == a && before[b].0.index == b);
        }
    }
    assert forall|k: int, l: int| 0 <= k < l < r.len() && !cand_lt(#[trigger] r[k], #[trigger] r[l]) implies perm[k] < perm[l] by {
        assert(perm[k] != perm[l]);
        assert(sv.contains(sv[k]));
        to_multiset_contains(sv, sv[k]);
        to_multiset_contains(before, sv[k]);
        assert(sv.contains(sv[l]));
        to_multiset_contains(sv, sv[l]);
        to_multiset_contains(before, sv[l]);
        let a = choose|a: int| 0 <= a < before.len() && before[a] == sv[k];
        let b = choose|b: int| 0 <= b < before.len() && before[b] == sv[l];
        assert(key_of(sv[k].0, sv[k].1) && key_of(sv[l].0, sv[l].1));
        assert(!key_lt(sv[l].0, sv[k].0));
        crate::sorting::lemma_text_lt_total(sv[k].1.normalized_relative_path@, sv[l].1.normalized_relative_path@);
    }
}

/// The candidates in ranking order: a reordering of them in which no
/// candidate ranks before an earlier one.
pub fn rank_candidates(cands: Vec<ContextCandidate>) -> (r: Vec<ContextCandidate>)
    ensures
        r@.to_multiset() == cands@.to_multiset(),
        forall|i: int, j: int| 0 <= i < j < r@.len() ==> !cand_lt(#[trigger] r@[j], #[trigger] r@[i]),
        stably_ranked(r@, cands@),
{
    let ghost orig = cands@;
    let mut pairs: Vec<(SortKey, ContextCandidate)> = Vec::new();
    let mut input = cands;
    let mut i: usize = 0;
    let n = input.len();
    while input.len() > 0
        invariant
            n == orig.len(),
            i + input@.len() == n,
            input@ == orig.skip(i as int),
            pairs@.len() == i,
            pairs@.map_values(|p: (SortKey, ContextCandidate)| p.1) == orig.take(i as int),
            forall|k: int| 0 <= k < pairs@.len() ==> key_of((#[trigger] pairs@[k]).0, pairs@[k].1)
                && pairs@[k].0.index == k && pairs@[k].1 == orig[k],
        decreases input@.len(),
    {
        let c = input.remove(0);
        assert(c == orig[i as int]);
        let key = SortKey {
            a: selection_priority(c.selection_class) as u64,
            b: c.size_bytes,
            c: 0,
            text: chars_of(c.normalized_relative_path.as_str()),
            index: i as u64,
        };
        pairs.push((key, c));
        proof {
            assert(orig.take(i + 1) =~= orig.take(i as int).push(orig[i as int]));
            assert(input@ =~= orig.skip(i + 1));
        }
        i = i + 1;
        assert(pairs@.map_values(|p: (SortKey, ContextCandidate)| p.1) =~= orig.take(i as int));
    }
    assert(orig.take(i as int) =~= orig);
    let ghost before = pairs@;
    let sorted = sort_by_key(pairs);
    let mut out: Vec<ContextCandidate> = Vec::new();
    let mut rest = sorted;
    let ghost sv = rest@;
    let total = rest.len();
    let mut k: usize = 0;
    while rest.len() > 0
        invariant
            total == sv.len(),
            k + rest@.len() == total,
            rest@ == sv.skip(k as int),
            out@ == sv.take(k as int).map_values(|p: (SortKey, ContextCandidate)| p.1),
        decreases rest@.len(),
    {
        let p = rest.remove(0);
        assert(p == sv[k as int]);
        out.push(p.1);
        proof {
            assert(sv.take(k + 1) =~= sv.take(k as int).push(sv[k as int]));
            assert(rest@ =~= sv.skip(k + 1));
        }
        k = k + 1;
        assert(out@ =~= sv.take(k as int).map_values(|p: (SortKey, ContextCandidate)| p.1));
    }
    proof {
        assert(sv.take(k as int) =~= sv);
        lemma_multiset_map_values(sv, before, |p: (SortKey, ContextCandidate)| p.1);
        lemma_ranked(sv, before);
        assert forall|a: int, b: int| 0 <= a < b < out@.len() implies !cand_lt(#[trigger] out@[b], #[trigger] out@[a]) by {
            assert(out@[a] == sv[a].1 && out@[b] == sv[b].1);
        }
        lemma_stable(sv, before, orig);
        assert(stable_placement(out@, orig, Seq::new(sv.len(), |k: int| sv[k].0.index as int)));
    }
    out
}

/// The pack entry of a candidate read from `bytes` with `allowed` tokens
/// left: the whole file when it is small and fits, else its head.
pub open spec fn context_file_of(f: ContextFile, c: ContextCandidate, bytes: Seq<u8>, allowed: u64) -> bool {
    let eb = without_bom(bytes);
    let exact = c.selection_class == SelectionClass::FocusedFile;
    let limit: nat = if token_cap(exact) < allowed { token_cap(exact) } else { allowed as nat };
    &&& f.relative_path@ == c.normalized_relative_path@
    &&& opt_view(f.language) == opt_view(c.language)
    &&& f.size_bytes == c.size_bytes
    &&& f.group == c.selection_class.spec_group_kind()
    &&& f.selection_class == c.selection_class
    &&& f.excerpt.line_start == 1
    &&& if include_full_file(c.size_bytes as nat, eb.len(), exact, limit) {
        let content = join_lines(decoded_lines(eb));
        &&& f.excerpt.content@ == content
        &&& f.excerpt.line_end == decoded_lines(eb).len()
        &&& !f.truncated
        &&& f.estimated_tokens == tokens_for_bytes(if utf8_len(content) < u64::MAX { utf8_len(content) } else { u64::MAX as nat })
    } else {
        let (content, line_end, truncated) = head_from(decoded_lines(eb), line_cap(exact), byte_limit_for(limit), 0, Seq::empty(), 0);
        &&& f.excerpt.content@ == content
        &&& f.excerpt.line_end == line_end
        &&& f.truncated == truncated
        &&& f.estimated_tokens == tokens_for_bytes(utf8_len(content))
    }
}

proof fn lemma_tokens_monotone(a: nat, b: nat)
    requires
        a <= b,
    ensures
        tokens_for_bytes(a) <= tokens_for_bytes(b),
        tokens_for_bytes(b) >= 1,
{
    if a > 0 {
        assert((a + 3) / 4 <= (b + 3) / 4) by (nonlinear_arith)
            requires a <= b;
    }
    assert(b > 0 ==> (b + 3) / 4 >= 1);
}

/// An entry uses at most the tokens left for it, unless it shows the whole
/// file and its text grew past the file's bytes in decoding.
proof fn lemma_entry_within_allowance(f: ContextFile, c: ContextCandidate, bytes: Seq<u8>, allowed: u64)
    requires
        context_file_of(f, c, bytes, allowed),
        allowed > 0,
        f.truncated || utf8_len(f.excerpt.content@) <= without_bom(bytes).len(),
    ensures
        f.estimated_tokens <= allowed,
        f.estimated_tokens <= token_cap(c.selection_class == SelectionClass::FocusedFile),
{
    let eb = without_bom(bytes);
    let exact = c.selection_class == SelectionClass::FocusedFile;
    let limit: nat = if token_cap(exact) < allowed { token_cap(exact) } else { allowed as nat };
    if include_full_file(c.size_bytes as nat, eb.len(), exact, limit) {
        let u = utf8_len(f.excerpt.content@);
        let capped: nat = if u < u64::MAX { u } else { u64::MAX as nat };
        lemma_tokens_monotone(capped, eb.len());
    } else {
        let bl = byte_limit_for(limit);
        let (content, line_end, truncated) = head_from(decoded_lines(eb), line_cap(exact), bl, 0, Seq::empty(), 0);
        assert(utf8_len(Seq::<char>::empty()) == 0);
        lemma_head_fits(decoded_lines(eb), line_cap(exact), bl, 0, Seq::empty(), 0);
        let u = utf8_len(content);
        assert(u <= bl);
        assert(1 <= limit);
        if u > 0 {
            assert(div_ceil(u, 4) <= limit) by (nonlinear_arith)
                requires
                    u <= bl,
                    bl == (if limit * 4 > usize::MAX { usize::MAX as nat } else { limit * 4 }),
                    div_ceil(u, 4) == (u + 3) / 4,
            {
            }
        }
    }
}

/// A pack entry cut short never uses more tokens than were left for it,
/// nor more than the cap of its class.
pub proof fn law_truncated_entry_within_allowance(f: ContextFile, c: ContextCandidate, bytes: Seq<u8>, allowed: u64)
    requires
        context_file_of(f, c, bytes, allowed),
        allowed > 0,
        f.truncated,
    ensures
        f.estimated_tokens <= allowed,
        f.estimated_tokens <= token_cap(c.selection_class == SelectionClass::FocusedFile),
{
    lemma_entry_within_allowance(f, c, bytes, allowed);
}

/// The byte length of a string as a `u64`, saturating.
pub fn string_len_u64(s: &str) -> (r: u64)
    ensures
        r == (if utf8_len(s@) < u64::MAX { utf8_len(s@) } else { u64::MAX as nat }),
{
    let n = utf8_len_capped(s);
    if n < u64::MAX as u128 { n as u64 } else { u64::MAX }
}

/// The pack entry of a candidate, given the file's bytes and the tokens
/// still allowed.
pub fn build_context_file(c: &ContextCandidate, bytes: &[u8], allowed: u64) -> (r: ContextFile)
    ensures
        context_file_of(r, *c, bytes@, allowed),
{
    let excerpt_bytes = strip_utf8_bom(bytes);
    let exact = c.selection_class == SelectionClass::FocusedFile;
    let cap = excerpt_token_cap(exact);
    let limit = if cap < allowed { cap } else { allowed };
    let (excerpt, estimated_tokens, truncated) = if should_include_full_file(c.size_bytes, excerpt_bytes, exact, limit) {
        let excerpt = build_full_excerpt(excerpt_bytes);
        let tokens = estimate_tokens_from_bytes(string_len_u64(excerpt.content.as_str()));
        (excerpt, tokens, false)
    } else {
        build_head_excerpt(excerpt_bytes, excerpt_line_cap(exact), limit)
    };
    ContextFile {
        relative_path: c.normalized_relative_path.clone(),
        language: match &c.language {
            Some(l) => Some(l.clone()),
            None => None,
        },
        size_bytes: c.size_bytes,
        estimated_tokens,
        truncated,
        group: c.selection_class.group_kind(),
        selection_class: c.selection_class,
        excerpt,
    }
}

/// Whether the next candidate is read, given the tokens used so far and
/// whether a partial excerpt was taken: it is when budget remains, no
/// partial excerpt was taken, and the remainder is worth a partial excerpt
/// or holds the whole file. The result is the remainder.
pub open spec fn step_spec(excerpt_budget: u64, used: u64, partial: bool, c: ContextCandidate) -> Option<u64> {
    let remaining: u64 = if used < excerpt_budget { (excerpt_budget - used) as u64 } else { 0 };
    let exact = c.selection_class == SelectionClass::FocusedFile;
    if remaining == 0 || partial {
        None
    } else if remaining < div_ceil(token_cap(exact), 4) && tokens_for_bytes(c.size_bytes as nat) > remaining {
        None
    } else {
        Some(remaining)
    }
}

/// The state of a selection: the entries taken, the tokens they use, and
/// whether one of them was a partial excerpt cut by the budget.
pub struct SelectionState {
    pub files: Vec<ContextFile>,
    pub used_tokens: u64,
    pub used_partial_excerpt: bool,
}

/// Whether to read the next candidate; the tokens left for it when so.
pub fn selection_step(state: &SelectionState, budget: ContextBudget, c: &ContextCandidate) -> (r: Option<u64>)
    ensures
        r == step_spec(budget.excerpts, state.used_tokens, state.used_partial_excerpt, *c),
{
    let remaining = budget.excerpt_tokens().saturating_sub(state.used_tokens);
    if remaining == 0 {
        return None;
    }
    let exact = c.selection_class == SelectionClass::FocusedFile;
    if state.used_partial_excerpt {
        return None;
    }
    let full_file_tokens = estimate_tokens_from_bytes(c.size_bytes);
    if remaining < minimum_partial_excerpt_tokens(exact) && full_file_tokens > remaining {
        return None;
    }
    Some(remaining)
}

pub open spec fn sat_add(a: u64, b: u64) -> u64 {
    if a + b <= u64::MAX { (a + b) as u64 } else { u64::MAX }
}

/// The state after taking `f` for `c` with `remaining` tokens left.
pub open spec fn next_state(used: u64, partial: bool, c: ContextCandidate, f: ContextFile, remaining: u64) -> (u64, bool) {
    (sat_add(used, f.estimated_tokens), partial || (f.truncated && remaining < token_cap(c.selection_class == SelectionClass::FocusedFile)))
}

/// Takes a candidate read from `bytes` with `remaining` tokens left.
pub fn accept_candidate(state: &mut SelectionState, c: &ContextCandidate, bytes: &[u8], remaining: u64)
    ensures
        final(state).files@ == old(state).files@.push(final(state).files@.last()),
        context_file_of(final(state).files@.last(), *c, bytes@, remaining),
        (final(state).used_tokens, final(state).used_partial_excerpt) == next_state(
            old(state).used_tokens, old(state).used_partial_excerpt, *c, final(state).files@.last(), remaining),
{
    let exact = c.selection_class == SelectionClass::FocusedFile;
    let is_partial_budget = remaining < excerpt_token_cap(exact);
    let f = build_context_file(c, bytes, remaining);
    state.used_tokens = state.used_tokens.saturating_add(f.estimated_tokens);
    if f.truncated && is_partial_budget {
        state.used_partial_excerpt = true;
    }
    state.files.push(f);
}

/// The state a selection reaches after taking `files`, if each was taken as
/// the rules say: (taken as the rules say, tokens used, partial taken).
pub open spec fn sel_state(cands: Seq<ContextCandidate>, contents: Seq<Vec<u8>>, excerpt_budget: u64, files: Seq<ContextFile>) -> (bool, u64, bool)
    decreases files.len(),
{
    if files.len() == 0 {
        (true, 0, false)
    } else {
        let prev = sel_state(cands, contents, excerpt_budget, files.drop_last());
        let k = files.len() - 1;
        let c = cands[k];
        match step_spec(excerpt_budget, prev.1, prev.2, c) {
            None => (false, 0, false),
            Some(rem) => {
                let n = next_state(prev.1, prev.2, c, files.last(), rem);
                (prev.0 && k < cands.len() && context_file_of(files.last(), c, contents[k]@, rem), n.0, n.1)
            },
        }
    }
}

/// `files` is the selection of the ranked candidates: taken one by one
/// while the rules allow, stopping at the first that is not taken.
pub open spec fn selection_ok(cands: Seq<ContextCandidate>, contents: Seq<Vec<u8>>, excerpt_budget: u64, files: Seq<ContextFile>) -> bool {
    let s = sel_state(cands, contents, excerpt_budget, files);
    &&& s.0
    &&& files.len() <= cands.len()
    &&& (files.len() == cands.len() || step_spec(excerpt_budget, s.1, s.2, cands[files.len() as int]) is None)
}

proof fn lemma_sel_state_agree(
    cands: Seq<ContextCandidate>,
    a: Seq<Vec<u8>>,
    b: Seq<Vec<u8>>,
    excerpt_budget: u64,
    files: Seq<ContextFile>,
)
    requires
        forall|k: int| 0 <= k < files.len() ==> #[trigger] a[k] == b[k],
    ensures
        sel_state(cands, a, excerpt_budget, files) == sel_state(cands, b, excerpt_budget, files),
    decreases files.len(),
{
    if files.len() > 0 {
        lemma_sel_state_agree(cands, a, b, excerpt_budget, files.drop_last());
        assert(a[files.len() - 1] == b[files.len() - 1]);
    }
}

/// The first `n` reads gave the bytes in `contents`.
pub open spec fn read_as<E, F: Fn(&ContextCandidate) -> Result<Vec<u8>, E>>(
    cands: Seq<ContextCandidate>,
    read: F,
    n: nat,
    contents: Seq<Vec<u8>>,
) -> bool {
    forall|k: int| 0 <= k < n ==> read.ensures((&cands[k],), Ok::<Vec<u8>, E>(#[trigger] contents[k]))
}

/// No entry shown whole decodes to more bytes than its file holds (only
/// bytes that are not UTF-8 can make it grow).
pub open spec fn none_grew(files: Seq<ContextFile>, contents: Seq<Vec<u8>>) -> bool {
    forall|i: int| 0 <= i < files.len() ==> (#[trigger] files[i]).truncated
        || utf8_len(files[i].excerpt.content@) <= without_bom(contents[i]@).len()
}

/// `files` is the selection of the ranked candidates for some bytes of
/// their files that `read` gave for each candidate taken; unless an entry
/// shown whole grew when decoded, their token estimates add up to at most
/// the excerpt budget.
pub open spec fn selected_by_reading<E, F: Fn(&ContextCandidate) -> Result<Vec<u8>, E>>(
    cands: Seq<ContextCandidate>,
    excerpt_budget: u64,
    read: F,
    files: Seq<ContextFile>,
) -> bool {
    exists|contents: Seq<Vec<u8>>| {
        &&& contents.len() == cands.len()
        &&& #[trigger] selection_ok(cands, contents, excerpt_budget, files)
        &&& read_as(cands, read, files.len(), contents)
        &&& (none_grew(files, contents) ==> token_sum(files) <= excerpt_budget)
    }
}

/// `read` gave the error `e` for one of the candidates.
pub open spec fn failed_reading<E, F: Fn(&ContextCandidate) -> Result<Vec<u8>, E>>(cands: Seq<ContextCandidate>, read: F, e: E) -> bool {
    exists|k: int| 0 <= k < cands.len() && #[trigger] read.ensures((&cands[k],), Err::<Vec<u8>, E>(e))
}

/// Selects pack entries from the ranked candidates within the budget,
/// reading a candidate's file only when the rules take it;
/// the first failed read ends the selection with its error.
pub fn select_context_files_reading<E, F: Fn(&ContextCandidate) -> Result<Vec<u8>, E>>(
    cands: &Vec<ContextCandidate>,
    budget: ContextBudget,
    read: F,
) -> (r: Result<Vec<ContextFile>, E>)
    requires
        forall|i: int| 0 <= i < cands@.len() ==> read.requires((&cands@[i],)),
    ensures
        r matches Ok(files) ==> selected_by_reading(cands@, budget.excerpts, read, files@),
        r matches Err(e) ==> failed_reading(cands@, read, e),
{
    let mut state = SelectionState { files: Vec::new(), used_tokens: 0, used_partial_excerpt: false };
    let ghost mut read_so_far: Seq<Vec<u8>> = Seq::empty();
    let mut i: usize = 0;
    while i < cands.len()
        invariant
            i <= cands@.len(),
            forall|j: int| 0 <= j < cands@.len() ==> read.requires((&cands@[j],)),
            state.files@.len() == i,
            read_so_far.len() == i,
            sel_state(cands@, read_so_far, budget.excerpts, state.files@) == (true, state.used_tokens, state.used_partial_excerpt),
            forall|k: int| 0 <= k < i ==> read.ensures((&cands@[k],), Ok::<Vec<u8>, E>(#[trigger] read_so_far[k])),
        ensures
            i == cands@.len() || step_spec(budget.excerpts, state.used_tokens, state.used_partial_excerpt, cands@[i as int]) is None,
        decreases cands@.len() - i,
    {
        match selection_step(&state, budget, &cands[i]) {
            None => {
                break;
            },
            Some(remaining) => {
                let res = read(&cands[i]);
                let bytes = match res {
                    Ok(b) => b,
                    Err(e) => {
                        assert(read.ensures((&cands@[i as int],), Err::<Vec<u8>, E>(e)));
                        assert(failed_reading(cands@, read, e));
                        return Err(e);
                    },
                };
                let ghost before = state.files@;
                let ghost prev_read = read_so_far;
                accept_candidate(&mut state, &cands[i], bytes.as_slice(), remaining);
                proof {
                    read_so_far = read_so_far.push(bytes);
                    assert(state.files@.drop_last() =~= before);
                    lemma_sel_state_agree(cands@, read_so_far, prev_read, budget.excerpts, before);
                    assert forall|k: int| 0 <= k < i + 1 implies read.ensures((&cands@[k],), Ok::<Vec<u8>, E>(#[trigger] read_so_far[k])) by {
                        if k < i {
                            assert(read_so_far[k] == prev_read[k]);
                        }
                    }
                }
            },
        }
        i = i + 1;
    }
    let ghost contents = read_so_far + Seq::new((cands@.len() - read_so_far.len()) as nat, |k: int| vstd::pervasive::arbitrary::<Vec<u8>>());
    proof {
        lemma_sel_state_agree(cands@, contents, read_so_far, budget.excerpts, state.files@);
        assert forall|k: int| 0 <= k < state.files@.len() implies read.ensures((&cands@[k],), Ok::<Vec<u8>, E>(#[trigger] contents[k])) by {
            assert(contents[k] == read_so_far[k]);
        }
        assert(selection_ok(cands@, contents, budget.excerpts, state.files@));
        assert(read_as(cands@, read, state.files@.len(), contents));
        if none_grew(state.files@, contents) {
            law_pack_within_excerpt_budget(cands@, contents, budget.excerpts, state.files@);
        }
        assert(selected_by_reading(cands@, budget.excerpts, read, state.files@));
    }
    Ok(state.files)
}

/// `ranked` is `cands` in stable ranking order.
pub open spec fn ranked_from(ranked: Seq<ContextCandidate>, cands: Seq<ContextCandidate>) -> bool {
    &&& ranked.to_multiset() == cands.to_multiset()
    &&& forall|i: int, j: int| 0 <= i < j < ranked.len() ==> !cand_lt(#[trigger] ranked[j], #[trigger] ranked[i])
    &&& stably_ranked(ranked, cands)
}

/// Ranks the candidates and selects pack entries from them within the
/// budget, reading a candidate's file only when the rules take it. The
/// entries come in ranking order, at most one per candidate, and unless an
/// entry shown whole grew when decoded their token estimates fit the
/// excerpt budget.
pub fn select_ranked_files<E, F: Fn(&ContextCandidate) -> Result<Vec<u8>, E>>(
    cands: Vec<ContextCandidate>,
    budget: ContextBudget,
    read: F,
) -> (r: Result<Vec<ContextFile>, E>)
    requires
        forall|c: ContextCandidate| read.requires((&c,)),
    ensures
        r matches Ok(files) ==> exists|ranked: Seq<ContextCandidate>| #[trigger] ranked_from(ranked, cands@)
            && selected_by_reading(ranked, budget.excerpts, read, files@),
        r matches Err(e) ==> exists|ranked: Seq<ContextCandidate>| #[trigger] ranked_from(ranked, cands@)
            && failed_reading(ranked, read, e),
        r matches Ok(files) ==> files@.len() <= cands@.len()
            && forall|i: int, j: int| 0 <= i < j < files@.len() ==> !entry_lt(#[trigger] files@[j], #[trigger] files@[i]),
{
    let ghost original = cands@;
    let ranked = rank_candidates(cands);
    proof {
        assert(ranked_from(ranked@, original));
        ranked@.to_multiset_ensures();
        original.to_multiset_ensures();
    }
    let r = select_context_files_reading(&ranked, budget, read);
    proof {
        if r is Ok {
            let files = r->Ok_0;
            let contents = choose|contents: Seq<Vec<u8>>| {
                &&& contents.len() == ranked@.len()
                &&& #[trigger] selection_ok(ranked@, contents, budget.excerpts, files@)
                &&& read_as(ranked@, read, files@.len(), contents)
            };
            law_selection_follows_ranking(ranked@, contents, budget.excerpts, files@);
        }
    }
    r
}

/// The order groups are listed in.
pub open spec fn group_order() -> Seq<ContextGroupKind> {
    seq![
        ContextGroupKind::Focus,
        ContextGroupKind::Changes,
        ContextGroupKind::Entrypoints,
        ContextGroupKind::Testing,
        ContextGroupKind::ProjectMetadata,
        ContextGroupKind::Workflows,
        ContextGroupKind::General,
    ]
}

/// The order groups are listed in.
pub fn group_order_list() -> (r: Vec<ContextGroupKind>)
    ensures
        r@ == group_order(),
{
    let r = vec![
        ContextGroupKind::Focus,
        ContextGroupKind::Changes,
        ContextGroupKind::Entrypoints,
        ContextGroupKind::Testing,
        ContextGroupKind::ProjectMetadata,
        ContextGroupKind::Workflows,
        ContextGroupKind::General,
    ];
    assert(r@ =~= group_order());
    r
}

/// The files of a group.
pub open spec fn in_group(files: Seq<ContextFile>, g: ContextGroupKind) -> Seq<ContextFile> {
    files.filter(|f: ContextFile| f.group == g)
}

/// The sum of the token estimates, saturating.
pub open spec fn token_sum(files: Seq<ContextFile>) -> u64
    decreases files.len(),
{
    if files.len() == 0 { 0 } else { sat_add(token_sum(files.drop_last()), files.last().estimated_tokens) }
}

proof fn lemma_selection_tokens(cands: Seq<ContextCandidate>, contents: Seq<Vec<u8>>, excerpt_budget: u64, files: Seq<ContextFile>)
    requires
        sel_state(cands, contents, excerpt_budget, files).0,
        forall|i: int| 0 <= i < files.len() ==> (#[trigger] files[i]).truncated
            || utf8_len(files[i].excerpt.content@) <= without_bom(contents[i]@).len(),
    ensures
        token_sum(files) == sel_state(cands, contents, excerpt_budget, files).1,
        sel_state(cands, contents, excerpt_budget, files).1 <= excerpt_budget,
    decreases files.len(),
{
    if files.len() > 0 {
        let rest = files.drop_last();
        assert forall|i: int| 0 <= i < rest.len() implies (#[trigger] rest[i]).truncated
            || utf8_len(rest[i].excerpt.content@) <= without_bom(contents[i]@).len() by {
            assert(rest[i] == files[i]);
        }
        lemma_selection_tokens(cands, contents, excerpt_budget, rest);
        let prev = sel_state(cands, contents, excerpt_budget, rest);
        let k = files.len() - 1;
        let rem = step_spec(excerpt_budget, prev.1, prev.2, cands[k])->0;
        assert(files[k] == files.last());
        lemma_entry_within_allowance(files.last(), cands[k], contents[k]@, rem);
    }
}

/// The excerpts of a pack fit in its excerpt budget, as long as no entry
/// shown whole grew past its file's bytes when decoded (only bytes that are
/// not UTF-8 can make it grow).
pub proof fn law_pack_within_excerpt_budget(
    cands: Seq<ContextCandidate>,
    contents: Seq<Vec<u8>>,
    excerpt_budget: u64,
    files: Seq<ContextFile>,
)
    requires
        selection_ok(cands, contents, excerpt_budget, files),
        forall|i: int| 0 <= i < files.len() ==> (#[trigger] files[i]).truncated
            || utf8_len(files[i].excerpt.content@) <= without_bom(contents[i]@).len(),
    ensures
        token_sum(files) <= excerpt_budget,
{
    lemma_selection_tokens(cands, contents, excerpt_budget, files);
}

/// Entry `f` was taken for candidate `c`: same path, class, size, and the
/// class's group.
pub open spec fn entry_of(f: ContextFile, c: ContextCandidate) -> bool {
    &&& f.relative_path@ == c.normalized_relative_path@
    &&& f.selection_class == c.selection_class
    &&& f.size_bytes == c.size_bytes
    &&& f.group == c.selection_class.spec_group_kind()
}

/// Entry `x` ranks before entry `y`: by class priority, then size, then path.
pub open spec fn entry_lt(x: ContextFile, y: ContextFile) -> bool {
    if priority(x.selection_class) != priority(y.selection_class) {
        priority(x.selection_class) < priority(y.selection_class)
    } else if x.size_bytes != y.size_bytes {
        x.size_bytes < y.size_bytes
    } else {
        text_lt(x.relative_path@, y.relative_path@)
    }
}

proof fn lemma_selection_entries(cands: Seq<ContextCandidate>, contents: Seq<Vec<u8>>, excerpt_budget: u64, files: Seq<ContextFile>)
    requires
        sel_state(cands, contents, excerpt_budget, files).0,
    ensures
        files.len() <= cands.len(),
        forall|k: int| 0 <= k < files.len() ==> entry_of(#[trigger] files[k], cands[k]),
    decreases files.len(),
{
    if files.len() > 0 {
        let prev = sel_state(cands, contents, excerpt_budget, files.drop_last());
        lemma_selection_entries(cands, contents, excerpt_budget, files.drop_last());
        let k = files.len() - 1;
        assert forall|j: int| 0 <= j < files.len() implies entry_of(#[trigger] files[j], cands[j]) by {
            if j < k {
                assert(files[j] == files.drop_last()[j]);
            }
        }
    }
}

/// A selection takes a prefix of the ranked candidates, one entry per
/// candidate in rank order: so no entry ranks before an earlier one, there
/// are no more entries than candidates, and when the candidates' paths are
/// distinct, so are the entries' paths.
pub proof fn law_selection_follows_ranking(
    cands: Seq<ContextCandidate>,
    contents: Seq<Vec<u8>>,
    excerpt_budget: u64,
    files: Seq<ContextFile>,
)
    requires
        selection_ok(cands, contents, excerpt_budget, files),
        forall|i: int, j: int| 0 <= i < j < cands.len() ==> !cand_lt(#[trigger] cands[j], #[trigger] cands[i]),
    ensures
        files.len() <= cands.len(),
        forall|k: int| 0 <= k < files.len() ==> entry_of(#[trigger] files[k], cands[k]),
        forall|i: int, j: int| 0 <= i < j < files.len() ==> !entry_lt(#[trigger] files[j], #[trigger] files[i]),
        (forall|i: int, j: int| 0 <= i < j < cands.len() ==> (#[trigger] cands[i]).normalized_relative_path@
            != (#[trigger] cands[j]).normalized_relative_path@)
            ==> forall|i: int, j: int| 0 <= i < j < files.len() ==> (#[trigger] files[i]).relative_path@
                != (#[trigger] files[j]).relative_path@,
{
    lemma_selection_entries(cands, contents, excerpt_budget, files);
    assert forall|i: int, j: int| 0 <= i < j < files.len() implies !entry_lt(#[trigger] files[j], #[trigger] files[i]) by {
        assert(entry_of(files[i], cands[i]) && entry_of(files[j], cands[j]));
        assert(!cand_lt(cands[j], cands[i]));
    }
    if forall|i: int, j: int| 0 <= i < j < cands.len() ==> (#[trigger] cands[i]).normalized_relative_path@
        != (#[trigger] cands[j]).normalized_relative_path@ {
        assert forall|i: int, j: int| 0 <= i < j < files.len() implies (#[trigger] files[i]).relative_path@
            != (#[trigger] files[j]).relative_path@ by {
            assert(entry_of(files[i], cands[i]) && entry_of(files[j], cands[j]));
        }
    }
}

/// The summary of one group: its kind, label, number of files, tokens and
/// truncated files.
pub open spec fn group_summary_of(s: ContextGroupSummary, files: Seq<ContextFile>, g: ContextGroupKind) -> bool {
    let gf = in_group(files, g);
    &&& s.group == g
    &&& s.label@ == g.spec_label()
    &&& s.files == gf.len()
    &&& s.estimated_tokens == token_sum(gf)
    &&& s.truncated_files == gf.filter(|f: ContextFile| f.truncated).len()
}

/// The summaries of the groups `order[0..n]` that have files, in order.
pub open spec fn summaries_upto(files: Seq<ContextFile>, n: int, sums: Seq<ContextGroupSummary>) -> bool
    decreases n,
{
    if n <= 0 {
        sums.len() == 0
    } else {
        let g = group_order()[n - 1];
        if in_group(files, g).len() > 0 {
            sums.len() > 0 && group_summary_of(sums.last(), files, g) && summaries_upto(files, n - 1, sums.drop_last())
        } else {
            summaries_upto(files, n - 1, sums)
        }
    }
}

fn summarize_group(files: &Vec<ContextFile>, g: ContextGroupKind) -> (r: (usize, u64, u64))
    ensures
        r.0 == in_group(files@, g).len(),
        r.1 == token_sum(in_group(files@, g)),
        r.2 == in_group(files@, g).filter(|f: ContextFile| f.truncated).len(),
{
    let ghost p = |f: ContextFile| f.group == g;
    let ghost q = |f: ContextFile| f.truncated;
    let mut count: usize = 0;
    let mut tokens: u64 = 0;
    let mut truncated: u64 = 0;
    let mut i: usize = 0;
    while i < files.len()
        invariant
            i <= files@.len(),
            p == (|f: ContextFile| f.group == g),
            q == (|f: ContextFile| f.truncated),
            count == files@.take(i as int).filter(p).len(),
            tokens == token_sum(files@.take(i as int).filter(p)),
            truncated == files@.take(i as int).filter(p).filter(q).len(),
            count <= i,
            truncated <= count,
        decreases files@.len() - i,
    {
        proof {
            reveal(Seq::filter);
            let t = files@.take(i + 1);
            assert(t.drop_last() =~= files@.take(i as int));
            assert(t.filter(p) == (if p(t.last()) { t.drop_last().filter(p).push(t.last()) } else { t.drop_last().filter(p) }));
            if p(t.last()) {
                let fp = t.drop_last().filter(p).push(t.last());
                assert(fp.drop_last() =~= t.drop_last().filter(p));
                assert(fp.filter(q) == (if q(fp.last()) { fp.drop_last().filter(q).push(fp.last()) } else { fp.drop_last().filter(q) }));
            }
        }
        let f = &files[i];
        if f.group == g {
            count = count + 1;
            tokens = tokens.saturating_add(f.estimated_tokens);
            if f.truncated {
                truncated = truncated + 1;
            }
        }
        i = i + 1;
    }
    assert(files@.take(i as int) =~= files@);
    (count, tokens, truncated)
}

/// The summaries of the groups that have files, in group order.
pub fn summarize_groups(files: &Vec<ContextFile>) -> (r: Vec<ContextGroupSummary>)
    ensures
        summaries_upto(files@, group_order().len() as int, r@),
{
    let order = group_order_list();
    let mut out: Vec<ContextGroupSummary> = Vec::new();
    let mut k: usize = 0;
    while k < order.len()
        invariant
            k <= order@.len(),
            order@ == group_order(),
            summaries_upto(files@, k as int, out@),
        decreases order@.len() - k,
    {
        let g = order[k];
        let (count, tokens, truncated) = summarize_group(files, g);
        if count > 0 {
            let ghost before = out@;
            out.push(ContextGroupSummary {
                group: g,
                label: g.label(),
                files: count as u64,
                estimated_tokens: tokens,
                truncated_files: truncated,
            });
            assert(out@.drop_last() =~= before);
        }
        k = k + 1;
    }
    out
}

/// The number of files whose path is among the changed paths.
pub fn count_selected_changed_files(files: &Vec<ContextFile>, diff: &Vec<String>) -> (r: u64)
    ensures
        r == files@.filter(|f: ContextFile| views(diff@).contains(f.relative_path@)).len(),
{
    let ghost p = |f: ContextFile| views(diff@).contains(f.relative_path@);
    let mut n: u64 = 0;
    let mut i: usize = 0;
    while i < files.len()
        invariant
            i <= files@.len(),
            p == (|f: ContextFile| views(diff@).contains(f.relative_path@)),
            n == files@.take(i as int).filter(p).len(),
            n <= i,
        decreases files@.len() - i,
    {
        proof {
            reveal(Seq::filter);
            let t = files@.take(i + 1);
            assert(t.drop_last() =~= files@.take(i as int));
            assert(t.filter(p) == (if p(t.last()) { t.drop_last().filter(p).push(t.last()) } else { t.drop_last().filter(p) }));
        }
        if contains_string(diff, files[i].relative_path.as_str()) {
            n = n + 1;
        }
        i = i + 1;
    }
    assert(files@.take(i as int) =~= files@);
    n
}

} // verus!
