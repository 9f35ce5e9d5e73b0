//! Trimming, searching and slicing strings by characters, as `str`'s
//! `trim`, `trim_matches`, `find` and `contains` do.
use vstd::prelude::*;
use vstd::string::*;
use crate::text::{chars_match_at, chars_of, seq_ends_with, seq_starts_with, string_from_chars};

verus! {

/// The characters `char::is_whitespace` accepts (Unicode `White_Space`).
pub open spec fn is_ws(c: char) -> bool {
    let u = c as u32;
    (0x9 <= u && u <= 0xD) || u == 0x20 || u == 0x85 || u == 0xA0 || u == 0x1680
        || (0x2000 <= u && u <= 0x200A) || u == 0x2028 || u == 0x2029 || u == 0x202F
        || u == 0x205F || u == 0x3000
}

pub fn is_whitespace_char(c: char) -> (r: bool)
    ensures
        r == is_ws(c),
{
    let u = c as u32;
    (0x9 <= u && u <= 0xD) || u == 0x20 || u == 0x85 || u == 0xA0 || u == 0x1680
        || (0x2000 <= u && u <= 0x200A) || u == 0x2028 || u == 0x2029 || u == 0x202F
        || u == 0x205F || u == 0x3000
}

/// Number of leading characters of `s` in the class `keep`.
pub open spec fn lead_len(s: Seq<char>, keep: spec_fn(char) -> bool) -> nat
    decreases s.len(),
{
    if s.len() > 0 && keep(s[0]) {
        1 + lead_len(s.drop_first(), keep)
    } else {
        0
    }
}

/// Number of trailing characters of `s` in the class `keep`.
pub open spec fn trail_len(s: Seq<char>, keep: spec_fn(char) -> bool) -> nat
    decreases s.len(),
{
    if s.len() > 0 && keep(s.last()) {
        1 + trail_len(s.drop_last(), keep)
    } else {
        0
    }
}

pub proof fn lemma_lead_len(s: Seq<char>, keep: spec_fn(char) -> bool)
    ensures
        lead_len(s, keep) <= s.len(),
    decreases s.len(),
{
    if s.len() > 0 && keep(s[0]) {
        lemma_lead_len(s.drop_first(), keep);
    }
}

pub proof fn lemma_trail_len(s: Seq<char>, keep: spec_fn(char) -> bool)
    ensures
        trail_len(s, keep) <= s.len(),
    decreases s.len(),
{
    if s.len() > 0 && keep(s.last()) {
        lemma_trail_len(s.drop_last(), keep);
    }
}

/// `s` without leading characters of the class.
pub open spec fn trim_start_by(s: Seq<char>, keep: spec_fn(char) -> bool) -> Seq<char> {
    s.skip(lead_len(s, keep) as int)
}

/// `s` without trailing characters of the class.
pub open spec fn trim_end_by(s: Seq<char>, keep: spec_fn(char) -> bool) -> Seq<char> {
    s.take(s.len() - trail_len(s, keep))
}

/// `s` without leading and trailing characters of the class.
pub open spec fn trim_by(s: Seq<char>, keep: spec_fn(char) -> bool) -> Seq<char> {
    trim_end_by(trim_start_by(s, keep), keep)
}

pub open spec fn ws_class() -> spec_fn(char) -> bool {
    |c: char| is_ws(c)
}

/// `str::trim`.
pub open spec fn trim_spec(s: Seq<char>) -> Seq<char> {
    trim_by(s, ws_class())
}

/// `str::trim_end`.
pub open spec fn trim_end_spec(s: Seq<char>) -> Seq<char> {
    trim_end_by(s, ws_class())
}

/// The class holding exactly the characters of `set`.
pub open spec fn char_class(set: Seq<char>) -> spec_fn(char) -> bool {
    |c: char| set.contains(c)
}

fn in_chars(set: &Vec<char>, c: char) -> (r: bool)
    ensures
        r == set@.contains(c),
{
    let mut i: usize = 0;
    while i < set.len()
        invariant
            i <= set@.len(),
            forall|j: int| 0 <= j < i ==> set@[j] != c,
        decreases set@.len() - i,
    {
        if set[i] == c {
            return true;
        }
        i = i + 1;
    }
    false
}

/// Which class a trim removes: whitespace, or the characters of a set.
pub enum TrimClass {
    Whitespace,
    Chars(Vec<char>),
}

pub open spec fn class_of(t: TrimClass) -> spec_fn(char) -> bool {
    match t {
        TrimClass::Whitespace => ws_class(),
        TrimClass::Chars(v) => char_class(v@),
    }
}

fn in_class(t: &TrimClass, c: char) -> (r: bool)
    ensures
        r == (class_of(*t))(c),
{
    match t {
        TrimClass::Whitespace => is_whitespace_char(c),
        TrimClass::Chars(v) => in_chars(v, c),
    }
}

/// `s` with the leading and trailing characters of `class` removed, as
/// selected by `start` and `end`.
pub fn trim_class(s: &str, class: &TrimClass, start: bool, end: bool) -> (r: String)
    ensures
        r@ == {
            let a = if start { trim_start_by(s@, class_of(*class)) } else { s@ };
            if end { trim_end_by(a, class_of(*class)) } else { a }
        },
{
    let ghost k = class_of(*class);
    let v = chars_of(s);
    let mut lo: usize = 0;
    if start {
        assert(v@.skip(0) =~= v@);
        while lo < v.len() && in_class(class, v[lo])
            invariant
                lo <= v@.len(),
                k == class_of(*class),
                lead_len(v@, k) == lo + lead_len(v@.skip(lo as int), k),
            decreases v@.len() - lo,
        {
            assert(v@.skip(lo as int).drop_first() =~= v@.skip(lo + 1));
            lo = lo + 1;
        }
    }
    let ghost a = if start { trim_start_by(s@, k) } else { s@ };
    assert(a =~= v@.skip(lo as int));
    let mut hi: usize = v.len();
    if end {
        assert(a.take(a.len() as int) =~= a);
        while hi > lo && in_class(class, v[hi - 1])
            invariant
                lo <= hi <= v@.len(),
                k == class_of(*class),
                a == v@.skip(lo as int),
                trail_len(a, k) == (v@.len() - hi) + trail_len(a.take(hi - lo), k),
            decreases hi,
        {
            assert(a.take(hi - lo).drop_last() =~= a.take(hi - 1 - lo));
            assert(a.take(hi - lo).last() == v@[hi - 1]);
            hi = hi - 1;
        }
        proof { lemma_trail_len(a, k); }
    }
    let r = string_from_chars(&v, lo, hi);
    proof {
        if end {
            assert(r@ =~= trim_end_by(a, k));
        } else {
            assert(r@ =~= a);
        }
    }
    r
}

/// `str::trim`.
pub fn trim(s: &str) -> (r: String)
    ensures
        r@ == trim_spec(s@),
{
    trim_class(s, &TrimClass::Whitespace, true, true)
}

/// `str::trim_end`.
pub fn trim_end(s: &str) -> (r: String)
    ensures
        r@ == trim_end_spec(s@),
{
    trim_class(s, &TrimClass::Whitespace, false, true)
}

/// `s` trimmed at both ends of the characters in `set`.
pub fn trim_chars(s: &str, set: Vec<char>, start: bool, end: bool) -> (r: String)
    ensures
        r@ == {
            let a = if start { trim_start_by(s@, char_class(set@)) } else { s@ };
            if end { trim_end_by(a, char_class(set@)) } else { a }
        },
{
    let c = TrimClass::Chars(set);
    trim_class(s, &c, start, end)
}

/// The set holding `a`.
pub fn chars1(a: char) -> (r: Vec<char>)
    ensures
        r@ == seq![a],
{
    let mut r: Vec<char> = Vec::new();
    r.push(a);
    assert(r@ =~= seq![a]);
    r
}

/// The set holding `a` and `b`.
pub fn chars2(a: char, b: char) -> (r: Vec<char>)
    ensures
        r@ == seq![a, b],
{
    let mut r: Vec<char> = Vec::new();
    r.push(a);
    r.push(b);
    assert(r@ =~= seq![a, b]);
    r
}

/// The set holding `a`, `b` and `c`.
pub fn chars3(a: char, b: char, c: char) -> (r: Vec<char>)
    ensures
        r@ == seq![a, b, c],
{
    let mut r: Vec<char> = Vec::new();
    r.push(a);
    r.push(b);
    r.push(c);
    assert(r@ =~= seq![a, b, c]);
    r
}

/// `s` with every trailing repetition of `pat` removed
/// (`str::trim_end_matches` with a string pattern).
pub open spec fn trim_end_pat_spec(s: Seq<char>, pat: Seq<char>) -> Seq<char>
    decreases s.len(),
{
    if pat.len() > 0 && seq_ends_with(s, pat) {
        trim_end_pat_spec(s.take(s.len() - pat.len()), pat)
    } else {
        s
    }
}

pub fn trim_end_pat(s: &str, pat: &str) -> (r: String)
    ensures
        r@ == trim_end_pat_spec(s@, pat@),
{
    let v = chars_of(s);
    let p = chars_of(pat);
    let mut hi: usize = v.len();
    assert(v@.take(hi as int) =~= v@);
    while p.len() > 0 && p.len() <= hi && chars_match_at(&v, hi - p.len(), &p)
        invariant
            hi <= v@.len(),
            p@ == pat@,
            trim_end_pat_spec(v@.take(hi as int), pat@) == trim_end_pat_spec(s@, pat@),
            v@ == s@,
        decreases hi,
    {
        proof {
            let t = v@.take(hi as int);
            assert(t.skip(t.len() - p@.len()) =~= v@.subrange(hi - p@.len(), hi as int));
            assert(t.take(t.len() - p@.len()) =~= v@.take(hi - p@.len()));
        }
        hi = hi - p.len();
    }
    proof {
        let t = v@.take(hi as int);
        if p@.len() > 0 && p@.len() <= t.len() {
            assert(t.skip(t.len() - p@.len()) =~= v@.subrange(hi - p@.len(), hi as int));
        }
    }
    let r = string_from_chars(&v, 0, hi);
    assert(r@ =~= v@.take(hi as int));
    r
}

/// `s` with every leading repetition of `pat` removed
/// (`str::trim_start_matches` with a string pattern).
pub open spec fn trim_start_pat_spec(s: Seq<char>, pat: Seq<char>) -> Seq<char>
    decreases s.len(),
{
    if pat.len() > 0 && seq_starts_with(s, pat) {
        trim_start_pat_spec(s.skip(pat.len() as int), pat)
    } else {
        s
    }
}

pub fn trim_start_pat(s: &str, pat: &str) -> (r: String)
    ensures
        r@ == trim_start_pat_spec(s@, pat@),
{
    let v = chars_of(s);
    let p = chars_of(pat);
    let mut lo: usize = 0;
    assert(v@.skip(0) =~= v@);
    while p.len() > 0 && chars_match_at(&v, lo, &p)
        invariant
            lo <= v@.len(),
            p@ == pat@,
            trim_start_pat_spec(v@.skip(lo as int), pat@) == trim_start_pat_spec(s@, pat@),
            v@ == s@,
        decreases v@.len() - lo,
    {
        proof {
            let t = v@.skip(lo as int);
            assert(t.take(p@.len() as int) =~= v@.subrange(lo as int, lo + p@.len()));
            assert(t.skip(p@.len() as int) =~= v@.skip(lo + p@.len()));
        }
        let plen = p.len();
        let vlen = v.len();
        assert(lo + plen <= vlen);
        lo = lo + plen;
    }
    proof {
        let t = v@.skip(lo as int);
        if p@.len() > 0 && p@.len() <= t.len() {
            assert(t.take(p@.len() as int) =~= v@.subrange(lo as int, lo + p@.len()));
        }
    }
    let r = string_from_chars(&v, lo, v.len());
    assert(r@ =~= v@.skip(lo as int));
    r
}

/// Index of the first `pat` in `s` at or after `from`, or -1.
pub open spec fn find_from(s: Seq<char>, pat: Seq<char>, from: int) -> int
    decreases s.len() + 1 - from,
{
    if from < 0 || from + pat.len() > s.len() {
        -1
    } else if s.subrange(from, from + pat.len()) == pat {
        from
    } else {
        find_from(s, pat, from + 1)
    }
}

/// Index of the first `pat` in `s`, or -1.
pub open spec fn find_spec(s: Seq<char>, pat: Seq<char>) -> int {
    find_from(s, pat, 0)
}

pub proof fn lemma_find_from(s: Seq<char>, pat: Seq<char>, from: int)
    requires
        0 <= from,
    ensures
        find_from(s, pat, from) == -1 || (from <= find_from(s, pat, from) && find_from(s, pat, from) + pat.len() <= s.len()),
    decreases s.len() + 1 - from,
{
    if from + pat.len() <= s.len() && s.subrange(from, from + pat.len()) != pat {
        lemma_find_from(s, pat, from + 1);
    }
}

/// Character index of the first `pat` in `v`.
pub fn find_chars(v: &Vec<char>, pat: &Vec<char>) -> (r: Option<usize>)
    ensures
        match r {
            Some(i) => i == find_spec(v@, pat@) && i + pat@.len() <= v@.len(),
            None => find_spec(v@, pat@) == -1,
        },
{
    if pat.len() == 0 {
        assert(v@.subrange(0, 0) =~= pat@);
        return Some(0);
    }
    if pat.len() > v.len() {
        return None;
    }
    let mut i: usize = 0;
    while i <= v.len() - pat.len()
        invariant
            pat@.len() > 0,
            pat@.len() <= v@.len(),
            i <= v@.len() - pat@.len() + 1,
            find_from(v@, pat@, i as int) == find_spec(v@, pat@),
        decreases v@.len() + 1 - i,
    {
        if chars_match_at(v, i, pat) {
            return Some(i);
        }
        i = i + 1;
    }
    None
}

/// Whether `pat` occurs in `s`.
pub fn contains_str(s: &str, pat: &str) -> (r: bool)
    ensures
        r == (find_spec(s@, pat@) != -1),
{
    let v = chars_of(s);
    let p = chars_of(pat);
    find_chars(&v, &p).is_some()
}

/// The characters of `s` from `from` to `to`.
pub fn substring(s: &str, from: usize, to: usize) -> (r: String)
    requires
        from <= to <= s@.len(),
    ensures
        r@ == s@.subrange(from as int, to as int),
{
    let v = chars_of(s);
    string_from_chars(&v, from, to)
}

} // verus!
