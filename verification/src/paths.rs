//! Operations on '/'-separated relative paths held as strings: prefix and
//! suffix stripping, splitting at the last separator, replacing, joining.
use vstd::prelude::*;
use vstd::string::*;
use crate::text::{chars_match_at, chars_of, ends_with, push_char, seq_ends_with, seq_starts_with, starts_with, str_eq, string_from_chars};

verus! {

/// `s` without its leading `p`, when it starts with `p`.
pub open spec fn strip_prefix_spec(s: Seq<char>, p: Seq<char>) -> Option<Seq<char>> {
    if seq_starts_with(s, p) {
        Some(s.skip(p.len() as int))
    } else {
        None
    }
}

/// `s` without its trailing `p`, when it ends with `p`.
pub open spec fn strip_suffix_spec(s: Seq<char>, p: Seq<char>) -> Option<Seq<char>> {
    if seq_ends_with(s, p) {
        Some(s.take(s.len() - p.len()))
    } else {
        None
    }
}

/// Index of the last `c` in `s`, or -1.
pub open spec fn last_index_of(s: Seq<char>, c: char) -> int
    decreases s.len(),
{
    if s.len() == 0 {
        -1
    } else if s.last() == c {
        s.len() - 1
    } else {
        last_index_of(s.drop_last(), c)
    }
}

pub proof fn lemma_last_index_of(s: Seq<char>, c: char)
    ensures
        -1 <= last_index_of(s, c) < s.len(),
        last_index_of(s, c) >= 0 ==> s[last_index_of(s, c)] == c,
        forall|j: int| last_index_of(s, c) < j < s.len() ==> s[j] != c,
    decreases s.len(),
{
    if s.len() > 0 && s.last() != c {
        lemma_last_index_of(s.drop_last(), c);
        assert forall|j: int| last_index_of(s, c) < j < s.len() implies s[j] != c by {
            if j < s.len() - 1 {
                assert(s.drop_last()[j] == s[j]);
            }
        }
    }
}

/// `s` split at its last `c`: the part before and the part after.
pub open spec fn rsplit_once_spec(s: Seq<char>, c: char) -> Option<(Seq<char>, Seq<char>)> {
    let i = last_index_of(s, c);
    if i < 0 {
        None
    } else {
        Some((s.take(i), s.skip(i + 1)))
    }
}

/// The part of `s` before its last `c`, or the empty text when it has none.
pub open spec fn parent_of(s: Seq<char>, c: char) -> Seq<char> {
    match rsplit_once_spec(s, c) {
        Some(p) => p.0,
        None => Seq::empty(),
    }
}

/// The part of `s` after its last `c`, or `s` itself when it has none.
pub open spec fn last_segment(s: Seq<char>, c: char) -> Seq<char> {
    match rsplit_once_spec(s, c) {
        Some(p) => p.1,
        None => s,
    }
}

/// `s` with every occurrence of `pat`, scanned from the left, replaced by `rep`.
pub open spec fn replace_seq(s: Seq<char>, pat: Seq<char>, rep: Seq<char>) -> Seq<char>
    decreases s.len(),
{
    if s.len() == 0 {
        s
    } else if pat.len() > 0 && seq_starts_with(s, pat) {
        rep + replace_seq(s.skip(pat.len() as int), pat, rep)
    } else {
        seq![s[0]] + replace_seq(s.skip(1), pat, rep)
    }
}

/// `s` with every character `from` turned into `to`.
pub open spec fn replace_char_spec(s: Seq<char>, from: char, to: char) -> Seq<char> {
    s.map_values(|x: char| if x == from { to } else { x })
}

/// `parts` joined with `sep` between consecutive pieces.
pub open spec fn join_seq(parts: Seq<Seq<char>>, sep: Seq<char>) -> Seq<char>
    decreases parts.len(),
{
    if parts.len() == 0 {
        Seq::empty()
    } else if parts.len() == 1 {
        parts[0]
    } else {
        join_seq(parts.drop_last(), sep) + sep + parts.last()
    }
}

/// The views of a vector of strings.
pub open spec fn views(v: Seq<String>) -> Seq<Seq<char>> {
    v.map_values(|x: String| x@)
}

/// `s` without its leading `p`, when it starts with `p`.
pub fn strip_prefix(s: &str, p: &str) -> (r: Option<String>)
    ensures
        match r {
            Some(t) => strip_prefix_spec(s@, p@) == Some(t@),
            None => strip_prefix_spec(s@, p@).is_none(),
        },
{
    if starts_with(s, p) {
        let chars = chars_of(s);
        let n = chars_of(p).len();
        let t = string_from_chars(&chars, n, chars.len());
        assert(t@ =~= s@.skip(p@.len() as int));
        Some(t)
    } else {
        None
    }
}

/// `s` without its trailing `p`, when it ends with `p`.
pub fn strip_suffix(s: &str, p: &str) -> (r: Option<String>)
    ensures
        match r {
            Some(t) => strip_suffix_spec(s@, p@) == Some(t@),
            None => strip_suffix_spec(s@, p@).is_none(),
        },
{
    if ends_with(s, p) {
        let chars = chars_of(s);
        let n = chars_of(p).len();
        let t = string_from_chars(&chars, 0, chars.len() - n);
        assert(t@ =~= s@.take(s@.len() - p@.len()));
        Some(t)
    } else {
        None
    }
}

/// Position of the last `c` in `v`.
pub fn rfind_char(v: &Vec<char>, c: char) -> (r: Option<usize>)
    ensures
        match r {
            Some(i) => i == last_index_of(v@, c),
            None => last_index_of(v@, c) == -1,
        },
{
    let mut i = v.len();
    assert(v@.take(i as int) =~= v@);
    while i > 0
        invariant
            i <= v@.len(),
            last_index_of(v@, c) == last_index_of(v@.take(i as int), c),
        decreases i,
    {
        proof {
            assert(v@.take(i as int).drop_last() =~= v@.take(i - 1));
        }
        if v[i - 1] == c {
            return Some(i - 1);
        }
        i = i - 1;
    }
    None
}

/// `s` split at its last `c`.
pub fn rsplit_once(s: &str, c: char) -> (r: Option<(String, String)>)
    ensures
        match r {
            Some(p) => rsplit_once_spec(s@, c) == Some((p.0@, p.1@)),
            None => rsplit_once_spec(s@, c).is_none(),
        },
{
    let chars = chars_of(s);
    proof { lemma_last_index_of(s@, c); }
    match rfind_char(&chars, c) {
        Some(i) => {
            let a = string_from_chars(&chars, 0, i);
            let b = string_from_chars(&chars, i + 1, chars.len());
            assert(a@ =~= s@.take(i as int));
            assert(b@ =~= s@.skip(i + 1));
            Some((a, b))
        },
        None => None,
    }
}

/// The part of `s` before its last `c`, or the empty string.
pub fn parent_part(s: &str, c: char) -> (r: String)
    ensures
        r@ == parent_of(s@, c),
{
    match rsplit_once(s, c) {
        Some(p) => p.0,
        None => String::new(),
    }
}

/// The part of `s` after its last `c`, or `s` itself.
pub fn last_part(s: &str, c: char) -> (r: String)
    ensures
        r@ == last_segment(s@, c),
{
    match rsplit_once(s, c) {
        Some(p) => p.1,
        None => s.to_owned(),
    }
}

proof fn lemma_replace_step(s: Seq<char>, i: int, pat: Seq<char>, rep: Seq<char>)
    requires
        0 <= i < s.len(),
    ensures
        pat.len() > 0 && seq_starts_with(s.skip(i), pat) ==> replace_seq(s.skip(i), pat, rep)
            == rep + replace_seq(s.skip(i + pat.len()), pat, rep),
        !(pat.len() > 0 && seq_starts_with(s.skip(i), pat)) ==> replace_seq(s.skip(i), pat, rep)
            == seq![s[i]] + replace_seq(s.skip(i + 1), pat, rep),
{
    let t = s.skip(i);
    if pat.len() > 0 && seq_starts_with(t, pat) {
        assert(t.skip(pat.len() as int) =~= s.skip(i + pat.len()));
    } else {
        assert(t.skip(1) =~= s.skip(i + 1));
    }
}

/// `s` with every occurrence of `pat` replaced by `rep`, left to right.
pub fn replace_str(s: &str, pat: &str, rep: &str) -> (r: String)
    requires
        pat@.len() > 0,
    ensures
        r@ == replace_seq(s@, pat@, rep@),
{
    let chars = chars_of(s);
    let pv = chars_of(pat);
    let mut r = String::new();
    let mut i: usize = 0;
    assert(chars@.skip(0) =~= chars@);
    while i < chars.len()
        invariant
            chars@ == s@,
            pv@ == pat@,
            pat@.len() > 0,
            i <= chars@.len(),
            r@ + replace_seq(chars@.skip(i as int), pat@, rep@) == replace_seq(s@, pat@, rep@),
        decreases chars@.len() - i,
    {
        proof { lemma_replace_step(chars@, i as int, pat@, rep@); }
        let here = chars_match_at(&chars, i, &pv);
        proof {
            let t = chars@.skip(i as int);
            if here {
                assert(t.take(pat@.len() as int) =~= chars@.subrange(i as int, i + pat@.len()));
            } else if pat@.len() <= t.len() {
                assert(t.take(pat@.len() as int) =~= chars@.subrange(i as int, i + pat@.len()));
            }
        }
        if here {
            r.append(rep);
            proof {
                assert(r@ + replace_seq(chars@.skip(i + pv@.len()), pat@, rep@) =~= replace_seq(s@, pat@, rep@));
            }
            i = i + pv.len();
        } else {
            let ghost before = r@;
            push_char(&mut r, chars[i]);
            proof {
                assert(r@ + replace_seq(chars@.skip(i + 1), pat@, rep@) =~= before + (seq![chars@[i as int]] + replace_seq(chars@.skip(i + 1), pat@, rep@)));
            }
            i = i + 1;
        }
    }
    proof {
        assert(chars@.skip(i as int) =~= Seq::<char>::empty());
        assert(r@ + Seq::<char>::empty() =~= r@);
    }
    r
}

/// `s` with every `from` turned into `to`.
pub fn replace_char(s: &str, from: char, to: char) -> (r: String)
    ensures
        r@ == replace_char_spec(s@, from, to),
{
    let chars = chars_of(s);
    let mut r = String::new();
    let mut i: usize = 0;
    while i < chars.len()
        invariant
            chars@ == s@,
            i <= chars@.len(),
            r@ == replace_char_spec(chars@.take(i as int), from, to),
        decreases chars@.len() - i,
    {
        let c = chars[i];
        if c == from {
            push_char(&mut r, to);
        } else {
            push_char(&mut r, c);
        }
        i = i + 1;
        assert(r@ =~= replace_char_spec(chars@.take(i as int), from, to));
    }
    assert(chars@.take(i as int) =~= chars@);
    r
}

/// `parts` joined with `sep`.
pub fn join_strings(parts: &Vec<String>, sep: &str) -> (r: String)
    ensures
        r@ == join_seq(views(parts@), sep@),
{
    let mut r = String::new();
    let mut i: usize = 0;
    while i < parts.len()
        invariant
            i <= parts@.len(),
            r@ == join_seq(views(parts@.take(i as int)), sep@),
        decreases parts@.len() - i,
    {
        proof {
            assert(views(parts@.take(i + 1)).drop_last() =~= views(parts@.take(i as int)));
        }
        if i > 0 {
            r.append(sep);
        }
        r.append(parts[i].as_str());
        i = i + 1;
        proof {
            let v = views(parts@.take(i as int));
            if i == 1 {
                assert(join_seq(v, sep@) == v[0]);
                assert(r@ =~= v[0]);
            } else {
                assert(r@ =~= join_seq(v.drop_last(), sep@) + sep@ + v.last());
            }
        }
    }
    assert(parts@.take(i as int) =~= parts@);
    r
}

/// Whether `list` holds a string equal to `s`.
pub fn contains_string(list: &Vec<String>, s: &str) -> (r: bool)
    ensures
        r == views(list@).contains(s@),
{
    let mut i: usize = 0;
    while i < list.len()
        invariant
            i <= list@.len(),
            forall|j: int| 0 <= j < i ==> list@[j]@ != s@,
        decreases list@.len() - i,
    {
        if str_eq(list[i].as_str(), s) {
            assert(views(list@)[i as int] == s@);
            return true;
        }
        i = i + 1;
    }
    proof {
        if views(list@).contains(s@) {
            let j = choose|j: int| 0 <= j < views(list@).len() && views(list@)[j] == s@;
            assert(list@[j]@ == s@);
        }
    }
    false
}

/// `a` followed by `b`.
pub fn concat_str(a: &str, b: &str) -> (r: String)
    ensures
        r@ == a@ + b@,
{
    let mut r = a.to_owned();
    r.append(b);
    r
}

} // verus!
