//! Ordered sets of strings held as strictly ascending vectors, in the order
//! of `str`'s `Ord` (code points), so that walking one gives the order a
//! `BTreeSet<String>` gives.
use vstd::prelude::*;
use crate::paths::views;
use crate::sorting::{lemma_text_lt_irreflexive, lemma_text_lt_total, lemma_text_lt_transitive, text_less, text_lt};
use crate::text::chars_of;

verus! {

/// The texts are in strictly ascending order.
pub open spec fn strictly_sorted(s: Seq<Seq<char>>) -> bool {
    forall|i: int, j: int| 0 <= i < j < s.len() ==> text_lt(#[trigger] s[i], #[trigger] s[j])
}

pub proof fn lemma_sorted_no_duplicates(s: Seq<Seq<char>>)
    requires
        strictly_sorted(s),
    ensures
        s.no_duplicates(),
{
    assert forall|i: int, j: int| 0 <= i < s.len() && 0 <= j < s.len() && i != j implies s[i] != s[j] by {
        if i < j {
            lemma_text_lt_irreflexive(s[i]);
        } else {
            lemma_text_lt_irreflexive(s[j]);
        }
    }
}

pub proof fn lemma_contains_push<A>(s: Seq<A>, x: A, y: A)
    ensures
        s.push(x).contains(y) <==> (s.contains(y) || y == x),
{
    if s.push(x).contains(y) {
        let k = choose|k: int| 0 <= k < s.push(x).len() && s.push(x)[k] == y;
        if k < s.len() {
            assert(s[k] == y);
        }
    }
    if s.contains(y) {
        let k = choose|k: int| 0 <= k < s.len() && s[k] == y;
        assert(s.push(x)[k] == y);
    }
    if y == x {
        assert(s.push(x)[s.len() as int] == y);
    }
}

/// Whether `a` sorts before `b` by code points.
pub fn str_less(a: &str, b: &str) -> (r: bool)
    ensures
        r == text_lt(a@, b@),
{
    let x = chars_of(a);
    let y = chars_of(b);
    text_less(&x, &y)
}

/// Adds `x` to the ordered set `v`; tells whether it was absent.
pub fn set_insert(v: &mut Vec<String>, x: String) -> (added: bool)
    requires
        strictly_sorted(views(old(v)@)),
    ensures
        strictly_sorted(views(final(v)@)),
        added == !views(old(v)@).contains(x@),
        final(v)@.len() == old(v)@.len() + (if added { 1int } else { 0int }),
        forall|y: Seq<char>| views(final(v)@).contains(y) <==> (views(old(v)@).contains(y) || y == x@),
{
    let ghost s = views(v@);
    let mut p: usize = 0;
    while p < v.len() && str_less(v[p].as_str(), x.as_str())
        invariant
            s == views(v@),
            p <= v@.len(),
            forall|i: int| 0 <= i < p ==> text_lt(#[trigger] s[i], x@),
        decreases v@.len() - p,
    {
        p = p + 1;
    }
    proof {
        if p < s.len() {
            assert(!text_lt(s[p as int], x@));
            lemma_text_lt_total(s[p as int], x@);
        }
    }
    if p < v.len() && crate::text::str_eq(v[p].as_str(), x.as_str()) {
        proof {
            assert(s[p as int] == x@);
            assert forall|y: Seq<char>| views(v@).contains(y) <==> (s.contains(y) || y == x@) by {
                if y == x@ {
                    assert(s[p as int] == y);
                }
            }
        }
        return false;
    }
    proof {
        if s.contains(x@) {
            let k = choose|k: int| 0 <= k < s.len() && s[k] == x@;
            if k < p {
                lemma_text_lt_irreflexive(x@);
            } else if k > p {
                assert(text_lt(s[p as int], s[k]));
                lemma_text_lt_transitive(x@, s[p as int], x@);
                lemma_text_lt_irreflexive(x@);
            }
        }
    }
    let ghost xv = x@;
    v.insert(p, x);
    proof {
        let t = views(v@);
        assert(t =~= s.insert(p as int, xv));
        assert forall|i: int, j: int| 0 <= i < j < t.len() implies text_lt(#[trigger] t[i], #[trigger] t[j]) by {
            if j < p {
                assert(t[i] == s[i] && t[j] == s[j]);
            } else if j == p {
                assert(t[i] == s[i]);
            } else if i == p {
                assert(t[j] == s[j - 1]);
                if j - 1 > p {
                    assert(text_lt(s[p as int], s[j - 1]));
                    lemma_text_lt_transitive(xv, s[p as int], s[j - 1]);
                }
            } else if i < p {
                assert(t[i] == s[i] && t[j] == s[j - 1]);
                if j - 1 >= p {
                    lemma_text_lt_transitive(s[i], xv, s[p as int]);
                    if j - 1 > p {
                        lemma_text_lt_transitive(s[i], s[p as int], s[j - 1]);
                    }
                }
            } else {
                assert(t[i] == s[i - 1] && t[j] == s[j - 1]);
            }
        }
        assert forall|y: Seq<char>| t.contains(y) <==> (s.contains(y) || y == xv) by {
            if t.contains(y) {
                let k = choose|k: int| 0 <= k < t.len() && t[k] == y;
                if k < p {
                    assert(s[k] == y);
                } else if k > p {
                    assert(s[k - 1] == y);
                }
            }
            if s.contains(y) {
                let k = choose|k: int| 0 <= k < s.len() && s[k] == y;
                if k < p {
                    assert(t[k] == y);
                } else {
                    assert(t[k + 1] == y);
                }
            }
            if y == xv {
                assert(t[p as int] == y);
            }
        }
    }
    true
}

/// The ordered set of the strings in `items`.
pub fn set_from(items: &Vec<String>) -> (r: Vec<String>)
    ensures
        strictly_sorted(views(r@)),
        forall|y: Seq<char>| views(r@).contains(y) <==> views(items@).contains(y),
{
    let mut r: Vec<String> = Vec::new();
    let mut i: usize = 0;
    while i < items.len()
        invariant
            i <= items@.len(),
            strictly_sorted(views(r@)),
            forall|y: Seq<char>| views(r@).contains(y) <==> views(items@.take(i as int)).contains(y),
        decreases items@.len() - i,
    {
        let item = items[i].clone();
        set_insert(&mut r, item);
        i = i + 1;
        proof {
            assert forall|y: Seq<char>| views(items@.take(i as int)).contains(y) <==> (views(items@.take(i - 1)).contains(y) || y == items@[i - 1]@) by {
                assert(views(items@.take(i as int)) =~= views(items@.take(i - 1)).push(items@[i - 1]@));
                lemma_contains_push(views(items@.take(i - 1)), items@[i - 1]@, y);
            }
        }
    }
    assert(items@.take(i as int) =~= items@);
    r
}

/// The set of the texts of `v`.
pub open spec fn as_set(v: Seq<String>) -> Set<Seq<char>> {
    Set::new(|y: Seq<char>| views(v).contains(y))
}

/// Adds every string of `items` to the ordered set `v`.
pub fn set_extend(v: &mut Vec<String>, items: &Vec<String>)
    requires
        strictly_sorted(views(old(v)@)),
    ensures
        strictly_sorted(views(final(v)@)),
        as_set(final(v)@) == as_set(old(v)@).union(as_set(items@)),
{
    let ghost orig = as_set(v@);
    let mut i: usize = 0;
    while i < items.len()
        invariant
            i <= items@.len(),
            strictly_sorted(views(v@)),
            as_set(v@) == orig.union(as_set(items@.take(i as int))),
        decreases items@.len() - i,
    {
        let ghost before = as_set(v@);
        let item = items[i].clone();
        set_insert(v, item);
        i = i + 1;
        proof {
            assert forall|y: Seq<char>| as_set(v@).contains(y) <==> (before.contains(y) || y == items@[i - 1]@) by {}
            assert(views(items@.take(i as int)) =~= views(items@.take(i - 1)).push(items@[i - 1]@));
            assert forall|y: Seq<char>| as_set(items@.take(i as int)).contains(y) <==> (as_set(items@.take(i - 1)).contains(y) || y == items@[i - 1]@) by {
                lemma_contains_push(views(items@.take(i - 1)), items@[i - 1]@, y);
            }
            assert forall|y: Seq<char>| as_set(v@).contains(y) <==> orig.union(as_set(items@.take(i as int))).contains(y) by {
                assert(before.contains(y) <==> orig.union(as_set(items@.take(i - 1))).contains(y));
            }
            assert(as_set(v@) =~= orig.union(as_set(items@.take(i as int))));
        }
    }
    assert(items@.take(i as int) =~= items@);
}

} // verus!
