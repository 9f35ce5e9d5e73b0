//! Sorting by composite keys: three numbers, a text and a tie-breaking index,
//! compared in that order.
use vstd::prelude::*;
use vstd::seq_lib::*;

verus! {

/// Lexicographic order of character sequences by code point (the order of
/// `str`'s `Ord`, since UTF-8 preserves code-point order).
pub open spec fn text_lt(a: Seq<char>, b: Seq<char>) -> bool
    decreases a.len(),
{
    if a.len() == 0 {
        b.len() > 0
    } else if b.len() == 0 {
        false
    } else if a[0] < b[0] {
        true
    } else if a[0] > b[0] {
        false
    } else {
        text_lt(a.drop_first(), b.drop_first())
    }
}

pub proof fn lemma_text_lt_irreflexive(a: Seq<char>)
    ensures
        !text_lt(a, a),
    decreases a.len(),
{
    if a.len() > 0 {
        lemma_text_lt_irreflexive(a.drop_first());
    }
}

pub proof fn lemma_text_lt_transitive(a: Seq<char>, b: Seq<char>, c: Seq<char>)
    requires
        text_lt(a, b),
        text_lt(b, c),
    ensures
        text_lt(a, c),
    decreases a.len(),
{
    if a.len() > 0 && b.len() > 0 && c.len() > 0 {
        if a[0] == b[0] && b[0] == c[0] {
            lemma_text_lt_transitive(a.drop_first(), b.drop_first(), c.drop_first());
        }
    }
}

pub proof fn lemma_text_lt_total(a: Seq<char>, b: Seq<char>)
    ensures
        text_lt(a, b) || text_lt(b, a) || a == b,
    decreases a.len(),
{
    if a.len() > 0 && b.len() > 0 {
        if a[0] == b[0] {
            lemma_text_lt_total(a.drop_first(), b.drop_first());
            if a.drop_first() == b.drop_first() {
                assert(a[0] == b[0]);
                assert(a =~= seq![a[0]] + a.drop_first());
                assert(b =~= seq![b[0]] + b.drop_first());
            }
        }
    } else if a.len() == 0 && b.len() == 0 {
        assert(a =~= b);
    }
}

/// Whether `a` sorts before `b`.
pub fn text_less(a: &Vec<char>, b: &Vec<char>) -> (r: bool)
    ensures
        r == text_lt(a@, b@),
{
    let mut i: usize = 0;
    assert(a@.skip(0) =~= a@);
    assert(b@.skip(0) =~= b@);
    while i < a.len() && i < b.len()
        invariant
            i <= a@.len(),
            i <= b@.len(),
            a@.take(i as int) == b@.take(i as int),
            text_lt(a@, b@) == text_lt(a@.skip(i as int), b@.skip(i as int)),
        decreases a@.len() - i,
    {
        let x = a[i];
        let y = b[i];
        proof {
            assert(a@.skip(i as int)[0] == a@[i as int]);
            assert(b@.skip(i as int)[0] == b@[i as int]);
        }
        if x < y {
            return true;
        }
        if x > y {
            return false;
        }
        proof {
            assert(a@.skip(i as int).drop_first() =~= a@.skip(i + 1));
            assert(b@.skip(i as int).drop_first() =~= b@.skip(i + 1));
            assert(a@.take(i + 1) =~= a@.take(i as int).push(a@[i as int]));
            assert(b@.take(i + 1) =~= b@.take(i as int).push(b@[i as int]));
        }
        i = i + 1;
    }
    i < b.len()
}

/// A sort key: three numbers, then a text, then an index.
#[derive(Debug, Clone)]
pub struct SortKey {
    pub a: u64,
    pub b: u64,
    pub c: u64,
    pub text: Vec<char>,
    pub index: u64,
}

/// Strict order of sort keys.
pub open spec fn key_lt(x: SortKey, y: SortKey) -> bool {
    if x.a != y.a {
        x.a < y.a
    } else if x.b != y.b {
        x.b < y.b
    } else if x.c != y.c {
        x.c < y.c
    } else if x.text@ != y.text@ {
        text_lt(x.text@, y.text@)
    } else {
        x.index < y.index
    }
}

pub proof fn lemma_key_lt_transitive(x: SortKey, y: SortKey, z: SortKey)
    requires
        key_lt(x, y),
        key_lt(y, z),
    ensures
        key_lt(x, z),
{
    if x.a == y.a && y.a == z.a && x.b == y.b && y.b == z.b && x.c == y.c && y.c == z.c {
        if x.text@ != y.text@ && y.text@ != z.text@ {
            lemma_text_lt_transitive(x.text@, y.text@, z.text@);
            if x.text@ == z.text@ {
                lemma_text_lt_transitive(y.text@, z.text@, y.text@);
                lemma_text_lt_irreflexive(y.text@);
            }
        }
    }
}

/// Keys are in non-decreasing order.
pub open spec fn keys_sorted<T>(s: Seq<(SortKey, T)>) -> bool {
    forall|i: int, j: int| 0 <= i < j < s.len() ==> !key_lt(#[trigger] s[j].0, #[trigger] s[i].0)
}

fn key_less(x: &SortKey, y: &SortKey) -> (r: bool)
    ensures
        r == key_lt(*x, *y),
{
    if x.a != y.a {
        return x.a < y.a;
    }
    if x.b != y.b {
        return x.b < y.b;
    }
    if x.c != y.c {
        return x.c < y.c;
    }
    let lt = text_less(&x.text, &y.text);
    let gt = text_less(&y.text, &x.text);
    proof {
        lemma_text_lt_total(x.text@, y.text@);
        if x.text@ == y.text@ {
            lemma_text_lt_irreflexive(x.text@);
        } else if lt && gt {
            lemma_text_lt_transitive(x.text@, y.text@, x.text@);
            lemma_text_lt_irreflexive(x.text@);
        }
    }
    if lt || gt {
        return lt;
    }
    x.index < y.index
}

/// Sorts `pairs` by key; a stable insertion sort.  The result holds the same
/// pairs, with keys in non-decreasing order.
pub fn sort_by_key<T>(pairs: Vec<(SortKey, T)>) -> (r: Vec<(SortKey, T)>)
    ensures
        r@.to_multiset() == pairs@.to_multiset(),
        r@.len() == pairs@.len(),
        keys_sorted(r@),
{
    broadcast use group_to_multiset_ensures;
    let ghost orig = pairs@;
    let mut input = pairs;
    let n = input.len();
    let mut out: Vec<(SortKey, T)> = Vec::new();
    let mut taken: usize = 0;
    while input.len() > 0
        invariant
            n == orig.len(),
            input@ == orig.skip(taken as int),
            taken <= orig.len(),
            out@.to_multiset() == orig.take(taken as int).to_multiset(),
            out@.len() == taken,
            keys_sorted(out@),
        decreases input@.len(),
    {
        let ghost input_before = input@;
        let x = input.remove(0);
        assert(x == orig[taken as int]);
        let mut p: usize = 0;
        while p < out.len()
            invariant
                p <= out@.len(),
                forall|i: int| 0 <= i < p ==> !key_lt(x.0, #[trigger] out@[i].0),
            ensures
                p <= out@.len(),
                forall|i: int| 0 <= i < p ==> !key_lt(x.0, #[trigger] out@[i].0),
                p < out@.len() ==> key_lt(x.0, out@[p as int].0),
            decreases out@.len() - p,
        {
            if key_less(&x.0, &out[p].0) {
                break;
            }
            p = p + 1;
        }
        let ghost before = out@;
        proof {
            assert forall|j: int| p <= j < before.len() implies key_lt(x.0, #[trigger] before[j].0) by {
                if j > p {
                    let kp = before[p as int].0;
                    let kj = before[j].0;
                    assert(!key_lt(kj, kp));
                    lemma_key_total(kp, kj);
                    if key_lt(kp, kj) {
                        lemma_key_lt_transitive(x.0, kp, kj);
                    }
                }
            }
        }
        out.insert(p, x);
        proof {
            assert(orig.take(taken + 1) =~= orig.take(taken as int).push(orig[taken as int]));
            assert(orig.skip(taken as int)[0] == orig[taken as int]);
            assert(input@ =~= orig.skip(taken + 1));
            to_multiset_insert(before, p as int, x);
            to_multiset_build(orig.take(taken as int), orig[taken as int]);
            assert(out@ == before.insert(p as int, x));
            assert forall|i: int, j: int| 0 <= i < j < out@.len() implies !key_lt(#[trigger] out@[j].0, #[trigger] out@[i].0) by {
                if i < p && j == p {
                } else if i == p && j > p {
                    assert(out@[j] == before[j - 1]);
                    if key_lt(out@[j].0, x.0) {
                        lemma_key_lt_asym(out@[j].0, x.0);
                    }
                } else if i < p && j > p {
                    assert(out@[i] == before[i]);
                    assert(out@[j] == before[j - 1]);
                } else if j < p {
                    assert(out@[i] == before[i]);
                    assert(out@[j] == before[j]);
                } else {
                    assert(out@[i] == before[i - 1]);
                    assert(out@[j] == before[j - 1]);
                }
            }
        }
        taken = taken + 1;
    }
    proof {
        assert(orig.take(taken as int) =~= orig);
    }
    out
}

/// Applying a function to two sequences with the same elements gives
/// sequences with the same elements.
pub proof fn lemma_multiset_map_values<A, B>(a: Seq<A>, b: Seq<A>, f: spec_fn(A) -> B)
    requires
        a.to_multiset() == b.to_multiset(),
    ensures
        a.map_values(f).to_multiset() == b.map_values(f).to_multiset(),
    decreases a.len(),
{
    broadcast use group_to_multiset_ensures;
    to_multiset_len(a);
    to_multiset_len(b);
    if a.len() == 0 {
        assert(b.len() == 0);
        assert(a.map_values(f) =~= b.map_values(f));
    } else {
        let x = a.last();
        assert(a.to_multiset().count(x) > 0) by {
            to_multiset_build(a.drop_last(), x);
            assert(a =~= a.drop_last().push(x));
        }
        assert(b.contains(x)) by {
            to_multiset_contains(b, x);
        }
        let k = choose|k: int| 0 <= k < b.len() && b[k] == x;
        let b2 = b.remove(k);
        to_multiset_remove(b, k);
        to_multiset_build(a.drop_last(), x);
        assert(a =~= a.drop_last().push(x));
        assert(a.drop_last().to_multiset() =~= b2.to_multiset());
        lemma_multiset_map_values(a.drop_last(), b2, f);
        assert(a.map_values(f) =~= a.drop_last().map_values(f).push(f(x)));
        assert(b.map_values(f) =~= b2.map_values(f).insert(k, f(x)));
        to_multiset_build(a.drop_last().map_values(f), f(x));
        to_multiset_insert(b2.map_values(f), k, f(x));
    }
}

proof fn lemma_key_total(x: SortKey, y: SortKey)
    ensures
        key_lt(x, y) || key_lt(y, x) || (x.a == y.a && x.b == y.b && x.c == y.c && x.text@ == y.text@ && x.index == y.index),
{
    lemma_text_lt_total(x.text@, y.text@);
}

proof fn lemma_key_lt_asym(x: SortKey, y: SortKey)
    requires
        key_lt(x, y),
    ensures
        !key_lt(y, x),
{
    if key_lt(y, x) {
        lemma_key_lt_transitive(x, y, x);
        lemma_text_lt_irreflexive(x.text@);
    }
}

} // verus!
