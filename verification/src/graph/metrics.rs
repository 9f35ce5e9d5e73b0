//! Narrowing a graph to a selection, and the metrics of a graph: counts,
//! rankings of the most connected files, and circular dependencies.
use vstd::prelude::*;
use vstd::multiset::Multiset;
use vstd::relations::{sorted_by, total_ordering};
use crate::graph::assemble::{edge_view, edges_view, node_paths, EdgeV};
use crate::graph::resolve::opt_view;
use crate::graph::select::{neighbors, neighbors_of, TraversalDirection};
use crate::graph::types::{FileMetric, GraphEdge, GraphMetrics, GraphNode, NodeEntry};
use crate::paths::{join_seq, join_strings, views};
use crate::sorting::{lemma_text_lt_irreflexive, lemma_text_lt_total, lemma_text_lt_transitive, text_lt};
use crate::strset::{as_set, lemma_contains_push, set_insert, str_less, strictly_sorted};
use crate::paths::contains_string;
use crate::text::str_eq;

verus! {

/// A node as plain values: path, language, imports, importers.
pub type NodeV = (Seq<char>, Option<Seq<char>>, Seq<Seq<char>>, Seq<Seq<char>>);

pub open spec fn node_view(n: NodeEntry) -> NodeV {
    (n.file_path@, opt_view(n.language), views(n.imports@), views(n.imported_by@))
}

pub open spec fn nodes_view(s: Seq<NodeEntry>) -> Seq<NodeV> {
    s.map_values(|n: NodeEntry| node_view(n))
}

/// The node is in `sel`.
pub open spec fn in_selection(sel: Set<Seq<char>>) -> spec_fn(NodeEntry) -> bool {
    |n: NodeEntry| sel.contains(n.file_path@)
}

/// A node with its neighbour lists narrowed to `sel`.
pub open spec fn restrict(n: NodeEntry, sel: Set<Seq<char>>) -> NodeV {
    (
        n.file_path@,
        opt_view(n.language),
        views(n.imports@).filter(|x: Seq<char>| sel.contains(x)),
        views(n.imported_by@).filter(|x: Seq<char>| sel.contains(x)),
    )
}

/// The nodes in `sel`, each narrowed to `sel`, in map order.
pub open spec fn filtered_nodes(nodes: Seq<NodeEntry>, sel: Set<Seq<char>>) -> Seq<NodeV> {
    nodes.filter(in_selection(sel)).map_values(|n: NodeEntry| restrict(n, sel))
}

/// An edge is kept when its source is selected and, if it resolved, its
/// target is selected too.
pub open spec fn keep_edge(e: EdgeV, sel: Set<Seq<char>>) -> bool {
    sel.contains(e.0) && (if e.3 { e.1 is Some && sel.contains(e.1->0) } else { true })
}

/// The strings of `v` that are in `sel`, in order.
pub fn keep_in(v: &Vec<String>, sel: &Vec<String>) -> (r: Vec<String>)
    ensures
        views(r@) == views(v@).filter(|x: Seq<char>| as_set(sel@).contains(x)),
{
    let ghost p = |x: Seq<char>| as_set(sel@).contains(x);
    let mut r: Vec<String> = Vec::new();
    let mut i: usize = 0;
    while i < v.len()
        invariant
            i <= v@.len(),
            p == (|x: Seq<char>| as_set(sel@).contains(x)),
            views(r@) == views(v@.take(i as int)).filter(p),
        decreases v@.len() - i,
    {
        proof {
            reveal(Seq::filter);
            let t = views(v@.take(i + 1));
            assert(t.drop_last() =~= views(v@.take(i as int)));
            assert(t.last() == v@[i as int]@);
            assert(t.filter(p) == (if p(t.last()) { t.drop_last().filter(p).push(t.last()) } else { t.drop_last().filter(p) }));
        }
        let ghost before = views(r@);
        if contains_string(sel, v[i].as_str()) {
            r.push(v[i].clone());
            assert(views(r@) =~= before.push(v@[i as int]@));
        }
        i = i + 1;
    }
    assert(v@.take(i as int) =~= v@);
    r
}

/// The selected nodes, each with its neighbour lists narrowed to the selection.
pub fn filter_node_map(nodes: &Vec<NodeEntry>, selected: &Vec<String>) -> (r: Vec<NodeEntry>)
    ensures
        nodes_view(r@) == filtered_nodes(nodes@, as_set(selected@)),
{
    let ghost sel = as_set(selected@);
    let ghost p = in_selection(sel);
    let mut r: Vec<NodeEntry> = Vec::new();
    let mut i: usize = 0;
    while i < nodes.len()
        invariant
            i <= nodes@.len(),
            sel == as_set(selected@),
            p == in_selection(sel),
            nodes_view(r@) == nodes@.take(i as int).filter(p).map_values(|n: NodeEntry| restrict(n, sel)),
        decreases nodes@.len() - i,
    {
        proof {
            reveal(Seq::filter);
            let t = nodes@.take(i + 1);
            assert(t.drop_last() =~= nodes@.take(i as int));
            assert(t.filter(p) == (if p(t.last()) { t.drop_last().filter(p).push(t.last()) } else { t.drop_last().filter(p) }));
        }
        let n = &nodes[i];
        let ghost before = nodes_view(r@);
        if contains_string(selected, n.file_path.as_str()) {
            let language = match &n.language {
                Some(l) => Some(l.clone()),
                None => None,
            };
            let entry = NodeEntry {
                file_path: n.file_path.clone(),
                language,
                imports: keep_in(&n.imports, selected),
                imported_by: keep_in(&n.imported_by, selected),
            };
            r.push(entry);
            proof {
                assert(node_view(r@.last()) == restrict(*n, sel));
                assert(nodes_view(r@) =~= before.push(restrict(*n, sel)));
                assert(nodes@.take(i + 1).filter(p) == nodes@.take(i as int).filter(p).push(*n));
                assert(nodes@.take(i + 1).filter(p).map_values(|n: NodeEntry| restrict(n, sel)) =~= nodes@.take(i as int).filter(p).map_values(|n: NodeEntry| restrict(n, sel)).push(restrict(*n, sel)));
            }
        }
        i = i + 1;
    }
    assert(nodes@.take(i as int) =~= nodes@);
    r
}

fn clone_edge(e: &GraphEdge) -> (r: GraphEdge)
    ensures
        edge_view(r) == edge_view(*e),
{
    GraphEdge {
        from: e.from.clone(),
        to: match &e.to {
            Some(t) => Some(t.clone()),
            None => None,
        },
        import_path: e.import_path.clone(),
        resolved: e.resolved,
    }
}

/// The edges whose source is selected and whose target, if resolved, is too.
pub fn filter_edges(edges: &Vec<GraphEdge>, selected: &Vec<String>) -> (r: Vec<GraphEdge>)
    ensures
        edges_view(r@) == edges_view(edges@).filter(|e: EdgeV| keep_edge(e, as_set(selected@))),
{
    let ghost sel = as_set(selected@);
    let ghost p = |e: EdgeV| keep_edge(e, sel);
    let mut r: Vec<GraphEdge> = Vec::new();
    let mut i: usize = 0;
    while i < edges.len()
        invariant
            i <= edges@.len(),
            sel == as_set(selected@),
            p == (|e: EdgeV| keep_edge(e, sel)),
            edges_view(r@) == edges_view(edges@.take(i as int)).filter(p),
        decreases edges@.len() - i,
    {
        proof {
            reveal(Seq::filter);
            let t = edges_view(edges@.take(i + 1));
            assert(t.drop_last() =~= edges_view(edges@.take(i as int)));
            assert(t.last() == edge_view(edges@[i as int]));
            assert(t.filter(p) == (if p(t.last()) { t.drop_last().filter(p).push(t.last()) } else { t.drop_last().filter(p) }));
        }
        let e = &edges[i];
        let keep = contains_string(selected, e.from.as_str()) && (if e.resolved {
            match &e.to {
                Some(t) => contains_string(selected, t.as_str()),
                None => false,
            }
        } else {
            true
        });
        let ghost before = edges_view(r@);
        if keep {
            r.push(clone_edge(e));
            assert(edges_view(r@) =~= before.push(edge_view(*e)));
        }
        i = i + 1;
    }
    assert(edges@.take(i as int) =~= edges@);
    r
}

/// One graph node per node of the map, with its degrees.
pub fn build_node_list(nodes: &Vec<NodeEntry>) -> (r: Vec<GraphNode>)
    ensures
        r@.len() == nodes@.len(),
        forall|i: int| 0 <= i < r@.len() ==> {
            &&& (#[trigger] r@[i]).file_path@ == nodes@[i].file_path@
            &&& opt_view(r@[i].language) == opt_view(nodes@[i].language)
            &&& r@[i].imports_count == nodes@[i].imports@.len()
            &&& r@[i].imported_by_count == nodes@[i].imported_by@.len()
        },
{
    let mut r: Vec<GraphNode> = Vec::new();
    let mut i: usize = 0;
    while i < nodes.len()
        invariant
            i <= nodes@.len(),
            r@.len() == i,
            forall|j: int| 0 <= j < i ==> {
                &&& (#[trigger] r@[j]).file_path@ == nodes@[j].file_path@
                &&& opt_view(r@[j].language) == opt_view(nodes@[j].language)
                &&& r@[j].imports_count == nodes@[j].imports@.len()
                &&& r@[j].imported_by_count == nodes@[j].imported_by@.len()
            },
        decreases nodes@.len() - i,
    {
        let n = &nodes[i];
        r.push(GraphNode {
            file_path: n.file_path.clone(),
            language: match &n.language {
                Some(l) => Some(l.clone()),
                None => None,
            },
            imports_count: n.imports.len() as u64,
            imported_by_count: n.imported_by.len() as u64,
        });
        i = i + 1;
    }
    r
}

/// A ranking entry as plain values: path and count.
pub type RankV = (Seq<char>, u64);

/// `x` ranks before `y`: a larger count, or the same count and an earlier path.
pub open spec fn rank_before(x: RankV, y: RankV) -> bool {
    x.1 > y.1 || (x.1 == y.1 && text_lt(x.0, y.0))
}

/// The ranking entries of the nodes: out-degrees, or in-degrees.
pub open spec fn rank_items(nodes: Seq<NodeEntry>, by_imports: bool) -> Seq<RankV> {
    nodes.map_values(|n: NodeEntry| (n.file_path@, (if by_imports { n.imports@.len() } else { n.imported_by@.len() }) as u64))
}

pub open spec fn metric_view(m: FileMetric) -> RankV {
    (m.file_path@, m.count)
}

pub open spec fn metrics_view(s: Seq<FileMetric>) -> Seq<RankV> {
    s.map_values(|m: FileMetric| metric_view(m))
}

/// `r` is the head, at most ten long, of the entries with a count above zero
/// in ranking order: it is in that order, holds only such entries, every
/// such entry left out ranks after all of `r`, and it is shorter than ten
/// only when nothing is left out.
pub open spec fn top_ranked(r: Seq<RankV>, items: Seq<RankV>) -> bool {
    &&& r.len() <= 10
    &&& forall|i: int, j: int| 0 <= i < j < r.len() ==> rank_before(#[trigger] r[i], #[trigger] r[j])
    &&& forall|i: int| 0 <= i < r.len() ==> #[trigger] items.contains(r[i]) && r[i].1 > 0
    &&& forall|x: RankV| items.contains(x) && x.1 > 0 && !r.contains(x) ==> r.len() == 10
        && forall|i: int| 0 <= i < r.len() ==> rank_before(#[trigger] r[i], x)
}

proof fn lemma_rank_total(x: RankV, y: RankV)
    requires
        x.0 != y.0,
    ensures
        rank_before(x, y) || rank_before(y, x),
{
    lemma_text_lt_total(x.0, y.0);
}

proof fn lemma_rank_transitive(x: RankV, y: RankV, z: RankV)
    requires
        rank_before(x, y),
        rank_before(y, z),
    ensures
        rank_before(x, z),
{
    if x.1 == y.1 && y.1 == z.1 {
        lemma_text_lt_transitive(x.0, y.0, z.0);
    }
}

proof fn lemma_rank_irreflexive(x: RankV)
    ensures
        !rank_before(x, x),
{
    lemma_text_lt_irreflexive(x.0);
}

fn rank_less(x: &FileMetric, y: &FileMetric) -> (r: bool)
    ensures
        r == rank_before(metric_view(*x), metric_view(*y)),
{
    x.count > y.count || (x.count == y.count && str_less(x.file_path.as_str(), y.file_path.as_str()))
}

fn rank_entry(n: &NodeEntry, by_imports: bool) -> (r: FileMetric)
    ensures
        metric_view(r) == (n.file_path@, (if by_imports { n.imports@.len() } else { n.imported_by@.len() }) as u64),
{
    let count = if by_imports { n.imports.len() as u64 } else { n.imported_by.len() as u64 };
    FileMetric { file_path: n.file_path.clone(), count }
}

/// The ten highest-ranked files by out-degree or in-degree, with counts
/// above zero; ties go to the earlier path.
pub fn top_files(nodes: &Vec<NodeEntry>, by_imports: bool) -> (r: Vec<FileMetric>)
    requires
        strictly_sorted(node_paths(nodes@)),
    ensures
        top_ranked(metrics_view(r@), rank_items(nodes@, by_imports)),
{
    let ghost items = rank_items(nodes@, by_imports);
    let mut out: Vec<FileMetric> = Vec::new();
    let mut done = false;
    while out.len() < 10 && !done
        invariant
            items == rank_items(nodes@, by_imports),
            strictly_sorted(node_paths(nodes@)),
            out@.len() <= 10,
            ({
                let r = metrics_view(out@);
                &&& forall|i: int, j: int| 0 <= i < j < r.len() ==> rank_before(#[trigger] r[i], #[trigger] r[j])
                &&& forall|i: int| 0 <= i < r.len() ==> #[trigger] items.contains(r[i]) && r[i].1 > 0
                &&& forall|x: RankV| items.contains(x) && x.1 > 0 && !r.contains(x) ==>
                    forall|i: int| 0 <= i < r.len() ==> rank_before(#[trigger] r[i], x)
                &&& done ==> forall|x: RankV| items.contains(x) && x.1 > 0 ==> r.contains(x)
            }),
        decreases 10 - out@.len() + (if done { 0int } else { 1int }),
    {
        let ghost r = metrics_view(out@);
        let mut best: Option<FileMetric> = None;
        let mut i: usize = 0;
        while i < nodes.len()
            invariant
                i <= nodes@.len(),
                items == rank_items(nodes@, by_imports),
                r == metrics_view(out@),
                out@.len() < 10,
                match best {
                    Some(b) => {
                        &&& items.contains(metric_view(b))
                        &&& metric_view(b).1 > 0
                        &&& (r.len() > 0 ==> rank_before(r.last(), metric_view(b)))
                        &&& forall|j: int| 0 <= j < i && items[j].1 > 0 && (r.len() > 0 ==> rank_before(r.last(), items[j]))
                            ==> !rank_before(#[trigger] items[j], metric_view(b))
                    },
                    None => forall|j: int| 0 <= j < i ==> !(#[trigger] items[j].1 > 0 && (r.len() > 0 ==> rank_before(r.last(), items[j]))),
                },
            decreases nodes@.len() - i,
        {
            let cand = rank_entry(&nodes[i], by_imports);
            assert(metric_view(cand) == items[i as int]);
            let after_last = if out.len() == 0 { true } else { rank_less(&out[out.len() - 1], &cand) };
            proof {
                if out@.len() > 0 {
                    assert(metric_view(out@[out@.len() - 1]) == r.last());
                }
            }
            if cand.count > 0 && after_last {
                let better = match &best {
                    Some(b) => rank_less(&cand, b),
                    None => true,
                };
                if better {
                    proof {
                        lemma_rank_irreflexive(metric_view(cand));
                        match best {
                            Some(b) => {
                                assert forall|j: int| 0 <= j < i && items[j].1 > 0 && (r.len() > 0 ==> rank_before(r.last(), items[j]))
                                    implies !rank_before(#[trigger] items[j], metric_view(cand)) by {
                                    if rank_before(items[j], metric_view(cand)) {
                                        lemma_rank_transitive(items[j], metric_view(cand), metric_view(b));
                                    }
                                }
                            },
                            None => {},
                        }
                        assert(items.contains(metric_view(cand)));
                    }
                    best = Some(cand);
                }
            }
            i = i + 1;
        }
        match best {
            Some(b) => {
                proof {
                    let bv = metric_view(b);
                    let nr = r.push(bv);
                    assert forall|i: int, j: int| 0 <= i < j < nr.len() implies rank_before(#[trigger] nr[i], #[trigger] nr[j]) by {
                        if j == r.len() && i < r.len() - 1 {
                            lemma_rank_transitive(r[i], r.last(), bv);
                        }
                    }
                    assert forall|x: RankV| items.contains(x) && x.1 > 0 && !nr.contains(x) implies
                        forall|i: int| 0 <= i < nr.len() ==> rank_before(#[trigger] nr[i], x) by {
                        assert(!r.contains(x)) by {
                            if r.contains(x) {
                                let k = choose|k: int| 0 <= k < r.len() && r[k] == x;
                                assert(nr[k] == x);
                            }
                        }
                        assert(x != bv) by {
                            assert(nr[r.len() as int] == bv);
                        }
                        let j = choose|j: int| 0 <= j < items.len() && items[j] == x;
                        if r.len() > 0 {
                            assert(rank_before(r.last(), x));
                        }
                        assert(!rank_before(items[j], bv));
                        let bj = choose|bj: int| 0 <= bj < items.len() && items[bj] == bv;
                        assert(items[j].0 != items[bj].0) by {
                            assert(node_paths(nodes@)[j] == items[j].0);
                            assert(node_paths(nodes@)[bj] == items[bj].0);
                            if j != bj {
                                if j < bj {
                                    assert(text_lt(node_paths(nodes@)[j], node_paths(nodes@)[bj]));
                                    lemma_text_lt_irreflexive(items[j].0);
                                } else {
                                    assert(text_lt(node_paths(nodes@)[bj], node_paths(nodes@)[j]));
                                    lemma_text_lt_irreflexive(items[j].0);
                                }
                            }
                        }
                        lemma_rank_total(x, bv);
                    }
                }
                out.push(b);
                proof {
                    let nr = metrics_view(out@);
                    assert(nr =~= r.push(metric_view(b)));
                }
            },
            None => {
                proof {
                    assert forall|x: RankV| items.contains(x) && x.1 > 0 implies r.contains(x) by {
                        if !r.contains(x) {
                            let j = choose|j: int| 0 <= j < items.len() && items[j] == x;
                            if r.len() > 0 {
                                assert(rank_before(r[r.len() - 1], x));
                            }
                            assert(!(items[j].1 > 0 && (r.len() > 0 ==> rank_before(r.last(), items[j]))));
                        }
                    }
                }
                done = true;
            },
        }
    }
    out
}

/// The edges with the given resolved flag.
pub fn count_edges(edges: &Vec<GraphEdge>, resolved: bool) -> (r: u64)
    ensures
        r == edges_view(edges@).filter(|e: EdgeV| e.3 == resolved).len(),
{
    let ghost p = |e: EdgeV| e.3 == resolved;
    let mut n: u64 = 0;
    let mut i: usize = 0;
    while i < edges.len()
        invariant
            i <= edges@.len(),
            p == (|e: EdgeV| e.3 == resolved),
            n == edges_view(edges@.take(i as int)).filter(p).len(),
            n <= i,
        decreases edges@.len() - i,
    {
        proof {
            reveal(Seq::filter);
            let t = edges_view(edges@.take(i + 1));
            assert(t.drop_last() =~= edges_view(edges@.take(i as int)));
            assert(t.last() == edge_view(edges@[i as int]));
            assert(t.filter(p) == (if p(t.last()) { t.drop_last().filter(p).push(t.last()) } else { t.drop_last().filter(p) }));
        }
        if edges[i].resolved == resolved {
            n = n + 1;
        }
        i = i + 1;
    }
    assert(edges@.take(i as int) =~= edges@);
    n
}

/// `c` is a circular chain: at least two entries, ending where it starts,
/// each entry importing the next.
pub open spec fn is_cycle(nodes: Seq<NodeEntry>, c: Seq<Seq<char>>) -> bool {
    &&& c.len() >= 2
    &&& c[0] == c.last()
    &&& forall|k: int| 0 <= k < c.len() - 1 ==> #[trigger] neighbors(nodes, c[k], TraversalDirection::Imports).contains(c[k + 1])
}

/// The strings of `v` in non-decreasing order.
pub fn sort_strings(v: &Vec<String>) -> (r: Vec<String>)
    ensures
        r@.len() == v@.len(),
        views(r@).to_multiset() == views(v@).to_multiset(),
        forall|i: int, j: int| 0 <= i < j < r@.len() ==> !text_lt(#[trigger] r@[j]@, #[trigger] r@[i]@),
{
    let mut r: Vec<String> = Vec::new();
    let mut i: usize = 0;
    assert(views(v@.take(0)) =~= Seq::<Seq<char>>::empty());
    assert(views(r@) =~= Seq::<Seq<char>>::empty());
    while i < v.len()
        invariant
            i <= v@.len(),
            r@.len() == i,
            views(r@).to_multiset() == views(v@.take(i as int)).to_multiset(),
            forall|a: int, b: int| 0 <= a < b < r@.len() ==> !text_lt(#[trigger] r@[b]@, #[trigger] r@[a]@),
        decreases v@.len() - i,
    {
        let x = v[i].clone();
        assert(x@ == v@[i as int]@);
        let mut p: usize = 0;
        while p < r.len() && !str_less(x.as_str(), r[p].as_str())
            invariant
                p <= r@.len(),
                forall|a: int| 0 <= a < p ==> !text_lt(x@, #[trigger] r@[a]@),
            decreases r@.len() - p,
        {
            p = p + 1;
        }
        let ghost before = r@;
        let ghost xv = x@;
        proof {
            assert forall|b: int| p <= b < before.len() implies text_lt(xv, #[trigger] before[b]@) by {
                if b > p {
                    assert(!text_lt(before[b]@, before[p as int]@));
                    lemma_text_lt_total(before[p as int]@, before[b]@);
                    if text_lt(before[p as int]@, before[b]@) {
                        lemma_text_lt_transitive(xv, before[p as int]@, before[b]@);
                    }
                }
            }
        }
        r.insert(p, x);
        proof {
            let rv = views(r@);
            let bv = views(before);
            assert(rv.remove(p as int) =~= bv);
            assert(rv[p as int] == xv);
            assert(rv.contains(xv)) by {
                assert(0 <= p < rv.len() && rv[p as int] == xv);
            }
            let m = rv.to_multiset();
            rv.to_multiset_ensures();
            assert(m.count(xv) > 0);
            assert(rv.remove(p as int).to_multiset() =~= m.remove(xv));
            assert(bv.to_multiset() =~= m.remove(xv));
            assert(m =~= m.remove(xv).insert(xv));
            assert(m == bv.to_multiset().insert(xv));
            let tv = views(v@.take(i as int));
            assert(views(v@.take(i + 1)) =~= tv.push(xv));
            tv.to_multiset_ensures();
            assert(tv.push(xv).to_multiset() =~= tv.to_multiset().insert(xv));
            assert forall|a: int, b: int| 0 <= a < b < r@.len() implies !text_lt(#[trigger] r@[b]@, #[trigger] r@[a]@) by {
                if a < p && b == p {
                } else if a == p && b > p {
                    assert(r@[b] == before[b - 1]);
                    if text_lt(before[b - 1]@, xv) {
                        lemma_text_lt_transitive(xv, before[b - 1]@, xv);
                        lemma_text_lt_irreflexive(xv);
                    }
                } else if a < p && b > p {
                    assert(r@[a] == before[a] && r@[b] == before[b - 1]);
                } else if b < p {
                    assert(r@[a] == before[a] && r@[b] == before[b]);
                } else {
                    assert(r@[a] == before[a - 1] && r@[b] == before[b - 1]);
                }
            }
        }
        i = i + 1;
    }
    assert(v@.take(i as int) =~= v@);
    r
}

/// `a` sorts no later than `b` by code points.
pub open spec fn text_le() -> spec_fn(Seq<char>, Seq<char>) -> bool {
    |a: Seq<char>, b: Seq<char>| !text_lt(b, a)
}

proof fn lemma_text_le_total_ordering()
    ensures
        total_ordering(text_le()),
{
    let le = text_le();
    assert forall|x: Seq<char>| #[trigger] le(x, x) by {
        lemma_text_lt_irreflexive(x);
    }
    assert forall|x: Seq<char>, y: Seq<char>| #[trigger] le(x, y) && #[trigger] le(y, x) implies x == y by {
        lemma_text_lt_total(x, y);
    }
    assert forall|x: Seq<char>, y: Seq<char>, z: Seq<char>| #[trigger] le(x, y) && #[trigger] le(y, z) implies le(x, z) by {
        lemma_text_lt_total(x, y);
        if text_lt(z, x) {
            if text_lt(x, y) {
                lemma_text_lt_transitive(z, x, y);
            }
        }
    }
    assert forall|x: Seq<char>, y: Seq<char>| #[trigger] le(x, y) || #[trigger] le(y, x) by {
        if text_lt(x, y) && text_lt(y, x) {
            lemma_text_lt_transitive(x, y, x);
            lemma_text_lt_irreflexive(x);
        }
    }
}

/// The key under which a chain with members `m` (counted with
/// multiplicity) is reported: its members in order, joined with `|`.
pub open spec fn cycle_key(m: Multiset<Seq<char>>) -> Seq<char> {
    join_seq(sorted_members(m), "|"@)
}

/// The members `m` in ascending order.
pub open spec fn sorted_members(m: Multiset<Seq<char>>) -> Seq<Seq<char>> {
    choose|s: Seq<Seq<char>>| sorted_by(s, text_le()) && s.to_multiset() == m
}

/// The members of `c` in order, joined, are the key of `c`'s members.
proof fn lemma_sorted_key(c: Seq<Seq<char>>, sorted: Seq<Seq<char>>)
    requires
        sorted.to_multiset() == c.to_multiset(),
        forall|i: int, j: int| 0 <= i < j < sorted.len() ==> !text_lt(#[trigger] sorted[j], #[trigger] sorted[i]),
    ensures
        join_seq(sorted, "|"@) == cycle_key(c.to_multiset()),
{
    let le = text_le();
    assert(sorted_by(sorted, le)) by {
        assert forall|i: int, j: int| 0 <= i < j < sorted.len() implies #[trigger] le(sorted[i], sorted[j]) by {
            assert(!text_lt(sorted[j], sorted[i]));
        }
    }
    let m = c.to_multiset();
    assert(sorted_by(sorted, text_le()) && sorted.to_multiset() == m);
    let s = sorted_members(m);
    assert(sorted_by(s, text_le()) && s.to_multiset() == m);
    lemma_text_le_total_ordering();
    vstd::seq_lib::lemma_sorted_unique(s, sorted, text_le());
    assert(s == sorted);
}

/// Every import of every node is itself the path of a node (as in a node
/// map, where each resolved target is a node).
pub open spec fn imports_closed(nodes: Seq<NodeEntry>) -> bool {
    forall|i: int, j: int| 0 <= i < nodes.len() && 0 <= j < nodes[i].imports@.len()
        ==> node_paths(nodes).contains(#[trigger] nodes[i].imports@[j]@)
}

/// One unit per node and per import: the work a full walk of the graph takes.
pub open spec fn cycle_work(nodes: Seq<NodeEntry>) -> nat
    decreases nodes.len(),
{
    if nodes.len() == 0 {
        0
    } else {
        cycle_work(nodes.drop_last()) + nodes.last().imports@.len() + 1
    }
}

/// Some chain of imports leads from a file back to itself.
pub open spec fn has_cycle(nodes: Seq<NodeEntry>) -> bool {
    exists|c: Seq<Seq<char>>| #[trigger] is_cycle(nodes, c)
}

/// The work left in the nodes not yet reached (`done` holds the reached ones).
spec fn pend_sum(nodes: Seq<NodeEntry>, done: Set<Seq<char>>) -> nat
    decreases nodes.len(),
{
    if nodes.len() == 0 {
        0
    } else {
        pend_sum(nodes.drop_last(), done) + if done.contains(nodes.last().file_path@) {
            0
        } else {
            nodes.last().imports@.len() + 1
        }
    }
}

/// The work left in the frames of a walk: the neighbours not yet taken, and
/// one for leaving each frame.
spec fn frame_sum(nodes: Seq<NodeEntry>, stack: Seq<(String, usize)>) -> int
    decreases stack.len(),
{
    if stack.len() == 0 {
        0
    } else {
        frame_sum(nodes, stack.drop_last()) + neighbors(nodes, stack.last().0@, TraversalDirection::Imports).len()
            - stack.last().1 + 1
    }
}

spec fn stack_names(stack: Seq<(String, usize)>) -> Seq<Seq<char>> {
    stack.map_values(|f: (String, usize)| f.0@)
}

/// The paths finished or on the stack.
spec fn done_set(fin: Seq<Seq<char>>, stack: Seq<(String, usize)>) -> Set<Seq<char>> {
    Set::new(|x: Seq<char>| fin.contains(x) || stack_names(stack).contains(x))
}

/// `w` was finished before position `a`.
spec fn finished_before(fin: Seq<Seq<char>>, a: int, w: Seq<char>) -> bool {
    exists|b: int| 0 <= b < a && fin[b] == w
}

/// Each finished path's neighbours were finished before it.
spec fn fin_ordered(nodes: Seq<NodeEntry>, fin: Seq<Seq<char>>) -> bool {
    forall|a: int, w: Seq<char>| 0 <= a < fin.len() && #[trigger] neighbors(nodes, fin[a], TraversalDirection::Imports).contains(w)
        ==> finished_before(fin, a, w)
}

/// Each frame's index stays within its neighbours.
spec fn frames_bounded(nodes: Seq<NodeEntry>, stack: Seq<(String, usize)>) -> bool {
    forall|k: int| 0 <= k < stack.len() ==> (#[trigger] stack[k]).1 <= neighbors(nodes, stack[k].0@, TraversalDirection::Imports).len()
}

/// The neighbours a frame has passed are finished, except the one the next
/// frame walks.
spec fn frame_ok(nodes: Seq<NodeEntry>, fin: Seq<Seq<char>>, stack: Seq<(String, usize)>, k: int) -> bool {
    let nb = neighbors(nodes, stack[k].0@, TraversalDirection::Imports);
    let idx = stack[k].1 as int;
    if k < stack.len() - 1 {
        &&& idx >= 1
        &&& nb[idx - 1] == stack[k + 1].0@
        &&& forall|j: int| 0 <= j < idx - 1 ==> fin.contains(#[trigger] nb[j])
    } else {
        forall|j: int| 0 <= j < idx ==> fin.contains(#[trigger] nb[j])
    }
}

spec fn frames_ok(nodes: Seq<NodeEntry>, fin: Seq<Seq<char>>, stack: Seq<(String, usize)>) -> bool {
    forall|k: int| 0 <= k < stack.len() ==> #[trigger] frame_ok(nodes, fin, stack, k)
}

proof fn lemma_pend_le_work(nodes: Seq<NodeEntry>, done: Set<Seq<char>>)
    ensures
        pend_sum(nodes, done) <= cycle_work(nodes),
    decreases nodes.len(),
{
    if nodes.len() > 0 {
        lemma_pend_le_work(nodes.drop_last(), done);
    }
}

proof fn lemma_pend_insert_absent(nodes: Seq<NodeEntry>, done: Set<Seq<char>>, c: Seq<char>)
    requires
        forall|i: int| 0 <= i < nodes.len() ==> (#[trigger] nodes[i]).file_path@ != c,
    ensures
        pend_sum(nodes, done.insert(c)) == pend_sum(nodes, done),
    decreases nodes.len(),
{
    if nodes.len() > 0 {
        let d = nodes.drop_last();
        assert forall|i: int| 0 <= i < d.len() implies (#[trigger] d[i]).file_path@ != c by {
            assert(d[i] == nodes[i]);
        }
        lemma_pend_insert_absent(d, done, c);
        assert(nodes.last() == nodes[nodes.len() - 1]);
    }
}

proof fn lemma_pend_insert(nodes: Seq<NodeEntry>, done: Set<Seq<char>>, j: int)
    requires
        strictly_sorted(node_paths(nodes)),
        0 <= j < nodes.len(),
        !done.contains(nodes[j].file_path@),
    ensures
        pend_sum(nodes, done.insert(nodes[j].file_path@)) + nodes[j].imports@.len() + 1 == pend_sum(nodes, done),
    decreases nodes.len(),
{
    let c = nodes[j].file_path@;
    let d = nodes.drop_last();
    let n = nodes.len() - 1;
    assert(node_paths(d) =~= node_paths(nodes).drop_last());
    if j == n {
        assert forall|i: int| 0 <= i < d.len() implies (#[trigger] d[i]).file_path@ != c by {
            assert(node_paths(nodes)[i] == d[i].file_path@);
            assert(node_paths(nodes)[n] == c);
            lemma_text_lt_irreflexive(c);
        }
        lemma_pend_insert_absent(d, done, c);
    } else {
        assert(node_paths(nodes)[j] == c);
        assert(node_paths(nodes)[n] == nodes.last().file_path@);
        if nodes.last().file_path@ == c {
            lemma_text_lt_irreflexive(c);
        }
        assert(d[j] == nodes[j]);
        lemma_pend_insert(d, done, j);
    }
}

/// With distinct paths, a node's neighbours are its imports.
proof fn lemma_neighbors_index(nodes: Seq<NodeEntry>, j: int)
    requires
        strictly_sorted(node_paths(nodes)),
        0 <= j < nodes.len(),
    ensures
        neighbors(nodes, nodes[j].file_path@, TraversalDirection::Imports) == views(nodes[j].imports@),
    decreases nodes.len(),
{
    if j > 0 {
        let t = nodes.drop_first();
        assert(node_paths(t) =~= node_paths(nodes).drop_first());
        assert(node_paths(nodes)[0] == nodes[0].file_path@);
        assert(node_paths(nodes)[j] == nodes[j].file_path@);
        if nodes[0].file_path@ == nodes[j].file_path@ {
            lemma_text_lt_irreflexive(nodes[0].file_path@);
        }
        assert(t[j - 1] == nodes[j]);
        lemma_neighbors_index(t, j - 1);
    }
}

/// A path with neighbours is the path of a node, whose imports they are.
proof fn lemma_neighbors_source(nodes: Seq<NodeEntry>, k: Seq<char>)
    requires
        neighbors(nodes, k, TraversalDirection::Imports).len() > 0,
    ensures
        exists|i: int| 0 <= i < nodes.len() && nodes[i].file_path@ == k
            && #[trigger] views(nodes[i].imports@) == neighbors(nodes, k, TraversalDirection::Imports),
    decreases nodes.len(),
{
    if nodes[0].file_path@ == k {
        assert(views(nodes[0].imports@) == neighbors(nodes, k, TraversalDirection::Imports));
    } else {
        let t = nodes.drop_first();
        lemma_neighbors_source(t, k);
        let i = choose|i: int| 0 <= i < t.len() && t[i].file_path@ == k
            && #[trigger] views(t[i].imports@) == neighbors(t, k, TraversalDirection::Imports);
        assert(nodes[i + 1] == t[i]);
        assert(views(nodes[i + 1].imports@) == neighbors(nodes, k, TraversalDirection::Imports));
    }
}

/// With imports closed, a neighbour is the path of a node.
proof fn lemma_neighbor_is_node(nodes: Seq<NodeEntry>, k: Seq<char>, w: Seq<char>)
    requires
        imports_closed(nodes),
        neighbors(nodes, k, TraversalDirection::Imports).contains(w),
    ensures
        node_paths(nodes).contains(w),
        node_paths(nodes).contains(k),
{
    lemma_neighbors_source(nodes, k);
    let i = choose|i: int| 0 <= i < nodes.len() && nodes[i].file_path@ == k
        && #[trigger] views(nodes[i].imports@) == neighbors(nodes, k, TraversalDirection::Imports);
    let nb = neighbors(nodes, k, TraversalDirection::Imports);
    let j = choose|j: int| 0 <= j < nb.len() && nb[j] == w;
    assert(views(nodes[i].imports@)[j] == nodes[i].imports@[j]@);
    assert(node_paths(nodes).contains(nodes[i].imports@[j]@));
    assert(node_paths(nodes)[i] == k);
}

proof fn lemma_cycle_work_prefix(nodes: Seq<NodeEntry>, n: int)
    requires
        0 <= n < nodes.len(),
    ensures
        cycle_work(nodes.take(n + 1)) == cycle_work(nodes.take(n)) + nodes[n].imports@.len() + 1,
        cycle_work(nodes.take(n + 1)) <= cycle_work(nodes),
    decreases nodes.len() - n,
{
    assert(nodes.take(n + 1).drop_last() =~= nodes.take(n));
    if n + 1 < nodes.len() {
        lemma_cycle_work_prefix(nodes, n + 1);
    } else {
        assert(nodes.take(n + 1) =~= nodes);
    }
}

proof fn lemma_frame_sum_at_least(nodes: Seq<NodeEntry>, stack: Seq<(String, usize)>)
    requires
        frames_bounded(nodes, stack),
    ensures
        frame_sum(nodes, stack) >= stack.len(),
    decreases stack.len(),
{
    if stack.len() > 0 {
        let d = stack.drop_last();
        assert forall|k: int| 0 <= k < d.len() implies (#[trigger] d[k]).1 <= neighbors(nodes, d[k].0@, TraversalDirection::Imports).len() by {
            assert(d[k] == stack[k]);
        }
        lemma_frame_sum_at_least(nodes, d);
        assert(stack.last() == stack[stack.len() - 1]);
    }
}

/// Going along a cycle from a finished member reaches its end finished
/// earlier.
proof fn lemma_walk_back(nodes: Seq<NodeEntry>, fin: Seq<Seq<char>>, c: Seq<Seq<char>>, t: int, a: int)
    requires
        fin_ordered(nodes, fin),
        is_cycle(nodes, c),
        0 <= t < c.len() - 1,
        0 <= a < fin.len(),
        fin[a] == c[t],
    ensures
        finished_before(fin, a, c[c.len() - 1]),
    decreases c.len() - 1 - t,
{
    assert(neighbors(nodes, c[t], TraversalDirection::Imports).contains(c[t + 1]));
    assert(neighbors(nodes, fin[a], TraversalDirection::Imports).contains(c[t + 1]));
    assert(finished_before(fin, a, c[t + 1]));
    let b = choose|b: int| 0 <= b < a && fin[b] == c[t + 1];
    if t + 1 < c.len() - 1 {
        lemma_walk_back(nodes, fin, c, t + 1, b);
        let b2 = choose|b2: int| 0 <= b2 < b && fin[b2] == c[c.len() - 1];
        assert(0 <= b2 < a && fin[b2] == c[c.len() - 1]);
    }
}

proof fn lemma_no_finished_start(nodes: Seq<NodeEntry>, fin: Seq<Seq<char>>, c: Seq<Seq<char>>, a: int)
    requires
        fin_ordered(nodes, fin),
        is_cycle(nodes, c),
        0 <= a < fin.len(),
    ensures
        fin[a] != c[0],
    decreases a,
{
    if fin[a] == c[0] {
        lemma_walk_back(nodes, fin, c, 0, a);
        let b = choose|b: int| 0 <= b < a && fin[b] == c[c.len() - 1];
        lemma_no_finished_start(nodes, fin, c, b);
    }
}

/// A walk that finished every node, each after its neighbours, saw no cycle.
proof fn lemma_finished_walk_acyclic(nodes: Seq<NodeEntry>, fin: Seq<Seq<char>>)
    requires
        fin_ordered(nodes, fin),
        forall|i: int| 0 <= i < nodes.len() ==> fin.contains(#[trigger] nodes[i].file_path@),
    ensures
        !has_cycle(nodes),
{
    if has_cycle(nodes) {
        let c = choose|c: Seq<Seq<char>>| #[trigger] is_cycle(nodes, c);
        assert(is_cycle(nodes, c));
        let k: int = 0;
        assert(0 <= k < c.len() - 1);
        assert(neighbors(nodes, c[k], TraversalDirection::Imports).contains(c[k + 1]));
        lemma_neighbors_source(nodes, c[0]);
        let i = choose|i: int| 0 <= i < nodes.len() && nodes[i].file_path@ == c[0]
            && #[trigger] views(nodes[i].imports@) == neighbors(nodes, c[0], TraversalDirection::Imports);
        assert(fin.contains(nodes[i].file_path@));
        let a = choose|a: int| 0 <= a < fin.len() && fin[a] == c[0];
        lemma_no_finished_start(nodes, fin, c, a);
    }
}

proof fn lemma_frame_sum_push(nodes: Seq<NodeEntry>, stack: Seq<(String, usize)>, f: (String, usize))
    ensures
        frame_sum(nodes, stack.push(f)) == frame_sum(nodes, stack) + neighbors(nodes, f.0@, TraversalDirection::Imports).len() - f.1 + 1,
{
    assert(stack.push(f).drop_last() =~= stack);
}

proof fn lemma_frame_sum_bump(nodes: Seq<NodeEntry>, stack: Seq<(String, usize)>, f: (String, usize))
    requires
        stack.len() > 0,
        f.0@ == stack.last().0@,
        f.1 == stack.last().1 + 1,
    ensures
        frame_sum(nodes, stack.update(stack.len() - 1, f)) == frame_sum(nodes, stack) - 1,
{
    assert(stack.update(stack.len() - 1, f).drop_last() =~= stack.drop_last());
}

/// The state of the depth-first walk that finds circular chains: the
/// finished paths, the stack of (path, index of the next import to follow),
/// the chains found, and the keys of the chains found.
pub type WalkState = (Set<Seq<char>>, Seq<(Seq<char>, int)>, Seq<Seq<Seq<char>>>, Set<Seq<char>>);

/// The paths on a stack, bottom first.
pub open spec fn frame_paths(stack: Seq<(Seq<char>, int)>) -> Seq<Seq<char>> {
    stack.map_values(|f: (Seq<char>, int)| f.0)
}

/// The first position of `x` in `s` (`s.len()` when absent).
pub open spec fn first_pos(s: Seq<Seq<char>>, x: Seq<char>) -> int
    decreases s.len(),
{
    if s.len() == 0 {
        0
    } else if s[0] == x {
        0
    } else {
        1 + first_pos(s.drop_first(), x)
    }
}

/// One step of the walk from a non-empty stack. When the top path has no
/// import left it is finished and leaves the stack. Otherwise its next
/// import is taken: if that path is on the stack, the chain from its first
/// place on the stack up to the top, closed by it, is found, and kept when
/// no chain with the same key was kept before; else if it is not finished,
/// it is pushed.
pub open spec fn walk_step(nodes: Seq<NodeEntry>, st: WalkState) -> WalkState {
    let (finished, stack, found, keys) = st;
    let top = stack.len() - 1;
    let node = stack[top].0;
    let idx = stack[top].1;
    let nb = neighbors(nodes, node, TraversalDirection::Imports);
    if idx >= nb.len() {
        (finished.insert(node), stack.drop_last(), found, keys)
    } else {
        let child = nb[idx];
        let moved = stack.update(top, (node, idx + 1));
        let paths = frame_paths(moved);
        if paths.contains(child) {
            let chain = paths.subrange(first_pos(paths, child), paths.len() as int).push(child);
            let key = cycle_key(chain.to_multiset());
            if keys.contains(key) {
                (finished, moved, found, keys)
            } else {
                (finished, moved, found.push(chain), keys.insert(key))
            }
        } else if !finished.contains(child) {
            (finished, moved.push((child, 0)), found, keys)
        } else {
            (finished, moved, found, keys)
        }
    }
}

/// Steps of the walk until the stack is empty, at most `fuel` of them.
pub open spec fn walk_steps(nodes: Seq<NodeEntry>, st: WalkState, fuel: nat) -> WalkState
    decreases fuel,
{
    if fuel == 0 || st.1.len() == 0 {
        st
    } else {
        walk_steps(nodes, walk_step(nodes, st), (fuel - 1) as nat)
    }
}

/// Walks from each path in node order, from position `s` on, that is not
/// finished yet; each walk starts with that path alone on the stack.
pub open spec fn walks_from(nodes: Seq<NodeEntry>, st: WalkState, s: int, fuel: nat) -> WalkState
    decreases nodes.len() - s,
{
    if s < 0 || s >= nodes.len() {
        st
    } else if st.0.contains(nodes[s].file_path@) {
        walks_from(nodes, st, s + 1, fuel)
    } else {
        let w = walk_steps(nodes, (st.0, seq![(nodes[s].file_path@, 0int)], st.2, st.3), fuel);
        walks_from(nodes, (w.0, Seq::empty(), w.2, w.3), s + 1, fuel)
    }
}

/// The circular chains the depth-first walk finds, in the order found, one
/// per key. Each walk is bounded by one step per node and per import, a
/// bound no walk reaches on a graph whose paths are distinct and whose
/// imports are all nodes.
pub open spec fn walk_cycles(nodes: Seq<NodeEntry>) -> Seq<Seq<Seq<char>>> {
    walks_from(nodes, (Set::empty(), Seq::empty(), Seq::empty(), Set::empty()), 0, cycle_work(nodes) + 1).2
}

/// The chains as plain values.
pub open spec fn chains_view(r: Seq<Vec<String>>) -> Seq<Seq<Seq<char>>> {
    r.map_values(|c: Vec<String>| views(c@))
}

/// The walk state of the running search.
spec fn state_of(visited: Seq<String>, stack: Seq<(String, usize)>, cycles: Seq<Vec<String>>, keys: Seq<String>) -> WalkState {
    (
        Set::new(|x: Seq<char>| views(visited).contains(x)),
        stack.map_values(|f: (String, usize)| (f.0@, f.1 as int)),
        chains_view(cycles),
        Set::new(|x: Seq<char>| views(keys).contains(x)),
    )
}

proof fn lemma_first_pos(s: Seq<Seq<char>>, x: Seq<char>, p: int)
    requires
        0 <= p < s.len(),
        s[p] == x,
        forall|q: int| 0 <= q < p ==> s[q] != x,
    ensures
        first_pos(s, x) == p,
    decreases p,
{
    if p > 0 {
        assert(s[0] != x);
        lemma_first_pos(s.drop_first(), x, p - 1);
    }
}

/// Circular dependency chains found by a depth-first walk along imports,
/// each chain reported once per key: exactly the chains of `walk_cycles`,
/// when the walk's step count fits. When the paths are also distinct and
/// every import is a node, no chain is reported only if the graph has no
/// cycle at all.
pub fn detect_cycles(nodes: &Vec<NodeEntry>) -> (r: Vec<Vec<String>>)
    ensures
        forall|i: int| 0 <= i < r@.len() ==> is_cycle(nodes@, views(#[trigger] r@[i]@)),
        forall|i: int, j: int| 0 <= i < j < r@.len() ==> views((#[trigger] r@[i])@).to_multiset() != views((#[trigger] r@[j])@).to_multiset(),
        strictly_sorted(node_paths(nodes@)) && imports_closed(nodes@) && cycle_work(nodes@) + 2 < usize::MAX
            && r@.len() == 0 ==> !has_cycle(nodes@),
        cycle_work(nodes@) + 2 < usize::MAX ==> chains_view(r@) == walk_cycles(nodes@),
{
    let ghost fits = cycle_work(nodes@) + 2 < usize::MAX;
    let ghost ok = strictly_sorted(node_paths(nodes@)) && imports_closed(nodes@) && cycle_work(nodes@) + 2 < usize::MAX;
    let ghost mut fin: Seq<Seq<char>> = Seq::empty();
    let mut cycles: Vec<Vec<String>> = Vec::new();
    let mut visited: Vec<String> = Vec::new();
    let mut seen_keys: Vec<String> = Vec::new();
    let mut budget: usize = 1;
    let mut n: usize = 0;
    assert(nodes@.take(0) =~= Seq::<NodeEntry>::empty());
    while n < nodes.len()
        invariant
            n <= nodes@.len(),
            ok == (strictly_sorted(node_paths(nodes@)) && imports_closed(nodes@) && cycle_work(nodes@) + 2 < usize::MAX),
            fits == (cycle_work(nodes@) + 2 < usize::MAX),
            fits ==> budget == cycle_work(nodes@.take(n as int)) + 1,
            cycles@.len() == 0,
            seen_keys@.len() == 0,
            visited@.len() == 0,
            fin.len() == 0,
        decreases nodes@.len() - n,
    {
        let x = nodes[n].imports.len();
        proof {
            lemma_cycle_work_prefix(nodes@, n as int);
        }
        if x < usize::MAX - 1 && budget < usize::MAX - 1 - x {
            budget = budget + x + 1;
        }
        n = n + 1;
    }
    assert(nodes@.take(n as int) =~= nodes@);
    assert(views(visited@) =~= Seq::<Seq<char>>::empty());
    assert(views(seen_keys@) =~= Seq::<Seq<char>>::empty());
    let ghost init: WalkState = (Set::empty(), Seq::empty(), Seq::empty(), Set::empty());
    proof {
        let st = state_of(visited@, Seq::empty(), cycles@, seen_keys@);
        assert(st.0 =~= init.0);
        assert(st.1 =~= init.1);
        assert(st.2 =~= init.2);
        assert(st.3 =~= init.3);
    }
    let mut s: usize = 0;
    while s < nodes.len()
        invariant
            s <= nodes@.len(),
            ok == (strictly_sorted(node_paths(nodes@)) && imports_closed(nodes@) && cycle_work(nodes@) + 2 < usize::MAX),
            fits == (cycle_work(nodes@) + 2 < usize::MAX),
            fits ==> budget == cycle_work(nodes@) + 1,
            forall|i: int| 0 <= i < cycles@.len() ==> is_cycle(nodes@, views(#[trigger] cycles@[i]@)),
            forall|i: int, j: int| 0 <= i < j < cycles@.len() ==> views((#[trigger] cycles@[i])@).to_multiset() != views((#[trigger] cycles@[j])@).to_multiset(),
            forall|i: int| 0 <= i < cycles@.len() ==> views(seen_keys@).contains(cycle_key(views((#[trigger] cycles@[i])@).to_multiset())),
            seen_keys@.len() == cycles@.len(),
            strictly_sorted(views(visited@)),
            strictly_sorted(views(seen_keys@)),
            forall|x: Seq<char>| views(visited@).contains(x) <==> fin.contains(x),
            cycles@.len() == 0 ==> fin_ordered(nodes@, fin),
            ok ==> forall|i: int| 0 <= i < s ==> fin.contains(#[trigger] nodes@[i].file_path@),
            walks_from(nodes@, state_of(visited@, Seq::empty(), cycles@, seen_keys@), s as int, budget as nat)
                == walks_from(nodes@, init, 0, budget as nat),
        decreases nodes@.len() - s,
    {
        if contains_string(&visited, nodes[s].file_path.as_str()) {
            assert(state_of(visited@, Seq::empty(), cycles@, seen_keys@).0.contains(nodes@[s as int].file_path@));
            s = s + 1;
            continue;
        }
        let ghost start = nodes@[s as int].file_path@;
        let mut stack: Vec<(String, usize)> = Vec::new();
        stack.push((nodes[s].file_path.clone(), 0));
        proof {
            assert(stack_names(stack@) =~= seq![start]);
            assert(stack@ =~= Seq::<(String, usize)>::empty().push(stack@[0]));
            lemma_frame_sum_push(nodes@, Seq::<(String, usize)>::empty(), stack@[0]);
            assert(frames_ok(nodes@, fin, stack@)) by {
                assert forall|k: int| 0 <= k < stack@.len() implies #[trigger] frame_ok(nodes@, fin, stack@, k) by {
                    assert(k == 0);
                }
            }
            if ok {
                let done0 = done_set(fin, Seq::<(String, usize)>::empty());
                assert(!done0.contains(start)) by {
                    assert(stack_names(Seq::<(String, usize)>::empty()) =~= Seq::<Seq<char>>::empty());
                }
                lemma_pend_insert(nodes@, done0, s as int);
                assert(done_set(fin, stack@) =~= done0.insert(start)) by {
                    assert(stack_names(Seq::<(String, usize)>::empty()) =~= Seq::<Seq<char>>::empty());
                    assert forall|x: Seq<char>| done_set(fin, stack@).contains(x) <==> done0.insert(start).contains(x) by {
                        if stack_names(stack@).contains(x) {
                            assert(stack_names(stack@)[0] == start);
                        }
                        if x == start {
                            assert(stack_names(stack@)[0] == start);
                        }
                    }
                }
                lemma_neighbors_index(nodes@, s as int);
                lemma_pend_le_work(nodes@, done0);
            }
        }
        let ghost outer_st = state_of(visited@, Seq::empty(), cycles@, seen_keys@);
        let ghost walk_start = state_of(visited@, stack@, cycles@, seen_keys@);
        proof {
            assert(walk_start.1 =~= seq![(start, 0int)]);
            assert(walk_start == (outer_st.0, seq![(nodes@[s as int].file_path@, 0int)], outer_st.2, outer_st.3));
        }
        let ghost walk_end = walk_steps(nodes@, walk_start, budget as nat);
        let mut steps: usize = 0;
        while stack.len() > 0 && steps < budget
            invariant
                steps <= budget,
                walk_steps(nodes@, state_of(visited@, stack@, cycles@, seen_keys@), (budget - steps) as nat) == walk_end,
                s < nodes@.len(),
                start == nodes@[s as int].file_path@,
                ok == (strictly_sorted(node_paths(nodes@)) && imports_closed(nodes@) && cycle_work(nodes@) + 2 < usize::MAX),
                fits == (cycle_work(nodes@) + 2 < usize::MAX),
            fits ==> budget == cycle_work(nodes@) + 1,
                forall|i: int| 0 <= i < cycles@.len() ==> is_cycle(nodes@, views(#[trigger] cycles@[i]@)),
                forall|i: int, j: int| 0 <= i < j < cycles@.len() ==> views((#[trigger] cycles@[i])@).to_multiset() != views((#[trigger] cycles@[j])@).to_multiset(),
                forall|i: int| 0 <= i < cycles@.len() ==> views(seen_keys@).contains(cycle_key(views((#[trigger] cycles@[i])@).to_multiset())),
                seen_keys@.len() == cycles@.len(),
                strictly_sorted(views(visited@)),
                strictly_sorted(views(seen_keys@)),
                forall|x: Seq<char>| views(visited@).contains(x) <==> fin.contains(x),
                forall|k: int| 0 <= k < stack@.len() - 1 ==> #[trigger] neighbors(nodes@, stack@[k].0@, TraversalDirection::Imports).contains(stack@[k + 1].0@),
                stack@.len() > 0 ==> stack@[0].0@ == start,
                stack@.len() == 0 ==> fin.contains(start),
                frames_bounded(nodes@, stack@),
                cycles@.len() == 0 ==> fin_ordered(nodes@, fin) && frames_ok(nodes@, fin, stack@),
                ok ==> steps + frame_sum(nodes@, stack@) + pend_sum(nodes@, done_set(fin, stack@)) <= cycle_work(nodes@),
                ok ==> forall|i: int| 0 <= i < s ==> fin.contains(#[trigger] nodes@[i].file_path@),
            decreases budget - steps,
        {
            let ghost st0 = state_of(visited@, stack@, cycles@, seen_keys@);
            steps = steps + 1;
            let top = stack.len() - 1;
            let node = stack[top].0.clone();
            let child_idx = stack[top].1;
            let children = neighbors_of(nodes, node.as_str(), TraversalDirection::Imports);
            let ghost nb = neighbors(nodes@, node@, TraversalDirection::Imports);
            proof {
                assert(st0.1[top as int] == (node@, child_idx as int));
                assert(walk_steps(nodes@, st0, (budget - steps + 1) as nat)
                    == walk_steps(nodes@, walk_step(nodes@, st0), (budget - steps) as nat));
            }
            if child_idx >= children.len() {
                let ghost before = stack@;
                let ghost fin0 = fin;
                stack.pop();
                assert forall|k: int| 0 <= k < stack@.len() - 1 implies #[trigger] neighbors(nodes@, stack@[k].0@, TraversalDirection::Imports).contains(stack@[k + 1].0@) by {
                    assert(stack@[k] == before[k] && stack@[k + 1] == before[k + 1]);
                }
                set_insert(&mut visited, node);
                proof {
                    fin = fin.push(node@);
                    assert(stack@ =~= before.drop_last());
                    assert(before[top as int].1 == nb.len()) by {
                        assert(before[top as int] == before[top as int]);
                    }
                    assert(frames_bounded(nodes@, stack@)) by {
                        assert forall|k: int| 0 <= k < stack@.len() implies (#[trigger] stack@[k]).1 <= neighbors(nodes@, stack@[k].0@, TraversalDirection::Imports).len() by {
                            assert(stack@[k] == before[k]);
                        }
                    }
                    assert forall|x: Seq<char>| views(visited@).contains(x) <==> fin.contains(x) by {
                        assert(fin.contains(x) <==> (fin0.contains(x) || x == node@)) by {
                            if fin.contains(x) {
                                let q = choose|q: int| 0 <= q < fin.len() && fin[q] == x;
                                if q < fin0.len() {
                                    assert(fin0[q] == x);
                                }
                            }
                            if fin0.contains(x) {
                                let q = choose|q: int| 0 <= q < fin0.len() && fin0[q] == x;
                                assert(fin[q] == x);
                            }
                            if x == node@ {
                                assert(fin[fin0.len() as int] == x);
                            }
                        }
                    }
                    assert forall|x: Seq<char>| fin0.contains(x) implies fin.contains(x) by {
                        let q = choose|q: int| 0 <= q < fin0.len() && fin0[q] == x;
                        assert(fin[q] == x);
                    }
                    assert(fin.contains(node@)) by {
                        assert(fin[fin0.len() as int] == node@);
                    }
                    if stack@.len() == 0 {
                        assert(before[0].0@ == start);
                    } else {
                        assert(stack@[0] == before[0]);
                    }
                    assert(done_set(fin, stack@) =~= done_set(fin0, before)) by {
                        assert forall|x: Seq<char>| done_set(fin, stack@).contains(x) <==> done_set(fin0, before).contains(x) by {
                            if stack_names(stack@).contains(x) {
                                let q = choose|q: int| 0 <= q < stack_names(stack@).len() && stack_names(stack@)[q] == x;
                                assert(stack_names(before)[q] == x);
                            }
                            if stack_names(before).contains(x) {
                                let q = choose|q: int| 0 <= q < stack_names(before).len() && stack_names(before)[q] == x;
                                if q < stack@.len() {
                                    assert(stack_names(stack@)[q] == x);
                                } else {
                                    assert(x == node@);
                                }
                            }
                            if fin.contains(x) {
                                let q = choose|q: int| 0 <= q < fin.len() && fin[q] == x;
                                if q < fin0.len() {
                                    assert(fin0[q] == x);
                                } else {
                                    assert(stack_names(before)[top as int] == x);
                                }
                            }
                        }
                    }
                    if cycles@.len() == 0 {
                        assert(frame_ok(nodes@, fin0, before, top as int));
                        assert forall|a: int, w: Seq<char>| 0 <= a < fin.len() && #[trigger] neighbors(nodes@, fin[a], TraversalDirection::Imports).contains(w)
                            implies finished_before(fin, a, w) by {
                            if a < fin0.len() {
                                assert(fin[a] == fin0[a]);
                                assert(finished_before(fin0, a, w));
                                let b = choose|b: int| 0 <= b < a && fin0[b] == w;
                                assert(fin[b] == w);
                            } else {
                                assert(fin[a] == node@);
                                let j = choose|j: int| 0 <= j < nb.len() && nb[j] == w;
                                assert(fin0.contains(nb[j]));
                                let b = choose|b: int| 0 <= b < fin0.len() && fin0[b] == w;
                                assert(fin[b] == w);
                            }
                        }
                        assert forall|k: int| 0 <= k < stack@.len() implies #[trigger] frame_ok(nodes@, fin, stack@, k) by {
                            assert(frame_ok(nodes@, fin0, before, k));
                            assert(stack@[k] == before[k]);
                            let nbk = neighbors(nodes@, stack@[k].0@, TraversalDirection::Imports);
                            if k < stack@.len() - 1 {
                                assert(stack@[k + 1] == before[k + 1]);
                                assert forall|j: int| 0 <= j < stack@[k].1 - 1 implies fin.contains(#[trigger] nbk[j]) by {
                                    assert(fin0.contains(nbk[j]));
                                }
                            } else {
                                assert forall|j: int| 0 <= j < stack@[k].1 implies fin.contains(#[trigger] nbk[j]) by {
                                    if j < stack@[k].1 - 1 {
                                        assert(fin0.contains(nbk[j]));
                                    } else {
                                        assert(nbk[j] == before[k + 1].0@);
                                    }
                                }
                            }
                        }
                    }
                    if ok {
                        assert(frame_sum(nodes@, before) == frame_sum(nodes@, stack@) + 1);
                        assert forall|i: int| 0 <= i < s implies fin.contains(#[trigger] nodes@[i].file_path@) by {
                            assert(fin0.contains(nodes@[i].file_path@));
                        }
                    }
                }
                proof {
                    let st1 = state_of(visited@, stack@, cycles@, seen_keys@);
                    assert(st1.0 =~= st0.0.insert(node@));
                    assert(st1.1 =~= st0.1.drop_last());
                    assert(st1 == walk_step(nodes@, st0));
                }
                continue;
            }
            let child = children[child_idx].clone();
            let ghost child_v = child@;
            let ghost before = stack@;
            let ghost fin0 = fin;
            stack.set(top, (node.clone(), child_idx + 1));
            let ghost moved = st0.1.update(top as int, (node@, child_idx + 1));
            assert(state_of(visited@, stack@, cycles@, seen_keys@).1 =~= moved);
            assert(frame_paths(moved) =~= stack@.map_values(|f: (String, usize)| f.0@));
            assert forall|k: int| 0 <= k < stack@.len() - 1 implies #[trigger] neighbors(nodes@, stack@[k].0@, TraversalDirection::Imports).contains(stack@[k + 1].0@) by {
                assert(stack@[k].0@ == before[k].0@ && stack@[k + 1].0@ == before[k + 1].0@);
            }
            assert(neighbors(nodes@, stack@[top as int].0@, TraversalDirection::Imports).contains(child@)) by {
                assert(views(children@)[child_idx as int] == child@);
            }
            proof {
                assert(child@ == nb[child_idx as int]) by {
                    assert(views(children@)[child_idx as int] == child@);
                }
                assert(frames_bounded(nodes@, stack@)) by {
                    assert forall|k: int| 0 <= k < stack@.len() implies (#[trigger] stack@[k]).1 <= neighbors(nodes@, stack@[k].0@, TraversalDirection::Imports).len() by {
                        if k != top {
                            assert(stack@[k] == before[k]);
                        }
                    }
                }
                assert(stack_names(stack@) =~= stack_names(before));
                assert(done_set(fin, stack@) =~= done_set(fin, before));
                assert(stack@ == before.update(top as int, stack@[top as int]));
                lemma_frame_sum_bump(nodes@, before, stack@[top as int]);
                if stack@.len() > 0 && top > 0 {
                    assert(stack@[0] == before[0]);
                }
            }
            let mut pos: usize = 0;
            while pos < stack.len() && !str_eq(stack[pos].0.as_str(), child.as_str())
                invariant
                    pos <= stack@.len(),
                    forall|q: int| 0 <= q < pos ==> (#[trigger] stack@[q]).0@ != child@,
                decreases stack@.len() - pos,
            {
                pos = pos + 1;
            }
            if pos < stack.len() {
                let mut cycle: Vec<String> = Vec::new();
                let mut k = pos;
                while k < stack.len()
                    invariant
                        pos <= k <= stack@.len(),
                        pos < stack@.len(),
                        stack@[pos as int].0@ == child@,
                        cycle@.len() == k - pos,
                        forall|a: int| 0 <= a < cycle@.len() ==> (#[trigger] cycle@[a])@ == stack@[pos + a].0@,
                    decreases stack@.len() - k,
                {
                    cycle.push(stack[k].0.clone());
                    k = k + 1;
                }
                cycle.push(child.clone());
                proof {
                    let c = views(cycle@);
                    assert(c.len() >= 2);
                    assert(c[0] == child@);
                    assert(c.last() == child@);
                    assert forall|a: int| 0 <= a < c.len() - 1 implies #[trigger] neighbors(nodes@, c[a], TraversalDirection::Imports).contains(c[a + 1]) by {
                        assert(c[a] == stack@[pos + a].0@);
                        if a + 1 < c.len() - 1 {
                            assert(c[a + 1] == stack@[pos + a + 1].0@);
                        } else {
                            assert(pos + a == top);
                        }
                    }
                }
                let sorted = sort_strings(&cycle);
                let key = join_strings(&sorted, "|");
                proof {
                    lemma_sorted_key(views(cycle@), views(sorted@));
                }
                let ghost old_keys = views(seen_keys@);
                let ghost old_cycles = cycles@;
                let ghost cv = views(cycle@);
                proof {
                    let paths = frame_paths(moved);
                    assert(paths[pos as int] == child@);
                    assert forall|q: int| 0 <= q < pos implies paths[q] != child@ by {
                        assert(paths[q] == stack@[q].0@);
                    }
                    lemma_first_pos(paths, child@, pos as int);
                    assert(paths.contains(child@));
                    assert(cv =~= paths.subrange(pos as int, paths.len() as int).push(child@));
                }
                if set_insert(&mut seen_keys, key) {
                    cycles.push(cycle);
                    proof {
                        assert forall|i: int| 0 <= i < cycles@.len() implies views(seen_keys@).contains(cycle_key(views((#[trigger] cycles@[i])@).to_multiset())) by {
                            if i < old_cycles.len() {
                                assert(cycles@[i] == old_cycles[i]);
                            }
                        }
                        assert forall|i: int, j: int| 0 <= i < j < cycles@.len() implies views((#[trigger] cycles@[i])@).to_multiset() != views((#[trigger] cycles@[j])@).to_multiset() by {
                            assert(cycles@[i] == old_cycles[i]);
                            if j < old_cycles.len() {
                                assert(cycles@[j] == old_cycles[j]);
                            } else {
                                assert(old_keys.contains(cycle_key(views(old_cycles[i]@).to_multiset())));
                                assert(!old_keys.contains(key@));
                            }
                        }
                    }
                    proof {
                        let st1 = state_of(visited@, stack@, cycles@, seen_keys@);
                        assert(st1.2 =~= st0.2.push(cv));
                        assert(st1.3 =~= st0.3.insert(key@));
                        assert(st1 == walk_step(nodes@, st0));
                    }
                } else {
                    proof {
                        assert(old_keys.contains(key@));
                        assert(old_keys.len() > 0);
                        let st1 = state_of(visited@, stack@, cycles@, seen_keys@);
                        assert(st1.3 =~= st0.3);
                        assert(st1 == walk_step(nodes@, st0));
                    }
                }
            } else if !contains_string(&visited, child.as_str()) {
                let ghost mid = stack@;
                proof {
                    assert(!frame_paths(moved).contains(child_v)) by {
                        if frame_paths(moved).contains(child_v) {
                            let q = choose|q: int| 0 <= q < frame_paths(moved).len() && frame_paths(moved)[q] == child_v;
                            assert(stack@[q].0@ == child_v);
                        }
                    }
                }
                stack.push((child, 0));
                proof {
                    let st1 = state_of(visited@, stack@, cycles@, seen_keys@);
                    assert(st1.1 =~= moved.push((child_v, 0int)));
                    assert(st1 == walk_step(nodes@, st0));
                }
                assert forall|k: int| 0 <= k < stack@.len() - 1 implies #[trigger] neighbors(nodes@, stack@[k].0@, TraversalDirection::Imports).contains(stack@[k + 1].0@) by {
                    if k < mid.len() - 1 {
                        assert(stack@[k] == mid[k] && stack@[k + 1] == mid[k + 1]);
                    } else {
                        assert(stack@[k] == mid[top as int]);
                    }
                }
                proof {
                    assert(stack@ == mid.push(stack@[mid.len() as int]));
                    assert(stack@[0] == mid[0]);
                    assert(frames_bounded(nodes@, stack@)) by {
                        assert forall|k: int| 0 <= k < stack@.len() implies (#[trigger] stack@[k]).1 <= neighbors(nodes@, stack@[k].0@, TraversalDirection::Imports).len() by {
                            if k < mid.len() {
                                assert(stack@[k] == mid[k]);
                            }
                        }
                    }
                    if cycles@.len() == 0 {
                        assert(frame_ok(nodes@, fin, before, top as int));
                        assert forall|k: int| 0 <= k < stack@.len() implies #[trigger] frame_ok(nodes@, fin, stack@, k) by {
                            if k < top {
                                assert(frame_ok(nodes@, fin, before, k));
                                assert(stack@[k] == mid[k] && mid[k] == before[k]);
                                if k + 1 < top {
                                    assert(stack@[k + 1] == before[k + 1]);
                                } else {
                                    assert(stack@[k + 1].0@ == before[k + 1].0@);
                                }
                            } else if k == top {
                                assert(stack@[k].0@ == before[k].0@);
                                assert(stack@[k + 1].0@ == child@);
                            }
                        }
                    }
                    if ok {
                        let done = done_set(fin, mid);
                        assert(!done.contains(child@)) by {
                            if stack_names(mid).contains(child@) {
                                let q = choose|q: int| 0 <= q < stack_names(mid).len() && stack_names(mid)[q] == child@;
                                assert(mid[q].0@ == child@);
                            }
                        }
                        lemma_neighbor_is_node(nodes@, node@, child@);
                        let j = choose|j: int| 0 <= j < node_paths(nodes@).len() && node_paths(nodes@)[j] == child@;
                        assert(nodes@[j].file_path@ == child@);
                        lemma_pend_insert(nodes@, done, j);
                        lemma_neighbors_index(nodes@, j);
                        lemma_frame_sum_push(nodes@, mid, stack@[mid.len() as int]);
                        assert(done_set(fin, stack@) =~= done.insert(child@)) by {
                            assert(stack_names(stack@) =~= stack_names(mid).push(child@));
                            assert forall|x: Seq<char>| stack_names(stack@).contains(x) <==> (stack_names(mid).contains(x) || x == child@) by {
                                lemma_contains_push(stack_names(mid), child@, x);
                            }
                        }
                    }
                }
            } else {
                proof {
                    assert(!frame_paths(moved).contains(child_v)) by {
                        if frame_paths(moved).contains(child_v) {
                            let q = choose|q: int| 0 <= q < frame_paths(moved).len() && frame_paths(moved)[q] == child_v;
                            assert(stack@[q].0@ == child_v);
                        }
                    }
                    assert(st0.0.contains(child_v));
                    assert(state_of(visited@, stack@, cycles@, seen_keys@) == walk_step(nodes@, st0));
                    if cycles@.len() == 0 {
                        assert(fin.contains(child@));
                        assert(frame_ok(nodes@, fin, before, top as int));
                        assert forall|k: int| 0 <= k < stack@.len() implies #[trigger] frame_ok(nodes@, fin, stack@, k) by {
                            if k < top {
                                assert(frame_ok(nodes@, fin, before, k));
                                assert(stack@[k] == before[k]);
                                if k + 1 < top {
                                    assert(stack@[k + 1] == before[k + 1]);
                                } else {
                                    assert(stack@[k + 1].0@ == before[k + 1].0@);
                                }
                            } else {
                                let nbk = neighbors(nodes@, stack@[k].0@, TraversalDirection::Imports);
                                assert(nbk == nb);
                                assert forall|j: int| 0 <= j < stack@[k].1 implies fin.contains(#[trigger] nbk[j]) by {
                                    if j < child_idx {
                                    } else {
                                        assert(nbk[j] == child@);
                                    }
                                }
                            }
                        }
                    }
                }
            }
        }
        proof {
            let st_end = state_of(visited@, stack@, cycles@, seen_keys@);
            assert(walk_steps(nodes@, st_end, (budget - steps) as nat) == st_end);
            let next = state_of(visited@, Seq::empty(), cycles@, seen_keys@);
            assert(next == (walk_end.0, Seq::<(Seq<char>, int)>::empty(), walk_end.2, walk_end.3));
            assert(walks_from(nodes@, outer_st, s as int, budget as nat) == walks_from(nodes@, next, s + 1, budget as nat));
            if ok {
                lemma_frame_sum_at_least(nodes@, stack@);
                assert(stack@.len() == 0);
                assert forall|i: int| 0 <= i < s + 1 implies fin.contains(#[trigger] nodes@[i].file_path@) by {
                    if i < s {
                    } else {
                        assert(nodes@[i].file_path@ == start);
                    }
                }
            }
        }
        s = s + 1;
    }
    proof {
        if ok && cycles@.len() == 0 {
            lemma_finished_walk_acyclic(nodes@, fin);
        }
        assert(walks_from(nodes@, state_of(visited@, Seq::empty(), cycles@, seen_keys@), s as int, budget as nat)
            == state_of(visited@, Seq::empty(), cycles@, seen_keys@));
    }
    cycles
}

/// The metrics of a graph: file and edge counts, the ten files with the
/// most imports and the ten imported most, and the circular chains.
pub fn compute_metrics(nodes: &Vec<NodeEntry>, edges: &Vec<GraphEdge>) -> (r: GraphMetrics)
    requires
        strictly_sorted(node_paths(nodes@)),
    ensures
        r.total_files == nodes@.len(),
        r.total_internal_edges == edges_view(edges@).filter(|e: EdgeV| e.3 == true).len(),
        r.total_external_edges == edges_view(edges@).filter(|e: EdgeV| e.3 == false).len(),
        top_ranked(metrics_view(r.most_importing@), rank_items(nodes@, true)),
        top_ranked(metrics_view(r.most_imported@), rank_items(nodes@, false)),
        forall|i: int| 0 <= i < r.cycles@.len() ==> is_cycle(nodes@, views(#[trigger] r.cycles@[i]@)),
        forall|i: int, j: int| 0 <= i < j < r.cycles@.len() ==> views((#[trigger] r.cycles@[i])@).to_multiset() != views((#[trigger] r.cycles@[j])@).to_multiset(),
        imports_closed(nodes@) && cycle_work(nodes@) + 2 < usize::MAX && r.cycles@.len() == 0 ==> !has_cycle(nodes@),
        cycle_work(nodes@) + 2 < usize::MAX ==> chains_view(r.cycles@) == walk_cycles(nodes@),
        r.circular_dependencies == r.cycles@.len(),
{
    let cycles = detect_cycles(nodes);
    GraphMetrics {
        total_files: nodes.len() as u64,
        total_internal_edges: count_edges(edges, true),
        total_external_edges: count_edges(edges, false),
        circular_dependencies: cycles.len() as u64,
        most_importing: top_files(nodes, true),
        most_imported: top_files(nodes, false),
        cycles,
    }
}

} // verus!
