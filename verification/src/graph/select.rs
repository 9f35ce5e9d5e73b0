//! Selecting the part of a dependency graph that a focus or a query asks
//! for: walks along imports or importers, to a depth or to the end.
use vstd::prelude::*;
use vstd::seq_lib::*;
use vstd::set_lib::*;
use crate::graph::types::{GraphQuery, NodeEntry};
use crate::paths::{strip_prefix, strip_prefix_spec, views};
use crate::strset::{as_set, lemma_sorted_no_duplicates, set_extend, set_from, set_insert, strictly_sorted};
use crate::text::{seq_starts_with, starts_with, str_eq};

verus! {

/// Which edges a walk follows.
#[derive(Debug, Clone, Copy, PartialEq, Eq, Structural)]
pub enum TraversalDirection {
    /// From a file to the files it imports.
    Imports,
    /// From a file to the files that import it.
    ImportedBy,
}

/// The neighbours of `k` in the node map (none when `k` is not a node).
pub open spec fn neighbors(nodes: Seq<NodeEntry>, k: Seq<char>, dir: TraversalDirection) -> Seq<Seq<char>>
    decreases nodes.len(),
{
    if nodes.len() == 0 {
        Seq::empty()
    } else if nodes[0].file_path@ == k {
        match dir {
            TraversalDirection::Imports => views(nodes[0].imports@),
            TraversalDirection::ImportedBy => views(nodes[0].imported_by@),
        }
    } else {
        neighbors(nodes.drop_first(), k, dir)
    }
}

/// `s` together with the neighbours of its members.
pub open spec fn expand(nodes: Seq<NodeEntry>, s: Set<Seq<char>>, dir: TraversalDirection) -> Set<Seq<char>> {
    s.union(Set::new(|t: Seq<char>| exists|x: Seq<char>| s.contains(x) && #[trigger] neighbors(nodes, x, dir).contains(t)))
}

/// The files reachable from `roots` in at most `n` steps.
pub open spec fn reach(nodes: Seq<NodeEntry>, roots: Set<Seq<char>>, n: nat, dir: TraversalDirection) -> Set<Seq<char>>
    decreases n,
{
    if n == 0 {
        roots
    } else {
        expand(nodes, reach(nodes, roots, (n - 1) as nat, dir), dir)
    }
}

/// The files reachable from `roots` in any number of steps.
pub open spec fn closure(nodes: Seq<NodeEntry>, roots: Set<Seq<char>>, dir: TraversalDirection) -> Set<Seq<char>> {
    Set::new(|t: Seq<char>| exists|n: nat| #[trigger] reach(nodes, roots, n, dir).contains(t))
}

/// What a walk from `roots` gives: with a depth `d`, the files within `d + 1`
/// steps (the roots' direct neighbours are at depth 0); without one, every
/// reachable file.
pub open spec fn traversal_set(nodes: Seq<NodeEntry>, roots: Set<Seq<char>>, depth: Option<u32>, dir: TraversalDirection) -> Set<Seq<char>> {
    match depth {
        Some(d) => reach(nodes, roots, (if d < u32::MAX { d + 1 } else { d as int }) as nat, dir),
        None => closure(nodes, roots, dir),
    }
}

pub proof fn lemma_reach_grows(nodes: Seq<NodeEntry>, roots: Set<Seq<char>>, m: nat, n: nat, dir: TraversalDirection)
    requires
        m <= n,
    ensures
        reach(nodes, roots, m, dir).subset_of(reach(nodes, roots, n, dir)),
    decreases n - m,
{
    if m < n {
        lemma_reach_grows(nodes, roots, m, (n - 1) as nat, dir);
    }
}

pub proof fn lemma_reach_stable(nodes: Seq<NodeEntry>, roots: Set<Seq<char>>, n: nat, m: nat, dir: TraversalDirection)
    requires
        reach(nodes, roots, n + 1, dir) == reach(nodes, roots, n, dir),
        n <= m,
    ensures
        reach(nodes, roots, m, dir) == reach(nodes, roots, n, dir),
    decreases m - n,
{
    if n < m {
        lemma_reach_stable(nodes, roots, n, (m - 1) as nat, dir);
    }
}

pub proof fn lemma_closure_at_fixpoint(nodes: Seq<NodeEntry>, roots: Set<Seq<char>>, n: nat, dir: TraversalDirection)
    requires
        reach(nodes, roots, n + 1, dir) == reach(nodes, roots, n, dir),
    ensures
        closure(nodes, roots, dir) == reach(nodes, roots, n, dir),
{
    assert forall|t: Seq<char>| closure(nodes, roots, dir).contains(t) implies reach(nodes, roots, n, dir).contains(t) by {
        let m = choose|m: nat| #[trigger] reach(nodes, roots, m, dir).contains(t);
        if m <= n {
            lemma_reach_grows(nodes, roots, m, n, dir);
        } else {
            lemma_reach_stable(nodes, roots, n, m, dir);
        }
    }
    assert forall|t: Seq<char>| reach(nodes, roots, n, dir).contains(t) implies closure(nodes, roots, dir).contains(t) by {
        assert(reach(nodes, roots, n, dir).contains(t));
    }
    assert(closure(nodes, roots, dir) =~= reach(nodes, roots, n, dir));
}

/// Every name that occurs in the node map.
pub open spec fn all_names(nodes: Seq<NodeEntry>) -> Seq<Seq<char>>
    decreases nodes.len(),
{
    if nodes.len() == 0 {
        Seq::empty()
    } else {
        seq![nodes[0].file_path@] + views(nodes[0].imports@) + views(nodes[0].imported_by@) + all_names(nodes.drop_first())
    }
}

proof fn lemma_neighbors_named(nodes: Seq<NodeEntry>, k: Seq<char>, dir: TraversalDirection, t: Seq<char>)
    requires
        neighbors(nodes, k, dir).contains(t),
    ensures
        all_names(nodes).contains(t),
    decreases nodes.len(),
{
    let a = seq![nodes[0].file_path@];
    let b = views(nodes[0].imports@);
    let c = views(nodes[0].imported_by@);
    let rest = all_names(nodes.drop_first());
    assert(all_names(nodes) == a + b + c + rest);
    if nodes[0].file_path@ == k {
        let j = choose|j: int| 0 <= j < neighbors(nodes, k, dir).len() && neighbors(nodes, k, dir)[j] == t;
        match dir {
            TraversalDirection::Imports => {
                assert((a + b + c + rest)[1 + j] == t);
            },
            TraversalDirection::ImportedBy => {
                assert((a + b + c + rest)[1 + b.len() + j] == t);
            },
        }
    } else {
        lemma_neighbors_named(nodes.drop_first(), k, dir, t);
        let j = choose|j: int| 0 <= j < rest.len() && rest[j] == t;
        assert((a + b + c + rest)[1 + b.len() + c.len() + j] == t);
    }
}

/// The neighbours of `k`.
pub fn neighbors_of(nodes: &Vec<NodeEntry>, k: &str, dir: TraversalDirection) -> (r: Vec<String>)
    ensures
        views(r@) == neighbors(nodes@, k@, dir),
{
    let mut i: usize = 0;
    assert(nodes@.skip(0) =~= nodes@);
    while i < nodes.len()
        invariant
            i <= nodes@.len(),
            neighbors(nodes@.skip(i as int), k@, dir) == neighbors(nodes@, k@, dir),
        decreases nodes@.len() - i,
    {
        assert(nodes@.skip(i as int)[0] == nodes@[i as int]);
        assert(nodes@.skip(i as int).drop_first() =~= nodes@.skip(i + 1));
        if str_eq(nodes[i].file_path.as_str(), k) {
            return match dir {
                TraversalDirection::Imports => nodes[i].imports.clone(),
                TraversalDirection::ImportedBy => nodes[i].imported_by.clone(),
            };
        }
        i = i + 1;
    }
    assert(nodes@.skip(i as int) =~= Seq::<NodeEntry>::empty());
    Vec::new()
}

proof fn lemma_views_clone(a: Seq<String>, b: Seq<String>)
    requires
        a.len() == b.len(),
        forall|i: int| 0 <= i < a.len() ==> a[i] == b[i],
    ensures
        views(a) == views(b),
{
    assert(views(a) =~= views(b));
}

/// One step of a walk: the visited set with the neighbours of its members;
/// `changed` tells whether anything was added.
fn expand_once(nodes: &Vec<NodeEntry>, visited: &Vec<String>, dir: TraversalDirection) -> (r: (Vec<String>, bool))
    requires
        strictly_sorted(views(visited@)),
    ensures
        strictly_sorted(views(r.0@)),
        as_set(r.0@) == expand(nodes@, as_set(visited@), dir),
        r.1 ==> r.0@.len() > visited@.len(),
        !r.1 ==> as_set(r.0@) == as_set(visited@),
        forall|t: Seq<char>| as_set(r.0@).contains(t) ==> as_set(visited@).contains(t) || all_names(nodes@).contains(t),
{
    let mut next: Vec<String> = visited.clone();
    proof { lemma_views_clone(next@, visited@); }
    let ghost vs = as_set(visited@);
    let mut changed = false;
    let mut i: usize = 0;
    while i < visited.len()
        invariant
            i <= visited@.len(),
            vs == as_set(visited@),
            strictly_sorted(views(next@)),
            changed ==> next@.len() > visited@.len(),
            !changed ==> next@.len() == visited@.len(),
            !changed ==> as_set(next@) == vs,
            forall|t: Seq<char>| #[trigger] as_set(next@).contains(t) <==> (vs.contains(t) || exists|j: int| 0 <= j < i && neighbors(nodes@, visited@[j]@, dir).contains(t)),
            forall|t: Seq<char>| as_set(next@).contains(t) ==> vs.contains(t) || all_names(nodes@).contains(t),
        decreases visited@.len() - i,
    {
        let nb = neighbors_of(nodes, visited[i].as_str(), dir);
        let mut j: usize = 0;
        while j < nb.len()
            invariant
                i < visited@.len(),
                j <= nb@.len(),
                vs == as_set(visited@),
                views(nb@) == neighbors(nodes@, visited@[i as int]@, dir),
                strictly_sorted(views(next@)),
                changed ==> next@.len() > visited@.len(),
                !changed ==> next@.len() == visited@.len(),
                !changed ==> as_set(next@) == vs,
                forall|t: Seq<char>| #[trigger] as_set(next@).contains(t) <==> (vs.contains(t)
                    || (exists|a: int| 0 <= a < i && neighbors(nodes@, visited@[a]@, dir).contains(t))
                    || views(nb@).take(j as int).contains(t)),
                forall|t: Seq<char>| as_set(next@).contains(t) ==> vs.contains(t) || all_names(nodes@).contains(t),
            decreases nb@.len() - j,
        {
            let ghost before = as_set(next@);
            let item = nb[j].clone();
            let added = set_insert(&mut next, item);
            if added {
                changed = true;
            }
            proof {
                assert(views(nb@).take(j + 1) =~= views(nb@).take(j as int).push(nb@[j as int]@));
                assert forall|t: Seq<char>| views(nb@).take(j + 1).contains(t) <==> (views(nb@).take(j as int).contains(t) || t == nb@[j as int]@) by {
                    crate::strset::lemma_contains_push(views(nb@).take(j as int), nb@[j as int]@, t);
                }
                assert(views(nb@)[j as int] == nb@[j as int]@);
                lemma_neighbors_named(nodes@, visited@[i as int]@, dir, nb@[j as int]@);
                assert forall|t: Seq<char>| as_set(next@).contains(t) <==> (before.contains(t) || t == nb@[j as int]@) by {}
                if !added {
                    assert(as_set(next@) =~= before);
                }
                assert forall|t: Seq<char>| #[trigger] as_set(next@).contains(t) <==> (vs.contains(t)
                    || (exists|a: int| 0 <= a < i && neighbors(nodes@, visited@[a]@, dir).contains(t))
                    || views(nb@).take(j + 1).contains(t)) by {
                    assert(before.contains(t) <==> (vs.contains(t)
                        || (exists|a: int| 0 <= a < i && neighbors(nodes@, visited@[a]@, dir).contains(t))
                        || views(nb@).take(j as int).contains(t)));
                }
            }
            j = j + 1;
        }
        proof {
            assert(views(nb@).take(j as int) =~= views(nb@));
            assert forall|t: Seq<char>| #[trigger] as_set(next@).contains(t) <==> (vs.contains(t) || exists|a: int| 0 <= a < i + 1 && neighbors(nodes@, visited@[a]@, dir).contains(t)) by {
                if neighbors(nodes@, visited@[i as int]@, dir).contains(t) {
                    assert(0 <= i < i + 1);
                }
            }
        }
        i = i + 1;
    }
    proof {
        assert forall|t: Seq<char>| as_set(next@).contains(t) <==> expand(nodes@, vs, dir).contains(t) by {
            if exists|a: int| 0 <= a < visited@.len() && neighbors(nodes@, visited@[a]@, dir).contains(t) {
                let a = choose|a: int| 0 <= a < visited@.len() && neighbors(nodes@, visited@[a]@, dir).contains(t);
                assert(views(visited@)[a] == visited@[a]@);
                assert(vs.contains(visited@[a]@));
            }
            if (exists|x: Seq<char>| vs.contains(x) && #[trigger] neighbors(nodes@, x, dir).contains(t)) {
                let x = choose|x: Seq<char>| vs.contains(x) && #[trigger] neighbors(nodes@, x, dir).contains(t);
                let a = choose|a: int| 0 <= a < views(visited@).len() && views(visited@)[a] == x;
                assert(visited@[a]@ == x);
            }
        }
        assert(as_set(next@) =~= expand(nodes@, vs, dir));
    }
    (next, changed)
}

proof fn lemma_len_bound(visited: Seq<String>, universe: Seq<Seq<char>>)
    requires
        strictly_sorted(views(visited)),
        forall|t: Seq<char>| as_set(visited).contains(t) ==> universe.contains(t),
    ensures
        visited.len() <= universe.len(),
{
    broadcast use vstd::seq_lib::seq_to_set_is_finite;
    let v = views(visited);
    lemma_sorted_no_duplicates(v);
    v.unique_seq_to_set();
    universe.lemma_cardinality_of_set();
    assert forall|t: Seq<char>| v.to_set().contains(t) implies universe.to_set().contains(t) by {
        assert(v.contains(t));
        assert(as_set(visited).contains(t));
    }
    lemma_len_subset(v.to_set(), universe.to_set());
}

/// The ordered set of files a walk from `roots` reaches; see `traversal_set`.
pub fn traverse_graph(nodes: &Vec<NodeEntry>, roots: &Vec<String>, depth: Option<u32>, dir: TraversalDirection) -> (r: Vec<String>)
    ensures
        strictly_sorted(views(r@)),
        as_set(r@) == traversal_set(nodes@, as_set(roots@), depth, dir),
{
    let ghost rs = as_set(roots@);
    let ghost universe = views(roots@) + all_names(nodes@);
    let limit: Option<u32> = match depth {
        Some(d) => Some(d.saturating_add(1)),
        None => None,
    };
    let mut visited = set_from(roots);
    proof {
        assert(as_set(visited@) =~= rs);
        assert(reach(nodes@, rs, 0, dir) == rs);
        assert forall|t: Seq<char>| as_set(visited@).contains(t) implies universe.contains(t) by {
            let j = choose|j: int| 0 <= j < views(roots@).len() && views(roots@)[j] == t;
            assert(universe[j] == t);
        }
    }
    let mut rounds: usize = 0;
    let mut at_fixpoint = false;
    loop
        invariant_except_break
            strictly_sorted(views(visited@)),
            as_set(visited@) == reach(nodes@, rs, rounds as nat, dir),
            forall|t: Seq<char>| as_set(visited@).contains(t) ==> universe.contains(t),
            rounds <= visited@.len(),
            limit is Some ==> rounds <= limit->0,
            limit == (match depth { Some(d) => Some(d.saturating_add(1)), None => None::<u32> }),
            rs == as_set(roots@),
            universe == views(roots@) + all_names(nodes@),
            !at_fixpoint,
        ensures
            strictly_sorted(views(visited@)),
            as_set(visited@) == reach(nodes@, rs, rounds as nat, dir),
            limit is Some ==> rounds <= limit->0,
            limit == (match depth { Some(d) => Some(d.saturating_add(1)), None => None::<u32> }),
            at_fixpoint ==> reach(nodes@, rs, rounds as nat + 1, dir) == reach(nodes@, rs, rounds as nat, dir),
            !at_fixpoint ==> limit is Some && rounds == limit->0,
        decreases universe.len() - visited@.len(),
    {
        proof { lemma_len_bound(visited@, universe); }
        match limit {
            Some(l) => {
                if rounds >= l as usize {
                    break;
                }
            },
            None => {},
        }
        let (next, changed) = expand_once(nodes, &visited, dir);
        if !changed {
            at_fixpoint = true;
            break;
        }
        proof {
            assert forall|t: Seq<char>| as_set(next@).contains(t) implies universe.contains(t) by {
                if all_names(nodes@).contains(t) {
                    let j = choose|j: int| 0 <= j < all_names(nodes@).len() && all_names(nodes@)[j] == t;
                    assert(universe[views(roots@).len() + j] == t);
                }
            }
            lemma_len_bound(next@, universe);
        }
        assert(rounds < next@.len());
        let next_len = next.len();
        assert(rounds + 1 <= next_len);
        visited = next;
        rounds = rounds + 1;
    }
    proof {
        match depth {
            Some(d) => {
                let l = d.saturating_add(1);
                if at_fixpoint {
                    lemma_reach_stable(nodes@, rs, rounds as nat, l as nat, dir);
                }
                assert(traversal_set(nodes@, rs, depth, dir) == reach(nodes@, rs, l as nat, dir));
            },
            None => {
                lemma_closure_at_fixpoint(nodes@, rs, rounds as nat, dir);
            },
        }
    }
    visited
}

/// `path` is `focus` or lies under the directory `focus`.
pub open spec fn path_matches_focus_spec(path: Seq<char>, focus: Seq<char>) -> bool {
    path == focus || match strip_prefix_spec(path, focus) {
        Some(rest) => seq_starts_with(rest, "/"@),
        None => false,
    }
}

/// Whether `path` is `focus` or lies under the directory `focus`.
pub fn path_matches_focus(path: &str, focus: &str) -> (r: bool)
    ensures
        r == path_matches_focus_spec(path@, focus@),
{
    if str_eq(path, focus) {
        return true;
    }
    match strip_prefix(path, focus) {
        Some(rest) => starts_with(rest.as_str(), "/"),
        None => false,
    }
}

/// The node paths, in order, that match one of the focus paths.
pub fn collect_focus_roots(nodes: &Vec<NodeEntry>, focus: &Vec<String>) -> (r: Vec<String>)
    ensures
        views(r@) == crate::graph::assemble::node_paths(nodes@).filter(
            |k: Seq<char>| exists|f: int| 0 <= f < focus@.len() && path_matches_focus_spec(k, #[trigger] focus@[f]@)),
{
    let ghost pred = |k: Seq<char>| exists|f: int| 0 <= f < focus@.len() && path_matches_focus_spec(k, #[trigger] focus@[f]@);
    let mut r: Vec<String> = Vec::new();
    let mut i: usize = 0;
    while i < nodes.len()
        invariant
            i <= nodes@.len(),
            pred == (|k: Seq<char>| exists|f: int| 0 <= f < focus@.len() && path_matches_focus_spec(k, #[trigger] focus@[f]@)),
            views(r@) == crate::graph::assemble::node_paths(nodes@.take(i as int)).filter(pred),
        decreases nodes@.len() - i,
    {
        let p = nodes[i].file_path.as_str();
        let mut hit = false;
        let mut f: usize = 0;
        while f < focus.len()
            invariant
                i < nodes@.len(),
                p@ == nodes@[i as int].file_path@,
                f <= focus@.len(),
                hit == exists|g: int| 0 <= g < f && path_matches_focus_spec(p@, #[trigger] focus@[g]@),
            decreases focus@.len() - f,
        {
            if path_matches_focus(p, focus[f].as_str()) {
                hit = true;
            }
            f = f + 1;
        }
        let ghost before = views(r@);
        proof {
            assert(crate::graph::assemble::node_paths(nodes@.take(i + 1)).drop_last() =~= crate::graph::assemble::node_paths(nodes@.take(i as int)));
            assert(crate::graph::assemble::node_paths(nodes@.take(i + 1)).last() == p@);
            assert(hit == pred(p@));
            let nt = crate::graph::assemble::node_paths(nodes@.take(i + 1));
            reveal(Seq::filter);
            assert(nt.filter(pred) == (if pred(nt.last()) { nt.drop_last().filter(pred).push(nt.last()) } else { nt.drop_last().filter(pred) }));
        }
        if hit {
            r.push(nodes[i].file_path.clone());
            assert(views(r@) =~= before.push(p@));
        }
        i = i + 1;
    }
    assert(nodes@.take(i as int) =~= nodes@);
    r
}

/// Why a graph selection failed.
#[derive(Debug, Clone, PartialEq, Eq)]
pub enum GraphError {
    /// The queried path is not a node of the graph.
    UnknownQueryPath(String),
    /// The path leaves the base directory.
    OutsideBase(String),
}

impl GraphError {
    /// The message shown for the error.
    pub open spec fn spec_message(self) -> Seq<char> {
        match self {
            GraphError::UnknownQueryPath(p) => "path `"@ + p@ + "` did not resolve to an analyzed graph node"@,
            GraphError::OutsideBase(p) => "path `"@ + p@ + "` must resolve inside the base path"@,
        }
    }

    /// The message shown for the error.
    pub fn message(&self) -> (r: String)
        ensures
            r@ == self.spec_message(),
    {
        match self {
            GraphError::UnknownQueryPath(p) => {
                let mut m = "path `".to_owned();
                m.append(p.as_str());
                m.append("` did not resolve to an analyzed graph node");
                m
            },
            GraphError::OutsideBase(p) => {
                let mut m = "path `".to_owned();
                m.append(p.as_str());
                m.append("` must resolve inside the base path");
                m
            },
        }
    }
}

/// Whether `k` is the path of a node.
pub fn has_node(nodes: &Vec<NodeEntry>, k: &str) -> (r: bool)
    ensures
        r == crate::graph::assemble::node_paths(nodes@).contains(k@),
{
    let mut i: usize = 0;
    while i < nodes.len()
        invariant
            i <= nodes@.len(),
            forall|j: int| 0 <= j < i ==> nodes@[j].file_path@ != k@,
        decreases nodes@.len() - i,
    {
        if str_eq(nodes[i].file_path.as_str(), k) {
            assert(crate::graph::assemble::node_paths(nodes@)[i as int] == k@);
            return true;
        }
        i = i + 1;
    }
    false
}

/// The roots of a query: the queried file, which must be a node.
pub fn roots_for_query(nodes: &Vec<NodeEntry>, query: &GraphQuery) -> (r: Result<Vec<String>, GraphError>)
    ensures
        match query {
            GraphQuery::DependsOn(p) => match r {
                Ok(v) => crate::graph::assemble::node_paths(nodes@).contains(p@) && views(v@) == seq![p@],
                Err(e) => !crate::graph::assemble::node_paths(nodes@).contains(p@) && e == GraphError::UnknownQueryPath(*p),
            },
        },
{
    match query {
        GraphQuery::DependsOn(p) => {
            if has_node(nodes, p.as_str()) {
                let v = vec![p.clone()];
                assert(views(v@) =~= seq![p@]);
                Ok(v)
            } else {
                Err(GraphError::UnknownQueryPath(p.clone()))
            }
        },
    }
}

/// The nodes a selection keeps, with the depth and query it applied.
#[derive(Debug, Clone)]
pub struct GraphSelection {
    pub node_paths: Vec<String>,
    pub applied_depth: Option<u32>,
    pub query: Option<GraphQuery>,
}

/// The focus roots: node paths that match a focus path.
pub open spec fn focus_roots(nodes: Seq<NodeEntry>, focus: Seq<String>) -> Set<Seq<char>> {
    Set::new(|k: Seq<char>| crate::graph::assemble::node_paths(nodes).contains(k)
        && exists|f: int| 0 <= f < focus.len() && path_matches_focus_spec(k, #[trigger] focus[f]@))
}

/// The files a selection keeps: everything when neither focus nor query is
/// given; otherwise the walk along imports from the focus roots together
/// with the walk along importers from the queried file.
pub open spec fn selection_set(nodes: Seq<NodeEntry>, focus: Seq<String>, depth: Option<u32>, query: Option<GraphQuery>) -> Set<Seq<char>> {
    if focus.len() == 0 && query is None {
        Set::new(|k: Seq<char>| crate::graph::assemble::node_paths(nodes).contains(k))
    } else {
        let a = if focus.len() > 0 {
            traversal_set(nodes, focus_roots(nodes, focus), depth, TraversalDirection::Imports)
        } else {
            Set::empty()
        };
        let b = match query {
            Some(GraphQuery::DependsOn(p)) => traversal_set(nodes, set![p@], depth, TraversalDirection::ImportedBy),
            None => Set::empty(),
        };
        a.union(b)
    }
}

/// Selects the part of the graph asked for by the focus paths and the query.
pub fn select_graph(nodes: &Vec<NodeEntry>, focus: &Vec<String>, depth: Option<u32>, query: Option<GraphQuery>) -> (r: Result<GraphSelection, GraphError>)
    requires
        strictly_sorted(crate::graph::assemble::node_paths(nodes@)),
    ensures
        match r {
            Ok(sel) => {
                &&& strictly_sorted(views(sel.node_paths@))
                &&& as_set(sel.node_paths@) == selection_set(nodes@, focus@, depth, query)
                &&& (focus@.len() == 0 && query is None ==> sel.applied_depth is None && sel.query is None)
                &&& (!(focus@.len() == 0 && query is None) ==> sel.applied_depth == depth && sel.query == query)
            },
            Err(e) => match query {
                Some(GraphQuery::DependsOn(p)) => !crate::graph::assemble::node_paths(nodes@).contains(p@)
                    && e == GraphError::UnknownQueryPath(p),
                None => false,
            },
        },
{
    let ghost np = crate::graph::assemble::node_paths(nodes@);
    if focus.len() == 0 && query.is_none() {
        let mut all: Vec<String> = Vec::new();
        let mut i: usize = 0;
        while i < nodes.len()
            invariant
                i <= nodes@.len(),
                np == crate::graph::assemble::node_paths(nodes@),
                strictly_sorted(np),
                views(all@) == np.take(i as int),
            decreases nodes@.len() - i,
        {
            let ghost before = views(all@);
            all.push(nodes[i].file_path.clone());
            assert(views(all@) =~= before.push(np[i as int]));
            assert(np.take(i + 1) =~= np.take(i as int).push(np[i as int]));
            i = i + 1;
        }
        proof {
            assert(np.take(i as int) =~= np);
            assert(as_set(all@) =~= selection_set(nodes@, focus@, depth, query));
        }
        return Ok(GraphSelection { node_paths: all, applied_depth: None, query: None });
    }
    let mut selected: Vec<String> = Vec::new();
    let ghost mut a: Set<Seq<char>> = Set::empty();
    if focus.len() > 0 {
        let roots = collect_focus_roots(nodes, focus);
        proof {
            assert forall|k: Seq<char>| as_set(roots@).contains(k) <==> focus_roots(nodes@, focus@).contains(k) by {
                let pred = |k: Seq<char>| exists|f: int| 0 <= f < focus@.len() && path_matches_focus_spec(k, #[trigger] focus@[f]@);
                if as_set(roots@).contains(k) {
                    np.lemma_filter_contains_rev(pred, k);
                }
                if np.contains(k) && pred(k) {
                    let j = choose|j: int| 0 <= j < np.len() && np[j] == k;
                    np.lemma_filter_contains(pred, j);
                }
            }
            assert(as_set(roots@) =~= focus_roots(nodes@, focus@));
        }
        let walked = traverse_graph(nodes, &roots, depth, TraversalDirection::Imports);
        set_extend(&mut selected, &walked);
        proof {
            a = traversal_set(nodes@, focus_roots(nodes@, focus@), depth, TraversalDirection::Imports);
            assert(as_set(Seq::<String>::empty()) =~= Set::<Seq<char>>::empty());
            assert(as_set(selected@) =~= a);
        }
    } else {
        assert(as_set(selected@) =~= Set::<Seq<char>>::empty());
    }
    match &query {
        Some(q) => {
            let roots = roots_for_query(nodes, q)?;
            let walked = traverse_graph(nodes, &roots, depth, TraversalDirection::ImportedBy);
            proof {
                match q {
                    GraphQuery::DependsOn(p) => {
                        assert forall|y: Seq<char>| as_set(roots@).contains(y) <==> y == p@ by {
                            if y == p@ {
                                assert(views(roots@)[0] == y);
                            }
                        }
                        assert(as_set(roots@) =~= set![p@]);
                    },
                }
            }
            set_extend(&mut selected, &walked);
        },
        None => {
            assert(as_set(selected@).union(Set::empty()) =~= as_set(selected@));
        },
    }
    proof {
        assert(as_set(selected@) =~= selection_set(nodes@, focus@, depth, query));
    }
    Ok(GraphSelection { node_paths: selected, applied_depth: depth, query })
}

/// A walk keeps its starting files; a deeper walk finds at least what a
/// shallower one finds, and a walk without a depth finds everything that any
/// bounded walk finds.
pub proof fn law_deeper_walks_find_more(nodes: Seq<NodeEntry>, roots: Set<Seq<char>>, d1: u32, d2: u32, dir: TraversalDirection)
    requires
        d1 <= d2,
    ensures
        roots.subset_of(traversal_set(nodes, roots, Some(d1), dir)),
        traversal_set(nodes, roots, Some(d1), dir).subset_of(traversal_set(nodes, roots, Some(d2), dir)),
        traversal_set(nodes, roots, Some(d2), dir).subset_of(traversal_set(nodes, roots, None, dir)),
{
    let n1: nat = (if d1 < u32::MAX { d1 + 1 } else { d1 as int }) as nat;
    let n2: nat = (if d2 < u32::MAX { d2 + 1 } else { d2 as int }) as nat;
    lemma_reach_grows(nodes, roots, 0, n1, dir);
    lemma_reach_grows(nodes, roots, n1, n2, dir);
    assert forall|t: Seq<char>| reach(nodes, roots, n2, dir).contains(t) implies closure(nodes, roots, dir).contains(t) by {
        assert(reach(nodes, roots, n2, dir).contains(t));
    }
}

} // verus!
