//! Building the edges and the node map of a dependency graph from the
//! imports of the project's files.
use vstd::prelude::*;
use crate::compression::types::SupportedLanguage;
use crate::graph::resolve::{opt_view, resolve_import, resolve_import_spec};
use crate::graph::types::{GraphEdge, ImportStatement, NodeEntry};
use crate::paths::views;
use crate::strset::{lemma_contains_push, set_insert, strictly_sorted};
use crate::text::str_eq;

verus! {

/// The imports of one file, with what is needed to resolve them.
#[derive(Debug, Clone)]
pub struct FileImportData {
    pub file_path: String,
    pub language: Option<String>,
    pub ts_language: SupportedLanguage,
    pub imports: Vec<ImportStatement>,
}

/// An edge as plain values: from, to, import path, resolved.
pub type EdgeV = (Seq<char>, Option<Seq<char>>, Seq<char>, bool);

pub open spec fn edge_view(e: GraphEdge) -> EdgeV {
    (e.from@, opt_view(e.to), e.import_path@, e.resolved)
}

pub open spec fn edges_view(s: Seq<GraphEdge>) -> Seq<EdgeV> {
    s.map_values(|e: GraphEdge| edge_view(e))
}

/// The edge for one import of a file.
pub open spec fn edge_for(f: FileImportData, imp: ImportStatement, known: Seq<String>) -> EdgeV {
    let to = resolve_import_spec(imp.raw_path@, f.file_path@, f.ts_language, known);
    (f.file_path@, to, imp.raw_path@, to is Some)
}

/// The edges of one file, one per import, in source order.
pub open spec fn file_edges(f: FileImportData, known: Seq<String>) -> Seq<EdgeV> {
    Seq::new(f.imports@.len(), |j: int| edge_for(f, f.imports@[j], known))
}

/// The edges of all files, file by file.
pub open spec fn all_edges(files: Seq<FileImportData>, known: Seq<String>) -> Seq<EdgeV>
    decreases files.len(),
{
    if files.len() == 0 {
        Seq::empty()
    } else {
        all_edges(files.drop_last(), known) + file_edges(files.last(), known)
    }
}

/// The files that `k` imports, in edge order.
pub open spec fn imports_of(edges: Seq<EdgeV>, k: Seq<char>) -> Seq<Seq<char>>
    decreases edges.len(),
{
    if edges.len() == 0 {
        Seq::empty()
    } else {
        let prev = imports_of(edges.drop_last(), k);
        let e = edges.last();
        if e.0 == k && e.1 is Some {
            prev.push(e.1->0)
        } else {
            prev
        }
    }
}

/// The files that import `k`, in edge order.
pub open spec fn importers_of(edges: Seq<EdgeV>, k: Seq<char>) -> Seq<Seq<char>>
    decreases edges.len(),
{
    if edges.len() == 0 {
        Seq::empty()
    } else {
        let prev = importers_of(edges.drop_last(), k);
        let e = edges.last();
        if e.1 == Some(k) {
            prev.push(e.0)
        } else {
            prev
        }
    }
}

/// The language of the last file with path `k`, if any.
pub open spec fn language_of(files: Seq<FileImportData>, k: Seq<char>) -> Option<Seq<char>>
    decreases files.len(),
{
    if files.len() == 0 {
        None
    } else if files.last().file_path@ == k {
        opt_view(files.last().language)
    } else {
        language_of(files.drop_last(), k)
    }
}

/// `k` is a node: a file with imports data, or the target of a resolved edge.
pub open spec fn is_node_key(files: Seq<FileImportData>, edges: Seq<EdgeV>, k: Seq<char>) -> bool {
    (exists|i: int| 0 <= i < files.len() && #[trigger] files[i].file_path@ == k)
        || (exists|j: int| 0 <= j < edges.len() && #[trigger] edges[j].1 == Some(k))
}

/// The paths of a node map.
pub open spec fn node_paths(nodes: Seq<NodeEntry>) -> Seq<Seq<char>> {
    nodes.map_values(|n: NodeEntry| n.file_path@)
}

/// The node map of the files and edges: one node per key, in path order,
/// each with its imports, importers and language.
pub open spec fn node_map_of(nodes: Seq<NodeEntry>, files: Seq<FileImportData>, edges: Seq<EdgeV>) -> bool {
    &&& strictly_sorted(node_paths(nodes))
    &&& forall|k: Seq<char>| node_paths(nodes).contains(k) <==> is_node_key(files, edges, k)
    &&& forall|i: int| 0 <= i < nodes.len() ==> {
        &&& views((#[trigger] nodes[i]).imports@) == imports_of(edges, nodes[i].file_path@)
        &&& views(nodes[i].imported_by@) == importers_of(edges, nodes[i].file_path@)
        &&& opt_view(nodes[i].language) == language_of(files, nodes[i].file_path@)
    }
}

fn clone_opt(o: &Option<String>) -> (r: Option<String>)
    ensures
        opt_view(r) == opt_view(*o),
{
    match o {
        Some(s) => Some(s.clone()),
        None => None,
    }
}

/// The edges of all imports of all files, resolved against the known files.
pub fn build_edges(files: &Vec<FileImportData>, known: &Vec<String>) -> (r: Vec<GraphEdge>)
    ensures
        edges_view(r@) == all_edges(files@, known@),
{
    let mut edges: Vec<GraphEdge> = Vec::new();
    let mut i: usize = 0;
    while i < files.len()
        invariant
            i <= files@.len(),
            edges_view(edges@) == all_edges(files@.take(i as int), known@),
        decreases files@.len() - i,
    {
        let f = &files[i];
        let ghost base = edges_view(edges@);
        let mut j: usize = 0;
        while j < f.imports.len()
            invariant
                i < files@.len(),
                *f == files@[i as int],
                j <= f.imports@.len(),
                edges_view(edges@) == base + file_edges(*f, known@).take(j as int),
            decreases f.imports@.len() - j,
        {
            let imp = &f.imports[j];
            let to = resolve_import(imp.raw_path.as_str(), f.file_path.as_str(), f.ts_language, known);
            let resolved = to.is_some();
            let e = GraphEdge {
                from: f.file_path.clone(),
                to,
                import_path: imp.raw_path.clone(),
                resolved,
            };
            let ghost before = edges_view(edges@);
            edges.push(e);
            proof {
                assert(edges_view(edges@) =~= before.push(edge_for(*f, f.imports@[j as int], known@)));
                assert(file_edges(*f, known@).take(j + 1) =~= file_edges(*f, known@).take(j as int).push(edge_for(*f, f.imports@[j as int], known@)));
            }
            j = j + 1;
        }
        proof {
            assert(file_edges(*f, known@).take(j as int) =~= file_edges(*f, known@));
            assert(files@.take(i + 1).drop_last() =~= files@.take(i as int));
        }
        i = i + 1;
    }
    assert(files@.take(i as int) =~= files@);
    edges
}

/// The files that `k` imports.
pub fn imports_for(edges: &Vec<GraphEdge>, k: &str) -> (r: Vec<String>)
    ensures
        views(r@) == imports_of(edges_view(edges@), k@),
{
    let mut r: Vec<String> = Vec::new();
    let mut i: usize = 0;
    while i < edges.len()
        invariant
            i <= edges@.len(),
            views(r@) == imports_of(edges_view(edges@.take(i as int)), k@),
        decreases edges@.len() - i,
    {
        proof {
            assert(edges_view(edges@.take(i + 1)).drop_last() =~= edges_view(edges@.take(i as int)));
        }
        let e = &edges[i];
        if str_eq(e.from.as_str(), k) {
            match &e.to {
                Some(t) => {
                    let ghost before = views(r@);
                    r.push(t.clone());
                    assert(views(r@) =~= before.push(t@));
                },
                None => {},
            }
        }
        i = i + 1;
    }
    assert(edges@.take(i as int) =~= edges@);
    r
}

/// The files that import `k`.
pub fn importers_for(edges: &Vec<GraphEdge>, k: &str) -> (r: Vec<String>)
    ensures
        views(r@) == importers_of(edges_view(edges@), k@),
{
    let mut r: Vec<String> = Vec::new();
    let mut i: usize = 0;
    while i < edges.len()
        invariant
            i <= edges@.len(),
            views(r@) == importers_of(edges_view(edges@.take(i as int)), k@),
        decreases edges@.len() - i,
    {
        proof {
            assert(edges_view(edges@.take(i + 1)).drop_last() =~= edges_view(edges@.take(i as int)));
        }
        let e = &edges[i];
        match &e.to {
            Some(t) => {
                if str_eq(t.as_str(), k) {
                    let ghost before = views(r@);
                    r.push(e.from.clone());
                    assert(views(r@) =~= before.push(e.from@));
                }
            },
            None => {},
        }
        i = i + 1;
    }
    assert(edges@.take(i as int) =~= edges@);
    r
}

/// The language of the last file with path `k`.
pub fn language_for(files: &Vec<FileImportData>, k: &str) -> (r: Option<String>)
    ensures
        opt_view(r) == language_of(files@, k@),
{
    let mut i = files.len();
    assert(files@.take(i as int) =~= files@);
    while i > 0
        invariant
            i <= files@.len(),
            language_of(files@, k@) == language_of(files@.take(i as int), k@),
        decreases i,
    {
        assert(files@.take(i as int).drop_last() =~= files@.take(i - 1));
        if str_eq(files[i - 1].file_path.as_str(), k) {
            return clone_opt(&files[i - 1].language);
        }
        i = i - 1;
    }
    None
}

/// The node map of the files and their edges.
pub fn build_nodes(files: &Vec<FileImportData>, edges: &Vec<GraphEdge>) -> (r: Vec<NodeEntry>)
    ensures
        node_map_of(r@, files@, edges_view(edges@)),
{
    let ghost ev = edges_view(edges@);
    let mut keys: Vec<String> = Vec::new();
    let mut i: usize = 0;
    while i < files.len()
        invariant
            i <= files@.len(),
            strictly_sorted(views(keys@)),
            forall|k: Seq<char>| views(keys@).contains(k) <==> (exists|a: int| 0 <= a < i && #[trigger] files@[a].file_path@ == k),
        decreases files@.len() - i,
    {
        let p = files[i].file_path.clone();
        set_insert(&mut keys, p);
        proof {
            assert forall|k: Seq<char>| views(keys@).contains(k) <==> (exists|a: int| 0 <= a < i + 1 && #[trigger] files@[a].file_path@ == k) by {
                if k == files@[i as int].file_path@ {
                    assert(files@[i as int].file_path@ == k);
                }
            }
        }
        i = i + 1;
    }
    let mut j: usize = 0;
    while j < edges.len()
        invariant
            i == files@.len(),
            j <= edges@.len(),
            ev == edges_view(edges@),
            strictly_sorted(views(keys@)),
            forall|k: Seq<char>| views(keys@).contains(k) <==> (
                (exists|a: int| 0 <= a < files@.len() && #[trigger] files@[a].file_path@ == k)
                || (exists|b: int| 0 <= b < j && #[trigger] ev[b].1 == Some(k))),
        decreases edges@.len() - j,
    {
        match &edges[j].to {
            Some(t) => {
                set_insert(&mut keys, t.clone());
            },
            None => {},
        }
        proof {
            assert(ev[j as int].1 == opt_view(edges@[j as int].to));
            assert forall|k: Seq<char>| views(keys@).contains(k) <==> (
                (exists|a: int| 0 <= a < files@.len() && #[trigger] files@[a].file_path@ == k)
                || (exists|b: int| 0 <= b < j + 1 && #[trigger] ev[b].1 == Some(k))) by {
                if ev[j as int].1 == Some(k) {
                    assert(ev[j as int].1 == Some(k));
                }
            }
        }
        j = j + 1;
    }
    let mut nodes: Vec<NodeEntry> = Vec::new();
    let mut n: usize = 0;
    while n < keys.len()
        invariant
            n <= keys@.len(),
            ev == edges_view(edges@),
            node_paths(nodes@) == views(keys@).take(n as int),
            forall|x: int| 0 <= x < nodes@.len() ==> {
                &&& views((#[trigger] nodes@[x]).imports@) == imports_of(ev, nodes@[x].file_path@)
                &&& views(nodes@[x].imported_by@) == importers_of(ev, nodes@[x].file_path@)
                &&& opt_view(nodes@[x].language) == language_of(files@, nodes@[x].file_path@)
            },
        decreases keys@.len() - n,
    {
        let k = keys[n].as_str();
        let entry = NodeEntry {
            file_path: keys[n].clone(),
            language: language_for(files, k),
            imports: imports_for(edges, k),
            imported_by: importers_for(edges, k),
        };
        let ghost before = node_paths(nodes@);
        nodes.push(entry);
        proof {
            assert(node_paths(nodes@) =~= before.push(keys@[n as int]@));
            assert(views(keys@).take(n + 1) =~= views(keys@).take(n as int).push(keys@[n as int]@));
        }
        n = n + 1;
    }
    proof {
        assert(views(keys@).take(n as int) =~= views(keys@));
        assert forall|k: Seq<char>| node_paths(nodes@).contains(k) <==> is_node_key(files@, ev, k) by {
            if is_node_key(files@, ev, k) {
                if exists|b: int| 0 <= b < ev.len() && #[trigger] ev[b].1 == Some(k) {
                    let b = choose|b: int| 0 <= b < ev.len() && #[trigger] ev[b].1 == Some(k);
                    assert(0 <= b < j && ev[b].1 == Some(k));
                }
            }
        }
    }
    nodes
}

/// The edges of the files and the node map they make.
pub fn build_edges_and_nodes(files: &Vec<FileImportData>, known: &Vec<String>) -> (r: (Vec<GraphEdge>, Vec<NodeEntry>))
    ensures
        edges_view(r.0@) == all_edges(files@, known@),
        node_map_of(r.1@, files@, edges_view(r.0@)),
{
    let edges = build_edges(files, known);
    let nodes = build_nodes(files, &edges);
    (edges, nodes)
}

} // verus!
