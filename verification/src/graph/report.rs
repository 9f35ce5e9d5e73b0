//! The dependency graph report of a project, from the imports of its files.
use vstd::prelude::*;
use crate::graph::assemble::{all_edges, build_edges_and_nodes, edges_view, file_edges, is_node_key, node_map_of, node_paths, EdgeV, FileImportData};
use crate::graph::metrics::{
    build_node_list, compute_metrics, filter_edges, filter_node_map, filtered_nodes, in_selection, is_cycle, keep_edge,
    metrics_view, nodes_view, rank_items, restrict, top_ranked,
};
use crate::graph::resolve::opt_view;
use crate::graph::select::{select_graph, selection_set, GraphError};
use crate::graph::types::{GraphQuery, GraphReport, NodeEntry};
use crate::paths::{concat_str, join_seq, replace_char, replace_char_spec, strip_prefix, strip_prefix_spec, views};
use crate::strset::{as_set, set_insert, strictly_sorted};
use crate::text::{seq_starts_with, split_char, split_on, starts_with, str_eq};

verus! {

/// One step of normalizing a relative path: `..` leaves a directory (an
/// error at the top), `.` and empty segments stay, others enter.
pub open spec fn normalize_step(parts: Option<Seq<Seq<char>>>, seg: Seq<char>) -> Option<Seq<Seq<char>>> {
    match parts {
        None => None,
        Some(p) => if seg == ".."@ {
            if p.len() > 0 { Some(p.drop_last()) } else { None }
        } else if seg == "."@ || seg.len() == 0 {
            Some(p)
        } else {
            Some(p.push(seg))
        },
    }
}

pub open spec fn normalize_fold(parts: Option<Seq<Seq<char>>>, segs: Seq<Seq<char>>) -> Option<Seq<Seq<char>>>
    decreases segs.len(),
{
    if segs.len() == 0 {
        parts
    } else {
        normalize_fold(normalize_step(parts, segs[0]), segs.drop_first())
    }
}

/// A user-given relative path in normal form: its directories joined with
/// `/`, `.` for the base itself, or `None` when `..` leaves the base.
pub open spec fn normalized_path(path: Seq<char>) -> Option<Seq<char>> {
    match normalize_fold(Some(Seq::empty()), split_on(path, '/')) {
        None => None,
        Some(p) => Some(if p.len() == 0 { "."@ } else { join_seq(p, "/"@) }),
    }
}

proof fn lemma_normalize_none(segs: Seq<Seq<char>>)
    ensures
        normalize_fold(None, segs) is None,
    decreases segs.len(),
{
    if segs.len() > 0 {
        lemma_normalize_none(segs.drop_first());
    }
}

/// Normalizes a relative path given by the user; fails when it leaves the
/// base directory.
pub fn normalize_user_relative_path(path: &str) -> (r: Result<String, GraphError>)
    ensures
        match r {
            Ok(s) => normalized_path(path@) == Some(s@),
            Err(e) => normalized_path(path@) is None && (match e { GraphError::OutsideBase(p) => p@ == path@, _ => false }),
        },
{
    proof { reveal_strlit(".."); reveal_strlit("."); }
    let segs = split_char(path, '/');
    let ghost segv = views(segs@);
    let mut parts: Vec<String> = Vec::new();
    let mut i: usize = 0;
    assert(segv.skip(0) =~= segv);
    assert(views(parts@) =~= Seq::<Seq<char>>::empty());
    while i < segs.len()
        invariant
            i <= segs@.len(),
            segv == views(segs@),
            segv == split_on(path@, '/'),
            normalize_fold(Some(views(parts@)), segv.skip(i as int)) == normalize_fold(Some(Seq::empty()), segv),
        decreases segs@.len() - i,
    {
        assert(segv.skip(i as int)[0] == segv[i as int]);
        assert(segv.skip(i as int).drop_first() =~= segv.skip(i + 1));
        let ghost before = views(parts@);
        let seg = segs[i].as_str();
        if str_eq(seg, "..") {
            if parts.len() == 0 {
                proof { lemma_normalize_none(segv.skip(i + 1)); }
                return Err(GraphError::OutsideBase(path.to_owned()));
            }
            parts.pop();
            assert(views(parts@) =~= before.drop_last());
        } else if str_eq(seg, ".") || seg.unicode_len() == 0 {
        } else {
            parts.push(segs[i].clone());
            assert(views(parts@) =~= before.push(segv[i as int]));
        }
        i = i + 1;
    }
    assert(segv.skip(i as int) =~= Seq::<Seq<char>>::empty());
    if parts.len() == 0 {
        Ok(".".to_owned())
    } else {
        Ok(crate::paths::join_strings(&parts, "/"))
    }
}

/// A focus path relative to the base: an absolute path under the base loses
/// the base and its separator; backslashes become slashes.
pub open spec fn focus_relative(base: Seq<char>, p: Seq<char>) -> Seq<char> {
    let rel = if seq_starts_with(p, "/"@) {
        if p == base {
            Seq::<char>::empty()
        } else {
            match strip_prefix_spec(p, base + "/"@) {
                Some(rest) => rest,
                None => p,
            }
        }
    } else {
        p
    };
    replace_char_spec(rel, '\\', '/')
}

/// The focus paths relative to the base, as an ordered set.
pub fn build_focus_set(base: &str, focus: &Vec<String>) -> (r: Vec<String>)
    ensures
        strictly_sorted(views(r@)),
        forall|y: Seq<char>| views(r@).contains(y) <==> exists|i: int| 0 <= i < focus@.len() && y == focus_relative(base@, #[trigger] focus@[i]@),
{
    let with_sep = concat_str(base, "/");
    let mut r: Vec<String> = Vec::new();
    let mut i: usize = 0;
    while i < focus.len()
        invariant
            i <= focus@.len(),
            with_sep@ == base@ + "/"@,
            strictly_sorted(views(r@)),
            forall|y: Seq<char>| views(r@).contains(y) <==> exists|j: int| 0 <= j < i && y == focus_relative(base@, #[trigger] focus@[j]@),
        decreases focus@.len() - i,
    {
        let p = focus[i].as_str();
        let rel = if starts_with(p, "/") {
            if str_eq(p, base) {
                String::new()
            } else {
                match strip_prefix(p, with_sep.as_str()) {
                    Some(rest) => rest,
                    None => p.to_owned(),
                }
            }
        } else {
            p.to_owned()
        };
        let norm = replace_char(rel.as_str(), '\\', '/');
        assert(norm@ == focus_relative(base@, focus@[i as int]@));
        set_insert(&mut r, norm);
        proof {
            assert forall|y: Seq<char>| views(r@).contains(y) <==> exists|j: int| 0 <= j < i + 1 && y == focus_relative(base@, #[trigger] focus@[j]@) by {
                if y == focus_relative(base@, focus@[i as int]@) {
                    assert(0 <= i < i + 1);
                }
            }
        }
        i = i + 1;
    }
    r
}

/// The report built from the node map `nodes` of these files and its part
/// `kept` in the selection: edges and nodes restricted to the selection,
/// with their metrics.
pub open spec fn report_matches(
    r: GraphReport,
    base: Seq<char>,
    focus: Seq<String>,
    focus_display: Seq<String>,
    files: Seq<FileImportData>,
    known: Seq<String>,
    depth: Option<u32>,
    query: Option<GraphQuery>,
    nodes: Seq<NodeEntry>,
    kept: Seq<NodeEntry>,
) -> bool {
    {
        let sel = selection_set(nodes, focus, depth, query);
        &&& node_map_of(nodes, files, all_edges(files, known))
        &&& nodes_view(kept) == filtered_nodes(nodes, sel)
        &&& r.base_path@ == base
        &&& views(r.focus_paths@) == views(focus_display)
        &&& (focus.len() == 0 && query is None ==> r.depth is None && r.query is None)
        &&& (!(focus.len() == 0 && query is None) ==> r.depth == depth && r.query == query)
        &&& edges_view(r.edges@) == all_edges(files, known).filter(|e: EdgeV| keep_edge(e, sel))
        &&& r.nodes@.len() == kept.len()
        &&& forall|i: int| 0 <= i < kept.len() ==> {
            &&& (#[trigger] r.nodes@[i]).file_path@ == kept[i].file_path@
            &&& opt_view(r.nodes@[i].language) == opt_view(kept[i].language)
            &&& r.nodes@[i].imports_count == kept[i].imports@.len()
            &&& r.nodes@[i].imported_by_count == kept[i].imported_by@.len()
        }
        &&& r.metrics.total_files == kept.len()
        &&& r.metrics.total_internal_edges == edges_view(r.edges@).filter(|e: EdgeV| e.3 == true).len()
        &&& r.metrics.total_external_edges == edges_view(r.edges@).filter(|e: EdgeV| e.3 == false).len()
        &&& top_ranked(metrics_view(r.metrics.most_importing@), rank_items(kept, true))
        &&& top_ranked(metrics_view(r.metrics.most_imported@), rank_items(kept, false))
        &&& forall|i: int| 0 <= i < r.metrics.cycles@.len() ==> is_cycle(kept, views(#[trigger] r.metrics.cycles@[i]@))
        &&& forall|i: int, j: int| 0 <= i < j < r.metrics.cycles@.len()
            ==> views((#[trigger] r.metrics.cycles@[i])@).to_multiset() != views((#[trigger] r.metrics.cycles@[j])@).to_multiset()
        &&& r.metrics.circular_dependencies == r.metrics.cycles@.len()
    }
}

/// The report a graph of these files gives (the node map is determined by
/// the files, so the witness is unique).
pub open spec fn graph_report_ok(
    r: GraphReport,
    base: Seq<char>,
    focus: Seq<String>,
    focus_display: Seq<String>,
    files: Seq<FileImportData>,
    known: Seq<String>,
    depth: Option<u32>,
    query: Option<GraphQuery>,
) -> bool {
    exists|nodes: Seq<NodeEntry>, kept: Seq<NodeEntry>| #[trigger] report_matches(r, base, focus, focus_display, files, known, depth, query, nodes, kept)
}

proof fn lemma_filter_keeps_order(nodes: Seq<NodeEntry>, kept: Seq<NodeEntry>, sel: Set<Seq<char>>)
    requires
        strictly_sorted(node_paths(nodes)),
        nodes_view(kept) == filtered_nodes(nodes, sel),
    ensures
        strictly_sorted(node_paths(kept)),
{
    let p = crate::graph::metrics::in_selection(sel);
    let f = nodes.filter(p);
    assert(filtered_nodes(nodes, sel) == f.map_values(|n: NodeEntry| crate::graph::metrics::restrict(n, sel)));
    assert(kept.len() == nodes_view(kept).len());
    assert(f.len() == filtered_nodes(nodes, sel).len());
    assert(node_paths(kept) =~= node_paths(f)) by {
        assert forall|i: int| 0 <= i < kept.len() implies node_paths(kept)[i] == node_paths(f)[i] by {
            assert(nodes_view(kept)[i] == filtered_nodes(nodes, sel)[i]);
            assert(nodes_view(kept)[i] == crate::graph::metrics::node_view(kept[i]));
            assert(filtered_nodes(nodes, sel)[i] == crate::graph::metrics::restrict(f[i], sel));
        }
    }
    lemma_filter_sorted(nodes, p);
}

proof fn lemma_filter_sorted(nodes: Seq<NodeEntry>, p: spec_fn(NodeEntry) -> bool)
    requires
        strictly_sorted(node_paths(nodes)),
    ensures
        strictly_sorted(node_paths(nodes.filter(p))),
        forall|x: NodeEntry| #[trigger] nodes.filter(p).contains(x) ==> nodes.contains(x),
    decreases nodes.len(),
{
    reveal(Seq::filter);
    if nodes.len() > 0 {
        let d = nodes.drop_last();
        assert(node_paths(d) =~= node_paths(nodes).drop_last());
        lemma_filter_sorted(d, p);
        assert forall|x: NodeEntry| d.contains(x) implies nodes.contains(x) by {
            let k = choose|k: int| 0 <= k < d.len() && d[k] == x;
            assert(nodes[k] == x);
        }
        if p(nodes.last()) {
            let f = d.filter(p);
            let g = f.push(nodes.last());
            assert forall|i: int, j: int| 0 <= i < j < node_paths(g).len() implies crate::sorting::text_lt(#[trigger] node_paths(g)[i], #[trigger] node_paths(g)[j]) by {
                if j == f.len() {
                    assert(f.contains(f[i]));
                    let k = choose|k: int| 0 <= k < d.len() && d[k] == f[i];
                    assert(node_paths(nodes)[k] == f[i].file_path@);
                    assert(node_paths(nodes)[nodes.len() - 1] == nodes.last().file_path@);
                } else {
                    assert(node_paths(g)[i] == node_paths(f)[i]);
                    assert(node_paths(g)[j] == node_paths(f)[j]);
                }
            }
            assert forall|x: NodeEntry| g.contains(x) implies nodes.contains(x) by {
                let k = choose|k: int| 0 <= k < g.len() && g[k] == x;
                if k < f.len() {
                    assert(f.contains(x));
                } else {
                    assert(nodes[nodes.len() - 1] == x);
                }
            }
        }
    }
}

fn clone_query(q: &Option<GraphQuery>) -> (r: Option<GraphQuery>)
    ensures
        r == *q,
{
    match q {
        Some(GraphQuery::DependsOn(p)) => Some(GraphQuery::DependsOn(p.clone())),
        None => None,
    }
}

/// The graph report of the project's files: the edges and node map of all
/// imports, narrowed to the focus set (`build_focus_set`) and query, with
/// metrics; the report shows the focus paths as the user gave them.
pub fn build_graph_report(
    base: &str,
    focus: &Vec<String>,
    focus_display: &Vec<String>,
    files: &Vec<FileImportData>,
    known: &Vec<String>,
    depth: Option<u32>,
    query: Option<GraphQuery>,
) -> (r: Result<GraphReport, GraphError>)
    ensures
        match r {
            Ok(rep) => graph_report_ok(rep, base@, focus@, focus_display@, files@, known@, depth, query),
            Err(e) => match query {
                Some(GraphQuery::DependsOn(p)) => e == GraphError::UnknownQueryPath(p)
                    && !is_node_key(files@, all_edges(files@, known@), p@),
                None => false,
            },
        },
{
    let (edges, nodes) = build_edges_and_nodes(files, known);
    let sel = select_graph(&nodes, focus, depth, clone_query(&query))?;
    let kept = filter_node_map(&nodes, &sel.node_paths);
    let kept_edges = filter_edges(&edges, &sel.node_paths);
    proof {
        lemma_filter_keeps_order(nodes@, kept@, as_set(sel.node_paths@));
    }
    let metrics = compute_metrics(&kept, &kept_edges);
    let node_list = build_node_list(&kept);
    let mut focus_copy: Vec<String> = Vec::new();
    let mut i: usize = 0;
    while i < focus_display.len()
        invariant
            i <= focus_display@.len(),
            views(focus_copy@) == views(focus_display@.take(i as int)),
        decreases focus_display@.len() - i,
    {
        let ghost before = views(focus_copy@);
        focus_copy.push(focus_display[i].clone());
        assert(views(focus_copy@) =~= before.push(focus_display@[i as int]@));
        assert(views(focus_display@.take(i + 1)) =~= views(focus_display@.take(i as int)).push(focus_display@[i as int]@));
        i = i + 1;
    }
    assert(focus_display@.take(i as int) =~= focus_display@);
    let rep = GraphReport {
        base_path: base.to_owned(),
        focus_paths: focus_copy,
        depth: sel.applied_depth,
        query: sel.query,
        nodes: node_list,
        edges: kept_edges,
        metrics,
    };
    proof {
        assert(report_matches(rep, base@, focus@, focus_display@, files@, known@, depth, query, nodes@, kept@));
    }
    Ok(rep)
}


/// Every edge of all imports starts at a file that was read.
proof fn lemma_edge_source_is_file(files: Seq<FileImportData>, known: Seq<String>, j: int)
    requires
        0 <= j < all_edges(files, known).len(),
    ensures
        exists|i: int| 0 <= i < files.len() && #[trigger] files[i].file_path@ == all_edges(files, known)[j].0,
    decreases files.len(),
{
    let prev = all_edges(files.drop_last(), known);
    if j < prev.len() {
        lemma_edge_source_is_file(files.drop_last(), known, j);
        let i = choose|i: int| 0 <= i < files.drop_last().len() && #[trigger] files.drop_last()[i].file_path@ == prev[j].0;
        assert(files[i].file_path@ == all_edges(files, known)[j].0);
    } else {
        let last = files.last();
        assert(all_edges(files, known)[j] == file_edges(last, known)[j - prev.len()]);
        assert(files[files.len() - 1].file_path@ == all_edges(files, known)[j].0);
    }
}

/// A path that is a node of the map and lies in the selection is a node of
/// the narrowed map.
proof fn lemma_selected_node_kept(nodes: Seq<NodeEntry>, kept: Seq<NodeEntry>, sel: Set<Seq<char>>, k: Seq<char>)
    requires
        node_paths(nodes).contains(k),
        sel.contains(k),
        nodes_view(kept) == filtered_nodes(nodes, sel),
    ensures
        exists|t: int| 0 <= t < kept.len() && #[trigger] kept[t].file_path@ == k,
{
    broadcast use vstd::seq_lib::group_filter_ensures;
    let idx = choose|idx: int| 0 <= idx < node_paths(nodes).len() && node_paths(nodes)[idx] == k;
    let n = nodes[idx];
    let f = nodes.filter(in_selection(sel));
    nodes.lemma_filter_contains(in_selection(sel), idx);
    let t = choose|t: int| 0 <= t < f.len() && f[t] == n;
    assert(filtered_nodes(nodes, sel)[t] == restrict(n, sel));
    assert(nodes_view(kept).len() == kept.len());
    assert(nodes_view(kept)[t].0 == k);
    assert(kept[t].file_path@ == k);
}

/// `k` is the path of one of the report's nodes.
pub open spec fn report_has_node(r: GraphReport, k: Seq<char>) -> bool {
    exists|i: int| 0 <= i < r.nodes@.len() && #[trigger] r.nodes@[i].file_path@ == k
}

/// Every edge of a graph report starts at one of the report's nodes, and an
/// edge that resolved ends at one of them.
pub proof fn law_report_edges_join_report_nodes(
    r: GraphReport,
    base: Seq<char>,
    focus: Seq<String>,
    focus_display: Seq<String>,
    files: Seq<FileImportData>,
    known: Seq<String>,
    depth: Option<u32>,
    query: Option<GraphQuery>,
)
    requires
        graph_report_ok(r, base, focus, focus_display, files, known, depth, query),
    ensures
        forall|j: int| 0 <= j < r.edges@.len() ==> {
            &&& report_has_node(r, (#[trigger] r.edges@[j]).from@)
            &&& r.edges@[j].resolved ==> (r.edges@[j].to matches Some(t) && report_has_node(r, t@))
        },
{
    broadcast use vstd::seq_lib::group_filter_ensures;
    let (nodes, kept) = choose|nodes: Seq<NodeEntry>, kept: Seq<NodeEntry>|
        #[trigger] report_matches(r, base, focus, focus_display, files, known, depth, query, nodes, kept);
    let sel = selection_set(nodes, focus, depth, query);
    let all = all_edges(files, known);
    let p = |e: EdgeV| keep_edge(e, sel);
    assert forall|j: int| 0 <= j < r.edges@.len() implies {
        &&& report_has_node(r, (#[trigger] r.edges@[j]).from@)
        &&& r.edges@[j].resolved ==> (r.edges@[j].to matches Some(t) && report_has_node(r, t@))
    } by {
        let ev = edges_view(r.edges@)[j];
        assert(all.filter(p).contains(ev));
        all.lemma_filter_contains_rev(p, ev);
        assert(p(ev));
        let a = choose|a: int| 0 <= a < all.len() && all[a] == ev;
        lemma_edge_source_is_file(files, known, a);
        lemma_selected_node_kept(nodes, kept, sel, ev.0);
        let t = choose|t: int| 0 <= t < kept.len() && #[trigger] kept[t].file_path@ == ev.0;
        assert(r.nodes@[t].file_path@ == r.edges@[j].from@);
        if r.edges@[j].resolved {
            let k = ev.1->0;
            assert(all[a].1 == Some(k));
            lemma_selected_node_kept(nodes, kept, sel, k);
            let u = choose|u: int| 0 <= u < kept.len() && #[trigger] kept[u].file_path@ == k;
            assert(r.nodes@[u].file_path@ == k);
        }
    }
}

} // verus!
