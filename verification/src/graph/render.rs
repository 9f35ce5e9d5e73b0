//! Rendering a dependency graph report as Markdown with a Mermaid diagram,
//! as XML, and as Graphviz DOT.
use vstd::prelude::*;
use vstd::string::*;
use crate::fmt::{dec, u64_str, usize_str};
use crate::graph::resolve::opt_view;
use crate::graph::types::{FileMetric, GraphEdge, GraphFormat, GraphNode, GraphQuery, GraphReport};
use crate::paths::{join_seq, join_strings, last_part, last_segment, views};
use crate::text::{chars_of, push_char, str_eq};

verus! {

/// The texts of the items, one after another.
pub open spec fn rows<T>(s: Seq<T>, f: spec_fn(T) -> Seq<char>) -> Seq<char>
    decreases s.len(),
{
    if s.len() == 0 {
        Seq::empty()
    } else {
        rows(s.drop_last(), f) + f(s.last())
    }
}

pub proof fn lemma_rows_step<T>(s: Seq<T>, i: int, f: spec_fn(T) -> Seq<char>)
    requires
        0 <= i < s.len(),
    ensures
        rows(s.take(i + 1), f) == rows(s.take(i), f) + f(s[i]),
{
    assert(s.take(i + 1).drop_last() =~= s.take(i));
}

/// `c` escaped for XML.
pub open spec fn xml_char(c: char) -> Seq<char> {
    if c == '&' { "&amp;"@ } else if c == '<' { "&lt;"@ } else if c == '>' { "&gt;"@ }
    else if c == '"' { "&quot;"@ } else if c == '\'' { "&apos;"@ } else { seq![c] }
}

pub open spec fn xml_escape_spec(s: Seq<char>) -> Seq<char> {
    rows(s, |c: char| xml_char(c))
}

/// `text` with `&`, `<`, `>`, `"` and `'` escaped for XML.
#[verifier::rlimit(30)]
pub fn xml_escape(text: &str) -> (r: String)
    ensures
        r@ == xml_escape_spec(text@),
{
    let v = chars_of(text);
    let mut out = String::new();
    let mut i: usize = 0;
    while i < v.len()
        invariant
            i <= v@.len(),
            v@ == text@,
            out@ == rows(v@.take(i as int), |c: char| xml_char(c)),
        decreases v@.len() - i,
    {
        proof { lemma_rows_step(v@, i as int, |c: char| xml_char(c)); }
        let c = v[i];
        if c == '&' {
            out.append("&amp;");
        } else if c == '<' {
            out.append("&lt;");
        } else if c == '>' {
            out.append("&gt;");
        } else if c == '"' {
            out.append("&quot;");
        } else if c == '\'' {
            out.append("&apos;");
        } else {
            push_char(&mut out, c);
            assert(out@ =~= rows(v@.take(i as int), |c: char| xml_char(c)) + seq![c]);
        }
        i = i + 1;
    }
    assert(v@.take(i as int) =~= v@);
    out
}

/// `c` escaped for a DOT label.
pub open spec fn dot_char(c: char) -> Seq<char> {
    if c == '\\' { "\\\\"@ } else if c == '"' { "\\\""@ } else { seq![c] }
}

pub open spec fn dot_escape_spec(s: Seq<char>) -> Seq<char> {
    rows(s, |c: char| dot_char(c))
}

/// `text` with backslashes and double quotes escaped for a DOT label.
#[verifier::rlimit(30)]
pub fn dot_escape(text: &str) -> (r: String)
    ensures
        r@ == dot_escape_spec(text@),
{
    let v = chars_of(text);
    let mut out = String::new();
    let mut i: usize = 0;
    while i < v.len()
        invariant
            i <= v@.len(),
            v@ == text@,
            out@ == rows(v@.take(i as int), |c: char| dot_char(c)),
        decreases v@.len() - i,
    {
        proof { lemma_rows_step(v@, i as int, |c: char| dot_char(c)); }
        let c = v[i];
        if c == '\\' {
            out.append("\\\\");
        } else if c == '"' {
            out.append("\\\"");
        } else {
            push_char(&mut out, c);
            assert(out@ =~= rows(v@.take(i as int), |c: char| dot_char(c)) + seq![c]);
        }
        i = i + 1;
    }
    assert(v@.take(i as int) =~= v@);
    out
}

/// The DOT id of a path: `/`, `.` and `-` become `_`, and the result is quoted.
pub open spec fn dot_id_spec(path: Seq<char>) -> Seq<char> {
    seq!['"'] + path.map_values(|c: char| if c == '/' || c == '.' || c == '-' { '_' } else { c }) + seq!['"']
}

/// The DOT id of a path.
#[verifier::rlimit(30)]
pub fn dot_node_id(path: &str) -> (r: String)
    ensures
        r@ == dot_id_spec(path@),
{
    let v = chars_of(path);
    let mut out = String::new();
    push_char(&mut out, '"');
    let mut i: usize = 0;
    while i < v.len()
        invariant
            i <= v@.len(),
            v@ == path@,
            out@ == seq!['"'] + v@.take(i as int).map_values(|c: char| if c == '/' || c == '.' || c == '-' { '_' } else { c }),
        decreases v@.len() - i,
    {
        let c = v[i];
        let d = if c == '/' || c == '.' || c == '-' { '_' } else { c };
        push_char(&mut out, d);
        i = i + 1;
        assert(out@ =~= seq!['"'] + v@.take(i as int).map_values(|c: char| if c == '/' || c == '.' || c == '-' { '_' } else { c }));
    }
    push_char(&mut out, '"');
    assert(v@.take(i as int) =~= v@);
    out
}

/// A query as text: `depends_on:` and the path.
pub open spec fn query_text(q: GraphQuery) -> Seq<char> {
    match q {
        GraphQuery::DependsOn(p) => "depends_on:"@ + p@,
    }
}

/// A query as text.
pub fn format_query(q: &GraphQuery) -> (r: String)
    ensures
        r@ == query_text(*q),
{
    match q {
        GraphQuery::DependsOn(p) => {
            let mut s = "depends_on:".to_owned();
            s.append(p.as_str());
            s
        },
    }
}

// ---- Markdown ----

pub open spec fn md_selection(r: GraphReport) -> Seq<char> {
    (if r.focus_paths@.len() > 0 { "**Focus paths:** `"@ + join_seq(views(r.focus_paths@), "`, `"@) + "`\n\n"@ } else { Seq::empty() })
    + (match r.depth { Some(d) => "**Depth:** `"@ + dec(d as nat) + "`\n\n"@, None => Seq::empty() })
    + (match r.query { Some(q) => "**Query:** `"@ + query_text(q) + "`\n\n"@, None => Seq::empty() })
}

pub open spec fn md_summary(r: GraphReport) -> Seq<char> {
    "## Summary\n\n"@ + "| Metric | Value |\n|--------|-------|\n"@
    + "| Files analyzed | "@ + dec(r.metrics.total_files as nat) + " |\n"@
    + "| Internal edges | "@ + dec(r.metrics.total_internal_edges as nat) + " |\n"@
    + "| External edges | "@ + dec(r.metrics.total_external_edges as nat) + " |\n"@
    + "| Circular dependencies | "@ + dec(r.metrics.circular_dependencies as nat) + " |\n\n"@
}

pub open spec fn md_metric_row() -> spec_fn(FileMetric) -> Seq<char> {
    |m: FileMetric| "| `"@ + m.file_path@ + "` | "@ + dec(m.count as nat) + " |\n"@
}

/// The numbered lines of the cycles, from number `start + 1` on.
pub open spec fn md_cycle_rows(cycles: Seq<Vec<String>>) -> Seq<char>
    decreases cycles.len(),
{
    if cycles.len() == 0 {
        Seq::empty()
    } else {
        md_cycle_rows(cycles.drop_last()) + dec(cycles.len()) + ". `"@ + join_seq(views(cycles.last()@), "` → `"@) + "`\n"@
    }
}

pub open spec fn md_lists(r: GraphReport) -> Seq<char> {
    (if r.metrics.most_imported@.len() > 0 {
        "## Most Imported Files\n\n"@ + "| File | Imported by |\n|------|-------------|\n"@ + rows(r.metrics.most_imported@, md_metric_row()) + "\n"@
    } else { Seq::empty() })
    + (if r.metrics.most_importing@.len() > 0 {
        "## Most Importing Files\n\n"@ + "| File | Imports |\n|------|---------|\n"@ + rows(r.metrics.most_importing@, md_metric_row()) + "\n"@
    } else { Seq::empty() })
    + (if r.metrics.cycles@.len() > 0 {
        "## Circular Dependencies\n\n"@ + md_cycle_rows(r.metrics.cycles@) + "\n"@
    } else { Seq::empty() })
}

/// Index of the last node with path `p`, or -1 (the id map keeps the last).
pub open spec fn node_index(nodes: Seq<GraphNode>, p: Seq<char>) -> int
    decreases nodes.len(),
{
    if nodes.len() == 0 {
        -1
    } else if nodes.last().file_path@ == p {
        nodes.len() - 1
    } else {
        node_index(nodes.drop_last(), p)
    }
}

pub open spec fn mermaid_id(nodes: Seq<GraphNode>, p: Seq<char>) -> Seq<char> {
    "n"@ + dec(node_index(nodes, p) as nat)
}

pub open spec fn mermaid_node_rows(nodes: Seq<GraphNode>, all: Seq<GraphNode>) -> Seq<char> {
    rows(nodes, |n: GraphNode| "    "@ + mermaid_id(all, n.file_path@) + "[\""@ + last_segment(n.file_path@, '/') + "\"]\n"@)
}

pub open spec fn mermaid_edge_row(nodes: Seq<GraphNode>) -> spec_fn(GraphEdge) -> Seq<char> {
    |e: GraphEdge| match e.to {
        Some(t) => if node_index(nodes, e.from@) >= 0 && node_index(nodes, t@) >= 0 {
            "    "@ + mermaid_id(nodes, e.from@) + " --> "@ + mermaid_id(nodes, t@) + "\n"@
        } else {
            Seq::empty()
        },
        None => Seq::empty(),
    }
}

pub open spec fn resolved_edges(edges: Seq<GraphEdge>) -> Seq<GraphEdge> {
    edges.filter(|e: GraphEdge| e.resolved)
}

pub open spec fn md_mermaid(r: GraphReport) -> Seq<char> {
    let internal = resolved_edges(r.edges@);
    if internal.len() == 0 {
        Seq::empty()
    } else {
        let shown = if internal.len() > 50 { internal.take(50) } else { internal };
        "## Dependency Diagram\n\n"@ + "```mermaid\ngraph LR\n"@
        + mermaid_node_rows(r.nodes@, r.nodes@)
        + rows(shown, mermaid_edge_row(r.nodes@))
        + (if internal.len() > 50 { "    %% ... and "@ + dec((internal.len() - 50) as nat) + " more edges\n"@ } else { Seq::empty() })
        + "```\n"@
    }
}

/// The Markdown report.
pub open spec fn markdown_spec(r: GraphReport) -> Seq<char> {
    "# Dependency Graph Report\n\n"@ + "**Base path:** `"@ + r.base_path@ + "`\n\n"@
    + md_selection(r) + md_summary(r) + md_lists(r) + md_mermaid(r)
}

fn render_markdown_selection(out: &mut String, r: &GraphReport)
    ensures
        final(out)@ == old(out)@ + md_selection(*r),
{
    let ghost start = out@;
    if r.focus_paths.len() > 0 {
        out.append("**Focus paths:** `");
        let j = join_strings(&r.focus_paths, "`, `");
        out.append(j.as_str());
        out.append("`\n\n");
    }
    let ghost a = out@;
    match r.depth {
        Some(d) => {
            out.append("**Depth:** `");
            let s = u64_str(d as u64);
            out.append(s.as_str());
            out.append("`\n\n");
        },
        None => {},
    }
    let ghost b = out@;
    match &r.query {
        Some(q) => {
            out.append("**Query:** `");
            let s = format_query(q);
            out.append(s.as_str());
            out.append("`\n\n");
        },
        None => {},
    }
    assert(out@ =~= start + md_selection(*r));
}

fn render_markdown_summary(out: &mut String, r: &GraphReport)
    ensures
        final(out)@ == old(out)@ + md_summary(*r),
{
    let ghost start = out@;
    out.append("## Summary\n\n");
    out.append("| Metric | Value |\n|--------|-------|\n");
    out.append("| Files analyzed | ");
    out.append(u64_str(r.metrics.total_files).as_str());
    out.append(" |\n");
    out.append("| Internal edges | ");
    out.append(u64_str(r.metrics.total_internal_edges).as_str());
    out.append(" |\n");
    out.append("| External edges | ");
    out.append(u64_str(r.metrics.total_external_edges).as_str());
    out.append(" |\n");
    out.append("| Circular dependencies | ");
    out.append(u64_str(r.metrics.circular_dependencies).as_str());
    out.append(" |\n\n");
    assert(out@ =~= start + md_summary(*r));
}

#[verifier::rlimit(30)]
fn push_metric_rows(out: &mut String, ms: &Vec<FileMetric>)
    ensures
        final(out)@ == old(out)@ + rows(ms@, md_metric_row()),
{
    let ghost start = out@;
    let mut i: usize = 0;
    while i < ms.len()
        invariant
            i <= ms@.len(),
            out@ == start + rows(ms@.take(i as int), md_metric_row()),
        decreases ms@.len() - i,
    {
        proof { lemma_rows_step(ms@, i as int, md_metric_row()); }
        let ghost before = out@;
        out.append("| `");
        out.append(ms[i].file_path.as_str());
        out.append("` | ");
        out.append(u64_str(ms[i].count).as_str());
        out.append(" |\n");
        assert(out@ =~= before + (md_metric_row())(ms@[i as int]));
        i = i + 1;
    }
    assert(ms@.take(i as int) =~= ms@);
}

fn md_metric_block(out: &mut String, ms: &Vec<FileMetric>, title: &str, header: &str)
    ensures
        final(out)@ == old(out)@ + (if ms@.len() > 0 { title@ + header@ + rows(ms@, md_metric_row()) + "\n"@ } else { Seq::empty() }),
{
    let ghost start = out@;
    if ms.len() > 0 {
        out.append(title);
        out.append(header);
        push_metric_rows(out, ms);
        out.append("\n");
    }
    assert(out@ =~= start + (if ms@.len() > 0 { title@ + header@ + rows(ms@, md_metric_row()) + "\n"@ } else { Seq::empty() }));
}

#[verifier::rlimit(30)]
fn md_cycles_block(out: &mut String, cycles: &Vec<Vec<String>>)
    ensures
        final(out)@ == old(out)@ + (if cycles@.len() > 0 { "## Circular Dependencies\n\n"@ + md_cycle_rows(cycles@) + "\n"@ } else { Seq::empty() }),
{
    let ghost start = out@;
    if cycles.len() > 0 {
        out.append("## Circular Dependencies\n\n");
        let ghost c0 = out@;
        let mut i: usize = 0;
        while i < cycles.len()
            invariant
                i <= cycles@.len(),
                out@ == c0 + md_cycle_rows(cycles@.take(i as int)),
            decreases cycles@.len() - i,
        {
            assert(cycles@.take(i + 1).drop_last() =~= cycles@.take(i as int));
            let ghost before = out@;
            out.append(usize_str(i + 1).as_str());
            out.append(". `");
            out.append(join_strings(&cycles[i], "` → `").as_str());
            out.append("`\n");
            assert(out@ =~= before + dec((i + 1) as nat) + ". `"@ + join_seq(views(cycles@[i as int]@), "` → `"@) + "`\n"@);
            i = i + 1;
        }
        assert(cycles@.take(i as int) =~= cycles@);
        out.append("\n");
    }
    assert(out@ =~= start + (if cycles@.len() > 0 { "## Circular Dependencies\n\n"@ + md_cycle_rows(cycles@) + "\n"@ } else { Seq::empty() }));
}

fn render_markdown_lists(out: &mut String, r: &GraphReport)
    ensures
        final(out)@ == old(out)@ + md_lists(*r),
{
    let ghost start = out@;
    md_metric_block(out, &r.metrics.most_imported, "## Most Imported Files\n\n", "| File | Imported by |\n|------|-------------|\n");
    md_metric_block(out, &r.metrics.most_importing, "## Most Importing Files\n\n", "| File | Imports |\n|------|---------|\n");
    md_cycles_block(out, &r.metrics.cycles);
    assert(out@ =~= start + md_lists(*r));
}

#[verifier::rlimit(30)]
fn node_index_of(nodes: &Vec<GraphNode>, p: &str) -> (r: Option<usize>)
    ensures
        match r {
            Some(i) => i == node_index(nodes@, p@) && i < nodes@.len(),
            None => node_index(nodes@, p@) == -1,
        },
{
    let mut i = nodes.len();
    assert(nodes@.take(i as int) =~= nodes@);
    while i > 0
        invariant
            i <= nodes@.len(),
            node_index(nodes@, p@) == node_index(nodes@.take(i as int), p@),
        decreases i,
    {
        assert(nodes@.take(i as int).drop_last() =~= nodes@.take(i - 1));
        if str_eq(nodes[i - 1].file_path.as_str(), p) {
            return Some(i - 1);
        }
        i = i - 1;
    }
    None
}

proof fn lemma_node_index_bounds(nodes: Seq<GraphNode>, p: Seq<char>)
    ensures
        -1 <= node_index(nodes, p) < nodes.len(),
    decreases nodes.len(),
{
    if nodes.len() > 0 && nodes.last().file_path@ != p {
        lemma_node_index_bounds(nodes.drop_last(), p);
    }
}

/// The edges that resolved, in order.
#[verifier::rlimit(30)]
pub fn resolved_edge_list(edges: &Vec<GraphEdge>) -> (r: Vec<usize>)
    ensures
        r@.map_values(|i: usize| edges@[i as int]) == resolved_edges(edges@),
        forall|k: int| 0 <= k < r@.len() ==> r@[k] < edges@.len(),
{
    let ghost p = |e: GraphEdge| e.resolved;
    let mut r: Vec<usize> = Vec::new();
    let mut i: usize = 0;
    while i < edges.len()
        invariant
            i <= edges@.len(),
            p == (|e: GraphEdge| e.resolved),
            r@.map_values(|i: usize| edges@[i as int]) == edges@.take(i as int).filter(p),
            forall|k: int| 0 <= k < r@.len() ==> r@[k] < i,
        decreases edges@.len() - i,
    {
        proof {
            reveal(Seq::filter);
            let t = edges@.take(i + 1);
            assert(t.drop_last() =~= edges@.take(i as int));
            assert(t.filter(p) == (if p(t.last()) { t.drop_last().filter(p).push(t.last()) } else { t.drop_last().filter(p) }));
        }
        let ghost before = r@.map_values(|i: usize| edges@[i as int]);
        if edges[i].resolved {
            r.push(i);
            assert(r@.map_values(|i: usize| edges@[i as int]) =~= before.push(edges@[i as int]));
        }
        i = i + 1;
    }
    assert(edges@.take(i as int) =~= edges@);
    r
}

#[verifier::rlimit(30)]
fn render_markdown_mermaid(out: &mut String, r: &GraphReport)
    ensures
        final(out)@ == old(out)@ + md_mermaid(*r),
{
    let ghost start = out@;
    let internal = resolved_edge_list(&r.edges);
    let ghost iv = internal@.map_values(|i: usize| r.edges@[i as int]);
    if internal.len() == 0 {
        assert(out@ =~= start + md_mermaid(*r));
        return;
    }
    out.append("## Dependency Diagram\n\n");
    out.append("```mermaid\ngraph LR\n");
    let ghost n0 = out@;
    let nodes = &r.nodes;
    let ghost row = |n: GraphNode| "    "@ + mermaid_id(nodes@, n.file_path@) + "[\""@ + last_segment(n.file_path@, '/') + "\"]\n"@;
    let mut i: usize = 0;
    while i < nodes.len()
        invariant
            i <= nodes@.len(),
            nodes@ == r.nodes@,
            row == (|n: GraphNode| "    "@ + mermaid_id(nodes@, n.file_path@) + "[\""@ + last_segment(n.file_path@, '/') + "\"]\n"@),
            out@ == n0 + rows(nodes@.take(i as int), row),
        decreases nodes@.len() - i,
    {
        proof { lemma_rows_step(nodes@, i as int, row); }
        let ghost before = out@;
        let short = last_part(nodes[i].file_path.as_str(), '/');
        match node_index_of(nodes, nodes[i].file_path.as_str()) {
            Some(k) => {
                out.append("    ");
                out.append("n");
                out.append(usize_str(k).as_str());
                out.append("[\"");
                out.append(short.as_str());
                out.append("\"]\n");
                assert(out@ =~= before + row(nodes@[i as int]));
            },
            None => {
                proof {
                    assert(nodes@.take(i + 1).last() == nodes@[i as int]);
                    lemma_node_index_last(nodes@, i as int);
                }
            },
        }
        i = i + 1;
    }
    assert(nodes@.take(i as int) =~= nodes@);
    let ghost e0 = out@;
    let shown: usize = if internal.len() > 50 { 50 } else { internal.len() };
    let mut k: usize = 0;
    while k < shown
        invariant
            k <= shown <= internal@.len(),
            shown == (if internal@.len() > 50 { 50 } else { internal@.len() }),
            iv == internal@.map_values(|i: usize| r.edges@[i as int]),
            forall|x: int| 0 <= x < internal@.len() ==> internal@[x] < r.edges@.len(),
            out@ == e0 + rows(iv.take(k as int), mermaid_edge_row(r.nodes@)),
        decreases shown - k,
    {
        proof { lemma_rows_step(iv, k as int, mermaid_edge_row(r.nodes@)); }
        let e = &r.edges[internal[k]];
        assert(*e == iv[k as int]);
        let ghost before = out@;
        match &e.to {
            Some(t) => {
                let fi = node_index_of(&r.nodes, e.from.as_str());
                let ti = node_index_of(&r.nodes, t.as_str());
                match (fi, ti) {
                    (Some(a), Some(b)) => {
                        out.append("    ");
                        out.append("n");
                        out.append(usize_str(a).as_str());
                        out.append(" --> ");
                        out.append("n");
                        out.append(usize_str(b).as_str());
                        out.append("\n");
                        assert(out@ =~= before + (mermaid_edge_row(r.nodes@))(iv[k as int]));
                    },
                    _ => {
                        assert(out@ =~= before + (mermaid_edge_row(r.nodes@))(iv[k as int]));
                    },
                }
            },
            None => {
                assert(out@ =~= before + (mermaid_edge_row(r.nodes@))(iv[k as int]));
            },
        }
        k = k + 1;
    }
    let ghost before_tail = out@;
    if internal.len() > 50 {
        out.append("    %% ... and ");
        out.append(usize_str(internal.len() - 50).as_str());
        out.append(" more edges\n");
    }
    out.append("```\n");
    proof {
        if internal@.len() <= 50 {
            assert(iv.take(shown as int) =~= iv);
        }
        assert(out@ =~= start + md_mermaid(*r));
    }
}

proof fn lemma_node_index_last(nodes: Seq<GraphNode>, i: int)
    requires
        0 <= i < nodes.len(),
    ensures
        node_index(nodes, nodes[i].file_path@) >= i,
    decreases nodes.len(),
{
    if nodes.len() - 1 != i && nodes.last().file_path@ != nodes[i].file_path@ {
        lemma_node_index_last(nodes.drop_last(), i);
    }
}

/// The report as Markdown with a Mermaid diagram.
pub fn render_graph_markdown(r: &GraphReport) -> (out: String)
    ensures
        out@ == markdown_spec(*r),
{
    let mut out = String::new();
    out.append("# Dependency Graph Report\n\n");
    out.append("**Base path:** `");
    out.append(r.base_path.as_str());
    out.append("`\n\n");
    render_markdown_selection(&mut out, r);
    render_markdown_summary(&mut out, r);
    render_markdown_lists(&mut out, r);
    render_markdown_mermaid(&mut out, r);
    assert(out@ =~= markdown_spec(*r));
    out
}

// ---- XML ----

pub open spec fn xml_focus_row() -> spec_fn(String) -> Seq<char> {
    |f: String| "      <focus-path>"@ + xml_escape_spec(f@) + "</focus-path>\n"@
}

pub open spec fn xml_selection(r: GraphReport) -> Seq<char> {
    if r.focus_paths@.len() == 0 && r.depth is None && r.query is None {
        Seq::empty()
    } else {
        "  <selection>\n"@
        + (if r.focus_paths@.len() > 0 { "    <focus-paths>\n"@ + rows(r.focus_paths@, xml_focus_row()) + "    </focus-paths>\n"@ } else { Seq::empty() })
        + (match r.depth { Some(d) => "    <depth>"@ + dec(d as nat) + "</depth>\n"@, None => Seq::empty() })
        + (match r.query { Some(q) => "    <query>"@ + xml_escape_spec(query_text(q)) + "</query>\n"@, None => Seq::empty() })
        + "  </selection>\n"@
    }
}

pub open spec fn xml_metric_row() -> spec_fn(FileMetric) -> Seq<char> {
    |m: FileMetric| "      <file path=\""@ + xml_escape_spec(m.file_path@) + "\" count=\""@ + dec(m.count as nat) + "\"/>\n"@
}

pub open spec fn xml_cycle_node_row() -> spec_fn(String) -> Seq<char> {
    |n: String| "        <node>"@ + xml_escape_spec(n@) + "</node>\n"@
}

pub open spec fn xml_cycle_row() -> spec_fn(Vec<String>) -> Seq<char> {
    |c: Vec<String>| "      <cycle>\n"@ + rows(c@, xml_cycle_node_row()) + "      </cycle>\n"@
}

pub open spec fn xml_counts(r: GraphReport) -> Seq<char> {
    "    <total-files>"@ + dec(r.metrics.total_files as nat) + "</total-files>\n"@
    + "    <internal-edges>"@ + dec(r.metrics.total_internal_edges as nat) + "</internal-edges>\n"@
    + "    <external-edges>"@ + dec(r.metrics.total_external_edges as nat) + "</external-edges>\n"@
    + "    <circular-dependencies>"@ + dec(r.metrics.circular_dependencies as nat) + "</circular-dependencies>\n"@
}

pub open spec fn xml_metrics(r: GraphReport) -> Seq<char> {
    "  <metrics>\n"@
    + xml_counts(r)
    + (if r.metrics.most_imported@.len() > 0 { "    <most-imported>\n"@ + rows(r.metrics.most_imported@, xml_metric_row()) + "    </most-imported>\n"@ } else { Seq::empty() })
    + (if r.metrics.most_importing@.len() > 0 { "    <most-importing>\n"@ + rows(r.metrics.most_importing@, xml_metric_row()) + "    </most-importing>\n"@ } else { Seq::empty() })
    + (if r.metrics.cycles@.len() > 0 { "    <cycles>\n"@ + rows(r.metrics.cycles@, xml_cycle_row()) + "    </cycles>\n"@ } else { Seq::empty() })
    + "  </metrics>\n"@
}

pub open spec fn xml_node_row() -> spec_fn(GraphNode) -> Seq<char> {
    |n: GraphNode| "    <node path=\""@ + xml_escape_spec(n.file_path@) + "\" language=\""@
        + xml_escape_spec(match n.language { Some(l) => l@, None => "unknown"@ })
        + "\" imports=\""@ + dec(n.imports_count as nat) + "\" imported-by=\""@ + dec(n.imported_by_count as nat) + "\"/>\n"@
}

pub open spec fn bool_text(b: bool) -> Seq<char> {
    if b { "true"@ } else { "false"@ }
}

pub open spec fn xml_edge_row() -> spec_fn(GraphEdge) -> Seq<char> {
    |e: GraphEdge| "    <edge from=\""@ + xml_escape_spec(e.from@) + "\" to=\""@
        + xml_escape_spec(match e.to { Some(t) => t@, None => "(unresolved)"@ })
        + "\" import=\""@ + xml_escape_spec(e.import_path@) + "\" resolved=\""@ + bool_text(e.resolved) + "\"/>\n"@
}

/// The XML report.
pub open spec fn xml_spec(r: GraphReport) -> Seq<char> {
    "<?xml version=\"1.0\" encoding=\"UTF-8\"?>\n"@ + "<dependency-graph>\n"@
    + "  <base-path>"@ + xml_escape_spec(r.base_path@) + "</base-path>\n"@
    + xml_selection(r) + xml_metrics(r)
    + "  <nodes>\n"@ + rows(r.nodes@, xml_node_row()) + "  </nodes>\n"@
    + "  <edges>\n"@ + rows(r.edges@, xml_edge_row()) + "  </edges>\n"@
    + "</dependency-graph>\n"@
}

#[verifier::rlimit(30)]
fn push_escaped_rows(out: &mut String, items: &Vec<String>, open: &str, close: &str)
    ensures
        final(out)@ == old(out)@ + rows(items@, |f: String| open@ + xml_escape_spec(f@) + close@),
{
    let ghost start = out@;
    let ghost f = |f: String| open@ + xml_escape_spec(f@) + close@;
    let mut i: usize = 0;
    while i < items.len()
        invariant
            i <= items@.len(),
            f == (|f: String| open@ + xml_escape_spec(f@) + close@),
            out@ == start + rows(items@.take(i as int), f),
        decreases items@.len() - i,
    {
        proof { lemma_rows_step(items@, i as int, f); }
        let ghost before = out@;
        out.append(open);
        out.append(xml_escape(items[i].as_str()).as_str());
        out.append(close);
        assert(out@ =~= before + f(items@[i as int]));
        i = i + 1;
    }
    assert(items@.take(i as int) =~= items@);
}

fn render_xml_selection(out: &mut String, r: &GraphReport)
    ensures
        final(out)@ == old(out)@ + xml_selection(*r),
{
    let ghost start = out@;
    if r.focus_paths.len() == 0 && r.depth.is_none() && r.query.is_none() {
        assert(out@ =~= start + xml_selection(*r));
        return;
    }
    out.append("  <selection>\n");
    let ghost a0 = out@;
    if r.focus_paths.len() > 0 {
        out.append("    <focus-paths>\n");
        push_escaped_rows(out, &r.focus_paths, "      <focus-path>", "</focus-path>\n");
        assert(rows(r.focus_paths@, |f: String| "      <focus-path>"@ + xml_escape_spec(f@) + "</focus-path>\n"@) == rows(r.focus_paths@, xml_focus_row()));
        out.append("    </focus-paths>\n");
    }
    match r.depth {
        Some(d) => {
            out.append("    <depth>");
            out.append(u64_str(d as u64).as_str());
            out.append("</depth>\n");
        },
        None => {},
    }
    match &r.query {
        Some(q) => {
            out.append("    <query>");
            let t = format_query(q);
            out.append(xml_escape(t.as_str()).as_str());
            out.append("</query>\n");
        },
        None => {},
    }
    out.append("  </selection>\n");
    assert(out@ =~= start + xml_selection(*r));
}

#[verifier::rlimit(30)]
fn push_xml_metric_rows(out: &mut String, ms: &Vec<FileMetric>)
    ensures
        final(out)@ == old(out)@ + rows(ms@, xml_metric_row()),
{
    let ghost start = out@;
    let mut i: usize = 0;
    while i < ms.len()
        invariant
            i <= ms@.len(),
            out@ == start + rows(ms@.take(i as int), xml_metric_row()),
        decreases ms@.len() - i,
    {
        proof { lemma_rows_step(ms@, i as int, xml_metric_row()); }
        let ghost before = out@;
        out.append("      <file path=\"");
        out.append(xml_escape(ms[i].file_path.as_str()).as_str());
        out.append("\" count=\"");
        out.append(u64_str(ms[i].count).as_str());
        out.append("\"/>\n");
        assert(out@ =~= before + (xml_metric_row())(ms@[i as int]));
        i = i + 1;
    }
    assert(ms@.take(i as int) =~= ms@);
}

fn xml_metric_block(out: &mut String, ms: &Vec<FileMetric>, open: &str, close: &str)
    ensures
        final(out)@ == old(out)@ + (if ms@.len() > 0 { open@ + rows(ms@, xml_metric_row()) + close@ } else { Seq::empty() }),
{
    let ghost start = out@;
    if ms.len() > 0 {
        out.append(open);
        push_xml_metric_rows(out, ms);
        out.append(close);
    }
    assert(out@ =~= start + (if ms@.len() > 0 { open@ + rows(ms@, xml_metric_row()) + close@ } else { Seq::empty() }));
}

#[verifier::rlimit(30)]
fn xml_cycles_block(out: &mut String, cycles: &Vec<Vec<String>>)
    ensures
        final(out)@ == old(out)@ + (if cycles@.len() > 0 { "    <cycles>\n"@ + rows(cycles@, xml_cycle_row()) + "    </cycles>\n"@ } else { Seq::empty() }),
{
    let ghost start = out@;
    if cycles.len() > 0 {
        out.append("    <cycles>\n");
        let ghost c0 = out@;
        let mut i: usize = 0;
        while i < cycles.len()
            invariant
                i <= cycles@.len(),
                out@ == c0 + rows(cycles@.take(i as int), xml_cycle_row()),
            decreases cycles@.len() - i,
        {
            proof { lemma_rows_step(cycles@, i as int, xml_cycle_row()); }
            let ghost before = out@;
            out.append("      <cycle>\n");
            push_escaped_rows(out, &cycles[i], "        <node>", "</node>\n");
            assert(rows(cycles@[i as int]@, |f: String| "        <node>"@ + xml_escape_spec(f@) + "</node>\n"@)
                == rows(cycles@[i as int]@, xml_cycle_node_row()));
            out.append("      </cycle>\n");
            assert(out@ =~= before + (xml_cycle_row())(cycles@[i as int]));
            i = i + 1;
        }
        assert(cycles@.take(i as int) =~= cycles@);
        out.append("    </cycles>\n");
    }
    assert(out@ =~= start + (if cycles@.len() > 0 { "    <cycles>\n"@ + rows(cycles@, xml_cycle_row()) + "    </cycles>\n"@ } else { Seq::empty() }));
}

fn xml_count_line(out: &mut String, open: &str, n: u64, close: &str)
    ensures
        final(out)@ == old(out)@ + open@ + dec(n as nat) + close@,
{
    out.append(open);
    out.append(u64_str(n).as_str());
    out.append(close);
}

fn render_xml_counts(out: &mut String, r: &GraphReport)
    ensures
        final(out)@ == old(out)@ + xml_counts(*r),
{
    let ghost start = out@;
    xml_count_line(out, "    <total-files>", r.metrics.total_files, "</total-files>\n");
    xml_count_line(out, "    <internal-edges>", r.metrics.total_internal_edges, "</internal-edges>\n");
    xml_count_line(out, "    <external-edges>", r.metrics.total_external_edges, "</external-edges>\n");
    xml_count_line(out, "    <circular-dependencies>", r.metrics.circular_dependencies, "</circular-dependencies>\n");
    assert(out@ =~= start + xml_counts(*r));
}

#[verifier::rlimit(50)]
fn render_xml_metrics(out: &mut String, r: &GraphReport)
    ensures
        final(out)@ == old(out)@ + xml_metrics(*r),
{
    let ghost start = out@;
    out.append("  <metrics>\n");
    render_xml_counts(out, r);
    xml_metric_block(out, &r.metrics.most_imported, "    <most-imported>\n", "    </most-imported>\n");
    xml_metric_block(out, &r.metrics.most_importing, "    <most-importing>\n", "    </most-importing>\n");
    xml_cycles_block(out, &r.metrics.cycles);
    out.append("  </metrics>\n");
    assert(out@ =~= start + xml_metrics(*r));
}

fn push_xml_node_row(out: &mut String, n: &GraphNode)
    ensures
        final(out)@ == old(out)@ + (xml_node_row())(*n),
{
    let ghost before = out@;
    out.append("    <node path=\"");
    out.append(xml_escape(n.file_path.as_str()).as_str());
    out.append("\" language=\"");
    match &n.language {
        Some(l) => out.append(xml_escape(l.as_str()).as_str()),
        None => out.append(xml_escape("unknown").as_str()),
    }
    out.append("\" imports=\"");
    out.append(u64_str(n.imports_count).as_str());
    out.append("\" imported-by=\"");
    out.append(u64_str(n.imported_by_count).as_str());
    out.append("\"/>\n");
    assert(out@ =~= before + (xml_node_row())(*n));
}

#[verifier::rlimit(30)]
fn render_xml_nodes(out: &mut String, nodes: &Vec<GraphNode>)
    ensures
        final(out)@ == old(out)@ + "  <nodes>\n"@ + rows(nodes@, xml_node_row()) + "  </nodes>\n"@,
{
    let ghost start = out@;
    out.append("  <nodes>\n");
    let ghost n0 = out@;
    let mut i: usize = 0;
    while i < nodes.len()
        invariant
            i <= nodes@.len(),
            out@ == n0 + rows(nodes@.take(i as int), xml_node_row()),
        decreases nodes@.len() - i,
    {
        proof { lemma_rows_step(nodes@, i as int, xml_node_row()); }
        push_xml_node_row(out, &nodes[i]);
        i = i + 1;
    }
    assert(nodes@.take(i as int) =~= nodes@);
    out.append("  </nodes>\n");
    assert(out@ =~= start + "  <nodes>\n"@ + rows(nodes@, xml_node_row()) + "  </nodes>\n"@);
}

fn push_xml_edge_row(out: &mut String, e: &GraphEdge)
    ensures
        final(out)@ == old(out)@ + (xml_edge_row())(*e),
{
    let ghost start = out@;
    out.append("    <edge from=\"");
    out.append(xml_escape(e.from.as_str()).as_str());
    out.append("\" to=\"");
    match &e.to {
        Some(t) => out.append(xml_escape(t.as_str()).as_str()),
        None => out.append(xml_escape("(unresolved)").as_str()),
    }
    out.append("\" import=\"");
    out.append(xml_escape(e.import_path.as_str()).as_str());
    out.append("\" resolved=\"");
    if e.resolved {
        out.append("true");
    } else {
        out.append("false");
    }
    out.append("\"/>\n");
    assert(out@ =~= start + (xml_edge_row())(*e));
}

#[verifier::rlimit(30)]
fn render_xml_edges(out: &mut String, edges: &Vec<GraphEdge>)
    ensures
        final(out)@ == old(out)@ + "  <edges>\n"@ + rows(edges@, xml_edge_row()) + "  </edges>\n"@,
{
    let ghost start = out@;
    out.append("  <edges>\n");
    let ghost e0 = out@;
    let mut i: usize = 0;
    while i < edges.len()
        invariant
            i <= edges@.len(),
            out@ == e0 + rows(edges@.take(i as int), xml_edge_row()),
        decreases edges@.len() - i,
    {
        proof { lemma_rows_step(edges@, i as int, xml_edge_row()); }
        let ghost before = out@;
        push_xml_edge_row(out, &edges[i]);
        assert(out@ =~= before + (xml_edge_row())(edges@[i as int]));
        i = i + 1;
    }
    assert(edges@.take(i as int) =~= edges@);
    out.append("  </edges>\n");
    assert(out@ =~= start + "  <edges>\n"@ + rows(edges@, xml_edge_row()) + "  </edges>\n"@);
}

/// The report as XML.
pub fn render_graph_xml(r: &GraphReport) -> (out: String)
    ensures
        out@ == xml_spec(*r),
{
    let mut out = String::new();
    out.append("<?xml version=\"1.0\" encoding=\"UTF-8\"?>\n");
    out.append("<dependency-graph>\n");
    out.append("  <base-path>");
    out.append(xml_escape(r.base_path.as_str()).as_str());
    out.append("</base-path>\n");
    render_xml_selection(&mut out, r);
    render_xml_metrics(&mut out, r);
    render_xml_nodes(&mut out, &r.nodes);
    render_xml_edges(&mut out, &r.edges);
    out.append("</dependency-graph>\n");
    assert(out@ =~= xml_spec(*r));
    out
}

// ---- DOT ----

pub open spec fn dot_node_row() -> spec_fn(GraphNode) -> Seq<char> {
    |n: GraphNode| "    "@ + dot_id_spec(n.file_path@) + " [label=\""@ + dot_escape_spec(last_segment(n.file_path@, '/')) + "\"];\n"@
}

pub open spec fn dot_edge_row() -> spec_fn(GraphEdge) -> Seq<char> {
    |e: GraphEdge| if e.resolved {
        match e.to {
            Some(t) => "    "@ + dot_id_spec(e.from@) + " -> "@ + dot_id_spec(t@) + ";\n"@,
            None => Seq::empty(),
        }
    } else {
        Seq::empty()
    }
}

/// The DOT report: resolved edges only.
pub open spec fn dot_spec(r: GraphReport) -> Seq<char> {
    "digraph dependencies {\n"@ + "    rankdir=LR;\n"@ + "    node [shape=box, fontname=\"Helvetica\", fontsize=10];\n"@
    + "    edge [fontsize=8];\n\n"@ + rows(r.nodes@, dot_node_row()) + "\n"@ + rows(r.edges@, dot_edge_row()) + "}\n"@
}

/// The report as a Graphviz DOT digraph.
#[verifier::rlimit(30)]
pub fn render_graph_dot(r: &GraphReport) -> (out: String)
    ensures
        out@ == dot_spec(*r),
{
    let mut out = String::new();
    out.append("digraph dependencies {\n");
    out.append("    rankdir=LR;\n");
    out.append("    node [shape=box, fontname=\"Helvetica\", fontsize=10];\n");
    out.append("    edge [fontsize=8];\n\n");
    let ghost n0 = out@;
    let mut i: usize = 0;
    while i < r.nodes.len()
        invariant
            i <= r.nodes@.len(),
            out@ == n0 + rows(r.nodes@.take(i as int), dot_node_row()),
        decreases r.nodes@.len() - i,
    {
        proof { lemma_rows_step(r.nodes@, i as int, dot_node_row()); }
        let ghost before = out@;
        let n = &r.nodes[i];
        let short = last_part(n.file_path.as_str(), '/');
        out.append("    ");
        out.append(dot_node_id(n.file_path.as_str()).as_str());
        out.append(" [label=\"");
        out.append(dot_escape(short.as_str()).as_str());
        out.append("\"];\n");
        assert(out@ =~= before + (dot_node_row())(r.nodes@[i as int]));
        i = i + 1;
    }
    assert(r.nodes@.take(i as int) =~= r.nodes@);
    out.append("\n");
    let ghost e0 = out@;
    let mut k: usize = 0;
    while k < r.edges.len()
        invariant
            k <= r.edges@.len(),
            out@ == e0 + rows(r.edges@.take(k as int), dot_edge_row()),
        decreases r.edges@.len() - k,
    {
        proof { lemma_rows_step(r.edges@, k as int, dot_edge_row()); }
        let ghost before = out@;
        let e = &r.edges[k];
        if e.resolved {
            match &e.to {
                Some(t) => {
                    out.append("    ");
                    out.append(dot_node_id(e.from.as_str()).as_str());
                    out.append(" -> ");
                    out.append(dot_node_id(t.as_str()).as_str());
                    out.append(";\n");
                },
                None => {},
            }
        }
        assert(out@ =~= before + (dot_edge_row())(r.edges@[k as int]));
        k = k + 1;
    }
    assert(r.edges@.take(k as int) =~= r.edges@);
    out.append("}\n");
    assert(out@ =~= dot_spec(*r));
    out
}

/// The report in a text format: Markdown, XML or DOT. JSON is written by
/// a serializer outside the library, so it gives `None` here.
pub fn render_graph(r: &GraphReport, format: GraphFormat) -> (out: Option<String>)
    ensures
        match format {
            GraphFormat::Json => out is None,
            GraphFormat::Markdown => out matches Some(s) && s@ == markdown_spec(*r),
            GraphFormat::Xml => out matches Some(s) && s@ == xml_spec(*r),
            GraphFormat::Dot => out matches Some(s) && s@ == dot_spec(*r),
        },
{
    match format {
        GraphFormat::Json => None,
        GraphFormat::Markdown => Some(render_graph_markdown(r)),
        GraphFormat::Xml => Some(render_graph_xml(r)),
        GraphFormat::Dot => Some(render_graph_dot(r)),
    }
}

} // verus!
