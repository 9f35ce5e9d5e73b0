//! Syntax trees: parsing with the linked grammars and a flat, plain-value
//! copy of the tree that the rest of the library reads.
use vstd::prelude::*;
use crate::compression::types::SupportedLanguage;

verus! {

#[verifier::external_type_specification]
#[verifier::external_body]
pub struct ExParser(tree_sitter::Parser);

#[verifier::external_type_specification]
#[verifier::external_body]
pub struct ExTree(tree_sitter::Tree);

/// One node of a parsed tree as plain values: kind, start byte, end byte,
/// start row, number of children, number of nodes in its subtree (itself
/// included), and whether its subtree holds a syntax error.
pub type NodeRecordView = (Seq<char>, usize, usize, usize, usize, usize, bool);

/// One node of a parsed tree, read out as plain values.
#[derive(Debug, Clone)]
pub struct NodeRecord {
    pub kind: String,
    pub start_byte: usize,
    pub end_byte: usize,
    pub start_row: usize,
    pub child_count: usize,
    pub descendant_count: usize,
    pub has_error: bool,
}

impl View for NodeRecord {
    type V = NodeRecordView;

    open spec fn view(&self) -> NodeRecordView {
        (self.kind@, self.start_byte, self.end_byte, self.start_row, self.child_count, self.descendant_count, self.has_error)
    }
}

/// The nodes a tree holds, in pre-order (the order of
/// `TreeCursor::goto_descendant`): the root first, each node before its
/// descendants, siblings in source order.
pub uninterp spec fn tree_nodes(t: tree_sitter::Tree) -> Seq<NodeRecordView>;

/// The nodes of the tree that tree-sitter's parser gives of `source` in the
/// grammar of `language`, in pre-order.
pub uninterp spec fn syntax_tree(source: Seq<u8>, language: SupportedLanguage) -> Seq<NodeRecordView>;

/// `tree_sitter::Parser::new`: a parser without a language.
#[verifier::external_body]
fn parser_new() -> tree_sitter::Parser {
    tree_sitter::Parser::new()
}

/// `tree_sitter::Parser::set_language` with the grammar crate of the
/// language (`tree_sitter_rust::LANGUAGE` and so on). It is refused only on
/// an ABI version outside the range this tree-sitter reads; the linked
/// grammars are within it, so it is accepted.
#[verifier::external_body]
fn parser_set_language(parser: &mut tree_sitter::Parser, language: SupportedLanguage) -> (r: bool)
    ensures
        r,
{
    let grammar: tree_sitter::Language = match language {
        SupportedLanguage::Rust => tree_sitter_rust::LANGUAGE.into(),
        SupportedLanguage::Python => tree_sitter_python::LANGUAGE.into(),
        SupportedLanguage::TypeScript => tree_sitter_typescript::LANGUAGE_TYPESCRIPT.into(),
        SupportedLanguage::JavaScript => tree_sitter_javascript::LANGUAGE.into(),
        SupportedLanguage::Go => tree_sitter_go::LANGUAGE.into(),
        SupportedLanguage::Java => tree_sitter_java::LANGUAGE.into(),
        SupportedLanguage::Cpp => tree_sitter_cpp::LANGUAGE.into(),
        SupportedLanguage::C => tree_sitter_c::LANGUAGE.into(),
    };
    parser.set_language(&grammar).is_ok()
}

/// A parser with the grammar of `language` set. Only `language_parser`
/// makes one, so its parser always holds that grammar.
pub struct LanguageParser {
    language: SupportedLanguage,
    parser: tree_sitter::Parser,
}

impl LanguageParser {
    /// The language whose grammar the parser holds.
    pub closed spec fn spec_language(&self) -> SupportedLanguage {
        self.language
    }
}

/// `tree_sitter::Parser::parse` of the whole source with no earlier tree.
/// With a grammar set and neither a timeout nor a cancellation flag, it
/// always gives a tree; the tree is the parser's result for the source in
/// that grammar, with the root first and its subtree count equal to the
/// number of nodes.
#[verifier::external_body]
fn parser_parse(p: &mut LanguageParser, source: &[u8]) -> (r: tree_sitter::Tree)
    ensures
        final(p).spec_language() == old(p).spec_language(),
        tree_nodes(r) == syntax_tree(source@, old(p).spec_language()),
        tree_nodes(r).len() >= 1,
        tree_nodes(r)[0].5 == tree_nodes(r).len(),
{
    p.parser.parse(source, None).expect("a parser with a grammar and no timeout always gives a tree")
}

/// The `i`th node of a tree in pre-order (`TreeCursor::goto_descendant`),
/// read out through `Node::kind`, `start_byte`, `end_byte`,
/// `start_position().row`, `child_count`, `descendant_count` and
/// `has_error`.
#[verifier::external_body]
fn tree_record(t: &tree_sitter::Tree, i: usize) -> (r: NodeRecord)
    requires
        i < tree_nodes(*t).len(),
    ensures
        r@ == tree_nodes(*t)[i as int],
{
    let mut cursor = t.walk();
    cursor.goto_descendant(i);
    let n = cursor.node();
    NodeRecord {
        kind: n.kind().to_owned(),
        start_byte: n.start_byte(),
        end_byte: n.end_byte(),
        start_row: n.start_position().row,
        child_count: n.child_count(),
        descendant_count: n.descendant_count(),
        has_error: n.has_error(),
    }
}

/// One node of a flat syntax tree.
#[derive(Debug, Clone)]
pub struct SyntaxNode {
    /// The grammar's name for the node (`function_item`, `import_statement`, ...).
    pub kind: String,
    pub start_byte: usize,
    pub end_byte: usize,
    /// The row the node starts on, counted from 0.
    pub start_row: usize,
    /// Indices of the children, in order.
    pub children: Vec<usize>,
}

/// A syntax tree in pre-order: the root first, each node before its
/// descendants, siblings in source order.
#[derive(Debug, Clone)]
pub struct SyntaxTree {
    pub nodes: Vec<SyntaxNode>,
    /// Whether the parser reported syntax errors.
    pub has_error: bool,
}

/// Children point forward to existing nodes.
pub open spec fn nodes_well_formed(nodes: Seq<SyntaxNode>) -> bool {
    forall|i: int, j: int| 0 <= i < nodes.len() && 0 <= j < nodes[i].children@.len() ==>
        i < #[trigger] nodes[i].children@[j] < nodes.len()
}

impl SyntaxTree {
    pub open spec fn well_formed(&self) -> bool {
        nodes_well_formed(self.nodes@)
    }
}

/// The positions of `count` consecutive siblings in pre-order, the first at
/// `pos`: each next one comes after the subtree of the one before.
pub open spec fn children_from(rs: Seq<NodeRecordView>, pos: int, count: nat) -> Seq<usize>
    decreases count,
{
    if count == 0 || pos < 0 || pos >= rs.len() {
        Seq::empty()
    } else {
        let dc = rs[pos].5 as int;
        let next = if dc <= rs.len() - pos { pos + dc } else { rs.len() as int };
        seq![pos as usize] + children_from(rs, next, (count - 1) as nat)
    }
}

proof fn lemma_children_from_bounds(rs: Seq<NodeRecordView>, pos: int, count: nat)
    requires
        0 <= pos,
        rs.len() <= usize::MAX,
    ensures
        forall|j: int| 0 <= j < children_from(rs, pos, count).len() ==> pos <= #[trigger] children_from(rs, pos, count)[j] < rs.len(),
    decreases count,
{
    if !(count == 0 || pos >= rs.len()) {
        let dc = rs[pos].5 as int;
        let next = if dc <= rs.len() - pos { pos + dc } else { rs.len() as int };
        lemma_children_from_bounds(rs, next, (count - 1) as nat);
        let c = children_from(rs, pos, count);
        assert forall|j: int| 0 <= j < c.len() implies pos <= #[trigger] c[j] < rs.len() by {
            if j > 0 {
                assert(c[j] == children_from(rs, next, (count - 1) as nat)[j - 1]);
            } else {
                assert(c[0] == pos as usize);
            }
        }
    }
}

/// Node `i` of a flat tree is the `i`th record: the same kind, bytes and
/// row, and its children the positions of its child subtrees.
pub open spec fn node_of_record(n: SyntaxNode, rs: Seq<NodeRecordView>, i: int) -> bool {
    &&& n.kind@ == rs[i].0
    &&& n.start_byte == rs[i].1
    &&& n.end_byte == rs[i].2
    &&& n.start_row == rs[i].3
    &&& n.children@ == children_from(rs, i + 1, rs[i].4 as nat)
}

/// `t` is the flat tree of the records `rs`.
pub open spec fn tree_of_records(t: SyntaxTree, rs: Seq<NodeRecordView>) -> bool {
    &&& t.nodes@.len() == rs.len()
    &&& forall|i: int| 0 <= i < rs.len() ==> #[trigger] node_of_record(t.nodes@[i], rs, i)
    &&& t.has_error == (rs.len() > 0 && rs[0].6)
}

/// A parser set up for the language.
fn language_parser(language: SupportedLanguage) -> (r: LanguageParser)
    ensures
        r.spec_language() == language,
{
    let mut parser = parser_new();
    let accepted = parser_set_language(&mut parser, language);
    assert(accepted);
    LanguageParser { language, parser }
}

/// A parser set up for the language; the linked grammars are always
/// accepted.
pub fn new_parser(language: SupportedLanguage) -> (r: Option<tree_sitter::Parser>)
    ensures
        r is Some,
{
    let p = language_parser(language);
    Some(p.parser)
}

/// The records as plain values.
pub open spec fn record_views(records: Seq<NodeRecord>) -> Seq<NodeRecordView> {
    records.map_values(|x: NodeRecord| x@)
}

/// The flat copy of the records: each node's children found by stepping
/// over the subtrees of its earlier children.
fn flatten(records: &Vec<NodeRecord>) -> (r: Vec<SyntaxNode>)
    ensures
        r@.len() == records@.len(),
        nodes_well_formed(r@),
        forall|i: int| 0 <= i < r@.len() ==> #[trigger] node_of_record(r@[i], record_views(records@), i),
{
    let ghost rs = record_views(records@);
    let n = records.len();
    let mut nodes: Vec<SyntaxNode> = Vec::new();
    let mut i: usize = 0;
    while i < n
        invariant
            n == records@.len(),
            rs == record_views(records@),
            i <= n,
            nodes@.len() == i,
            forall|a: int, j: int| 0 <= a < i && 0 <= j < nodes@[a].children@.len() ==> a < #[trigger] nodes@[a].children@[j] < n,
            forall|a: int| 0 <= a < i ==> #[trigger] node_of_record(nodes@[a], rs, a),
        decreases n - i,
    {
        let rec = &records[i];
        assert(rs[i as int] == rec@);
        let mut children: Vec<usize> = Vec::new();
        let mut pos: usize = i + 1;
        let mut k: usize = rec.child_count;
        proof {
            lemma_children_from_bounds(rs, i + 1, rec.child_count as nat);
        }
        while k > 0 && pos < n
            invariant
                n == records@.len(),
                rs == record_views(records@),
                i < n,
                i + 1 <= pos <= n,
                k <= rec.child_count,
                rec@ == rs[i as int],
                children@ + children_from(rs, pos as int, k as nat) == children_from(rs, i + 1, rec.child_count as nat),
            decreases k,
        {
            let dc = records[pos].descendant_count;
            assert(rs[pos as int] == records@[pos as int]@);
            children.push(pos);
            let ghost old_pos = pos;
            if dc <= n - pos {
                pos = pos + dc;
            } else {
                pos = n;
            }
            k = k - 1;
            assert(children_from(rs, old_pos as int, (k + 1) as nat) =~= seq![old_pos] + children_from(rs, pos as int, k as nat));
            assert(children@ + children_from(rs, pos as int, k as nat) =~= children@.drop_last() + children_from(rs, old_pos as int, (k + 1) as nat));
        }
        assert(children_from(rs, pos as int, k as nat) =~= Seq::<usize>::empty());
        assert(children@ =~= children_from(rs, i + 1, rec.child_count as nat));
        let ghost before = nodes@;
        nodes.push(SyntaxNode {
            kind: rec.kind.clone(),
            start_byte: rec.start_byte,
            end_byte: rec.end_byte,
            start_row: rec.start_row,
            children,
        });
        assert forall|a: int| 0 <= a < i + 1 implies #[trigger] node_of_record(nodes@[a], rs, a) by {
            if a < i {
                assert(nodes@[a] == before[a]);
            }
        }
        assert forall|a: int, j: int| 0 <= a < i + 1 && 0 <= j < nodes@[a].children@.len() implies a < #[trigger] nodes@[a].children@[j] < n by {
            if a < i {
                assert(nodes@[a] == before[a]);
            } else {
                assert(nodes@[a].children@ == children_from(rs, i + 1, rs[i as int].4 as nat));
            }
        }
        i = i + 1;
    }
    assert(nodes_well_formed(nodes@));
    nodes
}

/// The flat syntax tree tree-sitter gives of `source` in the language's
/// grammar: one node per node of the parser's result, in pre-order.
pub fn parse_source(source: &[u8], language: SupportedLanguage) -> (r: Option<SyntaxTree>)
    ensures
        r matches Some(t) && t.well_formed() && tree_of_records(t, syntax_tree(source@, language)),
{
    let mut p = language_parser(language);
    let tree = parser_parse(&mut p, source);
    let ghost rs = tree_nodes(tree);
    let root = tree_record(&tree, 0);
    let count = root.descendant_count;
    let mut records: Vec<NodeRecord> = Vec::new();
    let mut i: usize = 0;
    while i < count
        invariant
            rs == tree_nodes(tree),
            count == rs.len(),
            i <= count,
            record_views(records@) == rs.take(i as int),
        decreases count - i,
    {
        let rec = tree_record(&tree, i);
        let ghost before = records@;
        records.push(rec);
        assert(record_views(records@) =~= record_views(before).push(rec@));
        assert(rs.take(i + 1) =~= rs.take(i as int).push(rs[i as int]));
        i = i + 1;
    }
    assert(rs.take(i as int) =~= rs);
    let nodes = flatten(&records);
    let has_error = root.has_error;
    let t = SyntaxTree { nodes, has_error };
    assert(nodes_well_formed(t.nodes@));
    Some(t)
}

} // verus!
