use vstd::prelude::*;
use tree_sitter::Parser;
use tree_sitter_c::LANGUAGE;
use crate::syntax::{SyntaxNode, SyntaxView, kids_view, lemma_kids_view, opt_chars, tree_view};

verus! {

/// `t` is a contiguous piece of `s`.
pub open spec fn is_piece(t: Seq<char>, s: Seq<char>) -> bool {
    exists|i: int, j: int| 0 <= i <= j <= s.len() && t == s.subrange(i, j)
}

/// The text of `n` and of every node under it is a contiguous piece of `s`.
pub open spec fn texts_within(n: SyntaxNode, s: Seq<char>) -> bool
    decreases n, 1nat,
{
    is_piece(n.text@, s) && kids_within(n, n.children@.len() as nat, s)
}

/// The first `k` children of `n` satisfy `texts_within`.
pub open spec fn kids_within(n: SyntaxNode, k: nat, s: Seq<char>) -> bool
    decreases n, 0nat, k,
{
    if k == 0 || k > n.children@.len() {
        true
    } else {
        proof {
            assert(decreases_to!(n => n.children));
        }
        kids_within(n, (k - 1) as nat, s) && texts_within(n.children@[k - 1], s)
    }
}

proof fn lemma_kids_within(n: SyntaxNode, k: nat, s: Seq<char>)
    requires
        k <= n.children@.len(),
        forall|j: int| 0 <= j < k ==> texts_within(#[trigger] n.children@[j], s),
    ensures
        kids_within(n, k, s),
    decreases k,
{
    if k > 0 {
        lemma_kids_within(n, (k - 1) as nat, s);
    }
}

/// tree-sitter's syntax tree, opaque to Verus.
#[verifier::external_type_specification]
#[verifier::external_body]
pub struct ExTree(tree_sitter::Tree);

/// A node of a tree-sitter tree, opaque to Verus.
#[verifier::external_type_specification]
#[verifier::external_body]
pub struct ExNode<'tree>(tree_sitter::Node<'tree>);

// ─── Reading the C parse of a text ───────────────────────────────────────
//
// tree-sitter's parse of a text with a given grammar is a function of the text alone. A node
// is identified by its position `d` in the pre-order walk of the tree (`TreeCursor`'s
// descendant index; the root is 0), so what a node holds is a function of the text and `d`,
// which `c_node` names. Each read parses the text afresh.

/// What one node of a parse holds: its kind, whether it is named, its byte range in the text,
/// its start and end (0-based row, column), the field it fills in its parent, and the
/// positions of its first child and of its next sibling.
pub type NodeTuple = (
    String,
    bool,
    core::ops::Range<usize>,
    (usize, usize),
    (usize, usize),
    Option<String>,
    Option<usize>,
    Option<usize>,
);

pub struct NodeReadView {
    pub kind: Seq<char>,
    pub named: bool,
    pub bytes: (usize, usize),
    pub start: (usize, usize),
    pub end: (usize, usize),
    pub field: Option<Seq<char>>,
    pub first_child: Option<usize>,
    pub next_sibling: Option<usize>,
}

pub open spec fn tuple_view(t: NodeTuple) -> NodeReadView {
    NodeReadView {
        kind: t.0@,
        named: t.1,
        bytes: (t.2.start, t.2.end),
        start: t.3,
        end: t.4,
        field: opt_chars(t.5),
        first_child: t.6,
        next_sibling: t.7,
    }
}

/// What the `d`-th node (in pre-order) of tree-sitter-c's parse of `source` holds.
pub uninterp spec fn c_node(source: Seq<char>, d: usize) -> NodeReadView;

/// The text `str::from_utf8` decodes from the bytes `start..end` of `source`, if they lie in
/// `source` and decode.
pub uninterp spec fn byte_text(source: Seq<char>, start: usize, end: usize) -> Option<Seq<char>>;

/// Reads the `d`-th node (in pre-order) of tree-sitter-c's parse of `source`: a new
/// `Parser` given the C grammar (`set_language`), `parse`, then a `TreeCursor` moved to the
/// node (`goto_descendant`) and, from there, to its first child and its next sibling
/// (`goto_first_child`, `goto_next_sibling`, `descendant_index`). `set_language` fails only
/// when the grammar's ABI version lies outside tree-sitter's compatible range (the parser
/// then has no language and `parse` gives `None`); the C grammar in use has version 15,
/// inside the range 13 to 15. `parse` gives `None` only when the parser has no language, or a
/// timeout or cancellation flag was set, which this parser never has. So a read always
/// succeeds; what it gives depends on `source` and `d` alone.
#[verifier::external_body]
fn ts_c_node(source: &str, d: usize) -> (r: Option<NodeTuple>)
    ensures
        r is Some,
        tuple_view(r.unwrap()) == c_node(source@, d),
{
    let mut p = Parser::new();
    p.set_language(&LANGUAGE.into()).ok();
    let tree = p.parse(source, None)?;
    let mut c = tree.walk();
    c.goto_descendant(d);
    let (n, field) = (c.node(), c.field_name().map(String::from));
    let first = c.goto_first_child().then_some(c.descendant_index());
    c.goto_descendant(d);
    let next = c.goto_next_sibling().then_some(c.descendant_index());
    let (s, e) = (n.start_position(), n.end_position());
    Some((n.kind().into(), n.is_named(), n.byte_range(), (s.row, s.column), (e.row, e.column), field, first, next))
}

/// The bytes `start..end` of `source` (`slice::get`), decoded by `str::from_utf8`; `None` when
/// the range lies outside `source` or the decoding fails. The decoding succeeds only where
/// both ends lie between characters, so the text it gives is a contiguous piece of `source`.
#[verifier::external_body]
fn src_text(source: &str, start: usize, end: usize) -> (r: Option<String>)
    ensures
        opt_chars(r) == byte_text(source@, start, end),
        r matches Some(t) ==> is_piece(t@, source@),
{
    let bytes = source.as_bytes().get(start..end)?;
    std::str::from_utf8(bytes).ok().map(|s| s.to_string())
}

/// The 1-based line of a 0-based row.
pub open spec fn line_of(row: usize) -> usize {
    if row < usize::MAX {
        (row + 1) as usize
    } else {
        row
    }
}

fn one_based(row: usize) -> (r: usize)
    ensures
        r == line_of(row),
{
    if row < usize::MAX {
        row + 1
    } else {
        row
    }
}

/// How many siblings a read follows: tree-sitter counts a node's children in a `u32`.
pub open spec fn sibling_limit() -> nat {
    u32::MAX as nat
}

/// The tree under the `d`-th node of the C parse of `s`, down to `depth` levels.
pub open spec fn c_tree(s: Seq<char>, d: usize, depth: nat) -> SyntaxView
    decreases depth, 0nat, 0nat,
{
    let n = c_node(s, d);
    SyntaxView {
        kind: n.kind,
        field: n.field,
        named: n.named,
        text: match byte_text(s, n.bytes.0, n.bytes.1) {
            Some(t) => t,
            None => Seq::empty(),
        },
        start_line: line_of(n.start.0),
        start_col: n.start.1,
        end_line: line_of(n.end.0),
        end_col: n.end.1,
        children: if depth == 0 {
            Seq::empty()
        } else {
            c_kids(s, n.first_child, sibling_limit(), (depth - 1) as nat)
        },
    }
}

/// The trees under the node at `c` and the `fuel - 1` siblings after it.
pub open spec fn c_kids(s: Seq<char>, c: Option<usize>, fuel: nat, depth: nat) -> Seq<SyntaxView>
    decreases depth, 1nat, fuel,
{
    match c {
        Some(i) => if fuel == 0 {
            Seq::empty()
        } else {
            seq![c_tree(s, i, depth)] + c_kids(s, c_node(s, i).next_sibling, (fuel - 1) as nat, depth)
        },
        None => Seq::empty(),
    }
}

/// The syntax tree tree-sitter-c gives for `s`.
pub open spec fn c_syntax(s: Seq<char>) -> SyntaxView {
    c_tree(s, 0, usize::MAX as nat)
}

/// The tree under the `d`-th node of the C parse of `source`, down to `depth` levels, and the
/// position of the node's next sibling.
fn read_c_tree(source: &str, d: usize, depth: usize) -> (r: (SyntaxNode, Option<usize>))
    ensures
        tree_view(r.0) == c_tree(source@, d, depth as nat),
        r.1 == c_node(source@, d).next_sibling,
        texts_within(r.0, source@),
    decreases depth,
{
    let (kind, named, bytes, start, end, field, first_child, next_sibling) = ts_c_node(source, d).unwrap();
    let ghost info = c_node(source@, d);
    let ghost s = source@;
    let text = match src_text(source, bytes.start, bytes.end) {
        Some(t) => t,
        None => {
            let e = String::new();
            proof {
                assert(e@ =~= source@.subrange(0, 0));
            }
            e
        },
    };
    let mut children: Vec<SyntaxNode> = Vec::new();
    if depth > 0 {
        let ghost dd = (depth - 1) as nat;
        let mut next = first_child;
        let mut fuel: u32 = u32::MAX;
        proof {
            assert(Seq::new(0, |j: int| tree_view(children@[j])) =~= Seq::<SyntaxView>::empty());
        }
        while fuel > 0 && next.is_some()
            invariant
                s == source@,
                depth > 0,
                dd == depth - 1,
                Seq::new(children@.len(), |j: int| tree_view(children@[j])) + c_kids(s, next, fuel as nat, dd)
                    == c_kids(s, info.first_child, sibling_limit(), dd),
                forall|j: int| 0 <= j < children@.len() ==> texts_within(#[trigger] children@[j], s),
            decreases fuel,
        {
            let i = next.unwrap();
            let ghost before = Seq::new(children@.len(), |j: int| tree_view(children@[j]));
            let (child, sib) = read_c_tree(source, i, depth - 1);
            proof {
                assert(c_kids(s, next, fuel as nat, dd) == seq![c_tree(s, i, dd)] + c_kids(
                    s,
                    sib,
                    (fuel - 1) as nat,
                    dd,
                ));
            }
            children.push(child);
            next = sib;
            fuel = fuel - 1;
            proof {
                assert(Seq::new(children@.len(), |j: int| tree_view(children@[j])) =~= before.push(tree_view(child)));
                assert(before.push(tree_view(child)) + c_kids(s, next, fuel as nat, dd) =~= before + (seq![
                    c_tree(s, i, dd),
                ] + c_kids(s, next, fuel as nat, dd)));
            }
        }
        proof {
            assert(c_kids(s, next, fuel as nat, dd) == Seq::<SyntaxView>::empty());
            assert(Seq::new(children@.len(), |j: int| tree_view(children@[j])) + Seq::<SyntaxView>::empty()
                =~= Seq::new(children@.len(), |j: int| tree_view(children@[j])));
        }
    }
    let r = SyntaxNode {
        kind,
        field,
        named,
        text,
        start_line: one_based(start.0),
        start_col: start.1,
        end_line: one_based(end.0),
        end_col: end.1,
        children,
    };
    proof {
        lemma_kids_view(r, r.children@.len() as nat);
        lemma_kids_within(r, r.children@.len() as nat, s);
        if depth == 0 {
            assert(kids_view(r, 0) =~= Seq::<SyntaxView>::empty());
        }
        assert(tree_view(r) == c_tree(s, d, depth as nat));
    }
    (r, next_sibling)
}

/// Parses C source text: the tree tree-sitter-c gives for it (with error nodes where the text
/// is not C). The text of every node of the tree is a contiguous piece of `source`.
pub fn parse_c(source: &str) -> (r: Option<SyntaxNode>)
    ensures
        r matches Some(t) && tree_view(t) == c_syntax(source@) && texts_within(t, source@),
{
    Some(read_c_tree(source, 0, usize::MAX).0)
}

// ─── Converting a tree parsed elsewhere ─────────────────────────────────

/// `Tree::root_node`.
#[verifier::external_body]
fn ts_root(t: &tree_sitter::Tree) -> tree_sitter::Node<'_> {
    t.root_node()
}

/// `Node::kind`, as an owned string.
#[verifier::external_body]
fn ts_kind(n: &tree_sitter::Node) -> String {
    n.kind().to_string()
}

/// `Node::is_named`.
#[verifier::external_body]
fn ts_is_named(n: &tree_sitter::Node) -> bool {
    n.is_named()
}

/// `Node::child_count`, which tree-sitter keeps as a `u32`.
#[verifier::external_body]
fn ts_child_count(n: &tree_sitter::Node) -> (r: usize)
    ensures
        r <= u32::MAX,
{
    n.child_count()
}

/// `Node::child`.
#[verifier::external_body]
fn ts_child<'a>(n: &tree_sitter::Node<'a>, i: usize) -> Option<tree_sitter::Node<'a>> {
    n.child(i)
}

/// `Node::field_name_for_child`: the field the `i`-th child fills, if any.
#[verifier::external_body]
fn ts_field_name_for_child(n: &tree_sitter::Node, i: usize) -> Option<String>
    requires
        i <= u32::MAX,
{
    n.field_name_for_child(i as u32).map(|s| s.to_string())
}

/// `Node::start_position`, as (row, column).
#[verifier::external_body]
fn ts_start_position(n: &tree_sitter::Node) -> (usize, usize) {
    let p = n.start_position();
    (p.row, p.column)
}

/// `Node::end_position`, as (row, column).
#[verifier::external_body]
fn ts_end_position(n: &tree_sitter::Node) -> (usize, usize) {
    let p = n.end_position();
    (p.row, p.column)
}

/// `Node::start_byte` and `Node::end_byte`.
#[verifier::external_body]
fn ts_byte_range(n: &tree_sitter::Node) -> (usize, usize) {
    (n.start_byte(), n.end_byte())
}

/// The library's syntax node for a tree-sitter node and the nodes under it, down to `depth`
/// levels (the callers pass a depth no tree reaches).
fn convert(n: &tree_sitter::Node, source: &str, field: Option<String>, depth: usize) -> (r:
    SyntaxNode)
    ensures
        r.field == field,
        r.start_line >= 1,
        r.end_line >= 1,
        texts_within(r, source@),
    decreases depth,
{
    let kind = ts_kind(n);
    let named = ts_is_named(n);
    let (a, b) = ts_byte_range(n);
    let text = match src_text(source, a, b) {
        Some(t) => t,
        None => {
            let e = String::new();
            proof {
                assert(e@ =~= source@.subrange(0, 0));
            }
            e
        },
    };
    let (sr, sc) = ts_start_position(n);
    let (er, ec) = ts_end_position(n);
    let mut children: Vec<SyntaxNode> = Vec::new();
    if depth > 0 {
        let count = ts_child_count(n);
        for i in 0..count
            invariant
                count <= u32::MAX,
                depth > 0,
                forall|j: int| 0 <= j < children@.len() ==> texts_within(#[trigger] children@[j], source@),
        {
            match ts_child(n, i) {
                Some(c) => {
                    let f = ts_field_name_for_child(n, i);
                    children.push(convert(&c, source, f, depth - 1));
                },
                None => {},
            }
        }
    }
    let r = SyntaxNode {
        kind,
        field,
        named,
        text,
        start_line: one_based(sr),
        start_col: sc,
        end_line: one_based(er),
        end_col: ec,
        children,
    };
    proof {
        lemma_kids_within(r, r.children@.len() as nat, source@);
    }
    r
}

/// The library's syntax tree for a tree-sitter tree parsed from `source` with any grammar (the
/// Sea grammar is not linked into the library). The text of every node is a contiguous piece
/// of `source`; nothing more is stated, since a tree-sitter tree is opaque to Verus.
pub fn syntax_tree(tree: &tree_sitter::Tree, source: &str) -> (r: SyntaxNode)
    ensures
        r.field is None,
        r.start_line >= 1,
        r.end_line >= 1,
        texts_within(r, source@),
{
    let root = ts_root(tree);
    convert(&root, source, None, usize::MAX)
}

} // verus!
