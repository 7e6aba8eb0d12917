//! The library's own model of a markdown tree, and the Emphasis Strip
//! transform, verified over it.
//!
//! A node is `Strong`, `Emph`, or anything else (`Other`), each carrying
//! comrak's per-node data opaquely and its children. comrak only parses text
//! into this shape and renders it back, through thin trusted conversions;
//! the strip itself — unwrap every `Strong` and `Emph` node, children first,
//! splicing its children into its place in order — is the library's logic,
//! proved against `strip_tree`.

use comrak::nodes::NodeValue;
use vstd::prelude::*;

verus! {

#[verifier::external_type_specification]
#[verifier::external_body]
#[verifier::reject_recursive_types(T)]
pub struct ExRefCell<T: ?Sized>(core::cell::RefCell<T>);

#[verifier::external_type_specification]
#[verifier::external_body]
pub struct ExAst(comrak::nodes::Ast);

#[verifier::external_type_specification]
#[verifier::external_body]
#[verifier::reject_recursive_types(T)]
pub struct ExArenaNode<'a, T: 'a>(comrak::arena_tree::Node<'a, T>);

#[verifier::external_type_specification]
#[verifier::external_body]
#[verifier::reject_recursive_types(T)]
pub struct ExArena<T>(comrak::Arena<T>);

/// A markdown tree node: an emphasis wrapper or any other node, with its
/// children. The comrak per-node data rides along opaquely so the tree can
/// be rendered back. The type is crate-internal on purpose: nothing outside
/// the library can build or take apart a tree, so every tree that reaches
/// the renderer descends from a comrak parse, whose shapes the serializer
/// accepts.
pub(crate) enum MdNode {
    Strong(comrak::nodes::Ast, Vec<MdNode>),
    Emph(comrak::nodes::Ast, Vec<MdNode>),
    Other(comrak::nodes::Ast, Vec<MdNode>),
}

/// The mathematical shape of a markdown tree.
pub enum MdTree {
    Strong(comrak::nodes::Ast, Seq<MdTree>),
    Emph(comrak::nodes::Ast, Seq<MdTree>),
    Other(comrak::nodes::Ast, Seq<MdTree>),
}

/// The shape of one node.
pub(crate) open spec fn node_view(t: MdNode) -> MdTree
    decreases t, 0int,
{
    match t {
        MdNode::Strong(a, cs) => MdTree::Strong(a, list_view(cs@, 0)),
        MdNode::Emph(a, cs) => MdTree::Emph(a, list_view(cs@, 0)),
        MdNode::Other(a, cs) => MdTree::Other(a, list_view(cs@, 0)),
    }
}

/// The shapes of the nodes of `ts` from index `i` on.
pub(crate) open spec fn list_view(ts: Seq<MdNode>, i: int) -> Seq<MdTree>
    decreases ts, ts.len() - i,
{
    if i < 0 || i >= ts.len() {
        Seq::empty()
    } else {
        seq![node_view(ts[i])] + list_view(ts, i + 1)
    }
}

pub(crate) proof fn lemma_list_view_props(ts: Seq<MdNode>, i: int)
    requires
        0 <= i <= ts.len(),
    ensures
        list_view(ts, i).len() == ts.len() - i,
        forall|k: int|
            i <= k < ts.len() ==> list_view(ts, i)[k - i] == #[trigger] node_view(ts[k]),
    decreases ts.len() - i,
{
    if i < ts.len() {
        lemma_list_view_props(ts, i + 1);
    }
}

proof fn lemma_list_view_concat(a: Seq<MdNode>, b: Seq<MdNode>, i: int)
    requires
        0 <= i <= b.len(),
    ensures
        list_view(a + b, a.len() + i) == list_view(b, i),
    decreases b.len() - i,
{
    if i < b.len() {
        lemma_list_view_concat(a, b, i + 1);
        assert((a + b)[a.len() + i] == b[i]);
    }
}

/// The shape of a concatenation is the concatenation of the shapes.
pub(crate) proof fn lemma_list_view_split(a: Seq<MdNode>, b: Seq<MdNode>, i: int)
    requires
        0 <= i <= a.len(),
    ensures
        list_view(a + b, i) == list_view(a, i) + list_view(b, 0),
    decreases a.len() - i,
{
    if i < a.len() {
        lemma_list_view_split(a, b, i + 1);
        assert((a + b)[i] == a[i]);
        assert(seq![node_view(a[i])] + (list_view(a, i + 1) + list_view(b, 0)) =~= (seq![
            node_view(a[i]),
        ] + list_view(a, i + 1)) + list_view(b, 0));
    } else {
        lemma_list_view_concat(a, b, 0);
        assert(Seq::<MdTree>::empty() + list_view(b, 0) =~= list_view(b, 0));
    }
}

/// The Emphasis Strip of one node: a `Strong` or `Emph` node is replaced by
/// its (stripped) children, in order; any other node keeps its place and
/// data, with its children stripped. Children are handled before the node
/// itself, so nested emphasis flattens from the inside out.
pub open spec fn strip_tree(t: MdTree) -> Seq<MdTree>
    decreases t, 0int,
{
    match t {
        MdTree::Strong(_, cs) => strip_list(cs, 0),
        MdTree::Emph(_, cs) => strip_list(cs, 0),
        MdTree::Other(a, cs) => seq![MdTree::Other(a, strip_list(cs, 0))],
    }
}

/// The Emphasis Strip of the nodes of `ts` from index `i` on, concatenated.
pub open spec fn strip_list(ts: Seq<MdTree>, i: int) -> Seq<MdTree>
    decreases ts, ts.len() - i,
{
    if i < 0 || i >= ts.len() {
        Seq::empty()
    } else {
        strip_tree(ts[i]) + strip_list(ts, i + 1)
    }
}

/// Relies on comrak's derived `Clone` for `Ast`: a field-for-field copy.
#[verifier::external_body]
fn clone_ast(a: &comrak::nodes::Ast) -> (r: comrak::nodes::Ast)
    ensures
        r == *a,
{
    a.clone()
}

/// The Emphasis Strip transform, node by node: what this node becomes —
/// its stripped children alone when it is `Strong` or `Emph`, else itself
/// with stripped children.
pub(crate) fn strip_node(t: &MdNode) -> (r: Vec<MdNode>)
    ensures
        list_view(r@, 0) == strip_tree(node_view(*t)),
    decreases t,
{
    match t {
        MdNode::Strong(_, cs) => strip_children(cs),
        MdNode::Emph(_, cs) => strip_children(cs),
        MdNode::Other(a, cs) => {
            let sc = strip_children(cs);
            let mut r: Vec<MdNode> = Vec::new();
            r.push(MdNode::Other(clone_ast(a), sc));
            proof {
                assert(list_view(r@, 1) =~= Seq::<MdTree>::empty());
                assert(list_view(r@, 0) =~= seq![node_view(r@[0])]);
            }
            r
        },
    }
}

/// The Emphasis Strip of a list of siblings, in order.
pub(crate) fn strip_children(cs: &Vec<MdNode>) -> (r: Vec<MdNode>)
    ensures
        list_view(r@, 0) == strip_list(list_view(cs@, 0), 0),
    decreases cs,
{
    let ghost lv = list_view(cs@, 0);
    let mut r: Vec<MdNode> = Vec::new();
    let mut i: usize = 0;
    proof {
        lemma_list_view_props(cs@, 0);
        assert(list_view(r@, 0) =~= Seq::<MdTree>::empty());
        assert(Seq::<MdTree>::empty() + strip_list(lv, 0) =~= strip_list(lv, 0));
    }
    while i < cs.len()
        invariant
            i <= cs@.len(),
            lv == list_view(cs@, 0),
            lv.len() == cs@.len(),
            list_view(r@, 0) + strip_list(lv, i as int) == strip_list(lv, 0),
        decreases cs@.len() - i,
    {
        let mut sub = strip_node(&cs[i]);
        let ghost r0 = r@;
        let ghost sub0 = sub@;
        r.append(&mut sub);
        proof {
            lemma_list_view_props(cs@, 0);
            lemma_list_view_split(r0, sub0, 0);
            assert(node_view(cs@[i as int]) == lv[i as int]);
            assert(list_view(sub0, 0) == strip_tree(lv[i as int]));
            assert(strip_list(lv, i as int) == strip_tree(lv[i as int]) + strip_list(lv, i + 1));
            assert((list_view(r0, 0) + list_view(sub0, 0)) + strip_list(lv, i + 1) =~= list_view(
                r0,
                0,
            ) + (list_view(sub0, 0) + strip_list(lv, i + 1)));
        }
        i = i + 1;
    }
    proof {
        assert(strip_list(lv, cs@.len() as int) =~= Seq::<MdTree>::empty());
        assert(list_view(r@, 0) + Seq::<MdTree>::empty() =~= list_view(r@, 0));
    }
    r
}

/// The tree comrak parses the given text into.
pub uninterp spec fn parse_of(s: Seq<char>) -> MdTree;

/// What comrak's serializer yields for the given tree at the given width.
pub uninterp spec fn render_of(t: MdTree, width: int) -> Seq<char>;

/// Whether comrak's serializer succeeds on the given tree at the given width.
pub uninterp spec fn render_ok(t: MdTree, width: int) -> bool;

/// Relies on comrak's arena tree (`children`, `data`) and the derived
/// `Clone` for `Ast`: copies one parsed node into the library's tree shape,
/// one arm per relevant node kind, children in order.
#[verifier::external_body]
fn comrak_to_node<'a>(node: &'a comrak::nodes::AstNode<'a>) -> (t: MdNode) {
    let mut children: Vec<MdNode> = Vec::new();
    for child in node.children() {
        children.push(comrak_to_node(child));
    }
    let ast = node.data.borrow().clone();
    if matches!(ast.value, NodeValue::Strong) {
        MdNode::Strong(ast, children)
    } else if matches!(ast.value, NodeValue::Emph) {
        MdNode::Emph(ast, children)
    } else {
        MdNode::Other(ast, children)
    }
}

/// Relies on comrak 0.18's `parse_document` with default options: it reads
/// nothing but the text, so the tree it yields is a function of the text
/// alone, named `parse_of`; its root is always a document node, never an
/// emphasis node.
#[verifier::external_body]
pub(crate) fn parse_markdown(input: &str) -> (t: MdNode)
    ensures
        node_view(t) == parse_of(input@),
        t is Other,
{
    let options = comrak::ComrakOptions::default();
    let arena = comrak::Arena::new();
    let root = comrak::parse_document(&arena, input, &options);
    comrak_to_node(root)
}

/// Relies on comrak's arena tree (`Node::new`, `append`) and the derived
/// `Clone` for `Ast`: rebuilds one node of the library's tree as an arena
/// node, children in order.
#[verifier::external_body]
fn node_to_comrak<'a>(
    arena: &'a comrak::Arena<comrak::nodes::AstNode<'a>>,
    t: &MdNode,
) -> (r: &'a comrak::nodes::AstNode<'a>) {
    let (ast, children) = match t {
        MdNode::Strong(a, cs) => (a.clone(), cs),
        MdNode::Emph(a, cs) => (a.clone(), cs),
        MdNode::Other(a, cs) => (a.clone(), cs),
    };
    let node = &*arena.alloc(comrak::arena_tree::Node::new(core::cell::RefCell::new(ast)));
    for child in children.iter() {
        node.append(node_to_comrak(arena, child));
    }
    node
}

/// Relies on comrak 0.18's `format_commonmark`: serializes the tree back to
/// CommonMark at the given width. It reads nothing but the tree and the
/// width, so whether it succeeds and what it yields are functions of them
/// alone, named `render_ok` and `render_of`; the error text of a failed
/// serialization is not pinned down. The serializer takes the positions of
/// list items and table cells for granted, so only trees that descend from
/// a comrak parse may reach it: `MdNode` is crate-internal, its only
/// producers are `parse_markdown` and the strip, and the strip unwraps
/// nothing but `Strong` and `Emph`, which stand in neither position.
#[verifier::external_body]
pub(crate) fn render_markdown_tree(t: &MdNode, width: usize) -> (r: Result<String, String>)
    ensures
        r is Ok <==> render_ok(node_view(*t), width as int),
        r is Ok ==> r->Ok_0@ == render_of(node_view(*t), width as int),
{
    let mut options = comrak::ComrakOptions::default();
    options.render.width = width;
    let arena = comrak::Arena::new();
    let root = node_to_comrak(&arena, t);
    let mut buf: Vec<u8> = Vec::new();
    match comrak::format_commonmark(root, &options, &mut buf) {
        Ok(()) => match String::from_utf8(buf) {
            Ok(s) => Ok(s),
            Err(e) => Err(format!("{}", e)),
        },
        Err(e) => Err(format!("{}", e)),
    }
}


/// Whether no `Strong` or `Emph` node stands anywhere in the tree.
pub open spec fn emphasis_free(t: MdTree) -> bool
    decreases t, 0int,
{
    match t {
        MdTree::Strong(_, _) => false,
        MdTree::Emph(_, _) => false,
        MdTree::Other(_, cs) => emphasis_free_list(cs, 0),
    }
}

/// Whether every node of `ts` from index `i` on is emphasis-free.
pub open spec fn emphasis_free_list(ts: Seq<MdTree>, i: int) -> bool
    decreases ts, ts.len() - i,
{
    if i < 0 || i >= ts.len() {
        true
    } else {
        emphasis_free(ts[i]) && emphasis_free_list(ts, i + 1)
    }
}

/// The Emphasis Strip leaves an emphasis-free tree exactly as it is: with
/// nothing to unwrap, every node keeps its place, its data and its children.
pub proof fn lemma_strip_emphasis_free_identity(t: MdTree)
    requires
        emphasis_free(t),
    ensures
        strip_tree(t) == seq![t],
    decreases t, 0int,
{
    match t {
        MdTree::Other(a, cs) => {
            lemma_strip_list_emphasis_free(cs, 0);
            assert(cs.skip(0) =~= cs);
        },
        _ => {
        },
    }
}

proof fn lemma_strip_list_emphasis_free(ts: Seq<MdTree>, i: int)
    requires
        0 <= i <= ts.len(),
        emphasis_free_list(ts, i),
    ensures
        strip_list(ts, i) == ts.skip(i),
    decreases ts, ts.len() - i,
{
    if i < ts.len() {
        lemma_strip_emphasis_free_identity(ts[i]);
        lemma_strip_list_emphasis_free(ts, i + 1);
        assert(seq![ts[i]] + ts.skip(i + 1) =~= ts.skip(i));
    } else {
        assert(ts.skip(i) =~= Seq::<MdTree>::empty());
    }
}

proof fn lemma_emphasis_free_concat(a: Seq<MdTree>, b: Seq<MdTree>, i: int)
    requires
        0 <= i <= a.len(),
        emphasis_free_list(a, i),
        emphasis_free_list(b, 0),
    ensures
        emphasis_free_list(a + b, i),
    decreases a.len() - i,
{
    if i < a.len() {
        lemma_emphasis_free_concat(a, b, i + 1);
        assert((a + b)[i] == a[i]);
    } else {
        lemma_emphasis_free_concat_tail(a, b, 0);
    }
}

proof fn lemma_emphasis_free_concat_tail(a: Seq<MdTree>, b: Seq<MdTree>, j: int)
    requires
        0 <= j <= b.len(),
        emphasis_free_list(b, j),
    ensures
        emphasis_free_list(a + b, a.len() + j),
    decreases b.len() - j,
{
    if j < b.len() {
        lemma_emphasis_free_concat_tail(a, b, j + 1);
        assert((a + b)[a.len() + j] == b[j]);
    }
}

/// Everything the Emphasis Strip yields is emphasis-free: nested emphasis is
/// flattened away in the one pass.
pub proof fn lemma_strip_output_emphasis_free(t: MdTree)
    ensures
        emphasis_free_list(strip_tree(t), 0),
    decreases t, 0int,
{
    match t {
        MdTree::Strong(_, cs) => {
            lemma_strip_list_output_emphasis_free(cs, 0);
        },
        MdTree::Emph(_, cs) => {
            lemma_strip_list_output_emphasis_free(cs, 0);
        },
        MdTree::Other(a, cs) => {
            lemma_strip_list_output_emphasis_free(cs, 0);
            let x = MdTree::Other(a, strip_list(cs, 0));
            assert(emphasis_free(x) == emphasis_free_list(strip_list(cs, 0), 0));
            assert(seq![x][0] == x);
            assert(emphasis_free_list(seq![x], 1));
            assert(emphasis_free_list(seq![x], 0));
        },
    }
}

proof fn lemma_strip_list_output_emphasis_free(ts: Seq<MdTree>, i: int)
    requires
        0 <= i <= ts.len(),
    ensures
        emphasis_free_list(strip_list(ts, i), 0),
    decreases ts, ts.len() - i,
{
    if i < ts.len() {
        lemma_strip_output_emphasis_free(ts[i]);
        lemma_strip_list_output_emphasis_free(ts, i + 1);
        lemma_emphasis_free_concat(strip_tree(ts[i]), strip_list(ts, i + 1), 0);
    }
}

/// The Emphasis Strip is idempotent: stripping what a strip yielded changes
/// nothing.
pub proof fn lemma_strip_idempotent(t: MdTree)
    ensures
        strip_list(strip_tree(t), 0) == strip_tree(t),
{
    lemma_strip_output_emphasis_free(t);
    lemma_strip_list_emphasis_free(strip_tree(t), 0);
    assert(strip_tree(t).skip(0) =~= strip_tree(t));
}

} // verus!
