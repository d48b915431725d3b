//! Which nodes are written out alike, and which are not.

use vstd::prelude::*;
use crate::notation::{closing, diagram_text, heading, indent, node_block};
use crate::tree::{Diagram, Node, NodeView};

verus! {

/// Two nodes are alike when they have the same id, are both leaves or both
/// subgraphs, and as subgraphs have equally many members that are alike one by
/// one, in order. What `parent_id` holds plays no part.
pub open spec fn alike(a: Node, b: Node) -> bool
    decreases a,
{
    &&& a.id@ == b.id@
    &&& match (a.nodes, b.nodes) {
        (None, None) => true,
        (Some(x), Some(y)) => all_alike(x@, y@),
        _ => false,
    }
}

/// Two runs of nodes are alike when they are equally long and their nodes
/// are alike position by position.
pub open spec fn all_alike(a: Seq<Node>, b: Seq<Node>) -> bool
    decreases a,
{
    &&& a.len() == b.len()
    &&& forall|i: int| 0 <= i < a.len() ==> alike(#[trigger] a[i], b[i])
}

/// Nodes are alike exactly when they stand for the same tree.
pub proof fn lemma_alike_is_same_view(a: Node, b: Node)
    ensures
        alike(a, b) <==> a@ == b@,
    decreases a,
{
    match (a.nodes, b.nodes) {
        (Some(x), Some(y)) => {
            lemma_all_alike_is_same_views(x@, y@);
        },
        _ => {},
    }
}

/// Runs of nodes are alike exactly when they stand for the same run of trees.
pub proof fn lemma_all_alike_is_same_views(a: Seq<Node>, b: Seq<Node>)
    ensures
        all_alike(a, b) <==> Node::views(a) == Node::views(b),
    decreases a,
{
    Node::lemma_views(a);
    Node::lemma_views(b);
    if a.len() == b.len() {
        assert forall|i: int| 0 <= i < a.len() implies (alike(#[trigger] a[i], b[i]) <==> a[i]@
            == b[i]@) by {
            lemma_alike_is_same_view(a[i], b[i]);
        }
        if all_alike(a, b) {
            assert(Node::views(a) =~= Node::views(b));
        }
        if Node::views(a) == Node::views(b) {
            assert forall|i: int| 0 <= i < a.len() implies alike(#[trigger] a[i], b[i]) by {
                assert(Node::views(a)[i] == a[i]@);
                assert(Node::views(b)[i] == b[i]@);
            }
        }
    }
}

/// Nodes that are alike are written out as the same text at the same level.
pub proof fn lemma_alike_nodes_same_text(a: Node, b: Node, level: nat)
    requires
        alike(a, b),
    ensures
        node_block(a@, level) == node_block(b@, level),
{
    lemma_alike_is_same_view(a, b);
}

/// Diagrams whose top-level nodes are alike are written out as the same text.
pub proof fn lemma_alike_diagrams_same_text(a: Diagram, b: Diagram)
    requires
        all_alike(a.nodes@, b.nodes@),
    ensures
        diagram_text(a@) == diagram_text(b@),
{
    lemma_all_alike_is_same_views(a.nodes@, b.nodes@);
}

/// A subgraph without members is written as its heading and its closing
/// line with nothing between them, and a leaf as one bare line. A subgraph,
/// with or without members, is never written as the leaf of the same id is.
pub proof fn lemma_subgraph_is_not_a_leaf(id: Seq<char>, children: Seq<NodeView>, level: nat)
    ensures
        node_block(NodeView::Subgraph { id, children: Seq::empty() }, level) == heading(id, level)
            + closing(level),
        node_block(NodeView::Leaf { id }, level) == indent(level) + id,
        node_block(NodeView::Subgraph { id, children }, level) != node_block(
            NodeView::Leaf { id },
            level,
        ),
{
    assert(node_block(NodeView::Subgraph { id, children }, level).len() > node_block(
        NodeView::Leaf { id },
        level,
    ).len());
}

} // verus!
