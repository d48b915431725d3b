//! Where each node of a tree stands in the text, and how far it is indented.

use vstd::prelude::*;
use crate::notation::{
    closing, diagram_text, header, heading, indent, lemma_node_blocks_concat,
    lemma_node_blocks_push, line_break, node_block, node_blocks,
};
use crate::tree::NodeView;

verus! {

/// The indentation at a level is exactly that many tabs and nothing else, so
/// each level of nesting adds one tab.
pub proof fn lemma_indent_is_tabs(level: nat)
    ensures
        indent(level).len() == level,
        forall|i: int| 0 <= i < level ==> indent(level)[i] == '\t',
        indent(level + 1) == indent(level).push('\t'),
{
}

/// A block begins with the indentation of its level. After it comes the id
/// of a leaf and nothing more, or the rest of the heading of a subgraph; and a
/// subgraph's block ends with a line of its own that holds the same
/// indentation and `end`.
pub proof fn lemma_block_indentation(node: NodeView, level: nat)
    ensures
        indent(level).is_prefix_of(node_block(node, level)),
        node matches NodeView::Leaf { id } ==> node_block(node, level) == indent(level) + id,
        node matches NodeView::Subgraph { id, .. } ==> {
            &&& heading(id, level).is_prefix_of(node_block(node, level))
            &&& closing(level).is_suffix_of(node_block(node, level))
        },
{
}

/// Each member of a subgraph at level `level` is written at level
/// `level + 1`, on a new line: after the heading and the members before it,
/// and before the members after it and the closing line.
pub proof fn lemma_member_block(id: Seq<char>, children: Seq<NodeView>, i: int, level: nat)
    requires
        0 <= i < children.len(),
    ensures
        node_block(NodeView::Subgraph { id, children }, level) == heading(id, level) + node_blocks(
            children.take(i),
            level + 1,
        ) + line_break() + node_block(children[i], level + 1) + node_blocks(
            children.skip(i + 1),
            level + 1,
        ) + closing(level),
{
    lemma_member_replaced(id, children, i, children[i], level);
    assert(children.update(i, children[i]) =~= children);
}

/// With another node in the place of a member, the text of the subgraph
/// changes only there: the other node's block stands between what stood
/// before the member's block and what stood after it.
pub proof fn lemma_member_replaced(
    id: Seq<char>,
    children: Seq<NodeView>,
    i: int,
    other: NodeView,
    level: nat,
)
    requires
        0 <= i < children.len(),
    ensures
        node_block(NodeView::Subgraph { id, children: children.update(i, other) }, level)
            == heading(id, level) + node_blocks(children.take(i), level + 1) + line_break()
            + node_block(other, level + 1) + node_blocks(children.skip(i + 1), level + 1)
            + closing(level),
{
    lemma_node_blocks_round(children, i, other, level + 1);
}

/// Each top-level node of a diagram is written at level 1, on a new line:
/// after the header and the nodes before it, and before the nodes after it.
pub proof fn lemma_top_level_block(nodes: Seq<NodeView>, i: int)
    requires
        0 <= i < nodes.len(),
    ensures
        diagram_text(nodes) == header() + node_blocks(nodes.take(i), 1) + line_break()
            + node_block(nodes[i], 1) + node_blocks(nodes.skip(i + 1), 1),
{
    lemma_top_level_replaced(nodes, i, nodes[i]);
    assert(nodes.update(i, nodes[i]) =~= nodes);
}

/// With another node in the place of a top-level node, the text of the
/// diagram changes only there.
pub proof fn lemma_top_level_replaced(nodes: Seq<NodeView>, i: int, other: NodeView)
    requires
        0 <= i < nodes.len(),
    ensures
        diagram_text(nodes.update(i, other)) == header() + node_blocks(nodes.take(i), 1)
            + line_break() + node_block(other, 1) + node_blocks(nodes.skip(i + 1), 1),
{
    lemma_node_blocks_round(nodes, i, other, 1);
}

/// The text of a run with `other` at position `i`: the text of the nodes
/// before `i`, a line break and the block of `other`, and the text of the
/// nodes after `i`.
proof fn lemma_node_blocks_round(nodes: Seq<NodeView>, i: int, other: NodeView, level: nat)
    requires
        0 <= i < nodes.len(),
    ensures
        node_blocks(nodes.update(i, other), level) == node_blocks(nodes.take(i), level)
            + line_break() + node_block(other, level) + node_blocks(nodes.skip(i + 1), level),
{
    let before = nodes.take(i);
    let after = nodes.skip(i + 1);
    assert(nodes.update(i, other) =~= before.push(other) + after);
    lemma_node_blocks_concat(before.push(other), after, level);
    lemma_node_blocks_push(before, other, level);
}

/// Whether `path` leads from `node` down to a node of its tree: each step
/// names the position of a member of the subgraph reached so far.
pub open spec fn leads_down(node: NodeView, path: Seq<int>) -> bool
    decreases path.len(),
{
    path.len() > 0 ==> {
        &&& node is Subgraph
        &&& 0 <= path[0] < node->children.len()
        &&& leads_down(node->children[path[0]], path.drop_first())
    }
}

/// The node to which `path` leads from `node`.
pub open spec fn descendant(node: NodeView, path: Seq<int>) -> NodeView
    recommends
        leads_down(node, path),
    decreases path.len(),
{
    if path.len() == 0 {
        node
    } else {
        descendant(node->children[path[0]], path.drop_first())
    }
}

/// The tree of `node` with `other` in the place to which `path` leads.
pub open spec fn replaced(node: NodeView, path: Seq<int>, other: NodeView) -> NodeView
    recommends
        leads_down(node, path),
    decreases path.len(),
{
    if path.len() == 0 {
        other
    } else {
        NodeView::Subgraph {
            id: node->Subgraph_id,
            children: node->children.update(
                path[0],
                replaced(node->children[path[0]], path.drop_first(), other),
            ),
        }
    }
}

/// What the text of `node` at `level` holds before the block of the node to
/// which `path` leads: on each step down, the heading, the members that come
/// before, and a line break.
pub open spec fn text_before(node: NodeView, path: Seq<int>, level: nat) -> Seq<char>
    recommends
        leads_down(node, path),
    decreases path.len(),
{
    if path.len() == 0 {
        Seq::empty()
    } else {
        heading(node->Subgraph_id, level) + node_blocks(node->children.take(path[0]), level + 1)
            + line_break() + text_before(node->children[path[0]], path.drop_first(), level + 1)
    }
}

/// What the text of `node` at `level` holds after the block of the node to
/// which `path` leads: on each step back up, the members that come after, and
/// the closing line.
pub open spec fn text_after(node: NodeView, path: Seq<int>, level: nat) -> Seq<char>
    recommends
        leads_down(node, path),
    decreases path.len(),
{
    if path.len() == 0 {
        Seq::empty()
    } else {
        text_after(node->children[path[0]], path.drop_first(), level + 1) + node_blocks(
            node->children.skip(path[0] + 1),
            level + 1,
        ) + closing(level)
    }
}

/// A node that lies `n` steps below a node written at level `level` is
/// written at level `level + n`, whatever `n` is: the upper node's text is
/// what stands before, the lower node's block at that level, and what stands
/// after. Below the upper node the block starts on a new line.
pub proof fn lemma_descendant_block(node: NodeView, path: Seq<int>, level: nat)
    requires
        leads_down(node, path),
    ensures
        node_block(node, level) == text_before(node, path, level) + node_block(
            descendant(node, path),
            level + path.len(),
        ) + text_after(node, path, level),
        path.len() > 0 ==> line_break().is_suffix_of(text_before(node, path, level)),
{
    lemma_replaced_block(node, path, descendant(node, path), level);
    lemma_replaced_by_itself(node, path);
    lemma_text_before_ends_line(node, path, level);
}

/// With another node in the place to which `path` leads, the text changes
/// only there: the other node's block stands, at the same level, between what
/// stood before and what stood after.
pub proof fn lemma_replaced_block(node: NodeView, path: Seq<int>, other: NodeView, level: nat)
    requires
        leads_down(node, path),
    ensures
        node_block(replaced(node, path, other), level) == text_before(node, path, level)
            + node_block(other, level + path.len()) + text_after(node, path, level),
    decreases path.len(),
{
    if path.len() > 0 {
        let children = node->children;
        let i = path[0];
        let rest = path.drop_first();
        lemma_replaced_block(children[i], rest, other, level + 1);
        lemma_member_replaced(
            node->Subgraph_id,
            children,
            i,
            replaced(children[i], rest, other),
            level,
        );
    }
}

/// A tree with a node replaced by itself is the same tree.
proof fn lemma_replaced_by_itself(node: NodeView, path: Seq<int>)
    requires
        leads_down(node, path),
    ensures
        replaced(node, path, descendant(node, path)) == node,
    decreases path.len(),
{
    if path.len() > 0 {
        let children = node->children;
        let i = path[0];
        lemma_replaced_by_itself(children[i], path.drop_first());
        assert(children.update(i, children[i]) =~= children);
    }
}

/// Below the node from which a path starts, what stands before the block
/// it leads to ends with a line break.
proof fn lemma_text_before_ends_line(node: NodeView, path: Seq<int>, level: nat)
    requires
        leads_down(node, path),
    ensures
        path.len() > 0 ==> line_break().is_suffix_of(text_before(node, path, level)),
    decreases path.len(),
{
    if path.len() > 0 {
        let before = text_before(node, path, level);
        let rest = path.drop_first();
        let inner = text_before(node->children[path[0]], rest, level + 1);
        lemma_text_before_ends_line(node->children[path[0]], rest, level + 1);
        if rest.len() > 0 {
            assert(before.subrange(before.len() - 1, before.len() as int) == inner.subrange(
                inner.len() - 1,
                inner.len() as int,
            ));
        } else {
            assert(before.subrange(before.len() - 1, before.len() as int) == line_break());
        }
    }
}

} // verus!
