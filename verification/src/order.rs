//! The order of the nodes is the order of their blocks.

use vstd::prelude::*;
use crate::levels::{
    descendant, leads_down, lemma_descendant_block, lemma_replaced_block, replaced, text_after,
    text_before,
};
use crate::notation::{closing, diagram_text, header, heading, line_break, node_block, node_blocks};
use crate::tree::NodeView;

verus! {

/// What each node of a run adds to the run's text: a line break and the
/// node's block.
pub open spec fn member_texts(nodes: Seq<NodeView>, level: nat) -> Seq<Seq<char>> {
    Seq::new(nodes.len(), |i: int| line_break() + node_block(nodes[i], level))
}

/// The text of a run of nodes is what its nodes add, one after the other in
/// the order of the run.
pub proof fn lemma_node_blocks_in_order(nodes: Seq<NodeView>, level: nat)
    ensures
        node_blocks(nodes, level) == member_texts(nodes, level).flatten(),
    decreases nodes.len(),
{
    if nodes.len() > 0 {
        let front = nodes.drop_last();
        let added = line_break() + node_block(nodes.last(), level);
        lemma_node_blocks_in_order(front, level);
        assert(member_texts(nodes, level) =~= member_texts(front, level).push(added));
        member_texts(front, level).lemma_flatten_push(added);
    }
}

/// `order` is a way to permute `len` items: it names each position once.
pub open spec fn is_permutation(order: Seq<int>, len: nat) -> bool {
    &&& order.len() == len
    &&& forall|i: int| 0 <= i < len ==> 0 <= #[trigger] order[i] < len
    &&& order.no_duplicates()
}

/// The items in the order that `order` gives: at each position the item
/// whose position `order` names there.
pub open spec fn permuted<A>(items: Seq<A>, order: Seq<int>) -> Seq<A> {
    Seq::new(order.len(), |i: int| items[order[i]])
}

/// Permuting a run of nodes permutes what they add to the text in the same
/// way: each block stays what it was and moves with its node.
pub proof fn lemma_permuted_node_blocks(nodes: Seq<NodeView>, order: Seq<int>, level: nat)
    requires
        is_permutation(order, nodes.len()),
    ensures
        member_texts(permuted(nodes, order), level) == permuted(member_texts(nodes, level), order),
        node_blocks(permuted(nodes, order), level) == permuted(
            member_texts(nodes, level),
            order,
        ).flatten(),
{
    assert(member_texts(permuted(nodes, order), level) =~= permuted(
        member_texts(nodes, level),
        order,
    ));
    lemma_node_blocks_in_order(permuted(nodes, order), level);
}

/// Permuting the members of a subgraph changes its text only in the order
/// of the members' blocks: the heading and the closing line stay, and between
/// them stands what the members add, permuted in the same way.
pub proof fn lemma_permuted_members(
    id: Seq<char>,
    children: Seq<NodeView>,
    order: Seq<int>,
    level: nat,
)
    requires
        is_permutation(order, children.len()),
    ensures
        node_block(NodeView::Subgraph { id, children }, level) == heading(id, level)
            + member_texts(children, level + 1).flatten() + closing(level),
        node_block(NodeView::Subgraph { id, children: permuted(children, order) }, level)
            == heading(id, level) + permuted(member_texts(children, level + 1), order).flatten()
            + closing(level),
{
    lemma_node_blocks_in_order(children, level + 1);
    lemma_permuted_node_blocks(children, order, level + 1);
}

/// Permuting the members of a subgraph anywhere in a tree changes the text
/// of the tree only in the order of those members' blocks: what stands before
/// and after the subgraph's block stays, and so do its heading and its closing
/// line.
pub proof fn lemma_permuted_members_below(
    root: NodeView,
    path: Seq<int>,
    order: Seq<int>,
    level: nat,
)
    requires
        leads_down(root, path),
        descendant(root, path) is Subgraph,
        is_permutation(order, descendant(root, path)->children.len()),
    ensures
        ({
            let id = descendant(root, path)->Subgraph_id;
            let children = descendant(root, path)->children;
            let inner = level + path.len();
            let turned = NodeView::Subgraph { id, children: permuted(children, order) };
            &&& node_block(root, level) == text_before(root, path, level) + heading(id, inner)
                + member_texts(children, inner + 1).flatten() + closing(inner) + text_after(
                root,
                path,
                level,
            )
            &&& node_block(replaced(root, path, turned), level) == text_before(root, path, level)
                + heading(id, inner) + permuted(member_texts(children, inner + 1), order).flatten()
                + closing(inner) + text_after(root, path, level)
        }),
{
    let id = descendant(root, path)->Subgraph_id;
    let children = descendant(root, path)->children;
    let inner = level + path.len();
    let turned = NodeView::Subgraph { id, children: permuted(children, order) };
    lemma_descendant_block(root, path, level);
    lemma_replaced_block(root, path, turned, level);
    lemma_permuted_members(id, children, order, inner);
}

/// Permuting the top-level nodes of a diagram changes its text only in the
/// order of their blocks: the header stays, and after it stands what the nodes
/// add, permuted in the same way.
pub proof fn lemma_permuted_diagram(nodes: Seq<NodeView>, order: Seq<int>)
    requires
        is_permutation(order, nodes.len()),
    ensures
        diagram_text(nodes) == header() + member_texts(nodes, 1).flatten(),
        diagram_text(permuted(nodes, order)) == header() + permuted(
            member_texts(nodes, 1),
            order,
        ).flatten(),
{
    lemma_node_blocks_in_order(nodes, 1);
    lemma_permuted_node_blocks(nodes, order, 1);
}

} // verus!
