//! The flowchart notation as functions from trees to text.
//!
//! ```text
//! diagram    := "flowchart TB" blocks(1)
//! blocks(n)  := ("\n" block(n))*
//! block(n)   := indent(n) id
//!             | indent(n) "subgraph " id blocks(n + 1) "\n" indent(n) "end"
//! indent(n)  := "\t" * n
//! ```

use vstd::prelude::*;
use crate::tree::NodeView;

verus! {

/// The line that opens every diagram.
pub open spec fn header() -> Seq<char> {
    "flowchart TB"@
}

/// The word, with its blank, that opens a subgraph before its name.
pub open spec fn subgraph_keyword() -> Seq<char> {
    "subgraph "@
}

/// The word that closes a subgraph.
pub open spec fn end_keyword() -> Seq<char> {
    "end"@
}

/// What separates one line from the next.
pub open spec fn line_break() -> Seq<char> {
    seq!['\n']
}

/// The indentation of a line at nesting level `level`: that many tabs.
pub open spec fn indent(level: nat) -> Seq<char> {
    Seq::new(level, |i: int| '\t')
}

/// The first line of a subgraph's block at `level`.
pub open spec fn heading(id: Seq<char>, level: nat) -> Seq<char> {
    indent(level) + subgraph_keyword() + id
}

/// The end of a subgraph's block at `level`: a line break and the last line.
pub open spec fn closing(level: nat) -> Seq<char> {
    line_break() + indent(level) + end_keyword()
}

/// The text of one node at nesting level `level`, without a line break
/// before or after it. An id is written as it is, whatever it holds.
pub open spec fn node_block(node: NodeView, level: nat) -> Seq<char>
    decreases node,
{
    match node {
        NodeView::Leaf { id } => indent(level) + id,
        NodeView::Subgraph { id, children } => heading(id, level) + node_blocks(
            children,
            level + 1,
        ) + closing(level),
    }
}

/// The text of a run of nodes at one nesting level: the block of each, in
/// the order of the run, each with a line break before it.
pub open spec fn node_blocks(nodes: Seq<NodeView>, level: nat) -> Seq<char>
    decreases nodes,
{
    if nodes.len() == 0 {
        Seq::empty()
    } else {
        node_blocks(nodes.drop_last(), level) + line_break() + node_block(nodes.last(), level)
    }
}

/// The text of a diagram with the given top-level nodes.
pub open spec fn diagram_text(nodes: Seq<NodeView>) -> Seq<char> {
    header() + node_blocks(nodes, 1)
}

/// One more node at the end of a run adds a line break and that node's block
/// at the end of the run's text.
pub proof fn lemma_node_blocks_push(nodes: Seq<NodeView>, node: NodeView, level: nat)
    ensures
        node_blocks(nodes.push(node), level) == node_blocks(nodes, level) + line_break()
            + node_block(node, level),
{
    assert(nodes.push(node).drop_last() == nodes);
}

/// The text of two runs of nodes, one after the other, is the text of the
/// first followed by the text of the second.
pub proof fn lemma_node_blocks_concat(front: Seq<NodeView>, back: Seq<NodeView>, level: nat)
    ensures
        node_blocks(front + back, level) == node_blocks(front, level) + node_blocks(back, level),
    decreases back.len(),
{
    if back.len() > 0 {
        assert((front + back).drop_last() =~= front + back.drop_last());
        lemma_node_blocks_concat(front, back.drop_last(), level);
    }
}

} // verus!
