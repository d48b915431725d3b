//! The diagram tree and its mathematical model.

use vstd::prelude::*;

verus! {

/// An element of a diagram: a leaf, or a subgraph that groups further nodes.
///
/// A node is a leaf exactly when `nodes` is `None`. `Some` of an empty vector
/// is a subgraph without members, which is written out differently.
#[derive(Debug)]
pub struct Node {
    /// The name under which the node is written out, taken as it is.
    pub id: String,
    /// The name of the enclosing node. It is the caller's bookkeeping:
    /// nothing here reads it.
    pub parent_id: Option<String>,
    /// The members of a subgraph, in the order in which they are written out.
    pub nodes: Option<Vec<Node>>,
}

/// A whole diagram: its top-level nodes, in order.
#[derive(Debug)]
pub struct Diagram {
    /// The nodes at level 1, in the order in which they are written out.
    pub nodes: Vec<Node>,
}

/// What a [`Node`] stands for: a finite ordered tree of names.
pub enum NodeView {
    /// A plain element.
    Leaf { id: Seq<char> },
    /// A named group of nodes, possibly without members.
    Subgraph { id: Seq<char>, children: Seq<NodeView> },
}

impl View for Node {
    type V = NodeView;

    open spec fn view(&self) -> NodeView
        decreases self,
    {
        match self.nodes {
            None => NodeView::Leaf { id: self.id@ },
            Some(children) => NodeView::Subgraph {
                id: self.id@,
                children: Node::views(children@),
            },
        }
    }
}

impl Node {
    /// The models of a run of nodes, position by position.
    pub open spec fn views(nodes: Seq<Node>) -> Seq<NodeView>
        decreases nodes,
    {
        if nodes.len() == 0 {
            Seq::empty()
        } else {
            Node::views(nodes.drop_last()).push(nodes.last()@)
        }
    }

    /// `views` keeps the length and maps each position to its node's model.
    pub proof fn lemma_views(nodes: Seq<Node>)
        ensures
            Node::views(nodes).len() == nodes.len(),
            forall|i: int| 0 <= i < nodes.len() ==> (#[trigger] Node::views(nodes)[i]) == nodes[i]@,
        decreases nodes.len(),
    {
        if nodes.len() > 0 {
            let front = nodes.drop_last();
            Node::lemma_views(front);
            assert(Node::views(nodes) == Node::views(front).push(nodes.last()@));
        }
    }

    /// The models of the first `n + 1` nodes are those of the first `n`,
    /// followed by the model of the node at `n`.
    pub proof fn lemma_views_take_next(nodes: Seq<Node>, n: int)
        requires
            0 <= n < nodes.len(),
        ensures
            Node::views(nodes.take(n + 1)) == Node::views(nodes.take(n)).push(nodes[n]@),
    {
        assert(nodes.take(n + 1).drop_last() == nodes.take(n));
    }
}

impl View for Diagram {
    type V = Seq<NodeView>;

    open spec fn view(&self) -> Seq<NodeView> {
        Node::views(self.nodes@)
    }
}

} // verus!
