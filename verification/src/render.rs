//! Writing a diagram out as text.

use vstd::prelude::*;
use crate::notation::{
    diagram_text, header, heading, indent, lemma_node_blocks_push, node_block, node_blocks,
};
use crate::tree::{Diagram, Node};

verus! {

/// A string of `level` tabs.
fn indentation(level: usize) -> (tabs: String)
    ensures
        tabs@ == indent(level as nat),
{
    let mut tabs = String::new();
    let mut written: usize = 0;
    while written < level
        invariant
            written <= level,
            tabs@ == indent(written as nat),
        decreases level - written,
    {
        tabs.append("\t");
        written = written + 1;
        proof {
            reveal_strlit("\t");
        }
    }
    tabs
}

impl Diagram {
    /// Writes the diagram out: the header line, then the block of each
    /// top-level node at level 1, in order, each on a new line.
    pub fn render(self) -> (text: String)
        ensures
            text@ == diagram_text(self@),
    {
        let mut out = String::from_str("flowchart TB");
        let ghost all = self.nodes@;
        for node in it: self.nodes
            invariant
                it.seq() == all,
                out@ == header() + node_blocks(Node::views(all.take(it.index())), 1),
        {
            let ghost written = Node::views(all.take(it.index()));
            out.append("\n");
            out.append(node.render(1).as_str());
            proof {
                reveal_strlit("\n");
                Node::lemma_views_take_next(all, it.index());
                lemma_node_blocks_push(written, node@, 1);
            }
        }
        proof {
            assert(all.take(all.len() as int) == all);
        }
        out
    }
}

impl Node {
    /// Writes the node out at nesting level `level`: a leaf as one line, a
    /// subgraph as its heading, its members in order at the next level, and
    /// its closing line. No level is too large to go one deeper.
    pub fn render(self, level: usize) -> (text: String)
        ensures
            text@ == node_block(self@, level as nat),
    {
        let tabs = indentation(level);
        self.render_indented(tabs.as_str(), Ghost(level as nat))
    }

    /// Writes the node out behind the indentation `tabs`, which is that of
    /// `level`. Members get the same indentation with one more tab, so the
    /// level itself is never counted up.
    fn render_indented(self, tabs: &str, Ghost(level): Ghost<nat>) -> (text: String)
        requires
            tabs@ == indent(level),
        ensures
            text@ == node_block(self@, level),
        decreases self,
    {
        let ghost this = self;
        let Node { id, parent_id: _, nodes } = self;
        let mut out = String::from_str(tabs);
        match nodes {
            None => {
                out.append(id.as_str());
                out
            },
            Some(members) => {
                out.append("subgraph ");
                out.append(id.as_str());
                let mut deeper = String::from_str(tabs);
                deeper.append("\t");
                let ghost all = members@;
                proof {
                    reveal_strlit("\t");
                }
                for member in it: members
                    invariant
                        it.seq() == all,
                        this == self,
                        forall|i: int|
                            0 <= i < all.len() ==> decreases_to!(this => #[trigger] all[i]),
                        deeper@ == indent(level + 1),
                        out@ == heading(this.id@, level) + node_blocks(
                            Node::views(all.take(it.index())),
                            level + 1,
                        ),
                {
                    let ghost written = Node::views(all.take(it.index()));
                    out.append("\n");
                    let block = member.render_indented(deeper.as_str(), Ghost(level + 1));
                    out.append(block.as_str());
                    proof {
                        reveal_strlit("\n");
                        Node::lemma_views_take_next(all, it.index());
                        lemma_node_blocks_push(written, member@, level + 1);
                    }
                }
                out.append("\n");
                out.append(tabs);
                out.append("end");
                proof {
                    reveal_strlit("\n");
                    assert(all.take(all.len() as int) == all);
                }
                out
            },
        }
    }
}

} // verus!
