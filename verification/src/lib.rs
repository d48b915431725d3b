//! Renders a tree of named diagram nodes as indented flowchart text.
//!
//! A [`Diagram`] owns its top-level [`Node`]s, and every node is either a leaf
//! or a subgraph that owns further nodes. [`Diagram::render`] writes the tree
//! out in the `flowchart TB` notation, one line per leaf and a
//! `subgraph` / `end` pair of lines round the members of each subgraph, each
//! line indented by one tab per level of nesting.
//!
//! - [`tree`]: the nodes and the trees they stand for.
//! - [`notation`]: the text of a tree, as a function of the tree.
//! - [`render`]: the functions that write that text.
//! - [`levels`], [`likeness`], [`order`]: what holds of the text of every
//!   tree.

pub mod levels;
pub mod likeness;
pub mod notation;
pub mod order;
pub mod render;
pub mod tree;

pub use tree::{Diagram, Node, NodeView};
