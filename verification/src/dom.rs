//! The tree-shaped document model the flattener consumes: elements with a tag
//! name, an optional hyperlink destination attribute and children, and raw
//! text runs.

use vstd::prelude::*;

verus! {

/// One node of the document tree.
pub enum Node {
    Elem(Element),
    Text(String),
}

/// A markup element: its tag name, its destination attribute when one is
/// present, and its child nodes in document order.
pub struct Element {
    pub tag: String,
    pub href: Option<String>,
    pub children: Vec<Node>,
}

/// The raw text runs of `n` and its descendants, in document order.
pub open spec fn texts_of(n: Node) -> Seq<Seq<char>>
    decreases n,
{
    match n {
        Node::Text(t) => seq![t@],
        Node::Elem(e) => texts_of_children(e.children@),
    }
}

/// The raw text runs of the nodes of `s` and their descendants, in order.
pub open spec fn texts_of_children(s: Seq<Node>) -> Seq<Seq<char>>
    decreases s,
{
    if s.len() == 0 {
        Seq::empty()
    } else {
        texts_of_children(s.drop_last()) + texts_of(s.last())
    }
}

} // verus!
