//! Document nodes and the recursive view of a document tree.

use crate::dom::element::Element;
use crate::dom::element::SpecElement;
use crate::dom::text::Text;
use vstd::prelude::*;

verus! {

/// One node of the document tree: its own content and its children, owned
/// exclusively and in document order.
#[derive(Debug, PartialEq)]
pub struct Node {
    pub node_type: NodeType,
    pub children: Vec<Box<Node>>,
}

/// The content of a node: an element or raw text.
#[derive(Debug, PartialEq)]
pub enum NodeType {
    Element(Element),
    Text(Text),
}

/// The mathematical content of a [`NodeType`].
pub enum SpecNodeType {
    Element(SpecElement),
    Text(Seq<char>),
}

/// The mathematical content of a [`Node`]: a finite tree.
pub struct SpecNode {
    pub node_type: SpecNodeType,
    pub children: Seq<SpecNode>,
}

impl View for NodeType {
    type V = SpecNodeType;

    open spec fn view(&self) -> SpecNodeType {
        match self {
            NodeType::Element(e) => SpecNodeType::Element(e@),
            NodeType::Text(t) => SpecNodeType::Text(t@),
        }
    }
}

/// The view of a node, spelled out recursively over its children.
pub closed spec fn node_view(n: Node) -> SpecNode
    decreases n, 0int, 0int,
{
    SpecNode {
        node_type: n.node_type@,
        children: children_view(n.children, n.children.len() as int),
    }
}

spec fn children_view(v: Vec<Box<Node>>, i: int) -> Seq<SpecNode>
    decreases v, 1int, i via children_view_decreases
{
    if i <= 0 || i > v.len() {
        Seq::empty()
    } else {
        children_view(v, i - 1).push(node_view(*v[i - 1]))
    }
}

#[via_fn]
proof fn children_view_decreases(v: Vec<Box<Node>>, i: int) {
    if 0 < i <= v.len() {
        assert(decreases_to!(v => v[i - 1]));
    }
}

impl View for Node {
    type V = SpecNode;

    open spec fn view(&self) -> SpecNode {
        node_view(*self)
    }
}

/// The views of a sequence of owned nodes, in order.
pub open spec fn nodes_view(v: Seq<Box<Node>>) -> Seq<SpecNode> {
    Seq::new(v.len(), |i: int| v[i]@)
}

/// A node's view pairs the view of its content with the views of its
/// children, in document order.
pub broadcast proof fn lemma_node_view(n: &Node)
    ensures
        (#[trigger] n@).node_type == n.node_type@,
        n@.children == nodes_view(n.children@),
{
    lemma_children_view(&n.children, n.children@.len() as int);
    assert(n@.children =~= nodes_view(n.children@));
}

proof fn lemma_children_view(v: &Vec<Box<Node>>, i: int)
    requires
        0 <= i <= v.len(),
    ensures
        children_view(*v, i).len() == i,
        forall|j: int| 0 <= j < i ==> children_view(*v, i)[j] == v@[j]@,
    decreases i,
{
    if i > 0 {
        lemma_children_view(v, i - 1);
    }
}

/// The node's own text payload: its data when it is a text node, nothing
/// when it is an element.
pub open spec fn own_text(n: SpecNode) -> Seq<char> {
    match n.node_type {
        SpecNodeType::Text(d) => d,
        SpecNodeType::Element(_) => Seq::empty(),
    }
}

/// The concatenation, in document order (depth-first, pre-order), of the
/// text content of a node and of all its descendants: the node's own
/// payload, then the text content of each child in turn.
pub open spec fn inner_text_spec(n: SpecNode) -> Seq<char>
    decreases n, 0int,
{
    own_text(n) + inner_text_prefix(n.children, n.children.len() as int)
}

pub open spec fn inner_text_prefix(children: Seq<SpecNode>, i: int) -> Seq<char>
    decreases children, i via inner_text_prefix_decreases
{
    if i <= 0 || i > children.len() {
        Seq::empty()
    } else {
        inner_text_prefix(children, i - 1) + inner_text_spec(children[i - 1])
    }
}

#[via_fn]
proof fn inner_text_prefix_decreases(children: Seq<SpecNode>, i: int) {
    if 0 < i <= children.len() {
        assert(decreases_to!(children => children[i - 1]));
    }
}

impl Node {
    /// The concatenation, in document order, of the text content of this
    /// node and of all its descendants.
    pub fn inner_text(&self) -> (r: String)
        ensures
            r@ == inner_text_spec(self@),
        decreases *self,
    {
        proof {
            lemma_node_view(self);
        }
        let mut r = String::new();
        match &self.node_type {
            NodeType::Text(t) => {
                r.append(t.data.as_str());
            },
            NodeType::Element(_) => {},
        }
        proof {
            assert(r@ =~= own_text(self@) + inner_text_prefix(self@.children, 0));
        }
        let mut i: usize = 0;
        while i < self.children.len()
            invariant
                i <= self.children.len(),
                r@ == own_text(self@) + inner_text_prefix(self@.children, i as int),
                self@.children == nodes_view(self.children@),
            decreases self.children.len() - i,
        {
            let child = &self.children[i];
            let s = child.inner_text();
            r.append(s.as_str());
            proof {
                assert(self@.children[i as int] == (*self.children@[i as int])@);
                assert(r@ =~= own_text(self@) + inner_text_prefix(self@.children, i + 1));
            }
            i += 1;
        }
        r
    }
}

} // verus!
