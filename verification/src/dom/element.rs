//! Elements and their attribute maps.

use crate::assoc::assoc_map;
use crate::assoc::distinct_keys;
use crate::assoc::lemma_assoc_map_contains;
use crate::assoc::lemma_assoc_map_index;
use crate::assoc::lemma_assoc_map_push;
use crate::assoc::lemma_assoc_map_update;
use crate::dom::node::Node;
use crate::dom::node::NodeType;
use crate::dom::node::SpecNode;
use crate::dom::node::SpecNodeType;
use crate::dom::node::nodes_view;
use vstd::prelude::*;

verus! {

/// The attributes of an element: a mapping from attribute names to attribute
/// values with distinct names. Its view is that mapping.
#[derive(Debug, PartialEq)]
pub struct AttrMap {
    entries: Vec<(String, String)>,
}

impl AttrMap {
    pub closed spec fn entry_views(&self) -> Seq<(Seq<char>, Seq<char>)> {
        self.entries@.map_values(|p: (String, String)| (p.0@, p.1@))
    }

    #[verifier::type_invariant]
    closed spec fn well_formed(&self) -> bool {
        distinct_keys(self.entry_views())
    }
}

impl View for AttrMap {
    type V = Map<Seq<char>, Seq<char>>;

    closed spec fn view(&self) -> Map<Seq<char>, Seq<char>> {
        assoc_map(self.entry_views())
    }
}

/// The index of the entry carrying the given name, if there is one.
fn position_of(entries: &Vec<(String, String)>, name: &String) -> (r: Option<usize>)
    ensures
        match r {
            Some(t) => t < entries@.len() && entries@[t as int].0@ == name@,
            None => forall|j: int| 0 <= j < entries@.len() ==> (#[trigger] entries@[j]).0@
                != name@,
        },
{
    let mut i: usize = 0;
    while i < entries.len()
        invariant
            i <= entries.len(),
            forall|j: int| 0 <= j < i ==> (#[trigger] entries@[j]).0@ != name@,
        decreases entries.len() - i,
    {
        if entries[i].0 == *name {
            return Some(i);
        }
        i += 1;
    }
    None
}

impl AttrMap {
    /// An attribute map with no entries.
    pub fn new() -> (r: AttrMap)
        ensures
            r@ == Map::<Seq<char>, Seq<char>>::empty(),
    {
        let r = AttrMap { entries: Vec::new() };
        proof {
            assert(r.entry_views() =~= Seq::<(Seq<char>, Seq<char>)>::empty());
        }
        r
    }

    /// Sets the value of an attribute, replacing any previous value.
    pub fn insert(&mut self, name: String, value: String)
        ensures
            final (self)@ == old(self)@.insert(name@, value@),
    {
        proof {
            use_type_invariant(&*self);
        }
        let mut entries: Vec<(String, String)> = Vec::new();
        core::mem::swap(&mut entries, &mut self.entries);
        let ghost s0 = entries@.map_values(|p: (String, String)| (p.0@, p.1@));
        let at = position_of(&entries, &name);
        match at {
            Some(t) => {
                entries[t] = (name, value);
                proof {
                    assert(s0[t as int].0 == name@);
                    lemma_assoc_map_update(s0, t as int, value@);
                    assert(entries@.map_values(|p: (String, String)| (p.0@, p.1@)) =~= s0.update(
                        t as int,
                        (name@, value@),
                    ));
                    assert((name@, value@) == (s0[t as int].0, value@));
                }
            },
            None => {
                entries.push((name, value));
                proof {
                    assert forall|j: int| 0 <= j < s0.len() implies (#[trigger] s0[j]).0
                        != name@ by {
                        assert(old(self).entries@[j].0@ != name@);
                    }
                    lemma_assoc_map_push(s0, name@, value@);
                    assert(entries@.map_values(|p: (String, String)| (p.0@, p.1@)) =~= s0.push(
                        (name@, value@),
                    ));
                }
            },
        }
        self.entries = entries;
    }

    /// Looks an attribute up by name.
    pub fn get(&self, name: &str) -> (r: Option<&String>)
        ensures
            match r {
                Some(v) => self@.contains_key(name@) && v@ == self@[name@],
                None => !self@.contains_key(name@),
            },
    {
        proof {
            use_type_invariant(&*self);
        }
        let key = name.to_owned();
        let mut i: usize = 0;
        while i < self.entries.len()
            invariant
                i <= self.entries.len(),
                key@ == name@,
                distinct_keys(self.entry_views()),
                self@ == assoc_map(self.entry_views()),
                forall|j: int| 0 <= j < i ==> (#[trigger] self.entry_views()[j]).0 != name@,
            decreases self.entries.len() - i,
        {
            if self.entries[i].0 == key {
                proof {
                    lemma_assoc_map_index(self.entry_views(), i as int);
                }
                return Some(&self.entries[i].1);
            }
            i += 1;
        }
        proof {
            lemma_assoc_map_contains(self.entry_views(), name@);
        }
        None
    }

    /// The number of attributes.
    pub fn len(&self) -> (r: usize)
        ensures
            r == self@.len(),
    {
        proof {
            use_type_invariant(&*self);
            crate::assoc::lemma_assoc_map_len(self.entry_views());
        }
        self.entries.len()
    }
}

/// An element of the document: a tag name and an attribute mapping.
#[derive(Debug, PartialEq)]
pub struct Element {
    pub tag_name: String,
    pub attributes: AttrMap,
}

/// The mathematical content of an [`Element`].
pub struct SpecElement {
    pub tag_name: Seq<char>,
    pub attributes: Map<Seq<char>, Seq<char>>,
}

impl View for Element {
    type V = SpecElement;

    open spec fn view(&self) -> SpecElement {
        SpecElement { tag_name: self.tag_name@, attributes: self.attributes@ }
    }
}

impl Element {
    /// Builds an element node owning the given children.
    pub fn new(name: String, attributes: AttrMap, children: Vec<Box<Node>>) -> (r: Box<Node>)
        ensures
            r@ == (SpecNode {
                node_type: SpecNodeType::Element(
                    SpecElement { tag_name: name@, attributes: attributes@ },
                ),
                children: nodes_view(children@),
            }),
    {
        let ghost attrs_view = attributes@;
        let ghost children_view = children@;
        let node = Box::new(
            Node {
                node_type: NodeType::Element(Element { tag_name: name, attributes }),
                children,
            },
        );
        proof {
            crate::dom::node::lemma_node_view(&*node);
            assert(nodes_view(node.children@) == nodes_view(children_view));
        }
        node
    }
}

} // verus!
