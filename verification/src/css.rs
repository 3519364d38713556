//! The style sheet model: values, declarations, selectors and rules, with
//! verified selector matching.

use crate::dom::Node;
use crate::dom::NodeType;
use crate::dom::SpecNode;
use crate::dom::SpecNodeType;
use vstd::prelude::*;

verus! {

/// A unit for a length value.
#[derive(Debug, Clone, Copy, PartialEq, Eq, Structural)]
pub enum Unit {
    Em,
}

/// A CSS value: a keyword, or a length literal. Only keywords take part in
/// the cascade logic; any other variant classifies as an ordinary opaque
/// value.
#[derive(Debug, PartialEq)]
pub enum CSSValue {
    Keyword(String),
    Length(u64, Unit),
}

/// The mathematical content of a [`CSSValue`].
pub enum SpecCssValue {
    Keyword(Seq<char>),
    Length(u64, Unit),
}

impl View for CSSValue {
    type V = SpecCssValue;

    open spec fn view(&self) -> SpecCssValue {
        match self {
            CSSValue::Keyword(s) => SpecCssValue::Keyword(s@),
            CSSValue::Length(n, u) => SpecCssValue::Length(*n, *u),
        }
    }
}

impl CSSValue {
    /// A copy of the value.
    pub fn duplicate(&self) -> (r: CSSValue)
        ensures
            r@ == self@,
    {
        match self {
            CSSValue::Keyword(s) => CSSValue::Keyword(s.clone()),
            CSSValue::Length(n, u) => CSSValue::Length(*n, *u),
        }
    }
}

/// One declaration: a property name and the value assigned to it.
#[derive(Debug, PartialEq)]
pub struct Declaration {
    pub name: String,
    pub value: CSSValue,
}

/// The mathematical content of a [`Declaration`].
pub struct SpecDeclaration {
    pub name: Seq<char>,
    pub value: SpecCssValue,
}

impl View for Declaration {
    type V = SpecDeclaration;

    open spec fn view(&self) -> SpecDeclaration {
        SpecDeclaration { name: self.name@, value: self.value@ }
    }
}

/// How an attribute selector compares the attribute's value.
#[derive(Debug, Clone, Copy, PartialEq, Eq, Structural)]
pub enum AttributeSelectorOp {
    Eq,
}

/// A simple selector: universal, by tag name, or by tag name together with
/// an attribute comparison.
#[derive(Debug, PartialEq)]
pub enum SimpleSelector {
    UniversalSelector,
    TypeSelector { tag_name: String },
    AttributeSelector { tag_name: String, op: AttributeSelectorOp, attribute: String, value: String },
}

/// The mathematical content of a [`SimpleSelector`].
pub enum SpecSelector {
    Universal,
    Type { tag_name: Seq<char> },
    Attribute { tag_name: Seq<char>, op: AttributeSelectorOp, attribute: Seq<char>, value: Seq<char> },
}

impl View for SimpleSelector {
    type V = SpecSelector;

    open spec fn view(&self) -> SpecSelector {
        match self {
            SimpleSelector::UniversalSelector => SpecSelector::Universal,
            SimpleSelector::TypeSelector { tag_name } => SpecSelector::Type {
                tag_name: tag_name@,
            },
            SimpleSelector::AttributeSelector { tag_name, op, attribute, value } => {
                SpecSelector::Attribute {
                    tag_name: tag_name@,
                    op: *op,
                    attribute: attribute@,
                    value: value@,
                }
            },
        }
    }
}

/// Whether a selector matches a node. The universal selector matches every
/// element; the other selectors match elements by tag name, an attribute
/// selector additionally by comparing one attribute. Text nodes match no
/// selector.
pub open spec fn selector_matches(s: SpecSelector, n: SpecNode) -> bool {
    match s {
        SpecSelector::Universal => n.node_type is Element,
        SpecSelector::Type { tag_name } => match n.node_type {
            SpecNodeType::Element(e) => e.tag_name == tag_name,
            SpecNodeType::Text(_) => false,
        },
        SpecSelector::Attribute { tag_name, op, attribute, value } => match n.node_type {
            SpecNodeType::Element(e) => e.tag_name == tag_name && match op {
                AttributeSelectorOp::Eq => e.attributes.contains_key(attribute)
                    && e.attributes[attribute] == value,
            },
            SpecNodeType::Text(_) => false,
        },
    }
}

impl SimpleSelector {
    /// Whether this selector matches the node.
    pub fn matches(&self, node: &Node) -> (r: bool)
        ensures
            r == selector_matches(self@, node@),
    {
        proof {
            crate::dom::node::lemma_node_view(node);
        }
        match self {
            SimpleSelector::UniversalSelector => match &node.node_type {
                NodeType::Element(_) => true,
                NodeType::Text(_) => false,
            },
            SimpleSelector::TypeSelector { tag_name } => match &node.node_type {
                NodeType::Element(e) => e.tag_name == *tag_name,
                NodeType::Text(_) => false,
            },
            SimpleSelector::AttributeSelector { tag_name, op, attribute, value } => {
                match &node.node_type {
                    NodeType::Element(e) => {
                        if e.tag_name == *tag_name {
                            match op {
                                AttributeSelectorOp::Eq => match e.attributes.get(
                                    attribute.as_str(),
                                ) {
                                    Some(v) => *v == *value,
                                    None => false,
                                },
                            }
                        } else {
                            false
                        }
                    },
                    NodeType::Text(_) => false,
                }
            },
        }
    }
}

/// One rule: a set of alternative selectors and the declarations they apply.
#[derive(Debug, PartialEq)]
pub struct Rule {
    pub selectors: Vec<SimpleSelector>,
    pub declarations: Vec<Declaration>,
}

/// The mathematical content of a [`Rule`].
pub struct SpecRule {
    pub selectors: Seq<SpecSelector>,
    pub declarations: Seq<SpecDeclaration>,
}

impl View for Rule {
    type V = SpecRule;

    open spec fn view(&self) -> SpecRule {
        SpecRule {
            selectors: self.selectors@.map_values(|s: SimpleSelector| s@),
            declarations: self.declarations@.map_values(|d: Declaration| d@),
        }
    }
}

/// Whether a rule matches a node: some selector of the rule matches it.
pub open spec fn rule_matches(r: SpecRule, n: SpecNode) -> bool {
    exists|i: int| 0 <= i < r.selectors.len() && selector_matches(#[trigger] r.selectors[i], n)
}

impl Rule {
    /// Whether any selector of this rule matches the node.
    pub fn matches(&self, node: &Node) -> (r: bool)
        ensures
            r == rule_matches(self@, node@),
    {
        let mut i: usize = 0;
        while i < self.selectors.len()
            invariant
                i <= self.selectors.len(),
                forall|j: int| 0 <= j < i ==> !selector_matches(
                    #[trigger] self@.selectors[j],
                    node@,
                ),
            decreases self.selectors.len() - i,
        {
            if self.selectors[i].matches(node) {
                proof {
                    assert(selector_matches(self@.selectors[i as int], node@));
                }
                return true;
            }
            i += 1;
        }
        false
    }
}

/// A style sheet: rules in the order they were written. Order is
/// significant; later rules override earlier ones.
#[derive(Debug, PartialEq)]
pub struct Stylesheet {
    pub rules: Vec<Rule>,
}

impl View for Stylesheet {
    type V = Seq<SpecRule>;

    open spec fn view(&self) -> Seq<SpecRule> {
        self.rules@.map_values(|r: Rule| r@)
    }
}

impl Stylesheet {
    /// A style sheet holding the given rules, in order.
    pub fn new(rules: Vec<Rule>) -> (r: Stylesheet)
        ensures
            r@ == rules@.map_values(|x: Rule| x@),
    {
        Stylesheet { rules }
    }
}

} // verus!
