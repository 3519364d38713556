//! The style resolver: matches stylesheet rules per node, merges matched
//! declarations into a property map (later rules and later declarations
//! winning), applies the CSS initial values for `display` and `font-weight`,
//! prunes nodes whose resolved `display` is `none`, and builds the styled
//! tree for the surviving nodes.

use crate::assoc::assoc_map;
use crate::assoc::distinct_keys;
use crate::assoc::lemma_assoc_map_contains;
use crate::assoc::lemma_assoc_map_index;
use crate::assoc::lemma_assoc_map_len;
use crate::assoc::lemma_assoc_map_push;
use crate::assoc::lemma_assoc_map_update;
use crate::css::CSSValue;
use crate::css::SpecCssValue;
use crate::css::SpecDeclaration;
use crate::css::SpecRule;
use crate::css::Stylesheet;
use crate::css::rule_matches;
use crate::dom::Node;
use crate::dom::NodeType;
use crate::dom::SpecNode;
use crate::dom::SpecNodeType;
use crate::dom::node::lemma_node_view;
use crate::dom::nodes_view;
use vstd::prelude::*;

verus! {

/// The resolved properties of one node: a mapping from property names to
/// values with distinct names. Its view is that mapping.
#[derive(Debug)]
pub struct PropertyMap {
    entries: Vec<(String, CSSValue)>,
}

impl PropertyMap {
    pub closed spec fn entry_views(&self) -> Seq<(Seq<char>, SpecCssValue)> {
        self.entries@.map_values(|p: (String, CSSValue)| (p.0@, p.1@))
    }

    #[verifier::type_invariant]
    closed spec fn well_formed(&self) -> bool {
        distinct_keys(self.entry_views())
    }
}

impl View for PropertyMap {
    type V = Map<Seq<char>, SpecCssValue>;

    closed spec fn view(&self) -> Map<Seq<char>, SpecCssValue> {
        assoc_map(self.entry_views())
    }
}

/// The index of the entry carrying the given name, if there is one.
fn position_of(entries: &Vec<(String, CSSValue)>, name: &String) -> (r: Option<usize>)
    ensures
        match r {
            Some(t) => t < entries@.len() && entries@[t as int].0@ == name@,
            None => forall|j: int| 0 <= j < entries@.len() ==> (#[trigger] entries@[j]).0@
                != name@,
        },
{
    let mut i: usize = 0;
    while i < entries.len()
        invariant
            i <= entries.len(),
            forall|j: int| 0 <= j < i ==> (#[trigger] entries@[j]).0@ != name@,
        decreases entries.len() - i,
    {
        if entries[i].0 == *name {
            return Some(i);
        }
        i += 1;
    }
    None
}

impl PropertyMap {
    /// A property map with no entries.
    pub fn new() -> (r: PropertyMap)
        ensures
            r@ == Map::<Seq<char>, SpecCssValue>::empty(),
    {
        let r = PropertyMap { entries: Vec::new() };
        proof {
            assert(r.entry_views() =~= Seq::<(Seq<char>, SpecCssValue)>::empty());
        }
        r
    }

    /// Sets the value of a property, replacing any previous value.
    pub fn insert(&mut self, name: String, value: CSSValue)
        ensures
            final (self)@ == old(self)@.insert(name@, value@),
    {
        proof {
            use_type_invariant(&*self);
        }
        let mut entries: Vec<(String, CSSValue)> = Vec::new();
        core::mem::swap(&mut entries, &mut self.entries);
        let ghost s0 = entries@.map_values(|p: (String, CSSValue)| (p.0@, p.1@));
        let at = position_of(&entries, &name);
        match at {
            Some(t) => {
                entries[t] = (name, value);
                proof {
                    assert(s0[t as int].0 == name@);
                    lemma_assoc_map_update(s0, t as int, value@);
                    assert(entries@.map_values(|p: (String, CSSValue)| (p.0@, p.1@)) =~= s0.update(
                        t as int,
                        (name@, value@),
                    ));
                    assert((name@, value@) == (s0[t as int].0, value@));
                }
            },
            None => {
                entries.push((name, value));
                proof {
                    assert forall|j: int| 0 <= j < s0.len() implies (#[trigger] s0[j]).0
                        != name@ by {
                        assert(old(self).entries@[j].0@ != name@);
                    }
                    lemma_assoc_map_push(s0, name@, value@);
                    assert(entries@.map_values(|p: (String, CSSValue)| (p.0@, p.1@)) =~= s0.push(
                        (name@, value@),
                    ));
                }
            },
        }
        self.entries = entries;
    }

    /// Looks a property up by name.
    pub fn get(&self, name: &str) -> (r: Option<&CSSValue>)
        ensures
            match r {
                Some(v) => self@.contains_key(name@) && v@ == self@[name@],
                None => !self@.contains_key(name@),
            },
    {
        proof {
            use_type_invariant(&*self);
        }
        let key = name.to_owned();
        let mut i: usize = 0;
        while i < self.entries.len()
            invariant
                i <= self.entries.len(),
                key@ == name@,
                distinct_keys(self.entry_views()),
                self@ == assoc_map(self.entry_views()),
                forall|j: int| 0 <= j < i ==> (#[trigger] self.entry_views()[j]).0 != name@,
            decreases self.entries.len() - i,
        {
            if self.entries[i].0 == key {
                proof {
                    lemma_assoc_map_index(self.entry_views(), i as int);
                }
                return Some(&self.entries[i].1);
            }
            i += 1;
        }
        proof {
            lemma_assoc_map_contains(self.entry_views(), name@);
        }
        None
    }

    /// The number of properties.
    pub fn len(&self) -> (r: usize)
        ensures
            r == self@.len(),
    {
        proof {
            use_type_invariant(&*self);
            lemma_assoc_map_len(self.entry_views());
        }
        self.entries.len()
    }
}

/// How a styled node is laid out, as decided by its `display` property.
#[derive(Debug, Clone, Copy, PartialEq, Eq, Structural)]
pub enum Display {
    Inline,
    Block,
    DisplayNone,
}

/// Classifies a resolved property map for layout: keyword `block` lays out
/// as a block, keyword `none` is not rendered, anything else (including a
/// non-keyword value) lays out inline.
pub open spec fn display_spec(props: Map<Seq<char>, SpecCssValue>) -> Display {
    if props.contains_key("display"@) {
        match props["display"@] {
            SpecCssValue::Keyword(s) => if s == "block"@ {
                Display::Block
            } else if s == "none"@ {
                Display::DisplayNone
            } else {
                Display::Inline
            },
            SpecCssValue::Length(_, _) => Display::Inline,
        }
    } else {
        Display::Inline
    }
}

/// One node of the styled tree: a reference into the source document tree,
/// the node's resolved properties, and the styled children that survived
/// pruning, in document order.
#[derive(Debug)]
pub struct StyledNode<'a> {
    pub node_type: &'a NodeType,
    pub properties: PropertyMap,
    pub children: Vec<StyledNode<'a>>,
}

/// The mathematical content of a [`StyledNode`].
pub struct SpecStyledNode {
    pub node_type: SpecNodeType,
    pub properties: Map<Seq<char>, SpecCssValue>,
    pub children: Seq<SpecStyledNode>,
}

/// The view of a styled node, spelled out recursively over its children.
pub closed spec fn styled_node_view<'a>(s: StyledNode<'a>) -> SpecStyledNode
    decreases s, 0int, 0int,
{
    SpecStyledNode {
        node_type: s.node_type@,
        properties: s.properties@,
        children: styled_children_view(s.children, s.children.len() as int),
    }
}

spec fn styled_children_view<'a>(v: Vec<StyledNode<'a>>, i: int) -> Seq<SpecStyledNode>
    decreases v, 1int, i via styled_children_view_decreases
{
    if i <= 0 || i > v.len() {
        Seq::empty()
    } else {
        styled_children_view(v, i - 1).push(styled_node_view(v[i - 1]))
    }
}

#[via_fn]
proof fn styled_children_view_decreases<'a>(v: Vec<StyledNode<'a>>, i: int) {
    if 0 < i <= v.len() {
        assert(decreases_to!(v => v[i - 1]));
    }
}

impl<'a> View for StyledNode<'a> {
    type V = SpecStyledNode;

    open spec fn view(&self) -> SpecStyledNode {
        styled_node_view(*self)
    }
}

/// The views of a sequence of styled nodes, in order.
pub open spec fn styled_views<'a>(v: Seq<StyledNode<'a>>) -> Seq<SpecStyledNode> {
    Seq::new(v.len(), |i: int| v[i]@)
}

/// A styled node's view pairs the views of its parts, the children in order.
pub broadcast proof fn lemma_styled_node_view<'a>(s: &StyledNode<'a>)
    ensures
        (#[trigger] s@).node_type == s.node_type@,
        s@.properties == s.properties@,
        s@.children == styled_views(s.children@),
{
    lemma_styled_children_view(&s.children, s.children@.len() as int);
    assert(s@.children =~= styled_views(s.children@));
}

proof fn lemma_styled_children_view<'a>(v: &Vec<StyledNode<'a>>, i: int)
    requires
        0 <= i <= v.len(),
    ensures
        styled_children_view(*v, i).len() == i,
        forall|j: int| 0 <= j < i ==> styled_children_view(*v, i)[j] == v@[j]@,
    decreases i,
{
    if i > 0 {
        lemma_styled_children_view(v, i - 1);
    }
}

proof fn lemma_styled_views_push<'a>(v: Seq<StyledNode<'a>>, x: StyledNode<'a>)
    ensures
        styled_views(v.push(x)) == styled_views(v).push(x@),
{
    assert(styled_views(v.push(x)) =~= styled_views(v).push(x@));
}

/// The view of an optional styled node.
pub open spec fn styled_option_view<'a>(r: Option<StyledNode<'a>>) -> Option<SpecStyledNode> {
    match r {
        Some(s) => Some(s@),
        None => None,
    }
}

/// The map after applying the declarations in order, later declarations for
/// a name replacing earlier ones.
pub open spec fn apply_declarations(
    props: Map<Seq<char>, SpecCssValue>,
    decls: Seq<SpecDeclaration>,
) -> Map<Seq<char>, SpecCssValue>
    decreases decls.len(),
{
    if decls.len() == 0 {
        props
    } else {
        apply_declarations(props, decls.drop_last()).insert(
            decls.last().name,
            decls.last().value,
        )
    }
}

/// The properties the stylesheet itself assigns to a node: the declarations
/// of every matching rule, applied in stylesheet order.
pub open spec fn matched_properties(rules: Seq<SpecRule>, n: SpecNode) -> Map<
    Seq<char>,
    SpecCssValue,
>
    decreases rules.len(),
{
    if rules.len() == 0 {
        Map::empty()
    } else {
        let prev = matched_properties(rules.drop_last(), n);
        if rule_matches(rules.last(), n) {
            apply_declarations(prev, rules.last().declarations)
        } else {
            prev
        }
    }
}

/// Adds the CSS initial value `display: inline` when `display` is unset.
pub open spec fn default_display(props: Map<Seq<char>, SpecCssValue>) -> Map<
    Seq<char>,
    SpecCssValue,
> {
    if props.contains_key("display"@) {
        props
    } else {
        props.insert("display"@, SpecCssValue::Keyword("inline"@))
    }
}

/// Adds the CSS initial value `font-weight: normal` when `font-weight` is
/// unset.
pub open spec fn default_font_weight(props: Map<Seq<char>, SpecCssValue>) -> Map<
    Seq<char>,
    SpecCssValue,
> {
    if props.contains_key("font-weight"@) {
        props
    } else {
        props.insert("font-weight"@, SpecCssValue::Keyword("normal"@))
    }
}

/// The effective `display` value of a node: what the matching rules assign,
/// or the initial value `inline`.
pub open spec fn resolved_display(n: SpecNode, rules: Seq<SpecRule>) -> SpecCssValue {
    default_display(matched_properties(rules, n))["display"@]
}

/// Whether the node is pruned from the styled tree: its effective `display`
/// is the keyword `none`.
pub open spec fn is_pruned(n: SpecNode, rules: Seq<SpecRule>) -> bool {
    resolved_display(n, rules) == SpecCssValue::Keyword("none"@)
}

/// The full resolved property map of a surviving node: the matched
/// properties with both initial values filled in.
pub open spec fn resolved_properties(n: SpecNode, rules: Seq<SpecRule>) -> Map<
    Seq<char>,
    SpecCssValue,
> {
    default_font_weight(default_display(matched_properties(rules, n)))
}

/// What resolving a node yields: `None` when the node is pruned, otherwise
/// the styled node with its resolved properties and its surviving children.
pub open spec fn resolve_spec(n: SpecNode, rules: Seq<SpecRule>) -> Option<SpecStyledNode>
    decreases n, 0int,
{
    if is_pruned(n, rules) {
        None
    } else {
        Some(
            SpecStyledNode {
                node_type: n.node_type,
                properties: resolved_properties(n, rules),
                children: resolve_prefix(n.children, rules, n.children.len() as int),
            },
        )
    }
}

/// The styled nodes obtained from the first `i` nodes of the sequence:
/// resolved in order, with pruned nodes left out.
pub open spec fn resolve_prefix(nodes: Seq<SpecNode>, rules: Seq<SpecRule>, i: int) -> Seq<
    SpecStyledNode,
>
    decreases nodes, i via resolve_prefix_decreases
{
    if i <= 0 || i > nodes.len() {
        Seq::empty()
    } else {
        let rest = resolve_prefix(nodes, rules, i - 1);
        match resolve_spec(nodes[i - 1], rules) {
            Some(s) => rest.push(s),
            None => rest,
        }
    }
}

#[via_fn]
proof fn resolve_prefix_decreases(nodes: Seq<SpecNode>, rules: Seq<SpecRule>, i: int) {
    if 0 < i <= nodes.len() {
        assert(decreases_to!(nodes => nodes[i - 1]));
    }
}

/// The styled nodes obtained from a sequence of nodes: resolved in order,
/// with pruned nodes left out.
pub open spec fn resolve_children_spec(nodes: Seq<SpecNode>, rules: Seq<SpecRule>) -> Seq<
    SpecStyledNode,
> {
    resolve_prefix(nodes, rules, nodes.len() as int)
}

/// Resolves each node of the sequence against the stylesheet, in order,
/// dropping pruned nodes and keeping the relative order of the survivors.
pub fn to_styled_nodes<'a>(nodes: &'a Vec<Box<Node>>, stylesheet: &Stylesheet) -> (r: Vec<
    StyledNode<'a>,
>)
    ensures
        styled_views(r@) == resolve_children_spec(nodes_view(nodes@), stylesheet@),
    decreases *nodes, 1int,
{
    let ghost n_specs = nodes_view(nodes@);
    let ghost rules = stylesheet@;
    let mut r: Vec<StyledNode<'a>> = Vec::new();
    let mut i: usize = 0;
    while i < nodes.len()
        invariant
            i <= nodes.len(),
            n_specs == nodes_view(nodes@),
            rules == stylesheet@,
            styled_views(r@) == resolve_prefix(n_specs, rules, i as int),
        decreases nodes.len() - i,
    {
        let ghost r_before = r@;
        match to_styled_node(&nodes[i], stylesheet) {
            Some(styled) => {
                proof {
                    lemma_styled_views_push(r_before, styled);
                }
                r.push(styled);
            },
            None => {},
        }
        i += 1;
    }
    r
}

/// Resolves one node against the stylesheet: `None` when the node's
/// effective `display` is the keyword `none`, otherwise the styled node
/// carrying the node's resolved properties and its surviving styled
/// children.
pub fn to_styled_node<'a>(node: &'a Box<Node>, stylesheet: &Stylesheet) -> (r: Option<
    StyledNode<'a>,
>)
    ensures
        styled_option_view(r) == resolve_spec(node@, stylesheet@),
    decreases *node, 0int,
{
    proof {
        lemma_node_view(&**node);
    }
    let ghost n_spec = node@;
    let ghost rules = stylesheet@;

    let children = to_styled_nodes(&node.children, stylesheet);

    let mut properties = PropertyMap::new();
    let mut j: usize = 0;
    while j < stylesheet.rules.len()
        invariant
            j <= stylesheet.rules.len(),
            n_spec == node@,
            rules == stylesheet@,
            properties@ == matched_properties(rules.take(j as int), n_spec),
        decreases stylesheet.rules.len() - j,
    {
        let rule = &stylesheet.rules[j];
        let ghost r_spec = rule@;
        let ghost props_before = properties@;
        if rule.matches(&**node) {
            let mut k: usize = 0;
            while k < rule.declarations.len()
                invariant
                    k <= rule.declarations.len(),
                    r_spec == rule@,
                    properties@ == apply_declarations(
                        props_before,
                        r_spec.declarations.take(k as int),
                    ),
                decreases rule.declarations.len() - k,
            {
                let decl = &rule.declarations[k];
                properties.insert(decl.name.clone(), decl.value.duplicate());
                proof {
                    assert(r_spec.declarations.take(k + 1).drop_last() =~= r_spec.declarations.take(
                        k as int,
                    ));
                    assert(r_spec.declarations.take(k + 1).last() == r_spec.declarations[k as int]);
                }
                k += 1;
            }
            proof {
                assert(r_spec.declarations.take(rule.declarations@.len() as int)
                    =~= r_spec.declarations);
            }
        }
        proof {
            assert(rules.take(j + 1).drop_last() =~= rules.take(j as int));
            assert(rules.take(j + 1).last() == rules[j as int]);
        }
        j += 1;
    }
    proof {
        assert(rules.take(stylesheet.rules@.len() as int) =~= rules);
    }

    // set the initial display value `inline` if the rules left it unset
    let has_display = match properties.get("display") {
        Some(_) => true,
        None => false,
    };
    if !has_display {
        properties.insert(String::from_str("display"), CSSValue::Keyword(String::from_str("inline")));
    }

    // a node whose display resolves to the keyword `none` is not rendered
    let pruned = match properties.get("display") {
        Some(v) => match v {
            CSSValue::Keyword(s) => *s == String::from_str("none"),
            CSSValue::Length(_, _) => false,
        },
        None => false,
    };
    if pruned {
        return None;
    }

    // set the initial font-weight value `normal` if the rules left it unset
    let has_font_weight = match properties.get("font-weight") {
        Some(_) => true,
        None => false,
    };
    if !has_font_weight {
        properties.insert(
            String::from_str("font-weight"),
            CSSValue::Keyword(String::from_str("normal")),
        );
    }

    let styled = StyledNode { node_type: &node.node_type, properties, children };
    proof {
        lemma_styled_node_view(&styled);
    }
    Some(styled)
}

/// Whether some declaration of the sequence sets the given property name.
pub open spec fn sets_property(decls: Seq<SpecDeclaration>, name: Seq<char>) -> bool {
    exists|j: int| 0 <= j < decls.len() && (#[trigger] decls[j]).name == name
}

/// For a name that some declaration of the sequence sets: the value of the
/// last declaration that sets it.
pub open spec fn last_declared_value(decls: Seq<SpecDeclaration>, name: Seq<char>) -> SpecCssValue
    decreases decls.len(),
{
    if decls.len() == 0 {
        arbitrary()
    } else if decls.last().name == name {
        decls.last().value
    } else {
        last_declared_value(decls.drop_last(), name)
    }
}

proof fn lemma_apply_declarations_absent(
    props: Map<Seq<char>, SpecCssValue>,
    decls: Seq<SpecDeclaration>,
    name: Seq<char>,
)
    requires
        !sets_property(decls, name),
    ensures
        apply_declarations(props, decls).contains_key(name) == props.contains_key(name),
        props.contains_key(name) ==> apply_declarations(props, decls)[name] == props[name],
    decreases decls.len(),
{
    if decls.len() > 0 {
        assert(decls[decls.len() - 1].name != name);
        assert(!sets_property(decls.drop_last(), name)) by {
            if sets_property(decls.drop_last(), name) {
                let j = choose|j: int|
                    0 <= j < decls.drop_last().len() && (#[trigger] decls.drop_last()[j]).name
                        == name;
                assert(decls[j].name == name);
            }
        }
        lemma_apply_declarations_absent(props, decls.drop_last(), name);
    }
}

proof fn lemma_apply_declarations_sets(
    props: Map<Seq<char>, SpecCssValue>,
    decls: Seq<SpecDeclaration>,
    name: Seq<char>,
)
    requires
        sets_property(decls, name),
    ensures
        apply_declarations(props, decls).contains_key(name),
        apply_declarations(props, decls)[name] == last_declared_value(decls, name),
    decreases decls.len(),
{
    if decls.last().name != name {
        assert(sets_property(decls.drop_last(), name)) by {
            let j = choose|j: int| 0 <= j < decls.len() && (#[trigger] decls[j]).name == name;
            assert(decls.drop_last()[j].name == name);
        }
        lemma_apply_declarations_sets(props, decls.drop_last(), name);
    }
}

proof fn lemma_matched_properties_absent(rules: Seq<SpecRule>, n: SpecNode, name: Seq<char>)
    requires
        forall|i: int| 0 <= i < rules.len() && rule_matches(#[trigger] rules[i], n)
            ==> !sets_property(rules[i].declarations, name),
    ensures
        !matched_properties(rules, n).contains_key(name),
    decreases rules.len(),
{
    if rules.len() > 0 {
        let d = rules.drop_last();
        assert forall|i: int| 0 <= i < d.len() && rule_matches(#[trigger] d[i], n)
            implies !sets_property(d[i].declarations, name) by {
            assert(d[i] == rules[i]);
        }
        lemma_matched_properties_absent(d, n, name);
        if rule_matches(rules.last(), n) {
            assert(rules[rules.len() - 1] == rules.last());
            lemma_apply_declarations_absent(
                matched_properties(d, n),
                rules.last().declarations,
                name,
            );
        }
    }
}

/// Last-rule-wins: when rule `j` matches the node and sets a property, and
/// no matching rule after it sets that property, then the property's matched
/// value is the one rule `j` declares last.
pub proof fn lemma_last_match_wins(rules: Seq<SpecRule>, n: SpecNode, j: int, name: Seq<char>)
    requires
        0 <= j < rules.len(),
        rule_matches(rules[j], n),
        sets_property(rules[j].declarations, name),
        forall|k: int| j < k < rules.len() && rule_matches(#[trigger] rules[k], n)
            ==> !sets_property(rules[k].declarations, name),
    ensures
        matched_properties(rules, n).contains_key(name),
        matched_properties(rules, n)[name] == last_declared_value(rules[j].declarations, name),
    decreases rules.len(),
{
    let d = rules.drop_last();
    if j == rules.len() - 1 {
        assert(rules.last() == rules[j]);
        lemma_apply_declarations_sets(matched_properties(d, n), rules[j].declarations, name);
    } else {
        assert(d[j] == rules[j]);
        assert forall|k: int| j < k < d.len() && rule_matches(#[trigger] d[k], n)
            implies !sets_property(d[k].declarations, name) by {
            assert(d[k] == rules[k]);
        }
        lemma_last_match_wins(d, n, j, name);
        if rule_matches(rules.last(), n) {
            assert(rules[rules.len() - 1] == rules.last());
            assert(!sets_property(rules.last().declarations, name));
            lemma_apply_declarations_absent(
                matched_properties(d, n),
                rules.last().declarations,
                name,
            );
        }
    }
}

/// Default display: a node that no matching rule gives a `display` property
/// resolves (it is not pruned), and its resolved `display` is the initial
/// value, the keyword `inline`.
pub proof fn lemma_default_display(n: SpecNode, rules: Seq<SpecRule>)
    requires
        forall|i: int| 0 <= i < rules.len() && rule_matches(#[trigger] rules[i], n)
            ==> !sets_property(rules[i].declarations, "display"@),
    ensures
        resolve_spec(n, rules) matches Some(s) && s.properties["display"@]
            == SpecCssValue::Keyword("inline"@),
{
    reveal_strlit("display");
    reveal_strlit("font-weight");
    reveal_strlit("inline");
    reveal_strlit("none");
    lemma_matched_properties_absent(rules, n, "display"@);
    assert("inline"@ != "none"@) by {
        assert("inline"@.len() == 6);
        assert("none"@.len() == 4);
    }
    assert("font-weight"@ != "display"@) by {
        assert("font-weight"@.len() == 11);
        assert("display"@.len() == 7);
    }
    assert(!is_pruned(n, rules));
}

/// Default font-weight: when no matching rule gives a node a `font-weight`
/// property and the node resolves, its resolved `font-weight` is the initial
/// value, the keyword `normal`.
pub proof fn lemma_default_font_weight(n: SpecNode, rules: Seq<SpecRule>)
    requires
        forall|i: int| 0 <= i < rules.len() && rule_matches(#[trigger] rules[i], n)
            ==> !sets_property(rules[i].declarations, "font-weight"@),
    ensures
        resolve_spec(n, rules) matches Some(s) ==> s.properties["font-weight"@]
            == SpecCssValue::Keyword("normal"@),
{
    reveal_strlit("display");
    reveal_strlit("font-weight");
    lemma_matched_properties_absent(rules, n, "font-weight"@);
    assert("font-weight"@ != "display"@) by {
        assert("font-weight"@.len() == 11);
        assert("display"@.len() == 7);
    }
}

/// Pruning, first half: a node whose effective `display` resolves to the
/// keyword `none` resolves to `None`, whatever its children hold.
pub proof fn lemma_display_none_prunes(n: SpecNode, rules: Seq<SpecRule>)
    requires
        resolved_display(n, rules) == SpecCssValue::Keyword("none"@),
    ensures
        resolve_spec(n, rules) is None,
{
}

proof fn lemma_resolve_prefix_agree(a: Seq<SpecNode>, b: Seq<SpecNode>, rules: Seq<SpecRule>, m: int)
    requires
        0 <= m <= a.len(),
        m <= b.len(),
        forall|t: int| 0 <= t < m ==> a[t] == b[t],
    ensures
        resolve_prefix(a, rules, m) == resolve_prefix(b, rules, m),
    decreases m,
{
    if m > 0 {
        lemma_resolve_prefix_agree(a, b, rules, m - 1);
    }
}

proof fn lemma_resolve_prefix_remove(nodes: Seq<SpecNode>, rules: Seq<SpecRule>, i: int, m: int)
    requires
        0 <= i < nodes.len(),
        i < m <= nodes.len(),
        resolve_spec(nodes[i], rules) is None,
    ensures
        resolve_prefix(nodes, rules, m) == resolve_prefix(nodes.remove(i), rules, m - 1),
    decreases m,
{
    let b = nodes.remove(i);
    assert(b.len() == nodes.len() - 1);
    assert(forall|t: int| 0 <= t < i ==> b[t] == nodes[t]);
    assert(forall|t: int| i <= t < b.len() ==> b[t] == nodes[t + 1]);
    if m == i + 1 {
        lemma_resolve_prefix_agree(nodes, b, rules, i);
    } else {
        lemma_resolve_prefix_remove(nodes, rules, i, m - 1);
        assert(b[m - 2] == nodes[m - 1]);
    }
}

/// Pruning, second half: a pruned node is simply absent from its parent's
/// resolved children; the others resolve exactly as if it were not there.
pub proof fn lemma_pruned_child_absent(nodes: Seq<SpecNode>, rules: Seq<SpecRule>, i: int)
    requires
        0 <= i < nodes.len(),
        resolve_spec(nodes[i], rules) is None,
    ensures
        resolve_children_spec(nodes, rules) == resolve_children_spec(nodes.remove(i), rules),
{
    lemma_resolve_prefix_remove(nodes, rules, i, nodes.len() as int);
}

/// The styled node a surviving node resolves to.
pub open spec fn resolved_of(c: SpecNode, rules: Seq<SpecRule>) -> SpecStyledNode {
    match resolve_spec(c, rules) {
        Some(s) => s,
        None => arbitrary(),
    }
}

/// Order preservation: the resolved children are exactly the surviving
/// children, styled, in their document order.
pub proof fn lemma_order_preserved(nodes: Seq<SpecNode>, rules: Seq<SpecRule>)
    ensures
        resolve_children_spec(nodes, rules) == nodes.filter(
            |c: SpecNode| resolve_spec(c, rules) is Some,
        ).map_values(|c: SpecNode| resolved_of(c, rules)),
    decreases nodes.len(),
{
    reveal(Seq::filter);
    if nodes.len() == 0 {
        assert(resolve_children_spec(nodes, rules) =~= nodes.filter(
            |c: SpecNode| resolve_spec(c, rules) is Some,
        ).map_values(|c: SpecNode| resolved_of(c, rules)));
    } else {
        let d = nodes.drop_last();
        lemma_order_preserved(d, rules);
        lemma_resolve_prefix_agree(nodes, d, rules, d.len() as int);
        assert(resolve_prefix(nodes, rules, nodes.len() as int) == resolve_prefix(
            d,
            rules,
            d.len() as int,
        ) + (match resolve_spec(nodes.last(), rules) {
            Some(s) => seq![s],
            None => Seq::empty(),
        })) by {
            if resolve_spec(nodes.last(), rules) is Some {
                assert(resolve_prefix(nodes, rules, nodes.len() as int) =~= resolve_prefix(
                    nodes,
                    rules,
                    nodes.len() - 1,
                ) + seq![resolve_spec(nodes.last(), rules)->Some_0]);
            } else {
                assert(resolve_prefix(nodes, rules, nodes.len() as int) =~= resolve_prefix(
                    nodes,
                    rules,
                    nodes.len() - 1,
                ) + Seq::<SpecStyledNode>::empty());
            }
        }
        assert(resolve_children_spec(nodes, rules) =~= nodes.filter(
            |c: SpecNode| resolve_spec(c, rules) is Some,
        ).map_values(|c: SpecNode| resolved_of(c, rules)));
    }
}

/// Every styled node's property map carries a `display` and a `font-weight`
/// entry, so consumers need no missing-key handling for either.
pub proof fn lemma_resolved_properties_complete(n: SpecNode, rules: Seq<SpecRule>)
    ensures
        resolve_spec(n, rules) matches Some(s) ==> s.properties.contains_key("display"@)
            && s.properties.contains_key("font-weight"@),
{
}

/// Idempotence: resolution is a function of the node and the stylesheet
/// alone, so two resolutions of the same pair are structurally equal.
pub proof fn lemma_resolution_deterministic(
    n: SpecNode,
    rules: Seq<SpecRule>,
    r1: Option<SpecStyledNode>,
    r2: Option<SpecStyledNode>,
)
    requires
        r1 == resolve_spec(n, rules),
        r2 == resolve_spec(n, rules),
    ensures
        r1 == r2,
{
}

impl<'a> StyledNode<'a> {
    /// The layout class of this node, read from its `display` property.
    pub fn display(&self) -> (r: Display)
        ensures
            r == display_spec(self@.properties),
    {
        proof {
            lemma_styled_node_view(self);
        }
        match self.properties.get("display") {
            Some(v) => match v {
                CSSValue::Keyword(s) => {
                    if *s == String::from_str("block") {
                        Display::Block
                    } else if *s == String::from_str("none") {
                        Display::DisplayNone
                    } else {
                        Display::Inline
                    }
                },
                CSSValue::Length(_, _) => Display::Inline,
            },
            None => Display::Inline,
        }
    }
}

} // verus!
