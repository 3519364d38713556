use style_resolver::css::AttributeSelectorOp;
use style_resolver::css::CSSValue;
use style_resolver::css::Declaration;
use style_resolver::css::Rule;
use style_resolver::css::SimpleSelector;
use style_resolver::css::Stylesheet;
use style_resolver::css::Unit;
use style_resolver::dom::AttrMap;
use style_resolver::dom::Element;
use style_resolver::dom::Node;
use style_resolver::dom::NodeType;
use style_resolver::dom::Text;
use style_resolver::style::to_styled_node;
use style_resolver::style::to_styled_nodes;
use style_resolver::style::Display;
use style_resolver::style::PropertyMap;
use style_resolver::style::StyledNode;

fn attrs(pairs: &[(&str, &str)]) -> AttrMap {
    let mut m = AttrMap::new();
    for (k, v) in pairs {
        m.insert(k.to_string(), v.to_string());
    }
    m
}

fn keyword(s: &str) -> CSSValue {
    CSSValue::Keyword(s.to_string())
}

fn declaration(name: &str, value: &str) -> Declaration {
    Declaration {
        name: name.to_string(),
        value: keyword(value),
    }
}

fn type_selector(tag: &str) -> SimpleSelector {
    SimpleSelector::TypeSelector {
        tag_name: tag.to_string(),
    }
}

fn text_node(data: &str) -> Box<Node> {
    Box::new(Node {
        node_type: NodeType::Text(Text {
            data: data.to_string(),
        }),
        children: vec![],
    })
}

/// Asserts that the map holds exactly the given keyword properties.
fn assert_props(props: &PropertyMap, expected: &[(&str, &str)]) {
    assert_eq!(props.len(), expected.len());
    for (k, v) in expected {
        assert_eq!(props.get(k), Some(&keyword(v)));
    }
}

#[test]
fn test_to_styled_node_single() {
    let e = &Element::new("p".to_string(), attrs(&[("id", "test")]), vec![]);
    let testcases: Vec<(Stylesheet, Vec<(&str, &str)>)> = vec![
        (
            // * { display: block; }
            Stylesheet::new(vec![Rule {
                selectors: vec![SimpleSelector::UniversalSelector],
                declarations: vec![declaration("display", "block")],
            }]),
            vec![("display", "block"), ("font-weight", "normal")],
        ),
        (
            // div { display: block; }
            Stylesheet::new(vec![Rule {
                selectors: vec![type_selector("div")],
                declarations: vec![declaration("display", "block")],
            }]),
            vec![("display", "inline"), ("font-weight", "normal")],
        ),
        (
            // * { display: block; }
            // div { display: inline; }
            Stylesheet::new(vec![
                Rule {
                    selectors: vec![SimpleSelector::UniversalSelector],
                    declarations: vec![declaration("display", "block")],
                },
                Rule {
                    selectors: vec![type_selector("div")],
                    declarations: vec![declaration("display", "inline")],
                },
            ]),
            vec![("display", "block"), ("font-weight", "normal")],
        ),
        (
            // * { display: block; }
            // p { display: inline; testname: testvalue; }
            Stylesheet::new(vec![
                Rule {
                    selectors: vec![SimpleSelector::UniversalSelector],
                    declarations: vec![declaration("display", "block")],
                },
                Rule {
                    selectors: vec![type_selector("p")],
                    declarations: vec![
                        declaration("display", "inline"),
                        declaration("testname", "testvalue"),
                    ],
                },
            ]),
            vec![
                ("display", "inline"),
                ("font-weight", "normal"),
                ("testname", "testvalue"),
            ],
        ),
        (
            // * { display: block; }
            // p[id=hello] { testname: testvalue; }
            Stylesheet::new(vec![
                Rule {
                    selectors: vec![SimpleSelector::UniversalSelector],
                    declarations: vec![declaration("display", "block")],
                },
                Rule {
                    selectors: vec![SimpleSelector::AttributeSelector {
                        tag_name: "p".to_string(),
                        op: AttributeSelectorOp::Eq,
                        attribute: "id".to_string(),
                        value: "hello".to_string(),
                    }],
                    declarations: vec![declaration("testname", "testvalue")],
                },
            ]),
            vec![("display", "block"), ("font-weight", "normal")],
        ),
        (
            // * { display: block; }
            // p[id=test] { testname: testvalue; }
            Stylesheet::new(vec![
                Rule {
                    selectors: vec![SimpleSelector::UniversalSelector],
                    declarations: vec![declaration("display", "block")],
                },
                Rule {
                    selectors: vec![SimpleSelector::AttributeSelector {
                        tag_name: "p".to_string(),
                        op: AttributeSelectorOp::Eq,
                        attribute: "id".to_string(),
                        value: "test".to_string(),
                    }],
                    declarations: vec![declaration("testname", "testvalue")],
                },
            ]),
            vec![
                ("display", "block"),
                ("font-weight", "normal"),
                ("testname", "testvalue"),
            ],
        ),
    ];

    for (stylesheet, properties) in testcases {
        let styled = to_styled_node(e, &stylesheet).unwrap();
        assert_eq!(styled.node_type, &e.node_type);
        assert_props(&styled.properties, &properties);
        assert_eq!(styled.children.len(), 0);
    }
}

#[test]
fn test_to_styled_node_nested() {
    let parent = &Element::new(
        "div".to_string(),
        attrs(&[("id", "test")]),
        vec![Element::new(
            "p".to_string(),
            attrs(&[("id", "test")]),
            vec![],
        )],
    );
    let child_node_type = Element::new("p".to_string(), attrs(&[("id", "test")]), vec![]).node_type;

    {
        // * { display: block; }
        let stylesheet = Stylesheet::new(vec![Rule {
            selectors: vec![SimpleSelector::UniversalSelector],
            declarations: vec![declaration("display", "block")],
        }]);

        let styled = to_styled_node(parent, &stylesheet).unwrap();
        assert_eq!(styled.node_type, &parent.node_type);
        assert_props(
            &styled.properties,
            &[("display", "block"), ("font-weight", "normal")],
        );
        assert_eq!(styled.children.len(), 1);
        assert_eq!(styled.children[0].node_type, &child_node_type);
        assert_props(
            &styled.children[0].properties,
            &[("display", "block"), ("font-weight", "normal")],
        );
        assert_eq!(styled.children[0].children.len(), 0);
    }

    {
        // p { display: block; }
        let stylesheet = Stylesheet::new(vec![Rule {
            selectors: vec![type_selector("p")],
            declarations: vec![declaration("display", "block")],
        }]);

        let styled = to_styled_node(parent, &stylesheet).unwrap();
        assert_eq!(styled.node_type, &parent.node_type);
        assert_props(
            &styled.properties,
            &[("display", "inline"), ("font-weight", "normal")],
        );
        assert_eq!(styled.children.len(), 1);
        assert_eq!(styled.children[0].node_type, &child_node_type);
        assert_props(
            &styled.children[0].properties,
            &[("display", "block"), ("font-weight", "normal")],
        );
        assert_eq!(styled.children[0].children.len(), 0);
    }
}

#[test]
fn test_to_styled_node_nested_single() {
    let parent = &Element::new("div".to_string(), attrs(&[("id", "test")]), vec![]);

    // div { display: none; }
    let stylesheet = Stylesheet::new(vec![Rule {
        selectors: vec![type_selector("div")],
        declarations: vec![declaration("display", "none")],
    }]);

    assert!(to_styled_node(parent, &stylesheet).is_none());
}

#[test]
fn test_to_styled_node_nested_none() {
    let parent = &Element::new(
        "div".to_string(),
        attrs(&[("id", "test")]),
        vec![Element::new(
            "p".to_string(),
            attrs(&[("id", "test")]),
            vec![],
        )],
    );

    // p { display: none; }
    let stylesheet = Stylesheet::new(vec![Rule {
        selectors: vec![type_selector("p")],
        declarations: vec![declaration("display", "none")],
    }]);

    let styled = to_styled_node(parent, &stylesheet).unwrap();
    assert_eq!(styled.node_type, &parent.node_type);
    assert_props(
        &styled.properties,
        &[("display", "inline"), ("font-weight", "normal")],
    );
    assert_eq!(styled.children.len(), 0);
}

#[test]
fn test_default_properties() {
    // an element matched by no rule gets exactly the two initial values
    let e = Element::new("p".to_string(), AttrMap::new(), vec![]);
    let stylesheet = Stylesheet::new(vec![]);
    let styled = to_styled_node(&e, &stylesheet).unwrap();
    assert_props(
        &styled.properties,
        &[("display", "inline"), ("font-weight", "normal")],
    );
}

#[test]
fn test_last_rule_wins() {
    let e = Element::new("p".to_string(), AttrMap::new(), vec![]);

    // p { display: block; }
    // p { display: inline; }
    let stylesheet = Stylesheet::new(vec![
        Rule {
            selectors: vec![type_selector("p")],
            declarations: vec![declaration("display", "block")],
        },
        Rule {
            selectors: vec![type_selector("p")],
            declarations: vec![declaration("display", "inline")],
        },
    ]);
    let styled = to_styled_node(&e, &stylesheet).unwrap();
    assert_eq!(styled.properties.get("display"), Some(&keyword("inline")));

    // within one rule, the later declaration for a name wins too
    let stylesheet = Stylesheet::new(vec![Rule {
        selectors: vec![type_selector("p")],
        declarations: vec![
            declaration("color", "red"),
            declaration("color", "green"),
        ],
    }]);
    let styled = to_styled_node(&e, &stylesheet).unwrap();
    assert_eq!(styled.properties.get("color"), Some(&keyword("green")));
}

#[test]
fn test_order_preservation() {
    let first = Element::new("p".to_string(), attrs(&[("id", "first")]), vec![]);
    let second = Element::new("p".to_string(), attrs(&[("id", "second")]), vec![]);
    let parent = Element::new(
        "div".to_string(),
        AttrMap::new(),
        vec![
            Element::new("p".to_string(), attrs(&[("id", "first")]), vec![]),
            Element::new("span".to_string(), AttrMap::new(), vec![]),
            Element::new("p".to_string(), attrs(&[("id", "second")]), vec![]),
        ],
    );

    // span { display: none; }
    let stylesheet = Stylesheet::new(vec![Rule {
        selectors: vec![type_selector("span")],
        declarations: vec![declaration("display", "none")],
    }]);

    let styled = to_styled_node(&parent, &stylesheet).unwrap();
    assert_eq!(styled.children.len(), 2);
    assert_eq!(styled.children[0].node_type, &first.node_type);
    assert_eq!(styled.children[1].node_type, &second.node_type);
}

#[test]
fn test_idempotence() {
    let parent = &Element::new(
        "div".to_string(),
        attrs(&[("id", "test")]),
        vec![Element::new("p".to_string(), AttrMap::new(), vec![])],
    );
    let stylesheet = Stylesheet::new(vec![Rule {
        selectors: vec![SimpleSelector::UniversalSelector],
        declarations: vec![declaration("display", "block")],
    }]);

    let a = to_styled_node(parent, &stylesheet).unwrap();
    let b = to_styled_node(parent, &stylesheet).unwrap();
    assert_eq!(a.node_type, b.node_type);
    assert_eq!(a.properties.len(), b.properties.len());
    for name in ["display", "font-weight"] {
        assert_eq!(a.properties.get(name), b.properties.get(name));
    }
    assert_eq!(a.children.len(), b.children.len());
    assert_eq!(a.children[0].node_type, b.children[0].node_type);
    assert_eq!(a.children[0].properties.len(), b.children[0].properties.len());
    for name in ["display", "font-weight"] {
        assert_eq!(
            a.children[0].properties.get(name),
            b.children[0].properties.get(name)
        );
    }
}

#[test]
fn test_display_classification() {
    let e = Element::new("p".to_string(), AttrMap::new(), vec![]);

    // p { display: block; }
    let stylesheet = Stylesheet::new(vec![Rule {
        selectors: vec![type_selector("p")],
        declarations: vec![declaration("display", "block")],
    }]);
    let styled = to_styled_node(&e, &stylesheet).unwrap();
    assert_eq!(styled.display(), Display::Block);

    // unmatched: initial value `inline`
    let stylesheet = Stylesheet::new(vec![]);
    let styled = to_styled_node(&e, &stylesheet).unwrap();
    assert_eq!(styled.display(), Display::Inline);

    // a map whose display is the keyword `none` classifies as not rendered
    let mut properties = PropertyMap::new();
    properties.insert("display".to_string(), keyword("none"));
    let styled = StyledNode {
        node_type: &e.node_type,
        properties,
        children: vec![],
    };
    assert_eq!(styled.display(), Display::DisplayNone);

    // a non-keyword display value degrades to inline
    let mut properties = PropertyMap::new();
    properties.insert("display".to_string(), CSSValue::Length(2, Unit::Em));
    let styled = StyledNode {
        node_type: &e.node_type,
        properties,
        children: vec![],
    };
    assert_eq!(styled.display(), Display::Inline);
}

#[test]
fn test_universal_selector_is_element_only() {
    // the universal selector matches every element, but not a text node:
    // * { display: none; } prunes elements while raw text survives
    let stylesheet = Stylesheet::new(vec![Rule {
        selectors: vec![SimpleSelector::UniversalSelector],
        declarations: vec![declaration("display", "none")],
    }]);

    let e = Element::new("p".to_string(), AttrMap::new(), vec![]);
    assert!(to_styled_node(&e, &stylesheet).is_none());

    let t = text_node("hello");
    let styled = to_styled_node(&t, &stylesheet).unwrap();
    assert_props(
        &styled.properties,
        &[("display", "inline"), ("font-weight", "normal")],
    );
}

#[test]
fn test_to_styled_nodes_filters_and_orders() {
    let nodes = vec![
        Element::new("p".to_string(), AttrMap::new(), vec![]),
        Element::new("span".to_string(), AttrMap::new(), vec![]),
        Element::new("p".to_string(), AttrMap::new(), vec![]),
    ];
    // span { display: none; }
    let stylesheet = Stylesheet::new(vec![Rule {
        selectors: vec![type_selector("span")],
        declarations: vec![declaration("display", "none")],
    }]);
    let styled = to_styled_nodes(&nodes, &stylesheet);
    assert_eq!(styled.len(), 2);
    assert_eq!(styled[0].node_type, &nodes[0].node_type);
    assert_eq!(styled[1].node_type, &nodes[2].node_type);
}

#[test]
fn test_attr_map() {
    let mut m = AttrMap::new();
    assert_eq!(m.len(), 0);
    assert_eq!(m.get("id"), None);
    m.insert("id".to_string(), "first".to_string());
    m.insert("class".to_string(), "wide".to_string());
    m.insert("id".to_string(), "second".to_string());
    assert_eq!(m.len(), 2);
    assert_eq!(m.get("id"), Some(&"second".to_string()));
    assert_eq!(m.get("class"), Some(&"wide".to_string()));
}

#[test]
fn test_property_map_upsert() {
    let mut props = PropertyMap::new();
    assert_eq!(props.len(), 0);
    assert_eq!(props.get("display"), None);
    props.insert("display".to_string(), keyword("block"));
    props.insert("display".to_string(), keyword("inline"));
    assert_eq!(props.len(), 1);
    assert_eq!(props.get("display"), Some(&keyword("inline")));
}

#[test]
fn test_inner_text() {
    let tree = Element::new(
        "div".to_string(),
        AttrMap::new(),
        vec![
            text_node("hello "),
            Element::new(
                "p".to_string(),
                AttrMap::new(),
                vec![text_node("brave new ")],
            ),
            text_node("world"),
        ],
    );
    assert_eq!(tree.inner_text(), "hello brave new world".to_string());

    let empty = Element::new("div".to_string(), AttrMap::new(), vec![]);
    assert_eq!(empty.inner_text(), "".to_string());

    // a text node's own payload is part of its text content
    assert_eq!(text_node("x").inner_text(), "x".to_string());

    // the type permits children on a text node; their text follows its own
    let text_with_child = Node {
        node_type: NodeType::Text(Text {
            data: "x".to_string(),
        }),
        children: vec![text_node("y")],
    };
    assert_eq!(text_with_child.inner_text(), "xy".to_string());
}
