use browser_core::css::{css_value, declaration, declarations, parse_css};
use browser_core::cssom::{CSSValue, Declaration, Unit};
use browser_core::dom::{AttrMap, Node};
use browser_core::html::{nodes_, parse_elements, parse_html, parse_text};

fn chars(s: &str) -> Vec<char> {
    s.chars().collect()
}

#[test]
fn test_css_value() {
    let white = chars("white");
    assert_eq!(
        css_value(&white, 0),
        Some((CSSValue::Keyword("white".to_string()), 5))
    );
    let em = chars("100em");
    assert_eq!(
        css_value(&em, 0),
        Some((CSSValue::Length((100usize, Unit::Em)), 5))
    );
    let px = chars("100px");
    assert_eq!(
        css_value(&px, 0),
        Some((CSSValue::Length((100usize, Unit::Px)), 5))
    );
}

#[test]
fn test_css_value_percent() {
    let percent = chars("100%");
    assert_eq!(
        css_value(&percent, 0),
        Some((CSSValue::Length((100usize, Unit::Percent)), 4))
    );
}

#[test]
fn test_css_value_overflow_rejected() {
    let huge = chars("99999999999999999999999999999999999999px");
    assert_eq!(css_value(&huge, 0), None);
}

#[test]
fn test_declaration() {
    let input = chars("width: 100px;");
    let (decl, rest) = declaration(&input, 0).unwrap();
    assert_eq!(
        decl,
        Declaration {
            name: "width".to_string(),
            value: CSSValue::Length((100usize, Unit::Px)),
        }
    );
    // the trailing `;` is left for the declaration-list level
    assert_eq!(rest, input.len() - 1);
}

#[test]
fn test_declarations() {
    let input = chars("foo: bar; piyo: piyopiyo;");
    let (decls, rest) = declarations(&input, 0);
    assert_eq!(
        decls,
        vec![
            Declaration {
                name: "foo".to_string(),
                value: CSSValue::Keyword("bar".to_string()),
            },
            Declaration {
                name: "piyo".to_string(),
                value: CSSValue::Keyword("piyopiyo".to_string()),
            },
        ]
    );
    assert_eq!(rest, input.len());

    let input = chars("width: 1024px; font-size: 12px;");
    let (decls, rest) = declarations(&input, 0);
    assert_eq!(
        decls,
        vec![
            Declaration {
                name: "width".to_string(),
                value: CSSValue::Length((1024usize, Unit::Px)),
            },
            Declaration {
                name: "font-size".to_string(),
                value: CSSValue::Length((12usize, Unit::Px)),
            },
        ]
    );
    assert_eq!(rest, input.len());
}

#[test]
fn test_parse_text() {
    let input = chars("hello");
    let result = parse_text(&input, 0).unwrap();
    assert_eq!(result, (Node::text("hello".to_string()), 5));
}

#[test]
fn test_parse_elements() {
    let input = chars("<p></p>");
    assert_eq!(
        parse_elements(&input, 0),
        Some((
            Node::element("p".to_string(), AttrMap::new(), vec![]),
            input.len()
        ))
    );

    let input = chars("<p>hello world</p>");
    assert_eq!(
        parse_elements(&input, 0),
        Some((
            Node::element(
                "p".to_string(),
                AttrMap::new(),
                vec![Node::text("hello world".to_string())]
            ),
            input.len()
        ))
    );

    let input = chars("<div><p>hello world</p></div>");
    assert_eq!(
        parse_elements(&input, 0),
        Some((
            Node::element(
                "div".to_string(),
                AttrMap::new(),
                vec![Node::element(
                    "p".to_string(),
                    AttrMap::new(),
                    vec![Node::text("hello world".to_string())]
                )],
            ),
            input.len()
        ))
    );

    let input = chars("<p>hello world</div>");
    assert!(parse_elements(&input, 0).is_none());
}

#[test]
fn test_nodes_sequence() {
    let input = chars("<p>a</p>text<p>b</p>");
    let (nodes, end) = nodes_(&input, 0);
    assert_eq!(end, input.len());
    assert_eq!(
        nodes,
        vec![
            Node::element(
                "p".to_string(),
                AttrMap::new(),
                vec![Node::text("a".to_string())]
            ),
            Node::text("text".to_string()),
            Node::element(
                "p".to_string(),
                AttrMap::new(),
                vec![Node::text("b".to_string())]
            ),
        ]
    );
}

#[test]
fn test_parse_html_round_trip_shape() {
    let root = parse_html("<div><p>hello world</p></div>").unwrap();
    match &root {
        Node::Element { tag, attributes, children } => {
            assert_eq!(tag.as_str(), "div");
            assert_eq!(attributes.len(), 0);
            assert_eq!(children.len(), 1);
            match &children[0] {
                Node::Element { tag, children, .. } => {
                    assert_eq!(tag.as_str(), "p");
                    assert_eq!(children.len(), 1);
                    assert_eq!(children[0], Node::text("hello world".to_string()));
                }
                other => panic!("expected an element, got {:?}", other),
            }
        }
        other => panic!("expected an element, got {:?}", other),
    }
}

#[test]
fn test_parse_html_matching_tags() {
    let root = parse_html("<tag>some text inside</tag>").unwrap();
    match root {
        Node::Element { tag, .. } => assert_eq!(tag, "tag"),
        other => panic!("expected an element, got {:?}", other),
    }
}

#[test]
fn test_parse_html_mismatched_tags() {
    let err = parse_html("<a>some text</b>").unwrap_err();
    assert_eq!(err.message, "tag name of open tag and close tag mismatched");
    assert_eq!(err.position, "<a>some text".len());
}

#[test]
fn test_parse_html_failures() {
    assert!(parse_html("").is_err());
    assert!(parse_html("<p>unterminated").is_err());
    assert!(parse_html("<p></p>trailing").is_err());
    assert!(parse_html("plain text only").is_err());
}

#[test]
fn test_parse_html_attributes() {
    let root = parse_html("<div id=\"main\" class=\"content\"></div>").unwrap();
    match root {
        Node::Element { tag, attributes, children } => {
            assert_eq!(tag, "div");
            assert_eq!(children.len(), 0);
            assert_eq!(
                attributes.get(&"id".to_string()),
                Some(&"main".to_string())
            );
            assert_eq!(
                attributes.get(&"class".to_string()),
                Some(&"content".to_string())
            );
            assert_eq!(attributes.get(&"missing".to_string()), None);
        }
        other => panic!("expected an element, got {:?}", other),
    }
}

#[test]
fn test_parse_html_duplicate_attribute_replaced() {
    let root = parse_html("<div a=\"1\" a=\"2\"></div>").unwrap();
    match root {
        Node::Element { attributes, .. } => {
            assert_eq!(attributes.len(), 1);
            assert_eq!(attributes.get(&"a".to_string()), Some(&"2".to_string()));
        }
        other => panic!("expected an element, got {:?}", other),
    }
}

#[test]
fn test_parse_css_stylesheet() {
    let sheet = parse_css("p { width: 1024px; font-size: 12px; }").unwrap();
    assert_eq!(sheet.rules.len(), 1);
    let rule = &sheet.rules[0];
    assert_eq!(rule.selector.tag, Some("p".to_string()));
    assert_eq!(rule.selector.conds.len(), 0);
    assert_eq!(
        rule.declarations,
        vec![
            Declaration {
                name: "width".to_string(),
                value: CSSValue::Length((1024usize, Unit::Px)),
            },
            Declaration {
                name: "font-size".to_string(),
                value: CSSValue::Length((12usize, Unit::Px)),
            },
        ]
    );
}

#[test]
fn test_parse_css_selectors() {
    let sheet =
        parse_css(".content { width: 10em; }\n p[id~=hello] { color: grey; }\n #top { margin: 5%; }")
            .unwrap();
    assert_eq!(sheet.rules.len(), 3);
    assert_eq!(sheet.rules[0].selector.tag, None);
    assert_eq!(sheet.rules[0].selector.conds.len(), 1);
    assert_eq!(sheet.rules[0].selector.conds[0].name, "class");
    assert_eq!(sheet.rules[0].selector.conds[0].value, "content");
    assert_eq!(sheet.rules[1].selector.tag, Some("p".to_string()));
    assert_eq!(sheet.rules[1].selector.conds[0].name, "id");
    assert_eq!(sheet.rules[1].selector.conds[0].value, "hello");
    assert_eq!(sheet.rules[2].selector.tag, None);
    assert_eq!(sheet.rules[2].selector.conds[0].name, "id");
    assert_eq!(sheet.rules[2].selector.conds[0].value, "top");
}

#[test]
fn test_parse_css_failures() {
    assert!(parse_css("p {").is_err());
    assert!(parse_css("{ width: 10px; }").is_err());
    assert!(parse_css("p } width").is_err());
}

#[test]
fn test_parse_css_empty_is_ok() {
    let sheet = parse_css("  \n ").unwrap();
    assert_eq!(sheet.rules.len(), 0);
}
