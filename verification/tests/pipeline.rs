use browser_core::css::parse_css;
use browser_core::cssom::{CSSValue, Unit};
use browser_core::dom::AttrMap;
use browser_core::html::parse_html;
use browser_core::layout::{build_layout, create_layout_box, create_layout_document, BoxType,
    LayoutBox};
use browser_core::style::{resolve_styles, Display, NodeData, PropMap, StyledDocument, StyledNode};

fn element_styled(display: Option<&str>, children: Vec<StyledNode>) -> StyledNode {
    let mut properties = PropMap::new();
    if let Some(d) = display {
        properties.set("display".to_string(), CSSValue::Keyword(d.to_string()));
    }
    StyledNode {
        data: NodeData::Element {
            tag: "div".to_string(),
            attributes: AttrMap::new(),
        },
        properties,
        children,
    }
}

fn box_types(b: &LayoutBox) -> Vec<BoxType> {
    b.children.iter().map(|c| c.box_type).collect()
}

#[test]
fn test_cascade_last_rule_wins() {
    let dom = parse_html("<p>hi</p>").unwrap();
    let sheet = parse_css("p { font-size: 12px; color: grey; } p { font-size: 10px; }").unwrap();
    let styled = resolve_styles(&dom, &sheet);
    assert_eq!(
        styled.properties.get(&"font-size".to_string()),
        Some(&CSSValue::Length((10usize, Unit::Px)))
    );
    assert_eq!(
        styled.properties.get(&"color".to_string()),
        Some(&CSSValue::Keyword("grey".to_string()))
    );
}

#[test]
fn test_cascade_last_declaration_wins_within_rule() {
    let dom = parse_html("<p>hi</p>").unwrap();
    let sheet = parse_css("p { width: 1em; width: 2em; }").unwrap();
    let styled = resolve_styles(&dom, &sheet);
    assert_eq!(
        styled.properties.get(&"width".to_string()),
        Some(&CSSValue::Length((2usize, Unit::Em)))
    );
}

#[test]
fn test_selector_matching() {
    let dom = parse_html("<div id=\"main\" class=\"content box\"></div>").unwrap();
    let sheet = parse_css(
        ".content { width: 1px; } #main { height: 2px; } div { margin: 3px; } \
         span { padding: 4px; } [id=main] { border: 5px; } .missing { color: red; }",
    )
    .unwrap();
    let styled = resolve_styles(&dom, &sheet);
    assert_eq!(
        styled.properties.get(&"width".to_string()),
        Some(&CSSValue::Length((1usize, Unit::Px)))
    );
    assert_eq!(
        styled.properties.get(&"height".to_string()),
        Some(&CSSValue::Length((2usize, Unit::Px)))
    );
    assert_eq!(
        styled.properties.get(&"margin".to_string()),
        Some(&CSSValue::Length((3usize, Unit::Px)))
    );
    assert_eq!(styled.properties.get(&"padding".to_string()), None);
    assert_eq!(
        styled.properties.get(&"border".to_string()),
        Some(&CSSValue::Length((5usize, Unit::Px)))
    );
    assert_eq!(styled.properties.get(&"color".to_string()), None);
}

#[test]
fn test_display_classification() {
    let block = element_styled(None, vec![]);
    assert_eq!(block.display(), Display::Block);
    let keyword_block = element_styled(Some("flex"), vec![]);
    assert_eq!(keyword_block.display(), Display::Block);
    let inline = element_styled(Some("inline"), vec![]);
    assert_eq!(inline.display(), Display::Inline);
    let none = element_styled(Some("none"), vec![]);
    assert_eq!(none.display(), Display::NoneDisplay);
    let text = StyledNode {
        data: NodeData::Text("hi".to_string()),
        properties: PropMap::new(),
        children: vec![],
    };
    assert_eq!(text.display(), Display::Inline);
}

#[test]
fn test_layout_grouping() {
    // children classified [Block, Inline, Inline, Block]
    let parent = element_styled(
        None,
        vec![
            element_styled(None, vec![]),
            element_styled(Some("inline"), vec![]),
            element_styled(Some("inline"), vec![]),
            element_styled(None, vec![]),
        ],
    );
    let root = create_layout_box(&parent);
    assert_eq!(root.box_type, BoxType::BlockBox);
    assert_eq!(
        box_types(&root),
        vec![BoxType::BlockBox, BoxType::AnonymousBox, BoxType::BlockBox]
    );
    let anon = &root.children[1];
    assert!(anon.box_props.is_none());
    assert_eq!(
        box_types(anon),
        vec![BoxType::InlineBox, BoxType::InlineBox]
    );
}

#[test]
fn test_layout_inline_runs_resume() {
    // [Inline, Block, Inline, Inline] gives anonymous, block, anonymous
    let parent = element_styled(
        None,
        vec![
            element_styled(Some("inline"), vec![]),
            element_styled(None, vec![]),
            element_styled(Some("inline"), vec![]),
            element_styled(Some("inline"), vec![]),
        ],
    );
    let root = create_layout_box(&parent);
    assert_eq!(
        box_types(&root),
        vec![BoxType::AnonymousBox, BoxType::BlockBox, BoxType::AnonymousBox]
    );
    assert_eq!(box_types(&root.children[0]), vec![BoxType::InlineBox]);
    assert_eq!(
        box_types(&root.children[2]),
        vec![BoxType::InlineBox, BoxType::InlineBox]
    );
}

#[test]
fn test_layout_none_subtree_pruned() {
    // the hidden child has a deep subtree; nothing of it may surface
    let hidden = element_styled(
        Some("none"),
        vec![
            element_styled(None, vec![element_styled(Some("inline"), vec![])]),
            element_styled(Some("inline"), vec![]),
        ],
    );
    let parent = element_styled(
        None,
        vec![element_styled(None, vec![]), hidden, element_styled(None, vec![])],
    );
    let root = create_layout_box(&parent);
    assert_eq!(box_types(&root), vec![BoxType::BlockBox, BoxType::BlockBox]);

    // a hidden root keeps no children at all
    let lonely = element_styled(Some("none"), vec![element_styled(None, vec![])]);
    let top = create_layout_box(&lonely);
    assert_eq!(top.box_type, BoxType::NoneBox);
    assert_eq!(top.children.len(), 0);
}

#[test]
fn test_full_pipeline() {
    let dom = parse_html(
        "<html><body><div id=\"main\" class=\"content\"><p>hello rust html parser</p></div></body></html>",
    )
    .unwrap();
    let sheet = parse_css(".content { width: 1024px; font-size: 12px; }").unwrap();
    let styled = resolve_styles(&dom, &sheet);
    let document = StyledDocument { document_element: styled };
    let layout = create_layout_document(document);
    assert_eq!(layout.top_box.box_type, BoxType::BlockBox);
    // html > body > div > p > anonymous text run
    let body = &layout.top_box.children[0];
    let div = &body.children[0];
    let props = div.box_props.as_ref().unwrap();
    assert_eq!(
        props.properties.get(&"width".to_string()),
        Some(&CSSValue::Length((1024usize, Unit::Px)))
    );
    let p = &div.children[0];
    assert_eq!(p.box_type, BoxType::BlockBox);
    assert_eq!(box_types(p), vec![BoxType::AnonymousBox]);
}

#[test]
fn test_build_layout_matches_box_builder() {
    let styled = element_styled(Some("inline"), vec![element_styled(None, vec![])]);
    let a = build_layout(&styled);
    let b = create_layout_box(&styled);
    assert_eq!(a, b);
}
