use saba_core::dom::{Element, Node, NodeKind, Window};
use saba_core::html_parser::HtmlParser;
use saba_core::html_token::{Attribute, HtmlTokenizer};

fn build(html: &str) -> Window {
    let t = HtmlTokenizer::new(html.to_string());
    HtmlParser::new(t).construct_tree()
}

fn element(tag: &str) -> Node {
    Node::new(NodeKind::Element(Element::new(tag, Vec::new())))
}

#[test]
fn parser_test_empty() {
    let window = build("");
    let expected = Node::new(NodeKind::Document);
    assert_eq!(&expected, window.node(window.document()));
}

#[test]
fn parser_test_body() {
    let window = build("<html><head></head><body></body></html>");
    let document = window.document();
    assert_eq!(&Node::new(NodeKind::Document), window.node(document));

    let html = window.first_child(document).expect("failed to get a first child of document");
    assert_eq!(&element("html"), window.node(html));

    let head = window.first_child(html).expect("failed to get a first child of html");
    assert_eq!(&element("head"), window.node(head));

    let body = window.next_sibling(head).expect("failed to get a next sibling of head");
    assert_eq!(&element("body"), window.node(body));
}

#[test]
fn parser_test_text() {
    let window = build("<html><head></head><body>test</body></html>");
    let document = window.document();
    assert_eq!(&Node::new(NodeKind::Document), window.node(document));

    let html = window.first_child(document).expect("failed to get a first child of document");
    assert_eq!(&element("html"), window.node(html));

    let head = window.first_child(html).expect("failed to get a first child of document");
    let body = window.next_sibling(head).expect("failed to get a next sibling of head");
    assert_eq!(&element("body"), window.node(body));

    let text = window.first_child(body).expect("failed to get a first child of document");
    assert_eq!(&Node::new(NodeKind::Text("text".to_string())), window.node(text));
}

#[test]
fn test_multiple_nodes() {
    let window = build("<html><head></head><body><p><a foo=bar>text</a></p></body></html>");
    let document = window.document();
    let html = window.first_child(document).expect("failed to get a first child of document");
    let head = window.first_child(html).expect("failed to get a first child of document");
    let body = window.next_sibling(head).expect("failed to get a next sibling of head");
    assert_eq!(&element("body"), window.node(body));

    let p = window.first_child(body).expect("failed to get a first child of body");
    assert_eq!(&element("p"), window.node(p));

    let mut attr = Attribute::new();
    attr.add_char('f', true);
    attr.add_char('o', true);
    attr.add_char('o', true);
    attr.add_char('b', false);
    attr.add_char('a', false);
    attr.add_char('r', false);
    let a = window.first_child(p).expect("failed to get a first child of p");
    assert_eq!(&Node::new(NodeKind::Element(Element::new("a", vec![attr]))), window.node(a));

    let text = window.first_child(a).expect("failed to get a first child of a");
    assert_eq!(&Node::new(NodeKind::Text("text".to_string())), window.node(text));
}

#[test]
fn parser_document_html_head_body_order() {
    let window = build("<html><head></head><body></body></html>");
    let html = window.first_child(window.document()).unwrap();
    let head = window.first_child(html).unwrap();
    let body = window.next_sibling(head).unwrap();
    assert!(window.next_sibling(body).is_none());
    assert!(window.next_sibling(html).is_none());
    assert_eq!(window.node(html).element_kind(), Some(saba_core::dom::ElementKind::Html));
    assert_eq!(window.node(body).element_kind(), Some(saba_core::dom::ElementKind::Body));
}

#[test]
fn parser_children_know_parent() {
    let window = build("<html><head><style>p{}</style></head><body><p>a</p><h1>b</h1><a>c</a></body></html>");
    for id in 0..window.len() {
        let mut child = window.first_child(id);
        while let Some(c) = child {
            assert_eq!(window.parent(c), Some(id));
            child = window.next_sibling(c);
        }
    }
}

#[test]
fn parser_synthesizes_missing_elements() {
    let window = build("<p>hello");
    let html = window.first_child(window.document()).expect("html");
    assert_eq!(&element("html"), window.node(html));
    let head = window.first_child(html).expect("head");
    let body = window.next_sibling(head).expect("body");
    assert_eq!(&element("body"), window.node(body));
    let p = window.first_child(body).expect("p");
    assert_eq!(&element("p"), window.node(p));
    let text = window.first_child(p).expect("text");
    match window.node(text).kind() {
        NodeKind::Text(t) => assert_eq!(t, "hello"),
        _ => panic!("expected text"),
    }
}

#[test]
fn parser_siblings_keep_order() {
    let window = build("<html><body><p>x</p><p>y</p>z</body></html>");
    let html = window.first_child(window.document()).unwrap();
    let head = window.first_child(html).unwrap();
    let body = window.next_sibling(head).unwrap();
    let first_p = window.first_child(body).unwrap();
    let second_p = window.next_sibling(first_p).unwrap();
    let z = window.next_sibling(second_p).unwrap();
    assert_eq!(&element("p"), window.node(second_p));
    match window.node(z).kind() {
        NodeKind::Text(t) => assert_eq!(t, "z"),
        _ => panic!("expected text"),
    }
}

#[test]
fn parser_stray_end_tag_is_ignored() {
    let window = build("<html><body></p>x</body></html>");
    let html = window.first_child(window.document()).unwrap();
    let head = window.first_child(html).unwrap();
    let body = window.next_sibling(head).unwrap();
    let text = window.first_child(body).unwrap();
    assert_eq!(&Node::new(NodeKind::Text(String::new())), window.node(text));
}

#[test]
fn parser_style_content() {
    let window = build("<html><head><style>body{display:none;}</style></head><body>x</body></html>");
    assert_eq!(saba_core::dom::get_style_content(&window), "body{display:none;}");
    assert_eq!(saba_core::dom::get_js_content(&window), "");
}
