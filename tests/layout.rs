use saba_core::constants::{CHAR_WIDTH, CHAR_HEIGHT_WITH_PADDING, CONTENT_AREA_WIDTH};
use saba_core::css_token::CssTokenizer;
use saba_core::cssom::CssParser;
use saba_core::dom::{get_style_content, Element, NodeKind};
use saba_core::html_parser::HtmlParser;
use saba_core::html_token::HtmlTokenizer;
use saba_core::layout::{DisplayItem, LayoutObjectKind, LayoutView, split_text, find_index_for_line_break};

fn create_layout_view(html: String) -> LayoutView {
    let t = HtmlTokenizer::new(html);
    let window = HtmlParser::new(t).construct_tree();
    let style = get_style_content(&window);
    let css_tokenizer = CssTokenizer::new(style);
    let cssom = CssParser::new(css_tokenizer).parse_stylesheet();
    LayoutView::new(&window, &cssom)
}

#[test]
fn layout_view_test_empty() {
    let layout_view = create_layout_view("".to_string());
    assert_eq!(None, layout_view.root());
}

#[test]
fn layout_view_test_body() {
    let html = "<html><head></head><body></body></html>".to_string();
    let layout_view = create_layout_view(html);
    let root = layout_view.root();
    assert!(root.is_some());
    let root = layout_view.object(root.expect("root should exist"));
    assert_eq!(LayoutObjectKind::Block, root.kind());
    assert_eq!(&NodeKind::Element(Element::new("body", Vec::new())), root.node_kind());
}

#[test]
fn layout_view_test_text() {
    let html = "<html><head></head><body>text</body></html>".to_string();
    let layout_view = create_layout_view(html);
    let root = layout_view.root();
    assert!(root.is_some());
    let root = layout_view.object(root.expect("root should exist"));
    assert_eq!(LayoutObjectKind::Block, root.kind());
    assert_eq!(&NodeKind::Element(Element::new("body", Vec::new())), root.node_kind());

    let text = root.first_child();
    assert!(text.is_some());
    let text = layout_view.object(text.expect("text node should exist"));
    assert_eq!(LayoutObjectKind::Text, text.kind());
    assert_eq!(&NodeKind::Text("text".to_string()), text.node_kind());
}

#[test]
fn test_display_none() {
    let html = "<html><head><style>body{display:none;}</style></head><body>text</body></html>".to_string();
    let layout_view = create_layout_view(html);
    assert_eq!(None, layout_view.root());
}

#[test]
fn test_hidden_class() {
    let html = r#"
        <html>
        <head>
        <style>
            .hidden {
            display: none;
            }
        </style>
        </head>
        <body>
            <a class="hidden">link1</a>
            <p></p>
            <p class="hidden"><a>link2</a></p>
        </body>
        </html>
        "#
    .to_string();
    let layout_view = create_layout_view(html);
    let root = layout_view.root();
    assert!(root.is_some());
    let root = layout_view.object(root.expect("root should exist"));
    assert_eq!(LayoutObjectKind::Block, root.kind());
    assert_eq!(&NodeKind::Element(Element::new("body", Vec::new())), root.node_kind());

    let p = root.first_child();
    assert!(p.is_some());
    let p = layout_view.object(p.expect("p node should exist"));
    assert_eq!(LayoutObjectKind::Block, p.kind());
    assert_eq!(&NodeKind::Element(Element::new("p", Vec::new())), p.node_kind());
    assert!(p.first_child().is_none());
    assert!(p.next_sibling().is_none());
}

#[test]
fn layout_body_root_has_no_children() {
    let view = create_layout_view("<html><head></head><body></body></html>".to_string());
    let root = view.object(view.root().unwrap());
    assert_eq!(root.kind(), LayoutObjectKind::Block);
    assert_eq!(&NodeKind::Element(Element::new("body", Vec::new())), root.node_kind());
    assert!(root.first_child().is_none());
    assert_eq!(root.size().width(), CONTENT_AREA_WIDTH);
}

#[test]
fn layout_text_width_is_four_chars() {
    let view = create_layout_view("<html><head></head><body>text</body></html>".to_string());
    let root = view.object(view.root().unwrap());
    let text = view.object(root.first_child().unwrap());
    assert_eq!(text.size().width(), 4 * CHAR_WIDTH);
    assert_eq!(text.size().height(), CHAR_HEIGHT_WITH_PADDING);
    assert_eq!(root.size().height(), CHAR_HEIGHT_WITH_PADDING);
}

#[test]
fn layout_display_none_paints_nothing() {
    let view = create_layout_view(
        "<html><head><style>body{display:none;}</style></head><body>x</body></html>".to_string(),
    );
    assert!(view.paint().is_empty());
}

#[test]
fn layout_paint_in_preorder() {
    let view = create_layout_view("<html><body><p>one</p><h1>two</h1></body></html>".to_string());
    let items = view.paint();
    let order = view.preorder_ids();
    assert_eq!(order.len(), 5);
    assert_eq!(items.len(), 5);
    match &items[0] {
        DisplayItem::Rect { layout_size, .. } => assert_eq!(layout_size.width(), CONTENT_AREA_WIDTH),
        _ => panic!("body paints a rectangle"),
    }
    match &items[2] {
        DisplayItem::Text { text, .. } => assert_eq!(text, "one"),
        _ => panic!("expected text"),
    }
    match &items[4] {
        DisplayItem::Text { text, layout_point, .. } => {
            assert_eq!(text, "two");
            assert_eq!(layout_point.y(), CHAR_HEIGHT_WITH_PADDING);
        }
        _ => panic!("expected text"),
    }
}

#[test]
fn layout_blocks_fill_parent_width() {
    let view = create_layout_view("<html><body><p><a>x</a></p><h2>y</h2></body></html>".to_string());
    for id in 0..view.len() {
        let o = view.object(id);
        if o.kind() == LayoutObjectKind::Block {
            if let Some(p) = o.parent() {
                assert_eq!(o.size().width(), view.object(p).size().width());
            }
        }
    }
}

#[test]
fn layout_inline_rows_share_height() {
    let view = create_layout_view("<html><body><a>x</a><a>y</a></body></html>".to_string());
    let root = view.object(view.root().unwrap());
    assert_eq!(root.size().height(), CHAR_HEIGHT_WITH_PADDING);
    let a1 = view.object(root.first_child().unwrap());
    let a2 = view.object(a1.next_sibling().unwrap());
    assert_eq!(a2.point().x(), a1.point().x() + a1.size().width());
    assert_eq!(a2.point().y(), a1.point().y());
}

#[test]
fn layout_long_text_wraps() {
    let word = "abcdefghij";
    let text = vec![word; 10].join(" ");
    let view = create_layout_view(format!("<html><body>{}</body></html>", text));
    let root = view.object(view.root().unwrap());
    let t = view.object(root.first_child().unwrap());
    assert_eq!(t.size().width(), CONTENT_AREA_WIDTH);
    assert_eq!(t.size().height(), 2 * CHAR_HEIGHT_WITH_PADDING);
    let items = view.paint();
    assert_eq!(items.len(), 3);
}

#[test]
fn layout_split_text_at_space() {
    let line: Vec<char> = "aaaa bbbb".chars().collect();
    assert_eq!(find_index_for_line_break(&line, 6), 4);
    assert_eq!(find_index_for_line_break(&line, 3), 3);
    let short = split_text(line.clone(), CHAR_WIDTH);
    assert_eq!(short.len(), 1);
    let long: Vec<char> = vec!['x'; 100].into_iter().collect();
    let parts = split_text(long, CHAR_WIDTH);
    assert_eq!(parts.len(), 2);
    assert_eq!(parts[0].len(), 75);
}

#[test]
fn layout_hidden_class_without_whitespace() {
    let view = create_layout_view(
        "<html><head><style>.hidden{display:none;}</style></head><body><a class=\"hidden\">l1</a><p></p><p class=\"hidden\"><a>l2</a></p></body></html>"
            .to_string(),
    );
    let root = view.object(view.root().expect("root should exist"));
    assert_eq!(&NodeKind::Element(Element::new("body", Vec::new())), root.node_kind());
    let p = view.object(root.first_child().expect("p should exist"));
    assert_eq!(LayoutObjectKind::Block, p.kind());
    assert_eq!(&NodeKind::Element(Element::new("p", Vec::new())), p.node_kind());
    assert!(p.first_child().is_none());
    assert!(p.next_sibling().is_none());
}

#[test]
fn layout_style_cascade_and_inheritance() {
    let view = create_layout_view(
        "<html><head><style>p{color:red;display:inline;} #x{color:#00ff00;}</style></head><body><p id=x>a</p><h1>b</h1></body></html>"
            .to_string(),
    );
    let root = view.object(view.root().unwrap());
    let p = view.object(root.first_child().unwrap());
    assert_eq!(p.kind(), LayoutObjectKind::Inline);
    assert_eq!(p.style().color().code(), 0x00ff00);
    let text = view.object(p.first_child().unwrap());
    assert_eq!(text.style().color().code(), 0x00ff00);
    let h1 = view.object(p.next_sibling().unwrap());
    assert_eq!(h1.style().font_size(), saba_core::style::FontSize::XXLarge);
    let t2 = view.object(h1.first_child().unwrap());
    assert_eq!(t2.size().height(), CHAR_HEIGHT_WITH_PADDING);
}

#[test]
fn layout_objects_are_all_displayed() {
    let view = create_layout_view(
        "<html><head><style>.h{display:none;} a{display:block;}</style></head><body><p class=h>x</p><a>y</a><h2 class=h>z</h2>w</body></html>"
            .to_string(),
    );
    assert_eq!(view.len(), 4);
    for id in 0..view.len() {
        assert_ne!(view.object(id).style().display(), saba_core::style::DisplayType::DisplayNone);
    }
    let root = view.object(view.root().unwrap());
    let a = view.object(root.first_child().unwrap());
    assert_eq!(a.kind(), LayoutObjectKind::Block);
}
