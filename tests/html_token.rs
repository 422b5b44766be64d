use saba_core::html_token::{Attribute, HtmlToken, HtmlTokenizer};

#[test]
fn token_test_empty() {
    let html = "".to_string();
    let mut tokenizer = HtmlTokenizer::new(html);
    assert!(tokenizer.next().is_none());
}

#[test]
fn test_start_and_end_tag() {
    let html = "<body></body>".to_string();
    let mut tokenizer = HtmlTokenizer::new(html);
    let expected = [
        HtmlToken::StartTag { tag: "body".to_string(), self_closing: false, attributes: Vec::new() },
        HtmlToken::EndTag { tag: "body".to_string() },
    ];
    for e in expected {
        assert_eq!(Some(e), tokenizer.next());
    }
}

#[test]
fn test_attributes() {
    let html = "<p class=\"A\" id='B' foo=bar></p>".to_string();
    let mut tokenizer = HtmlTokenizer::new(html);
    let mut attr1 = Attribute::new();
    attr1.add_char('c', true);
    attr1.add_char('l', true);
    attr1.add_char('a', true);
    attr1.add_char('s', true);
    attr1.add_char('s', true);
    attr1.add_char('A', false);

    let mut attr2 = Attribute::new();
    attr2.add_char('i', true);
    attr2.add_char('d', true);
    attr2.add_char('B', false);

    let mut attr3 = Attribute::new();
    attr3.add_char('f', true);
    attr3.add_char('o', true);
    attr3.add_char('o', true);
    attr3.add_char('b', false);
    attr3.add_char('a', false);
    attr3.add_char('r', false);

    let expected = [
        HtmlToken::StartTag {
            tag: "p".to_string(),
            self_closing: false,
            attributes: vec![attr1, attr2, attr3],
        },
        HtmlToken::EndTag { tag: "p".to_string() },
    ];
    for e in expected {
        assert_eq!(Some(e), tokenizer.next());
    }
}

#[test]
fn test_self_closing_tag() {
    let html = "<img />".to_string();
    let mut tokenizer = HtmlTokenizer::new(html);
    let expected = [HtmlToken::StartTag { tag: "img".to_string(), self_closing: true, attributes: Vec::new() }];
    for e in expected {
        assert_eq!(Some(e), tokenizer.next());
    }
}

#[test]
fn test_script_tag() {
    let html = "<script>js code;</script>".to_string();
    let mut tokenizer = HtmlTokenizer::new(html);
    let expected = [
        HtmlToken::StartTag { tag: "script".to_string(), self_closing: false, attributes: Vec::new() },
        HtmlToken::Char('j'),
        HtmlToken::Char('s'),
        HtmlToken::Char(' '),
        HtmlToken::Char('c'),
        HtmlToken::Char('o'),
        HtmlToken::Char('d'),
        HtmlToken::Char('e'),
        HtmlToken::Char(';'),
        HtmlToken::EndTag { tag: "script".to_string() },
    ];
    for e in expected {
        assert_eq!(Some(e), tokenizer.next());
    }
}

fn all_tokens(html: &str) -> Vec<HtmlToken> {
    let mut t = HtmlTokenizer::new(html.to_string());
    let mut out = Vec::new();
    while let Some(tok) = t.next() {
        out.push(tok);
    }
    out
}

#[test]
fn token_upper_case_names_are_folded() {
    let toks = all_tokens("<DIV ID=X></DiV>");
    match &toks[0] {
        HtmlToken::StartTag { tag, attributes, .. } => {
            assert_eq!(tag, "div");
            assert_eq!(attributes[0].name(), "id");
            assert_eq!(attributes[0].value(), "X");
        }
        other => panic!("unexpected {:?}", other),
    }
    assert_eq!(toks[1], HtmlToken::EndTag { tag: "div".to_string() });
}

#[test]
fn token_unfinished_tag_gives_eof() {
    assert_eq!(all_tokens("a<p cl"), vec![HtmlToken::Char('a'), HtmlToken::Eof]);
}

#[test]
fn token_text_and_lone_less_than() {
    assert_eq!(
        all_tokens("x< y"),
        vec![HtmlToken::Char('x'), HtmlToken::Char(' '), HtmlToken::Char('y')]
    );
}

#[test]
fn token_count_within_four_per_char() {
    let html = "<html><head><style>p{}</style></head><body><p a=b>hi</p></body></html>";
    let n = all_tokens(html).len();
    assert!(n <= 4 * html.chars().count());
}

fn serialize(tokens: &[HtmlToken]) -> String {
    let mut s = String::new();
    for t in tokens {
        match t {
            HtmlToken::StartTag { tag, self_closing, attributes } => {
                s.push('<');
                s.push_str(tag);
                for a in attributes {
                    s.push(' ');
                    s.push_str(&a.name());
                    s.push_str("=\"");
                    s.push_str(&a.value());
                    s.push('"');
                }
                if *self_closing {
                    s.push_str(" /");
                }
                s.push('>');
            }
            HtmlToken::EndTag { tag } => {
                s.push_str("</");
                s.push_str(tag);
                s.push('>');
            }
            HtmlToken::Char(c) => s.push(*c),
            HtmlToken::Eof => {}
        }
    }
    s
}

#[test]
fn token_serialize_round_trip() {
    let first = all_tokens("<P Class=a ID='b c'>t</P><br/>");
    let second = all_tokens(&serialize(&first));
    assert_eq!(first, second);
}
