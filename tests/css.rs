use saba_core::css_token::{CssToken, CssTokenizer, Decimal};
use saba_core::cssom::{ComponentValue, CssParser, Selector};
use saba_core::style::{Color, DisplayType};

fn tokens(css: &str) -> Vec<CssToken> {
    let mut t = CssTokenizer::new(css.to_string());
    let mut out = Vec::new();
    while let Some(tok) = t.next() {
        out.push(tok);
    }
    out
}

#[test]
fn css_rule_tokens_and_parse() {
    assert_eq!(
        tokens("p { color: red; }"),
        vec![
            CssToken::Ident("p".to_string()),
            CssToken::OpenCurly,
            CssToken::Ident("color".to_string()),
            CssToken::Colon,
            CssToken::Ident("red".to_string()),
            CssToken::SemiColon,
            CssToken::CloseCurly,
        ]
    );
    let sheet = CssParser::new(CssTokenizer::new("p { color: red; }".to_string())).parse_stylesheet();
    assert_eq!(sheet.rules.len(), 1);
    assert_eq!(sheet.rules[0].selector, Selector::TypeSelector("p".to_string()));
    assert_eq!(sheet.rules[0].declarations.len(), 1);
    assert_eq!(sheet.rules[0].declarations[0].property, "color");
    assert_eq!(sheet.rules[0].declarations[0].value, ComponentValue::Ident("red".to_string()));
}

#[test]
fn css_other_tokens() {
    assert_eq!(
        tokens("#id .c @media @x 'a b' 12.5 ( ) ,"),
        vec![
            CssToken::HashToken("id".to_string()),
            CssToken::Delim('.'),
            CssToken::Ident("c".to_string()),
            CssToken::AtKeyword("media".to_string()),
            CssToken::Delim('@'),
            CssToken::Ident("x".to_string()),
            CssToken::StringToken("a b".to_string()),
            CssToken::Number(Decimal { digits: 125, scale: 1 }),
            CssToken::OpenParenthesis,
            CssToken::CloseParenthesis,
            CssToken::Delim(','),
        ]
    );
}

#[test]
fn css_unknown_character_stops() {
    assert_eq!(tokens("p !"), vec![CssToken::Ident("p".to_string())]);
}

#[test]
fn css_selectors() {
    let sheet = CssParser::new(CssTokenizer::new(
        ".a{display:none} #b{color:#ff0000;} @x y{color:blue}".to_string(),
    ))
    .parse_stylesheet();
    assert_eq!(sheet.rules.len(), 3);
    assert_eq!(sheet.rules[0].selector, Selector::ClassSelector("a".to_string()));
    assert_eq!(sheet.rules[1].selector, Selector::IdSelector("b".to_string()));
    assert_eq!(sheet.rules[1].declarations[0].value, ComponentValue::HashToken("ff0000".to_string()));
    assert_eq!(sheet.rules[2].selector, Selector::UnknownSelector);
    assert_eq!(sheet.rules[2].declarations.len(), 1);
}

#[test]
fn css_colors() {
    assert_eq!(Color::from_name("red"), Some(Color { code: 0xff0000 }));
    assert_eq!(Color::from_name("nope"), None);
    assert_eq!(Color::from_code("00ff7F"), Some(Color { code: 0x00ff7f }));
    assert_eq!(Color::from_code("xyz123"), None);
    assert_eq!(DisplayType::from_keyword("inline"), DisplayType::Inline);
    assert_eq!(DisplayType::from_keyword("flex"), DisplayType::DisplayNone);
}
