use std::rc::Rc;
use saba_core::js_ast::{JsParser, Node, Program};
use saba_core::js_runtime::{JsRuntime, RuntimeValue};
use saba_core::js_token::{JsLexer, Token};

#[test]
fn ast_test_empty() {
    let input = "".to_string();
    let lexer = JsLexer::new(input);
    let mut parser = JsParser::new(lexer);
    let expected = Program::new();
    assert_eq!(expected, parser.parse_ast());
}

#[test]
fn test_num() {
    let input = "42".to_string();
    let lexer = JsLexer::new(input);
    let mut parser = JsParser::new(lexer);
    let mut expected = Program::new();
    let mut body = Vec::new();
    body.push(Rc::new(Node::ExpressionStatement(Some(Rc::new(Node::NumericLiteral(42))))));
    expected.set_body(body);
    assert_eq!(expected, parser.parse_ast());
}

#[test]
fn test_add_nums() {
    let input = "1 + 2".to_string();
    let lexer = JsLexer::new(input);
    let mut parser = JsParser::new(lexer);
    let mut expected = Program::new();
    let mut body = Vec::new();
    body.push(Rc::new(Node::ExpressionStatement(Some(Rc::new(Node::AdditiveExpression {
        operator: '+',
        left: Some(Rc::new(Node::NumericLiteral(1))),
        right: Some(Rc::new(Node::NumericLiteral(2))),
    })))));
    expected.set_body(body);
    assert_eq!(expected, parser.parse_ast());
}

#[test]
fn js_add_evaluates_to_three() {
    let program = JsParser::new(JsLexer::new("1 + 2".to_string())).parse_ast();
    let mut runtime = JsRuntime::new();
    let values = runtime.execute(&program);
    assert_eq!(values, vec![Some(RuntimeValue::Number(3))]);
}

#[test]
fn js_subtraction_and_underflow() {
    let program = JsParser::new(JsLexer::new("5 - 2; 2 - 5".to_string())).parse_ast();
    let mut runtime = JsRuntime::new();
    assert_eq!(runtime.execute(&program), vec![Some(RuntimeValue::Number(3)), None]);
}

#[test]
fn js_lexer_tokens() {
    let mut lexer = JsLexer::new("var x = 'hi';\n_y1".to_string());
    let mut out = Vec::new();
    while let Some(t) = lexer.next() {
        out.push(t);
    }
    assert_eq!(
        out,
        vec![
            Token::Keyword("var".to_string()),
            Token::Identifier("x".to_string()),
            Token::Punctuator('='),
            Token::StringLiteral("hi".to_string()),
            Token::Punctuator(';'),
            Token::Identifier("_y1".to_string()),
        ]
    );
}

#[test]
fn js_variable_declaration() {
    let program = JsParser::new(JsLexer::new("var a = 1".to_string())).parse_ast();
    let expected = Node::VariableDeclaration {
        declarations: vec![Some(Rc::new(Node::VariableDeclarator {
            id: Some(Rc::new(Node::Identifier("a".to_string()))),
            init: Some(Rc::new(Node::NumericLiteral(1))),
        }))],
    };
    assert_eq!(program.body().len(), 1);
    assert_eq!(*program.body()[0], expected);
}

#[test]
fn js_number_saturates() {
    let mut lexer = JsLexer::new("99999999999999999999999".to_string());
    assert_eq!(lexer.next(), Some(Token::Number(u64::MAX)));
}
