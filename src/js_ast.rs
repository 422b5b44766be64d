use vstd::prelude::*;
use std::rc::Rc;
use crate::js_token::{JsLexer, Token, js_token_read, js_token_start};

verus! {

/// A node of the syntax tree of a script.
#[derive(Debug, Clone, PartialEq, Eq)]
pub enum Node {
    ExpressionStatement(Option<Rc<Node>>),
    AdditiveExpression { operator: char, left: Option<Rc<Node>>, right: Option<Rc<Node>> },
    AssignmentExpression { operator: char, left: Option<Rc<Node>>, right: Option<Rc<Node>> },
    MemberExpression { object: Option<Rc<Node>>, property: Option<Rc<Node>> },
    NumericLiteral(u64),
    VariableDeclaration { declarations: Vec<Option<Rc<Node>>> },
    VariableDeclarator { id: Option<Rc<Node>>, init: Option<Rc<Node>> },
    Identifier(String),
    StringLiteral(String),
}

impl Node {
    pub fn new_expression_statement(expression: Option<Rc<Node>>) -> (r: Option<Rc<Node>>)
        ensures
            r == Some(Rc::new(Node::ExpressionStatement(expression))),
    {
        Some(Rc::new(Node::ExpressionStatement(expression)))
    }

    pub fn new_additive_expression(operator: char, left: Option<Rc<Node>>, right: Option<Rc<Node>>) -> (r: Option<Rc<Node>>)
        ensures
            r == Some(Rc::new(Node::AdditiveExpression { operator, left, right })),
    {
        Some(Rc::new(Node::AdditiveExpression { operator, left, right }))
    }

    pub fn new_assignment_expression(operator: char, left: Option<Rc<Node>>, right: Option<Rc<Node>>) -> (r: Option<Rc<Node>>)
        ensures
            r == Some(Rc::new(Node::AssignmentExpression { operator, left, right })),
    {
        Some(Rc::new(Node::AssignmentExpression { operator, left, right }))
    }

    pub fn new_member_expression(object: Option<Rc<Node>>, property: Option<Rc<Node>>) -> (r: Option<Rc<Node>>)
        ensures
            r == Some(Rc::new(Node::MemberExpression { object, property })),
    {
        Some(Rc::new(Node::MemberExpression { object, property }))
    }

    pub fn new_numeric_literal(value: u64) -> (r: Option<Rc<Node>>)
        ensures
            r == Some(Rc::new(Node::NumericLiteral(value))),
    {
        Some(Rc::new(Node::NumericLiteral(value)))
    }

    pub fn new_variable_declarator(id: Option<Rc<Node>>, init: Option<Rc<Node>>) -> (r: Option<Rc<Node>>)
        ensures
            r == Some(Rc::new(Node::VariableDeclarator { id, init })),
    {
        Some(Rc::new(Node::VariableDeclarator { id, init }))
    }

    pub fn new_variable_declaration(declarations: Vec<Option<Rc<Node>>>) -> (r: Option<Rc<Node>>)
        ensures
            r == Some(Rc::new(Node::VariableDeclaration { declarations })),
    {
        Some(Rc::new(Node::VariableDeclaration { declarations }))
    }

    pub fn new_identifier(name: String) -> (r: Option<Rc<Node>>)
        ensures
            r == Some(Rc::new(Node::Identifier(name))),
    {
        Some(Rc::new(Node::Identifier(name)))
    }

    pub fn new_string_literal(value: String) -> (r: Option<Rc<Node>>)
        ensures
            r == Some(Rc::new(Node::StringLiteral(value))),
    {
        Some(Rc::new(Node::StringLiteral(value)))
    }
}

/// The statements of a script, in order.
#[derive(Debug, Clone, PartialEq, Eq)]
pub struct Program {
    body: Vec<Rc<Node>>,
}

impl Program {
    pub closed spec fn body_view(&self) -> Seq<Rc<Node>> {
        self.body@
    }

    pub fn new() -> (r: Self)
        ensures
            r.body_view().len() == 0,
    {
        Self { body: Vec::new() }
    }

    pub fn set_body(&mut self, body: Vec<Rc<Node>>)
        ensures
            final(self).body_view() == body@,
    {
        self.body = body;
    }

    pub fn body(&self) -> (r: &Vec<Rc<Node>>)
        ensures
            r@ == self.body_view(),
    {
        &self.body
    }
}

/// Reading from `input` at the positions `ps`, one call of `next` after another, gives the
/// tokens `toks`: the call that starts at `ps[k]` gives `toks[k]` and stops at `ps[k + 1]`.
pub open spec fn js_tokens_between(input: Seq<char>, ps: Seq<int>, toks: Seq<Token>) -> bool {
    &&& ps.len() == toks.len() + 1
    &&& forall|k: int| 0 <= k < toks.len() ==> #[trigger] js_token_read(input, js_token_start(input, ps[k]), ps[k + 1], Some(toks[k]))
}

/// `toks` are all the tokens that calls of `next` read from `input` from position `p0` on, up
/// to the first call that gives none.
pub open spec fn js_tokens(input: Seq<char>, p0: int, toks: Seq<Token>) -> bool {
    exists|ps: Seq<int>| #[trigger] js_tokens_between(input, ps, toks) && ps[0] == p0
        && exists|q: int| js_token_read(input, js_token_start(input, ps.last()), q, None)
}

pub open spec fn punct_at(t: Seq<Token>, i: int, c: char) -> bool {
    0 <= i < t.len() && t[i] == Token::Punctuator(c)
}

/// The primary expression that `t[i]` makes, if any.
pub open spec fn primary_at(t: Seq<Token>, i: int) -> Option<Rc<Node>> {
    if 0 <= i < t.len() {
        match t[i] {
            Token::Identifier(s) => Some(Rc::new(Node::Identifier(s))),
            Token::StringLiteral(s) => Some(Rc::new(Node::StringLiteral(s))),
            Token::Number(n) => Some(Rc::new(Node::NumericLiteral(n))),
            _ => None,
        }
    } else {
        None
    }
}

/// The index after the token at `i`, if there is one.
pub open spec fn after_token(t: Seq<Token>, i: int) -> int {
    if 0 <= i < t.len() {
        i + 1
    } else {
        i
    }
}

/// The additive expression that starts at `t[i]`, and the index after it.
pub open spec fn additive_at(t: Seq<Token>, i: int) -> (Option<Rc<Node>>, int)
    decreases t.len() - i, 0int,
{
    let left = primary_at(t, i);
    let j = after_token(t, i);
    if i >= 0 && (punct_at(t, j, '+') || punct_at(t, j, '-')) {
        let op = if punct_at(t, j, '+') {
            '+'
        } else {
            '-'
        };
        let (right, k) = assignment_at(t, j + 1);
        (Some(Rc::new(Node::AdditiveExpression { operator: op, left, right })), k)
    } else {
        (left, j)
    }
}

/// The assignment expression that starts at `t[i]`, and the index after it.
pub open spec fn assignment_at(t: Seq<Token>, i: int) -> (Option<Rc<Node>>, int)
    decreases t.len() - i, 1int,
{
    let (e, j) = additive_at(t, i);
    if i >= 0 && j >= i && punct_at(t, j, '=') {
        let (right, k) = assignment_at(t, j + 1);
        (Some(Rc::new(Node::AssignmentExpression { operator: '=', left: e, right })), k)
    } else {
        (e, j)
    }
}

/// The expression statement that starts at `t[i]`, and the index after it and its `;`.
pub open spec fn expression_statement_at(t: Seq<Token>, i: int) -> (Rc<Node>, int) {
    let (e, j) = assignment_at(t, i);
    let j2 = if j == i {
        i + 1
    } else {
        j
    };
    let k = if punct_at(t, j2, ';') {
        j2 + 1
    } else {
        j2
    };
    (Rc::new(Node::ExpressionStatement(e)), k)
}

/// The identifier that `t[i]` makes, if it is one.
pub open spec fn identifier_at(t: Seq<Token>, i: int) -> Option<Rc<Node>> {
    if 0 <= i < t.len() {
        match t[i] {
            Token::Identifier(s) => Some(Rc::new(Node::Identifier(s))),
            _ => None,
        }
    } else {
        None
    }
}

/// A statement starts at `t[i]`, is `n`, and ends (with its `;`) before `k`: a `var`
/// declaration `var Identifier ( '=' AssignmentExpression )? ';'?`, or an expression statement.
pub open spec fn statement_at(t: Seq<Token>, i: int, n: Rc<Node>, k: int) -> bool {
    if 0 <= i < t.len() && t[i] is Keyword {
        let id = identifier_at(t, i + 1);
        let j = after_token(t, i + 1);
        let (init, k0) = if punct_at(t, j, '=') {
            assignment_at(t, j + 1)
        } else {
            (None, j)
        };
        &&& (*n matches Node::VariableDeclaration { declarations }
            && declarations@ == seq![Some(Rc::new(Node::VariableDeclarator { id, init }))])
        &&& k == if punct_at(t, k0, ';') {
            k0 + 1
        } else {
            k0
        }
    } else {
        (n, k) == expression_statement_at(t, i)
    }
}

/// Reading statements at the positions `ps`, one after another, gives `body`, and the last
/// position is the end of the tokens.
pub open spec fn statements_at(t: Seq<Token>, ps: Seq<int>, body: Seq<Rc<Node>>) -> bool {
    &&& ps.len() == body.len() + 1
    &&& forall|k: int| 0 <= k < body.len() ==> #[trigger] statement_at(t, ps[k], body[k], ps[k + 1])
    &&& ps.last() >= t.len()
}

/// The statements of a script without `var` from `t[i]` on.
pub open spec fn program_from(t: Seq<Token>, i: int) -> Seq<Rc<Node>>
    decreases t.len() - i,
{
    if i < 0 || i >= t.len() {
        Seq::empty()
    } else {
        let (n, k) = expression_statement_at(t, i);
        if k > i && k <= t.len() {
            seq![n] + program_from(t, k)
        } else {
            seq![n]
        }
    }
}

/// Recursive-descent parser over the tokens of a `JsLexer`.
pub struct JsParser {
    tokens: Vec<Token>,
    pos: usize,
}

impl JsParser {
    pub closed spec fn tokens_view(&self) -> Seq<Token> {
        self.tokens@
    }

    pub closed spec fn pos_view(&self) -> int {
        self.pos as int
    }

    pub open spec fn wf(&self) -> bool {
        self.pos_view() <= self.tokens_view().len()
    }

    /// Reads all tokens of `t`.
    pub fn new(t: JsLexer) -> (r: Self)
        requires
            t.wf(),
        ensures
            r.wf(),
            r.pos_view() == 0,
            js_tokens(t.input_view(), t.pos_view(), r.tokens_view()),
    {
        let ghost input = t.input_view();
        let ghost p0 = t.pos_view();
        let mut lexer = t;
        let mut tokens: Vec<Token> = Vec::new();
        let ghost mut ps: Seq<int> = seq![p0];
        loop
            invariant
                lexer.wf(),
                lexer.input_view() == input,
                t.input_view() == input,
                t.pos_view() == p0,
                js_tokens_between(input, ps, tokens@),
                ps[0] == p0,
                ps.last() == lexer.pos_view(),
            decreases lexer.input_view().len() - lexer.pos_view(),
        {
            let ghost m = lexer.pos_view();
            let ghost before = tokens@;
            match lexer.next() {
                Some(token) => {
                    tokens.push(token);
                    proof {
                        let old_ps = ps;
                        ps = ps.push(lexer.pos_view());
                        assert forall|k: int| 0 <= k < tokens@.len() implies #[trigger] js_token_read(input, js_token_start(input, ps[k]), ps[k + 1], Some(tokens@[k])) by {
                            if k < before.len() {
                                assert(tokens@[k] == before[k]);
                                assert(ps[k] == old_ps[k] && ps[k + 1] == old_ps[k + 1]);
                            }
                        }
                    }
                },
                None => {
                    let r = JsParser { tokens, pos: 0 };
                    proof {
                        assert(js_token_read(input, js_token_start(input, ps.last()), lexer.pos_view(), None::<Token>));
                        assert(js_tokens_between(input, ps, r.tokens_view()));
                        assert(ps[0] == p0);
                        assert(exists|q: int| js_token_read(input, js_token_start(input, ps.last()), q, None::<Token>));
                        assert(js_tokens(input, p0, r.tokens_view()));
                    }
                    return r;
                },
            }
        }
    }

    /// Whether the token at the cursor is the punctuator `c`.
    fn peek_is(&self, c: char) -> (r: bool)
        requires
            self.wf(),
        ensures
            r == (self.pos < self.tokens@.len() && self.tokens@[self.pos as int] == Token::Punctuator(c)),
            r ==> self.pos < usize::MAX,
    {
        if self.pos >= self.tokens.len() {
            return false;
        }
        match &self.tokens[self.pos] {
            Token::Punctuator(p) => *p == c,
            _ => false,
        }
    }

    /// PrimaryExpression ::= Identifier | StringLiteral | NumericLiteral
    fn primary_expression(&mut self) -> (r: Option<Rc<Node>>)
        requires
            old(self).wf(),
        ensures
            final(self).wf(),
            final(self).tokens == old(self).tokens,
            old(self).pos < old(self).tokens@.len() ==> final(self).pos == old(self).pos + 1,
            old(self).pos >= old(self).tokens@.len() ==> final(self).pos == old(self).pos && r is None,
            old(self).pos < old(self).tokens@.len() ==> r == match old(self).tokens@[old(self).pos as int] {
                Token::Identifier(s) => Some(Rc::new(Node::Identifier(s))),
                Token::StringLiteral(s) => Some(Rc::new(Node::StringLiteral(s))),
                Token::Number(n) => Some(Rc::new(Node::NumericLiteral(n))),
                _ => None,
            },
    {
        if self.pos >= self.tokens.len() {
            return None;
        }
        let i = self.pos;
        self.pos = self.pos + 1;
        match &self.tokens[i] {
            Token::Identifier(value) => Node::new_identifier(value.clone()),
            Token::StringLiteral(value) => Node::new_string_literal(value.clone()),
            Token::Number(value) => Node::new_numeric_literal(*value),
            _ => None,
        }
    }

    /// MemberExpression ::= PrimaryExpression
    fn member_expression(&mut self) -> (r: Option<Rc<Node>>)
        requires
            old(self).wf(),
        ensures
            final(self).wf(),
            final(self).tokens == old(self).tokens,
            final(self).pos >= old(self).pos,
            r == primary_at(old(self).tokens@, old(self).pos as int),
            final(self).pos == after_token(old(self).tokens@, old(self).pos as int),
    {
        self.primary_expression()
    }

    /// LeftHandSideExpression ::= MemberExpression
    fn left_hand_side_expression(&mut self) -> (r: Option<Rc<Node>>)
        requires
            old(self).wf(),
        ensures
            final(self).wf(),
            final(self).tokens == old(self).tokens,
            final(self).pos >= old(self).pos,
            r == primary_at(old(self).tokens@, old(self).pos as int),
            final(self).pos == after_token(old(self).tokens@, old(self).pos as int),
    {
        self.member_expression()
    }

    /// AdditiveExpression ::= LeftHandSideExpression ( ('+' | '-') AssignmentExpression )?
    fn additive_expression(&mut self) -> (r: Option<Rc<Node>>)
        requires
            old(self).wf(),
        ensures
            final(self).wf(),
            final(self).tokens == old(self).tokens,
            final(self).pos >= old(self).pos,
            (r, final(self).pos as int) == additive_at(old(self).tokens@, old(self).pos as int),
        decreases old(self).tokens@.len() - old(self).pos, 0int,
    {
        let left = self.left_hand_side_expression();
        if self.peek_is('+') || self.peek_is('-') {
            let op = if self.peek_is('+') {
                '+'
            } else {
                '-'
            };
            self.pos = self.pos + 1;
            let right = self.assignment_expression();
            return Node::new_additive_expression(op, left, right);
        }
        left
    }

    /// AssignmentExpression ::= AdditiveExpression ( '=' AssignmentExpression )?
    fn assignment_expression(&mut self) -> (r: Option<Rc<Node>>)
        requires
            old(self).wf(),
        ensures
            final(self).wf(),
            final(self).tokens == old(self).tokens,
            final(self).pos >= old(self).pos,
            (r, final(self).pos as int) == assignment_at(old(self).tokens@, old(self).pos as int),
        decreases old(self).tokens@.len() - old(self).pos, 1int,
    {
        let expr = self.additive_expression();
        if self.peek_is('=') {
            self.pos = self.pos + 1;
            let right = self.assignment_expression();
            return Node::new_assignment_expression('=', expr, right);
        }
        expr
    }

    /// Identifier ::= <identifier name>
    fn identifier(&mut self) -> (r: Option<Rc<Node>>)
        requires
            old(self).wf(),
        ensures
            final(self).wf(),
            final(self).tokens == old(self).tokens,
            final(self).pos >= old(self).pos,
            r == identifier_at(old(self).tokens@, old(self).pos as int),
            final(self).pos == after_token(old(self).tokens@, old(self).pos as int),
    {
        if self.pos >= self.tokens.len() {
            return None;
        }
        let i = self.pos;
        self.pos = self.pos + 1;
        match &self.tokens[i] {
            Token::Identifier(name) => Node::new_identifier(name.clone()),
            _ => None,
        }
    }

    /// Initialiser ::= '=' AssignmentExpression, read only when the cursor is at `=`.
    fn initialiser(&mut self) -> (r: Option<Rc<Node>>)
        requires
            old(self).wf(),
        ensures
            final(self).wf(),
            final(self).tokens == old(self).tokens,
            final(self).pos >= old(self).pos,
            (r, final(self).pos as int) == if punct_at(old(self).tokens@, old(self).pos as int, '=') {
                assignment_at(old(self).tokens@, old(self).pos + 1)
            } else {
                (None, old(self).pos as int)
            },
    {
        if self.peek_is('=') {
            self.pos = self.pos + 1;
            return self.assignment_expression();
        }
        None
    }

    /// VariableDeclaration ::= Identifier ( Initialiser )?, after the keyword `var`.
    fn variable_declaration(&mut self) -> (r: Option<Rc<Node>>)
        requires
            old(self).wf(),
        ensures
            final(self).wf(),
            final(self).tokens == old(self).tokens,
            final(self).pos >= old(self).pos,
            r is Some,
            (*r->0) is VariableDeclaration,
            ({
                let t = old(self).tokens@;
                let i = old(self).pos as int;
                let id = identifier_at(t, i);
                let j = after_token(t, i);
                let (init, k0) = if punct_at(t, j, '=') {
                    assignment_at(t, j + 1)
                } else {
                    (None, j)
                };
                &&& (*r->0 matches Node::VariableDeclaration { declarations }
                    && declarations@ == seq![Some(Rc::new(Node::VariableDeclarator { id, init }))])
                &&& final(self).pos == k0
            }),
    {
        let ident = self.identifier();
        let init = self.initialiser();
        let declarator = Node::new_variable_declarator(ident, init);
        let mut declarations: Vec<Option<Rc<Node>>> = Vec::new();
        declarations.push(declarator);
        Node::new_variable_declaration(declarations)
    }

    /// Statement ::= 'var' VariableDeclaration ';'? | AssignmentExpression ';'?
    fn statement(&mut self) -> (r: Option<Rc<Node>>)
        requires
            old(self).wf(),
        ensures
            final(self).wf(),
            final(self).tokens == old(self).tokens,
            old(self).pos < old(self).tokens@.len() ==> final(self).pos > old(self).pos && r is Some,
            old(self).pos >= old(self).tokens@.len() ==> final(self).pos == old(self).pos && r is None,
            old(self).pos < old(self).tokens@.len() && !(old(self).tokens@[old(self).pos as int] is Keyword) ==>
                (r->0, final(self).pos as int) == expression_statement_at(old(self).tokens@, old(self).pos as int),
            old(self).pos < old(self).tokens@.len() && old(self).tokens@[old(self).pos as int] is Keyword ==>
                (*r->0) is VariableDeclaration,
            old(self).pos < old(self).tokens@.len() ==> statement_at(old(self).tokens@, old(self).pos as int, r->0, final(self).pos as int),
    {
        if self.pos >= self.tokens.len() {
            return None;
        }
        let is_var = match &self.tokens[self.pos] {
            Token::Keyword(_) => true,
            _ => false,
        };
        let node = if is_var {
            self.pos = self.pos + 1;
            self.variable_declaration()
        } else {
            let start = self.pos;
            let e = self.assignment_expression();
            if self.pos == start {
                self.pos = self.pos + 1;
            }
            Node::new_expression_statement(e)
        };
        if self.peek_is(';') {
            self.pos = self.pos + 1;
        }
        node
    }

    /// SourceElement ::= Statement
    fn source_element(&mut self) -> (r: Option<Rc<Node>>)
        requires
            old(self).wf(),
        ensures
            final(self).wf(),
            final(self).tokens == old(self).tokens,
            old(self).pos < old(self).tokens@.len() ==> final(self).pos > old(self).pos && r is Some,
            old(self).pos >= old(self).tokens@.len() ==> final(self).pos == old(self).pos && r is None,
            old(self).pos < old(self).tokens@.len() && !(old(self).tokens@[old(self).pos as int] is Keyword) ==>
                (r->0, final(self).pos as int) == expression_statement_at(old(self).tokens@, old(self).pos as int),
            old(self).pos < old(self).tokens@.len() ==> statement_at(old(self).tokens@, old(self).pos as int, r->0, final(self).pos as int),
    {
        self.statement()
    }

    /// Program ::= SourceElement*, up to the end of the tokens.
    pub fn parse_ast(&mut self) -> (r: Program)
        requires
            old(self).wf(),
        ensures
            final(self).wf(),
            final(self).pos_view() == final(self).tokens_view().len(),
            r.body_view().len() <= old(self).tokens_view().len() - old(self).pos_view(),
            old(self).pos_view() < old(self).tokens_view().len() ==> r.body_view().len() > 0,
            (forall|k: int| 0 <= k < old(self).tokens_view().len() ==> !(#[trigger] old(self).tokens_view()[k] is Keyword))
                ==> r.body_view() == program_from(old(self).tokens_view(), old(self).pos_view()),
            exists|ps: Seq<int>| #[trigger] statements_at(old(self).tokens_view(), ps, r.body_view())
                && ps[0] == old(self).pos_view(),
    {
        let mut program = Program::new();
        let mut body: Vec<Rc<Node>> = Vec::new();
        let start = self.pos;
        let ghost mut ps: Seq<int> = seq![start as int];
        loop
            invariant
                ps.len() == body@.len() + 1,
                ps[0] == start,
                ps.last() == self.pos,
                forall|k: int| 0 <= k < body@.len() ==> #[trigger] statement_at(self.tokens@, ps[k], body@[k], ps[k + 1]),
                self.wf(),
                self.tokens == old(self).tokens,
                start == old(self).pos,
                start <= self.pos,
                body@.len() <= self.pos - start,
                self.pos > start ==> body@.len() > 0,
                (forall|k: int| 0 <= k < self.tokens@.len() ==> !(#[trigger] self.tokens@[k] is Keyword))
                    ==> body@ + program_from(self.tokens@, self.pos as int) == program_from(self.tokens@, start as int),
            decreases self.tokens@.len() - self.pos,
        {
            let ghost i = self.pos as int;
            let ghost before = body@;
            match self.source_element() {
                Some(n) => {
                    body.push(n);
                    proof {
                        let old_ps = ps;
                        ps = ps.push(self.pos as int);
                        assert forall|k: int| 0 <= k < body@.len() implies #[trigger] statement_at(self.tokens@, ps[k], body@[k], ps[k + 1]) by {
                            if k < before.len() {
                                assert(body@[k] == before[k]);
                                assert(ps[k] == old_ps[k] && ps[k + 1] == old_ps[k + 1]);
                            }
                        }
                        if forall|k: int| 0 <= k < self.tokens@.len() ==> !(#[trigger] self.tokens@[k] is Keyword) {
                            assert(!(self.tokens@[i] is Keyword));
                            assert(program_from(self.tokens@, i) == seq![n] + program_from(self.tokens@, self.pos as int));
                            assert(body@ + program_from(self.tokens@, self.pos as int) =~= before + (seq![n] + program_from(self.tokens@, self.pos as int)));
                        }
                    }
                },
                None => {
                    proof {
                        assert(program_from(self.tokens@, self.pos as int) == Seq::<Rc<Node>>::empty());
                        assert(body@ + Seq::<Rc<Node>>::empty() =~= body@);
                    }
                    program.set_body(body);
                    proof {
                        assert(statements_at(self.tokens@, ps, program.body_view()));
                    }
                    return program;
                },
            }
        }
    }
}

} // verus!
