use vstd::prelude::*;
use crate::css_token::{CssToken, CssTokenizer, Decimal, token_read, token_start};

verus! {

/// What a rule applies to.
#[derive(Debug, Clone, PartialEq)]
pub enum Selector {
    TypeSelector(String),
    ClassSelector(String),
    IdSelector(String),
    UnknownSelector,
}

/// The value of a declaration.
#[derive(Debug, Clone, PartialEq)]
pub enum ComponentValue {
    Ident(String),
    StringToken(String),
    Number(Decimal),
    HashToken(String),
}

/// `property: value`.
#[derive(Debug, Clone, PartialEq)]
pub struct Declaration {
    pub property: String,
    pub value: ComponentValue,
}

/// A selector and the declarations of its block, in source order.
#[derive(Debug, Clone, PartialEq)]
pub struct QualifiedRule {
    pub selector: Selector,
    pub declarations: Vec<Declaration>,
}

/// The rules of a style sheet, in source order.
#[derive(Debug, Clone, PartialEq)]
pub struct StyleSheet {
    pub rules: Vec<QualifiedRule>,
}

impl StyleSheet {
    pub fn new() -> (r: Self)
        ensures
            r.rules@.len() == 0,
    {
        StyleSheet { rules: Vec::new() }
    }
}

/// The selector that a rule starting at `tokens[i]` has.
pub open spec fn selector_at(tokens: Seq<CssToken>, i: int) -> Selector {
    if 0 <= i < tokens.len() {
        match tokens[i] {
            CssToken::Ident(s) => Selector::TypeSelector(s),
            CssToken::HashToken(s) => Selector::IdSelector(s),
            CssToken::Delim(c) => if c == '.' && i + 1 < tokens.len() && tokens[i + 1] is Ident {
                Selector::ClassSelector(tokens[i + 1]->Ident_0)
            } else {
                Selector::UnknownSelector
            },
            _ => Selector::UnknownSelector,
        }
    } else {
        Selector::UnknownSelector
    }
}

/// The value that a declaration takes from a token, if the token can be one.
pub open spec fn component_of(t: CssToken) -> Option<ComponentValue> {
    match t {
        CssToken::Ident(s) => Some(ComponentValue::Ident(s)),
        CssToken::StringToken(s) => Some(ComponentValue::StringToken(s)),
        CssToken::Number(n) => Some(ComponentValue::Number(n)),
        CssToken::HashToken(s) => Some(ComponentValue::HashToken(s)),
        _ => None,
    }
}

/// `tokens[i..i + 3]` reads `Ident ':' value`.
pub open spec fn declaration_at(tokens: Seq<CssToken>, i: int) -> bool {
    &&& 0 <= i
    &&& i + 2 < tokens.len()
    &&& tokens[i] is Ident
    &&& tokens[i + 1] is Colon
    &&& component_of(tokens[i + 2]) is Some
}

/// What a selector says: its kind (type, class, id, unknown) and its name.
pub open spec fn selector_view(s: Selector) -> (nat, Seq<char>) {
    match s {
        Selector::TypeSelector(n) => (0, n@),
        Selector::ClassSelector(n) => (1, n@),
        Selector::IdSelector(n) => (2, n@),
        Selector::UnknownSelector => (3, Seq::empty()),
    }
}

/// What a component value says: its kind, its text and its number.
pub open spec fn component_view(v: ComponentValue) -> (nat, Seq<char>, Decimal) {
    match v {
        ComponentValue::Ident(s) => (0, s@, Decimal { digits: 0, scale: 0 }),
        ComponentValue::StringToken(s) => (1, s@, Decimal { digits: 0, scale: 0 }),
        ComponentValue::Number(n) => (2, Seq::empty(), n),
        ComponentValue::HashToken(s) => (3, s@, Decimal { digits: 0, scale: 0 }),
    }
}

pub type DeclarationView = (Seq<char>, (nat, Seq<char>, Decimal));

pub type RuleView = ((nat, Seq<char>), Seq<DeclarationView>);

pub open spec fn declaration_view(d: Declaration) -> DeclarationView {
    (d.property@, component_view(d.value))
}

pub open spec fn rule_view(r: QualifiedRule) -> RuleView {
    (selector_view(r.selector), r.declarations@.map_values(|d: Declaration| declaration_view(d)))
}

/// How many tokens a selector at `tokens[i]` takes.
pub open spec fn selector_len(tokens: Seq<CssToken>, i: int) -> int {
    if 0 <= i < tokens.len() {
        match tokens[i] {
            CssToken::Ident(_) => 1,
            CssToken::HashToken(_) => 1,
            CssToken::Delim(c) => if c == '.' && i + 1 < tokens.len() && tokens[i + 1] is Ident {
                2
            } else {
                0
            },
            _ => 0,
        }
    } else {
        0
    }
}

/// The index of the first `{` at or after `j`, or the number of tokens.
pub open spec fn open_curly_from(tokens: Seq<CssToken>, j: int) -> int
    decreases tokens.len() - j,
{
    if j < 0 || j >= tokens.len() {
        tokens.len() as int
    } else if tokens[j] is OpenCurly {
        j
    } else {
        open_curly_from(tokens, j + 1)
    }
}

/// The declarations of a block from `tokens[i]` on, and the index after its `}` (or the end):
/// each `Ident ':' value` is a declaration, and every other token is passed over.
pub open spec fn declarations_from(tokens: Seq<CssToken>, i: int) -> (Seq<DeclarationView>, int)
    decreases tokens.len() - i,
{
    if i < 0 || i >= tokens.len() {
        (Seq::empty(), tokens.len() as int)
    } else if tokens[i] is CloseCurly {
        (Seq::empty(), i + 1)
    } else if declaration_at(tokens, i) {
        let (rest, end) = declarations_from(tokens, i + 3);
        (seq![(tokens[i]->Ident_0@, component_view(component_of(tokens[i + 2])->0))] + rest, end)
    } else {
        declarations_from(tokens, i + 1)
    }
}

/// The rules that the tokens from `i` on make: a selector, whatever stands before `{`, then
/// the block; tokens after the last `{` make no rule.
pub open spec fn rules_from(tokens: Seq<CssToken>, i: int) -> Seq<RuleView>
    decreases tokens.len() - i,
{
    if i < 0 || i >= tokens.len() {
        Seq::empty()
    } else {
        let o = open_curly_from(tokens, i + selector_len(tokens, i));
        if o < tokens.len() {
            let (ds, end) = declarations_from(tokens, o + 1);
            let rule = (selector_view(selector_at(tokens, i)), ds);
            if end > i && end <= tokens.len() {
                seq![rule] + rules_from(tokens, end)
            } else {
                seq![rule]
            }
        } else {
            Seq::empty()
        }
    }
}

/// Reading from `input` at the positions `ps`, one call of `next` after another, gives the
/// tokens `toks`: the call that starts at `ps[k]` gives `toks[k]` and stops at `ps[k + 1]`.
pub open spec fn css_tokens_between(input: Seq<char>, ps: Seq<int>, toks: Seq<CssToken>) -> bool {
    &&& ps.len() == toks.len() + 1
    &&& forall|k: int| 0 <= k < toks.len() ==> #[trigger] token_read(input, token_start(input, ps[k]), ps[k + 1], Some(toks[k]))
}

/// `toks` are all the tokens that calls of `next` read from `input` from position `p0` on, up
/// to the first call that gives none.
pub open spec fn css_tokens(input: Seq<char>, p0: int, toks: Seq<CssToken>) -> bool {
    exists|ps: Seq<int>| #[trigger] css_tokens_between(input, ps, toks) && ps[0] == p0
        && exists|q: int| token_read(input, token_start(input, ps.last()), q, None)
}

/// Recursive-descent parser over the tokens of a `CssTokenizer`.
pub struct CssParser {
    tokens: Vec<CssToken>,
    pos: usize,
}

impl CssParser {
    pub closed spec fn tokens_view(&self) -> Seq<CssToken> {
        self.tokens@
    }

    pub closed spec fn pos_view(&self) -> int {
        self.pos as int
    }

    /// Reads all tokens of `t`.
    pub fn new(t: CssTokenizer) -> (r: Self)
        requires
            t.wf(),
        ensures
            r.pos_view() == 0,
            css_tokens(t.input_view(), t.pos_view(), r.tokens_view()),
    {
        let ghost input = t.input_view();
        let ghost p0 = t.pos_view();
        let mut lexer = t;
        let mut tokens: Vec<CssToken> = Vec::new();
        let ghost mut ps: Seq<int> = seq![p0];
        loop
            invariant
                lexer.wf(),
                lexer.input_view() == input,
                t.input_view() == input,
                t.pos_view() == p0,
                css_tokens_between(input, ps, tokens@),
                ps[0] == p0,
                ps.last() == lexer.pos_view(),
            decreases lexer.input_view().len() - lexer.pos_view(),
        {
            let ghost m = lexer.pos_view();
            let ghost before = tokens@;
            match lexer.next() {
                Some(token) => {
                    tokens.push(token);
                    proof {
                        let old_ps = ps;
                        ps = ps.push(lexer.pos_view());
                        assert forall|k: int| 0 <= k < tokens@.len() implies #[trigger] token_read(input, token_start(input, ps[k]), ps[k + 1], Some(tokens@[k])) by {
                            if k < before.len() {
                                assert(tokens@[k] == before[k]);
                                assert(ps[k] == old_ps[k] && ps[k + 1] == old_ps[k + 1]);
                            }
                        }
                    }
                },
                None => {
                    let r = CssParser { tokens, pos: 0 };
                    proof {
                        assert(token_read(input, token_start(input, ps.last()), lexer.pos_view(), None::<CssToken>));
                        assert(css_tokens_between(input, ps, r.tokens_view()));
                        assert(ps[0] == p0);
                        assert(exists|q: int| token_read(input, token_start(input, ps.last()), q, None::<CssToken>));
                        assert(css_tokens(input, p0, r.tokens_view()));
                    }
                    return r;
                },
            }
        }
    }

    fn component_value(&self, i: usize) -> (r: Option<ComponentValue>)
        requires
            i < self.tokens@.len(),
        ensures
            r == component_of(self.tokens@[i as int]),
    {
        match &self.tokens[i] {
            CssToken::Ident(s) => Some(ComponentValue::Ident(s.clone())),
            CssToken::StringToken(s) => Some(ComponentValue::StringToken(s.clone())),
            CssToken::Number(n) => Some(ComponentValue::Number(*n)),
            CssToken::HashToken(s) => Some(ComponentValue::HashToken(s.clone())),
            _ => None,
        }
    }

    /// Reads a selector at the cursor.
    fn consume_selector(&mut self) -> (r: Selector)
        requires
            old(self).pos <= old(self).tokens@.len(),
        ensures
            r == selector_at(old(self).tokens@, old(self).pos as int),
            final(self).tokens == old(self).tokens,
            final(self).pos == old(self).pos + selector_len(old(self).tokens@, old(self).pos as int),
    {
        let n = self.tokens.len();
        if self.pos >= n {
            return Selector::UnknownSelector;
        }
        match &self.tokens[self.pos] {
            CssToken::Ident(s) => {
                let s = s.clone();
                self.pos = self.pos + 1;
                Selector::TypeSelector(s)
            },
            CssToken::HashToken(s) => {
                let s = s.clone();
                self.pos = self.pos + 1;
                Selector::IdSelector(s)
            },
            CssToken::Delim(c) => {
                if *c == '.' && self.pos + 1 < n {
                    match &self.tokens[self.pos + 1] {
                        CssToken::Ident(s) => {
                            let s = s.clone();
                            self.pos = self.pos + 2;
                            return Selector::ClassSelector(s);
                        },
                        _ => {},
                    }
                }
                Selector::UnknownSelector
            },
            _ => Selector::UnknownSelector,
        }
    }

    /// Reads declarations up to and including the `}` that closes the block.
    fn consume_list_of_declarations(&mut self) -> (r: Vec<Declaration>)
        requires
            old(self).pos <= old(self).tokens@.len(),
        ensures
            final(self).tokens == old(self).tokens,
            r@.map_values(|d: Declaration| declaration_view(d)) == declarations_from(old(self).tokens@, old(self).pos as int).0,
            final(self).pos == declarations_from(old(self).tokens@, old(self).pos as int).1,
    {
        let mut declarations: Vec<Declaration> = Vec::new();
        let n = self.tokens.len();
        let start = self.pos;
        while self.pos < n
            invariant
                self.tokens == old(self).tokens,
                n == self.tokens@.len(),
                start == old(self).pos,
                start <= self.pos <= n,
                declarations@.map_values(|d: Declaration| declaration_view(d)) + declarations_from(self.tokens@, self.pos as int).0
                    == declarations_from(self.tokens@, start as int).0,
                declarations_from(self.tokens@, self.pos as int).1 == declarations_from(self.tokens@, start as int).1,
            decreases n - self.pos,
        {
            let ghost toks = self.tokens@;
            let ghost before = declarations@.map_values(|d: Declaration| declaration_view(d));
            let ghost i = self.pos as int;
            match &self.tokens[self.pos] {
                CssToken::CloseCurly => {
                    self.pos = self.pos + 1;
                    proof {
                        assert(before + Seq::<DeclarationView>::empty() =~= before);
                    }
                    return declarations;
                },
                CssToken::Ident(property) => {
                    let property = property.clone();
                    if n - self.pos > 2 {
                        let is_colon = match &self.tokens[self.pos + 1] {
                            CssToken::Colon => true,
                            _ => false,
                        };
                        if is_colon {
                            match self.component_value(self.pos + 2) {
                                Some(value) => {
                                    let d = Declaration { property, value };
                                    proof {
                                        assert(declaration_at(toks, i));
                                        assert(declaration_view(d) == (toks[i]->Ident_0@, component_view(component_of(toks[i + 2])->0)));
                                    }
                                    declarations.push(d);
                                    self.pos = self.pos + 3;
                                    proof {
                                        let rest = declarations_from(toks, i + 3).0;
                                        assert(declarations@.map_values(|d: Declaration| declaration_view(d)) =~= before.push(declaration_view(d)));
                                        assert(before.push(declaration_view(d)) + rest =~= before + (seq![declaration_view(d)] + rest));
                                    }
                                    continue;
                                },
                                None => {},
                            }
                        }
                    }
                    self.pos = self.pos + 1;
                },
                _ => {
                    self.pos = self.pos + 1;
                },
            }
        }
        proof {
            assert(declarations@.map_values(|d: Declaration| declaration_view(d)) + Seq::<DeclarationView>::empty()
                =~= declarations@.map_values(|d: Declaration| declaration_view(d)));
        }
        declarations
    }

    /// Reads one rule: a selector, then whatever stands before `{`, then the block.
    fn consume_qualified_rule(&mut self) -> (r: Option<QualifiedRule>)
        requires
            old(self).pos < old(self).tokens@.len(),
        ensures
            final(self).tokens == old(self).tokens,
            ({
                let toks = old(self).tokens@;
                let i = old(self).pos as int;
                let o = open_curly_from(toks, i + selector_len(toks, i));
                if o < toks.len() {
                    &&& r is Some
                    &&& rule_view(r->0) == (selector_view(selector_at(toks, i)), declarations_from(toks, o + 1).0)
                    &&& final(self).pos == declarations_from(toks, o + 1).1
                } else {
                    r is None && final(self).pos == toks.len()
                }
            }),
    {
        let start = self.pos;
        let selector = self.consume_selector();
        let n = self.tokens.len();
        while self.pos < n
            invariant
                self.tokens == old(self).tokens,
                n == self.tokens@.len(),
                start <= self.pos <= n,
                start == old(self).pos,
                selector == selector_at(old(self).tokens@, start as int),
                open_curly_from(self.tokens@, self.pos as int)
                    == open_curly_from(self.tokens@, start + selector_len(self.tokens@, start as int)),
            decreases n - self.pos,
        {
            let open = match &self.tokens[self.pos] {
                CssToken::OpenCurly => true,
                _ => false,
            };
            self.pos = self.pos + 1;
            if open {
                let declarations = self.consume_list_of_declarations();
                return Some(QualifiedRule { selector, declarations });
            }
        }
        None
    }

    /// The style sheet that the tokens spell, rule by rule in source order.
    pub fn parse_stylesheet(&mut self) -> (r: StyleSheet)
        ensures
            final(self).tokens_view() == old(self).tokens_view(),
            r.rules@.map_values(|q: QualifiedRule| rule_view(q)) == rules_from(old(self).tokens_view(), old(self).pos_view()),
    {
        let mut rules: Vec<QualifiedRule> = Vec::new();
        let n = self.tokens.len();
        if self.pos > n {
            self.pos = n;
        }
        let ghost start = self.pos as int;
        proof {
            assert(rules_from(self.tokens@, start) == rules_from(self.tokens@, old(self).pos as int));
        }
        while self.pos < n
            invariant
                self.tokens == old(self).tokens,
                n == self.tokens@.len(),
                self.pos <= n,
                rules@.map_values(|q: QualifiedRule| rule_view(q)) + rules_from(self.tokens@, self.pos as int)
                    == rules_from(self.tokens@, old(self).pos as int),
            decreases n - self.pos,
        {
            let ghost toks = self.tokens@;
            let ghost i = self.pos as int;
            let ghost before = rules@.map_values(|q: QualifiedRule| rule_view(q));
            proof {
                lemma_open_curly_from_at_least(toks, i + selector_len(toks, i));
            }
            match self.consume_qualified_rule() {
                Some(rule) => {
                    proof {
                        let o = open_curly_from(toks, i + selector_len(toks, i));
                        lemma_declarations_end(toks, o + 1);
                        assert(rules_from(toks, i) == seq![rule_view(rule)] + rules_from(toks, self.pos as int));
                    }
                    rules.push(rule);
                    proof {
                        assert(rules@.map_values(|q: QualifiedRule| rule_view(q)) =~= before.push(rule_view(rule)));
                        assert(before.push(rule_view(rule)) + rules_from(toks, self.pos as int)
                            =~= before + (seq![rule_view(rule)] + rules_from(toks, self.pos as int)));
                    }
                },
                None => {
                    proof {
                        assert(rules_from(toks, i) == Seq::<RuleView>::empty());
                        assert(rules_from(toks, self.pos as int) == Seq::<RuleView>::empty());
                    }
                },
            }
        }
        proof {
            assert(rules_from(self.tokens@, self.pos as int) == Seq::<RuleView>::empty());
            assert(rules@.map_values(|q: QualifiedRule| rule_view(q)) + Seq::<RuleView>::empty()
                =~= rules@.map_values(|q: QualifiedRule| rule_view(q)));
        }
        StyleSheet { rules }
    }
}

proof fn lemma_open_curly_from_at_least(tokens: Seq<CssToken>, j: int)
    requires
        0 <= j,
    ensures
        open_curly_from(tokens, j) >= j || open_curly_from(tokens, j) == tokens.len(),
        open_curly_from(tokens, j) <= tokens.len(),
    decreases tokens.len() - j,
{
    if j < tokens.len() && !(tokens[j] is OpenCurly) {
        lemma_open_curly_from_at_least(tokens, j + 1);
    }
}

proof fn lemma_declarations_end(tokens: Seq<CssToken>, j: int)
    requires
        0 <= j,
    ensures
        declarations_from(tokens, j).1 >= j || declarations_from(tokens, j).1 == tokens.len(),
        declarations_from(tokens, j).1 <= tokens.len(),
    decreases tokens.len() - j,
{
    if j < tokens.len() && !(tokens[j] is CloseCurly) {
        if declaration_at(tokens, j) {
            lemma_declarations_end(tokens, j + 3);
        } else {
            lemma_declarations_end(tokens, j + 1);
        }
    }
}

} // verus!
