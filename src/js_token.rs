use vstd::prelude::*;
use crate::text::{chars_of, string_of, ascii_alpha, ascii_digit, is_ascii_alpha, is_ascii_digit, digit_value};

verus! {

/// A token of the script language.
#[derive(Debug, Clone, PartialEq, Eq)]
pub enum Token {
    Punctuator(char),
    Number(u64),
    Identifier(String),
    Keyword(String),
    StringLiteral(String),
}

pub open spec fn is_punctuator(c: char) -> bool {
    c == '+' || c == '-' || c == ';' || c == '=' || c == '(' || c == ')' || c == '{' || c == '}'
        || c == ',' || c == '.'
}

pub open spec fn is_ident_start(c: char) -> bool {
    is_ascii_alpha(c) || c == '_'
}

pub open spec fn is_ident_part(c: char) -> bool {
    is_ascii_alpha(c) || c == '_' || is_ascii_digit(c)
}

/// The value of a run of decimal digits, stopping at `u64::MAX`.
pub open spec fn decimal_value(s: Seq<char>) -> int
    decreases s.len(),
{
    if s.len() == 0 {
        0
    } else {
        let v = decimal_value(s.drop_last()) * 10 + digit_value(s.last());
        if v > u64::MAX {
            u64::MAX as int
        } else {
            v
        }
    }
}

/// The first index from `pos` on that holds neither a space nor a newline.
pub open spec fn js_token_start(input: Seq<char>, pos: int) -> int
    decreases input.len() - pos,
{
    if pos < 0 || pos >= input.len() {
        input.len() as int
    } else if input[pos] == ' ' || input[pos] == '\n' {
        js_token_start(input, pos + 1)
    } else {
        pos
    }
}

/// The token that the characters `input[p..q]` make, when `p` is where a token starts.
pub open spec fn js_token_read(input: Seq<char>, p: int, q: int, r: Option<Token>) -> bool {
    if p >= input.len() {
        r is None && q == p
    } else {
        let c = input[p];
        if is_punctuator(c) {
            r == Some(Token::Punctuator(c)) && q == p + 1
        } else if is_ascii_digit(c) {
            &&& p < q <= input.len()
            &&& forall|k: int| p <= k < q ==> is_ascii_digit(#[trigger] input[k])
            &&& (q == input.len() || !is_ascii_digit(input[q]))
            &&& r == Some(Token::Number(decimal_value(input.subrange(p, q)) as u64))
        } else if is_ident_start(c) {
            &&& p < q <= input.len()
            &&& forall|k: int| p < k < q ==> is_ident_part(#[trigger] input[k])
            &&& (q == input.len() || !is_ident_part(input[q]))
            &&& if input.subrange(p, q) == "var"@ {
                r matches Some(Token::Keyword(s)) && s@ == input.subrange(p, q)
            } else {
                r matches Some(Token::Identifier(s)) && s@ == input.subrange(p, q)
            }
        } else if c == '"' || c == '\'' {
            r matches Some(Token::StringLiteral(s)) && p < q <= input.len() && {
                &&& forall|k: int| 0 <= k < s@.len() ==> #[trigger] s@[k] != c
                &&& ((q >= p + 2 && input[q - 1] == c && s@ == input.subrange(p + 1, q - 1))
                    || (q == input.len() && s@ == input.subrange(p + 1, q)))
            }
        } else {
            r is None && q == p
        }
    }
}

/// Turns script text into tokens, one per call of `next`.
pub struct JsLexer {
    pos: usize,
    input: Vec<char>,
}

impl JsLexer {
    pub closed spec fn input_view(&self) -> Seq<char> {
        self.input@
    }

    pub closed spec fn pos_view(&self) -> int {
        self.pos as int
    }

    pub open spec fn wf(&self) -> bool {
        self.pos_view() <= self.input_view().len()
    }

    pub fn new(js: String) -> (r: Self)
        ensures
            r.wf(),
            r.input_view() == js@,
            r.pos_view() == 0,
    {
        Self { pos: 0, input: chars_of(js.as_str()) }
    }

    /// Reads the digits at the cursor.
    fn consume_number(&mut self) -> (r: u64)
        requires
            old(self).wf(),
        ensures
            final(self).wf(),
            final(self).input == old(self).input,
            final(self).pos >= old(self).pos,
            forall|k: int| old(self).pos <= k < final(self).pos ==> is_ascii_digit(#[trigger] old(self).input@[k]),
            final(self).pos < final(self).input@.len() ==> !is_ascii_digit(final(self).input@[final(self).pos as int]),
            r == decimal_value(old(self).input@.subrange(old(self).pos as int, final(self).pos as int)),
    {
        let start = self.pos;
        let mut num: u64 = 0;
        let mut done = false;
        while !done && self.pos < self.input.len()
            invariant
                self.pos <= self.input@.len(),
                self.input == old(self).input,
                start == old(self).pos,
                start <= self.pos,
                done ==> self.pos < self.input@.len() && !is_ascii_digit(self.input@[self.pos as int]),
                forall|k: int| start <= k < self.pos ==> is_ascii_digit(#[trigger] self.input@[k]),
                num == decimal_value(self.input@.subrange(start as int, self.pos as int)),
            decreases self.input@.len() - self.pos + (if done { 0int } else { 1int }),
        {
            let c = self.input[self.pos];
            if ascii_digit(c) {
                let d = (c as u32 - '0' as u32) as u64;
                proof {
                    let t = self.input@.subrange(start as int, self.pos + 1);
                    assert(t.drop_last() =~= self.input@.subrange(start as int, self.pos as int));
                    assert(t.last() == c);
                }
                if num > (u64::MAX - d) / 10 {
                    num = u64::MAX;
                } else {
                    num = num * 10 + d;
                }
                self.pos = self.pos + 1;
            } else {
                done = true;
            }
        }
        num
    }

    /// Reads an identifier or keyword whose first character is at the cursor.
    fn consume_identifier(&mut self) -> (r: Vec<char>)
        requires
            old(self).wf(),
            old(self).pos < old(self).input@.len(),
        ensures
            final(self).wf(),
            final(self).input == old(self).input,
            final(self).pos > old(self).pos,
            r@ == old(self).input@.subrange(old(self).pos as int, final(self).pos as int),
            forall|k: int| old(self).pos < k < final(self).pos ==> is_ident_part(#[trigger] old(self).input@[k]),
            final(self).pos < final(self).input@.len() ==> !is_ident_part(final(self).input@[final(self).pos as int]),
    {
        let start = self.pos;
        let mut s: Vec<char> = Vec::new();
        s.push(self.input[self.pos]);
        let n = self.input.len();
        self.pos = self.pos + 1;
        proof {
            assert(s@ =~= self.input@.subrange(start as int, self.pos as int));
        }
        let mut done = false;
        while !done && self.pos < self.input.len()
            invariant
                self.pos <= self.input@.len(),
                self.input == old(self).input,
                start == old(self).pos,
                start < self.pos,
                done ==> self.pos < self.input@.len() && !is_ident_part(self.input@[self.pos as int]),
                s@ == self.input@.subrange(start as int, self.pos as int),
                forall|k: int| start < k < self.pos ==> is_ident_part(#[trigger] self.input@[k]),
            decreases self.input@.len() - self.pos + (if done { 0int } else { 1int }),
        {
            let c = self.input[self.pos];
            if ascii_alpha(c) || c == '_' || ascii_digit(c) {
                s.push(c);
                self.pos = self.pos + 1;
                proof {
                    assert(s@ =~= self.input@.subrange(start as int, self.pos as int));
                }
            } else {
                done = true;
            }
        }
        s
    }

    /// Reads a string literal whose opening quote is at the cursor, up to the same quote.
    fn consume_string(&mut self) -> (r: Vec<char>)
        requires
            old(self).wf(),
            old(self).pos < old(self).input@.len(),
        ensures
            final(self).wf(),
            final(self).input == old(self).input,
            final(self).pos > old(self).pos,
            ({
                let p = old(self).pos as int;
                let q = final(self).pos as int;
                let quote = old(self).input@[p];
                &&& forall|k: int| 0 <= k < r@.len() ==> #[trigger] r@[k] != quote
                &&& ((q >= p + 2 && old(self).input@[q - 1] == quote && r@ == old(self).input@.subrange(p + 1, q - 1))
                    || (q == old(self).input@.len() && r@ == old(self).input@.subrange(p + 1, q)))
            }),
    {
        let start = self.pos;
        let quote = self.input[self.pos];
        let mut s: Vec<char> = Vec::new();
        let n = self.input.len();
        self.pos = self.pos + 1;
        let mut closed = false;
        while !closed && self.pos < self.input.len()
            invariant
                self.pos <= self.input@.len(),
                self.input == old(self).input,
                start == old(self).pos,
                quote == self.input@[start as int],
                self.pos > start,
                forall|k: int| 0 <= k < s@.len() ==> #[trigger] s@[k] != quote,
                !closed ==> s@ == self.input@.subrange(start + 1, self.pos as int),
                closed ==> self.pos >= start + 2 && self.input@[self.pos - 1] == quote
                    && s@ == self.input@.subrange(start + 1, self.pos - 1),
            decreases self.input@.len() - self.pos + (if closed { 0int } else { 1int }),
        {
            let c = self.input[self.pos];
            self.pos = self.pos + 1;
            if c == quote {
                closed = true;
            } else {
                s.push(c);
                proof {
                    assert(s@ =~= self.input@.subrange(start + 1, self.pos as int));
                }
            }
        }
        s
    }

    /// The next token. Spaces and newlines are skipped; `None` comes at the end of the input
    /// and at a character that no token starts with, and the cursor then stays there.
    pub fn next(&mut self) -> (r: Option<Token>)
        requires
            old(self).wf(),
        ensures
            final(self).wf(),
            final(self).input_view() == old(self).input_view(),
            r is Some ==> final(self).pos_view() > old(self).pos_view(),
            r is None ==> final(self).pos_view() >= old(self).pos_view(),
            js_token_read(old(self).input_view(), js_token_start(old(self).input_view(), old(self).pos_view()), final(self).pos_view(), r),
    {
        while self.pos < self.input.len() && (self.input[self.pos] == ' ' || self.input[self.pos] == '\n')
            invariant
                self.wf(),
                self.input == old(self).input,
                self.pos >= old(self).pos,
                js_token_start(self.input@, self.pos as int) == js_token_start(old(self).input@, old(self).pos as int),
            decreases self.input@.len() - self.pos,
        {
            self.pos = self.pos + 1;
        }
        if self.pos >= self.input.len() {
            return None;
        }
        let c = self.input[self.pos];
        if c == '+' || c == '-' || c == ';' || c == '=' || c == '(' || c == ')' || c == '{' || c == '}'
            || c == ',' || c == '.' {
            self.pos = self.pos + 1;
            return Some(Token::Punctuator(c));
        }
        if ascii_digit(c) {
            let n = self.consume_number();
            return Some(Token::Number(n));
        }
        if ascii_alpha(c) || c == '_' {
            let s = self.consume_identifier();
            let name = string_of(&s);
            if crate::text::str_eq(name.as_str(), "var") {
                return Some(Token::Keyword(name));
            }
            return Some(Token::Identifier(name));
        }
        if c == '"' || c == '\'' {
            let s = self.consume_string();
            return Some(Token::StringLiteral(string_of(&s)));
        }
        None
    }
}

} // verus!
