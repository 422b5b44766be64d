use vstd::prelude::*;
use crate::text::{chars_of, string_of, ascii_alpha, ascii_digit, is_ascii_alpha, is_ascii_digit, digit_value};

verus! {

/// A number as written in CSS: `digits` over ten to the power `scale`. `digits` stops growing
/// at `u64::MAX`.
#[derive(Debug, Clone, Copy, PartialEq, Eq, Structural)]
pub struct Decimal {
    pub digits: u64,
    pub scale: usize,
}

/// The tokens of CSS that the parser understands.
#[derive(Debug, Clone, PartialEq)]
pub enum CssToken {
    HashToken(String),
    Delim(char),
    Number(Decimal),
    Colon,
    SemiColon,
    OpenParenthesis,
    CloseParenthesis,
    OpenCurly,
    CloseCurly,
    Ident(String),
    StringToken(String),
    AtKeyword(String),
}

/// Letters, digits, `-` and `_`.
pub open spec fn is_ident_char(c: char) -> bool {
    is_ascii_alpha(c) || is_ascii_digit(c) || c == '-' || c == '_'
}

pub open spec fn is_css_space(c: char) -> bool {
    c == ' ' || c == '\n' || c == '\t' || c == '\r'
}

/// The value of the digits of `s`, read in base ten; other characters are passed over.
pub open spec fn digits_value(s: Seq<char>) -> int
    decreases s.len(),
{
    if s.len() == 0 {
        0
    } else if is_ascii_digit(s.last()) {
        digits_value(s.drop_last()) * 10 + digit_value(s.last())
    } else {
        digits_value(s.drop_last())
    }
}

/// How many digits of `s` follow its first `.`.
pub open spec fn fraction_digits(s: Seq<char>) -> int
    decreases s.len(),
{
    if s.len() == 0 {
        0
    } else if is_ascii_digit(s.last()) && s.drop_last().contains('.') {
        fraction_digits(s.drop_last()) + 1
    } else {
        fraction_digits(s.drop_last())
    }
}

pub open spec fn clamp_u64(x: int) -> int {
    if x > u64::MAX {
        u64::MAX as int
    } else {
        x
    }
}

/// The first index from `pos` on that does not hold whitespace.
pub open spec fn token_start(input: Seq<char>, pos: int) -> int
    decreases input.len() - pos,
{
    if pos < 0 || pos >= input.len() {
        input.len() as int
    } else if is_css_space(input[pos]) {
        token_start(input, pos + 1)
    } else {
        pos
    }
}

/// `input[p..q]` is a longest run that starts at `p` and goes on with identifier characters.
pub open spec fn ident_span(input: Seq<char>, p: int, q: int) -> bool {
    &&& 0 <= p < q <= input.len()
    &&& forall|k: int| p < k < q ==> is_ident_char(#[trigger] input[k])
    &&& q == input.len() || !is_ident_char(input[q])
}

/// The string that opens with the quote at `p` holds `s` and ends before `q`: at the same
/// quote, or at the end of the input.
pub open spec fn string_span(input: Seq<char>, p: int, q: int, s: Seq<char>) -> bool {
    let quote = input[p];
    &&& 0 <= p < input.len()
    &&& p < q <= input.len()
    &&& forall|k: int| 0 <= k < s.len() ==> #[trigger] s[k] != quote
    &&& ((q >= p + 2 && input[q - 1] == quote && s == input.subrange(p + 1, q - 1))
        || (q == input.len() && s == input.subrange(p + 1, q)))
}

/// `input[p..q]` is a longest run of digits and `.` that starts at `p`.
pub open spec fn number_span(input: Seq<char>, p: int, q: int) -> bool {
    &&& 0 <= p < q <= input.len()
    &&& forall|k: int| p <= k < q ==> is_ascii_digit(#[trigger] input[k]) || input[k] == '.'
    &&& q == input.len() || !(is_ascii_digit(input[q]) || input[q] == '.')
}

/// An `@` at `p` starts an at-keyword: the next three characters can begin an identifier.
pub open spec fn at_keyword_start(input: Seq<char>, p: int) -> bool {
    &&& p + 3 < input.len()
    &&& is_ascii_alpha(input[p + 1])
    &&& (is_ascii_alpha(input[p + 2]) || is_ascii_digit(input[p + 2]))
    &&& (is_ascii_alpha(input[p + 3]) || is_ascii_digit(input[p + 3]))
}

/// The token that the characters `input[p..q]` make, when `p` is where a token starts.
pub open spec fn token_read(input: Seq<char>, p: int, q: int, r: Option<CssToken>) -> bool {
    if p >= input.len() {
        r is None && q == p
    } else {
        let c = input[p];
        if c == '(' {
            r == Some(CssToken::OpenParenthesis) && q == p + 1
        } else if c == ')' {
            r == Some(CssToken::CloseParenthesis) && q == p + 1
        } else if c == ',' {
            r == Some(CssToken::Delim(',')) && q == p + 1
        } else if c == '.' {
            r == Some(CssToken::Delim('.')) && q == p + 1
        } else if c == ':' {
            r == Some(CssToken::Colon) && q == p + 1
        } else if c == ';' {
            r == Some(CssToken::SemiColon) && q == p + 1
        } else if c == '{' {
            r == Some(CssToken::OpenCurly) && q == p + 1
        } else if c == '}' {
            r == Some(CssToken::CloseCurly) && q == p + 1
        } else if c == '"' || c == '\'' {
            r matches Some(CssToken::StringToken(s)) && string_span(input, p, q, s@)
        } else if c == '#' {
            r matches Some(CssToken::HashToken(s)) && if p + 1 < input.len() && is_ident_char(input[p + 1]) {
                ident_span(input, p + 1, q) && s@ == input.subrange(p + 1, q)
            } else {
                q == p + 1 && s@.len() == 0
            }
        } else if c == '@' {
            if at_keyword_start(input, p) {
                r matches Some(CssToken::AtKeyword(s)) && ident_span(input, p + 1, q) && s@ == input.subrange(p + 1, q)
            } else {
                r == Some(CssToken::Delim('@')) && q == p + 1
            }
        } else if is_ascii_digit(c) {
            r matches Some(CssToken::Number(n)) && number_span(input, p, q)
                && n.digits == clamp_u64(digits_value(input.subrange(p, q)))
                && n.scale == fraction_digits(input.subrange(p, q))
        } else if is_ascii_alpha(c) || c == '-' || c == '_' {
            r matches Some(CssToken::Ident(s)) && ident_span(input, p, q) && s@ == input.subrange(p, q)
        } else {
            r is None && q == p
        }
    }
}

/// Turns CSS text into tokens, one per call of `next`.
#[derive(Debug, Clone, PartialEq)]
pub struct CssTokenizer {
    pos: usize,
    input: Vec<char>,
}

impl CssTokenizer {
    pub closed spec fn input_view(&self) -> Seq<char> {
        self.input@
    }

    pub closed spec fn pos_view(&self) -> int {
        self.pos as int
    }

    pub open spec fn wf(&self) -> bool {
        self.pos_view() <= self.input_view().len()
    }

    pub fn new(css: String) -> (r: Self)
        ensures
            r.wf(),
            r.input_view() == css@,
            r.pos_view() == 0,
    {
        Self { pos: 0, input: chars_of(css.as_str()) }
    }

    /// Reads a string whose opening quote is at the cursor, up to the same quote or the end.
    fn consume_string_token(&mut self) -> (r: String)
        requires
            old(self).wf(),
            old(self).pos < old(self).input@.len(),
        ensures
            final(self).wf(),
            final(self).input == old(self).input,
            string_span(old(self).input@, old(self).pos as int, final(self).pos as int, r@),
    {
        let start = self.pos;
        let quote = self.input[self.pos];
        let mut s: Vec<char> = Vec::new();
        let n = self.input.len();
        self.pos = self.pos + 1;
        let mut closed = false;
        while !closed && self.pos < self.input.len()
            invariant
                self.wf(),
                self.input == old(self).input,
                start == old(self).pos,
                quote == self.input@[start as int],
                self.pos > start,
                forall|k: int| 0 <= k < s@.len() ==> #[trigger] s@[k] != quote,
                !closed ==> s@ == self.input@.subrange(start + 1, self.pos as int),
                closed ==> self.pos >= start + 2 && self.input@[self.pos - 1] == quote
                    && s@ == self.input@.subrange(start + 1, self.pos - 1),
            decreases self.input@.len() - self.pos + (if closed { 0int } else { 1int }),
        {
            let c = self.input[self.pos];
            self.pos = self.pos + 1;
            if c == quote {
                closed = true;
            } else {
                s.push(c);
                proof {
                    assert(s@ =~= self.input@.subrange(start + 1, self.pos as int));
                }
            }
        }
        string_of(&s)
    }

    /// Reads digits and `.` from the cursor on.
    fn consume_numeric_token(&mut self) -> (r: Decimal)
        requires
            old(self).wf(),
        ensures
            final(self).wf(),
            final(self).input == old(self).input,
            final(self).pos >= old(self).pos,
            forall|k: int| old(self).pos <= k < final(self).pos ==> is_ascii_digit(#[trigger] old(self).input@[k]) || old(self).input@[k] == '.',
            final(self).pos < final(self).input@.len() ==> !is_ascii_digit(final(self).input@[final(self).pos as int]) && final(self).input@[final(self).pos as int] != '.',
            r.digits == clamp_u64(digits_value(old(self).input@.subrange(old(self).pos as int, final(self).pos as int))),
            r.scale == fraction_digits(old(self).input@.subrange(old(self).pos as int, final(self).pos as int)),
    {
        let start = self.pos;
        let mut digits: u64 = 0;
        let mut scale: usize = 0;
        let mut floating = false;
        let mut done = false;
        while !done && self.pos < self.input.len()
            invariant
                done ==> self.pos < self.input@.len() && !is_ascii_digit(self.input@[self.pos as int]) && self.input@[self.pos as int] != '.',
                self.wf(),
                self.input == old(self).input,
                start == old(self).pos,
                start <= self.pos,
                forall|k: int| start <= k < self.pos ==> is_ascii_digit(#[trigger] self.input@[k]) || self.input@[k] == '.',
                digits == clamp_u64(digits_value(self.input@.subrange(start as int, self.pos as int))),
                scale == fraction_digits(self.input@.subrange(start as int, self.pos as int)),
                floating == self.input@.subrange(start as int, self.pos as int).contains('.'),
                scale <= self.pos - start,
            decreases self.input@.len() - self.pos + (if done { 0int } else { 1int }),
        {
            let c = self.input[self.pos];
            let ghost before = self.input@.subrange(start as int, self.pos as int);
            if ascii_digit(c) {
                let d = (c as u32 - '0' as u32) as u64;
                if digits > (u64::MAX - d) / 10 {
                    digits = u64::MAX;
                } else {
                    digits = digits * 10 + d;
                }
                if floating {
                    scale = scale + 1;
                }
            } else if c == '.' {
                floating = true;
            } else {
                done = true;
            }
            if done {
                continue;
            }
            self.pos = self.pos + 1;
            proof {
                let after = self.input@.subrange(start as int, self.pos as int);
                assert(after.drop_last() =~= before);
                assert(after.last() == c);
                if is_ascii_digit(c) {
                    assert(digits_value(after) == digits_value(before) * 10 + digit_value(c));
                }
                assert(after.contains('.') == (before.contains('.') || c == '.')) by {
                    if c == '.' {
                        assert(after[after.len() - 1] == '.');
                    }
                    if before.contains('.') {
                        let k = choose|k: int| 0 <= k < before.len() && before[k] == '.';
                        assert(after[k] == '.');
                    }
                    if after.contains('.') && c != '.' {
                        let k = choose|k: int| 0 <= k < after.len() && after[k] == '.';
                        assert(before[k] == '.');
                    }
                }
            }
        }
        Decimal { digits, scale }
    }

    /// Reads an identifier whose first character is at the cursor.
    fn consume_ident_token(&mut self) -> (r: String)
        requires
            old(self).wf(),
            old(self).pos < old(self).input@.len(),
        ensures
            final(self).wf(),
            final(self).input == old(self).input,
            final(self).pos > old(self).pos,
            r@ == old(self).input@.subrange(old(self).pos as int, final(self).pos as int),
            forall|k: int| old(self).pos < k < final(self).pos ==> is_ident_char(#[trigger] old(self).input@[k]),
            final(self).pos < final(self).input@.len() ==> !is_ident_char(final(self).input@[final(self).pos as int]),
    {
        let start = self.pos;
        let mut s: Vec<char> = Vec::new();
        s.push(self.input[self.pos]);
        let n = self.input.len();
        self.pos = self.pos + 1;
        proof {
            assert(s@ =~= self.input@.subrange(start as int, self.pos as int));
        }
        let mut done = false;
        while !done && self.pos < self.input.len()
            invariant
                done ==> self.pos < self.input@.len() && !is_ident_char(self.input@[self.pos as int]),
                self.wf(),
                self.input == old(self).input,
                start == old(self).pos,
                start < self.pos,
                s@ == self.input@.subrange(start as int, self.pos as int),
                forall|k: int| start < k < self.pos ==> is_ident_char(#[trigger] self.input@[k]),
            decreases self.input@.len() - self.pos + (if done { 0int } else { 1int }),
        {
            let c = self.input[self.pos];
            if ascii_alpha(c) || ascii_digit(c) || c == '-' || c == '_' {
                s.push(c);
                self.pos = self.pos + 1;
                proof {
                    assert(s@ =~= self.input@.subrange(start as int, self.pos as int));
                }
            } else {
                done = true;
            }
        }
        string_of(&s)
    }

    /// The next token. Whitespace is skipped; `None` comes at the end of the input and at a
    /// character that no token starts with, and the cursor then stays where it is.
    pub fn next(&mut self) -> (r: Option<CssToken>)
        requires
            old(self).wf(),
        ensures
            final(self).wf(),
            final(self).input_view() == old(self).input_view(),
            r is Some ==> final(self).pos_view() > old(self).pos_view(),
            r is None ==> final(self).pos_view() >= old(self).pos_view(),
            token_read(old(self).input_view(), token_start(old(self).input_view(), old(self).pos_view()), final(self).pos_view(), r),
    {
        while self.pos < self.input.len()
            invariant
                self.wf(),
                self.input == old(self).input,
                self.pos >= old(self).pos,
                token_start(self.input@, self.pos as int) == token_start(old(self).input@, old(self).pos as int),
            decreases self.input@.len() - self.pos,
        {
            let c = self.input[self.pos];
            let token = match c {
                '(' => CssToken::OpenParenthesis,
                ')' => CssToken::CloseParenthesis,
                ',' => CssToken::Delim(','),
                '.' => CssToken::Delim('.'),
                ':' => CssToken::Colon,
                ';' => CssToken::SemiColon,
                '{' => CssToken::OpenCurly,
                '}' => CssToken::CloseCurly,
                ' ' | '\n' | '\t' | '\r' => {
                    self.pos = self.pos + 1;
                    continue;
                },
                '"' | '\'' => {
                    let value = self.consume_string_token();
                    return Some(CssToken::StringToken(value));
                },
                '#' => {
                    self.pos = self.pos + 1;
                    if self.pos < self.input.len() && (ascii_alpha(self.input[self.pos]) || ascii_digit(self.input[self.pos]) || self.input[self.pos] == '-' || self.input[self.pos] == '_') {
                        let value = self.consume_ident_token();
                        return Some(CssToken::HashToken(value));
                    }
                    return Some(CssToken::HashToken(String::new()));
                },
                '@' => {
                    let n = self.input.len();
                    if n - self.pos > 3 && ascii_alpha(self.input[self.pos + 1])
                        && (ascii_alpha(self.input[self.pos + 2]) || ascii_digit(self.input[self.pos + 2]))
                        && (ascii_alpha(self.input[self.pos + 3]) || ascii_digit(self.input[self.pos + 3])) {
                        self.pos = self.pos + 1;
                        let value = self.consume_ident_token();
                        return Some(CssToken::AtKeyword(value));
                    }
                    CssToken::Delim('@')
                },
                _ => {
                    if ascii_digit(c) {
                        let n = self.consume_numeric_token();
                        return Some(CssToken::Number(n));
                    }
                    if ascii_alpha(c) || c == '-' || c == '_' {
                        let value = self.consume_ident_token();
                        return Some(CssToken::Ident(value));
                    }
                    return None;
                },
            };
            self.pos = self.pos + 1;
            return Some(token);
        }
        None
    }
}

} // verus!
