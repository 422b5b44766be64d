use vstd::prelude::*;
use crate::text::{chars_of, push_char, to_ascii_lower, ascii_upper, ascii_alpha, ascii_lower};
use crate::text::{is_ascii_upper, is_ascii_alpha};

verus! {

/// No ASCII capital letter occurs in `s`.
pub open spec fn folded(s: Seq<char>) -> bool {
    forall|i: int| 0 <= i < s.len() ==> !is_ascii_upper(#[trigger] s[i])
}

/// An attribute of a start tag: a name and a value, both filled one character at a time.
#[derive(Debug, Clone, PartialEq, Eq)]
pub struct Attribute {
    name: String,
    value: String,
}

impl Attribute {
    pub closed spec fn name_view(&self) -> Seq<char> {
        self.name@
    }

    pub closed spec fn value_view(&self) -> Seq<char> {
        self.value@
    }

    pub fn new() -> (r: Self)
        ensures
            r.name_view().len() == 0,
            r.value_view().len() == 0,
    {
        Self { name: String::new(), value: String::new() }
    }

    /// Appends `c` to the name when `is_name` holds, else to the value.
    pub fn add_char(&mut self, c: char, is_name: bool)
        ensures
            is_name ==> final(self).name_view() == old(self).name_view().push(c)
                && final(self).value_view() == old(self).value_view(),
            !is_name ==> final(self).value_view() == old(self).value_view().push(c)
                && final(self).name_view() == old(self).name_view(),
    {
        if is_name {
            push_char(&mut self.name, c);
        } else {
            push_char(&mut self.value, c);
        }
    }

    /// A copy of the attribute.
    pub fn duplicate(&self) -> (r: Self)
        ensures
            r == *self,
    {
        Attribute { name: self.name.clone(), value: self.value.clone() }
    }

    pub fn name(&self) -> (r: String)
        ensures
            r@ == self.name_view(),
    {
        self.name.clone()
    }

    pub fn value(&self) -> (r: String)
        ensures
            r@ == self.value_view(),
    {
        self.value.clone()
    }
}

/// What the tokenizer reads.
#[derive(Debug, Clone, PartialEq, Eq)]
pub enum HtmlToken {
    StartTag { tag: String, self_closing: bool, attributes: Vec<Attribute> },
    EndTag { tag: String },
    Char(char),
    Eof,
}

/// Tag names and attribute names of the token hold no ASCII capital.
pub open spec fn token_folded(t: HtmlToken) -> bool {
    match t {
        HtmlToken::StartTag { tag, self_closing, attributes } => {
            &&& folded(tag@)
            &&& forall|i: int| 0 <= i < attributes@.len() ==> folded(#[trigger] attributes@[i].name_view())
        },
        HtmlToken::EndTag { tag } => folded(tag@),
        _ => true,
    }
}

/// How the tokenizer reads the next character.
#[derive(Debug, Clone, Copy, PartialEq, Eq, Structural)]
pub enum State {
    Data,
    TagOpen,
    EndTagOpen,
    TagName,
    BeforeAttributeName,
    AttributeName,
    AfterAttributeName,
    BeforeAttributeValue,
    AttributeValueDoubleQuoted,
    AttributeValueSingleQuoted,
    AttributeValueUnquoted,
    AfterAttributeValueQuoted,
    SelfClosingStartTag,
    ScriptData,
    ScriptDataLessThanSign,
    ScriptDataEndTagOpen,
    ScriptDataEndTagName,
    TemporaryBuffer,
}

/// What a token says: its kind (0 start tag, 1 end tag, 2 character, 3 end of file), the tag
/// name, the self-closing flag, the attributes as name-value pairs, and the character.
pub type TokenView = (nat, Seq<char>, bool, Seq<(Seq<char>, Seq<char>)>, char);

pub open spec fn attrs_view(a: Seq<Attribute>) -> Seq<(Seq<char>, Seq<char>)> {
    a.map_values(|x: Attribute| (x.name_view(), x.value_view()))
}

pub open spec fn token_view(t: HtmlToken) -> TokenView {
    match t {
        HtmlToken::StartTag { tag, self_closing, attributes } => (0, tag@, self_closing, attrs_view(attributes@), ' '),
        HtmlToken::EndTag { tag } => (1, tag@, false, Seq::empty(), ' '),
        HtmlToken::Char(c) => (2, Seq::empty(), false, Seq::empty(), c),
        HtmlToken::Eof => (3, Seq::empty(), false, Seq::empty(), ' '),
    }
}

pub open spec fn opt_token_view(t: Option<HtmlToken>) -> Option<TokenView> {
    match t {
        Some(x) => Some(token_view(x)),
        None => None,
    }
}

pub open spec fn eof_view() -> TokenView {
    (3, Seq::empty(), false, Seq::empty(), ' ')
}

/// The tokenizer as values: state, cursor, whether the character before the cursor is read
/// again, the tag being built, and the buffer of script data.
pub type TokenizerView = (State, int, bool, Option<TokenView>, Seq<char>);

/// A new empty tag token: a start tag or an end tag.
pub open spec fn new_tag(start: bool) -> Option<TokenView> {
    Some((if start { 0 } else { 1 }, Seq::empty(), false, Seq::empty(), ' '))
}

/// The tag with `c` added to its name.
pub open spec fn tag_push(l: Option<TokenView>, c: char) -> Option<TokenView> {
    match l {
        Some(t) => if t.0 == 0 || t.0 == 1 {
            Some((t.0, t.1.push(c), t.2, t.3, t.4))
        } else {
            l
        },
        None => l,
    }
}

/// The start tag with a new empty attribute.
pub open spec fn attr_start(l: Option<TokenView>) -> Option<TokenView> {
    match l {
        Some(t) => if t.0 == 0 {
            Some((t.0, t.1, t.2, t.3.push((Seq::empty(), Seq::empty())), t.4))
        } else {
            l
        },
        None => l,
    }
}

/// The start tag with `c` added to the name (or the value) of its last attribute.
pub open spec fn attr_push(l: Option<TokenView>, c: char, is_name: bool) -> Option<TokenView> {
    match l {
        Some(t) => if t.0 == 0 && t.3.len() > 0 {
            let a = t.3.last();
            let a2 = if is_name {
                (a.0.push(c), a.1)
            } else {
                (a.0, a.1.push(c))
            };
            Some((t.0, t.1, t.2, t.3.update(t.3.len() - 1, a2), t.4))
        } else {
            l
        },
        None => l,
    }
}

/// The start tag marked self-closing.
pub open spec fn set_closing(l: Option<TokenView>) -> Option<TokenView> {
    match l {
        Some(t) => if t.0 == 0 {
            Some((t.0, t.1, true, t.3, t.4))
        } else {
            l
        },
        None => l,
    }
}

/// One step of the tokenizer on `input`: the next state, and the token the step hands out
/// (`Some(token)`) or `None` when the machine goes on.
pub open spec fn token_step(input: Seq<char>, s: TokenizerView) -> (TokenizerView, Option<Option<TokenView>>) {
    let (st, pos, rc, l, buf) = s;
    if !rc && pos >= input.len() {
        ((State::Data, pos, false, None, Seq::empty()), Some(Some(eof_view())))
    } else {
        let c = if rc { input[pos - 1] } else { input[pos] };
        let p = if rc { pos } else { pos + 1 };
        match st {
            State::Data => if c == '<' {
                ((State::TagOpen, p, false, l, buf), None)
            } else {
                ((State::Data, p, false, l, buf), Some(Some((2, Seq::empty(), false, Seq::empty(), c))))
            },
            State::TagOpen => if c == '/' {
                ((State::EndTagOpen, p, false, l, buf), None)
            } else if is_ascii_alpha(c) {
                ((State::TagName, p, true, new_tag(true), buf), None)
            } else {
                ((State::Data, p, true, l, buf), None)
            },
            State::EndTagOpen => if is_ascii_alpha(c) {
                ((State::TagName, p, true, new_tag(false), buf), None)
            } else {
                ((State::EndTagOpen, p, false, l, buf), None)
            },
            State::TagName => if c == ' ' {
                ((State::BeforeAttributeName, p, false, l, buf), None)
            } else if c == '/' {
                ((State::SelfClosingStartTag, p, false, l, buf), None)
            } else if c == '>' {
                ((State::Data, p, false, None, buf), Some(l))
            } else {
                ((State::TagName, p, false, tag_push(l, ascii_lower(c)), buf), None)
            },
            State::BeforeAttributeName => if c == '/' || c == '>' {
                ((State::AfterAttributeName, p, true, l, buf), None)
            } else {
                ((State::AttributeName, p, true, attr_start(l), buf), None)
            },
            State::AttributeName => if c == ' ' || c == '/' || c == '>' {
                ((State::AfterAttributeName, p, true, l, buf), None)
            } else if c == '=' {
                ((State::BeforeAttributeValue, p, false, l, buf), None)
            } else {
                ((State::AttributeName, p, false, attr_push(l, ascii_lower(c), true), buf), None)
            },
            State::AfterAttributeName => if c == ' ' {
                ((State::AfterAttributeName, p, false, l, buf), None)
            } else if c == '/' {
                ((State::SelfClosingStartTag, p, false, l, buf), None)
            } else if c == '=' {
                ((State::BeforeAttributeValue, p, false, l, buf), None)
            } else if c == '>' {
                ((State::Data, p, false, None, buf), Some(l))
            } else {
                ((State::AttributeName, p, true, attr_start(l), buf), None)
            },
            State::BeforeAttributeValue => if c == ' ' {
                ((State::BeforeAttributeValue, p, false, l, buf), None)
            } else if c == '"' {
                ((State::AttributeValueDoubleQuoted, p, false, l, buf), None)
            } else if c == '\'' {
                ((State::AttributeValueSingleQuoted, p, false, l, buf), None)
            } else {
                ((State::AttributeValueUnquoted, p, true, l, buf), None)
            },
            State::AttributeValueDoubleQuoted => if c == '"' {
                ((State::AfterAttributeValueQuoted, p, false, l, buf), None)
            } else {
                ((State::AttributeValueDoubleQuoted, p, false, attr_push(l, c, false), buf), None)
            },
            State::AttributeValueSingleQuoted => if c == '\'' {
                ((State::AfterAttributeValueQuoted, p, false, l, buf), None)
            } else {
                ((State::AttributeValueSingleQuoted, p, false, attr_push(l, c, false), buf), None)
            },
            State::AttributeValueUnquoted => if c == ' ' {
                ((State::BeforeAttributeName, p, false, l, buf), None)
            } else if c == '>' {
                ((State::Data, p, false, None, buf), Some(l))
            } else {
                ((State::AttributeValueUnquoted, p, false, attr_push(l, c, false), buf), None)
            },
            State::AfterAttributeValueQuoted => if c == ' ' {
                ((State::BeforeAttributeName, p, false, l, buf), None)
            } else if c == '/' {
                ((State::SelfClosingStartTag, p, false, l, buf), None)
            } else if c == '>' {
                ((State::Data, p, false, None, buf), Some(l))
            } else {
                ((State::BeforeAttributeValue, p, true, l, buf), None)
            },
            State::SelfClosingStartTag => if c == '>' {
                ((State::Data, p, false, None, buf), Some(set_closing(l)))
            } else {
                ((State::SelfClosingStartTag, p, false, l, buf), None)
            },
            State::ScriptData => if c == '<' {
                ((State::ScriptDataLessThanSign, p, false, l, buf), None)
            } else {
                ((State::ScriptData, p, false, l, buf), Some(Some((2, Seq::empty(), false, Seq::empty(), c))))
            },
            State::ScriptDataLessThanSign => if c == '/' {
                ((State::ScriptDataEndTagOpen, p, false, l, Seq::empty()), None)
            } else {
                ((State::ScriptData, p, true, l, buf), Some(Some((2, Seq::empty(), false, Seq::empty(), '<'))))
            },
            State::ScriptDataEndTagOpen => if is_ascii_alpha(c) {
                ((State::ScriptDataEndTagName, p, true, new_tag(false), Seq::empty()), None)
            } else {
                ((State::ScriptData, p, true, l, buf), Some(Some((2, Seq::empty(), false, Seq::empty(), '<'))))
            },
            State::ScriptDataEndTagName => if c == '>' {
                ((State::Data, p, false, None, buf), Some(l))
            } else if is_ascii_alpha(c) {
                ((State::ScriptDataEndTagName, p, false, tag_push(l, ascii_lower(c)), buf.push(c)), None)
            } else {
                ((State::TemporaryBuffer, p, false, l, seq!['<', '/'] + buf.push(c)), None)
            },
            State::TemporaryBuffer => if buf.len() == 0 {
                ((State::ScriptData, p, true, l, buf), None)
            } else {
                ((State::TemporaryBuffer, p, true, l, buf.drop_first()), Some(Some((2, Seq::empty(), false, Seq::empty(), buf[0]))))
            },
        }
    }
}

/// The work left for the tokenizer, as in `HtmlTokenizer::fuel`.
pub open spec fn fuel_of(input: Seq<char>, s: TokenizerView) -> nat {
    (4 * (input.len() - s.1) + (if s.2 { 1int } else { 0int })
        + match s.0 {
        State::TemporaryBuffer => s.4.len() as int,
        State::ScriptDataEndTagOpen => 1int,
        State::ScriptDataEndTagName => s.4.len() as int + 3,
        _ => 0int,
    }) as nat
}

/// Orders the steps that read the same character again.
pub open spec fn rank_of(input: Seq<char>, s: TokenizerView) -> nat {
    if !s.2 || s.1 <= 0 || s.1 > input.len() {
        0
    } else {
        let c = input[s.1 - 1];
        match s.0 {
            State::BeforeAttributeName | State::AfterAttributeValueQuoted => 3,
            State::AttributeName => if c == ' ' || c == '/' || c == '>' {
                2
            } else {
                1
            },
            State::AfterAttributeName => if c == ' ' || c == '/' || c == '=' || c == '>' {
                1
            } else {
                2
            },
            State::BeforeAttributeValue | State::TagOpen | State::EndTagOpen | State::TemporaryBuffer => 2,
            _ => 1,
        }
    }
}

pub open spec fn measure_of(input: Seq<char>, s: TokenizerView) -> nat {
    fuel_of(input, s) * 4 + rank_of(input, s)
}

/// Steps until a token comes out.
pub open spec fn token_run(input: Seq<char>, s: TokenizerView) -> (TokenizerView, Option<TokenView>)
    decreases measure_of(input, s),
{
    let (s2, out) = token_step(input, s);
    match out {
        Some(r) => (s2, r),
        None => if measure_of(input, s2) < measure_of(input, s) {
            token_run(input, s2)
        } else {
            (s2, None)
        },
    }
}

/// What `next` does: nothing once the cursor is at the end, else steps until a token comes out.
pub open spec fn token_next(input: Seq<char>, s: TokenizerView) -> (TokenizerView, Option<TokenView>) {
    if s.1 >= input.len() {
        (s, None)
    } else {
        token_run(input, s)
    }
}

/// States in which a tag token is being built.
pub open spec fn in_tag(s: State) -> bool {
    match s {
        State::TagName | State::BeforeAttributeName | State::AttributeName
        | State::AfterAttributeName | State::BeforeAttributeValue
        | State::AttributeValueDoubleQuoted | State::AttributeValueSingleQuoted
        | State::AttributeValueUnquoted | State::AfterAttributeValueQuoted
        | State::SelfClosingStartTag | State::ScriptDataEndTagName => true,
        _ => false,
    }
}

/// A character-driven state machine that turns HTML text into tokens, one per call of `next`.
#[derive(Debug, Clone, PartialEq, Eq)]
pub struct HtmlTokenizer {
    state: State,
    pos: usize,
    reconsume: bool,
    latest_token: Option<HtmlToken>,
    input: Vec<char>,
    buf: Vec<char>,
}

impl HtmlTokenizer {
    pub closed spec fn input_view(&self) -> Seq<char> {
        self.input@
    }

    pub closed spec fn pos_view(&self) -> int {
        self.pos as int
    }

    /// The tokenizer's own consistency.
    pub closed spec fn wf(&self) -> bool {
        &&& self.pos <= self.input@.len()
        &&& self.reconsume ==> self.pos >= 1
        &&& self.reconsume ==> self.state != State::ScriptDataLessThanSign
            && self.state != State::ScriptDataEndTagOpen
        &&& in_tag(self.state) ==> self.latest_token is Some
        &&& self.latest_token is Some ==> token_folded(self.latest_token->0)
        &&& self.latest_token is Some ==> (self.latest_token->0 is StartTag || self.latest_token->0 is EndTag)
    }

    /// The tokenizer's state as values.
    pub closed spec fn view_state(&self) -> TokenizerView {
        (self.state, self.pos as int, self.reconsume, opt_token_view(self.latest_token), self.buf@)
    }

    /// A bound on the work left: it drops with every token handed out.
    pub closed spec fn fuel(&self) -> nat {
        fuel_of(self.input@, self.view_state())
    }

    /// Orders the steps that read the same character again.
    closed spec fn rank(&self) -> nat {
        rank_of(self.input@, self.view_state())
    }

    pub fn new(html: String) -> (r: Self)
        ensures
            r.wf(),
            r.input_view() == html@,
            r.pos_view() == 0,
            r.view_state() == (State::Data, 0int, false, None::<TokenView>, Seq::<char>::empty()),
            r.fuel() == 4 * html@.len(),
    {
        Self {
            state: State::Data,
            pos: 0,
            reconsume: false,
            latest_token: None,
            input: chars_of(html.as_str()),
            buf: Vec::new(),
        }
    }

    fn is_eof(&self) -> (r: bool)
        ensures
            r == (self.pos >= self.input@.len()),
    {
        self.pos >= self.input.len()
    }

    /// The character at the cursor, which then moves on by one.
    fn consume_next_input(&mut self) -> (c: char)
        requires
            old(self).pos < old(self).input@.len(),
        ensures
            c == old(self).input@[old(self).pos as int],
            final(self).pos == old(self).pos + 1,
            *final(self) == (HtmlTokenizer { pos: final(self).pos, ..*old(self) }),
    {
        let c = self.input[self.pos];
        let n = self.input.len();
        assert(self.pos < n);
        self.pos = self.pos + 1;
        c
    }

    /// The character just before the cursor, read again.
    fn reconsume_input(&mut self) -> (c: char)
        requires
            old(self).pos >= 1,
            old(self).pos <= old(self).input@.len(),
        ensures
            c == old(self).input@[old(self).pos - 1],
            *final(self) == (HtmlTokenizer { reconsume: false, ..*old(self) }),
    {
        self.reconsume = false;
        self.input[self.pos - 1]
    }

    fn create_tag(&mut self, start_tag_token: bool)
        ensures
            start_tag_token ==> (final(self).latest_token matches Some(HtmlToken::StartTag { tag, self_closing, attributes })
                && tag@.len() == 0 && !self_closing && attributes@.len() == 0),
            !start_tag_token ==> (final(self).latest_token matches Some(HtmlToken::EndTag { tag })
                && tag@.len() == 0),
            *final(self) == (HtmlTokenizer { latest_token: final(self).latest_token, ..*old(self) }),
            opt_token_view(final(self).latest_token) == new_tag(start_tag_token),
    {
        if start_tag_token {
            self.latest_token = Some(HtmlToken::StartTag {
                tag: String::new(),
                self_closing: false,
                attributes: Vec::new(),
            });
        } else {
            self.latest_token = Some(HtmlToken::EndTag { tag: String::new() });
        }
    }

    fn append_tag_name(&mut self, c: char)
        requires
            !is_ascii_upper(c),
            old(self).latest_token is Some ==> token_folded(old(self).latest_token->0),
        ensures
            (old(self).latest_token matches Some(HtmlToken::StartTag { tag, self_closing, attributes })) ==> {
                &&& final(self).latest_token matches Some(HtmlToken::StartTag { tag: t2, self_closing: s2, attributes: a2 })
                    && t2@ == old(self).latest_token->0->StartTag_tag@.push(c)
                    && s2 == old(self).latest_token->0->StartTag_self_closing
                    && a2@ == old(self).latest_token->0->StartTag_attributes@
            },
            (old(self).latest_token matches Some(HtmlToken::EndTag { tag })) ==> {
                &&& final(self).latest_token matches Some(HtmlToken::EndTag { tag: t2 })
                    && t2@ == old(self).latest_token->0->EndTag_tag@.push(c)
            },
            final(self).latest_token is Some == old(self).latest_token is Some,
            old(self).latest_token is Some && (old(self).latest_token->0 is StartTag || old(self).latest_token->0 is EndTag)
                ==> (final(self).latest_token->0 is StartTag || final(self).latest_token->0 is EndTag),
            final(self).latest_token is Some ==> token_folded(final(self).latest_token->0),
            *final(self) == (HtmlTokenizer { latest_token: final(self).latest_token, ..*old(self) }),
            opt_token_view(final(self).latest_token) == tag_push(opt_token_view(old(self).latest_token), c),
    {
        let t = self.latest_token.take();
        match t {
            Some(HtmlToken::StartTag { tag, self_closing, attributes }) => {
                let mut tag = tag;
                push_char(&mut tag, c);
                proof {
                    assert(folded(tag@)) by {
                        assert forall|i: int| 0 <= i < tag@.len() implies !is_ascii_upper(#[trigger] tag@[i]) by {
                            if i < tag@.len() - 1 {
                                assert(tag@[i] == old(self).latest_token->0->StartTag_tag@[i]);
                            }
                        }
                    }
                }
                self.latest_token = Some(HtmlToken::StartTag { tag, self_closing, attributes });
            },
            Some(HtmlToken::EndTag { tag }) => {
                let mut tag = tag;
                push_char(&mut tag, c);
                proof {
                    assert(folded(tag@)) by {
                        assert forall|i: int| 0 <= i < tag@.len() implies !is_ascii_upper(#[trigger] tag@[i]) by {
                            if i < tag@.len() - 1 {
                                assert(tag@[i] == old(self).latest_token->0->EndTag_tag@[i]);
                            }
                        }
                    }
                }
                self.latest_token = Some(HtmlToken::EndTag { tag });
            },
            other => {
                self.latest_token = other;
            },
        }
    }

    fn take_latest_token(&mut self) -> (r: Option<HtmlToken>)
        ensures
            r == old(self).latest_token,
            *final(self) == (HtmlTokenizer { latest_token: None, ..*old(self) }),
    {
        self.latest_token.take()
    }

    fn start_new_attribute(&mut self)
        requires
            old(self).latest_token is Some ==> token_folded(old(self).latest_token->0),
        ensures
            final(self).latest_token is Some == old(self).latest_token is Some,
            old(self).latest_token is Some && (old(self).latest_token->0 is StartTag || old(self).latest_token->0 is EndTag)
                ==> (final(self).latest_token->0 is StartTag || final(self).latest_token->0 is EndTag),
            final(self).latest_token is Some ==> token_folded(final(self).latest_token->0),
            *final(self) == (HtmlTokenizer { latest_token: final(self).latest_token, ..*old(self) }),
            opt_token_view(final(self).latest_token) == attr_start(opt_token_view(old(self).latest_token)),
    {
        let t = self.latest_token.take();
        match t {
            Some(HtmlToken::StartTag { tag, self_closing, attributes }) => {
                let mut attributes = attributes;
                let ghost before = attributes@;
                let a = Attribute::new();
                assert(a.name_view() =~= Seq::<char>::empty());
                assert(a.value_view() =~= Seq::<char>::empty());
                attributes.push(a);
                proof {
                    assert(attrs_view(attributes@) =~= attrs_view(before).push((Seq::<char>::empty(), Seq::<char>::empty())));
                    assert forall|i: int| 0 <= i < attributes@.len() implies folded(#[trigger] attributes@[i].name_view()) by {
                        if i < attributes@.len() - 1 {
                            assert(attributes@[i] == old(self).latest_token->0->StartTag_attributes@[i]);
                        }
                    }
                }
                self.latest_token = Some(HtmlToken::StartTag { tag, self_closing, attributes });
            },
            other => {
                self.latest_token = other;
            },
        }
    }

    fn append_attribute(&mut self, c: char, is_name: bool)
        requires
            is_name ==> !is_ascii_upper(c),
            old(self).latest_token is Some ==> token_folded(old(self).latest_token->0),
        ensures
            final(self).latest_token is Some == old(self).latest_token is Some,
            old(self).latest_token is Some && (old(self).latest_token->0 is StartTag || old(self).latest_token->0 is EndTag)
                ==> (final(self).latest_token->0 is StartTag || final(self).latest_token->0 is EndTag),
            final(self).latest_token is Some ==> token_folded(final(self).latest_token->0),
            *final(self) == (HtmlTokenizer { latest_token: final(self).latest_token, ..*old(self) }),
            opt_token_view(final(self).latest_token) == attr_push(opt_token_view(old(self).latest_token), c, is_name),
    {
        let t = self.latest_token.take();
        match t {
            Some(HtmlToken::StartTag { tag, self_closing, attributes }) => {
                let mut attributes = attributes;
                if attributes.len() > 0 {
                    let ghost before = attributes@;
                    let mut a = attributes.pop().unwrap();
                    let ghost a0 = a;
                    a.add_char(c, is_name);
                    proof {
                        assert(folded(a0.name_view()));
                        assert(folded(a.name_view())) by {
                            assert forall|i: int| 0 <= i < a.name_view().len() implies !is_ascii_upper(#[trigger] a.name_view()[i]) by {
                                if i < a0.name_view().len() {
                                    assert(a.name_view()[i] == a0.name_view()[i]);
                                }
                            }
                        }
                    }
                    attributes.push(a);
                    proof {
                        assert forall|i: int| 0 <= i < attributes@.len() implies folded(#[trigger] attributes@[i].name_view()) by {
                            if i < attributes@.len() - 1 {
                                assert(attributes@[i] == before[i]);
                            }
                        }
                    }
                }
                self.latest_token = Some(HtmlToken::StartTag { tag, self_closing, attributes });
            },
            other => {
                self.latest_token = other;
            },
        }
    }

    fn set_self_closing_flag(&mut self)
        requires
            old(self).latest_token is Some ==> token_folded(old(self).latest_token->0),
        ensures
            final(self).latest_token is Some == old(self).latest_token is Some,
            old(self).latest_token is Some && (old(self).latest_token->0 is StartTag || old(self).latest_token->0 is EndTag)
                ==> (final(self).latest_token->0 is StartTag || final(self).latest_token->0 is EndTag),
            final(self).latest_token is Some ==> token_folded(final(self).latest_token->0),
            *final(self) == (HtmlTokenizer { latest_token: final(self).latest_token, ..*old(self) }),
            opt_token_view(final(self).latest_token) == set_closing(opt_token_view(old(self).latest_token)),
    {
        let t = self.latest_token.take();
        match t {
            Some(HtmlToken::StartTag { tag, self_closing, attributes }) => {
                self.latest_token = Some(HtmlToken::StartTag { tag, self_closing: true, attributes });
            },
            other => {
                self.latest_token = other;
            },
        }
    }

    /// The token that the input runs out at: the cursor stays at the end from then on.
    fn finish(&mut self) -> (r: Option<HtmlToken>)
        requires
            old(self).pos >= old(self).input@.len(),
            old(self).pos <= old(self).input@.len(),
        ensures
            r == Some(HtmlToken::Eof),
            final(self).wf(),
            final(self).fuel() == 0,
            final(self).input@ == old(self).input@,
            final(self).pos == old(self).pos,
            final(self).view_state() == (State::Data, old(self).pos as int, false, None::<TokenView>, Seq::<char>::empty()),
    {
        self.state = State::Data;
        self.reconsume = false;
        self.latest_token = None;
        self.buf = Vec::new();
        Some(HtmlToken::Eof)
    }

    /// One step of the machine: reads a character (or the same one again) and acts on it by
    /// the current state; gives the token handed out, if any.
    #[verifier::rlimit(100)]
    #[verifier::spinoff_prover]
    fn step(&mut self) -> (r: Option<Option<HtmlToken>>)
        requires
            old(self).wf(),
        ensures
            final(self).wf(),
            final(self).input@ == old(self).input@,
            (final(self).view_state(), match r {
                Some(t) => Some(opt_token_view(t)),
                None => None,
            }) == token_step(old(self).input@, old(self).view_state()),
            r is None ==> final(self).fuel() < old(self).fuel()
                || (final(self).fuel() == old(self).fuel() && final(self).rank() < old(self).rank()),
            r is Some ==> final(self).fuel() < old(self).fuel() || old(self).pos >= old(self).input@.len(),
            r is Some ==> r->0 is Some,
            r matches Some(Some(t)) ==> token_folded(t),
            r == Some(Some(HtmlToken::Eof)) ==> final(self).pos == final(self).input@.len(),
    {
        let c = if self.reconsume {
            self.reconsume_input()
        } else {
            if self.is_eof() {
                return Some(self.finish());
            }
            self.consume_next_input()
        };
        match self.state {
            State::Data => {
                if c == '<' {
                    self.state = State::TagOpen;
                    return None;
                }
                return Some(Some(HtmlToken::Char(c)));
            },
            State::TagOpen => {
                if c == '/' {
                    self.state = State::EndTagOpen;
                    return None;
                }
                if ascii_alpha(c) {
                    self.reconsume = true;
                    self.state = State::TagName;
                    self.create_tag(true);
                    return None;
                }
                self.reconsume = true;
                self.state = State::Data;
            },
            State::EndTagOpen => {
                if ascii_alpha(c) {
                    self.reconsume = true;
                    self.state = State::TagName;
                    self.create_tag(false);
                    return None;
                }
            },
            State::TagName => {
                if c == ' ' {
                    self.state = State::BeforeAttributeName;
                    return None;
                }
                if c == '/' {
                    self.state = State::SelfClosingStartTag;
                    return None;
                }
                if c == '>' {
                    self.state = State::Data;
                    return Some(self.take_latest_token());
                }
                if ascii_upper(c) {
                    self.append_tag_name(to_ascii_lower(c));
                    return None;
                }
                self.append_tag_name(c);
            },
            State::BeforeAttributeName => {
                if c == '/' || c == '>' {
                    self.reconsume = true;
                    self.state = State::AfterAttributeName;
                    return None;
                }
                self.reconsume = true;
                self.state = State::AttributeName;
                self.start_new_attribute();
            },
            State::AttributeName => {
                if c == ' ' || c == '/' || c == '>' {
                    self.reconsume = true;
                    self.state = State::AfterAttributeName;
                    return None;
                }
                if c == '=' {
                    self.state = State::BeforeAttributeValue;
                    return None;
                }
                if ascii_upper(c) {
                    self.append_attribute(to_ascii_lower(c), true);
                    return None;
                }
                self.append_attribute(c, true);
            },
            State::AfterAttributeName => {
                if c == ' ' {
                    return None;
                }
                if c == '/' {
                    self.state = State::SelfClosingStartTag;
                    return None;
                }
                if c == '=' {
                    self.state = State::BeforeAttributeValue;
                    return None;
                }
                if c == '>' {
                    self.state = State::Data;
                    return Some(self.take_latest_token());
                }
                self.reconsume = true;
                self.state = State::AttributeName;
                self.start_new_attribute();
            },
            State::BeforeAttributeValue => {
                if c == ' ' {
                    return None;
                }
                if c == '"' {
                    self.state = State::AttributeValueDoubleQuoted;
                    return None;
                }
                if c == '\'' {
                    self.state = State::AttributeValueSingleQuoted;
                    return None;
                }
                self.reconsume = true;
                self.state = State::AttributeValueUnquoted;
            },
            State::AttributeValueDoubleQuoted => {
                if c == '"' {
                    self.state = State::AfterAttributeValueQuoted;
                    return None;
                }
                self.append_attribute(c, false);
            },
            State::AttributeValueSingleQuoted => {
                if c == '\'' {
                    self.state = State::AfterAttributeValueQuoted;
                    return None;
                }
                self.append_attribute(c, false);
            },
            State::AttributeValueUnquoted => {
                if c == ' ' {
                    self.state = State::BeforeAttributeName;
                    return None;
                }
                if c == '>' {
                    self.state = State::Data;
                    return Some(self.take_latest_token());
                }
                self.append_attribute(c, false);
            },
            State::AfterAttributeValueQuoted => {
                if c == ' ' {
                    self.state = State::BeforeAttributeName;
                    return None;
                }
                if c == '/' {
                    self.state = State::SelfClosingStartTag;
                    return None;
                }
                if c == '>' {
                    self.state = State::Data;
                    return Some(self.take_latest_token());
                }
                self.reconsume = true;
                self.state = State::BeforeAttributeValue;
            },
            State::SelfClosingStartTag => {
                if c == '>' {
                    self.set_self_closing_flag();
                    self.state = State::Data;
                    return Some(self.take_latest_token());
                }
            },
            State::ScriptData => {
                if c == '<' {
                    self.state = State::ScriptDataLessThanSign;
                    return None;
                }
                return Some(Some(HtmlToken::Char(c)));
            },
            State::ScriptDataLessThanSign => {
                if c == '/' {
                    self.buf = Vec::new();
                    self.state = State::ScriptDataEndTagOpen;
                    return None;
                }
                self.reconsume = true;
                self.state = State::ScriptData;
                return Some(Some(HtmlToken::Char('<')));
            },
            State::ScriptDataEndTagOpen => {
                if ascii_alpha(c) {
                    self.reconsume = true;
                    self.buf = Vec::new();
                    self.state = State::ScriptDataEndTagName;
                    self.create_tag(false);
                    return None;
                }
                self.reconsume = true;
                self.state = State::ScriptData;
                return Some(Some(HtmlToken::Char('<')));
            },
            State::ScriptDataEndTagName => {
                if c == '>' {
                    self.state = State::Data;
                    return Some(self.take_latest_token());
                }
                if ascii_alpha(c) {
                    self.buf.push(c);
                    self.append_tag_name(to_ascii_lower(c));
                    return None;
                }
                let mut pending: Vec<char> = Vec::new();
                pending.push('<');
                pending.push('/');
                pending.append(&mut self.buf);
                pending.push(c);
                self.buf = pending;
                self.state = State::TemporaryBuffer;
                return None;
            },
            State::TemporaryBuffer => {
                self.reconsume = true;
                if self.buf.len() == 0 {
                    self.state = State::ScriptData;
                    return None;
                }
                let first = self.buf.remove(0);
                return Some(Some(HtmlToken::Char(first)));
            },
        }
        None
    }

    /// The next token, or `None` once the input is used up: the token that `token_next`
    /// gives for the input and the tokenizer's state.
    pub fn next(&mut self) -> (r: Option<HtmlToken>)
        requires
            old(self).wf(),
        ensures
            final(self).wf(),
            final(self).input_view() == old(self).input_view(),
            (final(self).view_state(), opt_token_view(r)) == token_next(old(self).input_view(), old(self).view_state()),
            r is None <==> old(self).pos_view() >= old(self).input_view().len(),
            r is None ==> *final(self) == *old(self),
            r is Some ==> final(self).fuel() < old(self).fuel(),
            r is Some ==> token_folded(r->0),
            r == Some(HtmlToken::Eof) ==> final(self).pos_view() == final(self).input_view().len(),
    {
        if self.pos >= self.input.len() {
            return None;
        }
        let ghost start = self.fuel();
        let ghost target = token_run(self.input@, self.view_state());
        loop
            invariant
                self.wf(),
                self.input@ == old(self).input@,
                self.fuel() <= start,
                start == old(self).fuel(),
                old(self).pos < old(self).input@.len(),
                target == token_run(old(self).input@, old(self).view_state()),
                token_run(self.input@, self.view_state()) == target,
            decreases self.fuel(), self.rank(),
        {
            let ghost before = self.view_state();
            match self.step() {
                Some(t) => {
                    proof {
                        assert(fuel_of(self.input@, before) == start || fuel_of(self.input@, before) < start);
                    }
                    return t;
                },
                None => {
                    proof {
                        assert(rank_of(self.input@, before) <= 3);
                        assert(measure_of(self.input@, self.view_state()) < measure_of(self.input@, before)) by (nonlinear_arith)
                            requires
                                fuel_of(self.input@, self.view_state()) < fuel_of(self.input@, before)
                                    || (fuel_of(self.input@, self.view_state()) == fuel_of(self.input@, before)
                                    && rank_of(self.input@, self.view_state()) < rank_of(self.input@, before)),
                                rank_of(self.input@, self.view_state()) <= 3,
                                rank_of(self.input@, before) <= 3,
                                measure_of(self.input@, self.view_state()) == fuel_of(self.input@, self.view_state()) * 4 + rank_of(self.input@, self.view_state()),
                                measure_of(self.input@, before) == fuel_of(self.input@, before) * 4 + rank_of(self.input@, before),
                        ;
                    }
                },
            }
        }
    }

}


} // verus!
