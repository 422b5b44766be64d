use vstd::prelude::*;
use crate::dom::{ElementKind, Element, Node, NodeKind, Window, node_element_kind, links_ok, element_kind_of};
use crate::dom::{NodeView, KindView, dom_view, append_view, push_text_view, attributes_view};
use crate::layout::clone_attributes;
use crate::html_token::{HtmlToken, HtmlTokenizer, Attribute, TokenizerView, token_next, token_view, opt_token_view};
use crate::text::{str_eq, string_of};

verus! {

/// Where the tree constructor stands in the document.
#[derive(Debug, Clone, Copy, PartialEq, Eq, Structural)]
pub enum InsertionMode {
    Initial,
    BeforeHtml,
    BeforeHead,
    InHead,
    AfterHead,
    InBody,
    Text,
    AfterBody,
    AfterAfterBody,
}

/// The token is the end tag `</html>`.
pub open spec fn is_html_end(token: Option<HtmlToken>) -> bool {
    match token {
        Some(HtmlToken::EndTag { tag }) => tag@ == "html"@,
        _ => false,
    }
}

/// Orders the modes that hand a token on to another mode without reading a new one.
pub open spec fn mode_rank(mode: InsertionMode, token: Option<HtmlToken>) -> nat {
    match mode {
        InsertionMode::Text => 8,
        InsertionMode::Initial => 7,
        InsertionMode::BeforeHtml => 6,
        InsertionMode::BeforeHead => 5,
        InsertionMode::InHead => 4,
        InsertionMode::AfterHead => 3,
        InsertionMode::AfterAfterBody => 3,
        InsertionMode::AfterBody => if is_html_end(token) {
            1
        } else {
            2
        },
        InsertionMode::InBody => if is_html_end(token) {
            2
        } else {
            1
        },
    }
}

/// The DOM starts as every built DOM does: the document's first child is an `html` element,
/// and that element's first child is a `head` element.
pub open spec fn dom_skeleton(nodes: Seq<Node>) -> bool {
    &&& nodes.len() > 1 ==> node_element_kind(nodes[1].kind) == Some(ElementKind::Html)
        && nodes[0].first_child_link() == Some(1usize)
    &&& nodes.len() > 2 ==> node_element_kind(nodes[2].kind) == Some(ElementKind::Head)
        && nodes[1].first_child_link() == Some(2usize)
}

/// The tree constructor's state as values: the DOM, the stack of open elements, the mode and
/// the mode that text content returns to.
pub type ParseState = (Seq<NodeView>, Seq<usize>, InsertionMode, InsertionMode);

pub open spec fn with_mode(st: ParseState, m: InsertionMode) -> ParseState {
    (st.0, st.1, m, st.3)
}

/// The node that insertion goes below: the last open element, or the document.
pub open spec fn current_of(st: ParseState) -> int {
    if st.1.len() == 0 {
        0
    } else {
        st.1.last() as int
    }
}

/// Appends an element of kind `k` with attributes `attrs` below the current node and opens it.
pub open spec fn insert_element_view(st: ParseState, k: ElementKind, attrs: Seq<(Seq<char>, Seq<char>)>) -> ParseState {
    if st.0.len() >= usize::MAX {
        st
    } else {
        (append_view(st.0, current_of(st), (1, Some(k), attrs, Seq::empty())), st.1.push(st.0.len() as usize), st.2, st.3)
    }
}

/// Adds `c` to the open text node, or opens a text node for it; whitespace outside a text node
/// is dropped, and so is a character with nothing open.
pub open spec fn insert_char_view(st: ParseState, c: char) -> ParseState {
    if st.1.len() == 0 {
        st
    } else {
        let cur = st.1.last() as int;
        if st.0[cur].0.0 == 2 {
            (push_text_view(st.0, cur, c), st.1, st.2, st.3)
        } else if c == '\n' || c == ' ' || st.0.len() >= usize::MAX {
            st
        } else {
            (append_view(st.0, cur, (2, None, Seq::empty(), seq![c])), st.1.push(st.0.len() as usize), st.2, st.3)
        }
    }
}

/// Some open element is of kind `k`.
pub open spec fn stack_contains(ns: Seq<NodeView>, stack: Seq<usize>, k: ElementKind) -> bool {
    exists|i: int| 0 <= i < stack.len() && (#[trigger] ns[stack[i] as int]).0.1 == Some(k)
}

/// The stack after popping up to and including the nearest element of kind `k`.
pub open spec fn pop_until_stack(ns: Seq<NodeView>, stack: Seq<usize>, k: ElementKind) -> Seq<usize>
    decreases stack.len(),
{
    if stack.len() == 0 {
        stack
    } else if ns[stack.last() as int].0.1 == Some(k) {
        stack.drop_last()
    } else {
        pop_until_stack(ns, stack.drop_last(), k)
    }
}

pub open spec fn pop_until_view(st: ParseState, k: ElementKind) -> ParseState {
    if stack_contains(st.0, st.1, k) {
        (st.0, pop_until_stack(st.0, st.1, k), st.2, st.3)
    } else {
        st
    }
}

/// Closes the current node when it is an element of kind `k`, and says whether it did.
pub open spec fn pop_current_view(st: ParseState, k: ElementKind) -> (ParseState, bool) {
    if st.1.len() > 0 && st.0[st.1.last() as int].0.1 == Some(k) {
        ((st.0, st.1.drop_last(), st.2, st.3), true)
    } else {
        (st, false)
    }
}

pub open spec fn is_space_or_newline(c: char) -> bool {
    c == ' ' || c == '\n'
}

/// One step of the insertion modes on token `t`: the new state, whether `t` is used up, and
/// whether construction stops.
pub open spec fn step_view(st: ParseState, t: HtmlToken) -> (ParseState, bool, bool) {
    match st.2 {
        InsertionMode::Initial => match t {
            HtmlToken::Char(_) => (st, true, false),
            _ => (with_mode(st, InsertionMode::BeforeHtml), false, false),
        },
        InsertionMode::BeforeHtml => match t {
            HtmlToken::Char(c) => if is_space_or_newline(c) {
                (st, true, false)
            } else {
                (with_mode(insert_element_view(st, ElementKind::Html, attributes_view(Seq::<Attribute>::empty())), InsertionMode::BeforeHead), false, false)
            },
            HtmlToken::StartTag { tag, self_closing, attributes } => if tag@ == "html"@ {
                (with_mode(insert_element_view(st, ElementKind::Html, attributes_view(attributes@)), InsertionMode::BeforeHead), true, false)
            } else {
                (with_mode(insert_element_view(st, ElementKind::Html, attributes_view(Seq::<Attribute>::empty())), InsertionMode::BeforeHead), false, false)
            },
            HtmlToken::Eof => (st, false, true),
            _ => (with_mode(insert_element_view(st, ElementKind::Html, attributes_view(Seq::<Attribute>::empty())), InsertionMode::BeforeHead), false, false),
        },
        InsertionMode::BeforeHead => match t {
            HtmlToken::Char(c) => if is_space_or_newline(c) {
                (st, true, false)
            } else {
                (with_mode(insert_element_view(st, ElementKind::Head, attributes_view(Seq::<Attribute>::empty())), InsertionMode::InHead), false, false)
            },
            HtmlToken::StartTag { tag, self_closing, attributes } => if tag@ == "head"@ {
                (with_mode(insert_element_view(st, ElementKind::Head, attributes_view(attributes@)), InsertionMode::InHead), true, false)
            } else {
                (with_mode(insert_element_view(st, ElementKind::Head, attributes_view(Seq::<Attribute>::empty())), InsertionMode::InHead), false, false)
            },
            HtmlToken::Eof => (st, false, true),
            _ => (with_mode(insert_element_view(st, ElementKind::Head, attributes_view(Seq::<Attribute>::empty())), InsertionMode::InHead), false, false),
        },
        InsertionMode::InHead => match t {
            HtmlToken::Char(c) => if is_space_or_newline(c) {
                (insert_char_view(st, c), true, false)
            } else {
                (st, true, false)
            },
            HtmlToken::StartTag { tag, self_closing, attributes } => if tag@ == "style"@ || tag@ == "script"@ {
                let k = if tag@ == "style"@ {
                    ElementKind::Style
                } else {
                    ElementKind::Script
                };
                let s1 = insert_element_view(st, k, attributes_view(attributes@));
                ((s1.0, s1.1, InsertionMode::Text, st.2), true, false)
            } else if element_kind_of(tag@) is Some {
                (with_mode(pop_until_view(st, ElementKind::Head), InsertionMode::AfterHead), false, false)
            } else {
                (st, true, false)
            },
            HtmlToken::EndTag { tag } => if tag@ == "head"@ {
                (with_mode(pop_until_view(st, ElementKind::Head), InsertionMode::AfterHead), true, false)
            } else {
                (st, true, false)
            },
            HtmlToken::Eof => (st, false, true),
        },
        InsertionMode::AfterHead => match t {
            HtmlToken::Char(c) => if is_space_or_newline(c) {
                (insert_char_view(st, c), true, false)
            } else {
                (with_mode(insert_element_view(st, ElementKind::Body, attributes_view(Seq::<Attribute>::empty())), InsertionMode::InBody), false, false)
            },
            HtmlToken::StartTag { tag, self_closing, attributes } => if tag@ == "body"@ {
                (with_mode(insert_element_view(st, ElementKind::Body, attributes_view(attributes@)), InsertionMode::InBody), true, false)
            } else {
                (with_mode(insert_element_view(st, ElementKind::Body, attributes_view(Seq::<Attribute>::empty())), InsertionMode::InBody), false, false)
            },
            HtmlToken::Eof => (st, false, true),
            _ => (with_mode(insert_element_view(st, ElementKind::Body, attributes_view(Seq::<Attribute>::empty())), InsertionMode::InBody), false, false),
        },
        InsertionMode::InBody => match t {
            HtmlToken::StartTag { tag, self_closing, attributes } => match element_kind_of(tag@) {
                Some(ElementKind::P) | Some(ElementKind::H1) | Some(ElementKind::H2) | Some(ElementKind::A) =>
                    (insert_element_view(st, element_kind_of(tag@)->0, attributes_view(attributes@)), true, false),
                _ => (st, true, false),
            },
            HtmlToken::EndTag { tag } => if tag@ == "body"@ {
                (pop_until_view(with_mode(st, InsertionMode::AfterBody), ElementKind::Body), true, false)
            } else if tag@ == "html"@ {
                let (s1, popped) = pop_current_view(st, ElementKind::Body);
                if popped {
                    (pop_current_view(with_mode(s1, InsertionMode::AfterBody), ElementKind::Html).0, false, false)
                } else {
                    (st, true, false)
                }
            } else {
                match element_kind_of(tag@) {
                    Some(ElementKind::P) | Some(ElementKind::H1) | Some(ElementKind::H2) | Some(ElementKind::A) =>
                        (pop_until_view(st, element_kind_of(tag@)->0), true, false),
                    _ => (st, true, false),
                }
            },
            HtmlToken::Eof => (st, false, true),
            HtmlToken::Char(c) => (insert_char_view(st, c), true, false),
        },
        InsertionMode::Text => match t {
            HtmlToken::Eof => (st, false, true),
            HtmlToken::EndTag { tag } => if tag@ == "style"@ {
                (with_mode(pop_until_view(st, ElementKind::Style), st.3), true, false)
            } else if tag@ == "script"@ {
                (with_mode(pop_until_view(st, ElementKind::Script), st.3), true, false)
            } else {
                (with_mode(st, st.3), false, false)
            },
            HtmlToken::Char(c) => (insert_char_view(st, c), true, false),
            _ => (with_mode(st, st.3), false, false),
        },
        InsertionMode::AfterBody => match t {
            HtmlToken::Char(_) => (st, true, false),
            HtmlToken::EndTag { tag } => if tag@ == "html"@ {
                (with_mode(st, InsertionMode::AfterAfterBody), true, false)
            } else {
                (with_mode(st, InsertionMode::InBody), false, false)
            },
            HtmlToken::Eof => (st, false, true),
            _ => (with_mode(st, InsertionMode::InBody), false, false),
        },
        InsertionMode::AfterAfterBody => match t {
            HtmlToken::Char(_) => (st, true, false),
            HtmlToken::Eof => (st, false, true),
            _ => (with_mode(st, InsertionMode::InBody), false, false),
        },
    }
}

/// Gives token `t` to the insertion modes until one uses it up or construction stops; says
/// whether it stopped.
pub open spec fn feed(st: ParseState, t: HtmlToken) -> (ParseState, bool)
    decreases mode_rank(st.2, Some(t)),
{
    let (s2, consumed, stop) = step_view(st, t);
    if stop {
        (s2, true)
    } else if consumed {
        (s2, false)
    } else if mode_rank(s2.2, Some(t)) < mode_rank(st.2, Some(t)) {
        feed(s2, t)
    } else {
        (s2, false)
    }
}

/// The state after the tokens `ts`, one after another, from state `st`; and whether
/// construction stopped at one of them.
pub open spec fn run(st: ParseState, ts: Seq<HtmlToken>) -> (ParseState, bool)
    decreases ts.len(),
{
    if ts.len() == 0 {
        (st, false)
    } else {
        let (s, stopped) = run(st, ts.drop_last());
        if stopped {
            (s, true)
        } else {
            feed(s, ts.last())
        }
    }
}

/// `toks` are what calls of `HtmlTokenizer::next` give on `input`, one after another, going
/// through the tokenizer states `ss`.
pub open spec fn tokens_from(input: Seq<char>, ss: Seq<TokenizerView>, toks: Seq<HtmlToken>) -> bool {
    &&& ss.len() == toks.len() + 1
    &&& forall|k: int| 0 <= k < toks.len() ==> #[trigger] token_next(input, ss[k]) == (ss[k + 1], Some(token_view(toks[k])))
}

/// Builds the DOM from the tokens of an `HtmlTokenizer`.
pub struct HtmlParser {
    window: Window,
    mode: InsertionMode,
    original_insertion_mode: InsertionMode,
    stack_of_open_elements: Vec<usize>,
    t: HtmlTokenizer,
    read: Ghost<Seq<HtmlToken>>,
}

impl HtmlParser {
    pub closed spec fn wf(&self) -> bool {
        &&& self.window.wf()
        &&& self.t.wf()
        &&& self.original_insertion_mode != InsertionMode::Text
        &&& forall|i: int| 0 <= i < self.stack_of_open_elements@.len()
            ==> 0 < #[trigger] self.stack_of_open_elements@[i] < self.window.nodes_view().len()
    }

    /// What the modes before `<head>` imply about the DOM and the open elements.
    pub closed spec fn skeleton(&self) -> bool {
        let nodes = self.window.nodes_view();
        let stack = self.stack_of_open_elements@;
        &&& (self.mode == InsertionMode::Initial || self.mode == InsertionMode::BeforeHtml)
            ==> nodes.len() == 1 && stack.len() == 0
        &&& self.mode == InsertionMode::BeforeHead ==> nodes.len() == 2 && stack == seq![1usize]
        &&& self.mode == InsertionMode::Text ==> self.original_insertion_mode == InsertionMode::InHead
        &&& (self.mode != InsertionMode::Initial && self.mode != InsertionMode::BeforeHtml
            && self.mode != InsertionMode::BeforeHead) ==> nodes.len() >= 3
        &&& dom_skeleton(nodes)
    }

    /// How many tokens the constructor has read so far.
    pub closed spec fn tokens_read(&self) -> nat {
        self.read@.len()
    }

    /// The tokens the constructor has read so far, in order.
    pub closed spec fn tokens_seq(&self) -> Seq<HtmlToken> {
        self.read@
    }

    /// The DOM, the open elements and the two modes, as values.
    pub closed spec fn parse_state(&self) -> ParseState {
        (dom_view(self.window.nodes_view()), self.stack_of_open_elements@, self.mode, self.original_insertion_mode)
    }

    /// The tokenizer that the constructor reads from.
    pub closed spec fn tokenizer(&self) -> HtmlTokenizer {
        self.t
    }

    pub fn new(t: HtmlTokenizer) -> (r: Self)
        requires
            t.wf(),
        ensures
            r.wf(),
            r.skeleton(),
            r.tokens_read() == 0,
            r.tokenizer() == t,
            r.parse_state() == (seq![crate::dom::document_view()], Seq::<usize>::empty(), InsertionMode::Initial, InsertionMode::Initial),
    {
        Self {
            window: Window::new(),
            mode: InsertionMode::Initial,
            original_insertion_mode: InsertionMode::Initial,
            stack_of_open_elements: Vec::new(),
            t,
            read: Ghost(Seq::empty()),
        }
    }

    fn create_element(&self, kind: ElementKind, attributes: Vec<Attribute>) -> (r: Node)
        ensures
            node_element_kind(r.kind) == Some(kind),
            crate::dom::kind_view(r.kind).0 == 1,
            crate::dom::kind_view(r.kind).1 == Some(kind),
            crate::dom::kind_view(r.kind).2 == attributes_view(attributes@),
            crate::dom::kind_view(r.kind).3 == Seq::<char>::empty(),
    {
        Node::new(NodeKind::Element(Element { kind, attributes }))
    }

    /// Whether an element of kind `element_kind` is open.
    fn contain_in_stack(&self, element_kind: ElementKind) -> (r: bool)
        requires
            self.wf(),
        ensures
            r == exists|i: int| 0 <= i < self.stack_of_open_elements@.len()
                && node_element_kind(self.window.nodes_view()[#[trigger] self.stack_of_open_elements@[i] as int].kind) == Some(element_kind),
            r == stack_contains(dom_view(self.window.nodes_view()), self.stack_of_open_elements@, element_kind),
    {
        let mut i: usize = 0;
        while i < self.stack_of_open_elements.len()
            invariant
                self.wf(),
                i <= self.stack_of_open_elements@.len(),
                forall|k: int| 0 <= k < i ==> node_element_kind(self.window.nodes_view()[#[trigger] self.stack_of_open_elements@[k] as int].kind) != Some(element_kind),
            decreases self.stack_of_open_elements@.len() - i,
        {
            let id = self.stack_of_open_elements[i];
            match self.window.node(id).element_kind() {
                Some(k) => {
                    if k == element_kind {
                        proof {
                            let ns = dom_view(self.window.nodes_view());
                            assert(ns[self.stack_of_open_elements@[i as int] as int].0.1 == Some(element_kind));
                        }
                        return true;
                    }
                },
                None => {},
            }
            i = i + 1;
        }
        proof {
            let ns = dom_view(self.window.nodes_view());
            let st = self.stack_of_open_elements@;
            if stack_contains(ns, st, element_kind) {
                let j = choose|j: int| 0 <= j < st.len() && (#[trigger] ns[st[j] as int]).0.1 == Some(element_kind);
                assert(node_element_kind(self.window.nodes_view()[st[j] as int].kind) != Some(element_kind));
            }
        }
        false
    }

    /// Closes open elements up to and including the nearest one of kind `element_kind`; does
    /// nothing when no such element is open.
    fn pop_until(&mut self, element_kind: ElementKind)
        requires
            old(self).wf(),
        ensures
            final(self).wf(),
            final(self).window == old(self).window,
            final(self).t == old(self).t,
            final(self).mode == old(self).mode,
            final(self).original_insertion_mode == old(self).original_insertion_mode,
            final(self).read == old(self).read,
            final(self).parse_state() == pop_until_view(old(self).parse_state(), element_kind),
    {
        if !self.contain_in_stack(element_kind) {
            return;
        }
        let ghost ns = dom_view(self.window.nodes_view());
        let ghost target = pop_until_stack(ns, self.stack_of_open_elements@, element_kind);
        loop
            invariant
                self.wf(),
                ns == dom_view(self.window.nodes_view()),
                stack_contains(ns, old(self).stack_of_open_elements@, element_kind),
                target == pop_until_stack(ns, old(self).stack_of_open_elements@, element_kind),
                pop_until_stack(ns, self.stack_of_open_elements@, element_kind) == target,
                self.window == old(self).window,
                self.t == old(self).t,
                self.mode == old(self).mode,
                self.original_insertion_mode == old(self).original_insertion_mode,
                self.read == old(self).read,
            decreases self.stack_of_open_elements@.len(),
        {
            let ghost before = self.stack_of_open_elements@;
            match self.stack_of_open_elements.pop() {
                Some(n) => {
                    proof {
                        assert(self.stack_of_open_elements@ =~= before.drop_last());
                        assert(n == before.last());
                    }
                    if self.window.node(n).element_kind() == Some(element_kind) {
                        return;
                    }
                },
                None => {
                    return;
                },
            }
        }
    }

    /// Closes the current node when it is an element of kind `element_kind`.
    fn pop_current_node(&mut self, element_kind: ElementKind) -> (r: bool)
        requires
            old(self).wf(),
        ensures
            final(self).wf(),
            final(self).window == old(self).window,
            final(self).t == old(self).t,
            final(self).mode == old(self).mode,
            final(self).original_insertion_mode == old(self).original_insertion_mode,
            final(self).read == old(self).read,
            (final(self).parse_state(), r) == pop_current_view(old(self).parse_state(), element_kind),
    {
        let n = self.stack_of_open_elements.len();
        if n == 0 {
            return false;
        }
        let current = self.stack_of_open_elements[n - 1];
        if self.window.node(current).element_kind() == Some(element_kind) {
            self.stack_of_open_elements.pop();
            proof {
                assert(self.stack_of_open_elements@ =~= old(self).stack_of_open_elements@.drop_last());
            }
            return true;
        }
        false
    }

    fn create_char(&self, c: char) -> (r: Node)
        ensures
            r.kind matches NodeKind::Text(s) && s@ == seq![c],
    {
        let v = vec![c];
        Node::new(NodeKind::Text(string_of(&v)))
    }

    /// Adds `c` to the text node that is open, or opens a new text node for it as the last
    /// child of the current node; whitespace outside a text node is dropped.
    fn insert_char(&mut self, c: char)
        requires
            old(self).wf(),
        ensures
            final(self).wf(),
            final(self).parse_state() == insert_char_view(old(self).parse_state(), c),
            ({
                let n = old(self).window.nodes_view().len() as int;
                let stack = old(self).stack_of_open_elements@;
                let nodes = old(self).window.nodes_view();
                if stack.len() == 0 {
                    final(self).window == old(self).window && final(self).stack_of_open_elements == old(self).stack_of_open_elements
                } else if nodes[stack.last() as int].kind is Text {
                    &&& final(self).window.nodes_view().len() == n
                    &&& final(self).window.nodes_view()[stack.last() as int].kind->Text_0@ == nodes[stack.last() as int].kind->Text_0@.push(c)
                    &&& final(self).stack_of_open_elements == old(self).stack_of_open_elements
                } else if c == ' ' || c == '\n' {
                    final(self).window == old(self).window && final(self).stack_of_open_elements == old(self).stack_of_open_elements
                } else {
                    n < usize::MAX ==> {
                        &&& final(self).window.nodes_view().len() == n + 1
                        &&& final(self).window.nodes_view()[n].kind is Text
                        &&& final(self).window.nodes_view()[n].kind->Text_0@ == seq![c]
                        &&& final(self).window.nodes_view()[n].parent_link() == Some(stack.last())
                        &&& final(self).window.nodes_view()[stack.last() as int].last_child_link() == Some(n as usize)
                        &&& final(self).stack_of_open_elements@ == stack.push(n as usize)
                    }
                }
            }),
            final(self).t == old(self).t,
            final(self).mode == old(self).mode,
            final(self).original_insertion_mode == old(self).original_insertion_mode,
            final(self).read == old(self).read,
            old(self).window.nodes_view().len() >= 3 && dom_skeleton(old(self).window.nodes_view())
                ==> dom_skeleton(final(self).window.nodes_view()),
            final(self).window.nodes_view().len() >= old(self).window.nodes_view().len(),
    {
        let n = self.stack_of_open_elements.len();
        if n == 0 {
            return;
        }
        let current = self.stack_of_open_elements[n - 1];
        let is_text = match self.window.node(current).kind() {
            NodeKind::Text(_) => true,
            _ => false,
        };
        if is_text {
            self.window.push_text(current, c);
            return;
        }
        if c == '\n' || c == ' ' {
            return;
        }
        if self.window.len() == usize::MAX {
            return;
        }
        let node = self.create_char(c);
        proof {
            assert(links_ok(old(self).window.nodes_view(), current as int));
            assert(links_ok(old(self).window.nodes_view(), 0));
            assert(links_ok(old(self).window.nodes_view(), 1));
        }
        let id = self.window.append_child(current, node.kind);
        self.stack_of_open_elements.push(id);
    }

    /// Appends an element of kind `kind` as the last child of the current node (the document
    /// when no element is open) and opens it.
    fn insert_element(&mut self, kind: ElementKind, attributes: Vec<Attribute>)
        requires
            old(self).wf(),
        ensures
            final(self).wf(),
            final(self).parse_state() == insert_element_view(old(self).parse_state(), kind, attributes_view(attributes@)),
            ({
                let n = old(self).window.nodes_view().len() as int;
                let stack = old(self).stack_of_open_elements@;
                let current = if stack.len() == 0 { 0 } else { stack.last() as int };
                n < usize::MAX ==> {
                    &&& final(self).window.nodes_view().len() == n + 1
                    &&& node_element_kind(final(self).window.nodes_view()[n].kind) == Some(kind)
                    &&& final(self).window.nodes_view()[n].parent_link() == Some(current as usize)
                    &&& final(self).window.nodes_view()[current].last_child_link() == Some(n as usize)
                    &&& final(self).stack_of_open_elements@ == stack.push(n as usize)
                }
            }),
            final(self).t == old(self).t,
            final(self).mode == old(self).mode,
            final(self).original_insertion_mode == old(self).original_insertion_mode,
            final(self).read == old(self).read,
            ({
                let n = old(self).window.nodes_view().len();
                let stack = old(self).stack_of_open_elements@;
                dom_skeleton(old(self).window.nodes_view()) && (n >= 3
                    || (n == 1 && kind == ElementKind::Html && stack.len() == 0)
                    || (n == 2 && kind == ElementKind::Head && stack == seq![1usize]))
                    ==> dom_skeleton(final(self).window.nodes_view())
            }),
            final(self).window.nodes_view().len() >= old(self).window.nodes_view().len(),
    {
        let n = self.stack_of_open_elements.len();
        let current = if n == 0 {
            self.window.document()
        } else {
            self.stack_of_open_elements[n - 1]
        };
        if self.window.len() == usize::MAX {
            return;
        }
        let ghost attrs_ghost = attributes@;
        let node = self.create_element(kind, attributes);
        proof {
            assert(links_ok(old(self).window.nodes_view(), current as int));
            assert(links_ok(old(self).window.nodes_view(), 0));
            if old(self).window.nodes_view().len() > 1 {
                assert(links_ok(old(self).window.nodes_view(), 1));
            }
        }
        let id = self.window.append_child(current, node.kind);
        self.stack_of_open_elements.push(id);
        proof {
            assert(self.parse_state() =~= insert_element_view(old(self).parse_state(), kind, attributes_view(attrs_ghost)));
        }
    }

    /// Reads the next token and counts it.
    fn read_token(&mut self) -> (r: Option<HtmlToken>)
        requires
            old(self).wf(),
        ensures
            final(self).wf(),
            final(self).window == old(self).window,
            final(self).mode == old(self).mode,
            final(self).original_insertion_mode == old(self).original_insertion_mode,
            final(self).stack_of_open_elements == old(self).stack_of_open_elements,
            r is Some ==> final(self).t.fuel() < old(self).t.fuel(),
            r is Some ==> final(self).tokens_seq() == old(self).tokens_seq().push(r->0),
            final(self).t.input_view() == old(self).t.input_view(),
            (final(self).t.view_state(), opt_token_view(r)) == token_next(old(self).t.input_view(), old(self).t.view_state()),
            r is None ==> final(self).t == old(self).t && final(self).tokens_seq() == old(self).tokens_seq(),
    {
        let r = self.t.next();
        match &r {
            Some(tok) => {
                self.read = Ghost(self.read@.push(*tok));
            },
            None => {},
        }
        r
    }

    /// Runs the insertion mode once on `token`: says whether the token is used up and whether
    /// construction stops.
    #[verifier::rlimit(100)]
    #[verifier::spinoff_prover]
    fn step(&mut self, token: &HtmlToken) -> (r: (bool, bool))
        requires
            old(self).wf(),
            old(self).skeleton(),
        ensures
            final(self).wf(),
            final(self).skeleton(),
            final(self).t == old(self).t,
            final(self).read == old(self).read,
            (final(self).parse_state(), r.0, r.1) == step_view(old(self).parse_state(), *token),
            !r.0 && !r.1 ==> mode_rank(final(self).mode, Some(*token)) < mode_rank(old(self).mode, Some(*token)),
    {
        match self.mode {
            InsertionMode::Initial => {
                if let HtmlToken::Char(_) = token {
                    return (true, false);
                }
                self.mode = InsertionMode::BeforeHtml;
                (false, false)
            },
            InsertionMode::BeforeHtml => {
                match token {
                    HtmlToken::Char(c) => {
                        if *c == ' ' || *c == '\n' {
                            return (true, false);
                        }
                    },
                    HtmlToken::StartTag { tag, self_closing: _, attributes } => {
                        if str_eq(tag.as_str(), "html") {
                            self.insert_element(ElementKind::Html, clone_attributes(attributes));
                            assert(self.stack_of_open_elements@ =~= seq![1usize]);
                            self.mode = InsertionMode::BeforeHead;
                            return (true, false);
                        }
                    },
                    HtmlToken::Eof => {
                        return (false, true);
                    },
                    _ => {},
                }
                self.insert_element(ElementKind::Html, Vec::new());
                assert(self.stack_of_open_elements@ =~= seq![1usize]);
                self.mode = InsertionMode::BeforeHead;
                (false, false)
            },
            InsertionMode::BeforeHead => {
                match token {
                    HtmlToken::Char(c) => {
                        if *c == ' ' || *c == '\n' {
                            return (true, false);
                        }
                    },
                    HtmlToken::StartTag { tag, self_closing: _, attributes } => {
                        if str_eq(tag.as_str(), "head") {
                            self.insert_element(ElementKind::Head, clone_attributes(attributes));
                            self.mode = InsertionMode::InHead;
                            return (true, false);
                        }
                    },
                    HtmlToken::Eof => {
                        return (false, true);
                    },
                    _ => {},
                }
                self.insert_element(ElementKind::Head, Vec::new());
                self.mode = InsertionMode::InHead;
                (false, false)
            },
            InsertionMode::InHead => {
                match token {
                    HtmlToken::Char(c) => {
                        if *c == ' ' || *c == '\n' {
                            self.insert_char(*c);
                        }
                        (true, false)
                    },
                    HtmlToken::StartTag { tag, self_closing: _, attributes } => {
                        let is_style = str_eq(tag.as_str(), "style");
                        if is_style || str_eq(tag.as_str(), "script") {
                            let kind = if is_style {
                                ElementKind::Style
                            } else {
                                ElementKind::Script
                            };
                            self.insert_element(kind, clone_attributes(attributes));
                            self.original_insertion_mode = self.mode;
                            self.mode = InsertionMode::Text;
                            return (true, false);
                        }
                        if ElementKind::from_name(tag.as_str()).is_some() {
                            self.pop_until(ElementKind::Head);
                            self.mode = InsertionMode::AfterHead;
                            return (false, false);
                        }
                        (true, false)
                    },
                    HtmlToken::EndTag { tag } => {
                        if str_eq(tag.as_str(), "head") {
                            self.pop_until(ElementKind::Head);
                            self.mode = InsertionMode::AfterHead;
                        }
                        (true, false)
                    },
                    HtmlToken::Eof => (false, true),
                }
            },
            InsertionMode::AfterHead => {
                match token {
                    HtmlToken::Char(c) => {
                        if *c == ' ' || *c == '\n' {
                            self.insert_char(*c);
                            return (true, false);
                        }
                    },
                    HtmlToken::StartTag { tag, self_closing: _, attributes } => {
                        if str_eq(tag.as_str(), "body") {
                            self.insert_element(ElementKind::Body, clone_attributes(attributes));
                            self.mode = InsertionMode::InBody;
                            return (true, false);
                        }
                    },
                    HtmlToken::Eof => {
                        return (false, true);
                    },
                    _ => {},
                }
                self.insert_element(ElementKind::Body, Vec::new());
                self.mode = InsertionMode::InBody;
                (false, false)
            },
            InsertionMode::InBody => {
                match token {
                    HtmlToken::StartTag { tag, self_closing: _, attributes } => {
                        match ElementKind::from_name(tag.as_str()) {
                            Some(ElementKind::P) | Some(ElementKind::H1) | Some(ElementKind::H2) | Some(ElementKind::A) => {
                                let kind = ElementKind::from_name(tag.as_str()).unwrap();
                                self.insert_element(kind, clone_attributes(attributes));
                            },
                            _ => {},
                        }
                        (true, false)
                    },
                    HtmlToken::EndTag { tag } => {
                        if str_eq(tag.as_str(), "body") {
                            self.mode = InsertionMode::AfterBody;
                            self.pop_until(ElementKind::Body);
                            return (true, false);
                        }
                        if str_eq(tag.as_str(), "html") {
                            if self.pop_current_node(ElementKind::Body) {
                                self.mode = InsertionMode::AfterBody;
                                self.pop_current_node(ElementKind::Html);
                                return (false, false);
                            }
                            return (true, false);
                        }
                        match ElementKind::from_name(tag.as_str()) {
                            Some(ElementKind::P) | Some(ElementKind::H1) | Some(ElementKind::H2) | Some(ElementKind::A) => {
                                let kind = ElementKind::from_name(tag.as_str()).unwrap();
                                self.pop_until(kind);
                            },
                            _ => {},
                        }
                        (true, false)
                    },
                    HtmlToken::Eof => (false, true),
                    HtmlToken::Char(c) => {
                        self.insert_char(*c);
                        (true, false)
                    },
                }
            },
            InsertionMode::Text => {
                match token {
                    HtmlToken::Eof => {
                        return (false, true);
                    },
                    HtmlToken::EndTag { tag } => {
                        if str_eq(tag.as_str(), "style") {
                            self.pop_until(ElementKind::Style);
                            self.mode = self.original_insertion_mode;
                            return (true, false);
                        }
                        if str_eq(tag.as_str(), "script") {
                            self.pop_until(ElementKind::Script);
                            self.mode = self.original_insertion_mode;
                            return (true, false);
                        }
                    },
                    HtmlToken::Char(c) => {
                        self.insert_char(*c);
                        return (true, false);
                    },
                    _ => {},
                }
                self.mode = self.original_insertion_mode;
                (false, false)
            },
            InsertionMode::AfterBody => {
                match token {
                    HtmlToken::Char(_) => {
                        return (true, false);
                    },
                    HtmlToken::EndTag { tag } => {
                        if str_eq(tag.as_str(), "html") {
                            self.mode = InsertionMode::AfterAfterBody;
                            return (true, false);
                        }
                    },
                    HtmlToken::Eof => {
                        return (false, true);
                    },
                    _ => {},
                }
                self.mode = InsertionMode::InBody;
                (false, false)
            },
            InsertionMode::AfterAfterBody => {
                match token {
                    HtmlToken::Char(_) => (true, false),
                    HtmlToken::Eof => (false, true),
                    _ => {
                        self.mode = InsertionMode::InBody;
                        (false, false)
                    },
                }
            },
        }
    }

    /// Runs the insertion modes over the tokens and hands over the window that holds the DOM.
    /// The DOM is the one that the insertion modes build from the tokens read, one after
    /// another, up to the end of the input or an end-of-file token. Every token is read once,
    /// so at most `fuel` tokens are read for a tokenizer whose fuel is `fuel` (four per
    /// character of a fresh tokenizer's input).
    pub fn construct_tree(&mut self) -> (r: Window)
        requires
            old(self).wf(),
            old(self).skeleton(),
        ensures
            r.wf(),
            dom_skeleton(r.nodes_view()),
            final(self).wf(),
            final(self).tokens_read() <= old(self).tokens_read() + old(self).tokenizer().fuel(),
            old(self).tokens_seq().is_prefix_of(final(self).tokens_seq()),
            dom_view(r.nodes_view()) == run(old(self).parse_state(),
                final(self).tokens_seq().subrange(old(self).tokens_seq().len() as int, final(self).tokens_seq().len() as int)).0.0,
            ({
                let input = old(self).tokenizer().input_view();
                let toks = final(self).tokens_seq().subrange(old(self).tokens_seq().len() as int, final(self).tokens_seq().len() as int);
                exists|ss: Seq<TokenizerView>| #[trigger] tokens_from(input, ss, toks)
                    && ss[0] == old(self).tokenizer().view_state()
                    && (token_next(input, ss.last()).1 is None || run(old(self).parse_state(), toks).1)
            }),
    {
        let ghost init = self.parse_state();
        let ghost start = self.read@.len();
        let ghost input = self.t.input_view();
        let ghost mut ss: Seq<TokenizerView> = seq![self.t.view_state()];
        let mut token = self.read_token();
        proof {
            if token is Some {
                ss = ss.push(self.t.view_state());
                let toks = self.read@.subrange(start as int, self.read@.len() as int);
                assert(toks =~= seq![token->0]);
                assert(tokens_from(input, ss, toks));
            } else {
                assert(self.read@.subrange(start as int, self.read@.len() as int) =~= Seq::<HtmlToken>::empty());
            }
        }
        proof {
            let ts = self.read@.subrange(start as int, self.read@.len() as int);
            if token is Some {
                assert(ts.drop_last() =~= Seq::<HtmlToken>::empty());
                assert(ts.last() == token->0);
                assert(run(init, ts.drop_last()) == (init, false));
            } else {
                assert(ts =~= Seq::<HtmlToken>::empty());
            }
        }
        loop
            invariant
                self.wf(),
                self.skeleton(),
                self.tokens_read() + self.t.fuel() + (if token is Some { 1int } else { 0int })
                    <= old(self).tokens_read() + old(self).t.fuel() + 1,
                token is Some ==> self.tokens_read() + self.t.fuel() <= old(self).tokens_read() + old(self).t.fuel(),
                token is None ==> self.tokens_read() + self.t.fuel() <= old(self).tokens_read() + old(self).t.fuel(),
                init == old(self).parse_state(),
                start == old(self).read@.len(),
                input == old(self).t.input_view(),
                self.t.input_view() == input,
                ss[0] == old(self).t.view_state(),
                ss.last() == self.t.view_state(),
                tokens_from(input, ss, self.read@.subrange(start as int, self.read@.len() as int)),
                token is None ==> token_next(input, ss.last()).1 is None,
                old(self).read@.is_prefix_of(self.read@),
                token is Some ==> self.read@.len() > start && self.read@.last() == token->0
                    && run(init, self.read@.subrange(start as int, self.read@.len() as int)) == feed(self.parse_state(), token->0),
                token is None ==> run(init, self.read@.subrange(start as int, self.read@.len() as int)) == (self.parse_state(), false),
            decreases self.t.fuel() + (if token is Some { 1nat } else { 0nat }), mode_rank(self.mode, token),
        {
            let tok = match token {
                Some(t) => t,
                None => {
                    let ghost fin = self.parse_state();
                    let mut window = Window::new();
                    core::mem::swap(&mut window, &mut self.window);
                    self.stack_of_open_elements = Vec::new();
                    assert(dom_view(window.nodes_view()) == fin.0);
                    proof {
                        let toks = self.read@.subrange(start as int, self.read@.len() as int);
                        assert(tokens_from(input, ss, toks));
                        assert(input == old(self).tokenizer().input_view());
                        assert(ss[0] == old(self).tokenizer().view_state());
                        assert(token_next(input, ss.last()).1 is None);
                        assert(self.tokens_seq().subrange(old(self).tokens_seq().len() as int, self.tokens_seq().len() as int) == toks);
                    }
                    return window;
                },
            };
            let ghost before = self.parse_state();
            let (consumed, stop) = self.step(&tok);
            if stop {
                proof {
                    let ts = self.read@.subrange(start as int, self.read@.len() as int);
                    assert(feed(before, tok) == (self.parse_state(), true));
                }
                let ghost fin = self.parse_state();
                let mut window = Window::new();
                core::mem::swap(&mut window, &mut self.window);
                self.stack_of_open_elements = Vec::new();
                proof {
                    let ts = self.read@.subrange(start as int, self.read@.len() as int);
                    assert(run(init, ts) == (fin, true));
                    assert(dom_view(window.nodes_view()) == fin.0);
                    assert(tokens_from(input, ss, ts));
                    assert(input == old(self).tokenizer().input_view());
                    assert(ss[0] == old(self).tokenizer().view_state());
                    assert(run(old(self).parse_state(), ts).1);
                    assert(self.tokens_seq().subrange(old(self).tokens_seq().len() as int, self.tokens_seq().len() as int) == ts);
                }
                return window;
            }
            if consumed {
                let ghost prev_read = self.read@;
                let ghost prev_ss = ss;
                let ghost prev_state = self.t.view_state();
                token = self.read_token();
                proof {
                    let ts0 = prev_read.subrange(start as int, prev_read.len() as int);
                    if token is Some {
                        ss = ss.push(self.t.view_state());
                        let ts = self.read@.subrange(start as int, self.read@.len() as int);
                        assert(ts.drop_last() =~= ts0);
                        assert forall|k: int| 0 <= k < ts.len() implies #[trigger] token_next(input, ss[k]) == (ss[k + 1], Some(token_view(ts[k]))) by {
                            if k < ts0.len() {
                                assert(ts[k] == ts0[k]);
                                assert(ss[k] == prev_ss[k] && ss[k + 1] == prev_ss[k + 1]);
                            } else {
                                assert(ss[k] == prev_state);
                            }
                        }
                    }
                }
                proof {
                    let ts0 = prev_read.subrange(start as int, prev_read.len() as int);
                    assert(feed(before, tok) == (self.parse_state(), false));
                    assert(run(init, ts0) == (self.parse_state(), false));
                    if token is Some {
                        let ts = self.read@.subrange(start as int, self.read@.len() as int);
                        assert(ts.drop_last() =~= ts0);
                        assert(ts.last() == token->0);
                    } else {
                        assert(self.read@ == prev_read);
                    }
                }
            } else {
                token = Some(tok);
                proof {
                    assert(feed(before, tok) == feed(self.parse_state(), tok));
                }
            }
        }
    }
}


} // verus!
