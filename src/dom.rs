use vstd::prelude::*;
use crate::html_token::Attribute;
use crate::text::{str_eq, string_of, chars_of};

verus! {

/// The elements that the tree constructor knows.
#[derive(Debug, Clone, Copy, PartialEq, Eq, Structural)]
pub enum ElementKind {
    Html,
    Head,
    Style,
    Script,
    Body,
    P,
    H1,
    H2,
    A,
}

/// The lowercase tag name of each element kind.
pub open spec fn element_kind_name(k: ElementKind) -> Seq<char> {
    match k {
        ElementKind::Html => "html"@,
        ElementKind::Head => "head"@,
        ElementKind::Style => "style"@,
        ElementKind::Script => "script"@,
        ElementKind::Body => "body"@,
        ElementKind::P => "p"@,
        ElementKind::H1 => "h1"@,
        ElementKind::H2 => "h2"@,
        ElementKind::A => "a"@,
    }
}

/// The element kind that a tag name stands for, if it is a known one.
pub open spec fn element_kind_of(s: Seq<char>) -> Option<ElementKind> {
    if s == "html"@ {
        Some(ElementKind::Html)
    } else if s == "head"@ {
        Some(ElementKind::Head)
    } else if s == "style"@ {
        Some(ElementKind::Style)
    } else if s == "script"@ {
        Some(ElementKind::Script)
    } else if s == "body"@ {
        Some(ElementKind::Body)
    } else if s == "p"@ {
        Some(ElementKind::P)
    } else if s == "h1"@ {
        Some(ElementKind::H1)
    } else if s == "h2"@ {
        Some(ElementKind::H2)
    } else if s == "a"@ {
        Some(ElementKind::A)
    } else {
        None
    }
}

impl ElementKind {
    /// The kind named by `s`, or `None` for a name that is not known.
    pub fn from_name(s: &str) -> (r: Option<ElementKind>)
        ensures
            r == element_kind_of(s@),
    {
        if str_eq(s, "html") {
            Some(ElementKind::Html)
        } else if str_eq(s, "head") {
            Some(ElementKind::Head)
        } else if str_eq(s, "style") {
            Some(ElementKind::Style)
        } else if str_eq(s, "script") {
            Some(ElementKind::Script)
        } else if str_eq(s, "body") {
            Some(ElementKind::Body)
        } else if str_eq(s, "p") {
            Some(ElementKind::P)
        } else if str_eq(s, "h1") {
            Some(ElementKind::H1)
        } else if str_eq(s, "h2") {
            Some(ElementKind::H2)
        } else if str_eq(s, "a") {
            Some(ElementKind::A)
        } else {
            None
        }
    }

    /// The tag name of the kind.
    pub fn name(&self) -> (r: String)
        ensures
            r@ == element_kind_name(*self),
    {
        match self {
            ElementKind::Html => String::from_str("html"),
            ElementKind::Head => String::from_str("head"),
            ElementKind::Style => String::from_str("style"),
            ElementKind::Script => String::from_str("script"),
            ElementKind::Body => String::from_str("body"),
            ElementKind::P => String::from_str("p"),
            ElementKind::H1 => String::from_str("h1"),
            ElementKind::H2 => String::from_str("h2"),
            ElementKind::A => String::from_str("a"),
        }
    }
}

/// An element: its kind and its attributes.
#[derive(Debug, Clone)]
pub struct Element {
    pub kind: ElementKind,
    pub attributes: Vec<Attribute>,
}

impl Element {
    /// An element for the known tag name `tag`.
    pub fn new(tag: &str, attributes: Vec<Attribute>) -> (r: Self)
        requires
            element_kind_of(tag@) is Some,
        ensures
            r.kind == element_kind_of(tag@)->0,
            r.attributes@ == attributes@,
    {
        let kind = ElementKind::from_name(tag).unwrap();
        Element { kind, attributes }
    }

    pub fn kind(&self) -> (r: ElementKind)
        ensures
            r == self.kind,
    {
        self.kind
    }

    pub fn attributes(&self) -> (r: &Vec<Attribute>)
        ensures
            r == &self.attributes,
    {
        &self.attributes
    }
}

/// What a DOM node is.
#[derive(Debug, Clone)]
pub enum NodeKind {
    Document,
    Element(Element),
    Text(String),
}

/// Two node kinds count as the same when both are the document, both are text, or both are
/// elements of one kind; text content and attributes are not compared.
pub open spec fn same_node_kind(a: NodeKind, b: NodeKind) -> bool {
    match (a, b) {
        (NodeKind::Document, NodeKind::Document) => true,
        (NodeKind::Element(x), NodeKind::Element(y)) => x.kind == y.kind,
        (NodeKind::Text(_), NodeKind::Text(_)) => true,
        _ => false,
    }
}

impl PartialEq for NodeKind {
    fn eq(&self, other: &NodeKind) -> (r: bool) {
        match (self, other) {
            (NodeKind::Document, NodeKind::Document) => true,
            (NodeKind::Element(x), NodeKind::Element(y)) => x.kind == y.kind,
            (NodeKind::Text(_), NodeKind::Text(_)) => true,
            _ => false,
        }
    }
}

impl vstd::std_specs::cmp::PartialEqSpecImpl for NodeKind {
    open spec fn obeys_eq_spec() -> bool {
        true
    }

    open spec fn eq_spec(&self, other: &NodeKind) -> bool {
        same_node_kind(*self, *other)
    }
}

/// A node of the DOM. The links are indices into the window's list of nodes.
#[derive(Debug, Clone)]
pub struct Node {
    pub kind: NodeKind,
    pub parent: Option<usize>,
    pub first_child: Option<usize>,
    pub last_child: Option<usize>,
    pub previous_sibling: Option<usize>,
    pub next_sibling: Option<usize>,
}

impl PartialEq for Node {
    fn eq(&self, other: &Node) -> (r: bool) {
        self.kind == other.kind
    }
}

impl vstd::std_specs::cmp::PartialEqSpecImpl for Node {
    open spec fn obeys_eq_spec() -> bool {
        true
    }

    open spec fn eq_spec(&self, other: &Node) -> bool {
        same_node_kind(self.kind, other.kind)
    }
}

impl Node {
    pub open spec fn parent_link(&self) -> Option<usize> {
        self.parent
    }

    pub open spec fn first_child_link(&self) -> Option<usize> {
        self.first_child
    }

    pub open spec fn last_child_link(&self) -> Option<usize> {
        self.last_child
    }

    pub open spec fn previous_sibling_link(&self) -> Option<usize> {
        self.previous_sibling
    }

    pub open spec fn next_sibling_link(&self) -> Option<usize> {
        self.next_sibling
    }

    /// A node of kind `kind` with no links.
    pub fn new(kind: NodeKind) -> (r: Self)
        ensures
            r.kind == kind,
            r.parent_link() is None,
            r.first_child_link() is None,
            r.last_child_link() is None,
            r.previous_sibling_link() is None,
            r.next_sibling_link() is None,
    {
        Node {
            kind,
            parent: None,
            first_child: None,
            last_child: None,
            previous_sibling: None,
            next_sibling: None,
        }
    }

    pub fn kind(&self) -> (r: &NodeKind)
        ensures
            r == &self.kind,
    {
        &self.kind
    }

    pub fn parent(&self) -> (r: Option<usize>)
        ensures
            r == self.parent_link(),
    {
        self.parent
    }

    pub fn first_child(&self) -> (r: Option<usize>)
        ensures
            r == self.first_child_link(),
    {
        self.first_child
    }

    pub fn last_child(&self) -> (r: Option<usize>)
        ensures
            r == self.last_child_link(),
    {
        self.last_child
    }

    pub fn previous_sibling(&self) -> (r: Option<usize>)
        ensures
            r == self.previous_sibling_link(),
    {
        self.previous_sibling
    }

    pub fn next_sibling(&self) -> (r: Option<usize>)
        ensures
            r == self.next_sibling_link(),
    {
        self.next_sibling
    }

    /// The element kind of the node, when it is an element.
    pub fn element_kind(&self) -> (r: Option<ElementKind>)
        ensures
            r == node_element_kind(self.kind),
    {
        match &self.kind {
            NodeKind::Element(e) => Some(e.kind),
            _ => None,
        }
    }
}

pub open spec fn node_element_kind(k: NodeKind) -> Option<ElementKind> {
    match k {
        NodeKind::Element(e) => Some(e.kind),
        _ => None,
    }
}

/// The links of node `i` in `nodes` agree with those of the nodes they point to.
pub open spec fn links_ok(nodes: Seq<Node>, i: int) -> bool {
    let n = nodes[i];
    &&& (i == 0) == (n.parent_link() is None)
    &&& n.parent_link() is Some ==> n.parent_link()->0 < i
    &&& i > 0 ==> !(n.kind is Document)
    &&& n.first_child_link() is Some == n.last_child_link() is Some
    &&& n.first_child_link() is Some ==> {
        let c = n.first_child_link()->0 as int;
        &&& i < c < nodes.len()
        &&& nodes[c].parent_link() == Some(i as usize)
        &&& nodes[c].previous_sibling_link() is None
    }
    &&& n.last_child_link() is Some ==> {
        let c = n.last_child_link()->0 as int;
        &&& i < c < nodes.len()
        &&& nodes[c].parent_link() == Some(i as usize)
        &&& nodes[c].next_sibling_link() is None
    }
    &&& n.next_sibling_link() is Some ==> {
        let s = n.next_sibling_link()->0 as int;
        &&& i < s < nodes.len()
        &&& nodes[s].parent_link() == n.parent_link()
        &&& nodes[s].previous_sibling_link() == Some(i as usize)
    }
    &&& n.previous_sibling_link() is Some ==> {
        let s = n.previous_sibling_link()->0 as int;
        &&& 0 <= s < i
        &&& nodes[s].next_sibling_link() == Some(i as usize)
    }
}

/// A DOM held in a list: the document is node 0, and every link points at another node of the
/// list, a parent always before its children and a sibling before the next one.
pub open spec fn dom_wf(nodes: Seq<Node>) -> bool {
    &&& nodes.len() >= 1
    &&& nodes[0].kind is Document
    &&& nodes[0].next_sibling_link() is None
    &&& nodes[0].previous_sibling_link() is None
    &&& forall|i: int| 0 <= i < nodes.len() ==> #[trigger] links_ok(nodes, i)
}

/// The sibling list that starts at node `c`, in document order.
pub open spec fn sibling_chain(nodes: Seq<Node>, c: usize) -> Seq<usize>
    decreases nodes.len() - c,
{
    if c >= nodes.len() {
        Seq::empty()
    } else {
        match nodes[c as int].next_sibling_link() {
            Some(s) => if c < s && s < nodes.len() {
                seq![c] + sibling_chain(nodes, s)
            } else {
                seq![c]
            },
            None => seq![c],
        }
    }
}

/// The children of node `p`, in document order.
pub open spec fn children_of(nodes: Seq<Node>, p: int) -> Seq<usize> {
    match nodes[p].first_child_link() {
        Some(c) => sibling_chain(nodes, c),
        None => Seq::empty(),
    }
}

proof fn lemma_chain_parent(nodes: Seq<Node>, c: usize, p: usize)
    requires
        dom_wf(nodes),
        c < nodes.len(),
        nodes[c as int].parent_link() == Some(p),
    ensures
        forall|k: int| 0 <= k < sibling_chain(nodes, c).len() ==> {
            &&& sibling_chain(nodes, c)[k] < nodes.len()
            &&& nodes[#[trigger] sibling_chain(nodes, c)[k] as int].parent_link() == Some(p)
        },
    decreases nodes.len() - c,
{
    assert(links_ok(nodes, c as int));
    let ch = sibling_chain(nodes, c);
    match nodes[c as int].next_sibling_link() {
        Some(s) => {
            if c < s && s < nodes.len() {
                lemma_chain_parent(nodes, s, p);
                let rest = sibling_chain(nodes, s);
                assert(ch == seq![c] + rest);
                assert forall|k: int| 0 <= k < ch.len() implies {
                    &&& ch[k] < nodes.len()
                    &&& nodes[#[trigger] ch[k] as int].parent_link() == Some(p)
                } by {
                    if k > 0 {
                        assert(ch[k] == rest[k - 1]);
                    }
                }
            }
        },
        None => {},
    }
}

/// Every child of a node, as the first-child and next-sibling links list them, names that
/// node as its parent.
pub proof fn lemma_children_know_parent(nodes: Seq<Node>, p: usize)
    requires
        dom_wf(nodes),
        p < nodes.len(),
    ensures
        forall|k: int| 0 <= k < children_of(nodes, p as int).len() ==> {
            &&& children_of(nodes, p as int)[k] < nodes.len()
            &&& nodes[#[trigger] children_of(nodes, p as int)[k] as int].parent_link() == Some(p)
        },
{
    assert(links_ok(nodes, p as int));
    match nodes[p as int].first_child_link() {
        Some(c) => lemma_chain_parent(nodes, c, p),
        None => {},
    }
}

/// What a node kind says: 0 for the document, 1 for an element, 2 for text; the element's
/// kind and its attributes as name-value pairs; the text.
pub type KindView = (nat, Option<ElementKind>, Seq<(Seq<char>, Seq<char>)>, Seq<char>);

/// What a node says: its kind, then its parent, first child, last child, previous sibling and
/// next sibling.
pub type NodeView = (KindView, Option<usize>, Option<usize>, Option<usize>, Option<usize>, Option<usize>);

pub open spec fn attributes_view(a: Seq<Attribute>) -> Seq<(Seq<char>, Seq<char>)> {
    a.map_values(|x: Attribute| (x.name_view(), x.value_view()))
}

pub open spec fn kind_view(k: NodeKind) -> KindView {
    match k {
        NodeKind::Document => (0, None, Seq::empty(), Seq::empty()),
        NodeKind::Element(e) => (1, Some(e.kind), attributes_view(e.attributes@), Seq::empty()),
        NodeKind::Text(t) => (2, None, Seq::empty(), t@),
    }
}

pub open spec fn node_view(n: Node) -> NodeView {
    (kind_view(n.kind), n.parent, n.first_child, n.last_child, n.previous_sibling, n.next_sibling)
}

pub open spec fn dom_view(ns: Seq<Node>) -> Seq<NodeView> {
    ns.map_values(|n: Node| node_view(n))
}

/// A document node without links.
pub open spec fn document_view() -> NodeView {
    ((0, None, Seq::empty(), Seq::empty()), None, None, None, None, None)
}

/// The DOM `ns` with a new node of kind `k` appended as the last child of node `p`.
pub open spec fn append_view(ns: Seq<NodeView>, p: int, k: KindView) -> Seq<NodeView> {
    let r = ns.len() as usize;
    let pn = ns[p];
    let ns1 = ns.push((k, Some(p as usize), None, None, pn.3, None));
    match pn.3 {
        Some(l) => {
            let ln = ns[l as int];
            ns1.update(l as int, (ln.0, ln.1, ln.2, ln.3, ln.4, Some(r))).update(p, (pn.0, pn.1, pn.2, Some(r), pn.4, pn.5))
        },
        None => ns1.update(p, (pn.0, pn.1, Some(r), Some(r), pn.4, pn.5)),
    }
}

/// The DOM `ns` with `c` appended to the text of node `id`.
pub open spec fn push_text_view(ns: Seq<NodeView>, id: int, c: char) -> Seq<NodeView> {
    let n = ns[id];
    ns.update(id, ((2, None, Seq::empty(), n.0.3.push(c)), n.1, n.2, n.3, n.4, n.5))
}

/// Owns the DOM: node 0 is the document, and the other nodes hang below it.
#[derive(Debug, Clone)]
pub struct Window {
    nodes: Vec<Node>,
}

impl Window {
    pub closed spec fn nodes_view(&self) -> Seq<Node> {
        self.nodes@
    }

    pub open spec fn wf(&self) -> bool {
        dom_wf(self.nodes_view())
    }

    /// A window whose DOM is a lone document.
    pub fn new() -> (r: Self)
        ensures
            r.wf(),
            r.nodes_view().len() == 1,
            dom_view(r.nodes_view()) == seq![document_view()],
    {
        let mut nodes: Vec<Node> = Vec::new();
        nodes.push(Node::new(NodeKind::Document));
        let w = Window { nodes };
        assert(links_ok(w.nodes@, 0));
        assert(dom_view(w.nodes@) =~= seq![document_view()]);
        w
    }

    /// The document node.
    pub fn document(&self) -> (r: usize)
        ensures
            r == 0,
    {
        0
    }

    pub fn len(&self) -> (r: usize)
        ensures
            r == self.nodes_view().len(),
    {
        self.nodes.len()
    }

    pub fn node(&self, id: usize) -> (r: &Node)
        requires
            id < self.nodes_view().len(),
        ensures
            *r == self.nodes_view()[id as int],
    {
        &self.nodes[id]
    }

    pub fn first_child(&self, id: usize) -> (r: Option<usize>)
        requires
            id < self.nodes_view().len(),
        ensures
            r == self.nodes_view()[id as int].first_child_link(),
    {
        self.nodes[id].first_child
    }

    pub fn next_sibling(&self, id: usize) -> (r: Option<usize>)
        requires
            id < self.nodes_view().len(),
        ensures
            r == self.nodes_view()[id as int].next_sibling_link(),
    {
        self.nodes[id].next_sibling
    }

    pub fn parent(&self, id: usize) -> (r: Option<usize>)
        requires
            id < self.nodes_view().len(),
        ensures
            r == self.nodes_view()[id as int].parent_link(),
    {
        self.nodes[id].parent
    }

    /// Appends a new node of kind `kind` as the last child of node `p`; returns its index.
    pub(crate) fn append_child(&mut self, p: usize, kind: NodeKind) -> (r: usize)
        requires
            old(self).wf(),
            p < old(self).nodes_view().len(),
            !(kind is Document),
            old(self).nodes_view().len() < usize::MAX,
        ensures
            final(self).wf(),
            r == old(self).nodes_view().len(),
            final(self).nodes_view().len() == r + 1,
            final(self).nodes_view()[r as int] == (Node {
                kind,
                parent: Some(p),
                first_child: None,
                last_child: None,
                previous_sibling: old(self).nodes_view()[p as int].last_child_link(),
                next_sibling: None,
            }),
            final(self).nodes_view()[r as int].kind == kind,
            final(self).nodes_view()[r as int].parent_link() == Some(p),
            final(self).nodes_view()[r as int].previous_sibling_link() == old(self).nodes_view()[p as int].last_child_link(),
            final(self).nodes_view()[p as int].last_child_link() == Some(r),
            match old(self).nodes_view()[p as int].last_child_link() {
                Some(l) => final(self).nodes_view()[l as int] == (Node { next_sibling: Some(r), ..old(self).nodes_view()[l as int] })
                    && final(self).nodes_view()[p as int] == (Node { last_child: Some(r), ..old(self).nodes_view()[p as int] }),
                None => final(self).nodes_view()[p as int] == (Node { first_child: Some(r), last_child: Some(r), ..old(self).nodes_view()[p as int] }),
            },
            forall|i: int| 0 <= i < r ==> #[trigger] final(self).nodes_view()[i].kind == old(self).nodes_view()[i].kind,
            forall|i: int| 0 <= i < r && i != p && Some(i as usize) != old(self).nodes_view()[p as int].last_child_link()
                ==> #[trigger] final(self).nodes_view()[i] == old(self).nodes_view()[i],
            dom_view(final(self).nodes_view()) == append_view(dom_view(old(self).nodes_view()), p as int, kind_view(kind)),
    {
        let ghost old_nodes = self.nodes@;
        assert(links_ok(old_nodes, p as int));
        let id = self.nodes.len();
        let last = self.nodes[p].last_child;
        let mut node = Node::new(kind);
        node.parent = Some(p);
        node.previous_sibling = last;
        self.nodes.push(node);
        match last {
            Some(l) => {
                self.nodes[l].next_sibling = Some(id);
            },
            None => {
                self.nodes[p].first_child = Some(id);
            },
        }
        self.nodes[p].last_child = Some(id);
        proof {
            let nn = self.nodes@;
            assert forall|i: int| 0 <= i < nn.len() implies #[trigger] links_ok(nn, i) by {
                assert(links_ok(old_nodes, p as int));
                if i < old_nodes.len() {
                    assert(links_ok(old_nodes, i));
                    if last is Some {
                        assert(links_ok(old_nodes, last->0 as int));
                    }
                }
            }
            let ov = dom_view(old_nodes);
            let target = append_view(ov, p as int, kind_view(nn[id as int].kind));
            assert(dom_view(nn).len() == target.len());
            assert forall|i: int| 0 <= i < nn.len() implies #[trigger] dom_view(nn)[i] == target[i] by {
                if i < old_nodes.len() && i != p && Some(i as usize) != last {
                    assert(nn[i] == old_nodes[i]);
                }
            }
            assert(dom_view(nn) =~= target);
        }
        id
    }

    /// Appends `c` to the text of node `id`, which is a text node.
    pub(crate) fn push_text(&mut self, id: usize, c: char)
        requires
            old(self).wf(),
            id < old(self).nodes_view().len(),
            old(self).nodes_view()[id as int].kind is Text,
        ensures
            final(self).wf(),
            final(self).nodes_view().len() == old(self).nodes_view().len(),
            final(self).nodes_view()[id as int].kind == NodeKind::Text(
                final(self).nodes_view()[id as int].kind->Text_0,
            ),
            final(self).nodes_view()[id as int].kind->Text_0@
                == old(self).nodes_view()[id as int].kind->Text_0@.push(c),
            final(self).nodes_view()[id as int] == (Node { kind: final(self).nodes_view()[id as int].kind, ..old(self).nodes_view()[id as int] }),
            dom_view(final(self).nodes_view()) == push_text_view(dom_view(old(self).nodes_view()), id as int, c),
            forall|i: int| 0 <= i < old(self).nodes_view().len() && i != id ==> #[trigger] final(self).nodes_view()[i] == old(self).nodes_view()[i],
    {
        let ghost old_nodes = self.nodes@;
        let mut s = match &self.nodes[id].kind {
            NodeKind::Text(t) => chars_of(t.as_str()),
            _ => Vec::new(),
        };
        s.push(c);
        self.nodes[id].kind = NodeKind::Text(string_of(&s));
        proof {
            assert(dom_view(self.nodes@) =~= push_text_view(dom_view(old_nodes), id as int, c));
            let nn = self.nodes@;
            assert forall|i: int| 0 <= i < nn.len() implies #[trigger] links_ok(nn, i) by {
                assert(links_ok(old_nodes, i));
            }
        }
    }
}

/// The index of the first node in `nodes` that is an element of kind `kind`, if any.
pub open spec fn first_element(nodes: Seq<Node>, kind: ElementKind) -> Option<int> {
    if exists|i: int| 0 <= i < nodes.len() && node_element_kind(nodes[i].kind) == Some(kind) {
        Some(choose|i: int| 0 <= i < nodes.len() && node_element_kind(nodes[i].kind) == Some(kind)
            && forall|j: int| 0 <= j < i ==> node_element_kind(#[trigger] nodes[j].kind) != Some(kind))
    } else {
        None
    }
}

/// The text of the first child of the first element of kind `kind`, or nothing when that
/// child is not text.
pub open spec fn element_text(nodes: Seq<Node>, kind: ElementKind) -> Seq<char> {
    match first_element(nodes, kind) {
        Some(i) => match nodes[i].first_child {
            Some(c) => match nodes[c as int].kind {
                NodeKind::Text(t) => t@,
                _ => Seq::empty(),
            },
            None => Seq::empty(),
        },
        None => Seq::empty(),
    }
}

fn text_of_first_element(window: &Window, kind: ElementKind) -> (r: String)
    requires
        window.wf(),
    ensures
        r@ == element_text(window.nodes_view(), kind),
{
    let n = window.len();
    let mut i: usize = 0;
    while i < n
        invariant
            n == window.nodes_view().len(),
            window.wf(),
            i <= n,
            forall|j: int| 0 <= j < i ==> node_element_kind(#[trigger] window.nodes_view()[j].kind) != Some(kind),
        decreases n - i,
    {
        if window.node(i).element_kind() == Some(kind) {
            proof {
                let nodes = window.nodes_view();
                let w = first_element(nodes, kind)->0;
                assert(0 <= i < nodes.len() && node_element_kind(nodes[i as int].kind) == Some(kind)
                    && forall|j: int| 0 <= j < i ==> node_element_kind(#[trigger] nodes[j].kind) != Some(kind));
                if w < i {
                    assert(node_element_kind(nodes[w].kind) != Some(kind));
                }
                if w > i {
                    assert(node_element_kind(nodes[i as int].kind) != Some(kind));
                }
                assert(links_ok(nodes, i as int));
            }
            return match window.first_child(i) {
                Some(c) => match window.node(c).kind() {
                    NodeKind::Text(t) => t.clone(),
                    _ => String::new(),
                },
                None => String::new(),
            };
        }
        i = i + 1;
    }
    String::new()
}

/// The style sheet text of the page: the content of its first `<style>` element.
pub fn get_style_content(window: &Window) -> (r: String)
    requires
        window.wf(),
    ensures
        r@ == element_text(window.nodes_view(), ElementKind::Style),
{
    text_of_first_element(window, ElementKind::Style)
}

/// The script text of the page: the content of its first `<script>` element.
pub fn get_js_content(window: &Window) -> (r: String)
    requires
        window.wf(),
    ensures
        r@ == element_text(window.nodes_view(), ElementKind::Script),
{
    text_of_first_element(window, ElementKind::Script)
}

} // verus!
