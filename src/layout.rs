use vstd::prelude::*;
use crate::constants::{CHAR_WIDTH, CHAR_HEIGHT_WITH_PADDING, CONTENT_AREA_WIDTH, WINDOW_WIDTH, WINDOW_PADDING};
use crate::cssom::{QualifiedRule, StyleSheet};
use crate::dom::{ElementKind, NodeKind, Window, links_ok};
use crate::style::{ComputedStyle, DisplayType, FontSize, cascade, defaulted, is_resolved, selects, is_selected};
use crate::text::{chars_of, string_of};

verus! {

#[derive(Debug, Clone, Copy, PartialEq, Eq, Structural)]
pub struct LayoutPoint {
    pub x: i64,
    pub y: i64,
}

impl LayoutPoint {
    pub open spec fn x_spec(&self) -> i64 {
        self.x
    }

    pub open spec fn y_spec(&self) -> i64 {
        self.y
    }

    pub fn new(x: i64, y: i64) -> (r: Self)
        ensures
            r.x_spec() == x,
            r.y_spec() == y,
    {
        Self { x, y }
    }

    pub fn x(&self) -> (r: i64)
        ensures
            r == self.x_spec(),
    {
        self.x
    }

    pub fn y(&self) -> (r: i64)
        ensures
            r == self.y_spec(),
    {
        self.y
    }

    pub fn set_x(&mut self, x: i64)
        ensures
            final(self).x_spec() == x,
            final(self).y_spec() == old(self).y_spec(),
    {
        self.x = x;
    }

    pub fn set_y(&mut self, y: i64)
        ensures
            final(self).y_spec() == y,
            final(self).x_spec() == old(self).x_spec(),
    {
        self.y = y;
    }
}

#[derive(Debug, Clone, Copy, PartialEq, Eq, Structural)]
pub struct LayoutSize {
    pub width: i64,
    pub height: i64,
}

impl LayoutSize {
    pub open spec fn width_spec(&self) -> i64 {
        self.width
    }

    pub open spec fn height_spec(&self) -> i64 {
        self.height
    }

    pub fn new(width: i64, height: i64) -> (r: Self)
        ensures
            r.width_spec() == width,
            r.height_spec() == height,
    {
        Self { width, height }
    }

    pub fn width(&self) -> (r: i64)
        ensures
            r == self.width_spec(),
    {
        self.width
    }

    pub fn height(&self) -> (r: i64)
        ensures
            r == self.height_spec(),
    {
        self.height
    }

    pub fn set_width(&mut self, width: i64)
        ensures
            final(self).width_spec() == width,
            final(self).height_spec() == old(self).height_spec(),
    {
        self.width = width;
    }

    pub fn set_height(&mut self, height: i64)
        ensures
            final(self).height_spec() == height,
            final(self).width_spec() == old(self).width_spec(),
    {
        self.height = height;
    }
}

#[derive(Debug, Clone, Copy, PartialEq, Eq, Structural)]
pub enum LayoutObjectKind {
    Block,
    Inline,
    Text,
}

/// The kind of layout object for a node of kind `k` displayed as `d`.
pub open spec fn layout_kind(k: NodeKind, d: DisplayType) -> LayoutObjectKind {
    match k {
        NodeKind::Text(_) => LayoutObjectKind::Text,
        _ => match d {
            DisplayType::Inline => LayoutObjectKind::Inline,
            _ => LayoutObjectKind::Block,
        },
    }
}

/// The style that the rules and the defaults give a node of kind `k`: the declarations of
/// each rule that selects the node, rule after rule, then the defaults.
pub open spec fn cascade_rules(s: ComputedStyle, rules: Seq<QualifiedRule>, k: NodeKind) -> ComputedStyle
    decreases rules.len(),
{
    if rules.len() == 0 {
        s
    } else {
        let before = cascade_rules(s, rules.drop_last(), k);
        if selects(rules.last().selector, k) {
            cascade(before, rules.last().declarations@)
        } else {
            before
        }
    }
}

pub open spec fn empty_style() -> ComputedStyle {
    ComputedStyle {
        background_color: None,
        color: None,
        display: None,
        font_size: None,
        text_decoration: None,
    }
}

/// The style of a node of kind `k` under the style sheet `rules`, below a parent of style `parent`.
pub open spec fn resolved_style(rules: Seq<QualifiedRule>, k: NodeKind, parent: Option<ComputedStyle>) -> ComputedStyle {
    defaulted(cascade_rules(empty_style(), rules, k), k, parent)
}

/// A node of the layout tree. Links are indices into the view's list of objects.
#[derive(Debug, Clone)]
pub struct LayoutObject {
    pub kind: LayoutObjectKind,
    pub node: usize,
    pub node_kind: NodeKind,
    pub first_child: Option<usize>,
    pub next_sibling: Option<usize>,
    pub parent: Option<usize>,
    pub style: ComputedStyle,
    pub point: LayoutPoint,
    pub size: LayoutSize,
}

impl LayoutObject {
    pub open spec fn kind_spec(&self) -> LayoutObjectKind {
        self.kind
    }

    pub open spec fn node_spec(&self) -> usize {
        self.node
    }

    pub open spec fn node_kind_spec(&self) -> NodeKind {
        self.node_kind
    }

    pub open spec fn first_child_spec(&self) -> Option<usize> {
        self.first_child
    }

    pub open spec fn next_sibling_spec(&self) -> Option<usize> {
        self.next_sibling
    }

    pub open spec fn parent_spec(&self) -> Option<usize> {
        self.parent
    }

    pub open spec fn style_spec(&self) -> ComputedStyle {
        self.style
    }

    pub open spec fn point_spec(&self) -> LayoutPoint {
        self.point
    }

    pub open spec fn size_spec(&self) -> LayoutSize {
        self.size
    }

    /// An object for DOM node `node` of kind `node_kind`, below `parent`, with nothing
    /// resolved yet.
    pub fn new(node: usize, node_kind: NodeKind, parent: Option<usize>) -> (r: Self)
        ensures
            r.kind_spec() == LayoutObjectKind::Block,
            r.node_spec() == node,
            r.node_kind_spec() == node_kind,
            r.parent_spec() == parent,
            r.first_child_spec() is None,
            r.next_sibling_spec() is None,
            r.style_spec() == empty_style(),
            r.point_spec() == (LayoutPoint { x: 0, y: 0 }),
            r.size_spec() == (LayoutSize { width: 0, height: 0 }),
    {
        Self {
            kind: LayoutObjectKind::Block,
            node,
            node_kind,
            first_child: None,
            next_sibling: None,
            parent,
            style: ComputedStyle::new(),
            point: LayoutPoint { x: 0, y: 0 },
            size: LayoutSize { width: 0, height: 0 },
        }
    }

    /// Whether `selector` picks the object's node.
    pub fn is_node_selected(&self, selector: &crate::cssom::Selector) -> (r: bool)
        ensures
            r == selects(*selector, self.node_kind),
    {
        is_selected(&self.node_kind, selector)
    }

    /// Applies the declarations of a rule that selects the node, in order.
    pub fn cascading_style(&mut self, declarations: &Vec<crate::cssom::Declaration>)
        ensures
            *final(self) == (LayoutObject { style: cascade(old(self).style, declarations@), ..*old(self) }),
    {
        self.style.cascade(declarations);
    }

    /// Fills the style's gaps from the parent's style and the node's kind.
    pub fn defaulting_style(&mut self, parent_style: Option<ComputedStyle>)
        ensures
            *final(self) == (LayoutObject { style: defaulted(old(self).style, old(self).node_kind, parent_style), ..*old(self) }),
    {
        self.style.defaulting(&self.node_kind, parent_style);
    }

    /// Sets the kind from the node's kind and the resolved display.
    pub fn update_kind(&mut self)
        requires
            !(old(self).node_kind is Text) ==> old(self).style.display is Some
                && old(self).style.display->0 != DisplayType::DisplayNone,
            !(old(self).node_kind is Document),
        ensures
            old(self).node_kind is Text ==> *final(self) == (LayoutObject { kind: LayoutObjectKind::Text, ..*old(self) }),
            !(old(self).node_kind is Text) ==> *final(self) == (LayoutObject { kind: layout_kind(old(self).node_kind, old(self).style.display->0), ..*old(self) }),
    {
        let is_text = match &self.node_kind {
            NodeKind::Text(_) => true,
            _ => false,
        };
        if is_text {
            self.kind = LayoutObjectKind::Text;
        } else {
            match self.style.display.unwrap() {
                DisplayType::Inline => self.kind = LayoutObjectKind::Inline,
                _ => self.kind = LayoutObjectKind::Block,
            }
        }
    }

    pub fn kind(&self) -> (r: LayoutObjectKind)
        ensures
            r == self.kind,
    {
        self.kind
    }

    pub fn node(&self) -> (r: usize)
        ensures
            r == self.node,
    {
        self.node
    }

    pub fn node_kind(&self) -> (r: &NodeKind)
        ensures
            *r == self.node_kind,
    {
        &self.node_kind
    }

    pub fn set_first_child(&mut self, first_child: Option<usize>)
        ensures
            *final(self) == (LayoutObject { first_child, ..*old(self) }),
    {
        self.first_child = first_child;
    }

    pub fn first_child(&self) -> (r: Option<usize>)
        ensures
            r == self.first_child,
    {
        self.first_child
    }

    pub fn set_next_sibling(&mut self, next_sibling: Option<usize>)
        ensures
            *final(self) == (LayoutObject { next_sibling, ..*old(self) }),
    {
        self.next_sibling = next_sibling;
    }

    pub fn next_sibling(&self) -> (r: Option<usize>)
        ensures
            r == self.next_sibling,
    {
        self.next_sibling
    }

    pub fn parent(&self) -> (r: Option<usize>)
        ensures
            r == self.parent,
    {
        self.parent
    }

    pub fn style(&self) -> (r: ComputedStyle)
        ensures
            r == self.style,
    {
        self.style
    }

    pub fn point(&self) -> (r: LayoutPoint)
        ensures
            r == self.point,
    {
        self.point
    }

    pub fn size(&self) -> (r: LayoutSize)
        ensures
            r == self.size,
    {
        self.size
    }
}

/// The layout object for DOM node `node` of `window`, below an object of style `parent_style`,
/// or `None` when the node is absent or its resolved display is `none`.
pub fn create_layout_object(
    window: &Window,
    node: Option<usize>,
    parent_style: Option<ComputedStyle>,
    cssom: &StyleSheet,
) -> (r: Option<LayoutObject>)
    requires
        window.wf(),
        node is Some ==> 0 < node->0 < window.nodes_view().len(),
    ensures
        node is None ==> r is None,
        node is Some ==> {
            let k = window.nodes_view()[node->0 as int].kind;
            let s = resolved_style(cssom.rules@, k, parent_style);
            &&& (r is Some <==> s.display != Some(DisplayType::DisplayNone))
            &&& r is Some ==> {
                &&& r->0.style == s
                &&& r->0.node == node->0
                &&& node_kind_copy(r->0.node_kind, k)
                &&& r->0.kind == layout_kind(k, s.display->0)
                &&& r->0.parent is None
                &&& r->0.first_child is None
                &&& r->0.next_sibling is None
                &&& r->0.point == (LayoutPoint { x: 0, y: 0 })
                &&& r->0.size == (LayoutSize { width: 0, height: 0 })
            }
        },
{
    let id = match node {
        Some(n) => n,
        None => return None,
    };
    let ghost nodes = window.nodes_view();
    proof {
        assert(links_ok(nodes, id as int));
    }
    let kind = clone_node_kind(&window.node(id).kind);
    let mut obj = LayoutObject::new(id, kind, None);
    let mut i: usize = 0;
    while i < cssom.rules.len()
        invariant
            i <= cssom.rules@.len(),
            obj.style == cascade_rules(empty_style(), cssom.rules@.subrange(0, i as int), obj.node_kind),
            node_kind_copy(obj.node_kind, nodes[id as int].kind),
            obj.node == id,
            obj.kind == LayoutObjectKind::Block,
            obj.parent is None,
            obj.first_child is None,
            obj.next_sibling is None,
            obj.point == (LayoutPoint { x: 0, y: 0 }),
            obj.size == (LayoutSize { width: 0, height: 0 }),
        decreases cssom.rules@.len() - i,
    {
        let rule = &cssom.rules[i];
        if obj.is_node_selected(&rule.selector) {
            obj.cascading_style(&rule.declarations);
        }
        proof {
            let t = cssom.rules@.subrange(0, i as int + 1);
            assert(t.drop_last() =~= cssom.rules@.subrange(0, i as int));
        }
        i = i + 1;
    }
    proof {
        assert(cssom.rules@.subrange(0, cssom.rules@.len() as int) =~= cssom.rules@);
        lemma_copy_same_style(cssom.rules@, obj.node_kind, nodes[id as int].kind, parent_style);
    }
    obj.defaulting_style(parent_style);
    if obj.style.display() == DisplayType::DisplayNone {
        return None;
    }
    obj.update_kind();
    Some(obj)
}

/// `a` holds what `b` holds: the same variant, element kind, attributes and text.
pub open spec fn node_kind_copy(a: NodeKind, b: NodeKind) -> bool {
    match (a, b) {
        (NodeKind::Document, NodeKind::Document) => true,
        (NodeKind::Element(x), NodeKind::Element(y)) => x.kind == y.kind && x.attributes@ == y.attributes@,
        (NodeKind::Text(x), NodeKind::Text(y)) => x@ == y@,
        _ => false,
    }
}

proof fn lemma_copy_cascade(s: ComputedStyle, rules: Seq<QualifiedRule>, a: NodeKind, b: NodeKind)
    requires
        node_kind_copy(a, b),
    ensures
        cascade_rules(s, rules, a) == cascade_rules(s, rules, b),
    decreases rules.len(),
{
    if rules.len() > 0 {
        lemma_copy_cascade(s, rules.drop_last(), a, b);
        assert(selects(rules.last().selector, a) == selects(rules.last().selector, b));
    }
}

proof fn lemma_copy_same_style(rules: Seq<QualifiedRule>, a: NodeKind, b: NodeKind, p: Option<ComputedStyle>)
    requires
        node_kind_copy(a, b),
    ensures
        resolved_style(rules, a, p) == resolved_style(rules, b, p),
        forall|d: DisplayType| layout_kind(a, d) == layout_kind(b, d),
{
    lemma_copy_cascade(empty_style(), rules, a, b);
}

/// A copy of a node kind.
fn clone_node_kind(k: &NodeKind) -> (r: NodeKind)
    ensures
        node_kind_copy(r, *k),
{
    match k {
        NodeKind::Document => NodeKind::Document,
        NodeKind::Element(e) => NodeKind::Element(crate::dom::Element { kind: e.kind, attributes: clone_attributes(&e.attributes) }),
        NodeKind::Text(s) => NodeKind::Text(s.clone()),
    }
}

pub(crate) fn clone_attributes(v: &Vec<crate::html_token::Attribute>) -> (r: Vec<crate::html_token::Attribute>)
    ensures
        r@ == v@,
{
    let mut r: Vec<crate::html_token::Attribute> = Vec::new();
    let mut i: usize = 0;
    while i < v.len()
        invariant
            i <= v@.len(),
            r@ == v@.subrange(0, i as int),
        decreases v@.len() - i,
    {
        r.push(v[i].duplicate());
        proof {
            assert(r@ =~= v@.subrange(0, i as int + 1));
        }
        i = i + 1;
    }
    proof {
        assert(v@.subrange(0, v@.len() as int) =~= v@);
    }
    r
}

/// A paint primitive with absolute coordinates.
#[derive(Debug, Clone, PartialEq)]
pub enum DisplayItem {
    Rect { style: ComputedStyle, layout_point: LayoutPoint, layout_size: LayoutSize },
    Text { text: String, style: ComputedStyle, layout_point: LayoutPoint },
}

pub open spec fn sat(x: int) -> int {
    if x > i64::MAX {
        i64::MAX as int
    } else {
        x
    }
}

fn sat_add(a: i64, b: i64) -> (r: i64)
    requires
        b >= 0,
    ensures
        r == sat(a + b),
{
    if a > i64::MAX - b {
        i64::MAX
    } else {
        a + b
    }
}

/// How many times larger than medium text a font size is.
pub open spec fn font_ratio(f: FontSize) -> int {
    match f {
        FontSize::Medium => 1,
        FontSize::XLarge => 2,
        FontSize::XXLarge => 3,
    }
}

fn ratio_of(f: FontSize) -> (r: i64)
    ensures
        r == font_ratio(f),
{
    match f {
        FontSize::Medium => 1,
        FontSize::XLarge => 2,
        FontSize::XXLarge => 3,
    }
}

/// The width of `n` characters at ratio `ratio` before wrapping.
pub open spec fn text_width(ratio: int, n: int) -> int {
    sat(CHAR_WIDTH * ratio * n)
}

/// The size of a text run of `n` characters at ratio `ratio`: one line when it fits the
/// content area, else the content area's width and as many lines as it takes.
pub open spec fn text_size(ratio: int, n: int) -> (int, int) {
    let w = text_width(ratio, n);
    if w > CONTENT_AREA_WIDTH {
        let lines = if w % CONTENT_AREA_WIDTH as int == 0 {
            w / CONTENT_AREA_WIDTH as int
        } else {
            w / CONTENT_AREA_WIDTH as int + 1
        };
        (CONTENT_AREA_WIDTH as int, CHAR_HEIGHT_WITH_PADDING * ratio * lines)
    } else {
        (w, CHAR_HEIGHT_WITH_PADDING * ratio)
    }
}

/// `(total, row, in_row)` after stacking `children` in a block: blocks stack, and runs of
/// inline content share a row as tall as its tallest member.
pub open spec fn stack(children: Seq<(LayoutObjectKind, LayoutSize)>) -> (int, int, bool)
    decreases children.len(),
{
    if children.len() == 0 {
        (0, 0, false)
    } else {
        let (t, m, r) = stack(children.drop_last());
        let (k, sz) = children.last();
        if k == LayoutObjectKind::Block {
            (sat(sat(t + if r { m } else { 0 }) + sz.height), 0, false)
        } else {
            (t, if r && m >= sz.height { m } else { sz.height as int }, true)
        }
    }
}

/// The height of a block whose children are `children`.
pub open spec fn block_height(children: Seq<(LayoutObjectKind, LayoutSize)>) -> int {
    let (t, m, r) = stack(children);
    sat(t + if r { m } else { 0 })
}

/// The sum of the children's widths, and that of their heights.
pub open spec fn inline_extent(children: Seq<(LayoutObjectKind, LayoutSize)>) -> (int, int)
    decreases children.len(),
{
    if children.len() == 0 {
        (0, 0)
    } else {
        let (w, h) = inline_extent(children.drop_last());
        (sat(w + children.last().1.width), sat(h + children.last().1.height))
    }
}

/// All sizes are non-negative.
pub open spec fn sizes_ok(children: Seq<(LayoutObjectKind, LayoutSize)>) -> bool {
    forall|i: int| 0 <= i < children.len() ==> #[trigger] children[i].1.width >= 0 && children[i].1.height >= 0
}

/// The size that the size pass gives an object of kind `k` for node kind `nk` with font size
/// `f`, below a parent of size `parent`, with children `children`.
pub open spec fn size_of(k: LayoutObjectKind, nk: NodeKind, f: FontSize, parent: LayoutSize, children: Seq<(LayoutObjectKind, LayoutSize)>) -> (int, int) {
    match k {
        LayoutObjectKind::Block => (parent.width as int, block_height(children)),
        LayoutObjectKind::Inline => inline_extent(children),
        LayoutObjectKind::Text => match nk {
            NodeKind::Text(t) => text_size(font_ratio(f), t@.len() as int),
            _ => (0, 0),
        },
    }
}

/// Where the position pass puts an object of kind `k`, given its parent's point and the
/// previous sibling's kind, point and size.
pub open spec fn position_of(
    k: LayoutObjectKind,
    parent: LayoutPoint,
    prev_kind: LayoutObjectKind,
    prev: Option<(LayoutPoint, LayoutSize)>,
) -> (int, int) {
    if k == LayoutObjectKind::Block || prev_kind == LayoutObjectKind::Block {
        match prev {
            Some((p, s)) => (parent.x as int, sat(p.y + s.height)),
            None => (parent.x as int, parent.y as int),
        }
    } else if k == LayoutObjectKind::Inline && prev_kind == LayoutObjectKind::Inline {
        match prev {
            Some((p, s)) => (sat(p.x + s.width), p.y as int),
            None => (parent.x as int, parent.y as int),
        }
    } else {
        (parent.x as int, parent.y as int)
    }
}

impl LayoutObject {
    /// Sets the object's size from its parent's size and its children's kinds and sizes.
    pub fn compute_size(&mut self, parent_size: LayoutSize, children: &Vec<(LayoutObjectKind, LayoutSize)>)
        requires
            old(self).kind == LayoutObjectKind::Text ==> old(self).style.font_size is Some,
            parent_size.width >= 0,
            sizes_ok(children@),
        ensures
            final(self).size.width == size_of(old(self).kind, old(self).node_kind, old(self).style.font_size->0, parent_size, children@).0,
            final(self).size.height == size_of(old(self).kind, old(self).node_kind, old(self).style.font_size->0, parent_size, children@).1,
            final(self).size.width >= 0,
            final(self).size.height >= 0,
            *final(self) == (LayoutObject { size: final(self).size, ..*old(self) }),
    {
        let mut size = LayoutSize::new(0, 0);
        match self.kind {
            LayoutObjectKind::Block => {
                size.set_width(parent_size.width());
                let mut total: i64 = 0;
                let mut row: i64 = 0;
                let mut in_row = false;
                let mut i: usize = 0;
                while i < children.len()
                    invariant
                        i <= children@.len(),
                        sizes_ok(children@),
                        stack(children@.subrange(0, i as int)) == (total as int, row as int, in_row),
                        total >= 0,
                        row >= 0,
                    decreases children@.len() - i,
                {
                    let (k, sz) = children[i];
                    proof {
                        let t = children@.subrange(0, i as int + 1);
                        assert(t.drop_last() =~= children@.subrange(0, i as int));
                        assert(t.last() == children@[i as int]);
                        assert(children@[i as int].1.width >= 0 && children@[i as int].1.height >= 0);
                    }
                    if k == LayoutObjectKind::Block {
                        let pending = if in_row { row } else { 0 };
                        total = sat_add(sat_add(total, pending), sz.height);
                        row = 0;
                        in_row = false;
                    } else {
                        if !(in_row && row >= sz.height) {
                            row = sz.height;
                        }
                        in_row = true;
                    }
                    i = i + 1;
                }
                proof {
                    assert(children@.subrange(0, children@.len() as int) =~= children@);
                }
                let pending = if in_row { row } else { 0 };
                size.set_height(sat_add(total, pending));
            },
            LayoutObjectKind::Inline => {
                let mut width: i64 = 0;
                let mut height: i64 = 0;
                let mut i: usize = 0;
                while i < children.len()
                    invariant
                        i <= children@.len(),
                        sizes_ok(children@),
                        inline_extent(children@.subrange(0, i as int)) == (width as int, height as int),
                        width >= 0,
                        height >= 0,
                    decreases children@.len() - i,
                {
                    let (_, sz) = children[i];
                    proof {
                        let t = children@.subrange(0, i as int + 1);
                        assert(t.drop_last() =~= children@.subrange(0, i as int));
                        assert(t.last() == children@[i as int]);
                        assert(children@[i as int].1.width >= 0 && children@[i as int].1.height >= 0);
                    }
                    width = sat_add(width, sz.width);
                    height = sat_add(height, sz.height);
                    i = i + 1;
                }
                proof {
                    assert(children@.subrange(0, children@.len() as int) =~= children@);
                }
                size.set_width(width);
                size.set_height(height);
            },
            LayoutObjectKind::Text => {
                match &self.node_kind {
                    NodeKind::Text(t) => {
                        let ratio = ratio_of(self.style.font_size.unwrap());
                        let n = t.unicode_len();
                        let per_char = CHAR_WIDTH * ratio;
                        let width: i64 = if n as u64 > (i64::MAX / per_char) as u64 {
                            i64::MAX
                        } else {
                            proof {
                                assert(per_char * n <= i64::MAX) by (nonlinear_arith)
                                    requires
                                        n <= i64::MAX / per_char,
                                        per_char > 0,
                                ;
                            }
                            per_char * n as i64
                        };
                        proof {
                            if n as u64 > (i64::MAX / per_char) as u64 {
                                assert(CHAR_WIDTH * ratio * n > i64::MAX) by (nonlinear_arith)
                                    requires
                                        n > i64::MAX / per_char,
                                        per_char == CHAR_WIDTH * ratio,
                                        per_char > 0,
                                ;
                            }
                        }
                        if width > CONTENT_AREA_WIDTH {
                            size.set_width(CONTENT_AREA_WIDTH);
                            let line_num = if width % CONTENT_AREA_WIDTH == 0 {
                                width / CONTENT_AREA_WIDTH
                            } else {
                                width / CONTENT_AREA_WIDTH + 1
                            };
                            proof {
                                assert(line_num <= i64::MAX / 590 + 1);
                                assert(CHAR_HEIGHT_WITH_PADDING * ratio * line_num <= 60 * (i64::MAX / 590 + 1)) by (nonlinear_arith)
                                    requires
                                        0 < line_num <= i64::MAX / 590 + 1,
                                        1 <= ratio <= 3,
                                        CHAR_HEIGHT_WITH_PADDING == 20,
                                ;
                            }
                            size.set_height(CHAR_HEIGHT_WITH_PADDING * ratio * line_num);
                        } else {
                            size.set_width(width);
                            size.set_height(CHAR_HEIGHT_WITH_PADDING * ratio);
                        }
                    },
                    _ => {},
                }
            },
        }
        self.size = size;
    }

    /// Sets the object's point from its parent's point and its previous sibling.
    pub fn compute_position(
        &mut self,
        parent_point: LayoutPoint,
        previous_sibling_kind: LayoutObjectKind,
        previous_sibling_point: Option<LayoutPoint>,
        previous_sibling_size: Option<LayoutSize>,
    )
        requires
            previous_sibling_point is Some ==> previous_sibling_point->0.x >= 0 && previous_sibling_point->0.y >= 0,
            previous_sibling_size is Some ==> previous_sibling_size->0.width >= 0 && previous_sibling_size->0.height >= 0,
        ensures
            ({
                let prev = match (previous_sibling_point, previous_sibling_size) {
                    (Some(p), Some(s)) => Some((p, s)),
                    _ => None,
                };
                let (x, y) = position_of(old(self).kind, parent_point, previous_sibling_kind, prev);
                final(self).point.x == x && final(self).point.y == y
            }),
            *final(self) == (LayoutObject { point: final(self).point, ..*old(self) }),
    {
        let mut point = LayoutPoint::new(0, 0);
        let both = match (previous_sibling_point, previous_sibling_size) {
            (Some(p), Some(s)) => Some((p, s)),
            _ => None,
        };
        if self.kind == LayoutObjectKind::Block || previous_sibling_kind == LayoutObjectKind::Block {
            match both {
                Some((p, s)) => point.set_y(sat_add(p.y(), s.height())),
                None => point.set_y(parent_point.y()),
            }
            point.set_x(parent_point.x());
        } else if self.kind == LayoutObjectKind::Inline && previous_sibling_kind == LayoutObjectKind::Inline {
            match both {
                Some((p, s)) => {
                    point.set_x(sat_add(p.x(), s.width()));
                    point.set_y(p.y());
                },
                None => {
                    point.set_x(parent_point.x());
                    point.set_y(parent_point.y());
                },
            }
        } else {
            point.set_x(parent_point.x());
            point.set_y(parent_point.y());
        }
        self.point = point;
    }
}

pub open spec fn is_white(c: char) -> bool {
    c == ' ' || c == '\n' || c == '\t' || c == '\r'
}

/// `s` with each run of whitespace turned into one space and no space at the start.
pub open spec fn squeeze(s: Seq<char>) -> Seq<char>
    decreases s.len(),
{
    if s.len() == 0 {
        s
    } else {
        let q = squeeze(s.drop_last());
        if is_white(s.last()) {
            if q.len() == 0 || q.last() == ' ' {
                q
            } else {
                q.push(' ')
            }
        } else {
            q.push(s.last())
        }
    }
}

/// `s` without the spaces at its end.
pub open spec fn trim_end(s: Seq<char>) -> Seq<char>
    decreases s.len(),
{
    if s.len() > 0 && s.last() == ' ' {
        trim_end(s.drop_last())
    } else {
        s
    }
}

/// `s` without the spaces at its start.
pub open spec fn trim_start(s: Seq<char>) -> Seq<char>
    decreases s.len(),
{
    if s.len() > 0 && s[0] == ' ' {
        trim_start(s.drop_first())
    } else {
        s
    }
}

/// The words of `s` joined by single spaces.
pub open spec fn collapse(s: Seq<char>) -> Seq<char> {
    trim_end(squeeze(s))
}

/// The last index below `k` that holds a space, or `m` when there is none.
pub open spec fn last_space_before(line: Seq<char>, k: int, m: int) -> int
    decreases k,
{
    if k <= 0 {
        m
    } else if k - 1 < line.len() && line[k - 1] == ' ' {
        k - 1
    } else {
        last_space_before(line, k - 1, m)
    }
}

/// Where a line longer than `max_index` characters breaks: at the nearest space before the
/// budget, else at the budget.
pub open spec fn line_break_index(line: Seq<char>, max_index: int) -> int {
    last_space_before(line, max_index, max_index)
}

/// The lines that a text is wrapped into at `budget` characters per line.
pub open spec fn wrap(line: Seq<char>, budget: int) -> Seq<Seq<char>>
    decreases line.len(),
{
    if line.len() <= budget || budget <= 0 {
        seq![line]
    } else {
        let i = line_break_index(line, budget);
        let rest = trim_start(line.subrange(i, line.len() as int));
        if 0 <= i <= line.len() && rest.len() < line.len() {
            seq![line.subrange(0, i)] + wrap(rest, budget)
        } else {
            seq![line]
        }
    }
}

/// The character budget of a line for characters `char_width` wide.
pub open spec fn line_budget(char_width: int) -> int {
    (WINDOW_WIDTH + WINDOW_PADDING) / char_width
}

/// The index at which `line` breaks when at most `max_index` characters fit.
pub fn find_index_for_line_break(line: &Vec<char>, max_index: usize) -> (r: usize)
    requires
        max_index <= line@.len(),
    ensures
        r == line_break_index(line@, max_index as int),
        r <= max_index,
{
    let mut k = max_index;
    while k > 0
        invariant
            k <= max_index <= line@.len(),
            last_space_before(line@, k as int, max_index as int) == line_break_index(line@, max_index as int),
        decreases k,
    {
        if line[k - 1] == ' ' {
            return k - 1;
        }
        k = k - 1;
    }
    max_index
}

fn trim_start_vec(s: &Vec<char>, from: usize) -> (r: Vec<char>)
    requires
        from <= s@.len(),
    ensures
        r@ == trim_start(s@.subrange(from as int, s@.len() as int)),
{
    let mut i = from;
    while i < s.len() && s[i] == ' '
        invariant
            from <= i <= s@.len(),
            trim_start(s@.subrange(i as int, s@.len() as int)) == trim_start(s@.subrange(from as int, s@.len() as int)),
        decreases s@.len() - i,
    {
        proof {
            assert(s@.subrange(i as int, s@.len() as int).drop_first() =~= s@.subrange(i as int + 1, s@.len() as int));
        }
        i = i + 1;
    }
    let r = crate::text::slice_to_vec(s, i, s.len());
    r
}

/// Wraps `line` into lines for characters `char_width` wide.
pub fn split_text(line: Vec<char>, char_width: i64) -> (r: Vec<Vec<char>>)
    requires
        char_width > 0,
    ensures
        r@.len() == wrap(line@, line_budget(char_width as int)).len(),
        forall|i: int| 0 <= i < r@.len() ==> #[trigger] r@[i]@ == wrap(line@, line_budget(char_width as int))[i],
    decreases line@.len(),
{
    let budget = ((WINDOW_WIDTH + WINDOW_PADDING) / char_width) as usize;
    let mut result: Vec<Vec<char>> = Vec::new();
    if line.len() > budget && budget > 0 {
        let i = find_index_for_line_break(&line, budget);
        let rest = trim_start_vec(&line, i);
        if rest.len() < line.len() {
            let first = crate::text::slice_to_vec(&line, 0, i);
            result.push(first);
            let tail = split_text(rest, char_width);
            let mut k: usize = 0;
            while k < tail.len()
                invariant
                    k <= tail@.len(),
                    result@.len() == k + 1,
                    result@[0]@ == line@.subrange(0, i as int),
                    forall|j: int| 0 <= j < k ==> #[trigger] result@[j + 1]@ == tail@[j]@,
                decreases tail@.len() - k,
            {
                result.push(crate::text::clone_chars(&tail[k]));
                k = k + 1;
            }
            proof {
                let w = wrap(line@, line_budget(char_width as int));
                assert(w == seq![line@.subrange(0, i as int)] + wrap(rest@, line_budget(char_width as int)));
                assert forall|j: int| 0 <= j < result@.len() implies #[trigger] result@[j]@ == w[j] by {
                    if j > 0 {
                        assert(result@[(j - 1) + 1]@ == tail@[j - 1]@);
                    }
                }
            }
            return result;
        }
    }
    result.push(line);
    result
}

/// `s` with whitespace runs made single spaces and no space at either end.
pub fn collapse_whitespace(s: &Vec<char>) -> (r: Vec<char>)
    ensures
        r@ == collapse(s@),
{
    let mut q: Vec<char> = Vec::new();
    let mut i: usize = 0;
    while i < s.len()
        invariant
            i <= s@.len(),
            q@ == squeeze(s@.subrange(0, i as int)),
        decreases s@.len() - i,
    {
        let c = s[i];
        proof {
            let t = s@.subrange(0, i as int + 1);
            assert(t.drop_last() =~= s@.subrange(0, i as int));
            assert(t.last() == c);
        }
        if c == ' ' || c == '\n' || c == '\t' || c == '\r' {
            let n = q.len();
            if n > 0 && q[n - 1] != ' ' {
                q.push(' ');
            }
        } else {
            q.push(c);
        }
        i = i + 1;
    }
    proof {
        assert(s@.subrange(0, s@.len() as int) =~= s@);
    }
    while q.len() > 0 && q[q.len() - 1] == ' '
        invariant
            trim_end(q@) == collapse(s@),
        decreases q@.len(),
    {
        let ghost before = q@;
        q.pop();
        proof {
            assert(q@ =~= before.drop_last());
        }
    }
    q
}

/// What a display item shows: whether it is a rectangle, its text, style, point and size
/// (a text's size is zero).
pub type ItemView = (bool, Seq<char>, ComputedStyle, LayoutPoint, LayoutSize);

impl View for DisplayItem {
    type V = ItemView;

    open spec fn view(&self) -> ItemView {
        match self {
            DisplayItem::Rect { style, layout_point, layout_size } => (true, Seq::empty(), *style, *layout_point, *layout_size),
            DisplayItem::Text { text, style, layout_point } => (false, text@, *style, *layout_point, LayoutSize { width: 0, height: 0 }),
        }
    }
}

/// How far below the first line of a text its line `i` stands.
pub open spec fn line_offset(step: int, i: int) -> int
    decreases i,
{
    if i <= 0 {
        0
    } else {
        sat(line_offset(step, i - 1) + step)
    }
}

/// The lines that a text node's content is painted in at font ratio `ratio`.
pub open spec fn text_lines(t: Seq<char>, ratio: int) -> Seq<Seq<char>> {
    wrap(collapse(t), line_budget(CHAR_WIDTH * ratio))
}

/// What painting one layout object gives: a rectangle for a block element, one text item per
/// wrapped line for a text, and nothing for an inline element or a hidden object.
pub open spec fn object_items(o: LayoutObject) -> Seq<ItemView> {
    if o.style.display == Some(DisplayType::DisplayNone) {
        Seq::empty()
    } else {
        match o.kind {
            LayoutObjectKind::Block => match o.node_kind {
                NodeKind::Element(_) => seq![(true, Seq::<char>::empty(), o.style, o.point, o.size)],
                _ => Seq::empty(),
            },
            LayoutObjectKind::Inline => Seq::empty(),
            LayoutObjectKind::Text => match o.node_kind {
                NodeKind::Text(t) => {
                    let ratio = font_ratio(o.style.font_size->0);
                    let lines = text_lines(t@, ratio);
                    Seq::new(lines.len(), |i: int| (false, lines[i], o.style, LayoutPoint {
                        x: o.point.x,
                        y: sat(o.point.y + line_offset(CHAR_HEIGHT_WITH_PADDING * ratio, i)) as i64,
                    }, LayoutSize { width: 0, height: 0 }))
                },
                _ => Seq::empty(),
            },
        }
    }
}

impl LayoutObject {
    /// The display items of this object alone.
    pub fn paint(&self) -> (r: Vec<DisplayItem>)
        requires
            is_resolved(self.style),
        ensures
            r@.map_values(|d: DisplayItem| d@) == object_items(*self),
    {
        let mut v: Vec<DisplayItem> = Vec::new();
        let hidden = match self.style.display {
            Some(DisplayType::DisplayNone) => true,
            _ => false,
        };
        if hidden {
            proof {
                assert(v@.map_values(|d: DisplayItem| d@) =~= object_items(*self));
            }
            return v;
        }
        match self.kind {
            LayoutObjectKind::Block => {
                let is_element = match &self.node_kind {
                    NodeKind::Element(_) => true,
                    _ => false,
                };
                if is_element {
                    v.push(DisplayItem::Rect { style: self.style, layout_point: self.point, layout_size: self.size });
                }
            },
            LayoutObjectKind::Inline => {},
            LayoutObjectKind::Text => {
                match &self.node_kind {
                    NodeKind::Text(t) => {
                        let ratio = ratio_of(self.style.font_size.unwrap());
                        let plain = collapse_whitespace(&chars_of(t.as_str()));
                        let lines = split_text(plain, CHAR_WIDTH * ratio);
                        let step = CHAR_HEIGHT_WITH_PADDING * ratio;
                        let ghost expected = object_items(*self);
                        let mut offset: i64 = 0;
                        let mut i: usize = 0;
                        while i < lines.len()
                            invariant
                                i <= lines@.len(),
                                lines@.len() == text_lines(t@, ratio as int).len(),
                                forall|j: int| 0 <= j < lines@.len() ==> #[trigger] lines@[j]@ == text_lines(t@, ratio as int)[j],
                                expected == object_items(*self),
                                expected.len() == lines@.len(),
                                self.style.display != Some(DisplayType::DisplayNone),
                                self.kind == LayoutObjectKind::Text,
                                self.node_kind == NodeKind::Text(*t),
                                ratio == font_ratio(self.style.font_size->0),
                                step == CHAR_HEIGHT_WITH_PADDING * ratio,
                                offset == line_offset(step as int, i as int),
                                offset >= 0,
                                v@.len() == i,
                                forall|j: int| 0 <= j < i ==> (#[trigger] v@[j])@ == expected[j],
                            decreases lines@.len() - i,
                        {
                            let item = DisplayItem::Text {
                                text: string_of(&lines[i]),
                                style: self.style,
                                layout_point: LayoutPoint::new(self.point.x, sat_add(self.point.y, offset)),
                            };
                            proof {
                                assert(expected[i as int] == (false, text_lines(t@, ratio as int)[i as int], self.style, LayoutPoint {
                                    x: self.point.x,
                                    y: sat(self.point.y + offset) as i64,
                                }, LayoutSize { width: 0, height: 0 }));
                                assert(item@ == expected[i as int]);
                            }
                            v.push(item);
                            offset = sat_add(offset, step);
                            i = i + 1;
                        }
                    },
                    _ => {},
                }
            },
        }
        proof {
            assert(v@.map_values(|d: DisplayItem| d@) =~= object_items(*self));
        }
        v
    }
}

/// Object `i` links forward only, has its style resolved and shown, and a kind that its
/// node and display give.
pub open spec fn object_ok(objs: Seq<LayoutObject>, i: int) -> bool {
    let o = objs[i];
    &&& o.first_child is Some ==> i < o.first_child->0 < objs.len()
    &&& o.next_sibling is Some ==> i < o.next_sibling->0 < objs.len()
    &&& o.parent is Some ==> o.parent->0 < i
    &&& is_resolved(o.style)
    &&& o.style.display->0 != DisplayType::DisplayNone
    &&& o.kind == layout_kind(o.node_kind, o.style.display->0)
    &&& !(o.node_kind is Document)
    &&& o.point.x >= 0 && o.point.y >= 0
    &&& o.size.width >= 0 && o.size.height >= 0
}

pub open spec fn layout_wf(objs: Seq<LayoutObject>) -> bool {
    forall|i: int| 0 <= i < objs.len() ==> #[trigger] object_ok(objs, i)
}

/// The style of the parent of object `i`, if it has one.
pub open spec fn style_of_parent(objs: Seq<LayoutObject>, i: int) -> Option<ComputedStyle> {
    match objs[i].parent {
        Some(p) => if p < objs.len() {
            Some(objs[p as int].style)
        } else {
            None
        },
        None => None,
    }
}

/// Object `i` has the style that the rules and the defaults give its node below its parent.
pub open spec fn style_ok(objs: Seq<LayoutObject>, rules: Seq<QualifiedRule>, i: int) -> bool {
    objs[i].style == resolved_style(rules, objs[i].node_kind, style_of_parent(objs, i))
}

/// Each object has the style that the rules and the defaults give its node below its parent.
pub open spec fn styled(objs: Seq<LayoutObject>, rules: Seq<QualifiedRule>) -> bool {
    forall|i: int| 0 <= i < objs.len() ==> #[trigger] style_ok(objs, rules, i)
}

/// Object `i` is bound to a node of the DOM, and its parent to that node's parent.
pub open spec fn dom_parent_ok(objs: Seq<LayoutObject>, nodes: Seq<crate::dom::Node>, i: int) -> bool {
    &&& objs[i].node < nodes.len()
    &&& (objs[i].parent is Some && objs[i].parent->0 < objs.len())
        ==> nodes[objs[i].node as int].parent_link() == Some(objs[objs[i].parent->0 as int].node)
}

/// Each object is bound to a node of the DOM, and the object's parent to that node's parent.
pub open spec fn bound_to_dom(objs: Seq<LayoutObject>, nodes: Seq<crate::dom::Node>) -> bool {
    forall|i: int| 0 <= i < objs.len() ==> #[trigger] dom_parent_ok(objs, nodes, i)
}

/// A node is shown below a parent of style `style`: its resolved display is not `none`.
pub open spec fn shown(rules: Seq<QualifiedRule>, nodes: Seq<crate::dom::Node>, style: ComputedStyle) -> spec_fn(usize) -> bool {
    |c: usize| resolved_style(rules, nodes[c as int].kind, Some(style)).display != Some(DisplayType::DisplayNone)
}

/// The DOM children of node `n` that are shown below a parent of style `style`, in order.
pub open spec fn displayed_children(rules: Seq<QualifiedRule>, nodes: Seq<crate::dom::Node>, n: usize, style: ComputedStyle) -> Seq<usize> {
    crate::dom::children_of(nodes, n as int).filter(shown(rules, nodes, style))
}

/// `kids` are the objects of the sibling list that starts at `first`, all children of `owner`.
pub open spec fn linked_chain(objs: Seq<LayoutObject>, owner: int, first: Option<usize>, kids: Seq<usize>) -> bool {
    &&& (kids.len() == 0) == (first is None)
    &&& kids.len() > 0 ==> first == Some(kids[0])
    &&& forall|j: int| 0 <= j < kids.len() ==> owner < #[trigger] kids[j] < objs.len()
        && objs[kids[j] as int].parent == Some(owner as usize)
    &&& forall|j: int| 0 <= j < kids.len() - 1 ==> objs[#[trigger] kids[j] as int].next_sibling == Some(kids[j + 1])
    &&& kids.len() > 0 ==> objs[kids.last() as int].next_sibling is None
}

/// The DOM nodes that the objects `kids` stand for.
pub open spec fn kid_nodes(objs: Seq<LayoutObject>, kids: Seq<usize>) -> Seq<usize> {
    kids.map_values(|x: usize| objs[x as int].node)
}

/// The children of object `k` stand, in order and one each, for the DOM children of its node
/// that are shown below it.
pub open spec fn mirrors(objs: Seq<LayoutObject>, nodes: Seq<crate::dom::Node>, rules: Seq<QualifiedRule>, k: int) -> bool {
    exists|kids: Seq<usize>| #[trigger] linked_chain(objs, k, objs[k].first_child, kids)
        && kid_nodes(objs, kids) == displayed_children(rules, nodes, objs[k].node, objs[k].style)
}

proof fn lemma_mirrors_frame(a: Seq<LayoutObject>, b: Seq<LayoutObject>, nodes: Seq<crate::dom::Node>, rules: Seq<QualifiedRule>, k: int)
    requires
        0 <= k < a.len() <= b.len(),
        mirrors(a, nodes, rules, k),
        b[k].first_child == a[k].first_child,
        b[k].node == a[k].node,
        b[k].style == a[k].style,
        forall|x: int| 0 <= x < a.len() && a[x].parent == Some(k as usize) ==> (#[trigger] b[x]).next_sibling == a[x].next_sibling
            && b[x].node == a[x].node && b[x].parent == a[x].parent,
    ensures
        mirrors(b, nodes, rules, k),
{
    let kids = choose|kids: Seq<usize>| #[trigger] linked_chain(a, k, a[k].first_child, kids)
        && kid_nodes(a, kids) == displayed_children(rules, nodes, a[k].node, a[k].style);
    assert forall|j: int| 0 <= j < kids.len() implies k < #[trigger] kids[j] < b.len()
        && b[kids[j] as int].parent == Some(k as usize) by {
        assert(b[kids[j] as int].parent == a[kids[j] as int].parent);
    }
    assert forall|j: int| 0 <= j < kids.len() - 1 implies b[#[trigger] kids[j] as int].next_sibling == Some(kids[j + 1]) by {
        assert(a[kids[j] as int].parent == Some(k as usize));
    }
    if kids.len() > 0 {
        assert(a[kids.last() as int].parent == Some(k as usize));
    }
    assert(linked_chain(b, k, b[k].first_child, kids));
    assert(kid_nodes(b, kids) =~= kid_nodes(a, kids));
}

/// Every block is as wide as the content area.
pub open spec fn blocks_full_width(objs: Seq<LayoutObject>) -> bool {
    forall|i: int| 0 <= i < objs.len() && (#[trigger] objs[i]).kind == LayoutObjectKind::Block
        ==> objs[i].size.width == CONTENT_AREA_WIDTH
}

/// `a` and `b` agree on the node, the parent and the style.
pub open spec fn same_core(a: LayoutObject, b: LayoutObject) -> bool {
    a.style == b.style && a.node == b.node && a.parent == b.parent && a.node_kind == b.node_kind
}

proof fn lemma_core_frame(before: Seq<LayoutObject>, after: Seq<LayoutObject>, rules: Seq<QualifiedRule>, nodes: Seq<crate::dom::Node>)
    requires
        before.len() == after.len(),
        forall|i: int| 0 <= i < before.len() ==> same_core(before[i], #[trigger] after[i]),
        styled(before, rules),
        bound_to_dom(before, nodes),
    ensures
        styled(after, rules),
        bound_to_dom(after, nodes),
{
    assert forall|i: int| 0 <= i < after.len() implies #[trigger] style_ok(after, rules, i) by {
        assert(same_core(before[i], after[i]));
        assert(style_ok(before, rules, i));
        if before[i].parent is Some && before[i].parent->0 < before.len() {
            assert(same_core(before[before[i].parent->0 as int], after[before[i].parent->0 as int]));
        }
    }
    assert forall|i: int| 0 <= i < after.len() implies #[trigger] dom_parent_ok(after, nodes, i) by {
        assert(same_core(before[i], after[i]));
        assert(dom_parent_ok(before, nodes, i));
        if before[i].parent is Some && before[i].parent->0 < before.len() {
            assert(same_core(before[before[i].parent->0 as int], after[before[i].parent->0 as int]));
        }
    }
}

/// The kinds and sizes of the objects of the sibling list that starts at `c`.
pub open spec fn chain_sizes(objs: Seq<LayoutObject>, c: int) -> Seq<(LayoutObjectKind, LayoutSize)>
    decreases objs.len() - c,
{
    if 0 <= c < objs.len() {
        seq![(objs[c].kind, objs[c].size)] + match objs[c].next_sibling {
            Some(s) => if c < s && s < objs.len() {
                chain_sizes(objs, s as int)
            } else {
                Seq::empty()
            },
            None => Seq::empty(),
        }
    } else {
        Seq::empty()
    }
}

/// The kinds and sizes of the children of object `i`, in order.
pub open spec fn children_sizes_of(objs: Seq<LayoutObject>, i: int) -> Seq<(LayoutObjectKind, LayoutSize)> {
    match objs[i].first_child {
        Some(c) => chain_sizes(objs, c as int),
        None => Seq::empty(),
    }
}

/// Object `i` has the size that the size pass gives it: from the content area's width and
/// its children's kinds and sizes.
pub open spec fn sized(objs: Seq<LayoutObject>, i: int) -> bool {
    let o = objs[i];
    let (w, h) = size_of(o.kind, o.node_kind, o.style.font_size->0, LayoutSize { width: CONTENT_AREA_WIDTH, height: 0 },
        children_sizes_of(objs, i));
    o.size.width == w && o.size.height == h
}

proof fn lemma_chain_frame(a: Seq<LayoutObject>, b: Seq<LayoutObject>, c: int)
    requires
        a.len() == b.len(),
        forall|k: int| c <= k < a.len() ==> (#[trigger] a[k]).kind == b[k].kind && a[k].size == b[k].size
            && a[k].next_sibling == b[k].next_sibling,
    ensures
        chain_sizes(a, c) == chain_sizes(b, c),
    decreases a.len() - c,
{
    if 0 <= c < a.len() {
        match a[c].next_sibling {
            Some(s) => if c < s && s < a.len() {
                lemma_chain_frame(a, b, s as int);
            },
            None => {},
        }
    }
}

/// `b` is `a` with another size.
pub open spec fn same_but_size(a: LayoutObject, b: LayoutObject) -> bool {
    b == (LayoutObject { size: b.size, ..a })
}

/// `b` is `a` with another point.
pub open spec fn same_but_point(a: LayoutObject, b: LayoutObject) -> bool {
    b == (LayoutObject { point: b.point, ..a })
}

/// The objects of the subtree at `i`, in pre-order: the object, then its children's subtrees.
pub open spec fn preorder(objs: Seq<LayoutObject>, i: int) -> Seq<usize>
    decreases objs.len() - i, 0int,
{
    if 0 <= i < objs.len() {
        match objs[i].first_child {
            Some(c) => if i < c && c < objs.len() {
                seq![i as usize] + preorder_from(objs, c as int)
            } else {
                seq![i as usize]
            },
            None => seq![i as usize],
        }
    } else {
        Seq::empty()
    }
}

/// The subtrees of `c` and of the siblings after it, in pre-order.
pub open spec fn preorder_from(objs: Seq<LayoutObject>, c: int) -> Seq<usize>
    decreases objs.len() - c, 1int,
{
    if 0 <= c < objs.len() {
        match objs[c].next_sibling {
            Some(s) => if c < s && s < objs.len() {
                preorder(objs, c) + preorder_from(objs, s as int)
            } else {
                preorder(objs, c)
            },
            None => preorder(objs, c),
        }
    } else {
        Seq::empty()
    }
}

/// The display items of the objects `order`, one object after another.
pub open spec fn paint_seq(objs: Seq<LayoutObject>, order: Seq<usize>) -> Seq<ItemView>
    decreases order.len(),
{
    if order.len() == 0 {
        Seq::empty()
    } else {
        paint_seq(objs, order.drop_last()) + object_items(objs[order.last() as int])
    }
}

/// The layout tree of a page: objects in a list, the root first.
#[derive(Debug, Clone)]
pub struct LayoutView {
    root: Option<usize>,
    objects: Vec<LayoutObject>,
}

impl LayoutView {
    pub closed spec fn root_spec(&self) -> Option<usize> {
        self.root
    }

    pub closed spec fn objects_view(&self) -> Seq<LayoutObject> {
        self.objects@
    }

    pub open spec fn wf(&self) -> bool {
        &&& layout_wf(self.objects_view())
        &&& self.root_spec() is Some ==> self.root_spec() == Some(0usize) && self.objects_view().len() > 0
        &&& self.root_spec() is None ==> self.objects_view().len() == 0
    }

    pub fn root(&self) -> (r: Option<usize>)
        ensures
            r == self.root_spec(),
    {
        self.root
    }

    pub fn object(&self, id: usize) -> (r: &LayoutObject)
        requires
            id < self.objects_view().len(),
        ensures
            *r == self.objects_view()[id as int],
    {
        &self.objects[id]
    }

    pub fn len(&self) -> (r: usize)
        ensures
            r == self.objects_view().len(),
    {
        self.objects.len()
    }

    /// Builds the layout of the DOM node `node` below object `parent` and of its displayed
    /// descendants; returns the index of its object, or `None` when it is not displayed.
    #[verifier::rlimit(100)]
    #[verifier::spinoff_prover]
    fn build(&mut self, window: &Window, node: usize, parent: Option<usize>, parent_style: Option<ComputedStyle>, cssom: &StyleSheet) -> (r: Option<usize>)
        requires
            window.wf(),
            0 < node < window.nodes_view().len(),
            layout_wf(old(self).objects@),
            parent is Some ==> parent->0 < old(self).objects@.len(),
            styled(old(self).objects@, cssom.rules@),
            bound_to_dom(old(self).objects@, window.nodes_view()),
            parent is Some ==> window.nodes_view()[node as int].parent_link() == Some(old(self).objects@[parent->0 as int].node),
            parent_style == match parent {
                Some(p) => Some(old(self).objects@[p as int].style),
                None => None,
            },
        ensures
            layout_wf(final(self).objects@),
            styled(final(self).objects@, cssom.rules@),
            bound_to_dom(final(self).objects@, window.nodes_view()),
            final(self).root == old(self).root,
            final(self).objects@.len() >= old(self).objects@.len(),
            r is Some <==> resolved_style(cssom.rules@, window.nodes_view()[node as int].kind, parent_style).display
                != Some(DisplayType::DisplayNone),
            r is Some ==> r->0 == old(self).objects@.len() && r->0 < final(self).objects@.len(),
            r is Some ==> final(self).objects@[r->0 as int].parent == parent,
            r is Some ==> final(self).objects@[r->0 as int].node == node,
            r is Some ==> final(self).objects@[r->0 as int].next_sibling is None,
            r is None ==> final(self).objects@ == old(self).objects@,
            forall|i: int| 0 <= i < old(self).objects@.len() ==> #[trigger] final(self).objects@[i] == old(self).objects@[i],
            forall|k: int| old(self).objects@.len() <= k < final(self).objects@.len() ==> #[trigger] mirrors(final(self).objects@, window.nodes_view(), cssom.rules@, k),
        decreases window.nodes_view().len() - node,
    {
        let obj = create_layout_object(window, Some(node), parent_style, cssom);
        let mut o = match obj {
            Some(o) => o,
            None => return None,
        };
        o.parent = parent;
        let style = o.style;
        let id = self.objects.len();
        proof {
            lemma_copy_same_style(cssom.rules@, o.node_kind, window.nodes_view()[node as int].kind, parent_style);
        }
        self.objects.push(o);
        proof {
            let objs = self.objects@;
            assert(links_ok(window.nodes_view(), node as int));
            assert forall|i: int| 0 <= i < objs.len() implies #[trigger] object_ok(objs, i) by {
                if i < id {
                    assert(object_ok(old(self).objects@, i));
                }
            }
            assert forall|i: int| 0 <= i < objs.len() implies #[trigger] dom_parent_ok(objs, window.nodes_view(), i) by {
                if i < id {
                    assert(dom_parent_ok(old(self).objects@, window.nodes_view(), i));
                    assert(objs[i] == old(self).objects@[i]);
                    assert(object_ok(old(self).objects@, i));
                    if objs[i].parent is Some {
                        let p = objs[i].parent->0 as int;
                        assert(objs[p] == old(self).objects@[p]);
                    }
                }
            }
            assert forall|i: int| 0 <= i < objs.len() implies #[trigger] style_ok(objs, cssom.rules@, i) by {
                if i < id {
                    assert(style_ok(old(self).objects@, cssom.rules@, i));
                    assert(objs[i] == old(self).objects@[i]);
                    assert(object_ok(old(self).objects@, i));
                    if objs[i].parent is Some {
                        let p = objs[i].parent->0 as int;
                        assert(objs[p] == old(self).objects@[p]);
                    }
                }
            }
        }
        let mut child = window.first_child(node);
        let mut prev: Option<usize> = None;
        let ghost nodes = window.nodes_view();
        let ghost rules = cssom.rules@;
        let ghost mut kids: Seq<usize> = Seq::empty();
        let ghost mut processed: Seq<usize> = Seq::empty();
        proof {
            assert(links_ok(window.nodes_view(), node as int));
            reveal(Seq::filter);
            assert(processed + crate::dom::children_of(nodes, node as int) =~= crate::dom::children_of(nodes, node as int));
            assert(kid_nodes(self.objects@, kids) =~= processed.filter(shown(rules, nodes, style)));
        }
        while child.is_some()
            invariant
                nodes == window.nodes_view(),
                rules == cssom.rules@,
                linked_chain(self.objects@, id as int, self.objects@[id as int].first_child, kids),
                (prev is None) == (kids.len() == 0),
                prev is Some ==> prev->0 == kids.last(),
                kid_nodes(self.objects@, kids) == processed.filter(shown(rules, nodes, style)),
                processed + (match child {
                    Some(c) => crate::dom::sibling_chain(nodes, c),
                    None => Seq::empty(),
                }) == crate::dom::children_of(nodes, node as int),
                forall|k: int| id < k < self.objects@.len() ==> #[trigger] mirrors(self.objects@, nodes, rules, k),
                window.wf(),
                layout_wf(self.objects@),
                styled(self.objects@, cssom.rules@),
                bound_to_dom(self.objects@, window.nodes_view()),
                child is Some ==> window.nodes_view()[child->0 as int].parent_link() == Some(node),
                self.objects@[id as int].style == style,
                self.root == old(self).root,
                id == old(self).objects@.len(),
                self.objects@.len() > id,
                self.objects@[id as int].parent == parent,
                self.objects@[id as int].node == node,
                self.objects@[id as int].next_sibling is None,
                forall|i: int| 0 <= i < id ==> #[trigger] self.objects@[i] == old(self).objects@[i],
                child is Some ==> node < child->0 < window.nodes_view().len(),
                prev is Some ==> id < prev->0 < self.objects@.len() && self.objects@[prev->0 as int].next_sibling is None,
            decreases window.nodes_view().len() - (if child is Some { child->0 as int } else { window.nodes_view().len() as int }),
        {
            let c = child.unwrap();
            proof {
                assert(links_ok(window.nodes_view(), c as int));
            }
            let ghost len_before = self.objects@.len();
            let ghost objs0 = self.objects@;
            let built = self.build(window, c, Some(id), Some(style), cssom);
            proof {
                let objs1 = self.objects@;
                assert forall|k: int| id < k < objs1.len() implies #[trigger] mirrors(objs1, nodes, rules, k) by {
                    if k < len_before {
                        assert forall|x: int| 0 <= x < objs0.len() && objs0[x].parent == Some(k as usize) implies (#[trigger] objs1[x]).next_sibling == objs0[x].next_sibling
                            && objs1[x].node == objs0[x].node && objs1[x].parent == objs0[x].parent by {
                            assert(objs1[x] == objs0[x]);
                        }
                        assert(objs1[k] == objs0[k]);
                        lemma_mirrors_frame(objs0, objs1, nodes, rules, k);
                    }
                }
                assert forall|j: int| 0 <= j < kids.len() implies objs1[#[trigger] kids[j] as int] == objs0[kids[j] as int] by {
                }
                assert(objs1[id as int] == objs0[id as int]);
                assert(kid_nodes(objs1, kids) =~= kid_nodes(objs0, kids));
            }
            match built {
                Some(cid) => {
                    let ghost before = self.objects@;
                    let target = match prev {
                        Some(p) => p,
                        None => id,
                    };
                    proof {
                        assert(target < cid);
                        assert(object_ok(before, target as int));
                    }
                    match prev {
                        Some(p) => {
                            self.objects[p].next_sibling = Some(cid);
                        },
                        None => {
                            self.objects[id].first_child = Some(cid);
                        },
                    }
                    let cur_len = self.objects.len();
                    proof {
                        let objs = self.objects@;
                        assert forall|i: int| 0 <= i < objs.len() implies #[trigger] object_ok(objs, i) by {
                            assert(object_ok(before, i));
                            if i != target {
                                assert(objs[i] == before[i]);
                            }
                        }
                        assert forall|i: int| 0 <= i < objs.len() implies same_core(before[i], #[trigger] objs[i]) by {
                            if i != target {
                                assert(objs[i] == before[i]);
                            }
                        }
                        lemma_core_frame(before, objs, cssom.rules@, window.nodes_view());
                        assert forall|k: int| id < k < objs.len() implies #[trigger] mirrors(objs, nodes, rules, k) by {
                            assert forall|x: int| 0 <= x < before.len() && before[x].parent == Some(k as usize) implies (#[trigger] objs[x]).next_sibling == before[x].next_sibling
                                && objs[x].node == before[x].node && objs[x].parent == before[x].parent by {
                                if x == target as int {
                                    if prev is Some {
                                        assert(kids[kids.len() - 1] == prev->0);
                                        assert(objs0[prev->0 as int].parent == Some(id));
                                        assert(before[prev->0 as int] == objs0[prev->0 as int]);
                                        assert(before[x].parent == Some(id));
                                    } else {
                                        assert(object_ok(before, id as int));
                                        assert(x == id);
                                    }

                                } else {
                                    assert(objs[x] == before[x]);
                                }
                            }
                            lemma_mirrors_frame(before, objs, nodes, rules, k);
                        }
                        let old_kids = kids;
                        kids = kids.push(cid);
                        assert forall|j: int| 0 <= j < kids.len() implies id < #[trigger] kids[j] < objs.len()
                            && objs[kids[j] as int].parent == Some(id) by {
                            if j < old_kids.len() {
                                assert(kids[j] == old_kids[j]);
                            }
                        }
                        assert forall|j: int| 0 <= j < kids.len() - 1 implies objs[#[trigger] kids[j] as int].next_sibling == Some(kids[j + 1]) by {
                            assert(kids[j] == old_kids[j]);
                            if j < old_kids.len() - 1 {
                                assert(kids[j + 1] == old_kids[j + 1]);
                            }
                        }
                        assert(linked_chain(objs, id as int, objs[id as int].first_child, kids));
                        assert(kid_nodes(objs, kids) =~= kid_nodes(before, old_kids).push(c));
                    }
                    prev = Some(cid);
                },
                None => {},
            }
            proof {
                assert(links_ok(window.nodes_view(), c as int));
            }
            let ghost old_processed = processed;
            child = window.next_sibling(c);
            proof {
                processed = processed.push(c);
                reveal(Seq::filter);
                assert(processed.drop_last() =~= old_processed);
                assert(crate::dom::sibling_chain(nodes, c) == seq![c] + (match child {
                    Some(n2) => crate::dom::sibling_chain(nodes, n2),
                    None => Seq::<usize>::empty(),
                }));
                assert(processed + (match child {
                    Some(n2) => crate::dom::sibling_chain(nodes, n2),
                    None => Seq::<usize>::empty(),
                }) =~= old_processed + crate::dom::sibling_chain(nodes, c));
            }
        }
        proof {
            assert(processed + Seq::<usize>::empty() =~= processed);
            assert(mirrors(self.objects@, nodes, rules, id as int));
        }
        Some(id)
    }

    /// The kinds and sizes of the children of object `id`, in order.
    fn children_sizes(&self, id: usize) -> (r: Vec<(LayoutObjectKind, LayoutSize)>)
        requires
            layout_wf(self.objects@),
            id < self.objects@.len(),
        ensures
            sizes_ok(r@),
            r@ == children_sizes_of(self.objects@, id as int),
    {
        let mut r: Vec<(LayoutObjectKind, LayoutSize)> = Vec::new();
        proof {
            assert(object_ok(self.objects@, id as int));
        }
        let mut child = self.objects[id].first_child;
        proof {
            if child is Some {
                assert(r@ + chain_sizes(self.objects@, child->0 as int) =~= children_sizes_of(self.objects@, id as int));
            } else {
                assert(r@ =~= children_sizes_of(self.objects@, id as int));
            }
        }
        while child.is_some()
            invariant
                layout_wf(self.objects@),
                sizes_ok(r@),
                child is Some ==> child->0 < self.objects@.len(),
                child is Some ==> r@ + chain_sizes(self.objects@, child->0 as int) == children_sizes_of(self.objects@, id as int),
                child is None ==> r@ == children_sizes_of(self.objects@, id as int),
            decreases self.objects@.len() - (if child is Some { child->0 as int } else { self.objects@.len() as int }),
        {
            let c = child.unwrap();
            proof {
                assert(object_ok(self.objects@, c as int));
            }
            let ghost before = r@;
            r.push((self.objects[c].kind, self.objects[c].size));
            child = self.objects[c].next_sibling;
            proof {
                let objs = self.objects@;
                if child is Some {
                    assert(chain_sizes(objs, c as int) == seq![(objs[c as int].kind, objs[c as int].size)] + chain_sizes(objs, child->0 as int));
                    assert(r@ + chain_sizes(objs, child->0 as int) =~= before + chain_sizes(objs, c as int));
                } else {
                    assert(chain_sizes(objs, c as int) =~= seq![(objs[c as int].kind, objs[c as int].size)]);
                    assert(r@ =~= before + chain_sizes(objs, c as int));
                }
            }
        }
        r
    }

    /// The size pass: children before parents, each block as wide as the content area.
    fn update_sizes(&mut self)
        requires
            layout_wf(old(self).objects@),
        ensures
            layout_wf(final(self).objects@),
            blocks_full_width(final(self).objects@),
            final(self).root == old(self).root,
            final(self).objects@.len() == old(self).objects@.len(),
            forall|i: int| 0 <= i < old(self).objects@.len() ==> same_but_size(old(self).objects@[i], #[trigger] final(self).objects@[i]),
            forall|i: int| 0 <= i < final(self).objects@.len() ==> #[trigger] sized(final(self).objects@, i),
    {
        let n = self.objects.len();
        let mut i = n;
        while i > 0
            invariant
                i <= n == self.objects@.len(),
                layout_wf(self.objects@),
                self.root == old(self).root,
                n == old(self).objects@.len(),
                forall|j: int| i <= j < n && (#[trigger] self.objects@[j]).kind == LayoutObjectKind::Block
                    ==> self.objects@[j].size.width == CONTENT_AREA_WIDTH,
                forall|j: int| 0 <= j < n ==> same_but_size(old(self).objects@[j], #[trigger] self.objects@[j]),
                forall|j: int| i <= j < n ==> #[trigger] sized(self.objects@, j),
            decreases i,
        {
            i = i - 1;
            let kids = self.children_sizes(i);
            let ghost before = self.objects@;
            proof {
                assert(object_ok(before, i as int));
            }
            self.objects[i].compute_size(LayoutSize::new(CONTENT_AREA_WIDTH, 0), &kids);
            proof {
                let objs = self.objects@;
                assert forall|j: int| 0 <= j < objs.len() implies #[trigger] object_ok(objs, j) by {
                    assert(object_ok(before, j));
                }
                assert forall|j: int| 0 <= j < n implies same_but_size(old(self).objects@[j], #[trigger] objs[j]) by {
                    assert(same_but_size(old(self).objects@[j], before[j]));
                }
                assert forall|j: int| i <= j < n implies #[trigger] sized(objs, j) by {
                    assert(object_ok(before, j));
                    if let Some(c) = before[j].first_child {
                        lemma_chain_frame(before, objs, c as int);
                    }
                    if j > i {
                        assert(sized(before, j));
                    }
                }
            }
        }
    }

    /// The position pass: parents before children, siblings in order.
    fn update_positions(&mut self)
        requires
            layout_wf(old(self).objects@),
        ensures
            layout_wf(final(self).objects@),
            final(self).root == old(self).root,
            final(self).objects@.len() == old(self).objects@.len(),
            forall|i: int| 0 <= i < old(self).objects@.len() ==> same_but_point(old(self).objects@[i], #[trigger] final(self).objects@[i]),
    {
        let n = self.objects.len();
        if n > 0 {
            let ghost before = self.objects@;
            proof {
                assert(object_ok(before, 0));
            }
            self.objects[0].compute_position(LayoutPoint::new(0, 0), LayoutObjectKind::Block, None, None);
            proof {
                let objs = self.objects@;
                assert forall|j: int| 0 <= j < objs.len() implies #[trigger] object_ok(objs, j) by {
                    assert(object_ok(before, j));
                }
            }
        }
        let mut i: usize = 0;
        while i < n
            invariant
                i <= n == self.objects@.len(),
                layout_wf(self.objects@),
                self.root == old(self).root,
                n == old(self).objects@.len(),
                forall|j: int| 0 <= j < n ==> same_but_point(old(self).objects@[j], #[trigger] self.objects@[j]),
            decreases n - i,
        {
            proof {
                assert(object_ok(self.objects@, i as int));
            }
            let parent_point = self.objects[i].point;
            let mut child = self.objects[i].first_child;
            let mut prev_kind = LayoutObjectKind::Block;
            let mut prev_point: Option<LayoutPoint> = None;
            let mut prev_size: Option<LayoutSize> = None;
            while child.is_some()
                invariant
                    n == self.objects@.len(),
                    layout_wf(self.objects@),
                    self.root == old(self).root,
                    n == old(self).objects@.len(),
                    forall|j: int| 0 <= j < n ==> same_but_point(old(self).objects@[j], #[trigger] self.objects@[j]),
                    child is Some ==> child->0 < n,
                    parent_point.x >= 0 && parent_point.y >= 0,
                    prev_point is Some ==> prev_point->0.x >= 0 && prev_point->0.y >= 0,
                    prev_size is Some ==> prev_size->0.width >= 0 && prev_size->0.height >= 0,
                decreases n - (if child is Some { child->0 as int } else { n as int }),
            {
                let c = child.unwrap();
                let ghost before = self.objects@;
                proof {
                    assert(object_ok(before, c as int));
                }
                self.objects[c].compute_position(parent_point, prev_kind, prev_point, prev_size);
                proof {
                    let objs = self.objects@;
                    assert forall|j: int| 0 <= j < objs.len() implies #[trigger] object_ok(objs, j) by {
                        assert(object_ok(before, j));
                    }
                    assert forall|j: int| 0 <= j < n implies same_but_point(old(self).objects@[j], #[trigger] objs[j]) by {
                        assert(same_but_point(old(self).objects@[j], before[j]));
                    }
                    assert(object_ok(objs, c as int));
                }
                prev_kind = self.objects[c].kind;
                prev_point = Some(self.objects[c].point);
                prev_size = Some(self.objects[c].size);
                child = self.objects[c].next_sibling;
            }
            i = i + 1;
        }
    }

    /// Appends the pre-order of the subtree at `i` to `out`.
    fn collect_preorder(&self, i: usize, out: &mut Vec<usize>)
        requires
            layout_wf(self.objects@),
            i < self.objects@.len(),
            forall|k: int| 0 <= k < old(out)@.len() ==> #[trigger] old(out)@[k] < self.objects@.len(),
        ensures
            final(out)@ == old(out)@ + preorder(self.objects@, i as int),
            forall|k: int| 0 <= k < final(out)@.len() ==> #[trigger] final(out)@[k] < self.objects@.len(),
        decreases self.objects@.len() - i, 0int,
    {
        proof {
            assert(object_ok(self.objects@, i as int));
        }
        out.push(i);
        let ghost mid = out@;
        match self.objects[i].first_child {
            Some(c) => {
                self.collect_from(c, out);
                assert(out@ =~= old(out)@ + preorder(self.objects@, i as int));
            },
            None => {
                assert(out@ =~= old(out)@ + preorder(self.objects@, i as int));
            },
        }
    }

    /// Appends the pre-order of the subtrees at `c` and its later siblings to `out`.
    fn collect_from(&self, c: usize, out: &mut Vec<usize>)
        requires
            layout_wf(self.objects@),
            c < self.objects@.len(),
            forall|k: int| 0 <= k < old(out)@.len() ==> #[trigger] old(out)@[k] < self.objects@.len(),
        ensures
            final(out)@ == old(out)@ + preorder_from(self.objects@, c as int),
            forall|k: int| 0 <= k < final(out)@.len() ==> #[trigger] final(out)@[k] < self.objects@.len(),
        decreases self.objects@.len() - c, 1int,
    {
        proof {
            assert(object_ok(self.objects@, c as int));
        }
        self.collect_preorder(c, out);
        let ghost mid = out@;
        match self.objects[c].next_sibling {
            Some(s) => {
                self.collect_from(s, out);
                assert(out@ =~= old(out)@ + preorder_from(self.objects@, c as int));
            },
            None => {
                assert(out@ =~= old(out)@ + preorder_from(self.objects@, c as int));
            },
        }
    }

    /// The objects of the tree in pre-order: each object before its children, and children
    /// in order.
    pub fn preorder_ids(&self) -> (r: Vec<usize>)
        requires
            self.wf(),
        ensures
            r@ == match self.root_spec() {
                Some(root) => preorder(self.objects_view(), root as int),
                None => Seq::empty(),
            },
            forall|k: int| 0 <= k < r@.len() ==> #[trigger] r@[k] < self.objects_view().len(),
    {
        let mut out: Vec<usize> = Vec::new();
        match self.root {
            Some(root) => {
                self.collect_preorder(root, &mut out);
                assert(out@ =~= preorder(self.objects@, root as int));
            },
            None => {},
        }
        out
    }

    /// The display items of the page. They come object by object in the pre-order of the
    /// layout tree, each object giving its own items.
    pub fn paint(&self) -> (r: Vec<DisplayItem>)
        requires
            self.wf(),
        ensures
            r@.map_values(|d: DisplayItem| d@) == paint_seq(self.objects_view(), match self.root_spec() {
                Some(root) => preorder(self.objects_view(), root as int),
                None => Seq::empty(),
            }),
    {
        let order = self.preorder_ids();
        let mut items: Vec<DisplayItem> = Vec::new();
        let mut k: usize = 0;
        while k < order.len()
            invariant
                self.wf(),
                k <= order@.len(),
                forall|j: int| 0 <= j < order@.len() ==> #[trigger] order@[j] < self.objects@.len(),
                items@.map_values(|d: DisplayItem| d@) == paint_seq(self.objects@, order@.subrange(0, k as int)),
            decreases order@.len() - k,
        {
            let id = order[k];
            proof {
                assert(object_ok(self.objects@, id as int));
            }
            let mut v = self.objects[id].paint();
            let ghost before = items@;
            items.append(&mut v);
            proof {
                let t = order@.subrange(0, k as int + 1);
                assert(t.drop_last() =~= order@.subrange(0, k as int));
                assert(items@.map_values(|d: DisplayItem| d@) =~= before.map_values(|d: DisplayItem| d@) + object_items(self.objects@[id as int]));
            }
            k = k + 1;
        }
        proof {
            assert(order@.subrange(0, order@.len() as int) =~= order@);
        }
        items
    }

    /// Lays out the part of the DOM of `window` below `<body>` under the style sheet `cssom`:
    /// builds the tree of displayed objects, each styled by the rules and the defaults below
    /// its parent, then sizes and positions them.
    pub fn new(window: &Window, cssom: &StyleSheet) -> (r: Self)
        requires
            window.wf(),
        ensures
            r.wf(),
            styled(r.objects_view(), cssom.rules@),
            forall|i: int| 0 <= i < r.objects_view().len() ==> #[trigger] sized(r.objects_view(), i),
            forall|k: int| 0 <= k < r.objects_view().len() ==> #[trigger] mirrors(r.objects_view(), window.nodes_view(), cssom.rules@, k),
            bound_to_dom(r.objects_view(), window.nodes_view()),
            blocks_full_width(r.objects_view()),
            r.root_spec() is Some ==> r.objects_view()[0].node == first_of_kind(window.nodes_view(), ElementKind::Body),
            first_of_kind(window.nodes_view(), ElementKind::Body) >= window.nodes_view().len() ==> r.root_spec() is None,
            ({
                let b = first_of_kind(window.nodes_view(), ElementKind::Body);
                b < window.nodes_view().len() ==> (r.root_spec() is Some <==> resolved_style(cssom.rules@,
                    window.nodes_view()[b].kind, None).display != Some(DisplayType::DisplayNone))
            }),
    {
        let mut view = LayoutView { root: None, objects: Vec::new() };
        let body = get_target_element_node(window, ElementKind::Body);
        match body {
            Some(b) => {
                let built = view.build(window, b, None, None, cssom);
                view.root = built;
            },
            None => {},
        }
        let ghost built_objects = view.objects@;
        view.update_sizes();
        let ghost sized_objs = view.objects@;
        view.update_positions();
        proof {
            let objs = view.objects@;
            assert forall|i: int| 0 <= i < objs.len() implies same_core(built_objects[i], #[trigger] sized_objs[i]) by {
                assert(same_but_size(built_objects[i], sized_objs[i]));
            }
            lemma_core_frame(built_objects, sized_objs, cssom.rules@, window.nodes_view());
            assert forall|i: int| 0 <= i < objs.len() implies same_core(sized_objs[i], #[trigger] objs[i]) by {
                assert(same_but_point(sized_objs[i], objs[i]));
            }
            lemma_core_frame(sized_objs, objs, cssom.rules@, window.nodes_view());
            assert forall|k: int| 0 <= k < objs.len() implies #[trigger] mirrors(objs, window.nodes_view(), cssom.rules@, k) by {
                assert(mirrors(built_objects, window.nodes_view(), cssom.rules@, k));
                assert forall|x: int| 0 <= x < built_objects.len() && built_objects[x].parent == Some(k as usize) implies (#[trigger] objs[x]).next_sibling == built_objects[x].next_sibling
                    && objs[x].node == built_objects[x].node && objs[x].parent == built_objects[x].parent by {
                    assert(same_but_size(built_objects[x], sized_objs[x]));
                    assert(same_but_point(sized_objs[x], objs[x]));
                }
                assert(same_but_size(built_objects[k], sized_objs[k]));
                assert(same_but_point(sized_objs[k], objs[k]));
                lemma_mirrors_frame(built_objects, objs, window.nodes_view(), cssom.rules@, k);
            }
            assert forall|i: int| 0 <= i < objs.len() implies #[trigger] sized(objs, i) by {
                assert(sized(sized_objs, i));
                assert(object_ok(sized_objs, i));
                assert forall|k: int| 0 <= k < objs.len() implies (#[trigger] sized_objs[k]).kind == objs[k].kind
                    && sized_objs[k].size == objs[k].size && sized_objs[k].next_sibling == objs[k].next_sibling by {
                    assert(same_but_point(sized_objs[k], objs[k]));
                }
                assert(same_but_point(sized_objs[i], objs[i]));
                if let Some(c) = sized_objs[i].first_child {
                    lemma_chain_frame(sized_objs, objs, c as int);
                }
            }
        }
        view
    }
}

/// The index of the first node of the DOM that is an element of kind `kind`, or the number of
/// nodes when there is none.
pub open spec fn first_of_kind(nodes: Seq<crate::dom::Node>, kind: ElementKind) -> int {
    if exists|i: int| 0 <= i < nodes.len() && crate::dom::node_element_kind(nodes[i].kind) == Some(kind) {
        choose|i: int| 0 <= i < nodes.len() && crate::dom::node_element_kind(nodes[i].kind) == Some(kind)
            && forall|j: int| 0 <= j < i ==> crate::dom::node_element_kind(#[trigger] nodes[j].kind) != Some(kind)
    } else {
        nodes.len() as int
    }
}

/// The first element of kind `kind` in the DOM of `window`, in document order.
pub fn get_target_element_node(window: &Window, kind: ElementKind) -> (r: Option<usize>)
    requires
        window.wf(),
    ensures
        r is Some ==> r->0 == first_of_kind(window.nodes_view(), kind) && 0 < r->0 < window.nodes_view().len(),
        r is None ==> first_of_kind(window.nodes_view(), kind) == window.nodes_view().len(),
{
    let n = window.len();
    let mut i: usize = 0;
    while i < n
        invariant
            n == window.nodes_view().len(),
            window.wf(),
            i <= n,
            forall|j: int| 0 <= j < i ==> crate::dom::node_element_kind(#[trigger] window.nodes_view()[j].kind) != Some(kind),
        decreases n - i,
    {
        if window.node(i).element_kind() == Some(kind) {
            proof {
                let nodes = window.nodes_view();
                let w = choose|k: int| 0 <= k < nodes.len() && crate::dom::node_element_kind(nodes[k].kind) == Some(kind)
                    && forall|j: int| 0 <= j < k ==> crate::dom::node_element_kind(#[trigger] nodes[j].kind) != Some(kind);
                assert(0 <= i < nodes.len() && crate::dom::node_element_kind(nodes[i as int].kind) == Some(kind)
                    && forall|j: int| 0 <= j < i ==> crate::dom::node_element_kind(#[trigger] nodes[j].kind) != Some(kind));
                if w < i {
                    assert(crate::dom::node_element_kind(nodes[w].kind) != Some(kind));
                }
                if w > i {
                    assert(crate::dom::node_element_kind(nodes[i as int].kind) != Some(kind));
                }
                assert(nodes[0].kind is Document);
            }
            return Some(i);
        }
        i = i + 1;
    }
    None
}



/// Every object of a laid-out page is displayed: its resolved `display` is set and is not
/// `none`.
pub proof fn lemma_no_hidden_objects(v: LayoutView)
    requires
        v.wf(),
    ensures
        forall|i: int| 0 <= i < v.objects_view().len() ==> {
            &&& (#[trigger] v.objects_view()[i]).style.display is Some
            &&& v.objects_view()[i].style.display != Some(DisplayType::DisplayNone)
        },
{
    assert forall|i: int| 0 <= i < v.objects_view().len() implies {
        &&& (#[trigger] v.objects_view()[i]).style.display is Some
        &&& v.objects_view()[i].style.display != Some(DisplayType::DisplayNone)
    } by {
        assert(object_ok(v.objects_view(), i));
    }
}

/// A block whose parent is a block is exactly as wide as that parent.
pub proof fn lemma_block_fills_parent(objs: Seq<LayoutObject>, i: int)
    requires
        blocks_full_width(objs),
        0 <= i < objs.len(),
        objs[i].kind == LayoutObjectKind::Block,
        objs[i].parent is Some,
        objs[i].parent->0 < objs.len(),
        objs[objs[i].parent->0 as int].kind == LayoutObjectKind::Block,
    ensures
        objs[i].size.width == objs[objs[i].parent->0 as int].size.width,
{
    let p = objs[i].parent->0 as int;
    assert(objs[p].kind == LayoutObjectKind::Block);
}

} // verus!
