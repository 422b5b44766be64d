use vstd::prelude::*;
use crate::cssom::{ComponentValue, Declaration, Selector};
use crate::dom::{ElementKind, NodeKind, element_kind_name};
use crate::html_token::Attribute;
use crate::text::{chars_of, str_eq};

verus! {

/// A colour as `0xRRGGBB`.
#[derive(Debug, Clone, Copy, PartialEq, Eq, Structural)]
pub struct Color {
    pub code: u32,
}

/// The colour that a CSS colour name stands for.
pub open spec fn color_of_name(s: Seq<char>) -> Option<u32> {
    if s == "black"@ {
        Some(0x000000u32)
    } else if s == "silver"@ {
        Some(0xc0c0c0u32)
    } else if s == "gray"@ {
        Some(0x808080u32)
    } else if s == "white"@ {
        Some(0xffffffu32)
    } else if s == "maroon"@ {
        Some(0x800000u32)
    } else if s == "red"@ {
        Some(0xff0000u32)
    } else if s == "purple"@ {
        Some(0x800080u32)
    } else if s == "fuchsia"@ {
        Some(0xff00ffu32)
    } else if s == "green"@ {
        Some(0x008000u32)
    } else if s == "lime"@ {
        Some(0x00ff00u32)
    } else if s == "olive"@ {
        Some(0x808000u32)
    } else if s == "yellow"@ {
        Some(0xffff00u32)
    } else if s == "navy"@ {
        Some(0x000080u32)
    } else if s == "blue"@ {
        Some(0x0000ffu32)
    } else if s == "teal"@ {
        Some(0x008080u32)
    } else if s == "aqua"@ {
        Some(0x00ffffu32)
    } else if s == "orange"@ {
        Some(0xffa500u32)
    } else if s == "lightgray"@ {
        Some(0xd3d3d3u32)
    } else {
        None
    }
}

pub open spec fn hex_digit_value(c: char) -> Option<int> {
    let u = c as u32;
    if 0x30 <= u <= 0x39 {
        Some(u - 0x30)
    } else if 0x61 <= u <= 0x66 {
        Some(u - 0x61 + 10)
    } else if 0x41 <= u <= 0x46 {
        Some(u - 0x41 + 10)
    } else {
        None
    }
}

/// The value of `s` read as hexadecimal digits, if all of them are.
pub open spec fn hex_value(s: Seq<char>) -> Option<int>
    decreases s.len(),
{
    if s.len() == 0 {
        Some(0)
    } else {
        match (hex_value(s.drop_last()), hex_digit_value(s.last())) {
            (Some(v), Some(d)) => Some(v * 16 + d),
            _ => None,
        }
    }
}

/// The colour of a hash value `RRGGBB`.
pub open spec fn color_of_code(s: Seq<char>) -> Option<u32> {
    if s.len() == 6 && hex_value(s) is Some {
        Some(hex_value(s)->0 as u32)
    } else {
        None
    }
}

/// Sixteen to the power `i`, for the lengths of a colour code.
spec fn pow16(i: int) -> int {
    if i <= 0 {
        1
    } else if i == 1 {
        16
    } else if i == 2 {
        256
    } else if i == 3 {
        4096
    } else if i == 4 {
        65536
    } else if i == 5 {
        1048576
    } else {
        16777216
    }
}

impl Color {
    pub fn white() -> (r: Color)
        ensures
            r.code == 0xffffff,
    {
        Color { code: 0xffffff }
    }

    pub fn black() -> (r: Color)
        ensures
            r.code == 0,
    {
        Color { code: 0 }
    }

    pub fn code(&self) -> (r: u32)
        ensures
            r == self.code,
    {
        self.code
    }

    /// The colour named `name`, if the name is known.
    pub fn from_name(name: &str) -> (r: Option<Color>)
        ensures
            r is Some == color_of_name(name@) is Some,
            r is Some ==> r->0.code == color_of_name(name@)->0,
    {
        let code: Option<u32> = if str_eq(name, "black") {
            Some(0x000000)
        } else if str_eq(name, "silver") {
            Some(0xc0c0c0)
        } else if str_eq(name, "gray") {
            Some(0x808080)
        } else if str_eq(name, "white") {
            Some(0xffffff)
        } else if str_eq(name, "maroon") {
            Some(0x800000)
        } else if str_eq(name, "red") {
            Some(0xff0000)
        } else if str_eq(name, "purple") {
            Some(0x800080)
        } else if str_eq(name, "fuchsia") {
            Some(0xff00ff)
        } else if str_eq(name, "green") {
            Some(0x008000)
        } else if str_eq(name, "lime") {
            Some(0x00ff00)
        } else if str_eq(name, "olive") {
            Some(0x808000)
        } else if str_eq(name, "yellow") {
            Some(0xffff00)
        } else if str_eq(name, "navy") {
            Some(0x000080)
        } else if str_eq(name, "blue") {
            Some(0x0000ff)
        } else if str_eq(name, "teal") {
            Some(0x008080)
        } else if str_eq(name, "aqua") {
            Some(0x00ffff)
        } else if str_eq(name, "orange") {
            Some(0xffa500)
        } else if str_eq(name, "lightgray") {
            Some(0xd3d3d3)
        } else {
            None
        };
        match code {
            Some(c) => Some(Color { code: c }),
            None => None,
        }
    }

    /// The colour written as six hexadecimal digits `RRGGBB`.
    pub fn from_code(code: &str) -> (r: Option<Color>)
        ensures
            r is Some == color_of_code(code@) is Some,
            r is Some ==> r->0.code == color_of_code(code@)->0,
    {
        let s = chars_of(code);
        if s.len() != 6 {
            return None;
        }
        let mut v: u32 = 0;
        let mut i: usize = 0;
        while i < 6
            invariant
                s@ == code@,
                s@.len() == 6,
                i <= 6,
                hex_value(s@.subrange(0, i as int)) == Some(v as int),
                v < pow16(i as int),
            decreases 6 - i,
        {
            let c = s[i];
            let d: u32 = match hex_digit(c) {
                Some(d) => d,
                None => {
                    proof {
                        let t = s@.subrange(0, i as int + 1);
                        assert(t.drop_last() =~= s@.subrange(0, i as int));
                        assert(t.last() == c);
                        assert(hex_value(t) is None);
                        assert forall|j: int| i < j <= 6 implies hex_value(#[trigger] s@.subrange(0, j)) is None by {
                            lemma_hex_prefix_none(s@, i as int + 1, j);
                        }
                        assert(s@.subrange(0, 6) =~= s@);
                    }
                    return None;
                },
            };
            proof {
                let t = s@.subrange(0, i as int + 1);
                assert(t.drop_last() =~= s@.subrange(0, i as int));
                assert(t.last() == c);
                assert(pow16(i as int + 1) == 16 * pow16(i as int));
            }
            v = v * 16 + d;
            i = i + 1;
        }
        proof {
            assert(s@.subrange(0, 6) =~= s@);
        }
        Some(Color { code: v })
    }
}

fn hex_digit(c: char) -> (r: Option<u32>)
    ensures
        r is Some == hex_digit_value(c) is Some,
        r is Some ==> r->0 == hex_digit_value(c)->0 && r->0 < 16,
{
    let u = c as u32;
    if 0x30 <= u && u <= 0x39 {
        Some(u - 0x30)
    } else if 0x61 <= u && u <= 0x66 {
        Some(u - 0x61 + 10)
    } else if 0x41 <= u && u <= 0x46 {
        Some(u - 0x41 + 10)
    } else {
        None
    }
}

proof fn lemma_hex_prefix_none(s: Seq<char>, i: int, j: int)
    requires
        0 < i <= j <= s.len(),
        hex_value(s.subrange(0, i)) is None,
    ensures
        hex_value(s.subrange(0, j)) is None,
    decreases j - i,
{
    if j > i {
        lemma_hex_prefix_none(s, i, j - 1);
        assert(s.subrange(0, j).drop_last() =~= s.subrange(0, j - 1));
    }
}

/// How a node takes part in layout.
#[derive(Debug, Clone, Copy, PartialEq, Eq, Structural)]
pub enum DisplayType {
    Block,
    Inline,
    DisplayNone,
}

#[derive(Debug, Clone, Copy, PartialEq, Eq, Structural)]
pub enum FontSize {
    Medium,
    XLarge,
    XXLarge,
}

#[derive(Debug, Clone, Copy, PartialEq, Eq, Structural)]
pub enum TextDecoration {
    NoDecoration,
    Underline,
}

/// The display type that a `display` keyword gives; an unknown keyword hides the node.
pub open spec fn display_of_keyword(s: Seq<char>) -> DisplayType {
    if s == "block"@ {
        DisplayType::Block
    } else if s == "inline"@ {
        DisplayType::Inline
    } else {
        DisplayType::DisplayNone
    }
}

impl DisplayType {
    pub fn from_keyword(s: &str) -> (r: DisplayType)
        ensures
            r == display_of_keyword(s@),
    {
        if str_eq(s, "block") {
            DisplayType::Block
        } else if str_eq(s, "inline") {
            DisplayType::Inline
        } else {
            DisplayType::DisplayNone
        }
    }
}

/// The display type of a node that no rule sets.
pub open spec fn default_display(k: NodeKind) -> DisplayType {
    match k {
        NodeKind::Document => DisplayType::Block,
        NodeKind::Element(e) => match e.kind {
            ElementKind::Body | ElementKind::P | ElementKind::H1 | ElementKind::H2 => DisplayType::Block,
            _ => DisplayType::Inline,
        },
        NodeKind::Text(_) => DisplayType::Inline,
    }
}

/// The font size of a node that no rule and no parent sets.
pub open spec fn default_font_size(k: NodeKind) -> FontSize {
    match k {
        NodeKind::Element(e) => match e.kind {
            ElementKind::H1 => FontSize::XXLarge,
            ElementKind::H2 => FontSize::XLarge,
            _ => FontSize::Medium,
        },
        _ => FontSize::Medium,
    }
}

/// The text decoration of a node that no rule and no parent sets.
pub open spec fn default_text_decoration(k: NodeKind) -> TextDecoration {
    match k {
        NodeKind::Element(e) => match e.kind {
            ElementKind::A => TextDecoration::Underline,
            _ => TextDecoration::NoDecoration,
        },
        _ => TextDecoration::NoDecoration,
    }
}

/// The style of a node: each field is `None` until a rule or the defaults set it.
#[derive(Debug, Clone, Copy, PartialEq, Eq, Structural)]
pub struct ComputedStyle {
    pub background_color: Option<Color>,
    pub color: Option<Color>,
    pub display: Option<DisplayType>,
    pub font_size: Option<FontSize>,
    pub text_decoration: Option<TextDecoration>,
}

/// What one declaration does to a style.
pub open spec fn apply_declaration(s: ComputedStyle, d: Declaration) -> ComputedStyle {
    if d.property@ == "background-color"@ {
        match d.value {
            ComponentValue::Ident(v) => ComputedStyle {
                background_color: Some(Color { code: match color_of_name(v@) { Some(c) => c, None => 0xffffffu32 } }),
                ..s
            },
            ComponentValue::HashToken(v) => ComputedStyle {
                background_color: Some(Color { code: match color_of_code(v@) { Some(c) => c, None => 0xffffffu32 } }),
                ..s
            },
            _ => s,
        }
    } else if d.property@ == "color"@ {
        match d.value {
            ComponentValue::Ident(v) => ComputedStyle {
                color: Some(Color { code: match color_of_name(v@) { Some(c) => c, None => 0u32 } }),
                ..s
            },
            ComponentValue::HashToken(v) => ComputedStyle {
                color: Some(Color { code: match color_of_code(v@) { Some(c) => c, None => 0u32 } }),
                ..s
            },
            _ => s,
        }
    } else if d.property@ == "display"@ {
        match d.value {
            ComponentValue::Ident(v) => ComputedStyle { display: Some(display_of_keyword(v@)), ..s },
            _ => s,
        }
    } else {
        s
    }
}

/// The style after the declarations `ds`, in order: a later one wins.
pub open spec fn cascade(s: ComputedStyle, ds: Seq<Declaration>) -> ComputedStyle
    decreases ds.len(),
{
    if ds.len() == 0 {
        s
    } else {
        apply_declaration(cascade(s, ds.drop_last()), ds.last())
    }
}

/// The style with its gaps filled: the colour from the parent when there is one, every other
/// field (and the colour without a parent) from the defaults of the node's kind.
pub open spec fn defaulted(s: ComputedStyle, k: NodeKind, parent: Option<ComputedStyle>) -> ComputedStyle {
    ComputedStyle {
        background_color: if s.background_color is None {
            Some(Color { code: 0xffffff })
        } else {
            s.background_color
        },
        color: if s.color is Some {
            s.color
        } else if parent is Some && parent->0.color is Some {
            parent->0.color
        } else {
            Some(Color { code: 0 })
        },
        display: if s.display is None {
            Some(default_display(k))
        } else {
            s.display
        },
        font_size: if s.font_size is None {
            Some(default_font_size(k))
        } else {
            s.font_size
        },
        text_decoration: if s.text_decoration is None {
            Some(default_text_decoration(k))
        } else {
            s.text_decoration
        },
    }
}

/// Every field of the style is set.
pub open spec fn is_resolved(s: ComputedStyle) -> bool {
    &&& s.background_color is Some
    &&& s.color is Some
    &&& s.display is Some
    &&& s.font_size is Some
    &&& s.text_decoration is Some
}

/// Whether the attribute list has an attribute `name` whose value is `value`.
pub open spec fn has_attribute(attrs: Seq<Attribute>, name: Seq<char>, value: Seq<char>) -> bool {
    exists|i: int| 0 <= i < attrs.len() && #[trigger] attrs[i].name_view() == name && attrs[i].value_view() == value
}

/// Whether `sel` picks a node of kind `k`.
pub open spec fn selects(sel: Selector, k: NodeKind) -> bool {
    match k {
        NodeKind::Element(e) => match sel {
            Selector::TypeSelector(n) => element_kind_name(e.kind) == n@,
            Selector::ClassSelector(n) => has_attribute(e.attributes@, "class"@, n@),
            Selector::IdSelector(n) => has_attribute(e.attributes@, "id"@, n@),
            Selector::UnknownSelector => false,
        },
        _ => false,
    }
}

fn attribute_matches(attrs: &Vec<Attribute>, name: &str, value: &String) -> (r: bool)
    ensures
        r == has_attribute(attrs@, name@, value@),
{
    let mut i: usize = 0;
    while i < attrs.len()
        invariant
            i <= attrs@.len(),
            forall|k: int| 0 <= k < i ==> !(#[trigger] attrs@[k].name_view() == name@ && attrs@[k].value_view() == value@),
        decreases attrs@.len() - i,
    {
        let n = attrs[i].name();
        let v = attrs[i].value();
        if str_eq(n.as_str(), name) && str_eq(v.as_str(), value.as_str()) {
            return true;
        }
        i = i + 1;
    }
    false
}

/// Whether `selector` picks a node of kind `kind`.
pub fn is_selected(kind: &NodeKind, selector: &Selector) -> (r: bool)
    ensures
        r == selects(*selector, *kind),
{
    match kind {
        NodeKind::Element(e) => match selector {
            Selector::TypeSelector(tag_name) => {
                let name = e.kind.name();
                str_eq(name.as_str(), tag_name.as_str())
            },
            Selector::ClassSelector(class_name) => attribute_matches(&e.attributes, "class", class_name),
            Selector::IdSelector(id_name) => attribute_matches(&e.attributes, "id", id_name),
            Selector::UnknownSelector => false,
        },
        _ => false,
    }
}

impl ComputedStyle {
    /// A style with nothing set.
    pub fn new() -> (r: Self)
        ensures
            r.background_color is None,
            r.color is None,
            r.display is None,
            r.font_size is None,
            r.text_decoration is None,
    {
        ComputedStyle {
            background_color: None,
            color: None,
            display: None,
            font_size: None,
            text_decoration: None,
        }
    }

    pub fn set_background_color(&mut self, color: Color)
        ensures
            *final(self) == (ComputedStyle { background_color: Some(color), ..*old(self) }),
    {
        self.background_color = Some(color);
    }

    pub fn set_color(&mut self, color: Color)
        ensures
            *final(self) == (ComputedStyle { color: Some(color), ..*old(self) }),
    {
        self.color = Some(color);
    }

    pub fn set_display(&mut self, display: DisplayType)
        ensures
            *final(self) == (ComputedStyle { display: Some(display), ..*old(self) }),
    {
        self.display = Some(display);
    }

    pub fn background_color(&self) -> (r: Color)
        requires
            self.background_color is Some,
        ensures
            r == self.background_color->0,
    {
        self.background_color.unwrap()
    }

    pub fn color(&self) -> (r: Color)
        requires
            self.color is Some,
        ensures
            r == self.color->0,
    {
        self.color.unwrap()
    }

    pub fn display(&self) -> (r: DisplayType)
        requires
            self.display is Some,
        ensures
            r == self.display->0,
    {
        self.display.unwrap()
    }

    pub fn font_size(&self) -> (r: FontSize)
        requires
            self.font_size is Some,
        ensures
            r == self.font_size->0,
    {
        self.font_size.unwrap()
    }

    pub fn text_decoration(&self) -> (r: TextDecoration)
        requires
            self.text_decoration is Some,
        ensures
            r == self.text_decoration->0,
    {
        self.text_decoration.unwrap()
    }

    /// Applies one declaration.
    pub fn apply(&mut self, d: &Declaration)
        ensures
            *final(self) == apply_declaration(*old(self), *d),
    {
        if str_eq(d.property.as_str(), "background-color") {
            match &d.value {
                ComponentValue::Ident(v) => {
                    let c = match Color::from_name(v.as_str()) {
                        Some(c) => c,
                        None => Color::white(),
                    };
                    self.set_background_color(c);
                },
                ComponentValue::HashToken(v) => {
                    let c = match Color::from_code(v.as_str()) {
                        Some(c) => c,
                        None => Color::white(),
                    };
                    self.set_background_color(c);
                },
                _ => {},
            }
        } else if str_eq(d.property.as_str(), "color") {
            match &d.value {
                ComponentValue::Ident(v) => {
                    let c = match Color::from_name(v.as_str()) {
                        Some(c) => c,
                        None => Color::black(),
                    };
                    self.set_color(c);
                },
                ComponentValue::HashToken(v) => {
                    let c = match Color::from_code(v.as_str()) {
                        Some(c) => c,
                        None => Color::black(),
                    };
                    self.set_color(c);
                },
                _ => {},
            }
        } else if str_eq(d.property.as_str(), "display") {
            match &d.value {
                ComponentValue::Ident(v) => {
                    self.set_display(DisplayType::from_keyword(v.as_str()));
                },
                _ => {},
            }
        }
    }

    /// Applies the declarations in order.
    pub fn cascade(&mut self, declarations: &Vec<Declaration>)
        ensures
            *final(self) == cascade(*old(self), declarations@),
    {
        let mut i: usize = 0;
        while i < declarations.len()
            invariant
                i <= declarations@.len(),
                *self == cascade(*old(self), declarations@.subrange(0, i as int)),
            decreases declarations@.len() - i,
        {
            self.apply(&declarations[i]);
            proof {
                let t = declarations@.subrange(0, i as int + 1);
                assert(t.drop_last() =~= declarations@.subrange(0, i as int));
            }
            i = i + 1;
        }
        proof {
            assert(declarations@.subrange(0, declarations@.len() as int) =~= declarations@);
        }
    }

    /// Fills the fields that are not set: the colour from the parent's style, the rest from the
    /// node's kind.
    pub fn defaulting(&mut self, kind: &NodeKind, parent_style: Option<ComputedStyle>)
        ensures
            *final(self) == defaulted(*old(self), *kind, parent_style),
            is_resolved(*final(self)),
    {
        if self.color.is_none() {
            match parent_style {
                Some(p) => {
                    self.color = p.color;
                },
                None => {},
            }
        }
        if self.background_color.is_none() {
            self.background_color = Some(Color::white());
        }
        if self.color.is_none() {
            self.color = Some(Color::black());
        }
        if self.display.is_none() {
            self.display = Some(default_display_of(kind));
        }
        if self.font_size.is_none() {
            self.font_size = Some(default_font_size_of(kind));
        }
        if self.text_decoration.is_none() {
            self.text_decoration = Some(default_text_decoration_of(kind));
        }
    }
}

fn default_display_of(k: &NodeKind) -> (r: DisplayType)
    ensures
        r == default_display(*k),
{
    match k {
        NodeKind::Document => DisplayType::Block,
        NodeKind::Element(e) => match e.kind {
            ElementKind::Body | ElementKind::P | ElementKind::H1 | ElementKind::H2 => DisplayType::Block,
            _ => DisplayType::Inline,
        },
        NodeKind::Text(_) => DisplayType::Inline,
    }
}

fn default_font_size_of(k: &NodeKind) -> (r: FontSize)
    ensures
        r == default_font_size(*k),
{
    match k {
        NodeKind::Element(e) => match e.kind {
            ElementKind::H1 => FontSize::XXLarge,
            ElementKind::H2 => FontSize::XLarge,
            _ => FontSize::Medium,
        },
        _ => FontSize::Medium,
    }
}

fn default_text_decoration_of(k: &NodeKind) -> (r: TextDecoration)
    ensures
        r == default_text_decoration(*k),
{
    match k {
        NodeKind::Element(e) => match e.kind {
            ElementKind::A => TextDecoration::Underline,
            _ => TextDecoration::NoDecoration,
        },
        _ => TextDecoration::NoDecoration,
    }
}

} // verus!
