//! Markup AST. Structure tags (`for`, `if`, `template`) stay in the tree until expand.

use vstd::prelude::*;

use crate::expr::{Expr, ExprView};
use crate::span::Span;
use crate::text::chars_of;

verus! {

/// A parsed document: optional templates then a single view root.
#[derive(Debug)]
pub struct Document {
    /// Imported component paths, in order (`<import src="..."/>`).
    pub imports: Vec<(String, Span)>,
    /// Templates defined in this file (and later spliced imports).
    pub templates: Vec<Template>,
    /// The view root element.
    pub root: Node,
}

/// A reusable subtree. Args bind like `for` variables at the use site.
#[derive(Debug)]
pub struct Template {
    /// Template name.
    pub name: String,
    /// Declared args: `(name, optional literal default)`.
    pub args: Vec<(String, Option<String>)>,
    /// Body nodes (may include a single `<slot/>`).
    pub body: Vec<Node>,
    /// Source span of the opening tag.
    pub span: Span,
}

/// One markup node.
#[derive(Debug)]
pub enum Node {
    /// Element or structure tag.
    Element {
        /// Tag name (`row`, `button`, `for`, ...).
        name: String,
        /// Attributes in source order.
        attrs: Vec<Attribute>,
        /// Children.
        children: Vec<Node>,
        /// Opening tag span.
        span: Span,
    },
    /// Text run, possibly with interpolations.
    Text {
        /// Alternating literal / expression pieces. Literals may be empty.
        parts: Vec<TextPart>,
        /// Span of the whole run.
        span: Span,
    },
}

/// A slice of element text content.
#[derive(Debug)]
pub enum TextPart {
    /// Literal characters (HTML entities already decoded).
    Literal(String),
    /// `{expression}`.
    Expr(Expr),
}

/// An attribute. Values are either a literal or a single expression.
#[derive(Debug)]
pub struct Attribute {
    /// Attribute name (`on-press`, `gap`, `checked`, ...).
    pub name: String,
    /// Raw source string inside the quotes, without the surrounding quotes.
    pub raw: String,
    /// Parsed form.
    pub value: AttrValue,
    /// Span of the value.
    pub span: Span,
}

/// Literal vs `{expr}`.
#[derive(Debug)]
pub enum AttrValue {
    /// Plain string. May still contain a message spec (`done:{h.id}`) for `on-*`.
    Literal(String),
    /// Entire value is one `{expression}`.
    Expr(Expr),
}

// ---------------------------------------------------------------------------
// Mathematical values of the AST.
// ---------------------------------------------------------------------------
pub enum AttrValueView {
    Literal(Seq<char>),
    Expr(ExprView),
}

pub struct AttributeView {
    pub name: Seq<char>,
    pub raw: Seq<char>,
    pub value: AttrValueView,
    pub span: Span,
}

pub enum TextPartView {
    Literal(Seq<char>),
    Expr(ExprView),
}

pub enum NodeView {
    Element { name: Seq<char>, attrs: Seq<AttributeView>, children: Seq<NodeView>, span: Span },
    Text { parts: Seq<TextPartView>, span: Span },
}

pub struct TemplateView {
    pub name: Seq<char>,
    pub args: Seq<(Seq<char>, Option<Seq<char>>)>,
    pub body: Seq<NodeView>,
    pub span: Span,
}

pub struct DocumentView {
    pub imports: Seq<(Seq<char>, Span)>,
    pub templates: Seq<TemplateView>,
    pub root: NodeView,
}

impl View for AttrValue {
    type V = AttrValueView;

    open spec fn view(&self) -> AttrValueView {
        match self {
            AttrValue::Literal(s) => AttrValueView::Literal(s@),
            AttrValue::Expr(e) => AttrValueView::Expr(e@),
        }
    }
}

impl View for Attribute {
    type V = AttributeView;

    open spec fn view(&self) -> AttributeView {
        AttributeView { name: self.name@, raw: self.raw@, value: self.value@, span: self.span }
    }
}

impl View for TextPart {
    type V = TextPartView;

    open spec fn view(&self) -> TextPartView {
        match self {
            TextPart::Literal(s) => TextPartView::Literal(s@),
            TextPart::Expr(e) => TextPartView::Expr(e@),
        }
    }
}

pub open spec fn attr_views(s: Seq<Attribute>) -> Seq<AttributeView> {
    s.map_values(|a: Attribute| a@)
}

pub open spec fn part_views(s: Seq<TextPart>) -> Seq<TextPartView> {
    s.map_values(|p: TextPart| p@)
}

pub open spec fn node_views(s: Seq<Node>) -> Seq<NodeView>
    decreases s,
{
    if s.len() == 0 {
        Seq::empty()
    } else {
        node_views(s.drop_last()).push(s.last().view())
    }
}

impl View for Node {
    type V = NodeView;

    open spec fn view(&self) -> NodeView
        decreases self,
    {
        match self {
            Node::Element { name, attrs, children, span } => NodeView::Element {
                name: name@,
                attrs: attr_views(attrs@),
                children: node_views(children@),
                span: *span,
            },
            Node::Text { parts, span } => NodeView::Text { parts: part_views(parts@), span: *span },
        }
    }
}

pub open spec fn arg_views(s: Seq<(String, Option<String>)>) -> Seq<
    (Seq<char>, Option<Seq<char>>),
> {
    s.map_values(
        |a: (String, Option<String>)|
            (
                a.0@,
                match a.1 {
                    Some(d) => Some(d@),
                    None => None,
                },
            ),
    )
}

impl View for Template {
    type V = TemplateView;

    open spec fn view(&self) -> TemplateView {
        TemplateView {
            name: self.name@,
            args: arg_views(self.args@),
            body: node_views(self.body@),
            span: self.span,
        }
    }
}

pub open spec fn template_views(s: Seq<Template>) -> Seq<TemplateView> {
    s.map_values(|t: Template| t@)
}

pub open spec fn import_views(s: Seq<(String, Span)>) -> Seq<(Seq<char>, Span)> {
    s.map_values(|i: (String, Span)| (i.0@, i.1))
}

impl View for Document {
    type V = DocumentView;

    open spec fn view(&self) -> DocumentView {
        DocumentView {
            imports: import_views(self.imports@),
            templates: template_views(self.templates@),
            root: self.root@,
        }
    }
}

pub proof fn lemma_node_views(s: Seq<Node>)
    ensures
        node_views(s).len() == s.len(),
        forall|i: int| 0 <= i < s.len() ==> #[trigger] node_views(s)[i] == s[i]@,
    decreases s.len(),
{
    if s.len() > 0 {
        lemma_node_views(s.drop_last());
        assert(node_views(s) == node_views(s.drop_last()).push(s.last()@));
        assert forall|i: int| 0 <= i < s.len() implies #[trigger] node_views(s)[i] == s[i]@ by {
            if i < s.len() - 1 {
                assert(node_views(s)[i] == node_views(s.drop_last())[i]);
                assert(s.drop_last()[i] == s[i]);
            }
        }
    }
}

pub proof fn lemma_node_views_push(v: Seq<Node>, n: Node)
    ensures
        node_views(v.push(n)) == node_views(v).push(n@),
{
    assert(v.push(n).drop_last() =~= v);
}

/// The first attribute named `name`.
pub open spec fn first_attr(attrs: Seq<AttributeView>, name: Seq<char>) -> Option<AttributeView>
    decreases attrs.len(),
{
    if attrs.len() == 0 {
        None
    } else if attrs[0].name == name {
        Some(attrs[0])
    } else {
        first_attr(attrs.drop_first(), name)
    }
}

/// Element tag name of a node value.
pub open spec fn node_tag(n: NodeView) -> Option<Seq<char>> {
    match n {
        NodeView::Element { name, .. } => Some(name),
        NodeView::Text { .. } => None,
    }
}

/// Index of the first attribute named `name` in `attrs`, searching from `from`.
pub fn find_attr(attrs: &Vec<Attribute>, name: &[char]) -> (r: Option<usize>)
    ensures
        match r {
            Some(k) => k < attrs.len() && first_attr(attr_views(attrs@), name@) == Some(
                attrs@[k as int]@,
            ),
            None => first_attr(attr_views(attrs@), name@) is None,
        },
{
    let ghost all = attr_views(attrs@);
    let mut i: usize = 0;
    assert(all.skip(0) =~= all);
    while i < attrs.len()
        invariant
            i <= attrs.len(),
            all == attr_views(attrs@),
            first_attr(all, name@) == first_attr(all.skip(i as int), name@),
        decreases attrs.len() - i,
    {
        let an = chars_of(attrs[i].name.as_str());
        if crate::text::chars_eq(an.as_slice(), name) {
            assert(all.skip(i as int)[0] == attrs@[i as int]@);
            return Some(i);
        }
        assert(all.skip(i as int).drop_first() =~= all.skip(i + 1));
        i += 1;
    }
    assert(all.skip(i as int).len() == 0);
    None
}

impl Node {
    /// Element tag name, if this is an element.
    pub fn tag(&self) -> (r: Option<&str>)
        ensures
            match r {
                Some(t) => node_tag(self@) == Some(t@),
                None => node_tag(self@) is None,
            },
    {
        match self {
            Node::Element { name, .. } => Some(name.as_str()),
            Node::Text { .. } => None,
        }
    }

    /// Attribute by name.
    pub fn attr(&self, name: &str) -> (r: Option<&Attribute>)
        ensures
            match r {
                Some(a) => self@ is Element && first_attr(self@->attrs, name@) == Some(a@),
                None => !(self@ is Element) || first_attr(self@->attrs, name@) is None,
            },
    {
        match self {
            Node::Element { attrs, .. } => {
                let v = chars_of(name);
                match find_attr(attrs, v.as_slice()) {
                    Some(k) => Some(&attrs[k]),
                    None => None,
                }
            },
            Node::Text { .. } => None,
        }
    }
}

} // verus!
