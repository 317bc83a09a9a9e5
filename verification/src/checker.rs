//! Static checks: unknown elements, unknown tokens, missing bindings, missing message tags.

use vstd::prelude::*;
use vstd::string::StrSliceExecFns;

use crate::ast::{
    arg_views, attr_views, find_attr, first_attr, lemma_node_views, part_views, node_views, template_views, AttrValue, AttrValueView, Attribute, AttributeView,
    Document, DocumentView, Node, NodeView, Template, TemplateView, TextPart, TextPartView,
};
use crate::color::{spec_color_parse, Color};
use crate::error::{located, Error, ErrorView};
use crate::expr::{spec_parse_expr, spec_roots, strings_view, Expr, ExprView};
use crate::markup::find_char;
use crate::span::Span;
use crate::doc_parse::find_char_from;
use crate::expr_parse::parse_expr;
use crate::text::{chars_of, copy_string, lit, push_str, starts_at, starts_with_at, str_eq, utf8_len};
use crate::tokens::{tokens_for, RadiusToken};
use crate::tokens::{spec_radius_parse, spec_token_color, spec_tokens_for, Appearance};

verus! {

// ---------------------------------------------------------------------------
// The closed vocabulary.
// ---------------------------------------------------------------------------
/// Whether `n` names an element of the closed markup catalog.
pub open spec fn spec_is_element(n: Seq<char>) -> bool {
    ||| n == "row"@
    ||| n == "column"@
    ||| n == "stack"@
    ||| n == "panel"@
    ||| n == "card"@
    ||| n == "scroll"@
    ||| n == "list"@
    ||| n == "grid"@
    ||| n == "spacer"@
    ||| n == "separator"@
    ||| n == "text"@
    ||| n == "span"@
    ||| n == "badge"@
    ||| n == "status-bar"@
    ||| n == "button"@
    ||| n == "toggle-button"@
    ||| n == "checkbox"@
    ||| n == "radio"@
    ||| n == "radio-group"@
    ||| n == "toggle"@
    ||| n == "switch"@
    ||| n == "text-field"@
    ||| n == "input"@
    ||| n == "search-field"@
    ||| n == "textarea"@
    ||| n == "slider"@
    ||| n == "progress"@
    ||| n == "alert"@
    ||| n == "dialog"@
    ||| n == "tabs"@
    ||| n == "list-item"@
    ||| n == "for"@
    ||| n == "if"@
    ||| n == "else"@
    ||| n == "template"@
    ||| n == "use"@
    ||| n == "slot"@
    ||| n == "import"@
}

/// Whether `n` is an attribute that takes a color token.
pub open spec fn spec_is_color_attr(n: Seq<char>) -> bool {
    ||| n == "background"@
    ||| n == "foreground"@
    ||| n == "accent"@
    ||| n == "accent-foreground"@
    ||| n == "border-color"@
    ||| n == "focus-ring"@
}

// ---------------------------------------------------------------------------
// Diagnostic texts.
// ---------------------------------------------------------------------------
#[verifier::opaque]
pub open spec fn unknown_element_msg(name: Seq<char>) -> Seq<char> {
    "unknown element <"@ + name + "> \u{2014} see docs/DESIGN.md for the closed catalog"@
}

#[verifier::opaque]
pub open spec fn for_each_msg(each: Seq<char>) -> Seq<char> {
    "for each=\""@ + each + "\" is not a model field or derived list"@
}

#[verifier::opaque]
pub open spec fn unknown_template_msg(t: Seq<char>) -> Seq<char> {
    "unknown template '"@ + t + "'"@
}

#[verifier::opaque]
pub open spec fn color_msg(raw: Seq<char>) -> Seq<char> {
    "unknown color token '"@ + raw + "'"@
}

#[verifier::opaque]
pub open spec fn radius_msg(raw: Seq<char>) -> Seq<char> {
    "unknown radius token '"@ + raw + "' \u{2014} use sm|md|lg|xl|none"@
}

#[verifier::opaque]
pub open spec fn message_msg(tag: Seq<char>, name: Seq<char>, raw: Seq<char>, m: Seq<char>) -> Seq<
    char,
> {
    "<"@ + tag + " "@ + name + "=\""@ + raw + "\"> names message '"@ + m
        + "', which is not in the core"@
}

#[verifier::opaque]
pub open spec fn binding_msg(name: Seq<char>) -> Seq<char> {
    "unknown binding '"@ + name + "'"@
}

// ---------------------------------------------------------------------------
// What the checker reports.
// ---------------------------------------------------------------------------
/// `done:{h.id}` split into the message tag and the payload expression text.
pub open spec fn spec_split_message(raw: Seq<char>) -> (Seq<char>, Option<Seq<char>>) {
    match find_char(raw, 0, ':') {
        None => (raw, None),
        Some(c) => {
            let rest = raw.subrange(c + 1, raw.len() as int);
            let payload = if rest.len() >= 2 && rest[0] == '{' && rest[rest.len() - 1] == '}' {
                rest.subrange(1, rest.len() - 1)
            } else {
                rest
            };
            (raw.subrange(0, c), Some(payload))
        },
    }
}

/// The errors for the identifier roots `names` of an expression (left to right):
/// every root that is not `payload`, a model key or a locally bound name.
pub open spec fn binding_errs(
    names: Seq<Seq<char>>,
    keys: Seq<Seq<char>>,
    extra: Seq<Seq<char>>,
    line: usize,
    column: usize,
) -> Seq<ErrorView>
    decreases names.len(),
{
    if names.len() == 0 {
        Seq::empty()
    } else {
        let rest = binding_errs(names.drop_last(), keys, extra, line, column);
        let n = names.last();
        if n == "payload"@ || keys.contains(n) || extra.contains(n) {
            rest
        } else {
            rest.push(located(line, column, binding_msg(n)))
        }
    }
}

pub open spec fn expr_errs(
    e: ExprView,
    keys: Seq<Seq<char>>,
    extra: Seq<Seq<char>>,
    line: usize,
    column: usize,
) -> Seq<ErrorView> {
    binding_errs(spec_roots(e), keys, extra, line, column)
}

/// The span the payload of a message attribute is parsed with: the attribute's line and
/// column (the only parts of it the checker reports).
pub open spec fn payload_origin(sp: Span) -> Span {
    Span { start: 0, end: 0, line: sp.line, column: sp.column }
}

/// Errors of an `on-*` attribute: an unknown message tag, and unknown bindings in its payload.
#[verifier::opaque]
pub open spec fn message_errs(
    tag: Seq<char>,
    a: AttributeView,
    raw: Seq<char>,
    keys: Seq<Seq<char>>,
    tags: Seq<Seq<char>>,
    extra: Seq<Seq<char>>,
) -> Seq<ErrorView> {
    let (m, payload) = spec_split_message(raw);
    let e1 = if tags.len() > 0 && !tags.contains(m) {
        seq![located(a.span.line, a.span.column, message_msg(tag, a.name, raw, m))]
    } else {
        Seq::empty()
    };
    let e2 = match payload {
        Some(p) => match spec_parse_expr(p, payload_origin(a.span)) {
            Ok(x) => expr_errs(x, keys, extra, a.span.line, a.span.column),
            Err(_) => Seq::empty(),
        },
        None => Seq::empty(),
    };
    e1 + e2
}

/// Errors of one attribute of element `tag`.
pub open spec fn attr_errs(
    tag: Seq<char>,
    a: AttributeView,
    keys: Seq<Seq<char>>,
    tags: Seq<Seq<char>>,
    extra: Seq<Seq<char>>,
) -> Seq<ErrorView> {
    match a.value {
        AttrValueView::Expr(e) => expr_errs(e, keys, extra, a.span.line, a.span.column),
        AttrValueView::Literal(raw) => {
            let e1 = if spec_is_color_attr(a.name) && spec_token_color(
                spec_tokens_for(Appearance::Light),
                raw,
            ) is None && spec_color_parse(raw) is None {
                seq![located(a.span.line, a.span.column, color_msg(raw))]
            } else {
                Seq::empty()
            };
            let e2 = if a.name == "radius"@ && spec_radius_parse(raw) is None {
                seq![located(a.span.line, a.span.column, radius_msg(raw))]
            } else {
                Seq::empty()
            };
            let e3 = if starts_at(a.name, 0, "on-"@) {
                message_errs(tag, a, raw, keys, tags, extra)
            } else {
                Seq::empty()
            };
            e1 + e2 + e3
        },
    }
}

#[verifier::opaque]
pub open spec fn attrs_errs(
    tag: Seq<char>,
    attrs: Seq<AttributeView>,
    keys: Seq<Seq<char>>,
    tags: Seq<Seq<char>>,
    extra: Seq<Seq<char>>,
) -> Seq<ErrorView>
    decreases attrs.len(),
{
    if attrs.len() == 0 {
        Seq::empty()
    } else {
        attrs_errs(tag, attrs.drop_last(), keys, tags, extra) + attr_errs(
            tag,
            attrs.last(),
            keys,
            tags,
            extra,
        )
    }
}

#[verifier::opaque]
pub open spec fn parts_errs(
    parts: Seq<TextPartView>,
    keys: Seq<Seq<char>>,
    extra: Seq<Seq<char>>,
    line: usize,
    column: usize,
) -> Seq<ErrorView>
    decreases parts.len(),
{
    if parts.len() == 0 {
        Seq::empty()
    } else {
        parts_errs(parts.drop_last(), keys, extra, line, column) + match parts.last() {
            TextPartView::Expr(e) => expr_errs(e, keys, extra, line, column),
            TextPartView::Literal(_) => Seq::empty(),
        }
    }
}

/// The literal text of attribute `name` (an expression value reads as empty).
pub open spec fn lit_attr(attrs: Seq<AttributeView>, name: Seq<char>) -> Option<Seq<char>> {
    match first_attr(attrs, name) {
        Some(a) => Some(
            match a.value {
                AttrValueView::Literal(s) => s,
                AttrValueView::Expr(_) => Seq::empty(),
            },
        ),
        None => None,
    }
}

/// The name a `<for>` binds for its items (`as`, defaulting to `item`).
pub open spec fn for_var(attrs: Seq<AttributeView>) -> Seq<char> {
    match lit_attr(attrs, "as"@) {
        Some(s) => if s.len() > 0 {
            s
        } else {
            "item"@
        },
        None => "item"@,
    }
}

pub open spec fn has_template(templates: Seq<TemplateView>, name: Seq<char>) -> bool {
    exists|i: int| 0 <= i < templates.len() && #[trigger] templates[i].name == name
}

/// The element-level errors of `<name ...>` (before its attributes and children).
#[verifier::opaque]
pub open spec fn tag_errs(
    name: Seq<char>,
    attrs: Seq<AttributeView>,
    span: Span,
    keys: Seq<Seq<char>>,
    extra: Seq<Seq<char>>,
    templates: Seq<TemplateView>,
) -> Seq<ErrorView> {
    let e1 = if !spec_is_element(name) {
        seq![located(span.line, span.column, unknown_element_msg(name))]
    } else {
        Seq::empty()
    };
    let e2 = if name == "for"@ {
        match lit_attr(attrs, "each"@) {
            Some(each) => if each.len() > 0 && !keys.contains(each) && !extra.contains(each) {
                seq![located(span.line, span.column, for_each_msg(each))]
            } else {
                Seq::empty()
            },
            None => Seq::empty(),
        }
    } else {
        Seq::empty()
    };
    let e3 = if name == "use"@ {
        match lit_attr(attrs, "template"@) {
            Some(t) => if !has_template(templates, t) {
                seq![located(span.line, span.column, unknown_template_msg(t))]
            } else {
                Seq::empty()
            },
            None => Seq::empty(),
        }
    } else {
        Seq::empty()
    };
    e1 + e2 + e3
}

/// The names bound inside the children of `<name ...>`.
#[verifier::opaque]
pub open spec fn inner_extra(
    name: Seq<char>,
    attrs: Seq<AttributeView>,
    extra: Seq<Seq<char>>,
) -> Seq<Seq<char>> {
    if name == "for"@ {
        extra.push(for_var(attrs))
    } else {
        extra
    }
}

/// All errors of the nodes `ns`, in document order.
#[verifier::opaque]
pub open spec fn nodes_errs(
    ns: Seq<NodeView>,
    keys: Seq<Seq<char>>,
    tags: Seq<Seq<char>>,
    extra: Seq<Seq<char>>,
    templates: Seq<TemplateView>,
) -> Seq<ErrorView>
    decreases ns,
{
    if ns.len() == 0 {
        Seq::empty()
    } else {
        let last = ns[ns.len() - 1];
        nodes_errs(ns.drop_last(), keys, tags, extra, templates) + match last {
            NodeView::Text { parts, span } => parts_errs(parts, keys, extra, span.line, span.column),
            NodeView::Element { name, attrs, children, span } => {
                proof {
                    assert(decreases_to!(ns => last));
                }
                tag_errs(name, attrs, span, keys, extra, templates) + attrs_errs(
                    name,
                    attrs,
                    keys,
                    tags,
                    extra,
                ) + nodes_errs(children, keys, tags, inner_extra(name, attrs, extra), templates)
            },
        }
    }
}

pub open spec fn arg_names(args: Seq<(Seq<char>, Option<Seq<char>>)>) -> Seq<Seq<char>> {
    args.map_values(|a: (Seq<char>, Option<Seq<char>>)| a.0)
}

pub open spec fn templates_errs(
    ts: Seq<TemplateView>,
    keys: Seq<Seq<char>>,
    tags: Seq<Seq<char>>,
    all: Seq<TemplateView>,
) -> Seq<ErrorView>
    decreases ts.len(),
{
    if ts.len() == 0 {
        Seq::empty()
    } else {
        templates_errs(ts.drop_last(), keys, tags, all) + nodes_errs(
            ts.last().body,
            keys,
            tags,
            arg_names(ts.last().args),
            all,
        )
    }
}

/// Everything `check_document` reports for `doc`: template bodies first (their arguments
/// bound), then the view root.
pub open spec fn spec_check(
    doc: DocumentView,
    keys: Seq<Seq<char>>,
    tags: Seq<Seq<char>>,
) -> Seq<ErrorView> {
    templates_errs(doc.templates, keys, tags, doc.templates) + nodes_errs(
        seq![doc.root],
        keys,
        tags,
        Seq::empty(),
        doc.templates,
    )
}

pub open spec fn errs_view(v: Seq<Error>) -> Seq<ErrorView> {
    v.map_values(|e: Error| e@)
}

// ---------------------------------------------------------------------------
// The checker.
// ---------------------------------------------------------------------------
/// A check diagnostic. `errors` fail `nativum check`; `warnings` do not.
#[derive(Clone, Debug)]
pub struct CheckReport {
    /// Hard errors.
    pub errors: Vec<Error>,
    /// Teaching warnings.
    pub warnings: Vec<String>,
}

impl CheckReport {
    /// True when no errors were recorded.
    pub fn ok(&self) -> (r: bool)
        ensures
            r == (self.errors@.len() == 0),
    {
        self.errors.len() == 0
    }
}

impl Default for CheckReport {
    fn default() -> (r: Self)
        ensures
            r.errors@.len() == 0,
            r.warnings@.len() == 0,
    {
        CheckReport { errors: Vec::new(), warnings: Vec::new() }
    }
}

/// The byte length of `s`.
/// Trusted: `str::len` returns the length of the string in bytes, as its documentation states
/// (which is the sum of the characters' UTF-8 widths, and as a `usize` fits the machine).
#[verifier::external_body]
fn str_byte_len(s: &str) -> (n: usize)
    ensures
        n as nat == utf8_len(s@),
{
    s.len()
}

/// Whether `name` is in the closed element catalog.
pub fn is_element(name: &str) -> (r: bool)
    ensures
        r == spec_is_element(name@),
{
    str_eq(name, "row") || str_eq(name, "column") || str_eq(name, "stack") || str_eq(name, "panel")
        || str_eq(name, "card") || str_eq(name, "scroll") || str_eq(name, "list") || str_eq(
        name,
        "grid",
    ) || str_eq(name, "spacer") || str_eq(name, "separator") || str_eq(name, "text") || str_eq(
        name,
        "span",
    ) || str_eq(name, "badge") || str_eq(name, "status-bar") || str_eq(name, "button") || str_eq(
        name,
        "toggle-button",
    ) || str_eq(name, "checkbox") || str_eq(name, "radio") || str_eq(name, "radio-group")
        || str_eq(name, "toggle") || str_eq(name, "switch") || str_eq(name, "text-field") || str_eq(
        name,
        "input",
    ) || str_eq(name, "search-field") || str_eq(name, "textarea") || str_eq(name, "slider")
        || str_eq(name, "progress") || str_eq(name, "alert") || str_eq(name, "dialog") || str_eq(
        name,
        "tabs",
    ) || str_eq(name, "list-item") || str_eq(name, "for") || str_eq(name, "if") || str_eq(
        name,
        "else",
    ) || str_eq(name, "template") || str_eq(name, "use") || str_eq(name, "slot") || str_eq(
        name,
        "import",
    )
}

fn is_color_attr(name: &str) -> (r: bool)
    ensures
        r == spec_is_color_attr(name@),
{
    str_eq(name, "background") || str_eq(name, "foreground") || str_eq(name, "accent") || str_eq(
        name,
        "accent-foreground",
    ) || str_eq(name, "border-color") || str_eq(name, "focus-ring")
}

/// Whether `name` is one of `v`.
fn contains_name(v: &Vec<String>, name: &str) -> (r: bool)
    ensures
        r == strings_view(v@).contains(name@),
{
    let mut i: usize = 0;
    while i < v.len()
        invariant
            i <= v.len(),
            forall|k: int| 0 <= k < i ==> v@[k]@ != name@,
        decreases v.len() - i,
    {
        if str_eq(v[i].as_str(), name) {
            assert(strings_view(v@)[i as int] == name@);
            return true;
        }
        i += 1;
    }
    assert(!strings_view(v@).contains(name@)) by {
        if strings_view(v@).contains(name@) {
            let k = choose|k: int| 0 <= k < strings_view(v@).len() && strings_view(v@)[k] == name@;
            assert(v@[k]@ == name@);
        }
    }
    false
}

fn unknown_element_message(name: &str) -> (m: String)
    ensures
        m@ == unknown_element_msg(name@),
{
    reveal(unknown_element_msg);
    let mut m = lit("unknown element <");
    push_str(&mut m, name);
    push_str(&mut m, "> \u{2014} see docs/DESIGN.md for the closed catalog");
    m
}

fn for_each_message(each: &str) -> (m: String)
    ensures
        m@ == for_each_msg(each@),
{
    reveal(for_each_msg);
    let mut m = lit("for each=\"");
    push_str(&mut m, each);
    push_str(&mut m, "\" is not a model field or derived list");
    m
}

fn unknown_template_message(t: &str) -> (m: String)
    ensures
        m@ == unknown_template_msg(t@),
{
    reveal(unknown_template_msg);
    let mut m = lit("unknown template '");
    push_str(&mut m, t);
    push_str(&mut m, "'");
    m
}

fn color_message(raw: &str) -> (m: String)
    ensures
        m@ == color_msg(raw@),
{
    reveal(color_msg);
    let mut m = lit("unknown color token '");
    push_str(&mut m, raw);
    push_str(&mut m, "'");
    m
}

fn radius_message(raw: &str) -> (m: String)
    ensures
        m@ == radius_msg(raw@),
{
    reveal(radius_msg);
    let mut m = lit("unknown radius token '");
    push_str(&mut m, raw);
    push_str(&mut m, "' \u{2014} use sm|md|lg|xl|none");
    m
}

fn message_message(tag: &str, name: &str, raw: &str, msg: &str) -> (m: String)
    ensures
        m@ == message_msg(tag@, name@, raw@, msg@),
{
    reveal(message_msg);
    let mut m = lit("<");
    push_str(&mut m, tag);
    push_str(&mut m, " ");
    push_str(&mut m, name);
    push_str(&mut m, "=\"");
    push_str(&mut m, raw);
    push_str(&mut m, "\"> names message '");
    push_str(&mut m, msg);
    push_str(&mut m, "', which is not in the core");
    m
}

fn binding_message(name: &str) -> (m: String)
    ensures
        m@ == binding_msg(name@),
{
    reveal(binding_msg);
    let mut m = lit("unknown binding '");
    push_str(&mut m, name);
    push_str(&mut m, "'");
    m
}

fn push_error(report: &mut CheckReport, line: usize, column: usize, msg: String)
    ensures
        errs_view(final(report).errors@) == errs_view(old(report).errors@).push(
            located(line, column, msg@),
        ),
        final(report).warnings@ == old(report).warnings@,
{
    let ghost e0 = report.errors@;
    let e = Error::at_string(line, column, msg);
    report.errors.push(e);
    assert(errs_view(report.errors@) =~= errs_view(e0).push(located(line, column, msg@)));
}

/// Report every identifier root of `expr` that is not bound.
fn check_expr(
    expr: &Expr,
    keys: &Vec<String>,
    extra: &Vec<String>,
    report: &mut CheckReport,
    line: usize,
    column: usize,
)
    ensures
        errs_view(final(report).errors@) == errs_view(old(report).errors@) + expr_errs(
            expr@,
            strings_view(keys@),
            strings_view(extra@),
            line,
            column,
        ),
        final(report).warnings@ == old(report).warnings@,
{
    let mut roots: Vec<String> = Vec::new();
    expr.root_idents(&mut roots);
    let ghost names = strings_view(roots@);
    assert(strings_view(roots@) =~= Seq::<Seq<char>>::empty() + spec_roots(expr@));
    let ghost e0 = errs_view(report.errors@);
    let ghost w0 = report.warnings@;
    let ghost kv = strings_view(keys@);
    let ghost xv = strings_view(extra@);
    let mut i: usize = 0;
    assert(names.take(0) =~= Seq::<Seq<char>>::empty());
    while i < roots.len()
        invariant
            i <= roots.len(),
            names == strings_view(roots@),
            names == spec_roots(expr@),
            kv == strings_view(keys@),
            xv == strings_view(extra@),
            report.warnings@ == w0,
            errs_view(report.errors@) == e0 + binding_errs(names.take(i as int), kv, xv, line, column),
        decreases roots.len() - i,
    {
        let name = roots[i].as_str();
        assert(names.take(i + 1).drop_last() =~= names.take(i as int));
        assert(names.take(i + 1).last() == name@);
        if !str_eq(name, "payload") && !contains_name(keys, name) && !contains_name(extra, name) {
            let msg = binding_message(name);
            push_error(report, line, column, msg);
            assert(e0 + binding_errs(names.take(i as int), kv, xv, line, column).push(
                located(line, column, binding_msg(name@)),
            ) =~= e0 + binding_errs(names.take(i + 1), kv, xv, line, column));
        }
        i += 1;
    }
    assert(names.take(i as int) =~= names);
}

pub open spec fn opt_str_view(o: Option<&str>) -> Option<Seq<char>> {
    match o {
        Some(p) => Some(p@),
        None => None,
    }
}

pub open spec fn opt_string_view(o: Option<String>) -> Option<Seq<char>> {
    match o {
        Some(p) => Some(p@),
        None => None,
    }
}

/// Split `done:{h.id}` into (`done`, Some(`h.id`)).
pub fn split_message_spec(raw: &str) -> (r: (&str, Option<&str>))
    ensures
        (r.0@, opt_str_view(r.1)) == spec_split_message(raw@),
{
    let v = chars_of(raw);
    match find_char_from(v.as_slice(), 0, ':') {
        None => (raw, None),
        Some(c) => {
            let n = v.len();
            let tag = raw.substring_char(0, c);
            let ghost rest = raw@.subrange(c + 1, n as int);
            if n - (c + 1) >= 2 && v[c + 1] == '{' && v[n - 1] == '}' {
                assert(raw@.subrange(c + 2, n - 1) =~= rest.subrange(1, rest.len() - 1));
                (tag, Some(raw.substring_char(c + 2, n - 1)))
            } else {
                (tag, Some(raw.substring_char(c + 1, n)))
            }
        },
    }
}

/// The literal text of attribute `name`, if the element has one.
fn literal_attr(attrs: &Vec<Attribute>, name: &str) -> (r: Option<String>)
    ensures
        opt_string_view(r) == lit_attr(attr_views(attrs@), name@),
{
    let key = chars_of(name);
    match find_attr(attrs, key.as_slice()) {
        Some(k) => match &attrs[k].value {
            AttrValue::Literal(s) => Some(copy_string(s)),
            AttrValue::Expr(_) => Some(String::new()),
        },
        None => None,
    }
}

fn has_template_named(templates: &Vec<Template>, name: &str) -> (r: bool)
    ensures
        r == has_template(template_views(templates@), name@),
{
    let ghost tv = template_views(templates@);
    let mut i: usize = 0;
    while i < templates.len()
        invariant
            i <= templates.len(),
            tv == template_views(templates@),
            forall|k: int| 0 <= k < i ==> tv[k].name != name@,
        decreases templates.len() - i,
    {
        if str_eq(templates[i].name.as_str(), name) {
            assert(tv[i as int].name == name@);
            return true;
        }
        i += 1;
    }
    false
}

/// A copy of the names `v`.
fn copy_names(v: &Vec<String>) -> (r: Vec<String>)
    ensures
        strings_view(r@) == strings_view(v@),
{
    let mut r: Vec<String> = Vec::new();
    let mut i: usize = 0;
    while i < v.len()
        invariant
            i <= v.len(),
            strings_view(r@) == strings_view(v@).take(i as int),
        decreases v.len() - i,
    {
        let ghost r0 = r@;
        r.push(copy_string(&v[i]));
        assert(strings_view(r@) =~= strings_view(r0).push(v@[i as int]@));
        assert(strings_view(v@).take(i + 1) =~= strings_view(v@).take(i as int).push(
            v@[i as int]@,
        ));
        i += 1;
    }
    assert(strings_view(v@).take(i as int) =~= strings_view(v@));
    r
}

fn check_message(
    tag: &str,
    attr: &Attribute,
    raw: &str,
    keys: &Vec<String>,
    tags: &Vec<String>,
    extra: &Vec<String>,
    report: &mut CheckReport,
)
    ensures
        errs_view(final(report).errors@) == errs_view(old(report).errors@) + message_errs(
            tag@,
            attr@,
            raw@,
            strings_view(keys@),
            strings_view(tags@),
            strings_view(extra@),
        ),
        final(report).warnings@ == old(report).warnings@,
{
    reveal(message_errs);
    let ghost e0 = errs_view(report.errors@);
    let line = attr.span.line;
    let column = attr.span.column;
    let (m, payload) = split_message_spec(raw);
    if tags.len() > 0 && !contains_name(tags, m) {
        push_error(report, line, column, message_message(tag, attr.name.as_str(), raw, m));
    }
    match payload {
        Some(p) => {
            let n = str_byte_len(p);
            let origin = Span { start: 0, end: 0, line, column };
            match parse_expr(p, origin) {
                Ok(x) => {
                    check_expr(&x, keys, extra, report, line, column);
                },
                Err(_) => {},
            }
        },
        None => {},
    }
    assert(errs_view(report.errors@) =~= e0 + message_errs(
        tag@,
        attr@,
        raw@,
        strings_view(keys@),
        strings_view(tags@),
        strings_view(extra@),
    ));
}

fn check_attr(
    tag: &str,
    attr: &Attribute,
    keys: &Vec<String>,
    tags: &Vec<String>,
    extra: &Vec<String>,
    report: &mut CheckReport,
)
    ensures
        errs_view(final(report).errors@) == errs_view(old(report).errors@) + attr_errs(
            tag@,
            attr@,
            strings_view(keys@),
            strings_view(tags@),
            strings_view(extra@),
        ),
        final(report).warnings@ == old(report).warnings@,
{
    let ghost e0 = errs_view(report.errors@);
    let line = attr.span.line;
    let column = attr.span.column;
    match &attr.value {
        AttrValue::Expr(e) => {
            check_expr(e, keys, extra, report, line, column);
        },
        AttrValue::Literal(raw) => {
            let rs = raw.as_str();
            let name = attr.name.as_str();
            let bad_color = is_color_attr(name) && tokens_for(Appearance::Light).color(rs).is_none()
                && Color::parse(rs).is_none();
            if bad_color {
                push_error(report, line, column, color_message(rs));
            }
            let bad_radius = str_eq(name, "radius") && RadiusToken::parse(rs).is_none();
            if bad_radius {
                push_error(report, line, column, radius_message(rs));
            }
            let nv = chars_of(name);
            let on = chars_of("on-");
            let is_message = starts_with_at(nv.as_slice(), 0, on.as_slice());
            if is_message {
                check_message(tag, attr, rs, keys, tags, extra, report);
            }
            assert(errs_view(report.errors@) =~= e0 + attr_errs(
                tag@,
                attr@,
                strings_view(keys@),
                strings_view(tags@),
                strings_view(extra@),
            ));
        },
    }
}

/// Appending one node to a sequence appends its errors.
proof fn lemma_nodes_errs_push(
    s: Seq<NodeView>,
    x: NodeView,
    keys: Seq<Seq<char>>,
    tags: Seq<Seq<char>>,
    extra: Seq<Seq<char>>,
    templates: Seq<TemplateView>,
)
    ensures
        nodes_errs(s.push(x), keys, tags, extra, templates) == nodes_errs(s, keys, tags, extra, templates)
            + nodes_errs(seq![x], keys, tags, extra, templates),
{
    reveal(nodes_errs);
    assert(s.push(x).drop_last() =~= s);
    assert(seq![x].drop_last() =~= Seq::<NodeView>::empty());
    assert(nodes_errs(Seq::<NodeView>::empty(), keys, tags, extra, templates) =~= Seq::empty());
    assert(Seq::<ErrorView>::empty() + nodes_errs(seq![x], keys, tags, extra, templates)
        =~= nodes_errs(seq![x], keys, tags, extra, templates));
}

/// The errors of one node: those of its text parts, or those of its tag, its attributes and
/// its children.
pub proof fn lemma_nodes_errs_single(
    x: NodeView,
    keys: Seq<Seq<char>>,
    tags: Seq<Seq<char>>,
    extra: Seq<Seq<char>>,
    templates: Seq<TemplateView>,
)
    ensures
        nodes_errs(seq![x], keys, tags, extra, templates) == match x {
            NodeView::Text { parts, span } => parts_errs(parts, keys, extra, span.line, span.column),
            NodeView::Element { name, attrs, children, span } => tag_errs(
                name,
                attrs,
                span,
                keys,
                extra,
                templates,
            ) + attrs_errs(name, attrs, keys, tags, extra) + nodes_errs(
                children,
                keys,
                tags,
                inner_extra(name, attrs, extra),
                templates,
            ),
        },
{
    reveal(nodes_errs);
    assert(seq![x].drop_last() =~= Seq::<NodeView>::empty());
    assert(nodes_errs(Seq::<NodeView>::empty(), keys, tags, extra, templates) =~= Seq::empty());
    assert(seq![x][0] == x);
    let r = nodes_errs(seq![x], keys, tags, extra, templates);
    assert(r =~= Seq::<ErrorView>::empty() + (match x {
        NodeView::Text { parts, span } => parts_errs(parts, keys, extra, span.line, span.column),
        NodeView::Element { name, attrs, children, span } => tag_errs(
            name,
            attrs,
            span,
            keys,
            extra,
            templates,
        ) + attrs_errs(name, attrs, keys, tags, extra) + nodes_errs(
            children,
            keys,
            tags,
            inner_extra(name, attrs, extra),
            templates,
        ),
    }));
}

fn check_parts(
    parts: &Vec<TextPart>,
    span: Span,
    keys: &Vec<String>,
    extra: &Vec<String>,
    report: &mut CheckReport,
)
    ensures
        errs_view(final(report).errors@) == errs_view(old(report).errors@) + parts_errs(
            part_views(parts@),
            strings_view(keys@),
            strings_view(extra@),
            span.line,
            span.column,
        ),
        final(report).warnings@ == old(report).warnings@,
{
    reveal(parts_errs);
    let ghost e0 = errs_view(report.errors@);
    let ghost w0 = report.warnings@;
    let ghost kv = strings_view(keys@);
    let ghost xv = strings_view(extra@);
    let ghost pv = part_views(parts@);
    let mut i: usize = 0;
    assert(pv.take(0) =~= Seq::<TextPartView>::empty());
    while i < parts.len()
        invariant
            i <= parts.len(),
            pv == part_views(parts@),
            kv == strings_view(keys@),
            xv == strings_view(extra@),
            report.warnings@ == w0,
            errs_view(report.errors@) == e0 + parts_errs(
                pv.take(i as int),
                kv,
                xv,
                span.line,
                span.column,
            ),
        decreases parts.len() - i,
    {
        reveal(parts_errs);
        assert(pv.take(i + 1).drop_last() =~= pv.take(i as int));
        assert(pv.take(i + 1).last() == parts@[i as int]@);
        match &parts[i] {
            TextPart::Expr(e) => {
                check_expr(e, keys, extra, report, span.line, span.column);
            },
            TextPart::Literal(_) => {},
        }
        assert(errs_view(report.errors@) =~= e0 + parts_errs(
            pv.take(i + 1),
            kv,
            xv,
            span.line,
            span.column,
        ));
        i += 1;
    }
    assert(pv.take(i as int) =~= pv);
}

/// The tag-level checks of an element; returns the names bound inside it.
fn check_tag(
    name: &str,
    attrs: &Vec<Attribute>,
    span: Span,
    keys: &Vec<String>,
    extra: &Vec<String>,
    templates: &Vec<Template>,
    report: &mut CheckReport,
) -> (next: Vec<String>)
    ensures
        errs_view(final(report).errors@) == errs_view(old(report).errors@) + tag_errs(
            name@,
            attr_views(attrs@),
            span,
            strings_view(keys@),
            strings_view(extra@),
            template_views(templates@),
        ),
        final(report).warnings@ == old(report).warnings@,
        strings_view(next@) == inner_extra(name@, attr_views(attrs@), strings_view(extra@)),
{
    reveal(tag_errs);
    reveal(inner_extra);
    let ghost e0 = errs_view(report.errors@);
    if !is_element(name) {
        push_error(report, span.line, span.column, unknown_element_message(name));
    }
    let ghost e1 = errs_view(report.errors@);
    let mut next_extra = copy_names(extra);
    if str_eq(name, "for") {
        let as_name = match literal_attr(attrs, "as") {
            Some(s) => if chars_of(s.as_str()).len() > 0 {
                s
            } else {
                lit("item")
            },
            None => lit("item"),
        };
        let ghost x0 = next_extra@;
        let ghost asv = as_name@;
        next_extra.push(as_name);
        assert(strings_view(next_extra@) =~= strings_view(x0).push(asv));
        match literal_attr(attrs, "each") {
            Some(each) => {
                if chars_of(each.as_str()).len() > 0 && !contains_name(keys, each.as_str())
                    && !contains_name(extra, each.as_str()) {
                    push_error(report, span.line, span.column, for_each_message(each.as_str()));
                }
            },
            None => {},
        }
    }
    let ghost e2 = errs_view(report.errors@);
    if str_eq(name, "use") {
        match literal_attr(attrs, "template") {
            Some(t) => {
                if !has_template_named(templates, t.as_str()) {
                    push_error(report, span.line, span.column, unknown_template_message(t.as_str()));
                }
            },
            None => {},
        }
    }
    assert(errs_view(report.errors@) =~= e0 + tag_errs(
        name@,
        attr_views(attrs@),
        span,
        strings_view(keys@),
        strings_view(extra@),
        template_views(templates@),
    ));
    next_extra
}

fn check_attrs(
    name: &str,
    attrs: &Vec<Attribute>,
    keys: &Vec<String>,
    tags: &Vec<String>,
    extra: &Vec<String>,
    report: &mut CheckReport,
)
    ensures
        errs_view(final(report).errors@) == errs_view(old(report).errors@) + attrs_errs(
            name@,
            attr_views(attrs@),
            strings_view(keys@),
            strings_view(tags@),
            strings_view(extra@),
        ),
        final(report).warnings@ == old(report).warnings@,
{
    reveal(attrs_errs);
    let ghost e1 = errs_view(report.errors@);
    let ghost w0 = report.warnings@;
    let ghost av = attr_views(attrs@);
    let ghost kv = strings_view(keys@);
    let ghost tv = strings_view(tags@);
    let ghost xv = strings_view(extra@);
    let mut i: usize = 0;
    assert(av.take(0) =~= Seq::<AttributeView>::empty());
    while i < attrs.len()
        invariant
            i <= attrs.len(),
            av == attr_views(attrs@),
            kv == strings_view(keys@),
            tv == strings_view(tags@),
            xv == strings_view(extra@),
            report.warnings@ == w0,
            errs_view(report.errors@) == e1 + attrs_errs(name@, av.take(i as int), kv, tv, xv),
        decreases attrs.len() - i,
    {
        reveal(attrs_errs);
        assert(av.take(i + 1).drop_last() =~= av.take(i as int));
        assert(av.take(i + 1).last() == attrs@[i as int]@);
        check_attr(name, &attrs[i], keys, tags, extra, report);
        assert(errs_view(report.errors@) =~= e1 + attrs_errs(name@, av.take(i + 1), kv, tv, xv));
        i += 1;
    }
    assert(av.take(i as int) =~= av);
}

/// Check one node and its subtree.
fn walk_node(
    n: &Node,
    keys: &Vec<String>,
    tags: &Vec<String>,
    extra: &Vec<String>,
    templates: &Vec<Template>,
    report: &mut CheckReport,
)
    ensures
        errs_view(final(report).errors@) == errs_view(old(report).errors@) + nodes_errs(
            seq![n@],
            strings_view(keys@),
            strings_view(tags@),
            strings_view(extra@),
            template_views(templates@),
        ),
        final(report).warnings@ == old(report).warnings@,
    decreases n,
{
    let ghost e0 = errs_view(report.errors@);
    let ghost kv = strings_view(keys@);
    let ghost tv = strings_view(tags@);
    let ghost xv = strings_view(extra@);
    let ghost tmv = template_views(templates@);
    proof {
        lemma_nodes_errs_single(n@, kv, tv, xv, tmv);
    }
    match n {
        Node::Text { parts, span } => {
            check_parts(parts, *span, keys, extra, report);
        },
        Node::Element { name, attrs, children, span } => {
            let next_extra = check_tag(name.as_str(), attrs, *span, keys, extra, templates, report);
            check_attrs(name.as_str(), attrs, keys, tags, extra, report);
            proof {
                assert(decreases_to!(*n => *children));
            }
            walk(children, keys, tags, &next_extra, templates, report);
            assert(errs_view(report.errors@) =~= e0 + nodes_errs(seq![n@], kv, tv, xv, tmv));
        },
    }
}

/// Check the nodes `nodes` and their subtrees, in order.
#[verifier::loop_isolation(false)]
fn walk(
    nodes: &Vec<Node>,
    keys: &Vec<String>,
    tags: &Vec<String>,
    extra: &Vec<String>,
    templates: &Vec<Template>,
    report: &mut CheckReport,
)
    ensures
        errs_view(final(report).errors@) == errs_view(old(report).errors@) + nodes_errs(
            node_views(nodes@),
            strings_view(keys@),
            strings_view(tags@),
            strings_view(extra@),
            template_views(templates@),
        ),
        final(report).warnings@ == old(report).warnings@,
    decreases nodes,
{
    let ghost e0 = errs_view(report.errors@);
    let ghost w0 = report.warnings@;
    let ghost kv = strings_view(keys@);
    let ghost tv = strings_view(tags@);
    let ghost xv = strings_view(extra@);
    let ghost tmv = template_views(templates@);
    let ghost nv = node_views(nodes@);
    proof {
        lemma_node_views(nodes@);
        reveal(nodes_errs);
        assert(nv.take(0) =~= Seq::<NodeView>::empty());
    }
    let mut i: usize = 0;
    while i < nodes.len()
        invariant
            i <= nodes.len(),
            nv == node_views(nodes@),
            nv.len() == nodes@.len(),
            forall|k: int| 0 <= k < nodes@.len() ==> #[trigger] nv[k] == nodes@[k]@,
            report.warnings@ == w0,
            errs_view(report.errors@) == e0 + nodes_errs(nv.take(i as int), kv, tv, xv, tmv),
        decreases nodes.len() - i,
    {
        proof {
            assert(decreases_to!(*nodes => nodes@));
            assert(decreases_to!(nodes@ => nodes@[i as int]));
            lemma_nodes_errs_push(nv.take(i as int), nv[i as int], kv, tv, xv, tmv);
            assert(nv.take(i + 1) =~= nv.take(i as int).push(nv[i as int]));
        }
        walk_node(&nodes[i], keys, tags, extra, templates, report);
        i += 1;
    }
    assert(nv.take(i as int) =~= nv);
}

/// The names declared by template arguments.
fn arg_name_list(args: &Vec<(String, Option<String>)>) -> (r: Vec<String>)
    ensures
        strings_view(r@) == arg_names(arg_views(args@)),
{
    let mut r: Vec<String> = Vec::new();
    let mut i: usize = 0;
    while i < args.len()
        invariant
            i <= args.len(),
            strings_view(r@) == arg_names(arg_views(args@)).take(i as int),
        decreases args.len() - i,
    {
        let ghost r0 = r@;
        r.push(copy_string(&args[i].0));
        assert(strings_view(r@) =~= strings_view(r0).push(args@[i as int].0@));
        assert(arg_names(arg_views(args@)).take(i + 1) =~= arg_names(arg_views(args@)).take(
            i as int,
        ).push(args@[i as int].0@));
        i += 1;
    }
    assert(arg_names(arg_views(args@)).take(i as int) =~= arg_names(arg_views(args@)));
    r
}

/// Check `doc` against model field names (and derived names) and message tags. Both lists
/// are read as sets: only which names they hold matters (`law_check_depends_on_name_sets`).
pub fn check_document(doc: &Document, model_keys: &Vec<String>, message_tags: &Vec<String>) -> (r:
    CheckReport)
    ensures
        errs_view(r.errors@) == spec_check(
            doc@,
            strings_view(model_keys@),
            strings_view(message_tags@),
        ),
        r.warnings@.len() == 0,
{
    let mut report = CheckReport { errors: Vec::new(), warnings: Vec::new() };
    let ghost kv = strings_view(model_keys@);
    let ghost tv = strings_view(message_tags@);
    let ghost all = template_views(doc.templates@);
    let mut j: usize = 0;
    assert(errs_view(report.errors@) =~= Seq::<ErrorView>::empty());
    assert(all.take(0) =~= Seq::<TemplateView>::empty());
    while j < doc.templates.len()
        invariant
            j <= doc.templates.len(),
            all == template_views(doc.templates@),
            kv == strings_view(model_keys@),
            tv == strings_view(message_tags@),
            report.warnings@.len() == 0,
            errs_view(report.errors@) == templates_errs(all.take(j as int), kv, tv, all),
        decreases doc.templates.len() - j,
    {
        let t = &doc.templates[j];
        let names = arg_name_list(&t.args);
        walk(&t.body, model_keys, message_tags, &names, &doc.templates, &mut report);
        assert(all.take(j + 1).drop_last() =~= all.take(j as int));
        assert(all[j as int] == t@);
        assert(all.take(j + 1).last() == t@);
        assert(templates_errs(all.take(j + 1), kv, tv, all) == templates_errs(
            all.take(j as int),
            kv,
            tv,
            all,
        ) + nodes_errs(t@.body, kv, tv, arg_names(t@.args), all));
        j += 1;
    }
    assert(all.take(j as int) =~= all);
    let empty: Vec<String> = Vec::new();
    assert(strings_view(empty@) =~= Seq::<Seq<char>>::empty());
    walk_node(&doc.root, model_keys, message_tags, &empty, &doc.templates, &mut report);
    report
}

// ---------------------------------------------------------------------------
// Laws: what `check_document` is guaranteed to report.
// ---------------------------------------------------------------------------
/// Whether node `x` occurs in the forest `ns` (at any depth).
pub open spec fn occurs(x: NodeView, ns: Seq<NodeView>) -> bool
    decreases ns,
{
    if ns.len() == 0 {
        false
    } else {
        let last = ns[ns.len() - 1];
        ||| occurs(x, ns.drop_last())
        ||| x == last
        ||| match last {
            NodeView::Element { children, .. } => {
                proof {
                    assert(decreases_to!(ns => last));
                }
                occurs(x, children)
            },
            NodeView::Text { .. } => false,
        }
    }
}

proof fn lemma_nodes_errs_split(
    ns: Seq<NodeView>,
    keys: Seq<Seq<char>>,
    tags: Seq<Seq<char>>,
    extra: Seq<Seq<char>>,
    templates: Seq<TemplateView>,
)
    requires
        ns.len() > 0,
    ensures
        nodes_errs(ns, keys, tags, extra, templates) == nodes_errs(
            ns.drop_last(),
            keys,
            tags,
            extra,
            templates,
        ) + nodes_errs(seq![ns[ns.len() - 1]], keys, tags, extra, templates),
{
    assert(ns =~= ns.drop_last().push(ns[ns.len() - 1]));
    lemma_nodes_errs_push(ns.drop_last(), ns[ns.len() - 1], keys, tags, extra, templates);
}

proof fn lemma_contains_concat<A>(a: Seq<A>, b: Seq<A>, x: A)
    requires
        a.contains(x) || b.contains(x),
    ensures
        (a + b).contains(x),
{
    if a.contains(x) {
        let i = choose|i: int| 0 <= i < a.len() && a[i] == x;
        assert((a + b)[i] == x);
    } else {
        let i = choose|i: int| 0 <= i < b.len() && b[i] == x;
        assert((a + b)[a.len() + i] == x);
    }
}

/// The errors an element contributes itself (tag and attributes), with `extra` bound.
pub open spec fn element_local_errs(
    x: NodeView,
    keys: Seq<Seq<char>>,
    tags: Seq<Seq<char>>,
    extra: Seq<Seq<char>>,
    templates: Seq<TemplateView>,
) -> Seq<ErrorView> {
    tag_errs(x->name, x->attrs, x->Element_span, keys, extra, templates) + attrs_errs(
        x->name,
        x->attrs,
        keys,
        tags,
        extra,
    )
}

/// An error that an element of the forest raises itself, whatever names are bound around it,
/// is reported.
pub proof fn lemma_element_error_reported(
    ns: Seq<NodeView>,
    x: NodeView,
    err: ErrorView,
    keys: Seq<Seq<char>>,
    tags: Seq<Seq<char>>,
    extra: Seq<Seq<char>>,
    templates: Seq<TemplateView>,
)
    requires
        occurs(x, ns),
        x is Element,
        forall|e: Seq<Seq<char>>| #[trigger]
            element_local_errs(x, keys, tags, e, templates).contains(err),
    ensures
        nodes_errs(ns, keys, tags, extra, templates).contains(err),
    decreases ns,
{
    let last = ns[ns.len() - 1];
    lemma_nodes_errs_split(ns, keys, tags, extra, templates);
    lemma_nodes_errs_single(last, keys, tags, extra, templates);
    let head = nodes_errs(ns.drop_last(), keys, tags, extra, templates);
    let tail = nodes_errs(seq![last], keys, tags, extra, templates);
    if occurs(x, ns.drop_last()) {
        lemma_element_error_reported(ns.drop_last(), x, err, keys, tags, extra, templates);
        lemma_contains_concat(head, tail, err);
    } else if x == last {
        let local = element_local_errs(x, keys, tags, extra, templates);
        assert(local.contains(err));
        lemma_contains_concat(
            local,
            nodes_errs(x->children, keys, tags, inner_extra(x->name, x->attrs, extra), templates),
            err,
        );
        lemma_contains_concat(head, tail, err);
    } else {
        match last {
            NodeView::Element { name, attrs, children, span } => {
                assert(decreases_to!(ns => last));
                let inner = inner_extra(name, attrs, extra);
                lemma_element_error_reported(children, x, err, keys, tags, inner, templates);
                let te = tag_errs(name, attrs, span, keys, extra, templates) + attrs_errs(
                    name,
                    attrs,
                    keys,
                    tags,
                    extra,
                );
                lemma_contains_concat(te, nodes_errs(children, keys, tags, inner, templates), err);
                lemma_contains_concat(head, tail, err);
            },
            NodeView::Text { .. } => {},
        }
    }
}

/// Whether node `x` occurs in the document: in the view tree or in a template body.
pub open spec fn occurs_in_doc(x: NodeView, doc: DocumentView) -> bool {
    ||| occurs(x, seq![doc.root])
    ||| exists|i: int|
        #![trigger doc.templates[i]]
        0 <= i < doc.templates.len() && occurs(x, doc.templates[i].body)
}

proof fn lemma_template_element_error_reported(
    ts: Seq<TemplateView>,
    i: int,
    x: NodeView,
    err: ErrorView,
    keys: Seq<Seq<char>>,
    tags: Seq<Seq<char>>,
    all: Seq<TemplateView>,
)
    requires
        0 <= i < ts.len(),
        occurs(x, ts[i].body),
        x is Element,
        forall|e: Seq<Seq<char>>| #[trigger] element_local_errs(x, keys, tags, e, all).contains(err),
    ensures
        templates_errs(ts, keys, tags, all).contains(err),
    decreases ts.len(),
{
    let head = templates_errs(ts.drop_last(), keys, tags, all);
    let tail = nodes_errs(ts.last().body, keys, tags, arg_names(ts.last().args), all);
    if i < ts.len() - 1 {
        assert(ts.drop_last()[i] == ts[i]);
        lemma_template_element_error_reported(ts.drop_last(), i, x, err, keys, tags, all);
    } else {
        lemma_element_error_reported(ts[i].body, x, err, keys, tags, arg_names(ts[i].args), all);
    }
    lemma_contains_concat(head, tail, err);
}

/// An error that an element of the document raises itself, whatever names are bound around
/// it, is reported by the check, wherever the element stands.
proof fn lemma_doc_element_error_reported(
    doc: DocumentView,
    x: NodeView,
    err: ErrorView,
    keys: Seq<Seq<char>>,
    tags: Seq<Seq<char>>,
)
    requires
        occurs_in_doc(x, doc),
        x is Element,
        forall|e: Seq<Seq<char>>| #[trigger]
            element_local_errs(x, keys, tags, e, doc.templates).contains(err),
    ensures
        spec_check(doc, keys, tags).contains(err),
{
    let te = templates_errs(doc.templates, keys, tags, doc.templates);
    let re = nodes_errs(seq![doc.root], keys, tags, Seq::empty(), doc.templates);
    if occurs(x, seq![doc.root]) {
        lemma_element_error_reported(
            seq![doc.root],
            x,
            err,
            keys,
            tags,
            Seq::empty(),
            doc.templates,
        );
    } else {
        let i = choose|i: int|
            #![trigger doc.templates[i]]
            0 <= i < doc.templates.len() && occurs(x, doc.templates[i].body);
        lemma_template_element_error_reported(doc.templates, i, x, err, keys, tags, doc.templates);
    }
    lemma_contains_concat(te, re, err);
}

/// The errors of an attribute are among those of the attribute list holding it.
proof fn lemma_attr_errs_in_attrs(
    tag: Seq<char>,
    attrs: Seq<AttributeView>,
    k: int,
    err: ErrorView,
    keys: Seq<Seq<char>>,
    tags: Seq<Seq<char>>,
    extra: Seq<Seq<char>>,
)
    requires
        0 <= k < attrs.len(),
        attr_errs(tag, attrs[k], keys, tags, extra).contains(err),
    ensures
        attrs_errs(tag, attrs, keys, tags, extra).contains(err),
    decreases attrs.len(),
{
    reveal(attrs_errs);
    let head = attrs_errs(tag, attrs.drop_last(), keys, tags, extra);
    let tail = attr_errs(tag, attrs.last(), keys, tags, extra);
    if k < attrs.len() - 1 {
        assert(attrs.drop_last()[k] == attrs[k]);
        lemma_attr_errs_in_attrs(tag, attrs.drop_last(), k, err, keys, tags, extra);
    }
    lemma_contains_concat(head, tail, err);
}

/// Unknown message tags fail the check: when the core declares its message tags, an `on-*`
/// attribute that names another message is reported, on an element of the view tree or of a
/// template body.
pub proof fn law_unknown_message_fails_check(
    doc: DocumentView,
    keys: Seq<Seq<char>>,
    tags: Seq<Seq<char>>,
    x: NodeView,
    k: int,
)
    requires
        occurs_in_doc(x, doc),
        x is Element,
        0 <= k < x->attrs.len(),
        x->attrs[k].value is Literal,
        starts_at(x->attrs[k].name, 0, "on-"@),
        tags.len() > 0,
        !tags.contains(spec_split_message(x->attrs[k].value->Literal_0).0),
    ensures
        spec_check(doc, keys, tags).contains(
            located(
                x->attrs[k].span.line,
                x->attrs[k].span.column,
                message_msg(
                    x->name,
                    x->attrs[k].name,
                    x->attrs[k].value->Literal_0,
                    spec_split_message(x->attrs[k].value->Literal_0).0,
                ),
            ),
        ),
        spec_check(doc, keys, tags).len() > 0,
{
    let a = x->attrs[k];
    let raw = a.value->Literal_0;
    let m = spec_split_message(raw).0;
    let err = located(a.span.line, a.span.column, message_msg(x->name, a.name, raw, m));
    assert forall|e: Seq<Seq<char>>| #[trigger]
        element_local_errs(x, keys, tags, e, doc.templates).contains(err) by {
        reveal(message_errs);
        let me = message_errs(x->name, a, raw, keys, tags, e);
        let m1 = seq![err];
        assert(m1[0] == err);
        let payload_errs = match spec_split_message(raw).1 {
            Some(p) => match spec_parse_expr(p, payload_origin(a.span)) {
                Ok(y) => expr_errs(y, keys, e, a.span.line, a.span.column),
                Err(_) => Seq::empty(),
            },
            None => Seq::empty(),
        };
        assert(me == m1 + payload_errs);
        lemma_contains_concat(m1, payload_errs, err);
        let ae = attr_errs(x->name, a, keys, tags, e);
        let e1 = if spec_is_color_attr(a.name) && spec_token_color(
            spec_tokens_for(Appearance::Light),
            raw,
        ) is None && spec_color_parse(raw) is None {
            seq![located(a.span.line, a.span.column, color_msg(raw))]
        } else {
            Seq::empty()
        };
        let e2 = if a.name == "radius"@ && spec_radius_parse(raw) is None {
            seq![located(a.span.line, a.span.column, radius_msg(raw))]
        } else {
            Seq::empty()
        };
        assert(ae == e1 + e2 + me);
        lemma_contains_concat(e1 + e2, me, err);
        lemma_attr_errs_in_attrs(x->name, x->attrs, k, err, keys, tags, e);
        lemma_contains_concat(
            tag_errs(x->name, x->attrs, x->Element_span, keys, e, doc.templates),
            attrs_errs(x->name, x->attrs, keys, tags, e),
            err,
        );
    }
    lemma_doc_element_error_reported(doc, x, err, keys, tags);
}

/// Unknown tags are check errors: an element of the view tree or of a template body whose
/// tag is outside the closed catalog makes `check_document` report an error naming it (so
/// the report is not ok).
pub proof fn law_unknown_element_fails_check(
    doc: DocumentView,
    keys: Seq<Seq<char>>,
    tags: Seq<Seq<char>>,
    x: NodeView,
)
    requires
        occurs_in_doc(x, doc),
        x is Element,
        !spec_is_element(x->name),
    ensures
        spec_check(doc, keys, tags).contains(
            located(x->Element_span.line, x->Element_span.column, unknown_element_msg(x->name)),
        ),
        spec_check(doc, keys, tags).len() > 0,
{
    let err = located(x->Element_span.line, x->Element_span.column, unknown_element_msg(x->name));
    assert forall|e: Seq<Seq<char>>| #[trigger]
        element_local_errs(x, keys, tags, e, doc.templates).contains(err) by {
        reveal(tag_errs);
        let te = tag_errs(x->name, x->attrs, x->Element_span, keys, e, doc.templates);
        assert(te[0] == err);
        lemma_contains_concat(te, attrs_errs(x->name, x->attrs, keys, tags, e), err);
    }
    lemma_doc_element_error_reported(doc, x, err, keys, tags);
}

proof fn lemma_binding_errs_has(
    names: Seq<Seq<char>>,
    n: Seq<char>,
    keys: Seq<Seq<char>>,
    extra: Seq<Seq<char>>,
    line: usize,
    column: usize,
)
    requires
        names.contains(n),
        n != "payload"@,
        !keys.contains(n),
        !extra.contains(n),
    ensures
        binding_errs(names, keys, extra, line, column).contains(
            located(line, column, binding_msg(n)),
        ),
    decreases names.len(),
{
    let err = located(line, column, binding_msg(n));
    let rest = binding_errs(names.drop_last(), keys, extra, line, column);
    if names.last() == n {
        assert(rest.push(err)[rest.len() as int] == err);
    } else {
        let i = choose|i: int| 0 <= i < names.len() && names[i] == n;
        assert(names.drop_last()[i] == n);
        lemma_binding_errs_has(names.drop_last(), n, keys, extra, line, column);
        let j = choose|j: int| 0 <= j < rest.len() && rest[j] == err;
        if !(names.last() == "payload"@ || keys.contains(names.last()) || extra.contains(
            names.last(),
        )) {
            assert(rest.push(located(line, column, binding_msg(names.last())))[j] == err);
        }
    }
}

proof fn lemma_parts_errs_has(
    parts: Seq<TextPartView>,
    k: int,
    err: ErrorView,
    keys: Seq<Seq<char>>,
    extra: Seq<Seq<char>>,
    line: usize,
    column: usize,
)
    requires
        0 <= k < parts.len(),
        parts[k] is Expr,
        expr_errs(parts[k]->Expr_0, keys, extra, line, column).contains(err),
    ensures
        parts_errs(parts, keys, extra, line, column).contains(err),
    decreases parts.len(),
{
    reveal(parts_errs);
    let head = parts_errs(parts.drop_last(), keys, extra, line, column);
    let tail = match parts.last() {
        TextPartView::Expr(e) => expr_errs(e, keys, extra, line, column),
        TextPartView::Literal(_) => Seq::empty(),
    };
    if k < parts.len() - 1 {
        assert(parts.drop_last()[k] == parts[k]);
        lemma_parts_errs_has(parts.drop_last(), k, err, keys, extra, line, column);
    }
    lemma_contains_concat(head, tail, err);
}

// ---------------------------------------------------------------------------
// Names used where nothing binds them.
// ---------------------------------------------------------------------------
/// Whether `n` is bound nowhere at a place where `scope` holds the names bound around it:
/// it is not `payload`, not a model key and not in scope.
pub open spec fn is_unbound(n: Seq<char>, keys: Seq<Seq<char>>, scope: Seq<Seq<char>>) -> bool {
    n != "payload"@ && !keys.contains(n) && !scope.contains(n)
}

/// Whether expression `e` starts one of its paths at a name unbound in `scope`.
pub open spec fn expr_uses_unbound(
    e: ExprView,
    keys: Seq<Seq<char>>,
    scope: Seq<Seq<char>>,
) -> bool {
    exists|k: int|
        0 <= k < spec_roots(e).len() && is_unbound(#[trigger] spec_roots(e)[k], keys, scope)
}

/// Whether a piece of a text run is an interpolation that uses an unbound name.
pub open spec fn part_uses_unbound(
    p: TextPartView,
    keys: Seq<Seq<char>>,
    scope: Seq<Seq<char>>,
) -> bool {
    match p {
        TextPartView::Expr(e) => expr_uses_unbound(e, keys, scope),
        TextPartView::Literal(_) => false,
    }
}

/// Whether an attribute holds an expression that uses an unbound name: its `{...}` value
/// (`test` of an `<if>` among them), or the payload of the message an `on-*` attribute names.
pub open spec fn attr_uses_unbound(
    a: AttributeView,
    keys: Seq<Seq<char>>,
    scope: Seq<Seq<char>>,
) -> bool {
    match a.value {
        AttrValueView::Expr(e) => expr_uses_unbound(e, keys, scope),
        AttrValueView::Literal(raw) => starts_at(a.name, 0, "on-"@) && match spec_split_message(
            raw,
        ).1 {
            Some(p) => match spec_parse_expr(p, payload_origin(a.span)) {
                Ok(x) => expr_uses_unbound(x, keys, scope),
                Err(_) => false,
            },
            None => false,
        },
    }
}

/// Whether element `<name attrs>` is a `<for>` whose `each` names an unbound list.
pub open spec fn for_each_unbound(
    name: Seq<char>,
    attrs: Seq<AttributeView>,
    keys: Seq<Seq<char>>,
    scope: Seq<Seq<char>>,
) -> bool {
    name == "for"@ && match lit_attr(attrs, "each"@) {
        Some(each) => each.len() > 0 && is_unbound(each, keys, scope),
        None => false,
    }
}

/// Whether some expression position of the forest `ns` (a text interpolation, an attribute
/// expression, a message payload, or the list of a `<for>`) uses a name that is unbound where
/// it stands: `scope` holds the names bound around `ns`, and each `<for>` adds its item name
/// for its children.
pub open spec fn uses_unbound(
    ns: Seq<NodeView>,
    keys: Seq<Seq<char>>,
    scope: Seq<Seq<char>>,
) -> bool
    decreases ns,
{
    if ns.len() == 0 {
        false
    } else {
        let last = ns[ns.len() - 1];
        ||| uses_unbound(ns.drop_last(), keys, scope)
        ||| match last {
            NodeView::Text { parts, .. } => exists|k: int|
                0 <= k < parts.len() && #[trigger] part_uses_unbound(parts[k], keys, scope),
            NodeView::Element { name, attrs, children, .. } => {
                proof {
                    assert(decreases_to!(ns => last));
                }
                ||| for_each_unbound(name, attrs, keys, scope)
                ||| exists|k: int|
                    0 <= k < attrs.len() && #[trigger] attr_uses_unbound(attrs[k], keys, scope)
                ||| uses_unbound(children, keys, inner_extra(name, attrs, scope))
            },
        }
    }
}

/// Whether the document uses an unbound name anywhere: in the view tree (nothing bound
/// around it) or in a template body (its parameters bound around it).
pub open spec fn doc_uses_unbound(doc: DocumentView, keys: Seq<Seq<char>>) -> bool {
    ||| uses_unbound(seq![doc.root], keys, Seq::empty())
    ||| exists|i: int|
        #![trigger doc.templates[i]]
        0 <= i < doc.templates.len() && uses_unbound(
            doc.templates[i].body,
            keys,
            arg_names(doc.templates[i].args),
        )
}

proof fn lemma_expr_errs_nonempty(
    e: ExprView,
    keys: Seq<Seq<char>>,
    scope: Seq<Seq<char>>,
    line: usize,
    column: usize,
) -> (err: ErrorView)
    requires
        expr_uses_unbound(e, keys, scope),
    ensures
        expr_errs(e, keys, scope, line, column).contains(err),
{
    let k = choose|k: int|
        0 <= k < spec_roots(e).len() && is_unbound(#[trigger] spec_roots(e)[k], keys, scope);
    let n = spec_roots(e)[k];
    lemma_binding_errs_has(spec_roots(e), n, keys, scope, line, column);
    located(line, column, binding_msg(n))
}

proof fn lemma_attr_uses_unbound_reported(
    tag: Seq<char>,
    attrs: Seq<AttributeView>,
    k: int,
    keys: Seq<Seq<char>>,
    tags: Seq<Seq<char>>,
    scope: Seq<Seq<char>>,
)
    requires
        0 <= k < attrs.len(),
        attr_uses_unbound(attrs[k], keys, scope),
    ensures
        attrs_errs(tag, attrs, keys, tags, scope).len() > 0,
{
    let a = attrs[k];
    let err: ErrorView;
    match a.value {
        AttrValueView::Expr(e) => {
            err = lemma_expr_errs_nonempty(e, keys, scope, a.span.line, a.span.column);
        },
        AttrValueView::Literal(raw) => {
            let p = spec_split_message(raw).1->Some_0;
            let x = spec_parse_expr(p, payload_origin(a.span))->Ok_0;
            err = lemma_expr_errs_nonempty(x, keys, scope, a.span.line, a.span.column);
            reveal(message_errs);
            let (m, _) = spec_split_message(raw);
            let e1 = if tags.len() > 0 && !tags.contains(m) {
                seq![located(a.span.line, a.span.column, message_msg(tag, a.name, raw, m))]
            } else {
                Seq::empty()
            };
            let pe = expr_errs(x, keys, scope, a.span.line, a.span.column);
            assert(message_errs(tag, a, raw, keys, tags, scope) == e1 + pe);
            lemma_contains_concat(e1, pe, err);
            let c1 = if spec_is_color_attr(a.name) && spec_token_color(
                spec_tokens_for(Appearance::Light),
                raw,
            ) is None && spec_color_parse(raw) is None {
                seq![located(a.span.line, a.span.column, color_msg(raw))]
            } else {
                Seq::empty()
            };
            let c2 = if a.name == "radius"@ && spec_radius_parse(raw) is None {
                seq![located(a.span.line, a.span.column, radius_msg(raw))]
            } else {
                Seq::empty()
            };
            assert(attr_errs(tag, a, keys, tags, scope) == c1 + c2 + message_errs(
                tag,
                a,
                raw,
                keys,
                tags,
                scope,
            ));
            lemma_contains_concat(c1 + c2, message_errs(tag, a, raw, keys, tags, scope), err);
        },
    }
    assert(attr_errs(tag, a, keys, tags, scope).contains(err));
    lemma_attr_errs_in_attrs(tag, attrs, k, err, keys, tags, scope);
}

/// A forest that uses an unbound name has errors, whatever the templates.
pub proof fn lemma_uses_unbound_reported(
    ns: Seq<NodeView>,
    keys: Seq<Seq<char>>,
    tags: Seq<Seq<char>>,
    scope: Seq<Seq<char>>,
    templates: Seq<TemplateView>,
)
    requires
        uses_unbound(ns, keys, scope),
    ensures
        nodes_errs(ns, keys, tags, scope, templates).len() > 0,
    decreases ns,
{
    let last = ns[ns.len() - 1];
    lemma_nodes_errs_split(ns, keys, tags, scope, templates);
    lemma_nodes_errs_single(last, keys, tags, scope, templates);
    if uses_unbound(ns.drop_last(), keys, scope) {
        lemma_uses_unbound_reported(ns.drop_last(), keys, tags, scope, templates);
    } else {
        match last {
            NodeView::Text { parts, span } => {
                let k = choose|k: int|
                    0 <= k < parts.len() && #[trigger] part_uses_unbound(parts[k], keys, scope);
                let err = lemma_expr_errs_nonempty(
                    parts[k]->Expr_0,
                    keys,
                    scope,
                    span.line,
                    span.column,
                );
                lemma_parts_errs_has(parts, k, err, keys, scope, span.line, span.column);
            },
            NodeView::Element { name, attrs, children, span } => {
                assert(decreases_to!(ns => last));
                if for_each_unbound(name, attrs, keys, scope) {
                    reveal(tag_errs);
                    let each = lit_attr(attrs, "each"@)->Some_0;
                    let e1 = if !spec_is_element(name) {
                        seq![located(span.line, span.column, unknown_element_msg(name))]
                    } else {
                        Seq::empty()
                    };
                    let e2 = seq![located(span.line, span.column, for_each_msg(each))];
                    let e3 = if name == "use"@ {
                        match lit_attr(attrs, "template"@) {
                            Some(t) => if !has_template(templates, t) {
                                seq![located(span.line, span.column, unknown_template_msg(t))]
                            } else {
                                Seq::empty()
                            },
                            None => Seq::empty(),
                        }
                    } else {
                        Seq::empty()
                    };
                    assert(tag_errs(name, attrs, span, keys, scope, templates) == e1 + e2 + e3);
                } else if exists|k: int|
                    0 <= k < attrs.len() && #[trigger] attr_uses_unbound(attrs[k], keys, scope) {
                    let k = choose|k: int|
                        0 <= k < attrs.len() && #[trigger] attr_uses_unbound(
                            attrs[k],
                            keys,
                            scope,
                        );
                    lemma_attr_uses_unbound_reported(name, attrs, k, keys, tags, scope);
                } else {
                    lemma_uses_unbound_reported(
                        children,
                        keys,
                        tags,
                        inner_extra(name, attrs, scope),
                        templates,
                    );
                }
            },
        }
    }
}

/// A template list with a body that uses an unbound name (its parameters bound) has errors.
proof fn lemma_templates_unbound_reported(
    ts: Seq<TemplateView>,
    i: int,
    keys: Seq<Seq<char>>,
    tags: Seq<Seq<char>>,
    all: Seq<TemplateView>,
)
    requires
        0 <= i < ts.len(),
        uses_unbound(ts[i].body, keys, arg_names(ts[i].args)),
    ensures
        templates_errs(ts, keys, tags, all).len() > 0,
    decreases ts.len(),
{
    if i < ts.len() - 1 {
        assert(ts.drop_last()[i] == ts[i]);
        lemma_templates_unbound_reported(ts.drop_last(), i, keys, tags, all);
    } else {
        lemma_uses_unbound_reported(ts[i].body, keys, tags, arg_names(ts[i].args), all);
    }
}

/// Unknown bindings fail the check: wherever an expression of the document (a text
/// interpolation, an attribute expression such as an `<if>` test, a message payload, or the
/// list of a `<for>`), in the view tree or in a template body, uses a name that is not
/// `payload`, not a model key, and not bound at that point by an enclosing `<for>` or by a
/// parameter of the template, `check_document` reports an error.
pub proof fn law_unbound_name_fails_check(
    doc: DocumentView,
    keys: Seq<Seq<char>>,
    tags: Seq<Seq<char>>,
)
    requires
        doc_uses_unbound(doc, keys),
    ensures
        spec_check(doc, keys, tags).len() > 0,
{
    if uses_unbound(seq![doc.root], keys, Seq::empty()) {
        lemma_uses_unbound_reported(seq![doc.root], keys, tags, Seq::empty(), doc.templates);
    } else {
        let i = choose|i: int|
            #![trigger doc.templates[i]]
            0 <= i < doc.templates.len() && uses_unbound(
                doc.templates[i].body,
                keys,
                arg_names(doc.templates[i].args),
            );
        lemma_templates_unbound_reported(doc.templates, i, keys, tags, doc.templates);
    }
}

// ---------------------------------------------------------------------------
// Only the declared names matter, not their order or repeats.
// ---------------------------------------------------------------------------
/// Whether two name lists declare the same names.
pub open spec fn same_names(a: Seq<Seq<char>>, b: Seq<Seq<char>>) -> bool {
    forall|x: Seq<char>| a.contains(x) <==> b.contains(x)
}

proof fn lemma_same_names_nonempty(a: Seq<Seq<char>>, b: Seq<Seq<char>>)
    requires
        same_names(a, b),
    ensures
        (a.len() > 0) == (b.len() > 0),
{
    if a.len() > 0 {
        assert(a.contains(a[0]));
        assert(b.contains(a[0]));
    }
    if b.len() > 0 {
        assert(b.contains(b[0]));
        assert(a.contains(b[0]));
    }
}

proof fn lemma_binding_errs_names(
    names: Seq<Seq<char>>,
    k1: Seq<Seq<char>>,
    k2: Seq<Seq<char>>,
    extra: Seq<Seq<char>>,
    line: usize,
    column: usize,
)
    requires
        same_names(k1, k2),
    ensures
        binding_errs(names, k1, extra, line, column) == binding_errs(names, k2, extra, line, column),
    decreases names.len(),
{
    if names.len() > 0 {
        lemma_binding_errs_names(names.drop_last(), k1, k2, extra, line, column);
        assert(k1.contains(names.last()) == k2.contains(names.last()));
    }
}

proof fn lemma_attr_errs_names(
    tag: Seq<char>,
    a: AttributeView,
    k1: Seq<Seq<char>>,
    t1: Seq<Seq<char>>,
    k2: Seq<Seq<char>>,
    t2: Seq<Seq<char>>,
    extra: Seq<Seq<char>>,
)
    requires
        same_names(k1, k2),
        same_names(t1, t2),
    ensures
        attr_errs(tag, a, k1, t1, extra) == attr_errs(tag, a, k2, t2, extra),
{
    reveal(message_errs);
    lemma_same_names_nonempty(t1, t2);
    match a.value {
        AttrValueView::Expr(e) => {
            lemma_binding_errs_names(spec_roots(e), k1, k2, extra, a.span.line, a.span.column);
        },
        AttrValueView::Literal(raw) => {
            let (m, payload) = spec_split_message(raw);
            assert(t1.contains(m) == t2.contains(m));
            match payload {
                Some(p) => match spec_parse_expr(p, payload_origin(a.span)) {
                    Ok(x) => {
                        lemma_binding_errs_names(
                            spec_roots(x),
                            k1,
                            k2,
                            extra,
                            a.span.line,
                            a.span.column,
                        );
                    },
                    Err(_) => {},
                },
                None => {},
            }
        },
    }
}

proof fn lemma_attrs_errs_names(
    tag: Seq<char>,
    attrs: Seq<AttributeView>,
    k1: Seq<Seq<char>>,
    t1: Seq<Seq<char>>,
    k2: Seq<Seq<char>>,
    t2: Seq<Seq<char>>,
    extra: Seq<Seq<char>>,
)
    requires
        same_names(k1, k2),
        same_names(t1, t2),
    ensures
        attrs_errs(tag, attrs, k1, t1, extra) == attrs_errs(tag, attrs, k2, t2, extra),
    decreases attrs.len(),
{
    reveal(attrs_errs);
    if attrs.len() > 0 {
        lemma_attrs_errs_names(tag, attrs.drop_last(), k1, t1, k2, t2, extra);
        lemma_attr_errs_names(tag, attrs.last(), k1, t1, k2, t2, extra);
    }
}

proof fn lemma_parts_errs_names(
    parts: Seq<TextPartView>,
    k1: Seq<Seq<char>>,
    k2: Seq<Seq<char>>,
    extra: Seq<Seq<char>>,
    line: usize,
    column: usize,
)
    requires
        same_names(k1, k2),
    ensures
        parts_errs(parts, k1, extra, line, column) == parts_errs(parts, k2, extra, line, column),
    decreases parts.len(),
{
    reveal(parts_errs);
    if parts.len() > 0 {
        lemma_parts_errs_names(parts.drop_last(), k1, k2, extra, line, column);
        match parts.last() {
            TextPartView::Expr(e) => {
                lemma_binding_errs_names(spec_roots(e), k1, k2, extra, line, column);
            },
            TextPartView::Literal(_) => {},
        }
    }
}

proof fn lemma_nodes_errs_names(
    ns: Seq<NodeView>,
    k1: Seq<Seq<char>>,
    t1: Seq<Seq<char>>,
    k2: Seq<Seq<char>>,
    t2: Seq<Seq<char>>,
    extra: Seq<Seq<char>>,
    templates: Seq<TemplateView>,
)
    requires
        same_names(k1, k2),
        same_names(t1, t2),
    ensures
        nodes_errs(ns, k1, t1, extra, templates) == nodes_errs(ns, k2, t2, extra, templates),
    decreases ns,
{
    reveal(nodes_errs);
    if ns.len() > 0 {
        let last = ns[ns.len() - 1];
        lemma_nodes_errs_names(ns.drop_last(), k1, t1, k2, t2, extra, templates);
        match last {
            NodeView::Text { parts, span } => {
                lemma_parts_errs_names(parts, k1, k2, extra, span.line, span.column);
            },
            NodeView::Element { name, attrs, children, span } => {
                assert(decreases_to!(ns => last));
                reveal(tag_errs);
                match lit_attr(attrs, "each"@) {
                    Some(each) => {
                        assert(k1.contains(each) == k2.contains(each));
                    },
                    None => {},
                }
                assert(tag_errs(name, attrs, span, k1, extra, templates) == tag_errs(
                    name,
                    attrs,
                    span,
                    k2,
                    extra,
                    templates,
                ));
                lemma_attrs_errs_names(name, attrs, k1, t1, k2, t2, extra);
                lemma_nodes_errs_names(
                    children,
                    k1,
                    t1,
                    k2,
                    t2,
                    inner_extra(name, attrs, extra),
                    templates,
                );
            },
        }
    }
}

proof fn lemma_templates_errs_names(
    ts: Seq<TemplateView>,
    k1: Seq<Seq<char>>,
    t1: Seq<Seq<char>>,
    k2: Seq<Seq<char>>,
    t2: Seq<Seq<char>>,
    all: Seq<TemplateView>,
)
    requires
        same_names(k1, k2),
        same_names(t1, t2),
    ensures
        templates_errs(ts, k1, t1, all) == templates_errs(ts, k2, t2, all),
    decreases ts.len(),
{
    if ts.len() > 0 {
        lemma_templates_errs_names(ts.drop_last(), k1, t1, k2, t2, all);
        lemma_nodes_errs_names(ts.last().body, k1, t1, k2, t2, arg_names(ts.last().args), all);
    }
}

/// The model keys and message tags act as sets: lists that declare the same names, in any
/// order and with any repeats, give the same report.
pub proof fn law_check_depends_on_name_sets(
    doc: DocumentView,
    k1: Seq<Seq<char>>,
    t1: Seq<Seq<char>>,
    k2: Seq<Seq<char>>,
    t2: Seq<Seq<char>>,
)
    requires
        k1.to_set() == k2.to_set(),
        t1.to_set() == t2.to_set(),
    ensures
        spec_check(doc, k1, t1) == spec_check(doc, k2, t2),
{
    broadcast use vstd::set::group_set_axioms;

    assert forall|x: Seq<char>| k1.contains(x) <==> k2.contains(x) by {
        assert(k1.to_set().contains(x) == k1.contains(x));
        assert(k2.to_set().contains(x) == k2.contains(x));
        assert(k1.to_set().contains(x) == k2.to_set().contains(x));
    }
    assert forall|x: Seq<char>| t1.contains(x) <==> t2.contains(x) by {
        assert(t1.to_set().contains(x) == t1.contains(x));
        assert(t2.to_set().contains(x) == t2.contains(x));
        assert(t1.to_set().contains(x) == t2.to_set().contains(x));
    }
    lemma_templates_errs_names(doc.templates, k1, t1, k2, t2, doc.templates);
    lemma_nodes_errs_names(seq![doc.root], k1, t1, k2, t2, Seq::empty(), doc.templates);
}

// ---------------------------------------------------------------------------
// The closed catalog, accepted in full.
// ---------------------------------------------------------------------------
/// The closed element catalog of the markup, in the order the documentation lists it.
pub open spec fn element_catalog() -> Seq<Seq<char>> {
    seq![
        "row"@,
        "column"@,
        "stack"@,
        "panel"@,
        "card"@,
        "scroll"@,
        "list"@,
        "grid"@,
        "spacer"@,
        "separator"@,
        "text"@,
        "span"@,
        "badge"@,
        "status-bar"@,
        "button"@,
        "toggle-button"@,
        "checkbox"@,
        "radio"@,
        "radio-group"@,
        "toggle"@,
        "switch"@,
        "text-field"@,
        "input"@,
        "search-field"@,
        "textarea"@,
        "slider"@,
        "progress"@,
        "alert"@,
        "dialog"@,
        "tabs"@,
        "list-item"@,
        "for"@,
        "if"@,
        "else"@,
        "template"@,
        "use"@,
        "slot"@,
        "import"@,
    ]
}

proof fn lemma_catalog_entries()
    ensures
        element_catalog().len() == 38,
        element_catalog()[0] == "row"@,
        element_catalog()[1] == "column"@,
        element_catalog()[2] == "stack"@,
        element_catalog()[3] == "panel"@,
        element_catalog()[4] == "card"@,
        element_catalog()[5] == "scroll"@,
        element_catalog()[6] == "list"@,
        element_catalog()[7] == "grid"@,
        element_catalog()[8] == "spacer"@,
        element_catalog()[9] == "separator"@,
        element_catalog()[10] == "text"@,
        element_catalog()[11] == "span"@,
        element_catalog()[12] == "badge"@,
        element_catalog()[13] == "status-bar"@,
        element_catalog()[14] == "button"@,
        element_catalog()[15] == "toggle-button"@,
        element_catalog()[16] == "checkbox"@,
        element_catalog()[17] == "radio"@,
        element_catalog()[18] == "radio-group"@,
        element_catalog()[19] == "toggle"@,
        element_catalog()[20] == "switch"@,
        element_catalog()[21] == "text-field"@,
        element_catalog()[22] == "input"@,
        element_catalog()[23] == "search-field"@,
        element_catalog()[24] == "textarea"@,
        element_catalog()[25] == "slider"@,
        element_catalog()[26] == "progress"@,
        element_catalog()[27] == "alert"@,
        element_catalog()[28] == "dialog"@,
        element_catalog()[29] == "tabs"@,
        element_catalog()[30] == "list-item"@,
        element_catalog()[31] == "for"@,
        element_catalog()[32] == "if"@,
        element_catalog()[33] == "else"@,
        element_catalog()[34] == "template"@,
        element_catalog()[35] == "use"@,
        element_catalog()[36] == "slot"@,
        element_catalog()[37] == "import"@,
{
    let c = element_catalog();
    assert(c[0] == "row"@);
    assert(c[1] == "column"@);
    assert(c[2] == "stack"@);
    assert(c[3] == "panel"@);
    assert(c[4] == "card"@);
    assert(c[5] == "scroll"@);
    assert(c[6] == "list"@);
    assert(c[7] == "grid"@);
    assert(c[8] == "spacer"@);
    assert(c[9] == "separator"@);
    assert(c[10] == "text"@);
    assert(c[11] == "span"@);
    assert(c[12] == "badge"@);
    assert(c[13] == "status-bar"@);
    assert(c[14] == "button"@);
    assert(c[15] == "toggle-button"@);
    assert(c[16] == "checkbox"@);
    assert(c[17] == "radio"@);
    assert(c[18] == "radio-group"@);
    assert(c[19] == "toggle"@);
    assert(c[20] == "switch"@);
    assert(c[21] == "text-field"@);
    assert(c[22] == "input"@);
    assert(c[23] == "search-field"@);
    assert(c[24] == "textarea"@);
    assert(c[25] == "slider"@);
    assert(c[26] == "progress"@);
    assert(c[27] == "alert"@);
    assert(c[28] == "dialog"@);
    assert(c[29] == "tabs"@);
    assert(c[30] == "list-item"@);
    assert(c[31] == "for"@);
    assert(c[32] == "if"@);
    assert(c[33] == "else"@);
    assert(c[34] == "template"@);
    assert(c[35] == "use"@);
    assert(c[36] == "slot"@);
    assert(c[37] == "import"@);
}

/// The element vocabulary is exactly the closed catalog: a tag is an element if and only if
/// the catalog lists it.
pub proof fn law_elements_are_the_catalog(n: Seq<char>)
    ensures
        spec_is_element(n) <==> element_catalog().contains(n),
{
    lemma_catalog_entries();
    let c = element_catalog();
    if element_catalog().contains(n) {
        let i = choose|i: int| 0 <= i < c.len() && c[i] == n;
        assert(spec_is_element(c[i]));
    }
    if spec_is_element(n) {
        if n == "row"@ {
            assert(c[0] == n);
        }
        if n == "column"@ {
            assert(c[1] == n);
        }
        if n == "stack"@ {
            assert(c[2] == n);
        }
        if n == "panel"@ {
            assert(c[3] == n);
        }
        if n == "card"@ {
            assert(c[4] == n);
        }
        if n == "scroll"@ {
            assert(c[5] == n);
        }
        if n == "list"@ {
            assert(c[6] == n);
        }
        if n == "grid"@ {
            assert(c[7] == n);
        }
        if n == "spacer"@ {
            assert(c[8] == n);
        }
        if n == "separator"@ {
            assert(c[9] == n);
        }
        if n == "text"@ {
            assert(c[10] == n);
        }
        if n == "span"@ {
            assert(c[11] == n);
        }
        if n == "badge"@ {
            assert(c[12] == n);
        }
        if n == "status-bar"@ {
            assert(c[13] == n);
        }
        if n == "button"@ {
            assert(c[14] == n);
        }
        if n == "toggle-button"@ {
            assert(c[15] == n);
        }
        if n == "checkbox"@ {
            assert(c[16] == n);
        }
        if n == "radio"@ {
            assert(c[17] == n);
        }
        if n == "radio-group"@ {
            assert(c[18] == n);
        }
        if n == "toggle"@ {
            assert(c[19] == n);
        }
        if n == "switch"@ {
            assert(c[20] == n);
        }
        if n == "text-field"@ {
            assert(c[21] == n);
        }
        if n == "input"@ {
            assert(c[22] == n);
        }
        if n == "search-field"@ {
            assert(c[23] == n);
        }
        if n == "textarea"@ {
            assert(c[24] == n);
        }
        if n == "slider"@ {
            assert(c[25] == n);
        }
        if n == "progress"@ {
            assert(c[26] == n);
        }
        if n == "alert"@ {
            assert(c[27] == n);
        }
        if n == "dialog"@ {
            assert(c[28] == n);
        }
        if n == "tabs"@ {
            assert(c[29] == n);
        }
        if n == "list-item"@ {
            assert(c[30] == n);
        }
        if n == "for"@ {
            assert(c[31] == n);
        }
        if n == "if"@ {
            assert(c[32] == n);
        }
        if n == "else"@ {
            assert(c[33] == n);
        }
        if n == "template"@ {
            assert(c[34] == n);
        }
        if n == "use"@ {
            assert(c[35] == n);
        }
        if n == "slot"@ {
            assert(c[36] == n);
        }
        if n == "import"@ {
            assert(c[37] == n);
        }
    }
}

/// Whether `ns` is made only of elements of the catalog, with no attributes and no text.
pub open spec fn plain_catalog_forest(ns: Seq<NodeView>) -> bool
    decreases ns,
{
    if ns.len() == 0 {
        true
    } else {
        let last = ns[ns.len() - 1];
        &&& plain_catalog_forest(ns.drop_last())
        &&& match last {
            NodeView::Text { .. } => false,
            NodeView::Element { name, attrs, children, .. } => {
                proof {
                    assert(decreases_to!(ns => last));
                }
                &&& element_catalog().contains(name)
                &&& attrs.len() == 0
                &&& plain_catalog_forest(children)
            },
        }
    }
}

proof fn lemma_plain_forest_no_errors(
    ns: Seq<NodeView>,
    keys: Seq<Seq<char>>,
    tags: Seq<Seq<char>>,
    extra: Seq<Seq<char>>,
    templates: Seq<TemplateView>,
)
    requires
        plain_catalog_forest(ns),
    ensures
        nodes_errs(ns, keys, tags, extra, templates) == Seq::<ErrorView>::empty(),
    decreases ns,
{
    if ns.len() > 0 {
        let last = ns[ns.len() - 1];
        lemma_nodes_errs_split(ns, keys, tags, extra, templates);
        lemma_nodes_errs_single(last, keys, tags, extra, templates);
        lemma_plain_forest_no_errors(ns.drop_last(), keys, tags, extra, templates);
        match last {
            NodeView::Element { name, attrs, children, span } => {
                assert(decreases_to!(ns => last));
                law_elements_are_the_catalog(name);
                reveal(tag_errs);
                reveal(attrs_errs);
                assert(tag_errs(name, attrs, span, keys, extra, templates) =~= Seq::empty());
                assert(attrs_errs(name, attrs, keys, tags, extra) =~= Seq::empty());
                lemma_plain_forest_no_errors(
                    children,
                    keys,
                    tags,
                    inner_extra(name, attrs, extra),
                    templates,
                );
                assert(nodes_errs(seq![last], keys, tags, extra, templates) =~= Seq::empty());
            },
            NodeView::Text { .. } => {},
        }
        assert(Seq::<ErrorView>::empty() + Seq::<ErrorView>::empty() =~= Seq::<ErrorView>::empty());
    } else {
        reveal(nodes_errs);
    }
}

proof fn lemma_plain_templates_no_errors(
    ts: Seq<TemplateView>,
    keys: Seq<Seq<char>>,
    tags: Seq<Seq<char>>,
    all: Seq<TemplateView>,
)
    requires
        forall|i: int| 0 <= i < ts.len() ==> plain_catalog_forest(#[trigger] ts[i].body),
    ensures
        templates_errs(ts, keys, tags, all) == Seq::<ErrorView>::empty(),
    decreases ts.len(),
{
    if ts.len() > 0 {
        let d = ts.drop_last();
        assert forall|i: int| 0 <= i < d.len() implies plain_catalog_forest(#[trigger] d[i].body) by {
            assert(d[i] == ts[i]);
        }
        lemma_plain_templates_no_errors(d, keys, tags, all);
        assert(ts.last() == ts[ts.len() - 1]);
        lemma_plain_forest_no_errors(ts.last().body, keys, tags, arg_names(ts.last().args), all);
        assert(Seq::<ErrorView>::empty() + Seq::<ErrorView>::empty() =~= Seq::<ErrorView>::empty());
    }
}

/// Every element of the closed catalog is accepted: a document made only of catalog
/// elements, without attributes or text, checks with no errors, whatever the model keys and
/// message tags.
pub proof fn law_catalog_documents_check_clean(
    doc: DocumentView,
    keys: Seq<Seq<char>>,
    tags: Seq<Seq<char>>,
)
    requires
        plain_catalog_forest(seq![doc.root]),
        forall|i: int|
            0 <= i < doc.templates.len() ==> plain_catalog_forest(#[trigger] doc.templates[i].body),
    ensures
        spec_check(doc, keys, tags) == Seq::<ErrorView>::empty(),
{
    lemma_plain_templates_no_errors(doc.templates, keys, tags, doc.templates);
    lemma_plain_forest_no_errors(seq![doc.root], keys, tags, Seq::empty(), doc.templates);
    assert(Seq::<ErrorView>::empty() + Seq::<ErrorView>::empty() =~= Seq::<ErrorView>::empty());
}

} // verus!
