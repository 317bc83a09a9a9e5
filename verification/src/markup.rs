//! The `.native` markup grammar, as spec functions over the characters of a source.
//! Positions are character indices; spans and diagnostics use byte offsets and
//! line/column as the source text has them.

use vstd::prelude::*;

use crate::ast::{
    first_attr, node_tag, AttrValueView, AttributeView, DocumentView, NodeView, TemplateView,
    TextPartView,
};
use crate::error::{located, ErrorView};
use crate::expr::{spec_parse_expr, ws_end};
use crate::span::{char_line_col, spec_span_at, Span};
use crate::text::{
    byte_offset, lemma_utf8_len_concat, lemma_utf8_len_full, lemma_utf8_len_single, spec_is_alnum,
    spec_is_alpha, spec_is_ws, spec_trim, starts_at, utf8_len,
};

verus! {

/// A placeholder error for positions the grammar never reaches.
pub open spec fn nothing() -> ErrorView {
    located(0, 0, Seq::empty())
}

/// A diagnostic at character `i` of the source.
pub open spec fn derr(s: Seq<char>, i: int, msg: Seq<char>) -> ErrorView {
    let lc = char_line_col(s, i);
    located(lc.0 as usize, lc.1 as usize, msg)
}

/// The point span at character `i` of the source.
pub open spec fn span_at_char(s: Seq<char>, i: int) -> Span {
    spec_span_at(s, byte_offset(s, i) as usize)
}

pub open spec fn is_tag_char(c: char) -> bool {
    spec_is_alnum(c) || c == '-' || c == '_'
}

/// End of the tag-name characters starting at `i`.
#[verifier::opaque]
pub open spec fn tag_end(s: Seq<char>, i: int) -> int
    decreases s.len() - i,
{
    if 0 <= i < s.len() && is_tag_char(s[i]) {
        tag_end(s, i + 1)
    } else {
        i
    }
}

/// First position at or after `i` holding `c`.
#[verifier::opaque]
pub open spec fn find_char(s: Seq<char>, i: int, c: char) -> Option<int>
    decreases s.len() - i,
{
    if i < 0 || i >= s.len() {
        None
    } else if s[i] == c {
        Some(i)
    } else {
        find_char(s, i + 1, c)
    }
}

/// First position at or after `i` where `pat` starts.
#[verifier::opaque]
pub open spec fn find_pat(s: Seq<char>, i: int, pat: Seq<char>) -> Option<int>
    decreases s.len() - i,
{
    if i < 0 || i >= s.len() {
        None
    } else if starts_at(s, i, pat) {
        Some(i)
    } else {
        find_pat(s, i + 1, pat)
    }
}

/// First position at or after `i` holding whitespace.
#[verifier::opaque]
pub open spec fn token_end(s: Seq<char>, i: int) -> int
    decreases s.len() - i,
{
    if 0 <= i < s.len() && !spec_is_ws(s[i]) {
        token_end(s, i + 1)
    } else {
        i
    }
}

/// `str::replace`: every non-overlapping occurrence of `pat`, scanning left to right,
/// replaced by `rep`.
#[verifier::opaque]
pub open spec fn replace_all(s: Seq<char>, pat: Seq<char>, rep: Seq<char>) -> Seq<char>
    decreases s.len(),
{
    if s.len() == 0 || pat.len() == 0 {
        s
    } else if starts_at(s, 0, pat) {
        rep + replace_all(s.skip(pat.len() as int), pat, rep)
    } else {
        seq![s[0]] + replace_all(s.drop_first(), pat, rep)
    }
}

/// HTML entity decoding as the markup does it: `&lt;`, `&gt;`, `&amp;`, `&quot;`, `&apos;`,
/// replaced one kind after another in that order.
pub open spec fn spec_decode(s: Seq<char>) -> Seq<char> {
    replace_all(
        replace_all(
            replace_all(replace_all(replace_all(s, "&lt;"@, "<"@), "&gt;"@, ">"@), "&amp;"@, "&"@),
            "&quot;"@,
            "\""@,
        ),
        "&apos;"@,
        "'"@,
    )
}

/// Replacing a pattern by something no longer never lengthens the encoding.
pub proof fn lemma_replace_utf8(s: Seq<char>, pat: Seq<char>, rep: Seq<char>)
    requires
        utf8_len(rep) <= utf8_len(pat),
    ensures
        utf8_len(replace_all(s, pat, rep)) <= utf8_len(s),
    decreases s.len(),
{
    reveal(replace_all);
    if s.len() == 0 || pat.len() == 0 {
    } else if starts_at(s, 0, pat) {
        let rest = s.skip(pat.len() as int);
        lemma_replace_utf8(rest, pat, rep);
        assert(s =~= pat + rest);
        lemma_utf8_len_concat(pat, rest);
        lemma_utf8_len_concat(rep, replace_all(rest, pat, rep));
    } else {
        lemma_replace_utf8(s.drop_first(), pat, rep);
        assert(s =~= seq![s[0]] + s.drop_first());
        lemma_utf8_len_concat(seq![s[0]], s.drop_first());
        lemma_utf8_len_concat(seq![s[0]], replace_all(s.drop_first(), pat, rep));
    }
}

proof fn lemma_entity_shrinks(pat: Seq<char>, c: char)
    requires
        pat.len() >= 1,
        (c as u32) < 0x80,
    ensures
        utf8_len(seq![c]) <= utf8_len(pat),
{
    lemma_utf8_len_single(c);
    lemma_utf8_len_full(pat);
}

/// Entity decoding never lengthens the encoding.
pub proof fn lemma_decode_utf8(s: Seq<char>)
    ensures
        utf8_len(spec_decode(s)) <= utf8_len(s),
{
    reveal_strlit("&lt;");
    reveal_strlit("&gt;");
    reveal_strlit("&amp;");
    reveal_strlit("&quot;");
    reveal_strlit("&apos;");
    reveal_strlit("<");
    reveal_strlit(">");
    reveal_strlit("&");
    reveal_strlit("\"");
    reveal_strlit("'");
    assert("<"@ =~= seq!['<']);
    assert(">"@ =~= seq!['>']);
    assert("&"@ =~= seq!['&']);
    assert("\""@ =~= seq!['"']);
    assert("'"@ =~= seq!['\'']);
    lemma_entity_shrinks("&lt;"@, '<');
    lemma_entity_shrinks("&gt;"@, '>');
    lemma_entity_shrinks("&amp;"@, '&');
    lemma_entity_shrinks("&quot;"@, '"');
    lemma_entity_shrinks("&apos;"@, '\'');
    let s1 = replace_all(s, "&lt;"@, "<"@);
    let s2 = replace_all(s1, "&gt;"@, ">"@);
    let s3 = replace_all(s2, "&amp;"@, "&"@);
    let s4 = replace_all(s3, "&quot;"@, "\""@);
    lemma_replace_utf8(s, "&lt;"@, "<"@);
    lemma_replace_utf8(s1, "&gt;"@, ">"@);
    lemma_replace_utf8(s2, "&amp;"@, "&"@);
    lemma_replace_utf8(s3, "&quot;"@, "\""@);
    lemma_replace_utf8(s4, "&apos;"@, "'"@);
}

/// Position of the `}` closing an interpolation, scanning from `k` at brace depth `depth`
/// (single-quoted strings hide braces; a backslash in a string escapes the next character).
#[verifier::opaque]
pub open spec fn brace_match(t: Seq<char>, k: int, depth: nat, in_str: bool) -> Option<int>
    decreases t.len() + 1 - k,
{
    if k < 0 || k >= t.len() {
        None
    } else if in_str {
        if t[k] == '\\' {
            brace_match(t, k + 2, depth, true)
        } else if t[k] == '\'' {
            brace_match(t, k + 1, depth, false)
        } else {
            brace_match(t, k + 1, depth, true)
        }
    } else if t[k] == '\'' {
        brace_match(t, k + 1, depth, true)
    } else if t[k] == '{' {
        brace_match(t, k + 1, depth + 1, false)
    } else if t[k] == '}' {
        if depth <= 1 {
            Some(k)
        } else {
            brace_match(t, k + 1, (depth - 1) as nat, false)
        }
    } else {
        brace_match(t, k + 1, depth, false)
    }
}

/// A declared template argument: `name` or `name=default` (split at the first `=`).
pub open spec fn arg_of(tok: Seq<char>) -> (Seq<char>, Option<Seq<char>>) {
    match find_char(tok, 0, '=') {
        Some(e) => (tok.subrange(0, e), Some(tok.subrange(e + 1, tok.len() as int))),
        None => (tok, None),
    }
}

/// The whitespace-separated argument declarations of `raw`, from position `i`.
#[verifier::opaque]
pub open spec fn args_from(raw: Seq<char>, i: int, acc: Seq<(Seq<char>, Option<Seq<char>>)>) -> Seq<
    (Seq<char>, Option<Seq<char>>),
>
    decreases raw.len() - i,
{
    let j = ws_end(raw, i);
    if i < 0 || j < i || j >= raw.len() {
        acc
    } else {
        let k = token_end(raw, j);
        if k <= j || k > raw.len() {
            acc
        } else {
            args_from(raw, k, acc.push(arg_of(raw.subrange(j, k))))
        }
    }
}

/// `template args="a b=1"`: declared argument names with optional literal defaults.
pub open spec fn args_decl(raw: Seq<char>) -> Seq<(Seq<char>, Option<Seq<char>>)> {
    args_from(raw, 0, Seq::empty())
}

/// The inside of a value that is wholly one `{...}` (after trimming), if it is.
pub open spec fn wrapped(t: Seq<char>) -> Option<Seq<char>> {
    let u = spec_trim(t);
    if u.len() >= 2 && u[0] == '{' && u[u.len() - 1] == '}' {
        Some(u.subrange(1, u.len() - 1))
    } else {
        None
    }
}

/// An attribute value: one `{expression}`, or the raw literal.
pub open spec fn d_attr_value(raw: Seq<char>, sp: Span) -> Result<AttrValueView, ErrorView> {
    match wrapped(spec_trim(raw)) {
        Some(inner) => match spec_parse_expr(inner, sp) {
            Ok(e) => Ok(AttrValueView::Expr(e)),
            Err(e) => Err(e),
        },
        None => Ok(AttrValueView::Literal(raw)),
    }
}

#[verifier::opaque]
pub open spec fn unclosed_msg(parent: Seq<char>) -> Seq<char> {
    "unclosed <"@ + parent + ">"@
}

#[verifier::opaque]
pub open spec fn mismatched_msg(close: Seq<char>, parent: Seq<char>) -> Seq<char> {
    "mismatched closing tag </"@ + close + "> \u{2014} open tag was <"@ + parent + ">"@
}

#[verifier::opaque]
pub open spec fn attr_char_msg(c: char) -> Seq<char> {
    "unexpected '"@ + seq![c] + "' in tag \u{2014} attribute names start with a letter"@
}

/// Skip whitespace and `<!-- ... -->` comments (an unterminated comment runs to the end).
#[verifier::opaque]
pub open spec fn d_skip_wc(s: Seq<char>, i: int) -> int
    decreases s.len() - i,
{
    if i < 0 || i > s.len() {
        i
    } else {
        let j = ws_end(s, i);
        if !(i <= j <= s.len()) {
            j
        } else if starts_at(s, j, "<!--"@) && j + 4 <= s.len() {
            match find_pat(s, j + 4, "-->"@) {
                Some(k) => if j + 4 <= k && k + 3 <= s.len() {
                    d_skip_wc(s, k + 3)
                } else {
                    s.len() as int
                },
                None => s.len() as int,
            }
        } else {
            j
        }
    }
}

#[verifier::opaque]
pub open spec fn d_tag_name(s: Seq<char>, i: int) -> Result<(Seq<char>, int), ErrorView> {
    let k = tag_end(s, i);
    if k == i {
        Err(derr(s, i, "expected tag name"@))
    } else {
        Ok((s.subrange(i, k), k))
    }
}

/// A quoted attribute value at `i`: its decoded text, its span, and the position after it.
#[verifier::opaque]
pub open spec fn d_quoted(s: Seq<char>, i: int) -> Result<(Seq<char>, Span, int), ErrorView> {
    if 0 <= i < s.len() && (s[i] == '"' || s[i] == '\'') {
        let start = i + 1;
        let sp = span_at_char(s, start);
        match find_char(s, start, s[i]) {
            Some(k) => Ok(
                (
                    spec_decode(s.subrange(start, k)),
                    Span {
                        start: sp.start,
                        end: byte_offset(s, k + 1) as usize,
                        line: sp.line,
                        column: sp.column,
                    },
                    k + 1,
                ),
            ),
            None => Err(derr(s, s.len() as int, "unterminated attribute value"@)),
        }
    } else {
        Err(derr(s, i, "attribute value must be quoted"@))
    }
}

/// One attribute starting at `i`: a name, then optionally `=` and a quoted value.
#[verifier::opaque]
pub open spec fn d_attr(s: Seq<char>, i: int) -> Result<(AttributeView, int), ErrorView> {
    let sp = span_at_char(s, i);
    let k = tag_end(s, i);
    let name = s.subrange(i, k);
    let j = ws_end(s, k);
    if !starts_at(s, j, "="@) {
        Ok(
            (
                AttributeView {
                    name,
                    raw: "true"@,
                    value: AttrValueView::Literal("true"@),
                    span: sp,
                },
                j,
            ),
        )
    } else {
        match d_quoted(s, ws_end(s, j + 1)) {
            Err(e) => Err(e),
            Ok((raw, vsp, p)) => match d_attr_value(raw, vsp) {
                Err(e) => Err(e),
                Ok(v) => Ok((AttributeView { name, raw, value: v, span: vsp }, p)),
            },
        }
    }
}

/// Attributes from `i` up to `/`, `>` or the end.
#[verifier::opaque]
pub open spec fn d_attrs(s: Seq<char>, acc: Seq<AttributeView>, i: int) -> Result<
    (Seq<AttributeView>, int),
    ErrorView,
>
    decreases s.len() - i,
{
    if i < 0 || i > s.len() {
        Err(nothing())
    } else {
        let j = ws_end(s, i);
        if !(i <= j <= s.len()) {
            Err(nothing())
        } else if j == s.len() || s[j] == '/' || s[j] == '>' {
            Ok((acc, j))
        } else if spec_is_alpha(s[j]) || s[j] == '_' {
            match d_attr(s, j) {
                Err(e) => Err(e),
                Ok((a, k)) => if j < k <= s.len() {
                    d_attrs(s, acc.push(a), k)
                } else {
                    Err(nothing())
                },
            }
        } else {
            Err(derr(s, j, attr_char_msg(s[j])))
        }
    }
}

/// The end of an opening tag: `/>` (self-closing) or `>`.
#[verifier::opaque]
pub open spec fn d_finish(s: Seq<char>, i: int) -> Result<(bool, int), ErrorView> {
    let j = ws_end(s, i);
    if starts_at(s, j, "/>"@) {
        Ok((true, j + 2))
    } else if starts_at(s, j, ">"@) {
        Ok((false, j + 1))
    } else {
        Err(derr(s, j, "expected '>' or '/>' after tag"@))
    }
}

/// Splitting decoded text into literal and `{expression}` parts, from position `pos`.
#[verifier::opaque]
pub open spec fn d_split_from(raw: Seq<char>, sp: Span, pos: int, acc: Seq<TextPartView>) -> Result<
    Seq<TextPartView>,
    ErrorView,
>
    decreases raw.len() - pos,
{
    if pos < 0 || pos > raw.len() {
        Err(nothing())
    } else {
        match find_char(raw, pos, '{') {
            None => {
                let rest = raw.subrange(pos, raw.len() as int);
                let acc2 = if rest.len() > 0 {
                    acc.push(TextPartView::Literal(rest))
                } else {
                    acc
                };
                if acc2.len() == 0 {
                    Ok(seq![TextPartView::Literal(Seq::empty())])
                } else {
                    Ok(acc2)
                }
            },
            Some(b) => if !(pos <= b < raw.len()) {
                Err(nothing())
            } else {
                let acc1 = if b > pos {
                    acc.push(TextPartView::Literal(raw.subrange(pos, b)))
                } else {
                    acc
                };
                match brace_match(raw, b + 1, 1, false) {
                    None => Err(located(sp.line, sp.column, "unterminated '{expression}' in text"@)),
                    Some(e) => if !(b + 1 <= e < raw.len()) {
                        Err(nothing())
                    } else {
                        match spec_parse_expr(raw.subrange(b + 1, e), sp) {
                            Err(x) => Err(x),
                            Ok(x) => d_split_from(raw, sp, e + 1, acc1.push(TextPartView::Expr(x))),
                        }
                    },
                }
            },
        }
    }
}

/// What `split_interpolations` returns for `raw` at `sp`.
pub open spec fn d_split(raw: Seq<char>, sp: Span) -> Result<Seq<TextPartView>, ErrorView> {
    d_split_from(raw, sp, 0, Seq::empty())
}

/// A text run from `i` up to the next `<`.
#[verifier::opaque]
pub open spec fn text_end(s: Seq<char>, i: int) -> int
    decreases s.len() - i,
{
    if 0 <= i < s.len() && s[i] != '<' {
        text_end(s, i + 1)
    } else {
        i
    }
}

#[verifier::opaque]
pub open spec fn d_text(s: Seq<char>, i: int) -> Result<(NodeView, int), ErrorView> {
    let sp = span_at_char(s, i);
    let k = text_end(s, i);
    match d_split(spec_decode(s.subrange(i, k)), sp) {
        Err(e) => Err(e),
        Ok(parts) => Ok((NodeView::Text { parts, span: sp }, k)),
    }
}

/// Whether an element starts at `j`.
pub open spec fn opens_element(s: Seq<char>, j: int) -> bool {
    starts_at(s, j, "<"@) && !starts_at(s, j, "</"@) && !starts_at(s, j, "<!--"@)
}

pub open spec fn d_node(s: Seq<char>, i: int) -> Result<(NodeView, int), ErrorView>
    decreases s.len() - i, 2int,
{
    if i < 0 || i > s.len() {
        Err(nothing())
    } else {
        let j = d_skip_wc(s, i);
        if !(i <= j <= s.len()) {
            Err(nothing())
        } else if opens_element(s, j) {
            d_element(s, j)
        } else {
            d_text(s, j)
        }
    }
}

pub open spec fn d_element(s: Seq<char>, i: int) -> Result<(NodeView, int), ErrorView>
    decreases s.len() - i, 1int,
{
    if i < 0 || i >= s.len() {
        Err(nothing())
    } else {
        let sp = span_at_char(s, i);
        match d_tag_name(s, i + 1) {
            Err(e) => Err(e),
            Ok((name, k)) => match d_attrs(s, Seq::empty(), k) {
                Err(e) => Err(e),
                Ok((attrs, m)) => match d_finish(s, m) {
                    Err(e) => Err(e),
                    Ok((sc, p)) => if sc {
                        Ok(
                            (
                                NodeView::Element { name, attrs, children: Seq::empty(), span: sp },
                                p,
                            ),
                        )
                    } else if !(i < p <= s.len()) {
                        Err(nothing())
                    } else {
                        match d_children(s, name, Seq::empty(), p) {
                            Err(e) => Err(e),
                            Ok((children, q)) => Ok(
                                (NodeView::Element { name, attrs, children, span: sp }, q),
                            ),
                        }
                    },
                },
            },
        }
    }
}

/// Children of `parent` from `i`, through its closing tag.
pub open spec fn d_children(s: Seq<char>, parent: Seq<char>, acc: Seq<NodeView>, i: int) -> Result<
    (Seq<NodeView>, int),
    ErrorView,
>
    decreases s.len() - i, 3int,
{
    if i < 0 || i > s.len() {
        Err(nothing())
    } else {
        let j = d_skip_wc(s, i);
        if !(i <= j <= s.len()) {
            Err(nothing())
        } else if j == s.len() {
            Err(derr(s, j, unclosed_msg(parent)))
        } else if starts_at(s, j, "</"@) {
            match d_tag_name(s, j + 2) {
                Err(e) => Err(e),
                Ok((close, k)) => {
                    let m = ws_end(s, k);
                    if !starts_at(s, m, ">"@) {
                        Err(derr(s, m, "expected '>' after closing tag"@))
                    } else if close != parent {
                        Err(derr(s, m + 1, mismatched_msg(close, parent)))
                    } else {
                        Ok((acc, m + 1))
                    }
                },
            }
        } else {
            match d_node(s, j) {
                Err(e) => Err(e),
                Ok((nd, k)) => if j < k <= s.len() {
                    d_children(s, parent, acc.push(nd), k)
                } else {
                    Err(nothing())
                },
            }
        }
    }
}

/// `<import src="..."/>` at `i`.
#[verifier::opaque]
pub open spec fn d_import(s: Seq<char>, i: int) -> Result<((Seq<char>, Span), int), ErrorView> {
    let sp = span_at_char(s, i);
    match d_attrs(s, Seq::empty(), i + 7) {
        Err(e) => Err(e),
        Ok((attrs, k)) => match d_finish(s, k) {
            Err(e) => Err(e),
            Ok((_, m)) => match first_attr(attrs, "src"@) {
                Some(a) => Ok(((a.raw, sp), m)),
                None => Err(derr(s, i, "import needs src=\"path.native\""@)),
            },
        },
    }
}

/// `<template name=".." args="..">` at `i`, with its body.
#[verifier::opaque]
pub open spec fn d_template(s: Seq<char>, i: int) -> Result<(TemplateView, int), ErrorView> {
    let sp = span_at_char(s, i);
    match d_attrs(s, Seq::empty(), i + 9) {
        Err(e) => Err(e),
        Ok((attrs, k)) => match d_finish(s, k) {
            Err(e) => Err(e),
            Ok((sc, m)) => match first_attr(attrs, "name"@) {
                None => Err(derr(s, i, "template needs name=\"...\""@)),
                Some(na) => {
                    let args = args_decl(
                        match first_attr(attrs, "args"@) {
                            Some(a) => a.raw,
                            None => Seq::empty(),
                        },
                    );
                    if sc {
                        Ok((TemplateView { name: na.raw, args, body: Seq::empty(), span: sp }, m))
                    } else {
                        match d_children(s, "template"@, Seq::empty(), m) {
                            Err(e) => Err(e),
                            Ok((body, q)) => Ok(
                                (TemplateView { name: na.raw, args, body, span: sp }, q),
                            ),
                        }
                    }
                },
            },
        },
    }
}

#[verifier::opaque]
pub open spec fn d_imports(s: Seq<char>, acc: Seq<(Seq<char>, Span)>, i: int) -> Result<
    (Seq<(Seq<char>, Span)>, int),
    ErrorView,
>
    decreases s.len() - i,
{
    if i < 0 || i > s.len() {
        Err(nothing())
    } else if starts_at(s, i, "<import"@) {
        match d_import(s, i) {
            Err(e) => Err(e),
            Ok((imp, k)) => {
                let j = d_skip_wc(s, k);
                if i < j <= s.len() {
                    d_imports(s, acc.push(imp), j)
                } else {
                    Err(nothing())
                }
            },
        }
    } else {
        Ok((acc, i))
    }
}

#[verifier::opaque]
pub open spec fn d_templates(s: Seq<char>, acc: Seq<TemplateView>, i: int) -> Result<
    (Seq<TemplateView>, int),
    ErrorView,
>
    decreases s.len() - i,
{
    if i < 0 || i > s.len() {
        Err(nothing())
    } else if starts_at(s, i, "<template"@) {
        match d_template(s, i) {
            Err(e) => Err(e),
            Ok((t, k)) => {
                let j = d_skip_wc(s, k);
                if i < j <= s.len() {
                    d_templates(s, acc.push(t), j)
                } else {
                    Err(nothing())
                }
            },
        }
    } else {
        Ok((acc, i))
    }
}

/// What `parse_document` returns for the characters `s` of a source.
pub open spec fn spec_parse_document(s: Seq<char>) -> Result<DocumentView, ErrorView> {
    let i0 = d_skip_wc(s, 0);
    match d_imports(s, Seq::empty(), i0) {
        Err(e) => Err(e),
        Ok((imports, i1)) => match d_templates(s, Seq::empty(), i1) {
            Err(e) => Err(e),
            Ok((templates, i2)) => if i2 >= s.len() {
                Err(derr(s, i2, "document is empty \u{2014} expected a view root element"@))
            } else if !starts_at(s, i2, "<"@) {
                Err(derr(s, i2, "expected a view root element"@))
            } else {
                match d_node(s, i2) {
                    Err(e) => Err(e),
                    Ok((root, k)) => if node_tag(root) is None {
                        Err(derr(s, k, "view root must be an element, not text"@))
                    } else {
                        let m = d_skip_wc(s, k);
                        if m != s.len() {
                            Err(
                                derr(
                                    s,
                                    m,
                                    "unexpected content after the view root \u{2014} a document has one root"@,
                                ),
                            )
                        } else {
                            Ok(DocumentView { imports, templates, root })
                        }
                    },
                }
            },
        },
    }
}

/// A document has exactly one view root, and it is an element: whenever parsing succeeds,
/// the root is an element node.
pub proof fn law_parsed_root_is_element(s: Seq<char>)
    ensures
        spec_parse_document(s) matches Ok(d) ==> node_tag(d.root) is Some,
{
}

/// Text without `&` has nothing to decode.
proof fn lemma_replace_without_amp(s: Seq<char>, pat: Seq<char>, rep: Seq<char>)
    requires
        !s.contains('&'),
        pat.len() > 0,
        pat[0] == '&',
    ensures
        replace_all(s, pat, rep) == s,
    decreases s.len(),
{
    reveal(replace_all);
    if s.len() > 0 {
        assert(s[0] != '&');
        assert(!starts_at(s, 0, pat)) by {
            if starts_at(s, 0, pat) {
                assert(s.subrange(0, pat.len() as int)[0] == s[0]);
            }
        }
        assert forall|c: char| s.drop_first().contains(c) implies s.contains(c) by {
            let i = choose|i: int| 0 <= i < s.drop_first().len() && s.drop_first()[i] == c;
            assert(s[i + 1] == c);
        }
        lemma_replace_without_amp(s.drop_first(), pat, rep);
        assert(seq![s[0]] + s.drop_first() =~= s);
    }
}

/// Entity decoding leaves text without `&` unchanged.
pub proof fn law_decode_without_entities(s: Seq<char>)
    requires
        !s.contains('&'),
    ensures
        spec_decode(s) == s,
{
    reveal_strlit("&lt;");
    reveal_strlit("&gt;");
    reveal_strlit("&amp;");
    reveal_strlit("&quot;");
    reveal_strlit("&apos;");
    lemma_replace_without_amp(s, "&lt;"@, "<"@);
    lemma_replace_without_amp(s, "&gt;"@, ">"@);
    lemma_replace_without_amp(s, "&amp;"@, "&"@);
    lemma_replace_without_amp(s, "&quot;"@, "\""@);
    lemma_replace_without_amp(s, "&apos;"@, "'"@);
}

// ---------------------------------------------------------------------------
// What each entity decodes to.
// ---------------------------------------------------------------------------
proof fn lemma_no_start(x: Seq<char>, pat: Seq<char>, k: int)
    requires
        0 <= k < pat.len(),
        k < x.len(),
        x[k] != pat[k],
    ensures
        !starts_at(x, 0, pat),
{
    if starts_at(x, 0, pat) {
        assert(x.subrange(0, pat.len() as int)[k] == x[k]);
    }
}

proof fn lemma_no_amp_concat(a: Seq<char>, b: Seq<char>)
    requires
        !a.contains('&'),
        !b.contains('&'),
    ensures
        !(a + b).contains('&'),
{
    if (a + b).contains('&') {
        let i = choose|i: int| 0 <= i < (a + b).len() && (a + b)[i] == '&';
        if i < a.len() {
            assert(a[i] == '&');
        } else {
            assert(b[i - a.len()] == '&');
        }
    }
}

/// Replacing `pat` (which starts with `&`) leaves a prefix without `&` alone.
proof fn lemma_replace_prefix(a: Seq<char>, b: Seq<char>, pat: Seq<char>, rep: Seq<char>)
    requires
        !a.contains('&'),
        pat.len() > 0,
        pat[0] == '&',
    ensures
        replace_all(a + b, pat, rep) == a + replace_all(b, pat, rep),
    decreases a.len(),
{
    if a.len() == 0 {
        assert(a + b =~= b);
        assert(a + replace_all(b, pat, rep) =~= replace_all(b, pat, rep));
    } else {
        reveal(replace_all);
        let x = a + b;
        assert(x[0] == a[0]);
        assert(a.contains(a[0]));
        lemma_no_start(x, pat, 0);
        assert(x.drop_first() =~= a.drop_first() + b);
        assert forall|c: char| a.drop_first().contains(c) implies a.contains(c) by {
            let i = choose|i: int| 0 <= i < a.drop_first().len() && a.drop_first()[i] == c;
            assert(a[i + 1] == c);
        }
        lemma_replace_prefix(a.drop_first(), b, pat, rep);
        assert(seq![a[0]] + (a.drop_first() + replace_all(b, pat, rep)) =~= a + replace_all(
            b,
            pat,
            rep,
        ));
    }
}

/// One replacement pass over `t1 + e + t2`, where only `e` holds an `&`, at its start: it
/// replaces `e` when `e` is the pattern, and changes nothing when the pattern does not start
/// there.
proof fn lemma_pass(
    t1: Seq<char>,
    e: Seq<char>,
    t2: Seq<char>,
    pat: Seq<char>,
    rep: Seq<char>,
)
    requires
        !t1.contains('&'),
        !t2.contains('&'),
        e.len() > 0,
        e[0] == '&',
        !e.drop_first().contains('&'),
        pat.len() > 0,
        pat[0] == '&',
        pat == e || !starts_at(e + t2, 0, pat),
    ensures
        replace_all(t1 + e + t2, pat, rep) == (if pat == e {
            t1 + rep + t2
        } else {
            t1 + e + t2
        }),
{
    assert(t1 + e + t2 =~= t1 + (e + t2));
    lemma_replace_prefix(t1, e + t2, pat, rep);
    reveal(replace_all);
    let x = e + t2;
    if pat == e {
        assert(x.subrange(0, e.len() as int) =~= e);
        assert(x.skip(e.len() as int) =~= t2);
        lemma_replace_without_amp(t2, pat, rep);
        assert(t1 + (rep + t2) =~= t1 + rep + t2);
    } else {
        assert(x.drop_first() =~= e.drop_first() + t2);
        lemma_no_amp_concat(e.drop_first(), t2);
        lemma_replace_without_amp(x.drop_first(), pat, rep);
        assert(seq![x[0]] + x.drop_first() =~= x);
        assert(t1 + (e + t2) =~= t1 + e + t2);
    }
}

/// A pass over text without `&` changes nothing.
proof fn lemma_pass_clean(t1: Seq<char>, c: Seq<char>, t2: Seq<char>, pat: Seq<char>, rep: Seq<char>)
    requires
        !t1.contains('&'),
        !c.contains('&'),
        !t2.contains('&'),
        pat.len() > 0,
        pat[0] == '&',
    ensures
        replace_all(t1 + c + t2, pat, rep) == t1 + c + t2,
{
    lemma_no_amp_concat(t1, c);
    lemma_no_amp_concat(t1 + c, t2);
    lemma_replace_without_amp(t1 + c + t2, pat, rep);
}

proof fn lemma_entity_facts()
    ensures
        "&lt;"@ =~= seq!['&', 'l', 't', ';'],
        "&gt;"@ =~= seq!['&', 'g', 't', ';'],
        "&amp;"@ =~= seq!['&', 'a', 'm', 'p', ';'],
        "&quot;"@ =~= seq!['&', 'q', 'u', 'o', 't', ';'],
        "&apos;"@ =~= seq!['&', 'a', 'p', 'o', 's', ';'],
        "<"@ =~= seq!['<'],
        ">"@ =~= seq!['>'],
        "&"@ =~= seq!['&'],
        "\""@ =~= seq!['"'],
        "'"@ =~= seq!['\''],
        "quot;"@ =~= seq!['q', 'u', 'o', 't', ';'],
        "apos;"@ =~= seq!['a', 'p', 'o', 's', ';'],
{
    reveal_strlit("&lt;");
    reveal_strlit("&gt;");
    reveal_strlit("&amp;");
    reveal_strlit("&quot;");
    reveal_strlit("&apos;");
    reveal_strlit("<");
    reveal_strlit(">");
    reveal_strlit("&");
    reveal_strlit("\"");
    reveal_strlit("'");
    reveal_strlit("quot;");
    reveal_strlit("apos;");
}

proof fn lemma_entity_shape(e: Seq<char>)
    requires
        e.len() > 0,
        e[0] == '&',
        forall|k: int| 1 <= k < e.len() ==> e[k] != '&',
    ensures
        !e.drop_first().contains('&'),
{
    if e.drop_first().contains('&') {
        let i = choose|i: int| 0 <= i < e.drop_first().len() && e.drop_first()[i] == '&';
        assert(e[i + 1] == '&');
    }
}

/// Each entity decodes to its character: in text without other `&`, `&lt;`, `&gt;`,
/// `&quot;` and `&apos;` become `<`, `>`, `"` and `'`, and `&amp;` becomes `&` (unless what
/// follows would, with that `&`, spell `&quot;` or `&apos;`, which decode in turn).
pub proof fn law_decode_entities(t1: Seq<char>, t2: Seq<char>)
    requires
        !t1.contains('&'),
        !t2.contains('&'),
    ensures
        spec_decode(t1 + "&lt;"@ + t2) == t1 + "<"@ + t2,
        spec_decode(t1 + "&gt;"@ + t2) == t1 + ">"@ + t2,
        spec_decode(t1 + "&quot;"@ + t2) == t1 + "\""@ + t2,
        spec_decode(t1 + "&apos;"@ + t2) == t1 + "'"@ + t2,
        !starts_at(t2, 0, "quot;"@) && !starts_at(t2, 0, "apos;"@) ==> spec_decode(
            t1 + "&amp;"@ + t2,
        ) == t1 + "&"@ + t2,
{
    lemma_entity_facts();
    let lt = "&lt;"@;
    let gt = "&gt;"@;
    let amp = "&amp;"@;
    let quot = "&quot;"@;
    let apos = "&apos;"@;
    let pats = seq![lt, gt, amp, quot, apos];
    lemma_entity_shape(lt);
    lemma_entity_shape(gt);
    lemma_entity_shape(amp);
    lemma_entity_shape(quot);
    lemma_entity_shape(apos);
    assert(!"<"@.contains('&')) by { if "<"@.contains('&') { assert("<"@[0] == '&'); } }
    assert(!">"@.contains('&')) by { if ">"@.contains('&') { assert(">"@[0] == '&'); } }
    assert(!"\""@.contains('&')) by { if "\""@.contains('&') { assert("\""@[0] == '&'); } }
    assert(!"'"@.contains('&')) by { if "'"@.contains('&') { assert("'"@[0] == '&'); } }
    // `&lt;`
    lemma_pass(t1, lt, t2, lt, "<"@);
    lemma_pass_clean(t1, "<"@, t2, gt, ">"@);
    lemma_pass_clean(t1, "<"@, t2, amp, "&"@);
    lemma_pass_clean(t1, "<"@, t2, quot, "\""@);
    lemma_pass_clean(t1, "<"@, t2, apos, "'"@);
    // `&gt;`
    lemma_no_start(gt + t2, lt, 1);
    lemma_pass(t1, gt, t2, lt, "<"@);
    lemma_pass(t1, gt, t2, gt, ">"@);
    lemma_pass_clean(t1, ">"@, t2, amp, "&"@);
    lemma_pass_clean(t1, ">"@, t2, quot, "\""@);
    lemma_pass_clean(t1, ">"@, t2, apos, "'"@);
    // `&quot;`
    lemma_no_start(quot + t2, lt, 1);
    lemma_no_start(quot + t2, gt, 1);
    lemma_no_start(quot + t2, amp, 1);
    lemma_pass(t1, quot, t2, lt, "<"@);
    lemma_pass(t1, quot, t2, gt, ">"@);
    lemma_pass(t1, quot, t2, amp, "&"@);
    lemma_pass(t1, quot, t2, quot, "\""@);
    lemma_pass_clean(t1, "\""@, t2, apos, "'"@);
    // `&apos;`
    lemma_no_start(apos + t2, lt, 1);
    lemma_no_start(apos + t2, gt, 1);
    lemma_no_start(apos + t2, amp, 2);
    lemma_no_start(apos + t2, quot, 1);
    lemma_pass(t1, apos, t2, lt, "<"@);
    lemma_pass(t1, apos, t2, gt, ">"@);
    lemma_pass(t1, apos, t2, amp, "&"@);
    lemma_pass(t1, apos, t2, quot, "\""@);
    lemma_pass(t1, apos, t2, apos, "'"@);
    // `&amp;`
    if !starts_at(t2, 0, "quot;"@) && !starts_at(t2, 0, "apos;"@) {
        let one = "&"@;
        lemma_entity_shape(one);
        lemma_no_start(amp + t2, lt, 1);
        lemma_no_start(amp + t2, gt, 1);
        lemma_pass(t1, amp, t2, lt, "<"@);
        lemma_pass(t1, amp, t2, gt, ">"@);
        lemma_pass(t1, amp, t2, amp, "&"@);
        assert(!starts_at(one + t2, 0, quot)) by {
            if starts_at(one + t2, 0, quot) {
                assert(t2.len() >= 5);
                assert forall|k: int| 0 <= k < 5 implies t2.subrange(0, 5)[k] == "quot;"@[k] by {
                    assert((one + t2).subrange(0, 6)[k + 1] == quot[k + 1]);
                }
                assert(t2.subrange(0, 5) =~= "quot;"@);
            }
        }
        assert(!starts_at(one + t2, 0, apos)) by {
            if starts_at(one + t2, 0, apos) {
                assert(t2.len() >= 5);
                assert forall|k: int| 0 <= k < 5 implies t2.subrange(0, 5)[k] == "apos;"@[k] by {
                    assert((one + t2).subrange(0, 6)[k + 1] == apos[k + 1]);
                }
                assert(t2.subrange(0, 5) =~= "apos;"@);
            }
        }
        lemma_pass(t1, one, t2, quot, "\""@);
        lemma_pass(t1, one, t2, apos, "'"@);
    }
}

} // verus!
