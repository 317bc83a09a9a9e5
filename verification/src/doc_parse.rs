//! Recursive-descent parser for `.native` files, proved against the grammar in `markup`.

use vstd::prelude::*;

use crate::ast::{
    arg_views, attr_views, find_attr, import_views, lemma_node_views_push, node_views, part_views,
    template_views, AttrValue, AttrValueView, Attribute, AttributeView, Document, DocumentView, Node,
    NodeView, Template, TemplateView, TextPart, TextPartView,
};
use crate::error::{Error, ErrorView};
use crate::expr::{lemma_ws_end, ws_end};
use crate::expr_parse::{parse_view, ExprParser};
use crate::markup::{
    arg_of, args_decl, args_from, attr_char_msg, brace_match, d_attr, d_attr_value, d_attrs,
    d_children, d_element, d_finish, d_import, d_imports, d_node, d_template, d_templates, d_quoted, d_skip_wc, d_split, d_split_from, d_tag_name,
    d_text, derr, find_char, find_pat, is_tag_char, lemma_decode_utf8, mismatched_msg, replace_all,
    span_at_char, spec_decode, spec_parse_document, tag_end, text_end, token_end, unclosed_msg, wrapped,
};
use crate::span::{line_col_chars, Span};
use crate::text::{
    append_chars, byte_offset, byte_offsets, chars_of, is_alnum, is_alpha, is_ws, lemma_utf8_len_subrange,
    chars_eq, copy_string, lit, push_char, push_chars, push_str, spec_is_ws, starts_at, starts_with_at, string_of, string_range,
    sub_vec, trim_range, utf8_len,
};

verus! {

// ---------------------------------------------------------------------------
// Scanning over character slices.
// ---------------------------------------------------------------------------
pub(crate) fn ws_from(v: &[char], i: usize) -> (j: usize)
    requires
        i <= v.len(),
    ensures
        j == ws_end(v@, i as int),
        i <= j <= v.len(),
        j < v.len() ==> !spec_is_ws(v@[j as int]),
{
    proof {
        lemma_ws_end(v@, i as int);
    }
    let mut j = i;
    while j < v.len() && is_ws(v[j])
        invariant
            i <= j <= v.len(),
            ws_end(v@, i as int) == ws_end(v@, j as int),
        decreases v.len() - j,
    {
        reveal(ws_end);
        j += 1;
    }
    reveal(ws_end);
    j
}

fn is_tag_ch(c: char) -> (r: bool)
    ensures
        r == is_tag_char(c),
{
    is_alnum(c) || c == '-' || c == '_'
}

fn tag_end_from(v: &[char], i: usize) -> (k: usize)
    requires
        i <= v.len(),
    ensures
        k == tag_end(v@, i as int),
        i <= k <= v.len(),
        k == i ==> !(i < v.len() && is_tag_char(v@[i as int])),
{
    let mut k = i;
    while k < v.len() && is_tag_ch(v[k])
        invariant
            i <= k <= v.len(),
            tag_end(v@, i as int) == tag_end(v@, k as int),
        decreases v.len() - k,
    {
        reveal(tag_end);
        k += 1;
    }
    reveal(tag_end);
    k
}

fn text_end_from(v: &[char], i: usize) -> (k: usize)
    requires
        i <= v.len(),
    ensures
        k == text_end(v@, i as int),
        i <= k <= v.len(),
        k == i ==> !(i < v.len() && v@[i as int] != '<'),
{
    let mut k = i;
    while k < v.len() && v[k] != '<'
        invariant
            i <= k <= v.len(),
            text_end(v@, i as int) == text_end(v@, k as int),
        decreases v.len() - k,
    {
        reveal(text_end);
        k += 1;
    }
    reveal(text_end);
    k
}

pub(crate) fn token_end_from(v: &[char], i: usize) -> (k: usize)
    requires
        i <= v.len(),
    ensures
        k == token_end(v@, i as int),
        i <= k <= v.len(),
        k == i ==> !(i < v.len() && !spec_is_ws(v@[i as int])),
{
    let mut k = i;
    while k < v.len() && !is_ws(v[k])
        invariant
            i <= k <= v.len(),
            token_end(v@, i as int) == token_end(v@, k as int),
        decreases v.len() - k,
    {
        reveal(token_end);
        k += 1;
    }
    reveal(token_end);
    k
}

pub(crate) fn find_char_from(v: &[char], i: usize, c: char) -> (r: Option<usize>)
    requires
        i <= v.len(),
    ensures
        match r {
            Some(k) => find_char(v@, i as int, c) == Some(k as int) && i <= k < v.len() && v@[k as int]
                == c,
            None => find_char(v@, i as int, c) is None,
        },
{
    let mut k = i;
    while k < v.len()
        invariant
            i <= k <= v.len(),
            find_char(v@, i as int, c) == find_char(v@, k as int, c),
        decreases v.len() - k,
    {
        reveal(find_char);
        if v[k] == c {
            return Some(k);
        }
        k += 1;
    }
    reveal(find_char);
    None
}

pub(crate) fn find_pat_from(v: &[char], i: usize, pat: &[char]) -> (r: Option<usize>)
    requires
        i <= v.len(),
    ensures
        match r {
            Some(k) => find_pat(v@, i as int, pat@) == Some(k as int) && i <= k < v.len()
                && starts_at(v@, k as int, pat@),
            None => find_pat(v@, i as int, pat@) is None,
        },
{
    let mut k = i;
    while k < v.len()
        invariant
            i <= k <= v.len(),
            find_pat(v@, i as int, pat@) == find_pat(v@, k as int, pat@),
        decreases v.len() - k,
    {
        reveal(find_pat);
        if starts_with_at(v, k, pat) {
            return Some(k);
        }
        k += 1;
    }
    reveal(find_pat);
    None
}

// ---------------------------------------------------------------------------
// Entity decoding.
// ---------------------------------------------------------------------------
fn replace_pass(s: &Vec<char>, pat: &str, rep: &str) -> (r: Vec<char>)
    requires
        pat@.len() > 0,
    ensures
        r@ == replace_all(s@, pat@, rep@),
{
    let pv = chars_of(pat);
    let rv = chars_of(rep);
    let mut out: Vec<char> = Vec::new();
    let mut i: usize = 0;
    assert(s@.skip(0) =~= s@);
    while i < s.len()
        invariant
            i <= s.len(),
            pv@ == pat@,
            rv@ == rep@,
            pat@.len() > 0,
            replace_all(s@, pat@, rep@) == out@ + replace_all(s@.skip(i as int), pat@, rep@),
        decreases s.len() - i,
    {
        let ghost rest = s@.skip(i as int);
        reveal(replace_all);
        if starts_with_at(s.as_slice(), i, pv.as_slice()) {
            assert(rest.subrange(0, pat@.len() as int) =~= s@.subrange(i as int, i + pat@.len()));
            assert(rest.skip(pat@.len() as int) =~= s@.skip(i + pat@.len()));
            let ghost o0 = out@;
            append_chars(&mut out, rv.as_slice());
            assert(o0 + (rep@ + replace_all(s@.skip(i + pat@.len()), pat@, rep@)) =~= out@
                + replace_all(s@.skip(i + pat@.len()), pat@, rep@));
            i = i + pv.len();
        } else {
            assert(rest.len() > 0);
            assert(!starts_at(rest, 0, pat@)) by {
                if starts_at(rest, 0, pat@) {
                    assert(rest.subrange(0, pat@.len() as int) =~= s@.subrange(
                        i as int,
                        i + pat@.len(),
                    ));
                }
            }
            assert(rest.drop_first() =~= s@.skip(i + 1));
            let ghost o0 = out@;
            out.push(s[i]);
            assert(o0 + (seq![rest[0]] + replace_all(s@.skip(i + 1), pat@, rep@)) =~= out@
                + replace_all(s@.skip(i + 1), pat@, rep@));
            i = i + 1;
        }
    }
    reveal(replace_all);
    assert(s@.skip(i as int) =~= Seq::<char>::empty());
    assert(out@ + Seq::<char>::empty() =~= out@);
    out
}

/// The characters of `v[from..to]` with entities decoded.
fn decode_range(v: &[char], from: usize, to: usize) -> (r: Vec<char>)
    requires
        from <= to <= v.len(),
    ensures
        r@ == spec_decode(v@.subrange(from as int, to as int)),
        utf8_len(r@) <= utf8_len(v@.subrange(from as int, to as int)),
{
    proof {
        reveal_strlit("&lt;");
        reveal_strlit("&gt;");
        reveal_strlit("&amp;");
        reveal_strlit("&quot;");
        reveal_strlit("&apos;");
        lemma_decode_utf8(v@.subrange(from as int, to as int));
    }
    let t = sub_vec(v, from, to);
    let a = replace_pass(&t, "&lt;", "<");
    let b = replace_pass(&a, "&gt;", ">");
    let c = replace_pass(&b, "&amp;", "&");
    let d = replace_pass(&c, "&quot;", "\"");
    replace_pass(&d, "&apos;", "'")
}

// ---------------------------------------------------------------------------
// Interpolations in text.
// ---------------------------------------------------------------------------
/// The `}` closing an interpolation whose inside starts at `k0`.
fn brace_from(t: &[char], k0: usize) -> (r: Option<usize>)
    requires
        1 <= k0 <= t.len(),
    ensures
        match r {
            Some(e) => brace_match(t@, k0 as int, 1, false) == Some(e as int) && k0 <= e < t.len(),
            None => brace_match(t@, k0 as int, 1, false) is None,
        },
{
    let mut k = k0;
    let mut depth: usize = 1;
    let mut in_str = false;
    while k < t.len()
        invariant
            k0 <= k <= t.len(),
            1 <= depth <= k,
            brace_match(t@, k0 as int, 1, false) == brace_match(t@, k as int, depth as nat, in_str),
        decreases t.len() - k,
    {
        reveal(brace_match);
        let c = t[k];
        if in_str {
            if c == '\\' {
                if k + 1 < t.len() {
                    k = k + 2;
                } else {
                    assert(brace_match(t@, k + 2, depth as nat, true) is None);
                    return None;
                }
            } else if c == '\'' {
                in_str = false;
                k = k + 1;
            } else {
                k = k + 1;
            }
        } else if c == '\'' {
            in_str = true;
            k = k + 1;
        } else if c == '{' {
            depth = depth + 1;
            k = k + 1;
        } else if c == '}' {
            if depth <= 1 {
                return Some(k);
            } else {
                depth = depth - 1;
                k = k + 1;
            }
        } else {
            k = k + 1;
        }
    }
    reveal(brace_match);
    None
}

/// The value of a split outcome.
pub open spec fn parts_res(r: Result<Vec<TextPart>, Error>) -> Result<Seq<TextPartView>, ErrorView> {
    match r {
        Ok(v) => Ok(part_views(v@)),
        Err(e) => Err(e@),
    }
}

fn split_chars(raw: &Vec<char>, sp: Span) -> (r: Result<Vec<TextPart>, Error>)
    requires
        sp.start + utf8_len(raw@) <= usize::MAX,
    ensures
        parts_res(r) == d_split(raw@, sp),
{
    let mut acc: Vec<TextPart> = Vec::new();
    let mut pos: usize = 0;
    assert(part_views(acc@) =~= Seq::<TextPartView>::empty());
    loop
        invariant
            pos <= raw.len(),
            sp.start + utf8_len(raw@) <= usize::MAX,
            d_split(raw@, sp) == d_split_from(raw@, sp, pos as int, part_views(acc@)),
        decreases raw.len() - pos,
    {
        reveal(d_split_from);
        match find_char_from(raw.as_slice(), pos, '{') {
            None => {
                if pos < raw.len() {
                    let lit = string_range(raw.as_slice(), pos, raw.len());
                    let ghost a0 = acc@;
                    acc.push(TextPart::Literal(lit));
                    assert(part_views(acc@) =~= part_views(a0).push(
                        TextPartView::Literal(raw@.subrange(pos as int, raw.len() as int)),
                    ));
                }
                if acc.len() == 0 {
                    acc.push(TextPart::Literal(String::new()));
                    assert(part_views(acc@) =~= seq![TextPartView::Literal(Seq::<char>::empty())]);
                }
                return Ok(acc);
            },
            Some(b) => {
                if b > pos {
                    let lit = string_range(raw.as_slice(), pos, b);
                    let ghost a0 = acc@;
                    acc.push(TextPart::Literal(lit));
                    assert(part_views(acc@) =~= part_views(a0).push(
                        TextPartView::Literal(raw@.subrange(pos as int, b as int)),
                    ));
                }
                match brace_from(raw.as_slice(), b + 1) {
                    None => {
                        return Err(
                            Error::at(sp.line, sp.column, "unterminated '{expression}' in text"),
                        );
                    },
                    Some(e) => {
                        let inner = sub_vec(raw.as_slice(), b + 1, e);
                        proof {
                            lemma_utf8_len_subrange(raw@, b + 1, e as int);
                        }
                        let ep = ExprParser::new(inner, sp);
                        match ep.parse_all() {
                            Err(x) => {
                                return Err(x);
                            },
                            Ok(x) => {
                                let ghost a0 = acc@;
                                let ghost xv = x@;
                                acc.push(TextPart::Expr(x));
                                assert(part_views(acc@) =~= part_views(a0).push(
                                    TextPartView::Expr(xv),
                                ));
                                pos = e + 1;
                            },
                        }
                    },
                }
            },
        }
    }
}

/// Split text into literal / `{expr}` parts.
pub fn split_interpolations(raw: &str, span: Span) -> (r: Result<Vec<TextPart>, Error>)
    requires
        span.start + utf8_len(raw@) <= usize::MAX,
    ensures
        parts_res(r) == d_split(raw@, span),
{
    let v = chars_of(raw);
    split_chars(&v, span)
}

// ---------------------------------------------------------------------------
// Attribute values and template arguments.
// ---------------------------------------------------------------------------
pub open spec fn value_res(r: Result<AttrValue, Error>) -> Result<AttrValueView, ErrorView> {
    match r {
        Ok(v) => Ok(v@),
        Err(e) => Err(e@),
    }
}

/// If the whole value is `{expr}`, parse it as an expression; otherwise keep the literal.
fn attr_value(raw: &Vec<char>, sp: Span) -> (r: Result<AttrValue, Error>)
    requires
        sp.start + utf8_len(raw@) <= usize::MAX,
    ensures
        value_res(r) == d_attr_value(raw@, sp),
{
    let (a, b) = trim_range(raw.as_slice(), 0, raw.len());
    let (c, d) = trim_range(raw.as_slice(), a, b);
    let ghost u = raw@.subrange(c as int, d as int);
    assert(raw@.subrange(0, raw.len() as int) =~= raw@);
    if d - c >= 2 && raw[c] == '{' && raw[d - 1] == '}' {
        assert(raw@.subrange(c + 1, d - 1) =~= u.subrange(1, u.len() - 1));
        let inner = sub_vec(raw.as_slice(), c + 1, d - 1);
        proof {
            lemma_utf8_len_subrange(raw@, c + 1, d - 1);
        }
        let ep = ExprParser::new(inner, sp);
        match ep.parse_all() {
            Err(e) => Err(e),
            Ok(x) => Ok(AttrValue::Expr(x)),
        }
    } else {
        Ok(AttrValue::Literal(string_of(raw.as_slice())))
    }
}

/// One declared argument: `name` or `name=default`.
fn arg_from(tok: &Vec<char>) -> (r: (String, Option<String>))
    ensures
        (r.0@, match r.1 {
            Some(d) => Some(d@),
            None => None,
        }) == arg_of(tok@),
{
    match find_char_from(tok.as_slice(), 0, '=') {
        Some(e) => (
            string_range(tok.as_slice(), 0, e),
            Some(string_range(tok.as_slice(), e + 1, tok.len())),
        ),
        None => (string_of(tok.as_slice()), None),
    }
}

/// `template args="a b=1"`: declared argument names with optional literal defaults.
fn args_of(raw: &Vec<char>) -> (r: Vec<(String, Option<String>)>)
    ensures
        arg_views(r@) == args_decl(raw@),
{
    let mut out: Vec<(String, Option<String>)> = Vec::new();
    let mut i: usize = 0;
    assert(arg_views(out@) =~= Seq::<(Seq<char>, Option<Seq<char>>)>::empty());
    loop
        invariant
            i <= raw.len(),
            args_decl(raw@) == args_from(raw@, i as int, arg_views(out@)),
        decreases raw.len() - i,
    {
        reveal(args_from);
        let j = ws_from(raw.as_slice(), i);
        if j >= raw.len() {
            return out;
        }
        let k = token_end_from(raw.as_slice(), j);
        let tok = sub_vec(raw.as_slice(), j, k);
        let a = arg_from(&tok);
        let ghost o0 = out@;
        let ghost av = arg_of(tok@);
        out.push(a);
        assert(arg_views(out@) =~= arg_views(o0).push(av));
        i = k;
    }
}

// ---------------------------------------------------------------------------
// The document parser.
// ---------------------------------------------------------------------------
/// Parser state: the characters of the source and the byte offset of each of them.
struct DocParser {
    s: Vec<char>,
    offs: Vec<usize>,
}

pub open spec fn name_res(r: Result<(String, usize), Error>) -> Result<(Seq<char>, int), ErrorView> {
    match r {
        Ok((n, k)) => Ok((n@, k as int)),
        Err(e) => Err(e@),
    }
}

pub open spec fn quoted_res(r: Result<(Vec<char>, Span, usize), Error>) -> Result<
    (Seq<char>, Span, int),
    ErrorView,
> {
    match r {
        Ok((v, sp, k)) => Ok((v@, sp, k as int)),
        Err(e) => Err(e@),
    }
}

pub open spec fn attr_res(r: Result<(Attribute, usize), Error>) -> Result<
    (AttributeView, int),
    ErrorView,
> {
    match r {
        Ok((a, k)) => Ok((a@, k as int)),
        Err(e) => Err(e@),
    }
}

pub open spec fn attrs_res(r: Result<(Vec<Attribute>, usize), Error>) -> Result<
    (Seq<AttributeView>, int),
    ErrorView,
> {
    match r {
        Ok((v, k)) => Ok((attr_views(v@), k as int)),
        Err(e) => Err(e@),
    }
}

pub open spec fn finish_res(r: Result<(bool, usize), Error>) -> Result<(bool, int), ErrorView> {
    match r {
        Ok((b, k)) => Ok((b, k as int)),
        Err(e) => Err(e@),
    }
}

impl DocParser {
    spec fn wf(&self) -> bool {
        &&& self.offs.len() == self.s.len() + 1
        &&& forall|k: int| 0 <= k <= self.s.len() ==> #[trigger] self.offs@[k] == byte_offset(self.s@, k)
        &&& utf8_len(self.s@) < usize::MAX
    }

    fn new(s: Vec<char>) -> (p: Self)
        requires
            utf8_len(s@) < usize::MAX,
        ensures
            p.wf(),
            p.s@ == s@,
    {
        let offs = byte_offsets(&s);
        DocParser { s, offs }
    }

    fn err(&self, i: usize, msg: &str) -> (e: Error)
        requires
            self.wf(),
            i <= self.s.len(),
        ensures
            e@ == derr(self.s@, i as int, msg@),
    {
        let (line, column) = line_col_chars(&self.s, self.offs[i]);
        Error::at(line, column, msg)
    }

    fn err_string(&self, i: usize, msg: String) -> (e: Error)
        requires
            self.wf(),
            i <= self.s.len(),
        ensures
            e@ == derr(self.s@, i as int, msg@),
    {
        let (line, column) = line_col_chars(&self.s, self.offs[i]);
        Error::at_string(line, column, msg)
    }

    fn span_at(&self, i: usize) -> (sp: Span)
        requires
            self.wf(),
            i <= self.s.len(),
        ensures
            sp == span_at_char(self.s@, i as int),
            sp.start == byte_offset(self.s@, i as int),
    {
        Span::at_chars(&self.s, self.offs[i])
    }

    fn starts_lit(&self, j: usize, pat: &str) -> (r: bool)
        ensures
            r == starts_at(self.s@, j as int, pat@),
    {
        let pv = chars_of(pat);
        starts_with_at(self.s.as_slice(), j, pv.as_slice())
    }

    /// Skip whitespace and comments from `i`.
    fn skip_wc(&self, i: usize) -> (j: usize)
        requires
            i <= self.s.len(),
        ensures
            j == d_skip_wc(self.s@, i as int),
            i <= j <= self.s.len(),
            j < self.s.len() ==> !spec_is_ws(self.s@[j as int]) && !starts_at(
                self.s@,
                j as int,
                "<!--"@,
            ),
    {
        proof {
            reveal_strlit("<!--");
            reveal_strlit("-->");
        }
        let open = chars_of("<!--");
        let close = chars_of("-->");
        let mut p = i;
        loop
            invariant
                i <= p <= self.s.len(),
                open@ == "<!--"@,
                close@ == "-->"@,
                d_skip_wc(self.s@, i as int) == d_skip_wc(self.s@, p as int),
            decreases self.s.len() - p,
        {
            reveal(d_skip_wc);
            proof {
                reveal_strlit("<!--");
                reveal_strlit("-->");
            }
            let j = ws_from(self.s.as_slice(), p);
            if starts_with_at(self.s.as_slice(), j, open.as_slice()) {
                match find_pat_from(self.s.as_slice(), j + 4, close.as_slice()) {
                    Some(k) => {
                        p = k + 3;
                    },
                    None => {
                        return self.s.len();
                    },
                }
            } else {
                return j;
            }
        }
    }

    fn tag_name(&self, i: usize) -> (r: Result<(String, usize), Error>)
        requires
            self.wf(),
            i <= self.s.len(),
        ensures
            name_res(r) == d_tag_name(self.s@, i as int),
            r matches Ok((_, k)) ==> i < k <= self.s.len(),
    {
        reveal(d_tag_name);
        let k = tag_end_from(self.s.as_slice(), i);
        if k == i {
            Err(self.err(i, "expected tag name"))
        } else {
            Ok((string_range(self.s.as_slice(), i, k), k))
        }
    }

    /// A quoted attribute value at `i`.
    fn quoted(&self, i: usize) -> (r: Result<(Vec<char>, Span, usize), Error>)
        requires
            self.wf(),
            i <= self.s.len(),
        ensures
            quoted_res(r) == d_quoted(self.s@, i as int),
            r matches Ok((raw, sp, k)) ==> i < k <= self.s.len() && sp.start + utf8_len(raw@)
                <= usize::MAX,
    {
        reveal(d_quoted);
        if i < self.s.len() && (self.s[i] == '"' || self.s[i] == '\'') {
            let start = i + 1;
            let sp = self.span_at(start);
            match find_char_from(self.s.as_slice(), start, self.s[i]) {
                Some(k) => {
                    let raw = decode_range(self.s.as_slice(), start, k);
                    proof {
                        lemma_utf8_len_subrange(self.s@, start as int, k as int);
                        lemma_utf8_len_subrange(self.s@, start as int, k + 1);
                    }
                    let full = Span {
                        start: sp.start,
                        end: self.offs[k + 1],
                        line: sp.line,
                        column: sp.column,
                    };
                    Ok((raw, full, k + 1))
                },
                None => Err(self.err(self.s.len(), "unterminated attribute value")),
            }
        } else {
            Err(self.err(i, "attribute value must be quoted"))
        }
    }

    /// One attribute whose name starts at `i`.
    fn attr(&self, i: usize) -> (r: Result<(Attribute, usize), Error>)
        requires
            self.wf(),
            i < self.s.len(),
            is_tag_char(self.s@[i as int]),
        ensures
            attr_res(r) == d_attr(self.s@, i as int),
            r matches Ok((_, k)) ==> i < k <= self.s.len(),
    {
        reveal(d_attr);
        let sp = self.span_at(i);
        let k = tag_end_from(self.s.as_slice(), i);
        let name = string_range(self.s.as_slice(), i, k);
        let j = ws_from(self.s.as_slice(), k);
        if !self.starts_lit(j, "=") {
            return Ok(
                (
                    Attribute {
                        name,
                        raw: lit("true"),
                        value: AttrValue::Literal(lit("true")),
                        span: sp,
                    },
                    j,
                ),
            );
        }
        proof {
            reveal_strlit("=");
        }
        let q = ws_from(self.s.as_slice(), j + 1);
        match self.quoted(q) {
            Err(e) => Err(e),
            Ok((raw, vsp, p)) => match attr_value(&raw, vsp) {
                Err(e) => Err(e),
                Ok(v) => Ok((Attribute { name, raw: string_of(raw.as_slice()), value: v, span: vsp }, p)),
            },
        }
    }

    /// Attributes from `i` up to `/`, `>` or the end.
    fn attrs(&self, i: usize) -> (r: Result<(Vec<Attribute>, usize), Error>)
        requires
            self.wf(),
            i <= self.s.len(),
        ensures
            attrs_res(r) == d_attrs(self.s@, Seq::empty(), i as int),
            r matches Ok((_, k)) ==> i <= k <= self.s.len(),
    {
        let mut acc: Vec<Attribute> = Vec::new();
        let mut p = i;
        assert(attr_views(acc@) =~= Seq::<AttributeView>::empty());
        loop
            invariant
                self.wf(),
                i <= p <= self.s.len(),
                d_attrs(self.s@, Seq::empty(), i as int) == d_attrs(self.s@, attr_views(acc@), p as int),
            decreases self.s.len() - p,
        {
            reveal(d_attrs);
            let j = ws_from(self.s.as_slice(), p);
            if j == self.s.len() || self.s[j] == '/' || self.s[j] == '>' {
                return Ok((acc, j));
            }
            if is_alpha(self.s[j]) || self.s[j] == '_' {
                match self.attr(j) {
                    Err(e) => {
                        return Err(e);
                    },
                    Ok((a, k)) => {
                        let ghost a0 = acc@;
                        let ghost av = a@;
                        acc.push(a);
                        assert(attr_views(acc@) =~= attr_views(a0).push(av));
                        p = k;
                    },
                }
            } else {
                let msg = attr_char_message(self.s[j]);
                return Err(self.err_string(j, msg));
            }
        }
    }

    /// The end of an opening tag: `/>` or `>`.
    fn finish(&self, i: usize) -> (r: Result<(bool, usize), Error>)
        requires
            self.wf(),
            i <= self.s.len(),
        ensures
            finish_res(r) == d_finish(self.s@, i as int),
            r matches Ok((_, k)) ==> i < k <= self.s.len(),
    {
        reveal(d_finish);
        proof {
            reveal_strlit("/>");
            reveal_strlit(">");
        }
        let j = ws_from(self.s.as_slice(), i);
        if self.starts_lit(j, "/>") {
            Ok((true, j + 2))
        } else if self.starts_lit(j, ">") {
            Ok((false, j + 1))
        } else {
            Err(self.err(j, "expected '>' or '/>' after tag"))
        }
    }
}

fn attr_char_message(c: char) -> (m: String)
    ensures
        m@ == attr_char_msg(c),
{
    reveal(attr_char_msg);
    let mut m = lit("unexpected '");
    push_char(&mut m, c);
    push_str(&mut m, "' in tag \u{2014} attribute names start with a letter");
    m
}

pub open spec fn node_res(r: Result<(Node, usize), Error>) -> Result<(NodeView, int), ErrorView> {
    match r {
        Ok((n, k)) => Ok((n@, k as int)),
        Err(e) => Err(e@),
    }
}

pub open spec fn nodes_res(r: Result<(Vec<Node>, usize), Error>) -> Result<
    (Seq<NodeView>, int),
    ErrorView,
> {
    match r {
        Ok((v, k)) => Ok((node_views(v@), k as int)),
        Err(e) => Err(e@),
    }
}

fn unclosed_message(parent: &[char]) -> (m: String)
    ensures
        m@ == unclosed_msg(parent@),
{
    reveal(unclosed_msg);
    let mut m = lit("unclosed <");
    push_chars(&mut m, parent, 0, parent.len());
    push_str(&mut m, ">");
    assert(parent@.subrange(0, parent@.len() as int) =~= parent@);
    m
}

fn mismatched_message(close: &[char], parent: &[char]) -> (m: String)
    ensures
        m@ == mismatched_msg(close@, parent@),
{
    reveal(mismatched_msg);
    let mut m = lit("mismatched closing tag </");
    push_chars(&mut m, close, 0, close.len());
    push_str(&mut m, "> \u{2014} open tag was <");
    push_chars(&mut m, parent, 0, parent.len());
    push_str(&mut m, ">");
    assert(parent@.subrange(0, parent@.len() as int) =~= parent@);
    assert(close@.subrange(0, close@.len() as int) =~= close@);
    m
}

impl DocParser {
    /// A text run at `i`, up to the next `<`.
    fn text(&self, i: usize) -> (r: Result<(Node, usize), Error>)
        requires
            self.wf(),
            i <= self.s.len(),
        ensures
            node_res(r) == d_text(self.s@, i as int),
            r matches Ok((_, k)) ==> i <= k <= self.s.len() && (k == i ==> !(i < self.s.len()
                && self.s@[i as int] != '<')),
    {
        reveal(d_text);
        let sp = self.span_at(i);
        let k = text_end_from(self.s.as_slice(), i);
        let raw = decode_range(self.s.as_slice(), i, k);
        proof {
            lemma_utf8_len_subrange(self.s@, i as int, k as int);
        }
        match split_chars(&raw, sp) {
            Err(e) => Err(e),
            Ok(parts) => Ok((Node::Text { parts, span: sp }, k)),
        }
    }

    fn node(&self, i: usize) -> (r: Result<(Node, usize), Error>)
        requires
            self.wf(),
            i <= self.s.len(),
        ensures
            node_res(r) == d_node(self.s@, i as int),
            r matches Ok((_, k)) ==> i <= k <= self.s.len(),
            r matches Ok((_, k)) ==> (i < self.s.len() && !spec_is_ws(self.s@[i as int])
                && !starts_at(self.s@, i as int, "</"@) && !starts_at(self.s@, i as int, "<!--"@))
                ==> i < k,
        decreases self.s.len() - i, 2int,
    {
        let j = self.skip_wc(i);
        if self.starts_lit(j, "<") && !self.starts_lit(j, "</") && !self.starts_lit(j, "<!--") {
            proof {
                reveal_strlit("<");
            }
            self.element(j)
        } else {
            proof {
                reveal_strlit("<");
                reveal_strlit("</");
                reveal_strlit("<!--");
                if j < self.s.len() && self.s@[j as int] == '<' {
                    assert(self.s@.subrange(j as int, j + 1) =~= "<"@);
                }
            }
            self.text(j)
        }
    }

    fn element(&self, i: usize) -> (r: Result<(Node, usize), Error>)
        requires
            self.wf(),
            i < self.s.len(),
        ensures
            node_res(r) == d_element(self.s@, i as int),
            r matches Ok((_, k)) ==> i < k <= self.s.len(),
        decreases self.s.len() - i, 1int,
    {
        let sp = self.span_at(i);
        match self.tag_name(i + 1) {
            Err(e) => Err(e),
            Ok((name, k)) => match self.attrs(k) {
                Err(e) => Err(e),
                Ok((attrs, m)) => match self.finish(m) {
                    Err(e) => Err(e),
                    Ok((sc, p)) => if sc {
                        Ok((Node::Element { name, attrs, children: Vec::new(), span: sp }, p))
                    } else {
                        proof {
                            reveal(d_tag_name);
                        }
                        let parent = sub_vec(self.s.as_slice(), i + 1, k);
                        match self.children(&parent, p) {
                            Err(e) => Err(e),
                            Ok((children, q)) => Ok(
                                (Node::Element { name, attrs, children, span: sp }, q),
                            ),
                        }
                    },
                },
            },
        }
    }

    /// Children of `parent` from `i`, through its closing tag.
    fn children(&self, parent: &Vec<char>, i: usize) -> (r: Result<(Vec<Node>, usize), Error>)
        requires
            self.wf(),
            i <= self.s.len(),
        ensures
            nodes_res(r) == d_children(self.s@, parent@, Seq::empty(), i as int),
            r matches Ok((_, k)) ==> i < k <= self.s.len(),
        decreases self.s.len() - i, 3int,
    {
        let mut acc: Vec<Node> = Vec::new();
        let mut p = i;
        assert(node_views(acc@) =~= Seq::<NodeView>::empty());
        loop
            invariant
                self.wf(),
                i <= p <= self.s.len(),
                d_children(self.s@, parent@, Seq::empty(), i as int) == d_children(
                    self.s@,
                    parent@,
                    node_views(acc@),
                    p as int,
                ),
            decreases self.s.len() - p,
        {
            let j = self.skip_wc(p);
            if j == self.s.len() {
                let msg = unclosed_message(parent.as_slice());
                return Err(self.err_string(j, msg));
            }
            if self.starts_lit(j, "</") {
                proof {
                    reveal_strlit("</");
                    reveal_strlit(">");
                }
                match self.tag_name(j + 2) {
                    Err(e) => {
                        return Err(e);
                    },
                    Ok((_, k)) => {
                        proof {
                            reveal(d_tag_name);
                        }
                        let m = ws_from(self.s.as_slice(), k);
                        if !self.starts_lit(m, ">") {
                            return Err(self.err(m, "expected '>' after closing tag"));
                        }
                        let close = sub_vec(self.s.as_slice(), j + 2, k);
                        if !chars_eq(close.as_slice(), parent.as_slice()) {
                            let msg = mismatched_message(close.as_slice(), parent.as_slice());
                            return Err(self.err_string(m + 1, msg));
                        }
                        return Ok((acc, m + 1));
                    },
                }
            }
            match self.node(j) {
                Err(e) => {
                    return Err(e);
                },
                Ok((nd, k)) => {
                    proof {
                        lemma_node_views_push(acc@, nd);
                    }
                    acc.push(nd);
                    p = k;
                },
            }
        }
    }
}

pub open spec fn import_res(r: Result<((String, Span), usize), Error>) -> Result<
    ((Seq<char>, Span), int),
    ErrorView,
> {
    match r {
        Ok(((p, sp), k)) => Ok(((p@, sp), k as int)),
        Err(e) => Err(e@),
    }
}

pub open spec fn template_res(r: Result<(Template, usize), Error>) -> Result<
    (TemplateView, int),
    ErrorView,
> {
    match r {
        Ok((t, k)) => Ok((t@, k as int)),
        Err(e) => Err(e@),
    }
}

/// The value of a document parse.
pub open spec fn doc_res(r: Result<Document, Error>) -> Result<DocumentView, ErrorView> {
    match r {
        Ok(d) => Ok(d@),
        Err(e) => Err(e@),
    }
}

impl DocParser {
    /// `<import src="..."/>` at `i`.
    fn import(&self, i: usize) -> (r: Result<((String, Span), usize), Error>)
        requires
            self.wf(),
            i + 7 <= self.s.len(),
        ensures
            import_res(r) == d_import(self.s@, i as int),
            r matches Ok((_, k)) ==> i < k <= self.s.len(),
    {
        reveal(d_import);
        let sp = self.span_at(i);
        match self.attrs(i + 7) {
            Err(e) => Err(e),
            Ok((attrs, k)) => match self.finish(k) {
                Err(e) => Err(e),
                Ok((_, m)) => {
                    let key = chars_of("src");
                    match find_attr(&attrs, key.as_slice()) {
                        Some(x) => Ok(((copy_string(&attrs[x].raw), sp), m)),
                        None => Err(self.err(i, "import needs src=\"path.native\"")),
                    }
                },
            },
        }
    }

    /// `<template name=".." args="..">` at `i`, with its body.
    fn template(&self, i: usize) -> (r: Result<(Template, usize), Error>)
        requires
            self.wf(),
            i + 9 <= self.s.len(),
        ensures
            template_res(r) == d_template(self.s@, i as int),
            r matches Ok((_, k)) ==> i < k <= self.s.len(),
    {
        reveal(d_template);
        let sp = self.span_at(i);
        match self.attrs(i + 9) {
            Err(e) => Err(e),
            Ok((attrs, k)) => match self.finish(k) {
                Err(e) => Err(e),
                Ok((sc, m)) => {
                    let name_key = chars_of("name");
                    match find_attr(&attrs, name_key.as_slice()) {
                        None => Err(self.err(i, "template needs name=\"...\"")),
                        Some(x) => {
                            let name = copy_string(&attrs[x].raw);
                            let args_key = chars_of("args");
                            let raw_args = match find_attr(&attrs, args_key.as_slice()) {
                                Some(y) => chars_of(attrs[y].raw.as_str()),
                                None => Vec::new(),
                            };
                            let args = args_of(&raw_args);
                            if sc {
                                Ok((Template { name, args, body: Vec::new(), span: sp }, m))
                            } else {
                                let parent = chars_of("template");
                                match self.children(&parent, m) {
                                    Err(e) => Err(e),
                                    Ok((body, q)) => Ok((Template { name, args, body, span: sp }, q)),
                                }
                            }
                        },
                    }
                },
            },
        }
    }
}

/// Parse a complete document. Templates and imports must precede the single view root.
pub fn parse_document(source: &str) -> (r: Result<Document, Error>)
    requires
        utf8_len(source@) < usize::MAX,
    ensures
        doc_res(r) == spec_parse_document(source@),
{
    proof {
        reveal_strlit("<import");
        reveal_strlit("<template");
        reveal_strlit("<");
    }
    let p = DocParser::new(chars_of(source));
    let len = p.s.len();
    let i0 = p.skip_wc(0);
    let mut imports: Vec<(String, Span)> = Vec::new();
    let mut i = i0;
    assert(import_views(imports@) =~= Seq::<(Seq<char>, Span)>::empty());
    while p.starts_lit(i, "<import")
        invariant
            p.wf(),
            p.s@ == source@,
            i0 <= i <= p.s.len(),
            i0 as int == d_skip_wc(p.s@, 0),
            d_imports(p.s@, Seq::empty(), i0 as int) == d_imports(
                p.s@,
                import_views(imports@),
                i as int,
            ),
        decreases p.s.len() - i,
    {
        reveal(d_imports);
        proof {
            reveal_strlit("<import");
        }
        match p.import(i) {
            Err(e) => {
                return Err(e);
            },
            Ok((imp, k)) => {
                let j = p.skip_wc(k);
                let ghost a0 = imports@;
                let ghost iv = (imp.0@, imp.1);
                imports.push(imp);
                assert(import_views(imports@) =~= import_views(a0).push(iv));
                i = j;
            },
        }
    }
    proof {
        reveal(d_imports);
    }
    let i1 = i;
    let mut templates: Vec<Template> = Vec::new();
    assert(template_views(templates@) =~= Seq::<TemplateView>::empty());
    while p.starts_lit(i, "<template")
        invariant
            p.wf(),
            p.s@ == source@,
            i1 <= i <= p.s.len(),
            i0 as int == d_skip_wc(p.s@, 0),
            d_imports(p.s@, Seq::empty(), i0 as int) == Ok::<_, ErrorView>((import_views(imports@), i1 as int)),
            d_templates(p.s@, Seq::empty(), i1 as int) == d_templates(
                p.s@,
                template_views(templates@),
                i as int,
            ),
        decreases p.s.len() - i,
    {
        reveal(d_templates);
        proof {
            reveal_strlit("<template");
        }
        match p.template(i) {
            Err(e) => {
                return Err(e);
            },
            Ok((t, k)) => {
                let j = p.skip_wc(k);
                let ghost a0 = templates@;
                let ghost tv = t@;
                templates.push(t);
                assert(template_views(templates@) =~= template_views(a0).push(tv));
                i = j;
            },
        }
    }
    proof {
        reveal(d_templates);
    }
    if i >= len {
        return Err(p.err(i, "document is empty \u{2014} expected a view root element"));
    }
    if !p.starts_lit(i, "<") {
        return Err(p.err(i, "expected a view root element"));
    }
    match p.node(i) {
        Err(e) => Err(e),
        Ok((root, k)) => {
            if root.tag().is_none() {
                return Err(p.err(k, "view root must be an element, not text"));
            }
            let m = p.skip_wc(k);
            if m != len {
                return Err(
                    p.err(m, "unexpected content after the view root \u{2014} a document has one root"),
                );
            }
            Ok(Document { imports, templates, root })
        },
    }
}

} // verus!
