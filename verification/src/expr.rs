//! Expression AST and parser. Spreadsheet power, not a programming language.

use vstd::prelude::*;

use crate::error::{located, Error, ErrorView};
use crate::span::Span;
use crate::text::{
    byte_offset, byte_offsets, chars_of, is_alnum, is_alpha, is_digit, is_ws, lemma_utf8_len_full,
    lemma_utf8_len_mono, lit, push_char, push_chars, push_str, spec_is_alnum, spec_is_alpha,
    spec_is_digit, spec_is_ws, starts_at, starts_with_at, string_range, utf8_len,
};

verus! {

/// Unary operators.
#[derive(Clone, Copy, Debug, PartialEq, Eq, Structural)]
pub enum UnaryOp {
    /// Arithmetic negation.
    Neg,
    /// Boolean not.
    Not,
}

/// Binary operators. `And`/`Or` evaluate both sides (expressions are pure).
#[derive(Clone, Copy, Debug, PartialEq, Eq, Structural)]
pub enum BinOp {
    /// `+`
    Add,
    /// `-`
    Sub,
    /// `*`
    Mul,
    /// `/` always produces a float.
    Div,
    /// `++` string join.
    Concat,
    /// `==`
    Eq,
    /// `!=`
    Ne,
    /// `<`
    Lt,
    /// `<=`
    Le,
    /// `>`
    Gt,
    /// `>=`
    Ge,
    /// `and`
    And,
    /// `or`
    Or,
}

/// A pure expression.
#[derive(Debug)]
pub enum Expr {
    /// `null`.
    Null(Span),
    /// `true` / `false`.
    Bool(bool, Span),
    /// Numeric literal, kept as its source digits (at most one `.`).
    Number(String, Span),
    /// Single-quoted string.
    String(String, Span),
    /// Identifier or dotted path start (`count`, `h`).
    Ident(String, Span),
    /// `obj.field`.
    Field {
        /// Receiver.
        base: Box<Expr>,
        /// Field name.
        name: String,
        /// Span covering `base.name`.
        span: Span,
    },
    /// `arr[index]`.
    Index {
        /// Receiver.
        base: Box<Expr>,
        /// Index expression.
        index: Box<Expr>,
        /// Span.
        span: Span,
    },
    /// `name(args...)`.
    Call {
        /// Function name.
        name: String,
        /// Arguments.
        args: Vec<Expr>,
        /// Span of the call.
        span: Span,
    },
    /// `{k: v, ...}` object literal (JSON-core updates, not typical markup).
    Object {
        /// Fields.
        fields: Vec<(String, Expr)>,
        /// Span.
        span: Span,
    },
    /// Unary `-` or `not`.
    Unary {
        /// Operator.
        op: UnaryOp,
        /// Operand.
        expr: Box<Expr>,
        /// Span.
        span: Span,
    },
    /// Binary operator.
    Binary {
        /// Operator.
        op: BinOp,
        /// Left.
        left: Box<Expr>,
        /// Right.
        right: Box<Expr>,
        /// Span.
        span: Span,
    },
}

/// The mathematical value of an [`Expr`]: strings as character sequences.
pub enum ExprView {
    Null(Span),
    Bool(bool, Span),
    Number(Seq<char>, Span),
    Str(Seq<char>, Span),
    Ident(Seq<char>, Span),
    Field { base: Box<ExprView>, name: Seq<char>, span: Span },
    Index { base: Box<ExprView>, index: Box<ExprView>, span: Span },
    Call { name: Seq<char>, args: Seq<ExprView>, span: Span },
    Object { fields: Seq<(Seq<char>, ExprView)>, span: Span },
    Unary { op: UnaryOp, expr: Box<ExprView>, span: Span },
    Binary { op: BinOp, left: Box<ExprView>, right: Box<ExprView>, span: Span },
}

pub open spec fn expr_views(s: Seq<Expr>) -> Seq<ExprView>
    decreases s,
{
    if s.len() == 0 {
        Seq::empty()
    } else {
        expr_views(s.drop_last()).push(s.last().view())
    }
}

pub open spec fn field_views(s: Seq<(String, Expr)>) -> Seq<(Seq<char>, ExprView)>
    decreases s,
{
    if s.len() == 0 {
        Seq::empty()
    } else {
        field_views(s.drop_last()).push((s.last().0@, s.last().1.view()))
    }
}

impl View for Expr {
    type V = ExprView;

    open spec fn view(&self) -> ExprView
        decreases self,
    {
        match self {
            Expr::Null(s) => ExprView::Null(*s),
            Expr::Bool(b, s) => ExprView::Bool(*b, *s),
            Expr::Number(n, s) => ExprView::Number(n@, *s),
            Expr::String(t, s) => ExprView::Str(t@, *s),
            Expr::Ident(n, s) => ExprView::Ident(n@, *s),
            Expr::Field { base, name, span } => ExprView::Field {
                base: Box::new((**base).view()),
                name: name@,
                span: *span,
            },
            Expr::Index { base, index, span } => ExprView::Index {
                base: Box::new((**base).view()),
                index: Box::new((**index).view()),
                span: *span,
            },
            Expr::Call { name, args, span } => ExprView::Call {
                name: name@,
                args: expr_views(args@),
                span: *span,
            },
            Expr::Object { fields, span } => ExprView::Object {
                fields: field_views(fields@),
                span: *span,
            },
            Expr::Unary { op, expr, span } => ExprView::Unary {
                op: *op,
                expr: Box::new((**expr).view()),
                span: *span,
            },
            Expr::Binary { op, left, right, span } => ExprView::Binary {
                op: *op,
                left: Box::new((**left).view()),
                right: Box::new((**right).view()),
                span: *span,
            },
        }
    }
}

impl Clone for Expr {
    /// A deep copy with the same value.
    #[verifier::loop_isolation(false)]
    fn clone(&self) -> (r: Self)
        ensures
            r@ == self@,
        decreases self,
    {
        match self {
            Expr::Null(s) => Expr::Null(*s),
            Expr::Bool(b, s) => Expr::Bool(*b, *s),
            Expr::Number(t, s) => Expr::Number(crate::text::copy_string(t), *s),
            Expr::String(t, s) => Expr::String(crate::text::copy_string(t), *s),
            Expr::Ident(t, s) => Expr::Ident(crate::text::copy_string(t), *s),
            Expr::Field { base, name, span } => Expr::Field {
                base: Box::new((**base).clone()),
                name: crate::text::copy_string(name),
                span: *span,
            },
            Expr::Index { base, index, span } => Expr::Index {
                base: Box::new((**base).clone()),
                index: Box::new((**index).clone()),
                span: *span,
            },
            Expr::Call { name, args, span } => {
                let mut v: Vec<Expr> = Vec::new();
                let mut i: usize = 0;
                proof {
                    lemma_expr_views(args@);
                    assert(expr_views(args@).take(0) =~= Seq::<ExprView>::empty());
                }
                while i < args.len()
                    invariant
                        i <= args.len(),
                        expr_views(v@) == expr_views(args@).take(i as int),
                        expr_views(args@).len() == args@.len(),
                        forall|k: int| 0 <= k < args@.len() ==> #[trigger] expr_views(args@)[k] == args@[k]@,
                    decreases args.len() - i,
                {
                    proof {
                        assert(decreases_to!(*self => *args));
                        assert(decreases_to!(*args => args@));
                        assert(decreases_to!(args@ => args@[i as int]));
                    }
                    let e = args[i].clone();
                    let ghost v0 = v@;
                    v.push(e);
                    assert(v@.drop_last() =~= v0);
                    assert(expr_views(args@).take(i + 1) =~= expr_views(args@).take(i as int).push(
                        args@[i as int]@,
                    ));
                    i += 1;
                }
                assert(expr_views(args@).take(i as int) =~= expr_views(args@));
                Expr::Call { name: crate::text::copy_string(name), args: v, span: *span }
            },
            Expr::Object { fields, span } => {
                let mut v: Vec<(String, Expr)> = Vec::new();
                let mut i: usize = 0;
                proof {
                    lemma_field_views(fields@);
                    assert(field_views(fields@).take(0) =~= Seq::<(Seq<char>, ExprView)>::empty());
                }
                while i < fields.len()
                    invariant
                        i <= fields.len(),
                        field_views(v@) == field_views(fields@).take(i as int),
                        field_views(fields@).len() == fields@.len(),
                        forall|k: int|
                            0 <= k < fields@.len() ==> #[trigger] field_views(fields@)[k] == (
                                fields@[k].0@,
                                fields@[k].1@,
                            ),
                    decreases fields.len() - i,
                {
                    proof {
                        assert(decreases_to!(*self => *fields));
                        assert(decreases_to!(*fields => fields@));
                        assert(decreases_to!(fields@ => fields@[i as int]));
                        assert(decreases_to!(fields@[i as int] => fields@[i as int].1));
                    }
                    let e = fields[i].1.clone();
                    let k = crate::text::copy_string(&fields[i].0);
                    let ghost v0 = v@;
                    v.push((k, e));
                    assert(v@.drop_last() =~= v0);
                    assert(field_views(fields@).take(i + 1) =~= field_views(fields@).take(
                        i as int,
                    ).push((fields@[i as int].0@, fields@[i as int].1@)));
                    i += 1;
                }
                assert(field_views(fields@).take(i as int) =~= field_views(fields@));
                Expr::Object { fields: v, span: *span }
            },
            Expr::Unary { op, expr, span } => Expr::Unary {
                op: *op,
                expr: Box::new((**expr).clone()),
                span: *span,
            },
            Expr::Binary { op, left, right, span } => Expr::Binary {
                op: *op,
                left: Box::new((**left).clone()),
                right: Box::new((**right).clone()),
                span: *span,
            },
        }
    }
}

pub proof fn lemma_expr_views(s: Seq<Expr>)
    ensures
        expr_views(s).len() == s.len(),
        forall|i: int| 0 <= i < s.len() ==> #[trigger] expr_views(s)[i] == s[i]@,
    decreases s.len(),
{
    if s.len() > 0 {
        lemma_expr_views(s.drop_last());
        assert(expr_views(s) == expr_views(s.drop_last()).push(s.last()@));
        assert forall|i: int| 0 <= i < s.len() implies #[trigger] expr_views(s)[i] == s[i]@ by {
            if i < s.len() - 1 {
                assert(expr_views(s)[i] == expr_views(s.drop_last())[i]);
                assert(s.drop_last()[i] == s[i]);
            }
        }
    }
}

pub proof fn lemma_field_views(s: Seq<(String, Expr)>)
    ensures
        field_views(s).len() == s.len(),
        forall|i: int|
            0 <= i < s.len() ==> #[trigger] field_views(s)[i] == (s[i].0@, s[i].1@),
    decreases s.len(),
{
    if s.len() > 0 {
        lemma_field_views(s.drop_last());
        assert(field_views(s) == field_views(s.drop_last()).push((s.last().0@, s.last().1@)));
        assert forall|i: int| 0 <= i < s.len() implies #[trigger] field_views(s)[i] == (
            s[i].0@,
            s[i].1@,
        ) by {
            if i < s.len() - 1 {
                assert(field_views(s)[i] == field_views(s.drop_last())[i]);
                assert(s.drop_last()[i] == s[i]);
            }
        }
    }
}

/// Source span of an expression value.
pub open spec fn expr_span(e: ExprView) -> Span {
    match e {
        ExprView::Null(s) => s,
        ExprView::Bool(_, s) => s,
        ExprView::Number(_, s) => s,
        ExprView::Str(_, s) => s,
        ExprView::Ident(_, s) => s,
        ExprView::Field { span, .. } => span,
        ExprView::Index { span, .. } => span,
        ExprView::Call { span, .. } => span,
        ExprView::Object { span, .. } => span,
        ExprView::Unary { span, .. } => span,
        ExprView::Binary { span, .. } => span,
    }
}

/// Identifier roots of an expression, in tree order (`h.name` yields `h`).
pub open spec fn spec_roots(e: ExprView) -> Seq<Seq<char>>
    decreases e,
{
    match e {
        ExprView::Ident(n, _) => seq![n],
        ExprView::Field { base, .. } => spec_roots(*base),
        ExprView::Index { base, .. } => spec_roots(*base),
        ExprView::Unary { expr, .. } => spec_roots(*expr),
        ExprView::Call { args, .. } => roots_list(args),
        ExprView::Object { fields, .. } => roots_fields(fields),
        ExprView::Binary { left, right, .. } => spec_roots(*left) + spec_roots(*right),
        _ => Seq::empty(),
    }
}

pub open spec fn roots_list(args: Seq<ExprView>) -> Seq<Seq<char>>
    decreases args,
{
    if args.len() == 0 {
        Seq::empty()
    } else {
        roots_list(args.drop_last()) + spec_roots(args.last())
    }
}

pub open spec fn roots_fields(fields: Seq<(Seq<char>, ExprView)>) -> Seq<Seq<char>>
    decreases fields,
{
    if fields.len() == 0 {
        Seq::empty()
    } else {
        roots_fields(fields.drop_last()) + spec_roots(fields.last().1)
    }
}

/// The character sequences of a list of strings.
pub open spec fn strings_view(v: Seq<String>) -> Seq<Seq<char>> {
    v.map_values(|s: String| s@)
}

impl Expr {
    /// Source span.
    pub fn span(&self) -> (s: Span)
        ensures
            s == expr_span(self@),
    {
        match self {
            Expr::Null(s) => *s,
            Expr::Bool(_, s) => *s,
            Expr::Number(_, s) => *s,
            Expr::String(_, s) => *s,
            Expr::Ident(_, s) => *s,
            Expr::Field { span, .. } => *span,
            Expr::Index { span, .. } => *span,
            Expr::Call { span, .. } => *span,
            Expr::Object { span, .. } => *span,
            Expr::Unary { span, .. } => *span,
            Expr::Binary { span, .. } => *span,
        }
    }

    /// Collect identifier roots (for the checker). `h.name` yields `h`.
    #[verifier::loop_isolation(false)]
    pub fn root_idents(&self, out: &mut Vec<String>)
        ensures
            strings_view(final(out)@) == strings_view(old(out)@) + spec_roots(self@),
        decreases self,
    {
        let ghost o0 = strings_view(out@);
        match self {
            Expr::Ident(name, _) => {
                let n = crate::text::copy_string(name);
                out.push(n);
                assert(strings_view(out@) =~= o0 + spec_roots(self@));
            },
            Expr::Field { base, .. } => {
                base.root_idents(out);
            },
            Expr::Index { base, .. } => {
                base.root_idents(out);
            },
            Expr::Unary { expr, .. } => {
                expr.root_idents(out);
            },
            Expr::Call { args, .. } => {
                let mut i: usize = 0;
                proof {
                    lemma_expr_views(args@);
                    assert(expr_views(args@).take(0) =~= Seq::<ExprView>::empty());
                    assert(o0 + roots_list(Seq::<ExprView>::empty()) =~= o0);
                }
                while i < args.len()
                    invariant
                        i <= args.len(),
                        expr_views(args@).len() == args.len(),
                        forall|k: int|
                            0 <= k < args.len() ==> #[trigger] expr_views(args@)[k] == args@[k]@,
                        strings_view(out@) == o0 + roots_list(expr_views(args@).take(i as int)),
                    decreases args.len() - i,
                {
                    proof {
                        assert(decreases_to!(*self => *args));
                        assert(decreases_to!(*args => args@));
                        assert(decreases_to!(args@ => args@[i as int]));
                    }
                    args[i].root_idents(out);
                    proof {
                        let vs = expr_views(args@);
                        assert(vs.take(i + 1).drop_last() =~= vs.take(i as int));
                        assert(vs.take(i + 1).last() == args@[i as int]@);
                        assert(o0 + roots_list(vs.take(i as int)) + spec_roots(args@[i as int]@)
                            =~= o0 + roots_list(vs.take(i + 1)));
                    }
                    i += 1;
                }
                assert(expr_views(args@).take(args.len() as int) =~= expr_views(args@));
            },
            Expr::Object { fields, .. } => {
                let mut i: usize = 0;
                proof {
                    lemma_field_views(fields@);
                    assert(field_views(fields@).take(0) =~= Seq::<(Seq<char>, ExprView)>::empty());
                    assert(o0 + roots_fields(Seq::<(Seq<char>, ExprView)>::empty()) =~= o0);
                }
                while i < fields.len()
                    invariant
                        i <= fields.len(),
                        field_views(fields@).len() == fields.len(),
                        forall|k: int|
                            0 <= k < fields.len() ==> #[trigger] field_views(fields@)[k] == (
                                fields@[k].0@,
                                fields@[k].1@,
                            ),
                        strings_view(out@) == o0 + roots_fields(
                            field_views(fields@).take(i as int),
                        ),
                    decreases fields.len() - i,
                {
                    proof {
                        assert(decreases_to!(self => fields@[i as int].1));
                    }
                    fields[i].1.root_idents(out);
                    proof {
                        let vs = field_views(fields@);
                        assert(vs.take(i + 1).drop_last() =~= vs.take(i as int));
                        assert(vs.take(i + 1).last() == (fields@[i as int].0@, fields@[i as int].1@));
                        assert(o0 + roots_fields(vs.take(i as int)) + spec_roots(
                            fields@[i as int].1@,
                        ) =~= o0 + roots_fields(vs.take(i + 1)));
                    }
                    i += 1;
                }
                assert(field_views(fields@).take(fields.len() as int) =~= field_views(fields@));
            },
            Expr::Binary { left, right, .. } => {
                left.root_idents(out);
                right.root_idents(out);
                assert(strings_view(out@) =~= o0 + spec_roots(self@));
            },
            _ => {
                assert(strings_view(out@) =~= o0 + spec_roots(self@));
            },
        }
    }
}

// ---------------------------------------------------------------------------
// The grammar, as spec functions over the characters `s` of the expression.
// Positions are character indices; spans are byte offsets from `o.start`.
// ---------------------------------------------------------------------------
/// Outcome of a parse step: a value and the position after it, or an error.
pub type PRes = Result<(ExprView, int), ErrorView>;

pub open spec fn is_ident_start(c: char) -> bool {
    spec_is_alpha(c) || c == '_'
}

pub open spec fn is_ident_continue(c: char) -> bool {
    spec_is_alnum(c) || c == '_'
}

/// Position of the first non-whitespace character at or after `i`.
#[verifier::opaque]
pub open spec fn ws_end(s: Seq<char>, i: int) -> int
    decreases s.len() - i,
{
    if 0 <= i < s.len() && spec_is_ws(s[i]) {
        ws_end(s, i + 1)
    } else {
        i
    }
}

pub proof fn lemma_ws_end(s: Seq<char>, i: int)
    requires
        0 <= i <= s.len(),
    ensures
        i <= ws_end(s, i) <= s.len(),
        ws_end(s, i) < s.len() ==> !spec_is_ws(s[ws_end(s, i)]),
        ws_end(s, ws_end(s, i)) == ws_end(s, i),
    decreases s.len() - i,
{
    reveal(ws_end);
    if i < s.len() && spec_is_ws(s[i]) {
        lemma_ws_end(s, i + 1);
    }
}

/// A diagnostic at the expression's origin.
pub open spec fn perr(o: Span, msg: Seq<char>) -> ErrorView {
    located(o.line, o.column, msg)
}

/// The span from character `a` to character `b` of the expression.
#[verifier::opaque]
pub open spec fn span_from(s: Seq<char>, o: Span, a: int, b: int) -> Span {
    Span {
        start: (o.start + byte_offset(s, a)) as usize,
        end: (o.start + byte_offset(s, b)) as usize,
        line: o.line,
        column: o.column,
    }
}

/// `eat(kw)`: skip whitespace, then consume `kw` when it starts there (alphabetic keywords
/// must also stand on identifier boundaries). The position is returned either way.
#[verifier::opaque]
pub open spec fn spec_eat(s: Seq<char>, i: int, kw: Seq<char>) -> (bool, int) {
    let j = ws_end(s, i);
    if starts_at(s, j, kw) {
        let after = j + kw.len();
        let boundary_ok = after == s.len() || !is_ident_continue(s[after]);
        let start_ok = j == 0 || !is_ident_continue(s[j - 1]);
        let symbolic = !(kw.len() > 0 && spec_is_alpha(kw[0]));
        if symbolic || (boundary_ok && start_ok) {
            (true, after)
        } else {
            (false, j)
        }
    } else {
        (false, j)
    }
}

pub proof fn lemma_eat(s: Seq<char>, i: int, kw: Seq<char>)
    requires
        0 <= i <= s.len(),
        kw.len() > 0,
    ensures
        i <= spec_eat(s, i, kw).1 <= s.len(),
        spec_eat(s, i, kw).0 ==> spec_eat(s, i, kw).1 > i,
        !spec_eat(s, i, kw).0 ==> spec_eat(s, i, kw).1 == ws_end(s, i),
{
    reveal(spec_eat);
    lemma_ws_end(s, i);
}

/// End of the identifier characters starting at `i`.
#[verifier::opaque]
pub open spec fn ident_end(s: Seq<char>, i: int) -> int
    decreases s.len() - i,
{
    if 0 <= i < s.len() && is_ident_continue(s[i]) {
        ident_end(s, i + 1)
    } else {
        i
    }
}

pub proof fn lemma_ident_end(s: Seq<char>, i: int)
    requires
        0 <= i <= s.len(),
    ensures
        i <= ident_end(s, i) <= s.len(),
    decreases s.len() - i,
{
    reveal(ident_end);
    if i < s.len() && is_ident_continue(s[i]) {
        lemma_ident_end(s, i + 1);
    }
}

/// End of the digits-and-dots run starting at `i`.
#[verifier::opaque]
pub open spec fn number_end(s: Seq<char>, i: int) -> int
    decreases s.len() - i,
{
    if 0 <= i < s.len() && (spec_is_digit(s[i]) || s[i] == '.') {
        number_end(s, i + 1)
    } else {
        i
    }
}

pub proof fn lemma_number_end(s: Seq<char>, i: int)
    requires
        0 <= i <= s.len(),
    ensures
        i <= number_end(s, i) <= s.len(),
    decreases s.len() - i,
{
    reveal(number_end);
    if i < s.len() && (spec_is_digit(s[i]) || s[i] == '.') {
        lemma_number_end(s, i + 1);
    }
}

/// Number of `.` characters.
pub open spec fn count_dots(t: Seq<char>) -> nat
    decreases t.len(),
{
    if t.len() == 0 {
        0
    } else {
        count_dots(t.drop_last()) + if t.last() == '.' {
            1nat
        } else {
            0nat
        }
    }
}

/// `parse_ident`: skip whitespace, then an identifier.
#[verifier::opaque]
pub open spec fn p_ident(s: Seq<char>, o: Span, i: int) -> Result<(Seq<char>, int), ErrorView> {
    let j = ws_end(s, i);
    if 0 <= j < s.len() && is_ident_start(s[j]) {
        let k = ident_end(s, j + 1);
        Ok((s.subrange(j, k), k))
    } else {
        Err(perr(o, "expected identifier"@))
    }
}

/// A quoted string body from position `i` (just after the opening quote).
#[verifier::opaque]
pub open spec fn p_string(s: Seq<char>, o: Span, start: int, i: int, acc: Seq<char>) -> PRes
    decreases s.len() - i,
{
    if i < 0 || i >= s.len() {
        Err(perr(o, "unterminated string"@))
    } else if s[i] == '\'' {
        Ok((ExprView::Str(acc, span_from(s, o, start, i + 1)), i + 1))
    } else if s[i] == '\\' {
        if i + 1 >= s.len() {
            Err(perr(o, "unterminated string"@))
        } else {
            p_string(s, o, start, i + 2, acc.push(s[i + 1]))
        }
    } else {
        p_string(s, o, start, i + 1, acc.push(s[i]))
    }
}

pub open spec fn binary(op: BinOp, l: ExprView, r: ExprView) -> ExprView {
    ExprView::Binary { op, left: Box::new(l), right: Box::new(r), span: expr_span(l) }
}

/// Whether a sub-parse result moved forward from `i` and stayed in bounds.
pub open spec fn advanced(s: Seq<char>, i: int, k: int) -> bool {
    i < k <= s.len()
}

pub open spec fn p_or(s: Seq<char>, o: Span, i: int) -> PRes
    decreases s.len() - i, 10int,
{
    if i < 0 || i > s.len() {
        Err(perr(o, Seq::empty()))
    } else {
        match p_and(s, o, i) {
            Err(e) => Err(e),
            Ok((l, k)) => if advanced(s, i, k) {
                p_or_tail(s, o, l, k)
            } else {
                Err(perr(o, Seq::empty()))
            },
        }
    }
}

pub open spec fn p_or_tail(s: Seq<char>, o: Span, left: ExprView, i: int) -> PRes
    decreases s.len() - i, 10int,
{
    if i < 0 || i > s.len() {
        Err(perr(o, Seq::empty()))
    } else {
        let e = spec_eat(s, i, "or"@);
        if !e.0 {
            Ok((left, e.1))
        } else if !advanced(s, i, e.1) {
            Err(perr(o, Seq::empty()))
        } else {
            match p_and(s, o, e.1) {
                Err(err) => Err(err),
                Ok((r, k)) => if advanced(s, e.1, k) {
                    p_or_tail(s, o, binary(BinOp::Or, left, r), k)
                } else {
                    Err(perr(o, Seq::empty()))
                },
            }
        }
    }
}

pub open spec fn p_and(s: Seq<char>, o: Span, i: int) -> PRes
    decreases s.len() - i, 9int,
{
    if i < 0 || i > s.len() {
        Err(perr(o, Seq::empty()))
    } else {
        match p_not(s, o, i) {
            Err(e) => Err(e),
            Ok((l, k)) => if advanced(s, i, k) {
                p_and_tail(s, o, l, k)
            } else {
                Err(perr(o, Seq::empty()))
            },
        }
    }
}

pub open spec fn p_and_tail(s: Seq<char>, o: Span, left: ExprView, i: int) -> PRes
    decreases s.len() - i, 9int,
{
    if i < 0 || i > s.len() {
        Err(perr(o, Seq::empty()))
    } else {
        let e = spec_eat(s, i, "and"@);
        if !e.0 {
            Ok((left, e.1))
        } else if !advanced(s, i, e.1) {
            Err(perr(o, Seq::empty()))
        } else {
            match p_not(s, o, e.1) {
                Err(err) => Err(err),
                Ok((r, k)) => if advanced(s, e.1, k) {
                    p_and_tail(s, o, binary(BinOp::And, left, r), k)
                } else {
                    Err(perr(o, Seq::empty()))
                },
            }
        }
    }
}

pub open spec fn p_not(s: Seq<char>, o: Span, i: int) -> PRes
    decreases s.len() - i, 8int,
{
    if i < 0 || i > s.len() {
        Err(perr(o, Seq::empty()))
    } else {
        let j = ws_end(s, i);
        let e = spec_eat(s, j, "not"@);
        if !(i <= e.1 <= s.len()) {
            Err(perr(o, Seq::empty()))
        } else if e.0 {
            if !advanced(s, i, e.1) {
                Err(perr(o, Seq::empty()))
            } else {
                match p_not(s, o, e.1) {
                    Err(err) => Err(err),
                    Ok((x, k)) => Ok(
                        (
                            ExprView::Unary {
                                op: UnaryOp::Not,
                                expr: Box::new(x),
                                span: span_from(s, o, e.1, k),
                            },
                            k,
                        ),
                    ),
                }
            }
        } else {
            p_rel(s, o, e.1)
        }
    }
}

/// The comparison operator after position `j`, if any, and the position after it.
#[verifier::opaque]
pub open spec fn rel_op(s: Seq<char>, j: int) -> (Option<BinOp>, int) {
    let e1 = spec_eat(s, j, "=="@);
    if e1.0 {
        (Some(BinOp::Eq), e1.1)
    } else {
        let e2 = spec_eat(s, e1.1, "!="@);
        if e2.0 {
            (Some(BinOp::Ne), e2.1)
        } else {
            let e3 = spec_eat(s, e2.1, "<="@);
            if e3.0 {
                (Some(BinOp::Le), e3.1)
            } else {
                let e4 = spec_eat(s, e3.1, ">="@);
                if e4.0 {
                    (Some(BinOp::Ge), e4.1)
                } else {
                    let e5 = spec_eat(s, e4.1, "<"@);
                    if e5.0 {
                        (Some(BinOp::Lt), e5.1)
                    } else {
                        let e6 = spec_eat(s, e5.1, ">"@);
                        if e6.0 {
                            (Some(BinOp::Gt), e6.1)
                        } else {
                            (None, e6.1)
                        }
                    }
                }
            }
        }
    }
}

pub open spec fn p_rel(s: Seq<char>, o: Span, i: int) -> PRes
    decreases s.len() - i, 7int,
{
    if i < 0 || i > s.len() {
        Err(perr(o, Seq::empty()))
    } else {
        match p_concat(s, o, i) {
            Err(e) => Err(e),
            Ok((l, k)) => if !advanced(s, i, k) {
                Err(perr(o, Seq::empty()))
            } else {
                let j = ws_end(s, k);
                let c = rel_op(s, j);
                match c.0 {
                    None => Ok((l, c.1)),
                    Some(op) => if !advanced(s, i, c.1) {
                        Err(perr(o, Seq::empty()))
                    } else {
                        match p_concat(s, o, c.1) {
                            Err(e) => Err(e),
                            Ok((r, m)) => Ok((binary(op, l, r), m)),
                        }
                    },
                }
            },
        }
    }
}

pub open spec fn p_concat(s: Seq<char>, o: Span, i: int) -> PRes
    decreases s.len() - i, 6int,
{
    if i < 0 || i > s.len() {
        Err(perr(o, Seq::empty()))
    } else {
        match p_add(s, o, i) {
            Err(e) => Err(e),
            Ok((l, k)) => if advanced(s, i, k) {
                p_concat_tail(s, o, l, k)
            } else {
                Err(perr(o, Seq::empty()))
            },
        }
    }
}

pub open spec fn p_concat_tail(s: Seq<char>, o: Span, left: ExprView, i: int) -> PRes
    decreases s.len() - i, 6int,
{
    if i < 0 || i > s.len() {
        Err(perr(o, Seq::empty()))
    } else {
        let j = ws_end(s, i);
        if !(i <= j <= s.len()) {
            Err(perr(o, Seq::empty()))
        } else if starts_at(s, j, "++"@) && j + 2 <= s.len() {
            match p_add(s, o, j + 2) {
                Err(e) => Err(e),
                Ok((r, k)) => if advanced(s, j + 2, k) {
                    p_concat_tail(s, o, binary(BinOp::Concat, left, r), k)
                } else {
                    Err(perr(o, Seq::empty()))
                },
            }
        } else {
            Ok((left, j))
        }
    }
}

pub open spec fn p_add(s: Seq<char>, o: Span, i: int) -> PRes
    decreases s.len() - i, 5int,
{
    if i < 0 || i > s.len() {
        Err(perr(o, Seq::empty()))
    } else {
        match p_mul(s, o, i) {
            Err(e) => Err(e),
            Ok((l, k)) => if advanced(s, i, k) {
                p_add_tail(s, o, l, k)
            } else {
                Err(perr(o, Seq::empty()))
            },
        }
    }
}

/// The additive operator after position `j`, if any (`++` is not one), and the position after it.
#[verifier::opaque]
pub open spec fn add_op(s: Seq<char>, j: int) -> (Option<BinOp>, int) {
    if starts_at(s, j, "++"@) {
        (None, j)
    } else {
        let e1 = spec_eat(s, j, "+"@);
        if e1.0 {
            (Some(BinOp::Add), e1.1)
        } else {
            let e2 = spec_eat(s, e1.1, "-"@);
            if e2.0 {
                (Some(BinOp::Sub), e2.1)
            } else {
                (None, e2.1)
            }
        }
    }
}

pub open spec fn p_add_tail(s: Seq<char>, o: Span, left: ExprView, i: int) -> PRes
    decreases s.len() - i, 5int,
{
    if i < 0 || i > s.len() {
        Err(perr(o, Seq::empty()))
    } else {
        let j = ws_end(s, i);
        let a = add_op(s, j);
        match a.0 {
            None => Ok((left, a.1)),
            Some(op) => if !advanced(s, i, a.1) {
                Err(perr(o, Seq::empty()))
            } else {
                match p_mul(s, o, a.1) {
                    Err(e) => Err(e),
                    Ok((r, k)) => if advanced(s, a.1, k) {
                        p_add_tail(s, o, binary(op, left, r), k)
                    } else {
                        Err(perr(o, Seq::empty()))
                    },
                }
            },
        }
    }
}

pub open spec fn p_mul(s: Seq<char>, o: Span, i: int) -> PRes
    decreases s.len() - i, 4int,
{
    if i < 0 || i > s.len() {
        Err(perr(o, Seq::empty()))
    } else {
        match p_unary(s, o, i) {
            Err(e) => Err(e),
            Ok((l, k)) => if advanced(s, i, k) {
                p_mul_tail(s, o, l, k)
            } else {
                Err(perr(o, Seq::empty()))
            },
        }
    }
}

/// The multiplicative operator after position `j`, if any, and the position after it.
#[verifier::opaque]
pub open spec fn mul_op(s: Seq<char>, j: int) -> (Option<BinOp>, int) {
    let e1 = spec_eat(s, j, "*"@);
    if e1.0 {
        (Some(BinOp::Mul), e1.1)
    } else {
        let e2 = spec_eat(s, e1.1, "/"@);
        if e2.0 {
            (Some(BinOp::Div), e2.1)
        } else {
            (None, e2.1)
        }
    }
}

pub open spec fn p_mul_tail(s: Seq<char>, o: Span, left: ExprView, i: int) -> PRes
    decreases s.len() - i, 4int,
{
    if i < 0 || i > s.len() {
        Err(perr(o, Seq::empty()))
    } else {
        let j = ws_end(s, i);
        let m = mul_op(s, j);
        match m.0 {
            None => Ok((left, m.1)),
            Some(op) => if !advanced(s, i, m.1) {
                Err(perr(o, Seq::empty()))
            } else {
                match p_unary(s, o, m.1) {
                    Err(e) => Err(e),
                    Ok((r, k)) => if advanced(s, m.1, k) {
                        p_mul_tail(s, o, binary(op, left, r), k)
                    } else {
                        Err(perr(o, Seq::empty()))
                    },
                }
            },
        }
    }
}

pub open spec fn p_unary(s: Seq<char>, o: Span, i: int) -> PRes
    decreases s.len() - i, 3int,
{
    if i < 0 || i > s.len() {
        Err(perr(o, Seq::empty()))
    } else {
        let e = spec_eat(s, ws_end(s, i), "-"@);
        if !(i <= e.1 <= s.len()) {
            Err(perr(o, Seq::empty()))
        } else if e.0 {
            if !advanced(s, i, e.1) {
                Err(perr(o, Seq::empty()))
            } else {
                match p_unary(s, o, e.1) {
                    Err(err) => Err(err),
                    Ok((x, k)) => Ok(
                        (
                            ExprView::Unary {
                                op: UnaryOp::Neg,
                                expr: Box::new(x),
                                span: span_from(s, o, e.1, k),
                            },
                            k,
                        ),
                    ),
                }
            }
        } else {
            p_postfix(s, o, e.1)
        }
    }
}

pub open spec fn p_postfix(s: Seq<char>, o: Span, i: int) -> PRes
    decreases s.len() - i, 2int,
{
    if i < 0 || i > s.len() {
        Err(perr(o, Seq::empty()))
    } else {
        match p_primary(s, o, i) {
            Err(e) => Err(e),
            Ok((x, k)) => if advanced(s, i, k) {
                p_postfix_tail(s, o, x, k)
            } else {
                Err(perr(o, Seq::empty()))
            },
        }
    }
}

pub open spec fn p_postfix_tail(s: Seq<char>, o: Span, x: ExprView, i: int) -> PRes
    decreases s.len() - i, 2int,
{
    if i < 0 || i > s.len() {
        Err(perr(o, Seq::empty()))
    } else {
        let j = ws_end(s, i);
        if !(i <= j <= s.len()) {
            Err(perr(o, Seq::empty()))
        } else if j < s.len() && s[j] == '.' {
            match p_ident(s, o, j + 1) {
                Err(e) => Err(e),
                Ok((name, k)) => if advanced(s, j, k) {
                    p_postfix_tail(
                        s,
                        o,
                        ExprView::Field { base: Box::new(x), name, span: expr_span(x) },
                        k,
                    )
                } else {
                    Err(perr(o, Seq::empty()))
                },
            }
        } else if j < s.len() && s[j] == '[' {
            match p_or(s, o, j + 1) {
                Err(e) => Err(e),
                Ok((idx, k)) => if !advanced(s, j, k) {
                    Err(perr(o, Seq::empty()))
                } else {
                    let m = ws_end(s, k);
                    if !(k <= m <= s.len()) {
                        Err(perr(o, Seq::empty()))
                    } else if m < s.len() && s[m] == ']' {
                        p_postfix_tail(
                            s,
                            o,
                            ExprView::Index {
                                base: Box::new(x),
                                index: Box::new(idx),
                                span: expr_span(x),
                            },
                            m + 1,
                        )
                    } else {
                        Err(perr(o, "expected ']' after index"@))
                    }
                },
            }
        } else {
            Ok((x, j))
        }
    }
}

/// The literal after an identifier in primary position: `true`, `false`, `null`, or a name.
#[verifier::opaque]
pub open spec fn word_value(name: Seq<char>, span: Span) -> ExprView {
    if name == "true"@ {
        ExprView::Bool(true, span)
    } else if name == "false"@ {
        ExprView::Bool(false, span)
    } else if name == "null"@ {
        ExprView::Null(span)
    } else {
        ExprView::Ident(name, span)
    }
}

pub open spec fn p_primary(s: Seq<char>, o: Span, i: int) -> PRes
    decreases s.len() - i, 1int,
{
    if i < 0 || i > s.len() {
        Err(perr(o, Seq::empty()))
    } else {
        let j = ws_end(s, i);
        if !(i <= j <= s.len()) {
            Err(perr(o, Seq::empty()))
        } else if j == s.len() {
            Err(perr(o, "unexpected end of expression"@))
        } else {
            let c = s[j];
            if c == '(' {
                p_paren(s, o, j)
            } else if c == '{' {
                p_object(s, o, j)
            } else if c == '\'' {
                p_string(s, o, j, j + 1, Seq::empty())
            } else if spec_is_digit(c) {
                p_number(s, o, j)
            } else if is_ident_start(c) {
                p_word(s, o, j)
            } else {
                Err(perr(o, unexpected_msg(c)))
            }
        }
    }
}

/// The diagnostic for a character that cannot start an expression.
#[verifier::opaque]
pub open spec fn unexpected_msg(c: char) -> Seq<char> {
    "unexpected '"@ + seq![c] + "' in expression"@
}

/// A parenthesized expression; `j` is the position of `(`.
pub open spec fn p_paren(s: Seq<char>, o: Span, j: int) -> PRes
    decreases s.len() - j, 0int,
{
    if j < 0 || j >= s.len() {
        Err(perr(o, Seq::empty()))
    } else {
        match p_or(s, o, j + 1) {
            Err(e) => Err(e),
            Ok((inner, k)) => if !advanced(s, j, k) {
                Err(perr(o, Seq::empty()))
            } else {
                let m = ws_end(s, k);
                if m < s.len() && s[m] == ')' {
                    Ok((inner, m + 1))
                } else {
                    Err(perr(o, "expected ')'"@))
                }
            },
        }
    }
}

/// A number literal: digits and dots from `j`, with at most one dot.
#[verifier::opaque]
pub open spec fn p_number(s: Seq<char>, o: Span, j: int) -> PRes {
    let end = number_end(s, j);
    let t = s.subrange(j, end);
    if count_dots(t) > 1 {
        Err(perr(o, "invalid number"@))
    } else {
        Ok((ExprView::Number(t, span_from(s, o, j, end)), end))
    }
}

/// An identifier in primary position: a call, a keyword literal, or a name.
pub open spec fn p_word(s: Seq<char>, o: Span, j: int) -> PRes
    decreases s.len() - j, 0int,
{
    if j < 0 || j > s.len() {
        Err(perr(o, Seq::empty()))
    } else {
        match p_ident(s, o, j) {
            Err(e) => Err(e),
            Ok((name, k)) => {
                let m = ws_end(s, k);
                if !(j < m <= s.len()) {
                    Err(perr(o, Seq::empty()))
                } else if m < s.len() && s[m] == '(' {
                    p_call(s, o, j, name, m + 1)
                } else {
                    Ok((word_value(name, span_from(s, o, j, m)), m))
                }
            },
        }
    }
}

/// A call's argument list, from just after `(`.
pub open spec fn p_call(s: Seq<char>, o: Span, start: int, name: Seq<char>, i: int) -> PRes
    decreases s.len() - i, 12int,
{
    if i < 0 || i > s.len() {
        Err(perr(o, Seq::empty()))
    } else {
        let a = ws_end(s, i);
        if !(i <= a <= s.len()) {
            Err(perr(o, Seq::empty()))
        } else if a < s.len() && s[a] == ')' {
            Ok((ExprView::Call { name, args: Seq::empty(), span: span_from(s, o, start, a + 1) }, a + 1))
        } else {
            match p_args(s, o, Seq::empty(), a) {
                Err(e) => Err(e),
                Ok((args, b)) => if b < s.len() && s[b] == ')' {
                    Ok((ExprView::Call { name, args, span: span_from(s, o, start, b + 1) }, b + 1))
                } else {
                    Err(perr(o, "expected ')' after arguments"@))
                },
            }
        }
    }
}

/// Comma-separated arguments from position `i`; stops before anything that is not a comma.
pub open spec fn p_args(s: Seq<char>, o: Span, acc: Seq<ExprView>, i: int) -> Result<
    (Seq<ExprView>, int),
    ErrorView,
>
    decreases s.len() - i, 11int,
{
    if i < 0 || i > s.len() {
        Err(perr(o, Seq::empty()))
    } else {
        match p_or(s, o, i) {
            Err(e) => Err(e),
            Ok((e, k)) => if !advanced(s, i, k) {
                Err(perr(o, Seq::empty()))
            } else {
                let b = ws_end(s, k);
                if b < s.len() && s[b] == ',' {
                    let c = ws_end(s, b + 1);
                    if advanced(s, i, c) {
                        p_args(s, o, acc.push(e), c)
                    } else {
                        Err(perr(o, Seq::empty()))
                    }
                } else {
                    Ok((acc.push(e), b))
                }
            },
        }
    }
}

pub open spec fn p_object(s: Seq<char>, o: Span, i: int) -> PRes
    decreases s.len() - i, 0int,
{
    if i < 0 || i >= s.len() {
        Err(perr(o, Seq::empty()))
    } else {
        let a = ws_end(s, i + 1);
        let r: Result<(Seq<(Seq<char>, ExprView)>, int), ErrorView> = if a < s.len() && s[a]
            == '}' {
            Ok((Seq::empty(), a))
        } else if advanced(s, i, a) {
            p_fields(s, o, Seq::empty(), a)
        } else {
            Err(perr(o, Seq::empty()))
        };
        match r {
            Err(e) => Err(e),
            Ok((fields, b)) => if b < s.len() && s[b] == '}' {
                Ok((ExprView::Object { fields, span: span_from(s, o, i, b + 1) }, b + 1))
            } else {
                Err(perr(o, "expected '}' at end of object literal"@))
            },
        }
    }
}

/// `key: value` fields from position `i`; stops at a closing brace after a comma or at
/// anything that is not a comma.
pub open spec fn p_fields(
    s: Seq<char>,
    o: Span,
    acc: Seq<(Seq<char>, ExprView)>,
    i: int,
) -> Result<(Seq<(Seq<char>, ExprView)>, int), ErrorView>
    decreases s.len() - i, 11int,
{
    if i < 0 || i > s.len() {
        Err(perr(o, Seq::empty()))
    } else {
        match p_ident(s, o, ws_end(s, i)) {
            Err(e) => Err(e),
            Ok((key, k)) => {
                let m = ws_end(s, k);
                if !(i < m < s.len()) || s[m] != ':' {
                    if i < m < s.len() || m == s.len() {
                        Err(perr(o, "expected ':' in object literal"@))
                    } else {
                        Err(perr(o, Seq::empty()))
                    }
                } else {
                    match p_or(s, o, m + 1) {
                        Err(e) => Err(e),
                        Ok((v, q)) => if !advanced(s, m + 1, q) {
                            Err(perr(o, Seq::empty()))
                        } else {
                            let acc2 = acc.push((key, v));
                            let r = ws_end(s, q);
                            if r < s.len() && s[r] == ',' {
                                let t = ws_end(s, r + 1);
                                if t < s.len() && s[t] == '}' {
                                    Ok((acc2, t))
                                } else if advanced(s, i, t) {
                                    p_fields(s, o, acc2, t)
                                } else {
                                    Err(perr(o, Seq::empty()))
                                }
                            } else {
                                Ok((acc2, r))
                            }
                        },
                    }
                }
            },
        }
    }
}

/// What `parse_expr` returns for the characters `s` of an expression at `origin`.
pub open spec fn spec_parse_expr(s: Seq<char>, origin: Span) -> Result<ExprView, ErrorView> {
    match p_or(s, origin, ws_end(s, 0)) {
        Err(e) => Err(e),
        Ok((x, k)) => {
            let m = ws_end(s, k);
            if m == s.len() {
                Ok(x)
            } else {
                Err(
                    perr(
                        origin,
                        "unexpected trailing input in expression: '"@ + s.subrange(
                            m,
                            s.len() as int,
                        ) + "'"@,
                    ),
                )
            }
        },
    }
}

// ---------------------------------------------------------------------------
// The multiplicative operators.
// ---------------------------------------------------------------------------
/// The multiplicative operator is the token that stands after the blanks: `*` is
/// multiplication, `/` is division, and anything else is no operator.
pub proof fn law_mul_op_token(s: Seq<char>, j: int)
    requires
        0 <= j <= s.len(),
    ensures
        starts_at(s, ws_end(s, j), "*"@) ==> mul_op(s, j) == (Some(BinOp::Mul), ws_end(s, j) + 1),
        starts_at(s, ws_end(s, j), "/"@) ==> mul_op(s, j) == (Some(BinOp::Div), ws_end(s, j) + 1),
        !starts_at(s, ws_end(s, j), "*"@) && !starts_at(s, ws_end(s, j), "/"@) ==> mul_op(
            s,
            j,
        ).0 is None,
{
    reveal(mul_op);
    reveal(spec_eat);
    reveal_strlit("*");
    reveal_strlit("/");
    lemma_ws_end(s, j);
    let w = ws_end(s, j);
    if starts_at(s, w, "/"@) {
        assert(s[w] == '/') by {
            assert(s.subrange(w, w + 1)[0] == s[w]);
        }
        assert(!starts_at(s, w, "*"@)) by {
            if starts_at(s, w, "*"@) {
                assert(s.subrange(w, w + 1)[0] == s[w]);
            }
        }
    }
}

/// A product whose operator is `/` divides: when `/` follows `left` and an operand `r`
/// follows it, with no further operator after `r`, the term is `left / r`, never another
/// operation.
pub proof fn law_division_term(s: Seq<char>, o: Span, left: ExprView, i: int, r: ExprView, k: int)
    requires
        0 <= i <= s.len(),
        starts_at(s, ws_end(s, i), "/"@),
        p_unary(s, o, ws_end(s, i) + 1) == Ok::<(ExprView, int), ErrorView>((r, k)),
        ws_end(s, i) + 1 < k <= s.len(),
        mul_op(s, ws_end(s, k)).0 is None,
    ensures
        p_mul_tail(s, o, left, i) == Ok::<(ExprView, int), ErrorView>(
            (
                ExprView::Binary {
                    op: BinOp::Div,
                    left: Box::new(left),
                    right: Box::new(r),
                    span: expr_span(left),
                },
                mul_op(s, ws_end(s, k)).1,
            ),
        ),
{
    lemma_ws_end(s, i);
    law_mul_op_token(s, ws_end(s, i));
    lemma_ws_end(s, ws_end(s, i));
    assert(ws_end(s, ws_end(s, i)) == ws_end(s, i));
    assert(p_mul_tail(s, o, binary(BinOp::Div, left, r), k) == Ok::<(ExprView, int), ErrorView>(
        (binary(BinOp::Div, left, r), mul_op(s, ws_end(s, k)).1),
    ));
}

/// A one-character token `c` at `w`.
proof fn lemma_starts_one(s: Seq<char>, w: int, tok: Seq<char>, c: char)
    requires
        tok =~= seq![c],
    ensures
        starts_at(s, w, tok) <==> (0 <= w < s.len() && s[w] == c),
{
    if 0 <= w < s.len() && s[w] == c {
        assert(s.subrange(w, w + 1) =~= tok);
    }
    if starts_at(s, w, tok) {
        assert(s.subrange(w, w + 1)[0] == s[w]);
    }
}

/// A two-character token `c d` at `w`.
proof fn lemma_starts_two(s: Seq<char>, w: int, tok: Seq<char>, c: char, d: char)
    requires
        tok =~= seq![c, d],
    ensures
        starts_at(s, w, tok) <==> (0 <= w && w + 1 < s.len() && s[w] == c && s[w + 1] == d),
{
    if 0 <= w && w + 1 < s.len() && s[w] == c && s[w + 1] == d {
        assert(s.subrange(w, w + 2) =~= tok);
    }
    if starts_at(s, w, tok) {
        assert(s.subrange(w, w + 2)[0] == s[w]);
        assert(s.subrange(w, w + 2)[1] == s[w + 1]);
    }
}

/// The additive operator is the token at the operator position `w` (after the blanks):
/// `+` (but not `++`, the concatenation) is addition and `-` is subtraction; anything else
/// is no operator.
pub proof fn law_add_op_token(s: Seq<char>, i: int)
    requires
        0 <= i <= s.len(),
    ensures
        ({
            let w = ws_end(s, i);
            &&& (w < s.len() && s[w] == '+' && !(w + 1 < s.len() && s[w + 1] == '+')) ==> add_op(
                s,
                w,
            ) == (Some(BinOp::Add), w + 1)
            &&& (w < s.len() && s[w] == '-') ==> add_op(s, w) == (Some(BinOp::Sub), w + 1)
            &&& !(w < s.len() && (s[w] == '+' || s[w] == '-')) ==> add_op(s, w).0 is None
        }),
{
    reveal(add_op);
    reveal(spec_eat);
    reveal_strlit("+");
    reveal_strlit("-");
    reveal_strlit("++");
    lemma_ws_end(s, i);
    let w = ws_end(s, i);
    lemma_starts_one(s, w, "+"@, '+');
    lemma_starts_one(s, w, "-"@, '-');
    lemma_starts_two(s, w, "++"@, '+', '+');
}

/// The comparison operator is the token at the operator position `w` (after the blanks):
/// `==`, `!=`, `<=`, `>=` are equality, inequality, at-most and at-least; a `<` or `>` not
/// followed by `=` is less-than or greater-than; anything else is no comparison.
pub proof fn law_rel_op_token(s: Seq<char>, i: int)
    requires
        0 <= i <= s.len(),
    ensures
        ({
            let w = ws_end(s, i);
            let next_is_eq = w + 1 < s.len() && s[w + 1] == '=';
            &&& (w < s.len() && s[w] == '=' && next_is_eq) ==> rel_op(s, w) == (
                Some(BinOp::Eq),
                w + 2,
            )
            &&& (w < s.len() && s[w] == '!' && next_is_eq) ==> rel_op(s, w) == (
                Some(BinOp::Ne),
                w + 2,
            )
            &&& (w < s.len() && s[w] == '<' && next_is_eq) ==> rel_op(s, w) == (
                Some(BinOp::Le),
                w + 2,
            )
            &&& (w < s.len() && s[w] == '>' && next_is_eq) ==> rel_op(s, w) == (
                Some(BinOp::Ge),
                w + 2,
            )
            &&& (w < s.len() && s[w] == '<' && !next_is_eq) ==> rel_op(s, w) == (
                Some(BinOp::Lt),
                w + 1,
            )
            &&& (w < s.len() && s[w] == '>' && !next_is_eq) ==> rel_op(s, w) == (
                Some(BinOp::Gt),
                w + 1,
            )
            &&& !(w < s.len() && (s[w] == '<' || s[w] == '>' || ((s[w] == '=' || s[w] == '!')
                && next_is_eq))) ==> rel_op(s, w).0 is None
        }),
{
    reveal(rel_op);
    reveal(spec_eat);
    reveal_strlit("==");
    reveal_strlit("!=");
    reveal_strlit("<=");
    reveal_strlit(">=");
    reveal_strlit("<");
    reveal_strlit(">");
    lemma_ws_end(s, i);
    let w = ws_end(s, i);
    lemma_ws_end(s, w);
    lemma_starts_two(s, w, "=="@, '=', '=');
    lemma_starts_two(s, w, "!="@, '!', '=');
    lemma_starts_two(s, w, "<="@, '<', '=');
    lemma_starts_two(s, w, ">="@, '>', '=');
    lemma_starts_one(s, w, "<"@, '<');
    lemma_starts_one(s, w, ">"@, '>');
}

} // verus!
