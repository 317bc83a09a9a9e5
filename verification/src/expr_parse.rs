//! Recursive-descent parser for expressions, proved against the grammar in `expr`.

use vstd::prelude::*;

use crate::error::{Error, ErrorView};
use crate::expr::{
    add_op, advanced, binary, rel_op, count_dots, expr_span, expr_views, field_views,
    ident_end, is_ident_continue, is_ident_start, lemma_eat, lemma_expr_views, lemma_field_views,
    lemma_ident_end, lemma_number_end, lemma_ws_end, mul_op, number_end, p_add, p_add_tail,
    p_and, p_and_tail, p_args, p_call, p_rel, p_concat, p_concat_tail, p_fields, p_ident,
    p_mul, p_mul_tail, p_not, p_object, p_or, p_or_tail, p_paren, p_number, p_word, p_postfix, p_postfix_tail, p_primary,
    p_string, p_unary, perr, unexpected_msg, spec_eat, spec_parse_expr, span_from, word_value, ws_end, BinOp,
    Expr, ExprView, PRes, UnaryOp,
};
use crate::span::Span;
use crate::text::{
    byte_offset, byte_offsets, chars_of, is_alnum, is_alpha, is_digit, is_ws, lemma_utf8_len_full,
    lemma_utf8_len_mono, lit, push_char, push_chars, push_str, spec_is_alpha, spec_is_digit,
    starts_at, starts_with_at, string_range, utf8_len,
};

verus! {

/// Expression parser state: the characters, their byte offsets and the origin span.
pub struct ExprParser {
    s: Vec<char>,
    offs: Vec<usize>,
    origin: Span,
}

/// The value of a parse step's outcome.
pub open spec fn pres_view(r: Result<(Expr, usize), Error>) -> PRes {
    match r {
        Ok((e, k)) => Ok((e@, k as int)),
        Err(e) => Err(e@),
    }
}

pub open spec fn args_view(r: Result<(Vec<Expr>, usize), Error>) -> Result<
    (Seq<ExprView>, int),
    ErrorView,
> {
    match r {
        Ok((v, k)) => Ok((expr_views(v@), k as int)),
        Err(e) => Err(e@),
    }
}

pub open spec fn fields_view(r: Result<(Vec<(String, Expr)>, usize), Error>) -> Result<
    (Seq<(Seq<char>, ExprView)>, int),
    ErrorView,
> {
    match r {
        Ok((v, k)) => Ok((field_views(v@), k as int)),
        Err(e) => Err(e@),
    }
}

pub open spec fn parse_view(r: Result<Expr, Error>) -> Result<ExprView, ErrorView> {
    match r {
        Ok(e) => Ok(e@),
        Err(e) => Err(e@),
    }
}

proof fn lemma_expr_views_push(v: Seq<Expr>, e: Expr)
    ensures
        expr_views(v.push(e)) == expr_views(v).push(e@),
{
    assert(v.push(e).drop_last() =~= v);
}

proof fn lemma_field_views_push(v: Seq<(String, Expr)>, f: (String, Expr))
    ensures
        field_views(v.push(f)) == field_views(v).push((f.0@, f.1@)),
{
    assert(v.push(f).drop_last() =~= v);
}

impl ExprParser {
    pub closed spec fn wf(&self) -> bool {
        &&& self.offs.len() == self.s.len() + 1
        &&& forall|k: int| 0 <= k <= self.s.len() ==> #[trigger] self.offs@[k] == byte_offset(self.s@, k)
        &&& self.origin.start + utf8_len(self.s@) <= usize::MAX
    }

    pub closed spec fn chars(&self) -> Seq<char> {
        self.s@
    }

    pub closed spec fn at(&self) -> Span {
        self.origin
    }

    /// A parser over the characters `s` of an expression whose text starts at `origin`.
    pub fn new(s: Vec<char>, origin: Span) -> (p: Self)
        requires
            origin.start + utf8_len(s@) <= usize::MAX,
        ensures
            p.wf(),
            p.chars() == s@,
            p.at() == origin,
    {
        let offs = byte_offsets(&s);
        ExprParser { s, offs, origin }
    }

    fn err(&self, msg: &str) -> (e: Error)
        ensures
            e@ == perr(self.origin, msg@),
    {
        Error::at(self.origin.line, self.origin.column, msg)
    }

    fn span_from(&self, a: usize, b: usize) -> (sp: Span)
        requires
            self.wf(),
            a <= self.s.len(),
            b <= self.s.len(),
        ensures
            sp == span_from(self.s@, self.origin, a as int, b as int),
    {
        reveal(span_from);
        proof {
            lemma_utf8_len_mono(self.s@, a as int, self.s.len() as int);
            lemma_utf8_len_mono(self.s@, b as int, self.s.len() as int);
            lemma_utf8_len_full(self.s@);
        }
        Span {
            start: self.origin.start + self.offs[a],
            end: self.origin.start + self.offs[b],
            line: self.origin.line,
            column: self.origin.column,
        }
    }

    fn ws(&self, i: usize) -> (j: usize)
        requires
            i <= self.s.len(),
        ensures
            j == ws_end(self.s@, i as int),
            i <= j <= self.s.len(),
    {
        reveal(ws_end);
        proof {
            lemma_ws_end(self.s@, i as int);
        }
        let mut j = i;
        while j < self.s.len() && is_ws(self.s[j])
            invariant
                i <= j <= self.s.len(),
                ws_end(self.s@, i as int) == ws_end(self.s@, j as int),
            decreases self.s.len() - j,
        {
            reveal(ws_end);
            j += 1;
        }
        j
    }

    fn eat(&self, i: usize, kw: &str) -> (r: (bool, usize))
        requires
            i <= self.s.len(),
        ensures
            (r.0, r.1 as int) == spec_eat(self.s@, i as int, kw@),
            i <= r.1 <= self.s.len(),
            r.0 ==> r.1 >= i + kw@.len(),
            r.0 ==> r.1 >= ws_end(self.s@, i as int) + kw@.len(),
            !r.0 ==> r.1 == ws_end(self.s@, i as int),
    {
        reveal(spec_eat);
        let kv = chars_of(kw);
        let j = self.ws(i);
        if starts_with_at(self.s.as_slice(), j, kv.as_slice()) {
            let after = j + kv.len();
            let boundary_ok = after == self.s.len() || !(is_alnum(self.s[after]) || self.s[after]
                == '_');
            let start_ok = j == 0 || !(is_alnum(self.s[j - 1]) || self.s[j - 1] == '_');
            let symbolic = !(kv.len() > 0 && is_alpha(kv[0]));
            if symbolic || (boundary_ok && start_ok) {
                (true, after)
            } else {
                (false, j)
            }
        } else {
            (false, j)
        }
    }

    fn starts_lit(&self, j: usize, pat: &str) -> (r: bool)
        ensures
            r == starts_at(self.s@, j as int, pat@),
    {
        let pv = chars_of(pat);
        starts_with_at(self.s.as_slice(), j, pv.as_slice())
    }

    fn peek_is(&self, j: usize, c: char) -> (r: bool)
        ensures
            r == (j < self.s.len() && self.s@[j as int] == c),
    {
        j < self.s.len() && self.s[j] == c
    }

    fn parse_ident(&self, i: usize) -> (r: Result<(String, usize), Error>)
        requires
            self.wf(),
            i <= self.s.len(),
        ensures
            match r {
                Ok((name, k)) => p_ident(self.s@, self.origin, i as int) == Ok::<
                    (Seq<char>, int),
                    ErrorView,
                >((name@, k as int)) && i < k <= self.s.len(),
                Err(e) => p_ident(self.s@, self.origin, i as int) == Err::<
                    (Seq<char>, int),
                    ErrorView,
                >(e@),
            },
    {
        reveal(p_ident);
        reveal(ident_end);
        let j = self.ws(i);
        if j < self.s.len() && (is_alpha(self.s[j]) || self.s[j] == '_') {
            let mut k = j + 1;
            proof {
                lemma_ident_end(self.s@, k as int);
            }
            while k < self.s.len() && (is_alnum(self.s[k]) || self.s[k] == '_')
                invariant
                    j < k <= self.s.len(),
                    ident_end(self.s@, j + 1) == ident_end(self.s@, k as int),
                decreases self.s.len() - k,
            {
                reveal(ident_end);
                k += 1;
            }
            Ok((string_range(self.s.as_slice(), j, k), k))
        } else {
            Err(self.err("expected identifier"))
        }
    }

    fn parse_string(&self, start: usize, i: usize) -> (r: Result<(Expr, usize), Error>)
        requires
            self.wf(),
            start < i <= self.s.len(),
        ensures
            pres_view(r) == p_string(self.s@, self.origin, start as int, i as int, Seq::empty()),
            r matches Ok((_, k)) ==> i < k <= self.s.len(),
    {
        reveal(p_string);
        let mut acc = String::new();
        let mut j = i;
        while j < self.s.len() && self.s[j] != '\''
            invariant
                self.wf(),
                start < i <= j <= self.s.len(),
                p_string(self.s@, self.origin, start as int, i as int, Seq::empty()) == p_string(
                    self.s@,
                    self.origin,
                    start as int,
                    j as int,
                    acc@,
                ),
            decreases self.s.len() - j,
        {
            reveal(p_string);
            if self.s[j] == '\\' {
                if j + 1 >= self.s.len() {
                    return Err(self.err("unterminated string"));
                }
                push_char(&mut acc, self.s[j + 1]);
                j += 2;
            } else {
                push_char(&mut acc, self.s[j]);
                j += 1;
            }
        }
        if j >= self.s.len() {
            return Err(self.err("unterminated string"));
        }
        let sp = self.span_from(start, j + 1);
        Ok((Expr::String(acc, sp), j + 1))
    }

    fn parse_or(&self, i: usize) -> (r: Result<(Expr, usize), Error>)
        requires
            self.wf(),
            i <= self.s.len(),
        ensures
            pres_view(r) == p_or(self.s@, self.origin, i as int),
            r matches Ok((_, k)) ==> i < k <= self.s.len(),
        decreases self.s.len() - i, 10int,
    {
        match self.parse_and(i) {
            Err(e) => Err(e),
            Ok((l, k)) => self.or_tail(l, k),
        }
    }

    fn or_tail(&self, left: Expr, i: usize) -> (r: Result<(Expr, usize), Error>)
        requires
            self.wf(),
            i <= self.s.len(),
        ensures
            pres_view(r) == p_or_tail(self.s@, self.origin, left@, i as int),
            r matches Ok((_, k)) ==> i <= k <= self.s.len(),
        decreases self.s.len() - i, 10int,
    {
        proof {
            reveal_strlit("or");
        }
        let (ok, j) = self.eat(i, "or");
        if !ok {
            return Ok((left, j));
        }
        match self.parse_and(j) {
            Err(e) => Err(e),
            Ok((r, k)) => {
                let span = left.span();
                let b = Expr::Binary {
                    op: BinOp::Or,
                    left: Box::new(left),
                    right: Box::new(r),
                    span,
                };
                self.or_tail(b, k)
            },
        }
    }

    fn parse_and(&self, i: usize) -> (r: Result<(Expr, usize), Error>)
        requires
            self.wf(),
            i <= self.s.len(),
        ensures
            pres_view(r) == p_and(self.s@, self.origin, i as int),
            r matches Ok((_, k)) ==> i < k <= self.s.len(),
        decreases self.s.len() - i, 9int,
    {
        match self.parse_not(i) {
            Err(e) => Err(e),
            Ok((l, k)) => self.and_tail(l, k),
        }
    }

    fn and_tail(&self, left: Expr, i: usize) -> (r: Result<(Expr, usize), Error>)
        requires
            self.wf(),
            i <= self.s.len(),
        ensures
            pres_view(r) == p_and_tail(self.s@, self.origin, left@, i as int),
            r matches Ok((_, k)) ==> i <= k <= self.s.len(),
        decreases self.s.len() - i, 9int,
    {
        proof {
            reveal_strlit("and");
        }
        let (ok, j) = self.eat(i, "and");
        if !ok {
            return Ok((left, j));
        }
        match self.parse_not(j) {
            Err(e) => Err(e),
            Ok((r, k)) => {
                let span = left.span();
                let b = Expr::Binary {
                    op: BinOp::And,
                    left: Box::new(left),
                    right: Box::new(r),
                    span,
                };
                self.and_tail(b, k)
            },
        }
    }

    fn parse_not(&self, i: usize) -> (r: Result<(Expr, usize), Error>)
        requires
            self.wf(),
            i <= self.s.len(),
        ensures
            pres_view(r) == p_not(self.s@, self.origin, i as int),
            r matches Ok((_, k)) ==> i < k <= self.s.len(),
        decreases self.s.len() - i, 8int,
    {
        proof {
            reveal_strlit("not");
        }
        let j = self.ws(i);
        let (ok, p) = self.eat(j, "not");
        if ok {
            match self.parse_not(p) {
                Err(e) => Err(e),
                Ok((x, k)) => {
                    let span = self.span_from(p, k);
                    Ok((Expr::Unary { op: UnaryOp::Not, expr: Box::new(x), span }, k))
                },
            }
        } else {
            self.parse_rel(p)
        }
    }

    fn rel_op(&self, j: usize) -> (r: (Option<BinOp>, usize))
        requires
            j <= self.s.len(),
        ensures
            (r.0, r.1 as int) == rel_op(self.s@, j as int),
            j <= r.1 <= self.s.len(),
            r.0 is Some ==> j < r.1,
    {
        reveal(rel_op);
        proof {
            reveal_strlit("==");
            reveal_strlit("!=");
            reveal_strlit("<=");
            reveal_strlit(">=");
            reveal_strlit("<");
            reveal_strlit(">");
        }
        let (ok1, p1) = self.eat(j, "==");
        if ok1 {
            return (Some(BinOp::Eq), p1);
        }
        let (ok2, p2) = self.eat(p1, "!=");
        if ok2 {
            return (Some(BinOp::Ne), p2);
        }
        let (ok3, p3) = self.eat(p2, "<=");
        if ok3 {
            return (Some(BinOp::Le), p3);
        }
        let (ok4, p4) = self.eat(p3, ">=");
        if ok4 {
            return (Some(BinOp::Ge), p4);
        }
        let (ok5, p5) = self.eat(p4, "<");
        if ok5 {
            return (Some(BinOp::Lt), p5);
        }
        let (ok6, p6) = self.eat(p5, ">");
        if ok6 {
            return (Some(BinOp::Gt), p6);
        }
        (None, p6)
    }

    fn parse_rel(&self, i: usize) -> (r: Result<(Expr, usize), Error>)
        requires
            self.wf(),
            i <= self.s.len(),
        ensures
            pres_view(r) == p_rel(self.s@, self.origin, i as int),
            r matches Ok((_, k)) ==> i < k <= self.s.len(),
        decreases self.s.len() - i, 7int,
    {
        match self.parse_concat(i) {
            Err(e) => Err(e),
            Ok((l, k)) => {
                let j = self.ws(k);
                let (op, p) = self.rel_op(j);
                match op {
                    None => Ok((l, p)),
                    Some(op) => match self.parse_concat(p) {
                        Err(e) => Err(e),
                        Ok((r, m)) => {
                            let span = l.span();
                            Ok(
                                (
                                    Expr::Binary {
                                        op,
                                        left: Box::new(l),
                                        right: Box::new(r),
                                        span,
                                    },
                                    m,
                                ),
                            )
                        },
                    },
                }
            },
        }
    }

    fn parse_concat(&self, i: usize) -> (r: Result<(Expr, usize), Error>)
        requires
            self.wf(),
            i <= self.s.len(),
        ensures
            pres_view(r) == p_concat(self.s@, self.origin, i as int),
            r matches Ok((_, k)) ==> i < k <= self.s.len(),
        decreases self.s.len() - i, 6int,
    {
        match self.parse_add(i) {
            Err(e) => Err(e),
            Ok((l, k)) => self.concat_tail(l, k),
        }
    }

    fn concat_tail(&self, left: Expr, i: usize) -> (r: Result<(Expr, usize), Error>)
        requires
            self.wf(),
            i <= self.s.len(),
        ensures
            pres_view(r) == p_concat_tail(self.s@, self.origin, left@, i as int),
            r matches Ok((_, k)) ==> i <= k <= self.s.len(),
        decreases self.s.len() - i, 6int,
    {
        proof {
            reveal_strlit("++");
        }
        let j = self.ws(i);
        if self.starts_lit(j, "++") {
            match self.parse_add(j + 2) {
                Err(e) => Err(e),
                Ok((r, k)) => {
                    let span = left.span();
                    let b = Expr::Binary {
                        op: BinOp::Concat,
                        left: Box::new(left),
                        right: Box::new(r),
                        span,
                    };
                    self.concat_tail(b, k)
                },
            }
        } else {
            Ok((left, j))
        }
    }

    fn parse_add(&self, i: usize) -> (r: Result<(Expr, usize), Error>)
        requires
            self.wf(),
            i <= self.s.len(),
        ensures
            pres_view(r) == p_add(self.s@, self.origin, i as int),
            r matches Ok((_, k)) ==> i < k <= self.s.len(),
        decreases self.s.len() - i, 5int,
    {
        match self.parse_mul(i) {
            Err(e) => Err(e),
            Ok((l, k)) => self.add_tail(l, k),
        }
    }

    fn add_op(&self, j: usize) -> (r: (Option<BinOp>, usize))
        requires
            j <= self.s.len(),
        ensures
            (r.0, r.1 as int) == add_op(self.s@, j as int),
            j <= r.1 <= self.s.len(),
            r.0 is Some ==> j < r.1,
    {
        reveal(add_op);
        proof {
            reveal_strlit("+");
            reveal_strlit("-");
        }
        if self.starts_lit(j, "++") {
            return (None, j);
        }
        let (ok1, p1) = self.eat(j, "+");
        if ok1 {
            return (Some(BinOp::Add), p1);
        }
        let (ok2, p2) = self.eat(p1, "-");
        if ok2 {
            return (Some(BinOp::Sub), p2);
        }
        (None, p2)
    }

    fn add_tail(&self, left: Expr, i: usize) -> (r: Result<(Expr, usize), Error>)
        requires
            self.wf(),
            i <= self.s.len(),
        ensures
            pres_view(r) == p_add_tail(self.s@, self.origin, left@, i as int),
            r matches Ok((_, k)) ==> i <= k <= self.s.len(),
        decreases self.s.len() - i, 5int,
    {
        let j = self.ws(i);
        let (op, p) = self.add_op(j);
        match op {
            None => Ok((left, p)),
            Some(op) => match self.parse_mul(p) {
                Err(e) => Err(e),
                Ok((r, k)) => {
                    let span = left.span();
                    let b = Expr::Binary { op, left: Box::new(left), right: Box::new(r), span };
                    self.add_tail(b, k)
                },
            },
        }
    }

    fn parse_mul(&self, i: usize) -> (r: Result<(Expr, usize), Error>)
        requires
            self.wf(),
            i <= self.s.len(),
        ensures
            pres_view(r) == p_mul(self.s@, self.origin, i as int),
            r matches Ok((_, k)) ==> i < k <= self.s.len(),
        decreases self.s.len() - i, 4int,
    {
        match self.parse_unary(i) {
            Err(e) => Err(e),
            Ok((l, k)) => self.mul_tail(l, k),
        }
    }

    fn mul_op(&self, j: usize) -> (r: (Option<BinOp>, usize))
        requires
            j <= self.s.len(),
        ensures
            (r.0, r.1 as int) == mul_op(self.s@, j as int),
            j <= r.1 <= self.s.len(),
            r.0 is Some ==> j < r.1,
    {
        reveal(mul_op);
        proof {
            reveal_strlit("*");
            reveal_strlit("/");
        }
        let (ok1, p1) = self.eat(j, "*");
        if ok1 {
            return (Some(BinOp::Mul), p1);
        }
        let (ok2, p2) = self.eat(p1, "/");
        if ok2 {
            return (Some(BinOp::Div), p2);
        }
        (None, p2)
    }

    fn mul_tail(&self, left: Expr, i: usize) -> (r: Result<(Expr, usize), Error>)
        requires
            self.wf(),
            i <= self.s.len(),
        ensures
            pres_view(r) == p_mul_tail(self.s@, self.origin, left@, i as int),
            r matches Ok((_, k)) ==> i <= k <= self.s.len(),
        decreases self.s.len() - i, 4int,
    {
        let j = self.ws(i);
        let (op, p) = self.mul_op(j);
        match op {
            None => Ok((left, p)),
            Some(op) => match self.parse_unary(p) {
                Err(e) => Err(e),
                Ok((r, k)) => {
                    let span = left.span();
                    let b = Expr::Binary { op, left: Box::new(left), right: Box::new(r), span };
                    self.mul_tail(b, k)
                },
            },
        }
    }

    fn parse_unary(&self, i: usize) -> (r: Result<(Expr, usize), Error>)
        requires
            self.wf(),
            i <= self.s.len(),
        ensures
            pres_view(r) == p_unary(self.s@, self.origin, i as int),
            r matches Ok((_, k)) ==> i < k <= self.s.len(),
        decreases self.s.len() - i, 3int,
    {
        proof {
            reveal_strlit("-");
        }
        let j = self.ws(i);
        let (ok, p) = self.eat(j, "-");
        if ok {
            match self.parse_unary(p) {
                Err(e) => Err(e),
                Ok((x, k)) => {
                    let span = self.span_from(p, k);
                    Ok((Expr::Unary { op: UnaryOp::Neg, expr: Box::new(x), span }, k))
                },
            }
        } else {
            self.parse_postfix(p)
        }
    }

    fn parse_postfix(&self, i: usize) -> (r: Result<(Expr, usize), Error>)
        requires
            self.wf(),
            i <= self.s.len(),
        ensures
            pres_view(r) == p_postfix(self.s@, self.origin, i as int),
            r matches Ok((_, k)) ==> i < k <= self.s.len(),
        decreases self.s.len() - i, 2int,
    {
        match self.parse_primary(i) {
            Err(e) => Err(e),
            Ok((x, k)) => self.postfix_tail(x, k),
        }
    }

    fn postfix_tail(&self, x: Expr, i: usize) -> (r: Result<(Expr, usize), Error>)
        requires
            self.wf(),
            i <= self.s.len(),
        ensures
            pres_view(r) == p_postfix_tail(self.s@, self.origin, x@, i as int),
            r matches Ok((_, k)) ==> i <= k <= self.s.len(),
        decreases self.s.len() - i, 2int,
    {
        let j = self.ws(i);
        if self.peek_is(j, '.') {
            match self.parse_ident(j + 1) {
                Err(e) => Err(e),
                Ok((name, k)) => {
                    let span = x.span();
                    self.postfix_tail(Expr::Field { base: Box::new(x), name, span }, k)
                },
            }
        } else if self.peek_is(j, '[') {
            match self.parse_or(j + 1) {
                Err(e) => Err(e),
                Ok((idx, k)) => {
                    let m = self.ws(k);
                    if self.peek_is(m, ']') {
                        let span = x.span();
                        self.postfix_tail(
                            Expr::Index { base: Box::new(x), index: Box::new(idx), span },
                            m + 1,
                        )
                    } else {
                        Err(self.err("expected ']' after index"))
                    }
                },
            }
        } else {
            Ok((x, j))
        }
    }

    fn parse_primary(&self, i: usize) -> (r: Result<(Expr, usize), Error>)
        requires
            self.wf(),
            i <= self.s.len(),
        ensures
            pres_view(r) == p_primary(self.s@, self.origin, i as int),
            r matches Ok((_, k)) ==> i < k <= self.s.len(),
        decreases self.s.len() - i, 1int,
    {
        let j = self.ws(i);
        if j == self.s.len() {
            return Err(self.err("unexpected end of expression"));
        }
        let c = self.s[j];
        if c == '(' {
            self.parse_paren(j)
        } else if c == '{' {
            self.parse_object(j)
        } else if c == '\'' {
            self.parse_string(j, j + 1)
        } else if is_digit(c) {
            self.parse_number(j)
        } else if is_alpha(c) || c == '_' {
            self.parse_word(j)
        } else {
            Err(self.unexpected(c))
        }
    }

    fn unexpected(&self, c: char) -> (e: Error)
        ensures
            e@ == perr(self.origin, unexpected_msg(c)),
    {
        reveal(unexpected_msg);
        let mut msg = lit("unexpected '");
        push_char(&mut msg, c);
        push_str(&mut msg, "' in expression");
        assert(msg@ =~= unexpected_msg(c));
        Error::at_string(self.origin.line, self.origin.column, msg)
    }

    fn parse_paren(&self, j: usize) -> (r: Result<(Expr, usize), Error>)
        requires
            self.wf(),
            j < self.s.len(),
        ensures
            pres_view(r) == p_paren(self.s@, self.origin, j as int),
            r matches Ok((_, k)) ==> j < k <= self.s.len(),
        decreases self.s.len() - j, 0int,
    {
        match self.parse_or(j + 1) {
            Err(e) => Err(e),
            Ok((inner, k)) => {
                let m = self.ws(k);
                if self.peek_is(m, ')') {
                    Ok((inner, m + 1))
                } else {
                    Err(self.err("expected ')'"))
                }
            },
        }
    }

    fn parse_number(&self, j: usize) -> (r: Result<(Expr, usize), Error>)
        requires
            self.wf(),
            j < self.s.len(),
            spec_is_digit(self.s@[j as int]),
        ensures
            pres_view(r) == p_number(self.s@, self.origin, j as int),
            r matches Ok((_, k)) ==> j < k <= self.s.len(),
    {
        reveal(p_number);
        reveal(number_end);
        let mut end = j;
        let mut dots: usize = 0;
        proof {
            lemma_number_end(self.s@, j as int);
            assert(self.s@.subrange(j as int, j as int) =~= Seq::<char>::empty());
        }
        while end < self.s.len() && (is_digit(self.s[end]) || self.s[end] == '.')
            invariant
                j <= end <= self.s.len(),
                number_end(self.s@, j as int) == number_end(self.s@, end as int),
                dots == count_dots(self.s@.subrange(j as int, end as int)),
                dots <= end - j,
            decreases self.s.len() - end,
        {
            reveal(number_end);
            proof {
                assert(self.s@.subrange(j as int, end + 1).drop_last() =~= self.s@.subrange(
                    j as int,
                    end as int,
                ));
            }
            if self.s[end] == '.' {
                dots += 1;
            }
            end += 1;
        }
        if dots > 1 {
            return Err(self.err("invalid number"));
        }
        let t = string_range(self.s.as_slice(), j, end);
        let span = self.span_from(j, end);
        Ok((Expr::Number(t, span), end))
    }

    fn parse_word(&self, j: usize) -> (r: Result<(Expr, usize), Error>)
        requires
            self.wf(),
            j < self.s.len(),
        ensures
            pres_view(r) == p_word(self.s@, self.origin, j as int),
            r matches Ok((_, k)) ==> j < k <= self.s.len(),
        decreases self.s.len() - j, 0int,
    {
        reveal(word_value);
        match self.parse_ident(j) {
            Err(e) => Err(e),
            Ok((name, k)) => {
                let m = self.ws(k);
                if self.peek_is(m, '(') {
                    self.parse_call(j, name, m + 1)
                } else {
                    let span = self.span_from(j, m);
                    let ghost nv = name@;
                    let e = if crate::text::str_eq(name.as_str(), "true") {
                        Expr::Bool(true, span)
                    } else if crate::text::str_eq(name.as_str(), "false") {
                        Expr::Bool(false, span)
                    } else if crate::text::str_eq(name.as_str(), "null") {
                        Expr::Null(span)
                    } else {
                        Expr::Ident(name, span)
                    };
                    assert(e@ == word_value(nv, span));
                    Ok((e, m))
                }
            },
        }
    }

    fn parse_call(&self, start: usize, name: String, i: usize) -> (r: Result<(Expr, usize), Error>)
        requires
            self.wf(),
            start < i <= self.s.len(),
        ensures
            pres_view(r) == p_call(self.s@, self.origin, start as int, name@, i as int),
            r matches Ok((_, k)) ==> i < k <= self.s.len(),
        decreases self.s.len() - i, 12int,
    {
        let a = self.ws(i);
        if self.peek_is(a, ')') {
            let span = self.span_from(start, a + 1);
            let args: Vec<Expr> = Vec::new();
            assert(expr_views(args@) =~= Seq::<ExprView>::empty());
            return Ok((Expr::Call { name, args, span }, a + 1));
        }
        let acc: Vec<Expr> = Vec::new();
        assert(expr_views(acc@) =~= Seq::<ExprView>::empty());
        match self.parse_args(acc, a) {
            Err(e) => Err(e),
            Ok((args, b)) => if self.peek_is(b, ')') {
                let span = self.span_from(start, b + 1);
                Ok((Expr::Call { name, args, span }, b + 1))
            } else {
                Err(self.err("expected ')' after arguments"))
            },
        }
    }

    fn parse_args(&self, acc: Vec<Expr>, i: usize) -> (r: Result<(Vec<Expr>, usize), Error>)
        requires
            self.wf(),
            i <= self.s.len(),
        ensures
            args_view(r) == p_args(self.s@, self.origin, expr_views(acc@), i as int),
            r matches Ok((_, k)) ==> i < k <= self.s.len(),
        decreases self.s.len() - i, 11int,
    {
        match self.parse_or(i) {
            Err(e) => Err(e),
            Ok((e, k)) => {
                let b = self.ws(k);
                let mut acc = acc;
                proof {
                    lemma_expr_views_push(acc@, e);
                }
                acc.push(e);
                if self.peek_is(b, ',') {
                    let c = self.ws(b + 1);
                    self.parse_args(acc, c)
                } else {
                    Ok((acc, b))
                }
            },
        }
    }

    fn parse_object(&self, i: usize) -> (r: Result<(Expr, usize), Error>)
        requires
            self.wf(),
            i < self.s.len(),
        ensures
            pres_view(r) == p_object(self.s@, self.origin, i as int),
            r matches Ok((_, k)) ==> i < k <= self.s.len(),
        decreases self.s.len() - i, 0int,
    {
        let a = self.ws(i + 1);
        let acc: Vec<(String, Expr)> = Vec::new();
        assert(field_views(acc@) =~= Seq::<(Seq<char>, ExprView)>::empty());
        let r = if self.peek_is(a, '}') {
            Ok((acc, a))
        } else {
            self.parse_fields(acc, a)
        };
        match r {
            Err(e) => Err(e),
            Ok((fields, b)) => if self.peek_is(b, '}') {
                let span = self.span_from(i, b + 1);
                Ok((Expr::Object { fields, span }, b + 1))
            } else {
                Err(self.err("expected '}' at end of object literal"))
            },
        }
    }

    fn parse_fields(&self, acc: Vec<(String, Expr)>, i: usize) -> (r: Result<
        (Vec<(String, Expr)>, usize),
        Error,
    >)
        requires
            self.wf(),
            i <= self.s.len(),
        ensures
            fields_view(r) == p_fields(self.s@, self.origin, field_views(acc@), i as int),
            r matches Ok((_, k)) ==> i < k <= self.s.len(),
        decreases self.s.len() - i, 11int,
    {
        let j = self.ws(i);
        match self.parse_ident(j) {
            Err(e) => Err(e),
            Ok((key, k)) => {
                let m = self.ws(k);
                if !self.peek_is(m, ':') {
                    return Err(self.err("expected ':' in object literal"));
                }
                match self.parse_or(m + 1) {
                    Err(e) => Err(e),
                    Ok((v, q)) => {
                        let mut acc = acc;
                        proof {
                            lemma_field_views_push(acc@, (key, v));
                        }
                        acc.push((key, v));
                        let r = self.ws(q);
                        if self.peek_is(r, ',') {
                            let t = self.ws(r + 1);
                            if self.peek_is(t, '}') {
                                Ok((acc, t))
                            } else {
                                self.parse_fields(acc, t)
                            }
                        } else {
                            Ok((acc, r))
                        }
                    },
                }
            },
        }
    }

    /// Parse the whole character sequence as one expression.
    pub fn parse_all(&self) -> (r: Result<Expr, Error>)
        requires
            self.wf(),
        ensures
            parse_view(r) == spec_parse_expr(self.chars(), self.at()),
    {
        let j = self.ws(0);
        match self.parse_or(j) {
            Err(e) => Err(e),
            Ok((x, k)) => {
                let m = self.ws(k);
                if m == self.s.len() {
                    Ok(x)
                } else {
                    let mut msg = lit("unexpected trailing input in expression: '");
                    push_chars(&mut msg, self.s.as_slice(), m, self.s.len());
                    push_str(&mut msg, "'");
                    Err(Error::at_string(self.origin.line, self.origin.column, msg))
                }
            },
        }
    }
}

/// Parse an expression from a complete string (the inside of `{...}`).
pub fn parse_expr(src: &str, origin: Span) -> (r: Result<Expr, Error>)
    requires
        origin.start + utf8_len(src@) <= usize::MAX,
    ensures
        parse_view(r) == spec_parse_expr(src@, origin),
{
    let s = chars_of(src);
    let p = ExprParser::new(s, origin);
    p.parse_all()
}

} // verus!
