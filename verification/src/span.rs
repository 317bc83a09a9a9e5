//! Byte offsets with converted line/column for diagnostics.

use vstd::prelude::*;

use crate::text::{
    byte_offset, chars_of, lemma_utf8_len_full, lemma_utf8_len_mono, lemma_utf8_len_step, utf8_len,
    utf8_width, spec_utf8_width,
};

verus! {

/// A half-open byte range into the source, plus a start line/column.
#[derive(Clone, Copy, Debug, PartialEq, Eq, Structural)]
pub struct Span {
    /// Byte offset of the start.
    pub start: usize,
    /// Byte offset of the end.
    pub end: usize,
    /// 1-based line of `start`.
    pub line: usize,
    /// 1-based column of `start` (bytes, not graphemes).
    pub column: usize,
}

/// Line and column reached after walking the characters of `s` from index `k`
/// (at byte `byte`) while the byte position stays below `off`.
pub open spec fn lc_walk(s: Seq<char>, k: int, byte: nat, off: nat, line: nat, col: nat) -> (
    nat,
    nat,
)
    decreases s.len() - k,
{
    if k < 0 || k >= s.len() || byte >= off {
        (line, col)
    } else if s[k] == '\n' {
        lc_walk(s, k + 1, byte + spec_utf8_width(s[k]), off, line + 1, 1)
    } else {
        lc_walk(s, k + 1, byte + spec_utf8_width(s[k]), off, line, col + spec_utf8_width(s[k]))
    }
}

/// The 1-based line/column of byte `offset` in `s` (offsets past the end clamp to the end).
pub open spec fn spec_line_col(s: Seq<char>, offset: nat) -> (nat, nat) {
    let off = if offset < utf8_len(s) {
        offset
    } else {
        utf8_len(s)
    };
    lc_walk(s, 0, 0, off, 1, 1)
}

/// The line/column of the character at index `k` of `s`.
pub open spec fn char_line_col(s: Seq<char>, k: int) -> (nat, nat) {
    spec_line_col(s, byte_offset(s, k))
}

/// The point span at byte `offset` of `s`.
pub open spec fn spec_span_at(s: Seq<char>, offset: usize) -> Span {
    let lc = spec_line_col(s, offset as nat);
    Span { start: offset, end: offset, line: lc.0 as usize, column: lc.1 as usize }
}

/// Line/column of byte `offset` of the characters `s` (bounded by the byte length).
pub fn line_col_chars(s: &Vec<char>, offset: usize) -> (r: (usize, usize))
    requires
        utf8_len(s@) < usize::MAX,
    ensures
        r.0 as nat == spec_line_col(s@, offset as nat).0,
        r.1 as nat == spec_line_col(s@, offset as nat).1,
{
    let ghost total = utf8_len(s@);
    let ghost off: nat = if (offset as nat) < total {
        offset as nat
    } else {
        total
    };
    let mut line: usize = 1;
    let mut col: usize = 1;
    let mut byte: usize = 0;
    let mut k: usize = 0;
    assert(s@.take(0) =~= Seq::<char>::empty());
    proof {
        lemma_utf8_len_full(s@);
    }
    while k < s.len()
        invariant
            k <= s.len(),
            total == utf8_len(s@),
            total < usize::MAX,
            off <= total,
            off <= offset,
            (offset as nat) < total ==> off == offset,
            (offset as nat) >= total ==> off == total,
            byte == byte_offset(s@, k as int),
            byte <= total,
            line <= k + 1,
            col <= byte + 1,
            spec_line_col(s@, offset as nat) == lc_walk(
                s@,
                k as int,
                byte as nat,
                off,
                line as nat,
                col as nat,
            ),
        ensures
            k == s.len() || byte >= offset,
            spec_line_col(s@, offset as nat) == lc_walk(
                s@,
                k as int,
                byte as nat,
                off,
                line as nat,
                col as nat,
            ),
        decreases s.len() - k,
    {
        if byte >= offset {
            break;
        }
        proof {
            lemma_utf8_len_step(s@, k as int);
            lemma_utf8_len_mono(s@, k + 1, s.len() as int);
            lemma_utf8_len_full(s@);
        }
        let w = utf8_width(s[k]);
        assert(byte < off);
        let ghost (l0, c0, b0, k0) = (line as nat, col as nat, byte as nat, k as int);
        assert(lc_walk(s@, k0, b0, off, l0, c0) == if s@[k0] == '\n' {
            lc_walk(s@, k0 + 1, b0 + spec_utf8_width(s@[k0]), off, l0 + 1, 1)
        } else {
            lc_walk(s@, k0 + 1, b0 + spec_utf8_width(s@[k0]), off, l0, c0 + spec_utf8_width(s@[k0]))
        });
        if s[k] == '\n' {
            line = line + 1;
            col = 1;
        } else {
            col = col + w;
        }
        byte = byte + w;
        k += 1;
    }
    (line, col)
}

/// Convert a byte offset into 1-based line/column.
pub fn line_col(source: &str, offset: usize) -> (r: (usize, usize))
    requires
        utf8_len(source@) < usize::MAX,
    ensures
        r.0 as nat == spec_line_col(source@, offset as nat).0,
        r.1 as nat == spec_line_col(source@, offset as nat).1,
{
    let v = chars_of(source);
    line_col_chars(&v, offset)
}

impl Span {
    /// Dummy span for generated nodes.
    pub fn dummy() -> (s: Self)
        ensures
            s == (Span { start: 0, end: 0, line: 1, column: 1 }),
    {
        Span { start: 0, end: 0, line: 1, column: 1 }
    }

    /// Point span at `offset` given the full source (used by the parser).
    pub fn at(source: &str, offset: usize) -> (s: Self)
        requires
            utf8_len(source@) < usize::MAX,
        ensures
            s == spec_span_at(source@, offset),
    {
        let (line, column) = line_col(source, offset);
        Span { start: offset, end: offset, line, column }
    }

    /// Point span at byte `offset` of the characters `s`.
    pub fn at_chars(s: &Vec<char>, offset: usize) -> (r: Self)
        requires
            utf8_len(s@) < usize::MAX,
        ensures
            r == spec_span_at(s@, offset),
    {
        let (line, column) = line_col_chars(s, offset);
        Span { start: offset, end: offset, line, column }
    }
}

/// Offsets past the end of the source clamp to the end.
pub proof fn law_line_col_clamps(s: Seq<char>, offset: nat)
    requires
        offset >= utf8_len(s),
    ensures
        spec_line_col(s, offset) == spec_line_col(s, utf8_len(s)),
{
}

} // verus!
