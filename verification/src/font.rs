//! Glyph lookup for the bundled 8x8 bitmap font, and greedy word wrap by character cells.

use vstd::prelude::*;

use crate::doc_parse::{token_end_from, ws_from};
use crate::expr::{lemma_ws_end, strings_view, ws_end};
use crate::markup::token_end;
use crate::font_data::FONT8X8;
use crate::text::{chars_of, spec_is_ws, string_range, sub_vec};

verus! {

/// The glyph a character is drawn with: ASCII as itself, some typographic punctuation as
/// its nearest ASCII lookalike, anything else as `?`.
pub open spec fn spec_glyph_index(ch: char) -> usize {
    if ch == '\u{00D7}' {
        120
    } else if ch == '\u{00F7}' {
        47
    } else if ch == '\u{2212}' || ch == '\u{2013}' || ch == '\u{2014}' {
        45
    } else if ch == '\u{00B1}' {
        43
    } else if ch == '\u{00B7}' || ch == '\u{2022}' {
        46
    } else if ch == '\u{2026}' {
        46
    } else if ch == '\u{2019}' || ch == '\u{2018}' || ch == '\u{201B}' {
        39
    } else if ch == '\u{201C}' || ch == '\u{201D}' {
        34
    } else if (ch as u32) < 128 {
        ch as u32 as usize
    } else {
        63
    }
}

/// Bitmap rows for `ch`: the glyph of its index in the bundled font.
pub fn glyph(ch: char) -> (g: [u8; 8])
    ensures
        g == FONT8X8[spec_glyph_index(ch) as int],
{
    FONT8X8[glyph_index(ch)]
}

/// Map a Unicode scalar to a glyph index. Extra punctuation used by the demos
/// falls back to a nearby ASCII lookalike so layouts stay deterministic.
pub fn glyph_index(ch: char) -> (r: usize)
    ensures
        r == spec_glyph_index(ch),
        r < 128,
{
    if ch == '\u{00D7}' {
        120
    } else if ch == '\u{00F7}' {
        47
    } else if ch == '\u{2212}' || ch == '\u{2013}' || ch == '\u{2014}' {
        45
    } else if ch == '\u{00B1}' {
        43
    } else if ch == '\u{00B7}' || ch == '\u{2022}' {
        46
    } else if ch == '\u{2026}' {
        46
    } else if ch == '\u{2019}' || ch == '\u{2018}' || ch == '\u{201B}' {
        39
    } else if ch == '\u{201C}' || ch == '\u{201D}' {
        34
    } else if (ch as u32) < 128 {
        ch as u32 as usize
    } else {
        63
    }
}

// ---------------------------------------------------------------------------
// Word wrap.
// ---------------------------------------------------------------------------
/// The whitespace-separated words of `t` from position `i` (`str::split_whitespace`).
#[verifier::opaque]
pub open spec fn words_from(t: Seq<char>, i: int) -> Seq<Seq<char>>
    decreases t.len() - i,
{
    let j = ws_end(t, i);
    if i < 0 || j < i || j >= t.len() {
        Seq::empty()
    } else {
        let k = token_end(t, j);
        if k <= j || k > t.len() {
            Seq::empty()
        } else {
            seq![t.subrange(j, k)] + words_from(t, k)
        }
    }
}

/// A word too long for a line, cut into `max`-character lines; the rest stays current.
pub open spec fn chunk_lines(word: Seq<char>, max: nat) -> (Seq<Seq<char>>, Seq<char>)
    decreases word.len(),
{
    if word.len() <= max || max == 0 {
        (Seq::empty(), word)
    } else {
        let (l, c) = chunk_lines(word.skip(max as int), max);
        (seq![word.take(max as int)] + l, c)
    }
}

/// Greedy filling of lines with the words `ws`: the finished lines and the current line.
pub open spec fn wrap_fold(ws: Seq<Seq<char>>, max: nat) -> (Seq<Seq<char>>, Seq<char>)
    decreases ws.len(),
{
    if ws.len() == 0 {
        (Seq::empty(), Seq::empty())
    } else {
        let (lines, cur) = wrap_fold(ws.drop_last(), max);
        let w = ws.last();
        if cur.len() == 0 {
            let (l2, c2) = chunk_lines(w, max);
            (lines + l2, c2)
        } else if cur.len() + 1 + w.len() <= max {
            (lines, cur + seq![' '] + w)
        } else {
            let (l2, c2) = chunk_lines(w, max);
            (lines.push(cur) + l2, c2)
        }
    }
}

/// The lines greedy word wrap gives for `text` at `max` characters per line.
pub open spec fn spec_wrap_lines(text: Seq<char>, max: nat) -> Seq<Seq<char>> {
    let (lines, cur) = wrap_fold(words_from(text, 0), max);
    if cur.len() > 0 {
        lines.push(cur)
    } else {
        lines
    }
}

/// Place `word` on a fresh current line, cutting it into `max_chars` pieces when it is longer.
pub fn push_broken(word: &[char], max_chars: usize, lines: &mut Vec<String>, current: &mut String)
    requires
        max_chars >= 1,
    ensures
        strings_view(final(lines)@) == strings_view(old(lines)@) + chunk_lines(
            word@,
            max_chars as nat,
        ).0,
        final(current)@ == chunk_lines(word@, max_chars as nat).1,
{
    let ghost l0 = strings_view(lines@);
    let mut i: usize = 0;
    assert(word@.skip(0) =~= word@);
    while word.len() - i > max_chars
        invariant
            i <= word.len(),
            max_chars >= 1,
            l0 + chunk_lines(word@, max_chars as nat).0 == strings_view(lines@) + chunk_lines(
                word@.skip(i as int),
                max_chars as nat,
            ).0,
            chunk_lines(word@, max_chars as nat).1 == chunk_lines(
                word@.skip(i as int),
                max_chars as nat,
            ).1,
        decreases word.len() - i,
    {
        let ghost rest = word@.skip(i as int);
        let piece = string_range(word, i, i + max_chars);
        assert(rest.take(max_chars as int) =~= word@.subrange(i as int, i + max_chars));
        assert(rest.skip(max_chars as int) =~= word@.skip(i + max_chars));
        let ghost lv = strings_view(lines@);
        lines.push(piece);
        assert(strings_view(lines@) =~= lv.push(word@.subrange(i as int, i + max_chars)));
        assert(lv + (seq![rest.take(max_chars as int)] + chunk_lines(
            word@.skip(i + max_chars),
            max_chars as nat,
        ).0) =~= strings_view(lines@) + chunk_lines(word@.skip(i + max_chars), max_chars as nat).0);
        i = i + max_chars;
    }
    let ghost rest = word@.skip(i as int);
    assert(rest =~= word@.subrange(i as int, word.len() as int));
    assert(strings_view(lines@) + Seq::<Seq<char>>::empty() =~= strings_view(lines@));
    *current = string_range(word, i, word.len());
}

/// Greedy word wrap of `text` into lines of at most `max_chars` characters (a longer word is
/// cut across lines).
pub fn wrap_lines(text: &str, max_chars: usize) -> (r: Vec<String>)
    requires
        max_chars >= 1,
    ensures
        strings_view(r@) == spec_wrap_lines(text@, max_chars as nat),
{
    let t = chars_of(text);
    let ghost all = words_from(t@, 0);
    let mut lines: Vec<String> = Vec::new();
    let mut current: Vec<char> = Vec::new();
    let mut i: usize = 0;
    let ghost mut done: Seq<Seq<char>> = Seq::empty();
    proof {
        assert(all =~= done + words_from(t@, 0));
    }
    loop
        invariant
            i <= t.len(),
            max_chars >= 1,
            all == words_from(t@, 0),
            all == done + words_from(t@, i as int),
            (strings_view(lines@), current@) == wrap_fold(done, max_chars as nat),
        ensures
            all == done,
            (strings_view(lines@), current@) == wrap_fold(done, max_chars as nat),
        decreases t.len() - i,
    {
        reveal(words_from);
        proof {
            lemma_ws_end(t@, i as int);
        }
        let j = ws_from(t.as_slice(), i);
        if j >= t.len() {
            proof {
                assert(words_from(t@, i as int) =~= Seq::<Seq<char>>::empty());
                assert(done + Seq::<Seq<char>>::empty() =~= done);
            }
            break;
        }
        let k = token_end_from(t.as_slice(), j);
        let word = sub_vec(t.as_slice(), j, k);
        let ghost w = t@.subrange(j as int, k as int);
        assert(word@ == w);
        assert(done.push(w).drop_last() =~= done);
        assert(done.push(w).last() == w);
        let cur_len = current.len();
        if cur_len == 0 {
            let mut cur = String::new();
            push_broken(word.as_slice(), max_chars, &mut lines, &mut cur);
            current = chars_of(cur.as_str());
        } else if cur_len < max_chars && word.len() <= max_chars - cur_len - 1 {
            current.push(' ');
            let mut m: usize = 0;
            let ghost c0 = current@;
            while m < word.len()
                invariant
                    m <= word.len(),
                    current@ == c0 + word@.subrange(0, m as int),
                decreases word.len() - m,
            {
                current.push(word[m]);
                assert(word@.subrange(0, m + 1) =~= word@.subrange(0, m as int).push(
                    word@[m as int],
                ));
                m += 1;
            }
            assert(word@.subrange(0, word@.len() as int) =~= word@);
        } else {
            let line = string_range(current.as_slice(), 0, current.len());
            assert(current@.subrange(0, current@.len() as int) =~= current@);
            let ghost lv = strings_view(lines@);
            lines.push(line);
            assert(strings_view(lines@) =~= lv.push(current@));
            let mut cur = String::new();
            push_broken(word.as_slice(), max_chars, &mut lines, &mut cur);
            current = chars_of(cur.as_str());
        }
        proof {
            assert(words_from(t@, i as int) == seq![w] + words_from(t@, k as int));
            assert(done + words_from(t@, i as int) =~= done.push(w) + words_from(t@, k as int));
            done = done.push(w);
        }
        i = k;
    }
    if current.len() > 0 {
        let line = string_range(current.as_slice(), 0, current.len());
        assert(current@.subrange(0, current@.len() as int) =~= current@);
        let ghost lv = strings_view(lines@);
        lines.push(line);
        assert(strings_view(lines@) =~= lv.push(current@));
    }
    lines
}

/// Every line holds at least one and at most `max` characters.
pub open spec fn lines_fit(lines: Seq<Seq<char>>, max: nat) -> bool {
    forall|i: int| 0 <= i < lines.len() ==> 0 < #[trigger] lines[i].len() <= max
}

proof fn lemma_words_nonempty(t: Seq<char>, i: int)
    ensures
        forall|k: int| 0 <= k < words_from(t, i).len() ==> #[trigger] words_from(t, i)[k].len() > 0,
    decreases t.len() - i,
{
    reveal(words_from);
    let j = ws_end(t, i);
    if !(i < 0 || j < i || j >= t.len()) {
        let k = token_end(t, j);
        if !(k <= j || k > t.len()) {
            lemma_words_nonempty(t, k);
            let ws = words_from(t, i);
            assert forall|m: int| 0 <= m < ws.len() implies #[trigger] ws[m].len() > 0 by {
                if m > 0 {
                    assert(ws[m] == words_from(t, k)[m - 1]);
                }
            }
        }
    }
}

proof fn lemma_chunk_lines_fit(word: Seq<char>, max: nat)
    requires
        word.len() > 0,
        max >= 1,
    ensures
        lines_fit(chunk_lines(word, max).0, max),
        0 < chunk_lines(word, max).1.len() <= max,
    decreases word.len(),
{
    if word.len() > max {
        lemma_chunk_lines_fit(word.skip(max as int), max);
        let (l, c) = chunk_lines(word.skip(max as int), max);
        let all = seq![word.take(max as int)] + l;
        assert forall|i: int| 0 <= i < all.len() implies 0 < #[trigger] all[i].len() <= max by {
            if i > 0 {
                assert(all[i] == l[i - 1]);
            }
        }
    }
}

proof fn lemma_wrap_fold_fit(ws: Seq<Seq<char>>, max: nat)
    requires
        max >= 1,
        forall|k: int| 0 <= k < ws.len() ==> #[trigger] ws[k].len() > 0,
    ensures
        lines_fit(wrap_fold(ws, max).0, max),
        wrap_fold(ws, max).1.len() <= max,
    decreases ws.len(),
{
    if ws.len() > 0 {
        let d = ws.drop_last();
        assert forall|k: int| 0 <= k < d.len() implies #[trigger] d[k].len() > 0 by {
            assert(d[k] == ws[k]);
        }
        lemma_wrap_fold_fit(d, max);
        let (lines, cur) = wrap_fold(d, max);
        let w = ws.last();
        assert(w == ws[ws.len() - 1]);
        lemma_chunk_lines_fit(w, max);
        let (l2, c2) = chunk_lines(w, max);
        if cur.len() == 0 {
            let all = lines + l2;
            assert forall|i: int| 0 <= i < all.len() implies 0 < #[trigger] all[i].len() <= max by {
                if i >= lines.len() {
                    assert(all[i] == l2[i - lines.len()]);
                }
            }
        } else if cur.len() + 1 + w.len() <= max {
        } else {
            let all = lines.push(cur) + l2;
            assert forall|i: int| 0 <= i < all.len() implies 0 < #[trigger] all[i].len() <= max by {
                if i > lines.len() {
                    assert(all[i] == l2[i - lines.len() - 1]);
                } else if i == lines.len() {
                    assert(all[i] == cur);
                } else {
                    assert(all[i] == lines[i]);
                }
            }
        }
    }
}

/// Wrapped lines fit: each line of `wrap_lines` has at least one and at most `max` characters.
pub proof fn law_wrap_lines_fit(text: Seq<char>, max: nat)
    requires
        max >= 1,
    ensures
        lines_fit(spec_wrap_lines(text, max), max),
{
    lemma_words_nonempty(text, 0);
    lemma_wrap_fold_fit(words_from(text, 0), max);
    let (lines, cur) = wrap_fold(words_from(text, 0), max);
    if cur.len() > 0 {
        let all = lines.push(cur);
        assert forall|i: int| 0 <= i < all.len() implies 0 < #[trigger] all[i].len() <= max by {
            if i < lines.len() {
                assert(all[i] == lines[i]);
            }
        }
    }
}

// ---------------------------------------------------------------------------
// No text is lost.
// ---------------------------------------------------------------------------
/// The characters of `s` that are not whitespace, in order.
pub open spec fn strip_ws(s: Seq<char>) -> Seq<char>
    decreases s.len(),
{
    if s.len() == 0 {
        Seq::empty()
    } else if spec_is_ws(s.last()) {
        strip_ws(s.drop_last())
    } else {
        strip_ws(s.drop_last()).push(s.last())
    }
}

/// The lines one after another.
pub open spec fn flat(lines: Seq<Seq<char>>) -> Seq<char>
    decreases lines.len(),
{
    if lines.len() == 0 {
        Seq::empty()
    } else {
        flat(lines.drop_last()) + lines.last()
    }
}

proof fn lemma_strip_add(a: Seq<char>, b: Seq<char>)
    ensures
        strip_ws(a + b) == strip_ws(a) + strip_ws(b),
    decreases b.len(),
{
    if b.len() == 0 {
        assert(a + b =~= a);
        assert(strip_ws(a) + strip_ws(b) =~= strip_ws(a));
    } else {
        assert((a + b).drop_last() =~= a + b.drop_last());
        assert((a + b).last() == b.last());
        lemma_strip_add(a, b.drop_last());
        if !spec_is_ws(b.last()) {
            assert(strip_ws(a) + strip_ws(b.drop_last()).push(b.last()) =~= (strip_ws(a)
                + strip_ws(b.drop_last())).push(b.last()));
        }
    }
}

proof fn lemma_flat_add(a: Seq<Seq<char>>, b: Seq<Seq<char>>)
    ensures
        flat(a + b) == flat(a) + flat(b),
    decreases b.len(),
{
    if b.len() == 0 {
        assert(a + b =~= a);
        assert(flat(a) + flat(b) =~= flat(a));
    } else {
        assert((a + b).drop_last() =~= a + b.drop_last());
        assert((a + b).last() == b.last());
        lemma_flat_add(a, b.drop_last());
        assert(flat(a) + flat(b.drop_last()) + b.last() =~= flat(a) + (flat(b.drop_last())
            + b.last()));
    }
}

proof fn lemma_flat_single(x: Seq<char>)
    ensures
        flat(seq![x]) == x,
{
    let one = seq![x];
    assert(one.drop_last() =~= Seq::<Seq<char>>::empty());
    assert(flat(one.drop_last()) == Seq::<char>::empty());
    assert(one.last() == x);
    assert(Seq::<char>::empty() + x =~= x);
}

proof fn lemma_strip_all_ws(s: Seq<char>)
    requires
        forall|k: int| 0 <= k < s.len() ==> spec_is_ws(#[trigger] s[k]),
    ensures
        strip_ws(s) == Seq::<char>::empty(),
    decreases s.len(),
{
    if s.len() > 0 {
        assert(spec_is_ws(s[s.len() - 1]));
        lemma_strip_all_ws(s.drop_last());
    }
}

proof fn lemma_strip_no_ws(s: Seq<char>)
    requires
        forall|k: int| 0 <= k < s.len() ==> !spec_is_ws(#[trigger] s[k]),
    ensures
        strip_ws(s) == s,
    decreases s.len(),
{
    if s.len() > 0 {
        assert(!spec_is_ws(s[s.len() - 1]));
        lemma_strip_no_ws(s.drop_last());
        assert(s.drop_last().push(s.last()) =~= s);
    }
}

proof fn lemma_strip_idem(s: Seq<char>)
    ensures
        strip_ws(strip_ws(s)) == strip_ws(s),
    decreases s.len(),
{
    if s.len() > 0 {
        lemma_strip_idem(s.drop_last());
        if !spec_is_ws(s.last()) {
            let r = strip_ws(s.drop_last());
            assert(r.push(s.last()).drop_last() =~= r);
        }
    }
}

proof fn lemma_ws_run(t: Seq<char>, i: int)
    requires
        0 <= i <= t.len(),
    ensures
        forall|m: int| i <= m < ws_end(t, i) ==> spec_is_ws(#[trigger] t[m]),
    decreases t.len() - i,
{
    reveal(ws_end);
    if i < t.len() && spec_is_ws(t[i]) {
        lemma_ws_run(t, i + 1);
    }
}

proof fn lemma_token_run(t: Seq<char>, j: int)
    requires
        0 <= j <= t.len(),
    ensures
        j <= token_end(t, j) <= t.len(),
        forall|m: int| j <= m < token_end(t, j) ==> !spec_is_ws(#[trigger] t[m]),
    decreases t.len() - j,
{
    reveal(token_end);
    if j < t.len() && !spec_is_ws(t[j]) {
        lemma_token_run(t, j + 1);
    }
}

/// The words of `t[i..]` hold exactly its characters that are not whitespace.
proof fn lemma_words_flat(t: Seq<char>, i: int)
    requires
        0 <= i <= t.len(),
    ensures
        flat(words_from(t, i)) == strip_ws(t.subrange(i, t.len() as int)),
    decreases t.len() - i,
{
    reveal(words_from);
    lemma_ws_end(t, i);
    lemma_ws_run(t, i);
    let j = ws_end(t, i);
    let tail = t.subrange(i, t.len() as int);
    if j >= t.len() {
        assert forall|k: int| 0 <= k < tail.len() implies spec_is_ws(#[trigger] tail[k]) by {
            assert(tail[k] == t[i + k]);
        }
        lemma_strip_all_ws(tail);
    } else {
        lemma_token_run(t, j);
        lemma_token_run(t, j + 1);
        reveal(token_end);
        let k = token_end(t, j);
        assert(k == token_end(t, j + 1));
        assert(k > j);
        lemma_words_flat(t, k);
        let gap = t.subrange(i, j);
        let w = t.subrange(j, k);
        let rest = t.subrange(k, t.len() as int);
        assert(tail =~= gap + w + rest);
        assert forall|m: int| 0 <= m < gap.len() implies spec_is_ws(#[trigger] gap[m]) by {
            assert(gap[m] == t[i + m]);
        }
        assert forall|m: int| 0 <= m < w.len() implies !spec_is_ws(#[trigger] w[m]) by {
            assert(w[m] == t[j + m]);
        }
        lemma_strip_all_ws(gap);
        lemma_strip_no_ws(w);
        lemma_strip_add(gap + w, rest);
        lemma_strip_add(gap, w);
        lemma_flat_add(seq![w], words_from(t, k));
        lemma_flat_single(w);
        assert(Seq::<char>::empty() + w =~= w);
    }
}

proof fn lemma_chunk_lines_flat(word: Seq<char>, max: nat)
    ensures
        flat(chunk_lines(word, max).0) + chunk_lines(word, max).1 == word,
    decreases word.len(),
{
    if !(word.len() <= max || max == 0) {
        let rest = word.skip(max as int);
        lemma_chunk_lines_flat(rest, max);
        let (l, c) = chunk_lines(rest, max);
        lemma_flat_add(seq![word.take(max as int)], l);
        lemma_flat_single(word.take(max as int));
        assert(word.take(max as int) + flat(l) + c =~= word.take(max as int) + (flat(l) + c));
        assert(word.take(max as int) + rest =~= word);
    } else {
        assert(flat(Seq::<Seq<char>>::empty()) + word =~= word);
    }
}

proof fn lemma_fold_step_fresh(fl: Seq<char>, l2: Seq<Seq<char>>, c2: Seq<char>, lines: Seq<
    Seq<char>,
>, w: Seq<char>)
    requires
        fl == flat(lines),
        flat(l2) + c2 == w,
    ensures
        strip_ws(flat(lines + l2) + c2) == strip_ws(fl) + strip_ws(w),
{
    lemma_flat_add(lines, l2);
    assert(fl + flat(l2) + c2 =~= fl + (flat(l2) + c2));
    lemma_strip_add(fl, w);
}

proof fn lemma_fold_step_join(fl: Seq<char>, cur: Seq<char>, w: Seq<char>)
    ensures
        strip_ws(fl + (cur + seq![' '] + w)) == strip_ws(fl + cur) + strip_ws(w),
{
    let sp = seq![' '];
    assert(fl + (cur + sp + w) =~= (fl + cur) + sp + w);
    lemma_strip_add((fl + cur) + sp, w);
    lemma_strip_add(fl + cur, sp);
    assert(sp.drop_last() =~= Seq::<char>::empty());
    assert(strip_ws(sp.drop_last()) == Seq::<char>::empty());
    assert(sp.last() == ' ');
    assert((' ' as u32) == 0x20);
    assert(spec_is_ws(sp.last()));
    assert(strip_ws(sp) == Seq::<char>::empty());
    assert(strip_ws(fl + cur) + Seq::<char>::empty() =~= strip_ws(fl + cur));
}

proof fn lemma_fold_step_break(
    lines: Seq<Seq<char>>,
    cur: Seq<char>,
    l2: Seq<Seq<char>>,
    c2: Seq<char>,
    w: Seq<char>,
)
    requires
        flat(l2) + c2 == w,
    ensures
        strip_ws(flat(lines.push(cur) + l2) + c2) == strip_ws(flat(lines) + cur) + strip_ws(w),
{
    lemma_flat_add(lines.push(cur), l2);
    assert(lines.push(cur).drop_last() =~= lines);
    assert(lines.push(cur).last() == cur);
    assert(flat(lines) + cur + flat(l2) + c2 =~= (flat(lines) + cur) + (flat(l2) + c2));
    lemma_strip_add(flat(lines) + cur, w);
}

proof fn lemma_wrap_fold_flat(ws: Seq<Seq<char>>, max: nat)
    ensures
        strip_ws(flat(wrap_fold(ws, max).0) + wrap_fold(ws, max).1) == strip_ws(flat(ws)),
    decreases ws.len(),
{
    if ws.len() > 0 {
        let d = ws.drop_last();
        lemma_wrap_fold_flat(d, max);
        let (lines, cur) = wrap_fold(d, max);
        let w = ws.last();
        lemma_chunk_lines_flat(w, max);
        let (l2, c2) = chunk_lines(w, max);
        let fl = flat(lines);
        lemma_strip_add(flat(d), w);
        assert(flat(ws) == flat(d) + w);
        if cur.len() == 0 {
            lemma_fold_step_fresh(fl, l2, c2, lines, w);
            assert(fl + cur =~= fl);
        } else if cur.len() + 1 + w.len() <= max {
            lemma_fold_step_join(fl, cur, w);
        } else {
            lemma_fold_step_break(lines, cur, l2, c2, w);
        }
    }
}

/// No text is lost or made up by wrapping: the lines hold, in order, exactly the
/// characters of `text` that are not whitespace (and nothing else but separating spaces).
pub proof fn law_wrap_lines_keep_text(text: Seq<char>, max: nat)
    ensures
        strip_ws(flat(spec_wrap_lines(text, max))) == strip_ws(text),
{
    let ws = words_from(text, 0);
    lemma_wrap_fold_flat(ws, max);
    lemma_words_flat(text, 0);
    assert(text.subrange(0, text.len() as int) =~= text);
    lemma_strip_idem(text);
    let (lines, cur) = wrap_fold(ws, max);
    if cur.len() > 0 {
        assert(lines.push(cur).drop_last() =~= lines);
    } else {
        assert(flat(lines) + cur =~= flat(lines));
    }
}

} // verus!
