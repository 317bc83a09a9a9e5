//! Character classes, UTF-8 byte accounting and string building over `char` sequences.

use vstd::prelude::*;

verus! {

/// Width in bytes of the UTF-8 encoding of `c`.
pub open spec fn spec_utf8_width(c: char) -> nat {
    if (c as u32) < 0x80 {
        1
    } else if (c as u32) < 0x800 {
        2
    } else if (c as u32) < 0x10000 {
        3
    } else {
        4
    }
}

/// Width in bytes of the UTF-8 encoding of `c` (what `char::len_utf8` documents).
pub fn utf8_width(c: char) -> (w: usize)
    ensures
        w == spec_utf8_width(c),
        1 <= w <= 4,
{
    let n = c as u32;
    if n < 0x80 {
        1
    } else if n < 0x800 {
        2
    } else if n < 0x10000 {
        3
    } else {
        4
    }
}

/// Total UTF-8 byte length of a character sequence.
pub open spec fn utf8_len(s: Seq<char>) -> nat
    decreases s.len(),
{
    if s.len() == 0 {
        0
    } else {
        utf8_len(s.drop_last()) + spec_utf8_width(s.last())
    }
}

/// Byte offset of character index `k` in `s`.
pub open spec fn byte_offset(s: Seq<char>, k: int) -> nat {
    utf8_len(s.take(k))
}

pub proof fn lemma_utf8_len_step(s: Seq<char>, k: int)
    requires
        0 <= k < s.len(),
    ensures
        utf8_len(s.take(k + 1)) == utf8_len(s.take(k)) + spec_utf8_width(s[k]),
{
    assert(s.take(k + 1).drop_last() =~= s.take(k));
}

pub proof fn lemma_utf8_len_mono(s: Seq<char>, j: int, k: int)
    requires
        0 <= j <= k <= s.len(),
    ensures
        utf8_len(s.take(j)) + (k - j) <= utf8_len(s.take(k)),
        utf8_len(s.take(k)) <= utf8_len(s.take(j)) + 4 * (k - j),
    decreases k - j,
{
    if j < k {
        lemma_utf8_len_mono(s, j, k - 1);
        lemma_utf8_len_step(s, k - 1);
    }
}

pub proof fn lemma_utf8_len_full(s: Seq<char>)
    ensures
        s.take(s.len() as int) == s,
        s.len() <= utf8_len(s),
{
    assert(s.take(s.len() as int) =~= s);
    lemma_utf8_len_mono(s, 0, s.len() as int);
    assert(s.take(0) =~= Seq::<char>::empty());
}

pub proof fn lemma_utf8_len_concat(a: Seq<char>, b: Seq<char>)
    ensures
        utf8_len(a + b) == utf8_len(a) + utf8_len(b),
    decreases b.len(),
{
    if b.len() == 0 {
        assert(a + b =~= a);
    } else {
        assert((a + b).drop_last() =~= a + b.drop_last());
        lemma_utf8_len_concat(a, b.drop_last());
    }
}

/// Splitting a sequence splits its byte length.
pub proof fn lemma_utf8_len_split(x: Seq<char>, n: int)
    requires
        0 <= n <= x.len(),
    ensures
        utf8_len(x) == utf8_len(x.take(n)) + utf8_len(x.skip(n)),
{
    assert(x =~= x.take(n) + x.skip(n));
    lemma_utf8_len_concat(x.take(n), x.skip(n));
}

/// The byte length of `x[a..b]` is the distance between the byte offsets of `a` and `b`.
pub proof fn lemma_utf8_len_subrange(x: Seq<char>, a: int, b: int)
    requires
        0 <= a <= b <= x.len(),
    ensures
        byte_offset(x, a) + utf8_len(x.subrange(a, b)) == byte_offset(x, b),
        byte_offset(x, b) <= utf8_len(x),
        utf8_len(x.subrange(a, b)) <= utf8_len(x),
{
    assert(x.take(b) =~= x.take(a) + x.subrange(a, b));
    lemma_utf8_len_concat(x.take(a), x.subrange(a, b));
    lemma_utf8_len_split(x, b);
}

/// A one-character sequence is as long as the character's encoding.
pub proof fn lemma_utf8_len_single(c: char)
    ensures
        utf8_len(seq![c]) == spec_utf8_width(c),
{
    let x = seq![c];
    assert(x.drop_last() =~= Seq::<char>::empty());
    assert(utf8_len(x.drop_last()) == 0);
    assert(x.last() == c);
}

/// Byte offsets of every character boundary: `offs[k]` is the byte offset of character `k`.
pub fn byte_offsets(s: &Vec<char>) -> (offs: Vec<usize>)
    requires
        utf8_len(s@) <= usize::MAX,
    ensures
        offs.len() == s.len() + 1,
        forall|k: int| 0 <= k <= s.len() ==> #[trigger] offs@[k] == byte_offset(s@, k),
{
    let mut offs: Vec<usize> = Vec::new();
    offs.push(0);
    assert(s@.take(0) =~= Seq::<char>::empty());
    let mut acc: usize = 0;
    let mut i: usize = 0;
    while i < s.len()
        invariant
            i <= s.len(),
            utf8_len(s@) <= usize::MAX,
            offs.len() == i + 1,
            acc == byte_offset(s@, i as int),
            forall|k: int| 0 <= k <= i ==> #[trigger] offs@[k] == byte_offset(s@, k),
        decreases s.len() - i,
    {
        proof {
            lemma_utf8_len_step(s@, i as int);
            lemma_utf8_len_mono(s@, i + 1, s.len() as int);
            lemma_utf8_len_full(s@);
        }
        acc = acc + utf8_width(s[i]);
        offs.push(acc);
        i += 1;
    }
    offs
}

/// `char::is_whitespace`: the Unicode `White_Space` property.
pub open spec fn spec_is_ws(c: char) -> bool {
    let n = c as u32;
    (0x9 <= n <= 0xD) || n == 0x20 || n == 0x85 || n == 0xA0 || n == 0x1680 || (0x2000 <= n
        <= 0x200A) || n == 0x2028 || n == 0x2029 || n == 0x202F || n == 0x205F || n == 0x3000
}

pub fn is_ws(c: char) -> (r: bool)
    ensures
        r == spec_is_ws(c),
{
    let n = c as u32;
    (0x9 <= n && n <= 0xD) || n == 0x20 || n == 0x85 || n == 0xA0 || n == 0x1680 || (0x2000 <= n
        && n <= 0x200A) || n == 0x2028 || n == 0x2029 || n == 0x202F || n == 0x205F || n == 0x3000
}

pub open spec fn spec_is_digit(c: char) -> bool {
    '0' <= c <= '9'
}

pub open spec fn spec_is_alpha(c: char) -> bool {
    ('a' <= c <= 'z') || ('A' <= c <= 'Z')
}

pub open spec fn spec_is_alnum(c: char) -> bool {
    spec_is_digit(c) || spec_is_alpha(c)
}

pub fn is_digit(c: char) -> (r: bool)
    ensures
        r == spec_is_digit(c),
{
    '0' <= c && c <= '9'
}

pub fn is_alpha(c: char) -> (r: bool)
    ensures
        r == spec_is_alpha(c),
{
    ('a' <= c && c <= 'z') || ('A' <= c && c <= 'Z')
}

pub fn is_alnum(c: char) -> (r: bool)
    ensures
        r == spec_is_alnum(c),
{
    is_digit(c) || is_alpha(c)
}

/// The characters of `s`.
pub fn chars_of(s: &str) -> (v: Vec<char>)
    ensures
        v@ == s@,
{
    let mut v: Vec<char> = Vec::new();
    for c in it: s.chars()
        invariant
            v@ == it.seq().take(it.index() as int),
    {
        v.push(c);
    }
    v
}

/// Appends one character to a string.
/// Trusted: `String::push` appends `c` at the end, as its documentation states.
#[verifier::external_body]
pub fn push_char(s: &mut String, c: char)
    ensures
        final(s)@ == old(s)@.push(c),
{
    s.push(c);
}

/// Appends all characters of `v[from..to]` to `s`.
pub fn push_chars(s: &mut String, v: &[char], from: usize, to: usize)
    requires
        from <= to <= v.len(),
    ensures
        final(s)@ == old(s)@ + v@.subrange(from as int, to as int),
{
    let ghost s0 = s@;
    let mut i = from;
    while i < to
        invariant
            from <= i <= to <= v.len(),
            s@ == s0 + v@.subrange(from as int, i as int),
        decreases to - i,
    {
        push_char(s, v[i]);
        assert(v@.subrange(from as int, i + 1) =~= v@.subrange(from as int, i as int).push(
            v@[i as int],
        ));
        i += 1;
    }
}

/// A vector holding `v[from..to]`.
pub fn sub_vec(v: &[char], from: usize, to: usize) -> (r: Vec<char>)
    requires
        from <= to <= v.len(),
    ensures
        r@ == v@.subrange(from as int, to as int),
{
    let mut r: Vec<char> = Vec::new();
    let mut i = from;
    while i < to
        invariant
            from <= i <= to <= v.len(),
            r@ == v@.subrange(from as int, i as int),
        decreases to - i,
    {
        r.push(v[i]);
        assert(v@.subrange(from as int, i + 1) =~= v@.subrange(from as int, i as int).push(
            v@[i as int],
        ));
        i += 1;
    }
    r
}

/// Appends all of `v` to `out`.
pub fn append_chars(out: &mut Vec<char>, v: &[char])
    ensures
        final(out)@ == old(out)@ + v@,
{
    let ghost o0 = out@;
    let mut i: usize = 0;
    while i < v.len()
        invariant
            i <= v.len(),
            out@ == o0 + v@.subrange(0, i as int),
        decreases v.len() - i,
    {
        out.push(v[i]);
        assert(v@.subrange(0, i + 1) =~= v@.subrange(0, i as int).push(v@[i as int]));
        i += 1;
    }
    assert(v@.subrange(0, v@.len() as int) =~= v@);
}

/// A string holding `v[from..to]`.
pub fn string_range(v: &[char], from: usize, to: usize) -> (s: String)
    requires
        from <= to <= v.len(),
    ensures
        s@ == v@.subrange(from as int, to as int),
{
    let mut s = String::new();
    push_chars(&mut s, v, from, to);
    assert(Seq::<char>::empty() + v@.subrange(from as int, to as int) =~= v@.subrange(
        from as int,
        to as int,
    ));
    s
}

/// A string holding all of `v`.
pub fn string_of(v: &[char]) -> (s: String)
    ensures
        s@ == v@,
{
    let s = string_range(v, 0, v.len());
    assert(v@.subrange(0, v@.len() as int) =~= v@);
    s
}

/// A copy of `s` with the same characters.
pub fn copy_string(s: &String) -> (r: String)
    ensures
        r@ == s@,
{
    let v = chars_of(s.as_str());
    string_of(&v)
}

/// A string built from a literal.
pub fn lit(s: &str) -> (r: String)
    ensures
        r@ == s@,
{
    let v = chars_of(s);
    string_of(&v)
}

/// Appends a string slice.
pub fn push_str(s: &mut String, t: &str)
    ensures
        final(s)@ == old(s)@ + t@,
{
    let v = chars_of(t);
    push_chars(s, &v, 0, v.len());
    assert(v@.subrange(0, v@.len() as int) =~= v@);
}

/// Character-sequence equality.
pub fn chars_eq(a: &[char], b: &[char]) -> (r: bool)
    ensures
        r == (a@ == b@),
{
    if a.len() != b.len() {
        return false;
    }
    let mut i: usize = 0;
    while i < a.len()
        invariant
            a.len() == b.len(),
            i <= a.len(),
            forall|k: int| 0 <= k < i ==> a@[k] == b@[k],
        decreases a.len() - i,
    {
        if a[i] != b[i] {
            return false;
        }
        i += 1;
    }
    assert(a@ =~= b@);
    true
}

/// String-slice equality (by characters).
pub fn str_eq(a: &str, b: &str) -> (r: bool)
    ensures
        r == (a@ == b@),
{
    let x = chars_of(a);
    let y = chars_of(b);
    chars_eq(&x, &y)
}

/// Whether `s` at character `i` starts with `pat`.
pub open spec fn starts_at(s: Seq<char>, i: int, pat: Seq<char>) -> bool {
    0 <= i && i + pat.len() <= s.len() && s.subrange(i, i + pat.len()) == pat
}

pub fn starts_with_at(s: &[char], i: usize, pat: &[char]) -> (r: bool)
    ensures
        r == starts_at(s@, i as int, pat@),
{
    if i > s.len() || pat.len() > s.len() - i {
        return false;
    }
    let mut k: usize = 0;
    while k < pat.len()
        invariant
            i + pat.len() <= s.len(),
            k <= pat.len(),
            forall|j: int| 0 <= j < k ==> s@[i + j] == pat@[j],
        decreases pat.len() - k,
    {
        if s[i + k] != pat[k] {
            assert(s@.subrange(i as int, i + pat.len())[k as int] != pat@[k as int]);
            return false;
        }
        k += 1;
    }
    assert(s@.subrange(i as int, i + pat.len()) =~= pat@);
    true
}

/// Decimal digits of a natural number.
pub open spec fn dec_chars(n: nat) -> Seq<char>
    decreases n,
{
    if n < 10 {
        seq![digit_char(n)]
    } else {
        dec_chars(n / 10).push(digit_char(n % 10))
    }
}

pub open spec fn digit_char(d: nat) -> char {
    if d == 0 {
        '0'
    } else if d == 1 {
        '1'
    } else if d == 2 {
        '2'
    } else if d == 3 {
        '3'
    } else if d == 4 {
        '4'
    } else if d == 5 {
        '5'
    } else if d == 6 {
        '6'
    } else if d == 7 {
        '7'
    } else if d == 8 {
        '8'
    } else {
        '9'
    }
}

fn digit(d: usize) -> (c: char)
    requires
        d < 10,
    ensures
        c == digit_char(d as nat),
{
    if d == 0 {
        '0'
    } else if d == 1 {
        '1'
    } else if d == 2 {
        '2'
    } else if d == 3 {
        '3'
    } else if d == 4 {
        '4'
    } else if d == 5 {
        '5'
    } else if d == 6 {
        '6'
    } else if d == 7 {
        '7'
    } else if d == 8 {
        '8'
    } else {
        '9'
    }
}

/// Appends the decimal rendering of `n`.
pub fn push_decimal(s: &mut String, n: usize)
    ensures
        final(s)@ == old(s)@ + dec_chars(n as nat),
    decreases n,
{
    if n < 10 {
        push_char(s, digit(n));
        assert(old(s)@.push(digit_char(n as nat)) =~= old(s)@ + seq![digit_char(n as nat)]);
    } else {
        push_decimal(s, n / 10);
        push_char(s, digit(n % 10));
        assert(old(s)@ + dec_chars((n / 10) as nat) + seq![digit_char((n % 10) as nat)] =~= old(
            s,
        )@ + dec_chars((n / 10) as nat).push(digit_char((n % 10) as nat)));
    }
}

/// Whitespace at both ends removed (`str::trim`).
pub open spec fn trim_start_len(s: Seq<char>) -> nat
    decreases s.len(),
{
    if s.len() > 0 && spec_is_ws(s[0]) {
        1 + trim_start_len(s.drop_first())
    } else {
        0
    }
}

pub open spec fn trim_end_len(s: Seq<char>) -> nat
    decreases s.len(),
{
    if s.len() > 0 && spec_is_ws(s.last()) {
        1 + trim_end_len(s.drop_last())
    } else {
        0
    }
}

/// `str::trim`: leading and trailing whitespace removed.
pub open spec fn spec_trim(s: Seq<char>) -> Seq<char> {
    let a = s.skip(trim_start_len(s) as int);
    a.take(a.len() - trim_end_len(a))
}

pub proof fn lemma_trim_start_bound(s: Seq<char>)
    ensures
        trim_start_len(s) <= s.len(),
        forall|k: int| 0 <= k < trim_start_len(s) ==> spec_is_ws(#[trigger] s[k]),
        trim_start_len(s) < s.len() ==> !spec_is_ws(s[trim_start_len(s) as int]),
    decreases s.len(),
{
    if s.len() > 0 && spec_is_ws(s[0]) {
        lemma_trim_start_bound(s.drop_first());
        assert forall|k: int| 0 <= k < trim_start_len(s) implies spec_is_ws(#[trigger] s[k]) by {
            if k > 0 {
                assert(s[k] == s.drop_first()[k - 1]);
            }
        }
    }
}

pub proof fn lemma_trim_end_bound(s: Seq<char>)
    ensures
        trim_end_len(s) <= s.len(),
        forall|k: int|
            s.len() - trim_end_len(s) <= k < s.len() ==> spec_is_ws(#[trigger] s[k]),
        trim_end_len(s) < s.len() ==> !spec_is_ws(s[s.len() - trim_end_len(s) - 1]),
    decreases s.len(),
{
    if s.len() > 0 && spec_is_ws(s.last()) {
        lemma_trim_end_bound(s.drop_last());
        assert forall|k: int| s.len() - trim_end_len(s) <= k < s.len() implies spec_is_ws(
            #[trigger] s[k],
        ) by {
            if k < s.len() - 1 {
                assert(s[k] == s.drop_last()[k]);
            }
        }
    }
}

/// Start of the trimmed range in `s[from..to]`.
pub fn trim_start_from(s: &[char], from: usize, to: usize) -> (r: usize)
    requires
        from <= to <= s.len(),
    ensures
        from <= r <= to,
        r - from == trim_start_len(s@.subrange(from as int, to as int)),
{
    let mut i = from;
    while i < to && is_ws(s[i])
        invariant
            from <= i <= to <= s.len(),
            trim_start_len(s@.subrange(from as int, to as int)) == (i - from)
                + trim_start_len(s@.subrange(i as int, to as int)),
        decreases to - i,
    {
        assert(s@.subrange(i as int, to as int).drop_first() =~= s@.subrange(i + 1, to as int));
        i += 1;
    }
    i
}

/// End of the trimmed range in `s[from..to]`.
pub fn trim_end_from(s: &[char], from: usize, to: usize) -> (r: usize)
    requires
        from <= to <= s.len(),
    ensures
        from <= r <= to,
        to - r == trim_end_len(s@.subrange(from as int, to as int)),
{
    let mut j = to;
    while j > from && is_ws(s[j - 1])
        invariant
            from <= j <= to <= s.len(),
            trim_end_len(s@.subrange(from as int, to as int)) == (to - j) + trim_end_len(
                s@.subrange(from as int, j as int),
            ),
        decreases j - from,
    {
        assert(s@.subrange(from as int, j as int).drop_last() =~= s@.subrange(
            from as int,
            j - 1,
        ));
        j -= 1;
    }
    j
}

/// The trimmed range `(a, b)` of `s[from..to]`.
pub fn trim_range(s: &[char], from: usize, to: usize) -> (r: (usize, usize))
    requires
        from <= to <= s.len(),
    ensures
        from <= r.0 <= r.1 <= to,
        s@.subrange(r.0 as int, r.1 as int) == spec_trim(s@.subrange(from as int, to as int)),
{
    let a = trim_start_from(s, from, to);
    let b = trim_end_from(s, a, to);
    let ghost t = s@.subrange(from as int, to as int);
    proof {
        lemma_trim_start_bound(t);
        assert(t.skip(trim_start_len(t) as int) =~= s@.subrange(a as int, to as int));
        assert(s@.subrange(a as int, to as int).take((b - a) as int) =~= s@.subrange(
            a as int,
            b as int,
        ));
    }
    (a, b)
}

} // verus!
