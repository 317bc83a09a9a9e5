//! sRGB colors stored as unpremultiplied RGBA, and `#hex` parsing.

use vstd::prelude::*;

use crate::strfn::{lower_char, spec_lower};
use crate::text::{
    chars_of, lemma_utf8_len_full, lemma_utf8_len_mono, lemma_utf8_len_step, spec_utf8_width,
    utf8_len, utf8_width,
};

verus! {

/// 8-bit per channel color. Alpha is unpremultiplied.
#[derive(Clone, Copy, Debug, PartialEq, Eq, Hash, Structural)]
pub struct Color {
    /// Red.
    pub r: u8,
    /// Green.
    pub g: u8,
    /// Blue.
    pub b: u8,
    /// Alpha.
    pub a: u8,
}

/// Value of a hexadecimal digit, or -1 for any other character.
pub open spec fn hex_digit_value(c: char) -> int {
    if '0' <= c <= '9' {
        c as int - '0' as int
    } else if 'a' <= c <= 'f' {
        c as int - 'a' as int + 10
    } else if 'A' <= c <= 'F' {
        c as int - 'A' as int + 10
    } else {
        -1
    }
}

pub open spec fn all_hex(t: Seq<char>) -> bool {
    forall|k: int| 0 <= k < t.len() ==> hex_digit_value(#[trigger] t[k]) >= 0
}

/// Big-endian base-16 value of a digit string.
pub open spec fn hex_value(t: Seq<char>) -> nat
    decreases t.len(),
{
    if t.len() == 0 {
        0
    } else {
        hex_value(t.drop_last()) * 16 + hex_digit_value(t.last()) as nat
    }
}

/// The value of a nonempty string made only of hexadecimal digits; `None` for any other
/// string (a sign, a space, or any other character).
pub open spec fn hex_number(s: Seq<char>) -> Option<nat> {
    if s.len() > 0 && all_hex(s) {
        Some(hex_value(s))
    } else {
        None
    }
}

/// The text after one optional leading `#`.
pub open spec fn strip_hash(spec: Seq<char>) -> Seq<char> {
    if spec.len() > 0 && spec[0] == '#' {
        spec.drop_first()
    } else {
        spec
    }
}

/// What `Color::parse` returns for the characters `spec`.
pub open spec fn spec_color_parse(spec: Seq<char>) -> Option<Color> {
    let s = strip_hash(spec);
    let len = utf8_len(s);
    if len == 3 {
        match hex_number(s) {
            Some(n) => Some(
                Color {
                    r: (((n / 256) % 16) * 17) as u8,
                    g: (((n / 16) % 16) * 17) as u8,
                    b: ((n % 16) * 17) as u8,
                    a: 255,
                },
            ),
            None => None,
        }
    } else if len == 6 {
        match hex_number(s) {
            Some(n) => Some(
                Color {
                    r: ((n / 65536) % 256) as u8,
                    g: ((n / 256) % 256) as u8,
                    b: (n % 256) as u8,
                    a: 255,
                },
            ),
            None => None,
        }
    } else if len == 8 {
        match hex_number(s) {
            Some(n) => Some(
                Color {
                    r: ((n / 16777216) % 256) as u8,
                    g: ((n / 65536) % 256) as u8,
                    b: ((n / 256) % 256) as u8,
                    a: (n % 256) as u8,
                },
            ),
            None => None,
        }
    } else {
        None
    }
}

pub open spec fn pow16(k: nat) -> nat
    decreases k,
{
    if k == 0 {
        1
    } else {
        16 * pow16((k - 1) as nat)
    }
}

proof fn lemma_hex_value_bound(t: Seq<char>)
    requires
        all_hex(t),
    ensures
        hex_value(t) < pow16(t.len()),
    decreases t.len(),
{
    if t.len() > 0 {
        let u = t.drop_last();
        assert(all_hex(u)) by {
            assert forall|k: int| 0 <= k < u.len() implies hex_digit_value(#[trigger] u[k]) >= 0 by {
                assert(u[k] == t[k]);
            }
        }
        lemma_hex_value_bound(u);
        assert(hex_digit_value(t[t.len() - 1]) >= 0);
        assert(hex_digit_value(t.last()) < 16);
    }
}

fn hex_digit(c: char) -> (r: i32)
    ensures
        r == hex_digit_value(c),
{
    if '0' <= c && c <= '9' {
        (c as u32 - '0' as u32) as i32
    } else if 'a' <= c && c <= 'f' {
        (c as u32 - 'a' as u32 + 10) as i32
    } else if 'A' <= c && c <= 'F' {
        (c as u32 - 'A' as u32 + 10) as i32
    } else {
        -1
    }
}

/// The value of the hexadecimal digits `v[from..to]` (at most eight of them), or `None` when
/// the range is empty or holds any other character.
fn parse_radix16(v: &[char], from: usize, to: usize) -> (r: Option<u32>)
    requires
        from <= to <= v.len(),
        to - from <= 8,
    ensures
        match hex_number(v@.subrange(from as int, to as int)) {
            Some(n) => r == Some(n as u32) && n <= u32::MAX,
            None => r is None,
        },
{
    proof {
        lemma_pow16_8();
        lemma_pow16_mono((to - from) as nat, 8);
    }
    if from == to {
        return None;
    }
    let ghost t = v@.subrange(from as int, to as int);
    let mut i = from;
    let mut n: u64 = 0;
    assert(v@.subrange(from as int, from as int) =~= Seq::<char>::empty());
    while i < to
        invariant
            from <= i <= to <= v.len(),
            to - from <= 8,
            t == v@.subrange(from as int, to as int),
            all_hex(v@.subrange(from as int, i as int)),
            n == hex_value(v@.subrange(from as int, i as int)),
            n < pow16((i - from) as nat),
            pow16((to - from) as nat) <= 4294967296,
        decreases to - i,
    {
        let d = hex_digit(v[i]);
        if d < 0 {
            proof {
                assert(t[i - from] == v@[i as int]);
            }
            return None;
        }
        proof {
            let p = v@.subrange(from as int, i + 1);
            assert(p.drop_last() =~= v@.subrange(from as int, i as int));
            assert forall|k: int| 0 <= k < p.len() implies hex_digit_value(#[trigger] p[k]) >= 0 by {
                if k < p.len() - 1 {
                    assert(p[k] == v@.subrange(from as int, i as int)[k]);
                }
            }
            lemma_pow16_mono((i + 1 - from) as nat, (to - from) as nat);
        }
        n = n * 16 + d as u64;
        i += 1;
    }
    proof {
        assert(v@.subrange(from as int, i as int) == t);
        lemma_hex_value_bound(t);
    }
    Some(n as u32)
}

proof fn lemma_pow16_mono(a: nat, b: nat)
    requires
        a <= b,
    ensures
        pow16(a) <= pow16(b),
    decreases b - a,
{
    if a < b {
        lemma_pow16_mono(a, (b - 1) as nat);
    }
}

proof fn lemma_pow16_8()
    ensures
        pow16(8) == 4294967296,
{
    reveal_with_fuel(pow16, 9);
}

/// Byte length of `v[from..]` when it is at most 8, else `None`.
fn small_byte_len(v: &[char], from: usize) -> (r: Option<usize>)
    requires
        from <= v.len(),
    ensures
        match r {
            Some(n) => n == utf8_len(v@.subrange(from as int, v.len() as int)) && n <= 8,
            None => utf8_len(v@.subrange(from as int, v.len() as int)) > 8,
        },
{
    let ghost s = v@.subrange(from as int, v.len() as int);
    let mut acc: usize = 0;
    let mut i = from;
    assert(s.take(0) =~= Seq::<char>::empty());
    while i < v.len()
        invariant
            from <= i <= v.len(),
            s == v@.subrange(from as int, v.len() as int),
            acc == utf8_len(s.take(i - from)),
            acc <= 8,
        decreases v.len() - i,
    {
        proof {
            lemma_utf8_len_step(s, i - from);
        }
        acc = acc + utf8_width(v[i]);
        if acc > 8 {
            proof {
                lemma_utf8_len_mono(s, i - from + 1, s.len() as int);
                lemma_utf8_len_full(s);
            }
            return None;
        }
        i += 1;
    }
    proof {
        lemma_utf8_len_full(s);
    }
    Some(acc)
}

impl Color {
    /// Fully transparent.
    pub fn transparent() -> (c: Self)
        ensures
            c == (Color { r: 0, g: 0, b: 0, a: 0 }),
    {
        Color { r: 0, g: 0, b: 0, a: 0 }
    }

    /// Opaque constructor.
    pub fn rgb(r: u8, g: u8, b: u8) -> (c: Self)
        ensures
            c == (Color { r, g, b, a: 255 }),
    {
        Color { r, g, b, a: 255 }
    }

    /// Parse `#rgb`, `#rrggbb`, or `#rrggbbaa`. Returns `None` on failure.
    pub fn parse(spec: &str) -> (res: Option<Self>)
        ensures
            res == spec_color_parse(spec@),
    {
        let v = chars_of(spec);
        let from: usize = if v.len() > 0 && v[0] == '#' {
            1
        } else {
            0
        };
        assert(v@.subrange(from as int, v.len() as int) == strip_hash(spec@)) by {
            if from == 1 {
                assert(v@.subrange(1, v.len() as int) =~= v@.drop_first());
            } else {
                assert(v@.subrange(0, v.len() as int) =~= v@);
            }
        }
        proof {
            lemma_utf8_len_full(v@.subrange(from as int, v.len() as int));
        }
        let len = match small_byte_len(&v, from) {
            Some(n) => n,
            None => return None,
        };
        if len == 3 {
            match parse_radix16(&v, from, v.len()) {
                Some(n) => {
                    let r = (((n / 256) % 16) * 17) as u8;
                    let g = (((n / 16) % 16) * 17) as u8;
                    let b = ((n % 16) * 17) as u8;
                    Some(Color::rgb(r, g, b))
                },
                None => None,
            }
        } else if len == 6 {
            match parse_radix16(&v, from, v.len()) {
                Some(n) => Some(
                    Color::rgb(((n / 65536) % 256) as u8, ((n / 256) % 256) as u8, (n % 256) as u8),
                ),
                None => None,
            }
        } else if len == 8 {
            match parse_radix16(&v, from, v.len()) {
                Some(n) => Some(
                    Color {
                        r: ((n / 16777216) % 256) as u8,
                        g: ((n / 65536) % 256) as u8,
                        b: ((n / 256) % 256) as u8,
                        a: (n % 256) as u8,
                    },
                ),
                None => None,
            }
        } else {
            None
        }
    }
}

proof fn lemma_hex_digit_bound(c: char)
    requires
        hex_digit_value(c) >= 0,
    ensures
        hex_digit_value(c) < 16,
        (c as u32) < 0x80,
{
}

/// The short form `#rgb` is the long form with every digit doubled: `#abc` is `#aabbcc`.
pub proof fn law_short_hex_doubles_digits(a: char, b: char, c: char)
    requires
        hex_digit_value(a) >= 0,
        hex_digit_value(b) >= 0,
        hex_digit_value(c) >= 0,
    ensures
        spec_color_parse(seq!['#', a, b, c]) == spec_color_parse(seq!['#', a, a, b, b, c, c]),
        spec_color_parse(seq!['#', a, b, c]) is Some,
{
    lemma_hex_digit_bound(a);
    lemma_hex_digit_bound(b);
    lemma_hex_digit_bound(c);
    let ha = hex_digit_value(a);
    let hb = hex_digit_value(b);
    let hc = hex_digit_value(c);
    let short = seq![a, b, c];
    let long = seq![a, a, b, b, c, c];
    assert(strip_hash(seq!['#', a, b, c]) =~= short);
    assert(strip_hash(seq!['#', a, a, b, b, c, c]) =~= long);
    reveal_with_fuel(utf8_len, 7);
    assert(short.drop_last().drop_last().drop_last() =~= Seq::<char>::empty());
    assert(long.drop_last().drop_last().drop_last().drop_last().drop_last().drop_last()
        =~= Seq::<char>::empty());
    assert(utf8_len(short) == 3);
    assert(utf8_len(long) == 6);
    assert(all_hex(short));
    assert(all_hex(long));
    reveal_with_fuel(hex_value, 7);
    let n3 = hex_value(short);
    let n6 = hex_value(long);
    assert(n3 == (ha * 16 + hb) * 16 + hc);
    assert(n6 == ((((ha * 16 + ha) * 16 + hb) * 16 + hb) * 16 + hc) * 16 + hc);
    assert(hex_number(short) == Some(n3));
    assert(hex_number(long) == Some(n6));
    assert(((n3 / 256) % 16) * 17 == (n6 / 65536) % 256
        && ((n3 / 16) % 16) * 17 == (n6 / 256) % 256
        && (n3 % 16) * 17 == n6 % 256) by (nonlinear_arith)
        requires
            0 <= ha < 16,
            0 <= hb < 16,
            0 <= hc < 16,
            n3 == (ha * 16 + hb) * 16 + hc,
            n6 == ((((ha * 16 + ha) * 16 + hb) * 16 + hb) * 16 + hc) * 16 + hc,
    ;
}

// ---------------------------------------------------------------------------
// Hex digits ignore case.
// ---------------------------------------------------------------------------
proof fn lemma_lower_char(c: char)
    ensures
        hex_digit_value(lower_char(c)) == hex_digit_value(c),
        spec_utf8_width(lower_char(c)) == spec_utf8_width(c),
        (c == '#') == (lower_char(c) == '#'),
{
    if 'A' <= c <= 'Z' {
        let x = (c as u32) + 32;
        vstd::utf8::char_u32_cast(lower_char(c), lower_char(c) as u32);
        assert((x as char) as u32 == x);
    }
}

proof fn lemma_lower_text(t: Seq<char>)
    ensures
        spec_lower(t).len() == t.len(),
        utf8_len(spec_lower(t)) == utf8_len(t),
        all_hex(spec_lower(t)) == all_hex(t),
        hex_value(spec_lower(t)) == hex_value(t),
    decreases t.len(),
{
    let l = spec_lower(t);
    if t.len() > 0 {
        let d = t.drop_last();
        lemma_lower_text(d);
        assert(l.drop_last() =~= spec_lower(d));
        assert(l.last() == lower_char(t.last()));
        lemma_lower_char(t.last());
        assert(all_hex(l) == all_hex(t)) by {
            if all_hex(t) {
                assert forall|k: int| 0 <= k < l.len() implies hex_digit_value(#[trigger] l[k])
                    >= 0 by {
                    lemma_lower_char(t[k]);
                }
            }
            if all_hex(l) {
                assert forall|k: int| 0 <= k < t.len() implies hex_digit_value(#[trigger] t[k])
                    >= 0 by {
                    lemma_lower_char(t[k]);
                    assert(l[k] == lower_char(t[k]));
                }
            }
        }
    } else {
        assert(l =~= t);
    }
}

/// Hex digits ignore case: `A`-`F` read as `a`-`f`, that is 10 to 15, and lower-casing a
/// color never changes what it parses to (`#FF0000` is `#ff0000`).
pub proof fn law_color_parse_ignores_case(s: Seq<char>)
    ensures
        spec_color_parse(s) == spec_color_parse(spec_lower(s)),
        hex_digit_value('A') == 10 && hex_digit_value('F') == 15,
{
    let l = spec_lower(s);
    if s.len() > 0 {
        lemma_lower_char(s[0]);
        assert(l[0] == lower_char(s[0]));
        assert(l.drop_first() =~= spec_lower(s.drop_first()));
    } else {
        assert(l =~= s);
    }
    assert(strip_hash(l) == spec_lower(strip_hash(s)));
    lemma_lower_text(strip_hash(s));
}

} // verus!
