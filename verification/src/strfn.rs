//! The string functions of the expression library: `upper`, `lower`, `trim`, `contains`.

use vstd::prelude::*;

use crate::text::{chars_of, push_char, spec_trim, starts_at, string_range, trim_range};

verus! {

/// `char::to_ascii_uppercase`: `a`-`z` become `A`-`Z`, everything else is kept.
pub open spec fn upper_char(c: char) -> char {
    if 'a' <= c <= 'z' {
        ((c as u32) - 32) as char
    } else {
        c
    }
}

/// `char::to_ascii_lowercase`: `A`-`Z` become `a`-`z`, everything else is kept.
pub open spec fn lower_char(c: char) -> char {
    if 'A' <= c <= 'Z' {
        ((c as u32) + 32) as char
    } else {
        c
    }
}

pub open spec fn spec_upper(s: Seq<char>) -> Seq<char> {
    s.map_values(|c: char| upper_char(c))
}

pub open spec fn spec_lower(s: Seq<char>) -> Seq<char> {
    s.map_values(|c: char| lower_char(c))
}

/// `upper(s)`: ASCII letters upper-cased.
pub fn ascii_upper(s: &str) -> (r: String)
    ensures
        r@ == spec_upper(s@),
{
    let v = chars_of(s);
    let mut r = String::new();
    let mut i: usize = 0;
    while i < v.len()
        invariant
            i <= v.len(),
            v@ == s@,
            r@ == spec_upper(v@.take(i as int)),
        decreases v.len() - i,
    {
        let c = v[i];
        let u = if 'a' <= c && c <= 'z' {
            ((c as u8) - 32) as char
        } else {
            c
        };
        push_char(&mut r, u);
        assert(spec_upper(v@.take(i + 1)) =~= spec_upper(v@.take(i as int)).push(upper_char(c)));
        i += 1;
    }
    assert(v@.take(v.len() as int) =~= v@);
    r
}

/// `lower(s)`: ASCII letters lower-cased.
pub fn ascii_lower(s: &str) -> (r: String)
    ensures
        r@ == spec_lower(s@),
{
    let v = chars_of(s);
    let mut r = String::new();
    let mut i: usize = 0;
    while i < v.len()
        invariant
            i <= v.len(),
            v@ == s@,
            r@ == spec_lower(v@.take(i as int)),
        decreases v.len() - i,
    {
        let c = v[i];
        let u = if 'A' <= c && c <= 'Z' {
            ((c as u8) + 32) as char
        } else {
            c
        };
        push_char(&mut r, u);
        assert(spec_lower(v@.take(i + 1)) =~= spec_lower(v@.take(i as int)).push(lower_char(c)));
        i += 1;
    }
    assert(v@.take(v.len() as int) =~= v@);
    r
}

/// `trim(s)`: leading and trailing whitespace removed.
pub fn trim_text(s: &str) -> (r: String)
    ensures
        r@ == spec_trim(s@),
{
    let v = chars_of(s);
    let (a, b) = trim_range(v.as_slice(), 0, v.len());
    assert(v@.subrange(0, v.len() as int) =~= v@);
    string_range(v.as_slice(), a, b)
}

/// Whether `needle` occurs in `hay`, ASCII case ignored (`contains(hay, needle)`).
pub open spec fn spec_contains_ci(hay: Seq<char>, needle: Seq<char>) -> bool {
    exists|i: int| 0 <= i <= hay.len() && #[trigger] starts_at(spec_lower(hay), i, spec_lower(needle))
}

/// Whether `needle` occurs in `hay` once both are lower-cased.
pub fn contains_ci(hay: &str, needle: &str) -> (r: bool)
    ensures
        r == spec_contains_ci(hay@, needle@),
{
    let h = chars_of(ascii_lower(hay).as_str());
    let n = chars_of(ascii_lower(needle).as_str());
    if n.len() == 0 {
        assert(starts_at(spec_lower(hay@), 0, spec_lower(needle@))) by {
            assert(spec_lower(hay@).subrange(0, 0) =~= spec_lower(needle@));
        }
        return true;
    }
    if n.len() > h.len() {
        assert forall|i: int| 0 <= i <= hay@.len() implies !#[trigger] starts_at(
            spec_lower(hay@),
            i,
            spec_lower(needle@),
        ) by {}
        return false;
    }
    let mut i: usize = 0;
    while i <= h.len() - n.len()
        invariant
            0 < n.len() <= h.len(),
            i <= h.len() - n.len() + 1,
            h@ == spec_lower(hay@),
            n@ == spec_lower(needle@),
            forall|j: int| 0 <= j < i ==> !#[trigger] starts_at(h@, j, n@),
        decreases h.len() - n.len() + 1 - i,
    {
        if crate::text::starts_with_at(h.as_slice(), i, n.as_slice()) {
            return true;
        }
        i += 1;
    }
    assert forall|j: int| 0 <= j <= hay@.len() implies !#[trigger] starts_at(
        spec_lower(hay@),
        j,
        spec_lower(needle@),
    ) by {
        if j < i {
        }
    }
    false
}

} // verus!
