//! Texts of a freshly scaffolded app, and `key=value` request parameters of the preview server.

use vstd::prelude::*;

use crate::doc_parse::find_char_from;
use crate::markup::find_char;
use crate::text::{chars_of, push_str, spec_trim, string_range, trim_range, lit};

verus! {

/// The `app.json` of a new app called `name`.
#[verifier::opaque]
pub open spec fn spec_app_json(name: Seq<char>) -> Seq<char> {
    "{\n  \"name\": \""@ + name + "\",\n  \"display_name\": \""@ + name
        + "\",\n  \"version\": \"0.1.0\",\n  \"window\": {\n    \"title\": \""@ + name
        + "\",\n    \"width\": 360,\n    \"height\": 280\n  },\n  \"view\": \"src/app.native\",\n  \"core\": \"src/core.json\"\n}\n"@
}

/// The README of a new app called `name`.
#[verifier::opaque]
pub open spec fn spec_readme(name: Seq<char>) -> Seq<char> {
    "# "@ + name
        + "\n\nA nativum app. Three files of truth: `src/app.native`, `src/core.json`, `app.json`.\n\n```sh\nnativum check\nnativum render --out preview.png\nnativum test\nnativum preview\n```\n"@
}

/// `app.json` for a new app (the name goes in unescaped, as typed).
pub fn app_json(name: &str) -> (r: String)
    ensures
        r@ == spec_app_json(name@),
{
    reveal(spec_app_json);
    let mut s = lit("{\n  \"name\": \"");
    push_str(&mut s, name);
    push_str(&mut s, "\",\n  \"display_name\": \"");
    push_str(&mut s, name);
    push_str(&mut s, "\",\n  \"version\": \"0.1.0\",\n  \"window\": {\n    \"title\": \"");
    push_str(&mut s, name);
    push_str(
        &mut s,
        "\",\n    \"width\": 360,\n    \"height\": 280\n  },\n  \"view\": \"src/app.native\",\n  \"core\": \"src/core.json\"\n}\n",
    );
    s
}

/// README for a new app.
pub fn readme(name: &str) -> (r: String)
    ensures
        r@ == spec_readme(name@),
{
    reveal(spec_readme);
    let mut s = lit("# ");
    push_str(&mut s, name);
    push_str(
        &mut s,
        "\n\nA nativum app. Three files of truth: `src/app.native`, `src/core.json`, `app.json`.\n\n```sh\nnativum check\nnativum render --out preview.png\nnativum test\nnativum preview\n```\n",
    );
    s
}

// ---------------------------------------------------------------------------
// Request parameters.
// ---------------------------------------------------------------------------
pub open spec fn is_pair_sep(c: char) -> bool {
    c == '&' || c == '\n' || c == ' '
}

/// End of the `&`/newline/space separated piece starting at `i`.
#[verifier::opaque]
pub open spec fn piece_end(t: Seq<char>, i: int) -> int
    decreases t.len() - i,
{
    if 0 <= i < t.len() && !is_pair_sep(t[i]) {
        piece_end(t, i + 1)
    } else {
        i
    }
}

/// Number of leading `"` in `s`.
pub open spec fn lead_quotes(s: Seq<char>) -> nat
    decreases s.len(),
{
    if s.len() > 0 && s[0] == '"' {
        1 + lead_quotes(s.drop_first())
    } else {
        0
    }
}

/// Number of trailing `"` in `s`.
pub open spec fn trail_quotes(s: Seq<char>) -> nat
    decreases s.len(),
{
    if s.len() > 0 && s.last() == '"' {
        1 + trail_quotes(s.drop_last())
    } else {
        0
    }
}

/// `str::trim_matches('"')`: every leading and trailing `"` removed.
pub open spec fn trim_quotes(s: Seq<char>) -> Seq<char> {
    let a = s.skip(lead_quotes(s) as int);
    a.take(a.len() - trail_quotes(a))
}

/// The value of piece `p` when it reads `name=value` (both sides trimmed, quotes dropped).
pub open spec fn pair_value(p: Seq<char>, name: Seq<char>) -> Option<Seq<char>> {
    match find_char(p, 0, '=') {
        Some(q) => if spec_trim(p.subrange(0, q)) == name {
            Some(trim_quotes(spec_trim(p.subrange(q + 1, p.len() as int))))
        } else {
            None
        },
        None => None,
    }
}

/// The first `name=value` among the pieces of `t` from position `i`.
#[verifier::opaque]
pub open spec fn params_from(t: Seq<char>, i: int, name: Seq<char>) -> Option<Seq<char>>
    decreases t.len() - i,
{
    if i < 0 || i > t.len() {
        None
    } else {
        let e = piece_end(t, i);
        if !(i <= e <= t.len()) {
            None
        } else {
            match pair_value(t.subrange(i, e), name) {
                Some(v) => Some(v),
                None => if e >= t.len() {
                    None
                } else {
                    params_from(t, e + 1, name)
                },
            }
        }
    }
}

pub open spec fn opt_text(o: Option<String>) -> Option<Seq<char>> {
    match o {
        Some(s) => Some(s@),
        None => None,
    }
}

proof fn lemma_lead_quotes(s: Seq<char>)
    ensures
        lead_quotes(s) <= s.len(),
        lead_quotes(s) < s.len() ==> s[lead_quotes(s) as int] != '"',
        forall|k: int| 0 <= k < lead_quotes(s) ==> #[trigger] s[k] == '"',
    decreases s.len(),
{
    if s.len() > 0 && s[0] == '"' {
        lemma_lead_quotes(s.drop_first());
        assert forall|k: int| 0 <= k < lead_quotes(s) implies #[trigger] s[k] == '"' by {
            if k > 0 {
                assert(s[k] == s.drop_first()[k - 1]);
            }
        }
    }
}

proof fn lemma_trail_quotes(s: Seq<char>)
    ensures
        trail_quotes(s) <= s.len(),
    decreases s.len(),
{
    if s.len() > 0 && s.last() == '"' {
        lemma_trail_quotes(s.drop_last());
    }
}

/// `v[from..to]` with leading and trailing `"` removed.
fn trim_quotes_range(v: &[char], from: usize, to: usize) -> (r: String)
    requires
        from <= to <= v.len(),
    ensures
        r@ == trim_quotes(v@.subrange(from as int, to as int)),
{
    let ghost s = v@.subrange(from as int, to as int);
    let mut a = from;
    while a < to && v[a] == '"'
        invariant
            from <= a <= to <= v.len(),
            lead_quotes(s) == (a - from) + lead_quotes(v@.subrange(a as int, to as int)),
        decreases to - a,
    {
        assert(v@.subrange(a as int, to as int).drop_first() =~= v@.subrange(a + 1, to as int));
        a += 1;
    }
    let mut b = to;
    while b > a && v[b - 1] == '"'
        invariant
            from <= a <= b <= to <= v.len(),
            lead_quotes(s) == a - from,
            trail_quotes(v@.subrange(a as int, to as int)) == (to - b) + trail_quotes(
                v@.subrange(a as int, b as int),
            ),
        decreases b - a,
    {
        assert(v@.subrange(a as int, b as int).drop_last() =~= v@.subrange(a as int, b - 1));
        b -= 1;
    }
    proof {
        let rest = s.skip(lead_quotes(s) as int);
        assert(rest =~= v@.subrange(a as int, to as int));
        assert(rest.take(rest.len() - trail_quotes(rest)) =~= v@.subrange(a as int, b as int));
    }
    string_range(v, a, b)
}

/// The value given to `name` in `hay`, a list of `key=value` pieces separated by `&`,
/// newlines or spaces (keys and values trimmed, surrounding quotes dropped).
pub fn pair_param(hay: &str, name: &str) -> (r: Option<String>)
    ensures
        opt_text(r) == params_from(hay@, 0, name@),
{
    let t = chars_of(hay);
    let key = chars_of(name);
    let mut i: usize = 0;
    loop
        invariant
            i <= t.len(),
            t@ == hay@,
            key@ == name@,
            params_from(hay@, 0, name@) == params_from(t@, i as int, name@),
        decreases t.len() - i,
    {
        reveal(params_from);
        let mut e = i;
        while e < t.len() && !(t[e] == '&' || t[e] == '\n' || t[e] == ' ')
            invariant
                i <= e <= t.len(),
                piece_end(t@, i as int) == piece_end(t@, e as int),
            decreases t.len() - e,
        {
            reveal(piece_end);
            e += 1;
        }
        proof {
            reveal(piece_end);
        }
        let piece = crate::text::sub_vec(t.as_slice(), i, e);
        let ghost p = t@.subrange(i as int, e as int);
        match find_char_from(piece.as_slice(), 0, '=') {
            Some(q) => {
                let (ka, kb) = trim_range(piece.as_slice(), 0, q);
                let k = crate::text::sub_vec(piece.as_slice(), ka, kb);
                if crate::text::chars_eq(k.as_slice(), key.as_slice()) {
                    let (va, vb) = trim_range(piece.as_slice(), q + 1, piece.len());
                    proof {
                        assert(p.subrange(q + 1, p.len() as int) =~= piece@.subrange(
                            q + 1,
                            piece@.len() as int,
                        ));
                    }
                    return Some(trim_quotes_range(piece.as_slice(), va, vb));
                }
            },
            None => {},
        }
        if e >= t.len() {
            return None;
        }
        i = e + 1;
    }
}

} // verus!
