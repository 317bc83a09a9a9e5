//! Integer formatting for display helpers: thousands grouping.

use vstd::prelude::*;

use crate::text::{dec_chars, digit_char, push_char};

verus! {

/// Digits grouped in threes from the right, groups separated by `,`.
pub open spec fn group3(d: Seq<char>) -> Seq<char>
    decreases d.len(),
{
    if d.len() <= 3 {
        d
    } else {
        group3(d.take(d.len() - 3)) + seq![','] + d.skip(d.len() - 3)
    }
}

/// `-` for negative numbers, then the grouped decimal digits of the magnitude.
pub open spec fn spec_group_thousands(n: int) -> Seq<char> {
    let sign = if n < 0 {
        seq!['-']
    } else {
        Seq::empty()
    };
    let m: nat = if n < 0 {
        (-n) as nat
    } else {
        n as nat
    };
    sign + group3(dec_chars(m))
}

fn digit64(d: u64) -> (c: char)
    requires
        d < 10,
    ensures
        c == digit_char(d as nat),
{
    if d == 0 {
        '0'
    } else if d == 1 {
        '1'
    } else if d == 2 {
        '2'
    } else if d == 3 {
        '3'
    } else if d == 4 {
        '4'
    } else if d == 5 {
        '5'
    } else if d == 6 {
        '6'
    } else if d == 7 {
        '7'
    } else if d == 8 {
        '8'
    } else {
        '9'
    }
}

/// The decimal digits of `n`.
fn decimal_digits(n: u64) -> (r: Vec<char>)
    ensures
        r@ == dec_chars(n as nat),
    decreases n,
{
    if n < 10 {
        let mut v: Vec<char> = Vec::new();
        v.push(digit64(n));
        assert(v@ =~= seq![digit_char(n as nat)]);
        v
    } else {
        let mut v = decimal_digits(n / 10);
        v.push(digit64(n % 10));
        v
    }
}

proof fn lemma_dec_chars_nonempty(n: nat)
    ensures
        dec_chars(n).len() >= 1,
    decreases n,
{
    if n >= 10 {
        lemma_dec_chars_nonempty(n / 10);
    }
}

/// Integer with `,` between groups of three digits (`-1234567` reads `-1,234,567`).
pub fn group_thousands(n: i64) -> (r: String)
    requires
        n != i64::MIN,
    ensures
        r@ == spec_group_thousands(n as int),
{
    let mut out = String::new();
    if n < 0 {
        push_char(&mut out, '-');
    }
    let m: u64 = if n < 0 {
        (-n) as u64
    } else {
        n as u64
    };
    let d = decimal_digits(m);
    proof {
        lemma_dec_chars_nonempty(m as nat);
    }
    let len = d.len();
    let first: usize = if len % 3 == 0 {
        3
    } else {
        len % 3
    };
    let ghost sign = out@;
    let mut i: usize = 0;
    while i < first
        invariant
            i <= first <= 3,
            first <= len,
            len == d.len(),
            out@ == sign + d@.take(i as int),
        decreases first - i,
    {
        push_char(&mut out, d[i]);
        assert(d@.take(i + 1) =~= d@.take(i as int).push(d@[i as int]));
        i += 1;
    }
    assert(group3(d@.take(first as int)) == d@.take(first as int));
    while i < len
        invariant
            first <= i <= len,
            len == d.len(),
            first >= 1,
            (i - first) % 3 == 0,
            (len - first) % 3 == 0,
            out@ == sign + group3(d@.take(i as int)),
        decreases len - i,
    {
        let ghost o0 = out@;
        push_char(&mut out, ',');
        push_char(&mut out, d[i]);
        push_char(&mut out, d[i + 1]);
        push_char(&mut out, d[i + 2]);
        let ghost t = d@.take(i + 3);
        assert(t.take(t.len() - 3) =~= d@.take(i as int));
        assert(t.skip(t.len() - 3) =~= seq![d@[i as int], d@[i + 1], d@[i + 2]]);
        assert(out@ =~= sign + group3(t));
        i += 3;
    }
    assert(d@.take(len as int) =~= d@);
    out
}

/// Removing the separators from `s`.
pub open spec fn strip_commas(s: Seq<char>) -> Seq<char> {
    s.filter(|c: char| c != ',')
}

proof fn lemma_group3_digits(d: Seq<char>)
    requires
        !d.contains(','),
    ensures
        strip_commas(group3(d)) == d,
    decreases d.len(),
{
    broadcast use vstd::seq_lib::group_filter_ensures;
    if d.len() <= 3 {
        lemma_strip_plain(d);
    } else {
        let a = d.take(d.len() - 3);
        let b = d.skip(d.len() - 3);
        assert forall|c: char| a.contains(c) implies d.contains(c) by {
            let i = choose|i: int| 0 <= i < a.len() && a[i] == c;
            assert(d[i] == c);
        }
        assert forall|c: char| b.contains(c) implies d.contains(c) by {
            let i = choose|i: int| 0 <= i < b.len() && b[i] == c;
            assert(d[d.len() - 3 + i] == c);
        }
        lemma_group3_digits(a);
        lemma_strip_plain(b);
        let f = |c: char| c != ',';
        Seq::<char>::filter_distributes_over_add(group3(a) + seq![','], b, f);
        Seq::<char>::filter_distributes_over_add(group3(a), seq![','], f);
        assert(seq![','].filter(f) =~= Seq::<char>::empty()) by {
            reveal_with_fuel(Seq::<char>::filter, 2);
        }
        assert(a + b =~= d);
    }
}

proof fn lemma_strip_plain(d: Seq<char>)
    requires
        !d.contains(','),
    ensures
        strip_commas(d) == d,
    decreases d.len(),
{
    reveal(Seq::filter);
    if d.len() > 0 {
        assert forall|c: char| d.drop_last().contains(c) implies d.contains(c) by {
            let i = choose|i: int| 0 <= i < d.drop_last().len() && d.drop_last()[i] == c;
            assert(d[i] == c);
        }
        lemma_strip_plain(d.drop_last());
        assert(d.last() != ',');
        assert(d.drop_last().push(d.last()) =~= d);
    }
}

proof fn lemma_dec_chars_digits(n: nat)
    ensures
        !dec_chars(n).contains(','),
    decreases n,
{
    if n >= 10 {
        lemma_dec_chars_digits(n / 10);
        let d = dec_chars(n);
        assert forall|i: int| 0 <= i < d.len() implies d[i] != ',' by {
            if i < d.len() - 1 {
                assert(d[i] == dec_chars(n / 10)[i]);
            }
        }
    } else {
        assert(dec_chars(n)[0] != ',');
    }
}

/// Grouping only inserts separators: without the commas, the text is the sign and the
/// plain decimal digits.
pub proof fn law_grouping_keeps_digits(n: int)
    ensures
        strip_commas(spec_group_thousands(n)) == (if n < 0 {
            seq!['-']
        } else {
            Seq::<char>::empty()
        }) + dec_chars(if n < 0 {
            (-n) as nat
        } else {
            n as nat
        }),
{
    broadcast use vstd::seq_lib::group_filter_ensures;
    let m: nat = if n < 0 {
        (-n) as nat
    } else {
        n as nat
    };
    let sign = if n < 0 {
        seq!['-']
    } else {
        Seq::<char>::empty()
    };
    lemma_dec_chars_digits(m);
    lemma_group3_digits(dec_chars(m));
    let f = |c: char| c != ',';
    Seq::<char>::filter_distributes_over_add(sign, group3(dec_chars(m)), f);
    assert(!sign.contains(','));
    lemma_strip_plain(sign);
}

} // verus!
