//! Change detection for `preview --watch`: compares the files' modification stamps with the
//! ones seen last.

use vstd::prelude::*;

verus! {

/// Records the stamps just read (`now`, one per watched file; `None` where a file has none)
/// in `last`, and says whether anything changed since the last call: a different number of
/// files, or a stamp that differs.
pub fn record_stamps(last: &mut Vec<Option<u128>>, now: &[Option<u128>]) -> (changed: bool)
    ensures
        final(last)@ == now@,
        changed == (old(last)@ != now@),
{
    let mut changed = false;
    if last.len() != now.len() {
        last.clear();
        let mut k: usize = 0;
        while k < now.len()
            invariant
                k <= now.len(),
                last@.len() == k,
                forall|j: int| 0 <= j < k ==> last@[j] is None,
            decreases now.len() - k,
        {
            last.push(None);
            k += 1;
        }
        changed = true;
    }
    let ghost start = last@;
    let mut i: usize = 0;
    while i < now.len()
        invariant
            i <= now.len(),
            last@.len() == now@.len(),
            start.len() == now@.len(),
            forall|j: int| 0 <= j < i ==> last@[j] == now@[j],
            forall|j: int| i <= j < now@.len() ==> last@[j] == start[j],
            changed == (old(last)@.len() != now@.len() || exists|j: int|
                0 <= j < i && start[j] != now@[j]),
            old(last)@.len() == now@.len() ==> start == old(last)@,
        decreases now.len() - i,
    {
        let differs = match (last[i], now[i]) {
            (Some(a), Some(b)) => a != b,
            (None, None) => false,
            _ => true,
        };
        if differs {
            last.set(i, now[i]);
            changed = true;
        }
        proof {
            assert(differs == (start[i as int] != now@[i as int]));
        }
        i += 1;
    }
    assert(last@ =~= now@);
    proof {
        if old(last)@.len() == now@.len() {
            if old(last)@ != now@ {
                assert(exists|j: int| 0 <= j < now@.len() && old(last)@[j] != now@[j]) by {
                    if forall|j: int| 0 <= j < now@.len() ==> old(last)@[j] == now@[j] {
                        assert(old(last)@ =~= now@);
                    }
                }
            }
        }
    }
    changed
}

} // verus!
