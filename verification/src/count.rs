//! Counting how often a value occurs in a sequence.

use vstd::prelude::*;

verus! {

/// How often `x` occurs in `s`.
pub open spec fn occurrences<A>(s: Seq<A>, x: A) -> nat
    decreases s.len(),
{
    if s.len() == 0 {
        0
    } else {
        occurrences(s.drop_last(), x) + if s.last() == x {
            1nat
        } else {
            0nat
        }
    }
}

/// Appending a value raises its count by one and no other.
pub proof fn lemma_occurrences_push<A>(s: Seq<A>, y: A, x: A)
    ensures
        occurrences(s.push(y), x) == occurrences(s, x) + if y == x {
            1nat
        } else {
            0nat
        },
{
    assert(s.push(y).drop_last() =~= s);
}

/// A value occurs at most as often as the sequence is long.
pub proof fn lemma_occurrences_bound<A>(s: Seq<A>, x: A)
    ensures
        occurrences(s, x) <= s.len(),
    decreases s.len(),
{
    if s.len() > 0 {
        lemma_occurrences_bound(s.drop_last(), x);
    }
}

/// Replacing the value at one position moves one count from the old value
/// to the new one.
pub proof fn lemma_occurrences_update<A>(s: Seq<A>, i: int, y: A, x: A)
    requires
        0 <= i < s.len(),
    ensures
        occurrences(s.update(i, y), x) + (if s[i] == x {
            1nat
        } else {
            0nat
        }) == occurrences(s, x) + if y == x {
            1nat
        } else {
            0nat
        },
    decreases s.len(),
{
    let t = s.update(i, y);
    if i == s.len() - 1 {
        assert(t.drop_last() =~= s.drop_last());
    } else {
        lemma_occurrences_update(s.drop_last(), i, y, x);
        assert(t.drop_last() =~= s.drop_last().update(i, y));
    }
}

/// A sequence in which `x` does not occur counts it zero times, and the
/// other way round.
pub proof fn lemma_occurrences_none<A>(s: Seq<A>, x: A)
    ensures
        occurrences(s, x) == 0 <==> !s.contains(x),
    decreases s.len(),
{
    if s.len() > 0 {
        lemma_occurrences_none(s.drop_last(), x);
        if s.contains(x) {
            let i = choose|i: int| 0 <= i < s.len() && s[i] == x;
            if i < s.len() - 1 {
                assert(s.drop_last()[i] == x);
            }
        }
        if s.drop_last().contains(x) {
            let i = choose|i: int| 0 <= i < s.drop_last().len() && s.drop_last()[i] == x;
            assert(s[i] == x);
        }
        assert(s[s.len() - 1] == s.last());
    }
}

} // verus!
