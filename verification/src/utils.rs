//! Deduplication of URLs: each distinct URL passes once, the first time it
//! is seen.

use crate::web::{copy_url, same_url, texts, url_text};
use url::Url;
use vstd::prelude::*;

verus! {

/// Whether position `i` of `s` holds a value that occurs at no earlier
/// position.
pub open spec fn first_seen<A>(s: Seq<A>, i: int) -> bool {
    0 <= i < s.len() && !s.take(i).contains(s[i])
}

/// The values of `s` with every repeat removed: each value stays where it
/// first occurs.
pub open spec fn first_occurrences<A>(s: Seq<A>) -> Seq<A>
    decreases s.len(),
{
    if s.len() == 0 {
        Seq::empty()
    } else if s.drop_last().contains(s.last()) {
        first_occurrences(s.drop_last())
    } else {
        first_occurrences(s.drop_last()).push(s.last())
    }
}

/// The URLs seen so far in a run, in the order in which they first came.
pub struct Deduplicator {
    seen: Vec<Url>,
}

impl View for Deduplicator {
    type V = Seq<Seq<char>>;

    /// The serializations of the recorded URLs, oldest first.
    closed spec fn view(&self) -> Seq<Seq<char>> {
        texts(self.seen@)
    }
}

impl Deduplicator {
    /// No URL is recorded twice.
    #[verifier::type_invariant]
    spec fn inv(&self) -> bool {
        texts(self.seen@).no_duplicates()
    }

    /// A deduplicator that has seen nothing.
    pub fn new() -> (d: Self)
        ensures
            d@ == Seq::<Seq<char>>::empty(),
    {
        assert(texts(Seq::<Url>::empty()) =~= Seq::<Seq<char>>::empty());
        Deduplicator { seen: Vec::new() }
    }

    /// Whether `url` has been recorded.
    pub fn contains(&self, url: &Url) -> (found: bool)
        ensures
            found == self@.contains(url_text(*url)),
    {
        let mut i: usize = 0;
        while i < self.seen.len()
            invariant
                i <= self.seen.len(),
                forall|j: int| 0 <= j < i ==> self@[j] != url_text(*url),
            decreases self.seen.len() - i,
        {
            if same_url(&self.seen[i], url) {
                assert(self@[i as int] == url_text(*url));
                return true;
            }
            i += 1;
        }
        false
    }

    /// Records `url` and says whether this is the first time it is seen:
    /// `true` once per distinct URL, `false` every time after.
    pub fn observe(&mut self, url: &Url) -> (fresh: bool)
        ensures
            fresh == !old(self)@.contains(url_text(*url)),
            final(self)@ == if fresh {
                old(self)@.push(url_text(*url))
            } else {
                old(self)@
            },
            final(self)@.no_duplicates(),
            final(self)@.contains(url_text(*url)),
    {
        proof {
            use_type_invariant(&*self);
        }
        if self.contains(url) {
            false
        } else {
            let ghost before = self@;
            let mut seen: Vec<Url> = Vec::new();
            std::mem::swap(&mut seen, &mut self.seen);
            seen.push(copy_url(url));
            assert(texts(seen@) =~= before.push(url_text(*url)));
            assert(texts(seen@)[before.len() as int] == url_text(*url));
            assert(texts(Seq::<Url>::empty()) =~= Seq::<Seq<char>>::empty());
            self.seen = seen;
            true
        }
    }

    /// How many distinct URLs have been recorded.
    pub fn len(&self) -> (n: usize)
        ensures
            n == self@.len(),
    {
        self.seen.len()
    }
}

/// Drops every URL that equals an earlier one and keeps the rest in their
/// order.
pub fn dedup_urls(input: Vec<Url>) -> (output: Vec<Url>)
    ensures
        texts(output@) == first_occurrences(texts(input@)),
{
    let mut dedup = Deduplicator::new();
    let mut output: Vec<Url> = Vec::new();
    let mut i: usize = 0;
    assert(texts(input@).take(0) =~= Seq::<Seq<char>>::empty());
    assert(texts(output@) =~= Seq::<Seq<char>>::empty());
    while i < input.len()
        invariant
            i <= input.len(),
            dedup@ == first_occurrences(texts(input@).take(i as int)),
            texts(output@) == dedup@,
        decreases input.len() - i,
    {
        let ghost all = texts(input@);
        let ghost before = texts(output@);
        proof {
            lemma_first_occurrences_members(all.take(i as int), all[i as int]);
            assert(all.take(i + 1).drop_last() =~= all.take(i as int));
            assert(all.take(i + 1).last() == all[i as int]);
        }
        if dedup.observe(&input[i]) {
            output.push(copy_url(&input[i]));
            assert(texts(output@) =~= before.push(all[i as int]));
        }
        i += 1;
    }
    assert(texts(input@).take(i as int) =~= texts(input@));
    output
}

/// A value is among the first occurrences of `s` exactly if it is in `s`.
pub proof fn lemma_first_occurrences_members<A>(s: Seq<A>, x: A)
    ensures
        first_occurrences(s).contains(x) <==> s.contains(x),
    decreases s.len(),
{
    if s.len() > 0 {
        let rest = s.drop_last();
        lemma_first_occurrences_members(rest, x);
        lemma_first_occurrences_members(rest, s.last());
        if s.contains(x) {
            let i = choose|i: int| 0 <= i < s.len() && s[i] == x;
            if i < s.len() - 1 {
                assert(rest[i] == x);
            }
        }
        if rest.contains(x) {
            let i = choose|i: int| 0 <= i < rest.len() && rest[i] == x;
            assert(s[i] == x);
        }
        if rest.contains(s.last()) {
        } else {
            let kept = first_occurrences(rest);
            assert(kept.push(s.last())[kept.len() as int] == s.last());
            if kept.push(s.last()).contains(x) {
                let i = choose|i: int| 0 <= i < kept.len() + 1 && kept.push(s.last())[i] == x;
                if i < kept.len() {
                    assert(kept[i] == x);
                }
            }
            if kept.contains(x) {
                let i = choose|i: int| 0 <= i < kept.len() && kept[i] == x;
                assert(kept.push(s.last())[i] == x);
            }
        }
        assert(s[s.len() - 1] == s.last());
    }
}

/// No value occurs twice among the first occurrences of `s`.
pub proof fn lemma_first_occurrences_distinct<A>(s: Seq<A>)
    ensures
        first_occurrences(s).no_duplicates(),
    decreases s.len(),
{
    if s.len() > 0 {
        let rest = s.drop_last();
        lemma_first_occurrences_distinct(rest);
        lemma_first_occurrences_members(rest, s.last());
    }
}

/// A sequence without repeats is its own first occurrences, so removing
/// repeats a second time changes nothing.
pub proof fn lemma_first_occurrences_fixed<A>(s: Seq<A>)
    requires
        s.no_duplicates(),
    ensures
        first_occurrences(s) == s,
    decreases s.len(),
{
    if s.len() > 0 {
        let rest = s.drop_last();
        lemma_first_occurrences_fixed(rest);
        if rest.contains(s.last()) {
            let i = choose|i: int| 0 <= i < rest.len() && rest[i] == s.last();
            assert(s[i] == s[s.len() - 1]);
        }
        assert(rest.push(s.last()) =~= s);
    } else {
        assert(s =~= Seq::<A>::empty());
    }
}

/// A deduplicator that has been fed the first `i` values of `s` holds
/// `first_occurrences(s.take(i))`; the next value is new to it exactly if
/// position `i` is first seen.
pub proof fn lemma_fresh_is_first_seen<A>(s: Seq<A>, i: int)
    requires
        0 <= i < s.len(),
    ensures
        !first_occurrences(s.take(i)).contains(s[i]) <==> first_seen(s, i),
{
    lemma_first_occurrences_members(s.take(i), s[i]);
}

/// Every value of `s` is first seen at exactly one position, the first at
/// which it occurs.
pub proof fn lemma_observed_once<A>(s: Seq<A>, x: A)
    requires
        s.contains(x),
    ensures
        exists|i: int|
            {
                &&& #[trigger] first_seen(s, i)
                &&& s[i] == x
                &&& forall|j: int| 0 <= j < s.len() && s[j] == x ==> i <= j
                &&& forall|j: int| #[trigger] first_seen(s, j) && s[j] == x ==> j == i
            },
{
    let i = least_position(s, x, s.len() as int);
    assert(!s.take(i).contains(x)) by {
        if s.take(i).contains(x) {
            let k = choose|k: int| 0 <= k < s.take(i).len() && s.take(i)[k] == x;
            assert(s[k] == x);
        }
    }
    assert(first_seen(s, i));
    assert forall|j: int| #[trigger] first_seen(s, j) && s[j] == x implies j == i by {
        if i < j {
            assert(s.take(j)[i] == x);
        }
    }
}

/// The least position below `bound` at which `x` occurs in `s`.
proof fn least_position<A>(s: Seq<A>, x: A, bound: int) -> (i: int)
    requires
        0 <= bound <= s.len(),
        exists|k: int| 0 <= k < bound && s[k] == x,
    ensures
        0 <= i < bound,
        s[i] == x,
        forall|j: int| 0 <= j < s.len() && s[j] == x ==> i <= j || bound <= j,
        forall|j: int| 0 <= j < i ==> s[j] != x,
    decreases bound,
{
    if exists|k: int| 0 <= k < bound - 1 && s[k] == x {
        least_position(s, x, bound - 1)
    } else {
        bound - 1
    }
}

/// The first occurrences of `s` are the values at its first-seen positions,
/// in the order of those positions: the value kept at `k` stands in `s` at a
/// first-seen position `at(k)`, and `at` rises with `k`.
pub proof fn lemma_first_occurrences_order<A>(s: Seq<A>) -> (at: Seq<int>)
    ensures
        at.len() == first_occurrences(s).len(),
        forall|k: int|
            0 <= k < at.len() ==> first_seen(s, #[trigger] at[k]) && s[at[k]]
                == first_occurrences(s)[k],
        forall|k: int, l: int| 0 <= k < l < at.len() ==> at[k] < at[l],
        forall|i: int| #[trigger] first_seen(s, i) ==> at.contains(i),
    decreases s.len(),
{
    if s.len() == 0 {
        Seq::empty()
    } else {
        let rest = s.drop_last();
        let before = lemma_first_occurrences_order(rest);
        let n = s.len() - 1;
        assert forall|i: int| 0 <= i < n implies first_seen(rest, i) == first_seen(s, i) by {
            assert(rest.take(i) =~= s.take(i));
        }
        assert(s.take(n) =~= rest);
        let at = if rest.contains(s.last()) {
            before
        } else {
            before.push(n)
        };
        assert forall|k: int| 0 <= k < at.len() implies first_seen(s, #[trigger] at[k])
            && s[at[k]] == first_occurrences(s)[k] by {
            if k < before.len() {
                assert(first_seen(rest, before[k]));
            }
        }
        assert forall|k: int, l: int| 0 <= k < l < at.len() implies at[k] < at[l] by {
            assert(first_seen(rest, before[k]));
        }
        assert forall|i: int| #[trigger] first_seen(s, i) implies at.contains(i) by {
            if i < n {
                assert(rest.take(i) =~= s.take(i));
                assert(first_seen(rest, i));
                assert(before.contains(i));
                let k = choose|k: int| 0 <= k < before.len() && before[k] == i;
                assert(at[k] == i);
            } else {
                assert(!rest.contains(s.last()));
                assert(at[at.len() - 1] == i);
            }
        }
        at
    }
}

} // verus!
