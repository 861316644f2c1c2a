//! File names for downloads: a name that was already given out in this run
//! gets a numeric suffix, `name.2`, `name.3` and so on.

use crate::count::{lemma_occurrences_push, occurrences};
use vstd::prelude::*;
use vstd::string::*;

verus! {

/// The decimal digit for a number below ten.
pub open spec fn digit(d: nat) -> char {
    if d == 0 {
        '0'
    } else if d == 1 {
        '1'
    } else if d == 2 {
        '2'
    } else if d == 3 {
        '3'
    } else if d == 4 {
        '4'
    } else if d == 5 {
        '5'
    } else if d == 6 {
        '6'
    } else if d == 7 {
        '7'
    } else if d == 8 {
        '8'
    } else {
        '9'
    }
}

/// A number written in base ten, without sign or leading zeros.
pub open spec fn decimal(n: nat) -> Seq<char>
    decreases n,
{
    if n < 10 {
        seq![digit(n)]
    } else {
        decimal(n / 10).push(digit(n % 10))
    }
}

/// The name for the `n`-th request of `base`: `base` itself for the first,
/// `base.n` from the second on.
pub open spec fn numbered(base: Seq<char>, n: nat) -> Seq<char> {
    if n <= 1 {
        base
    } else {
        base + seq!['.'] + decimal(n)
    }
}

/// The name given to position `i` when the base names `bases` are requested
/// in order.
pub open spec fn resolved(bases: Seq<Seq<char>>, i: int) -> Seq<char> {
    numbered(bases[i], occurrences(bases.take(i), bases[i]) + 1)
}

/// `usize`'s `to_string`: the number in base ten, without sign or leading
/// zeros.
#[verifier::external_body]
fn decimal_string(n: usize) -> (s: String)
    ensures
        s@ == decimal(n as nat),
{
    n.to_string()
}

/// A base name with the number of times it was requested.
struct Tally {
    name: String,
    count: usize,
}

/// Counts, for one run, how often each base name was requested, and names
/// each request.
pub struct NameCounter {
    entries: Vec<Tally>,
}

impl NameCounter {
    /// Where `base` is tallied, if anywhere.
    spec fn slot(&self, base: Seq<char>) -> Option<int> {
        if exists|i: int| 0 <= i < self.entries.len() && self.entries[i].name@ == base {
            Some(choose|i: int| 0 <= i < self.entries.len() && self.entries[i].name@ == base)
        } else {
            None
        }
    }

    /// How often `base` has been requested so far.
    pub closed spec fn issued(&self, base: Seq<char>) -> nat {
        match self.slot(base) {
            Some(i) => self.entries[i].count as nat,
            None => 0,
        }
    }

    /// Each base name is tallied once, with a count of at least one.
    #[verifier::type_invariant]
    spec fn inv(&self) -> bool {
        &&& forall|i: int, j: int|
            0 <= i < j < self.entries.len() ==> self.entries[i].name@ != self.entries[j].name@
        &&& forall|i: int| 0 <= i < self.entries.len() ==> self.entries[i].count >= 1
    }

    /// A counter for a new run: nothing has been requested.
    pub fn new() -> (c: Self)
        ensures
            forall|base: Seq<char>| c.issued(base) == 0,
    {
        NameCounter { entries: Vec::new() }
    }

    /// The position at which `base` is tallied.
    fn find(&self, base: &String) -> (r: Option<usize>)
        ensures
            match r {
                Some(i) => self.slot(base@) == Some(i as int) && i < self.entries.len()
                    && self.entries[i as int].name@ == base@,
                None => self.slot(base@) is None,
            },
    {
        proof {
            use_type_invariant(self);
        }
        let mut i: usize = 0;
        while i < self.entries.len()
            invariant
                i <= self.entries.len(),
                forall|j: int| 0 <= j < i ==> self.entries[j].name@ != base@,
                forall|j: int, k: int|
                    0 <= j < k < self.entries.len() ==> self.entries[j].name@
                        != self.entries[k].name@,
            decreases self.entries.len() - i,
        {
            if self.entries[i].name == *base {
                assert(self.entries[i as int].name@ == base@);
                return Some(i);
            }
            i += 1;
        }
        None
    }

    /// Requests `base` once more and returns the name for this request:
    /// `base` the first time, `base.n` the `n`-th time. `None`, and nothing
    /// changes, where `base` has been requested so often that the count no
    /// longer fits.
    pub fn assign(&mut self, base: String) -> (name: Option<String>)
        ensures
            match name {
                Some(name) => {
                    &&& old(self).issued(base@) < usize::MAX
                    &&& name@ == numbered(base@, old(self).issued(base@) + 1)
                    &&& forall|other: Seq<char>|
                        final(self).issued(other) == old(self).issued(other) + if other == base@ {
                            1nat
                        } else {
                            0nat
                        }
                },
                None => {
                    &&& old(self).issued(base@) == usize::MAX
                    &&& forall|other: Seq<char>| final(self).issued(other) == old(self).issued(other)
                },
            },
    {
        proof {
            use_type_invariant(&*self);
        }
        let ghost before = *self;
        match self.find(&base) {
            Some(i) => {
                if self.entries[i].count == usize::MAX {
                    return None;
                }
                let n = self.entries[i].count + 1;
                let suffix = decimal_string(n);
                let name = base.clone().concat(".").concat(suffix.as_str());
                let mut entries: Vec<Tally> = Vec::new();
                std::mem::swap(&mut entries, &mut self.entries);
                entries.set(i, Tally { name: base, count: n });
                self.entries = entries;
                proof {
                    reveal_strlit(".");
                    assert("."@ =~= seq!['.']);
                    assert forall|other: Seq<char>|
                        self.issued(other) == before.issued(other) + if other == base@ {
                            1nat
                        } else {
                            0nat
                        } by {
                        assert(forall|j: int|
                            0 <= j < self.entries.len() ==> self.entries[j].name@
                                == before.entries[j].name@);
                        assert(self.slot(other) == before.slot(other));
                    }
                }
                Some(name)
            },
            None => {
                let name = base.clone();
                let mut entries: Vec<Tally> = Vec::new();
                std::mem::swap(&mut entries, &mut self.entries);
                entries.push(Tally { name: base, count: 1 });
                self.entries = entries;
                proof {
                    let last = self.entries.len() - 1;
                    assert(self.entries[last].name@ == base@);
                    assert(self.slot(base@) == Some(last));
                    assert forall|other: Seq<char>|
                        self.issued(other) == before.issued(other) + if other == base@ {
                            1nat
                        } else {
                            0nat
                        } by {
                        if other != base@ {
                            assert(forall|j: int|
                                0 <= j < before.entries.len() ==> self.entries[j].name@
                                    == before.entries[j].name@);
                            if before.slot(other) is Some {
                                let k = before.slot(other).unwrap();
                                assert(self.entries[k].name@ == other);
                                assert(self.slot(other) is Some);
                                assert(self.slot(other).unwrap() == k);
                            } else {
                                assert(self.slot(other) is None);
                            }
                        }
                    }
                }
                Some(name)
            },
        }
    }
}

/// The `n`-th request of a base name `x` is named `x` for `n = 1` and `x.n`
/// from the second on, where `n` counts the requests of `x` up to and
/// including this one.
pub proof fn lemma_nth_name(bases: Seq<Seq<char>>, i: int)
    requires
        0 <= i < bases.len(),
    ensures
        ({
            let n = occurrences(bases.take(i + 1), bases[i]);
            &&& n >= 1
            &&& n == 1 ==> resolved(bases, i) == bases[i]
            &&& n >= 2 ==> resolved(bases, i) == bases[i] + seq!['.'] + decimal(n)
        }),
{
    assert(bases.take(i + 1) =~= bases.take(i).push(bases[i]));
    lemma_occurrences_push(bases.take(i), bases[i], bases[i]);
}

/// A number in base ten has at least one digit.
pub proof fn lemma_decimal_len(n: nat)
    ensures
        decimal(n).len() >= 1,
    decreases n,
{
    if n >= 10 {
        lemma_decimal_len(n / 10);
    }
}

/// Different numbers are written differently.
pub proof fn lemma_decimal_injective(a: nat, b: nat)
    requires
        decimal(a) == decimal(b),
    ensures
        a == b,
    decreases a,
{
    lemma_decimal_len(a / 10);
    lemma_decimal_len(b / 10);
    if a < 10 && b < 10 {
        assert(decimal(a)[0] == digit(a));
        assert(decimal(b)[0] == digit(b));
    } else if a >= 10 && b >= 10 {
        let x = decimal(a / 10);
        let y = decimal(b / 10);
        assert(x.push(digit(a % 10)).drop_last() =~= x);
        assert(y.push(digit(b % 10)).drop_last() =~= y);
        assert(x.push(digit(a % 10)).last() == digit(a % 10));
        assert(y.push(digit(b % 10)).last() == digit(b % 10));
        lemma_decimal_injective(a / 10, b / 10);
    } else if a < 10 {
        assert(decimal(a).len() == 1);
        assert(decimal(b).len() == decimal(b / 10).len() + 1);
    } else {
        assert(decimal(b).len() == 1);
        assert(decimal(a).len() == decimal(a / 10).len() + 1);
    }
}

/// Two requests of the same base name never get the same name.
pub proof fn lemma_same_base_distinct_names(bases: Seq<Seq<char>>, i: int, j: int)
    requires
        0 <= i < j < bases.len(),
        bases[i] == bases[j],
    ensures
        resolved(bases, i) != resolved(bases, j),
{
    let x = bases[i];
    let m = occurrences(bases.take(i), x) + 1;
    let n = occurrences(bases.take(j), x) + 1;
    assert(m < n) by {
        lemma_occurrences_grow(bases, x, i + 1, j);
        assert(bases.take(i + 1) =~= bases.take(i).push(x));
        lemma_occurrences_push(bases.take(i), x, x);
    }
    lemma_decimal_len(n as nat);
    if m <= 1 {
        assert(resolved(bases, j).len() > x.len());
    } else if resolved(bases, i) == resolved(bases, j) {
        let head = x + seq!['.'];
        let a = head + decimal(m as nat);
        let b = head + decimal(n as nat);
        assert(a.subrange(head.len() as int, a.len() as int) =~= decimal(m as nat));
        assert(b.subrange(head.len() as int, b.len() as int) =~= decimal(n as nat));
        lemma_decimal_injective(m as nat, n as nat);
    }
}

/// A longer prefix holds a value at least as often as a shorter one.
proof fn lemma_occurrences_grow<A>(s: Seq<A>, x: A, a: int, b: int)
    requires
        0 <= a <= b <= s.len(),
    ensures
        occurrences(s.take(a), x) <= occurrences(s.take(b), x),
    decreases b - a,
{
    if a < b {
        lemma_occurrences_grow(s, x, a, b - 1);
        assert(s.take(b).drop_last() =~= s.take(b - 1));
    }
}

} // verus!
