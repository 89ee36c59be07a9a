//! Letter frequency counts.

use std::collections::HashMap;
use vstd::prelude::*;

verus! {

broadcast use vstd::std_specs::hash::group_hash_axioms;

/// Number of positions below `n` at which `s` holds `c`.
pub open spec fn occurrences_upto(s: Seq<char>, c: char, n: int) -> nat
    decreases n,
{
    if n <= 0 {
        0
    } else {
        occurrences_upto(s, c, n - 1) + if s[n - 1] == c {
            1nat
        } else {
            0nat
        }
    }
}

/// Number of times `c` occurs in `s`.
pub open spec fn occurrences(s: Seq<char>, c: char) -> nat {
    occurrences_upto(s, c, s.len() as int)
}

/// The count `m` holds under key `k`; a missing key counts zero.
pub open spec fn count_at(m: Map<u32, i32>, k: u32) -> int {
    if m.contains_key(k) {
        m[k] as int
    } else {
        0
    }
}

/// The count a table keyed by code point holds for `c`; a missing key counts zero.
pub open spec fn tally(m: Map<u32, i32>, c: char) -> int {
    count_at(m, c as u32)
}

/// Code points of the characters at positions below `n` of `s`.
pub open spec fn codes_upto(s: Seq<char>, n: int) -> Set<u32> {
    Set::new(|k: u32| exists|j: int| 0 <= j < n && #[trigger] s[j] as u32 == k)
}

/// Code points of the characters of `s`.
pub open spec fn codes(s: Seq<char>) -> Set<u32> {
    codes_upto(s, s.len() as int)
}

/// Occurrences in a prefix grow with its length.
pub proof fn lemma_occurrences_monotone(s: Seq<char>, c: char, a: int, b: int)
    requires
        0 <= a <= b,
    ensures
        occurrences_upto(s, c, a) <= occurrences_upto(s, c, b),
    decreases b,
{
    if a < b {
        lemma_occurrences_monotone(s, c, a, b - 1);
    }
}

/// `new` is what adding the characters of `s` one by one to `old` gives: what
/// `Counter::add_vec` ensures.
pub open spec fn adds_counts(old: Map<u32, i32>, new: Map<u32, i32>, s: Seq<char>) -> bool {
    &&& forall|c: char| #[trigger] tally(new, c) == tally(old, c) + occurrences(s, c)
    &&& new.dom() == old.dom().union(codes(s))
    &&& forall|k: u32|
        #![trigger new[k]]
        old.contains_key(k) && !codes(s).contains(k) ==> new[k] == old[k]
}

/// Occurrences in a concatenation add up.
proof fn lemma_occurrences_concat(a: Seq<char>, b: Seq<char>, c: char, n: int)
    requires
        0 <= n <= b.len(),
    ensures
        occurrences_upto(a + b, c, a.len() + n) == occurrences(a, c) + occurrences_upto(b, c, n),
    decreases n,
{
    if n > 0 {
        lemma_occurrences_concat(a, b, c, n - 1);
        assert((a + b)[a.len() + n - 1] == b[n - 1]);
    } else {
        lemma_occurrences_prefix(a, b, c, a.len() as int);
    }
}

/// A concatenation agrees with its first part on the first part's positions.
proof fn lemma_occurrences_prefix(a: Seq<char>, b: Seq<char>, c: char, n: int)
    requires
        0 <= n <= a.len(),
    ensures
        occurrences_upto(a + b, c, n) == occurrences_upto(a, c, n),
    decreases n,
{
    if n > 0 {
        lemma_occurrences_prefix(a, b, c, n - 1);
        assert((a + b)[n - 1] == a[n - 1]);
    }
}

/// Adding `a` and then `b` gives the same counts as adding `a + b` at once.
pub proof fn lemma_add_in_parts(
    start: Map<u32, i32>,
    middle: Map<u32, i32>,
    end: Map<u32, i32>,
    whole: Map<u32, i32>,
    a: Seq<char>,
    b: Seq<char>,
)
    requires
        adds_counts(start, middle, a),
        adds_counts(middle, end, b),
        adds_counts(start, whole, a + b),
    ensures
        end == whole,
{
    assert(codes(a + b) =~= codes(a).union(codes(b))) by {
        assert forall|k: u32| codes(a + b).contains(k) implies codes(a).union(codes(b)).contains(
            k,
        ) by {
            let j = choose|j: int| 0 <= j < (a + b).len() && #[trigger] (a + b)[j] as u32 == k;
            if j < a.len() {
                assert(a[j] as u32 == k);
            } else {
                assert(b[j - a.len()] as u32 == k);
            }
        }
        assert forall|k: u32| codes(a).union(codes(b)).contains(k) implies codes(a + b).contains(
            k,
        ) by {
            if codes(a).contains(k) {
                let j = choose|j: int| 0 <= j < a.len() && #[trigger] a[j] as u32 == k;
                assert((a + b)[j] as u32 == k);
            } else {
                let j = choose|j: int| 0 <= j < b.len() && #[trigger] b[j] as u32 == k;
                assert((a + b)[a.len() + j] as u32 == k);
            }
        }
    }
    assert(end.dom() =~= whole.dom());
    assert forall|k: u32| end.contains_key(k) implies end[k] == whole[k] by {
        if codes(a + b).contains(k) {
            let j = choose|j: int| 0 <= j < (a + b).len() && #[trigger] (a + b)[j] as u32 == k;
            let x = (a + b)[j];
            lemma_occurrences_concat(a, b, x, b.len() as int);
            assert(tally(end, x) == tally(middle, x) + occurrences(b, x));
            assert(tally(middle, x) == tally(start, x) + occurrences(a, x));
            assert(tally(whole, x) == tally(start, x) + occurrences(a + b, x));
        } else {
            assert(!codes(a).contains(k) && !codes(b).contains(k));
            assert(middle[k] == start[k]);
        }
    }
    assert(end =~= whole);
}

/// Distinct characters have distinct code points.
pub proof fn lemma_code_point_injective(c: char, d: char)
    requires
        c as u32 == d as u32,
    ensures
        c == d,
{
    vstd::utf8::char_u32_cast(c, c as u32);
    vstd::utf8::char_u32_cast(d, d as u32);
}

/// Counts of characters, keyed by code point.
pub struct Counter {
    counts: HashMap<u32, i32>,
}

impl View for Counter {
    type V = Map<u32, i32>;

    closed spec fn view(&self) -> Map<u32, i32> {
        self.counts@
    }
}

impl Counter {
    /// An empty counter.
    pub fn new() -> (r: Counter)
        ensures
            r@ == Map::<u32, i32>::empty(),
    {
        Counter { counts: HashMap::new() }
    }

    /// Adds one to the count of each character of `collection`, in order. The
    /// keys afterwards are the old keys and the code points of `collection`; each
    /// of the latter gains its number of occurrences, and every other key keeps
    /// its count.
    pub fn add_vec(&mut self, collection: &Vec<char>)
        requires
            forall|c: char|
                #![trigger tally(old(self)@, c)]
                tally(old(self)@, c) + occurrences(collection@, c) <= i32::MAX,
        ensures
            forall|c: char|
                #![trigger tally(final(self)@, c)]
                tally(final(self)@, c) == tally(old(self)@, c) + occurrences(collection@, c),
            final(self)@.dom() == old(self)@.dom().union(codes(collection@)),
            forall|k: u32|
                #![trigger final(self)@[k]]
                old(self)@.contains_key(k) && !codes(collection@).contains(k) ==> final(self)@[k]
                    == old(self)@[k],
            forall|k: u32|
                #![trigger final(self)@[k]]
                codes(collection@).contains(k) ==> final(self)@[k] >= 1 + count_at(old(self)@, k),
    {
        let mut i: usize = 0;
        while i < collection.len()
            invariant
                0 <= i <= collection.len(),
                forall|c: char|
                    #![trigger tally(old(self)@, c)]
                    tally(old(self)@, c) + occurrences(collection@, c) <= i32::MAX,
                forall|c: char|
                    #![trigger tally(self@, c)]
                    tally(self@, c) == tally(old(self)@, c) + occurrences_upto(
                        collection@,
                        c,
                        i as int,
                    ),
                self@.dom() == old(self)@.dom().union(codes_upto(collection@, i as int)),
                forall|k: u32|
                    #![trigger self@[k]]
                    old(self)@.contains_key(k) && !codes_upto(collection@, i as int).contains(k)
                        ==> self@[k] == old(self)@[k],
                forall|k: u32|
                    #![trigger self@[k]]
                    codes_upto(collection@, i as int).contains(k) ==> self@[k] >= 1 + count_at(
                        old(self)@,
                        k,
                    ),
            decreases collection.len() - i,
        {
            let c = collection[i];
            let k = c as u32;
            proof {
                lemma_occurrences_monotone(collection@, c, i + 1, collection@.len() as int);
            }
            let n: i32 = match self.counts.get(&k) {
                Some(v) => *v,
                None => 0,
            };
            assert(n == tally(self@, c));
            let ghost before = self@;
            self.counts.insert(k, n + 1);
            proof {
                assert(codes_upto(collection@, i + 1) =~= codes_upto(collection@, i as int).insert(
                    k,
                ));
                assert forall|d: char| #![trigger tally(self@, d)]
                    tally(self@, d) == tally(old(self)@, d) + occurrences_upto(
                        collection@,
                        d,
                        i + 1,
                    ) by {
                    if d as u32 == k {
                        lemma_code_point_injective(c, d);
                    }
                    assert(tally(before, d) == tally(old(self)@, d) + occurrences_upto(
                        collection@,
                        d,
                        i as int,
                    ));
                }
                assert(self@.dom() =~= old(self)@.dom().union(codes_upto(collection@, i + 1)));
                assert forall|j: u32| #![trigger self@[j]]
                    codes_upto(collection@, i + 1).contains(j) implies self@[j] >= 1 + count_at(
                        old(self)@,
                        j,
                    ) by {
                    if j != k {
                        assert(codes_upto(collection@, i as int).contains(j));
                        assert(before[j] >= 1 + count_at(old(self)@, j));
                    } else if codes_upto(collection@, i as int).contains(k) {
                        assert(before[k] >= 1 + count_at(old(self)@, k));
                    } else if old(self)@.contains_key(k) {
                        assert(before[k] == old(self)@[k]);
                    }
                }
            }
            i += 1;
        }
        assert(codes_upto(collection@, i as int) == codes(collection@));
    }

    /// A copy of the counts, keyed by code point.
    pub fn clone_counts(&self) -> (r: HashMap<u32, i32>)
        ensures
            r@ == self@,
    {
        self.counts.clone()
    }
}

} // verus!
