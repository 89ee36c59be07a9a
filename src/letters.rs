//! Finite sets of letters.

use vstd::prelude::*;

verus! {

/// A finite set of characters, kept as a list without repeats.
pub struct LetterSet {
    letters: Vec<char>,
}

impl View for LetterSet {
    type V = Set<char>;

    closed spec fn view(&self) -> Set<char> {
        Set::new(|c: char| self.letters@.contains(c))
    }
}

impl LetterSet {
    /// The empty set.
    pub fn new() -> (r: LetterSet)
        ensures
            r@ == Set::<char>::empty(),
    {
        let r = LetterSet { letters: Vec::new() };
        assert(r@ =~= Set::<char>::empty());
        r
    }

    /// Whether `c` is a member.
    pub fn contains(&self, c: char) -> (r: bool)
        ensures
            r == self@.contains(c),
    {
        let mut i: usize = 0;
        while i < self.letters.len()
            invariant
                0 <= i <= self.letters.len(),
                forall|j: int| 0 <= j < i ==> self.letters@[j] != c,
            decreases self.letters.len() - i,
        {
            if self.letters[i] == c {
                return true;
            }
            i += 1;
        }
        false
    }

    /// Adds `c`.
    pub fn insert(&mut self, c: char)
        ensures
            final(self)@ == old(self)@.insert(c),
    {
        if !self.contains(c) {
            self.letters.push(c);
            assert(self.letters@.last() == c);
            assert forall|d: char| old(self)@.contains(d) implies self@.contains(d) by {
                let j = choose|j: int| 0 <= j < old(self).letters@.len() && old(self).letters@[j] == d;
                assert(self.letters@[j] == d);
            }
        }
        assert(self@ =~= old(self)@.insert(c));
    }

    /// The members of `self` that are not members of `other`.
    pub fn difference(&self, other: &LetterSet) -> (r: LetterSet)
        ensures
            r@ == self@.difference(other@),
    {
        let mut r = LetterSet::new();
        let mut i: usize = 0;
        while i < self.letters.len()
            invariant
                0 <= i <= self.letters.len(),
                r@ == Set::new(|c: char| self.letters@.take(i as int).contains(c)).difference(other@),
            decreases self.letters.len() - i,
        {
            let c = self.letters[i];
            if !other.contains(c) {
                r.insert(c);
            }
            assert(self.letters@.take(i + 1) == self.letters@.take(i as int).push(c));
            assert(r@ =~= Set::new(|d: char| self.letters@.take(i + 1).contains(d)).difference(other@)) by {
                assert forall|d: char| self.letters@.take(i as int).contains(d) implies self.letters@.take(i + 1).contains(d) by {
                    let j = choose|j: int| 0 <= j < i && self.letters@.take(i as int)[j] == d;
                    assert(self.letters@.take(i + 1)[j] == d);
                }
                assert(self.letters@.take(i + 1)[i as int] == c);
            }
            i += 1;
        }
        assert(self.letters@.take(i as int) == self.letters@);
        assert(r@ =~= self@.difference(other@));
        r
    }

    /// The members of either set.
    pub fn union(&self, other: &LetterSet) -> (r: LetterSet)
        ensures
            r@ == self@.union(other@),
    {
        let mut r = LetterSet::new();
        let mut i: usize = 0;
        while i < self.letters.len()
            invariant
                0 <= i <= self.letters.len(),
                r@ == Set::new(|c: char| self.letters@.take(i as int).contains(c)),
            decreases self.letters.len() - i,
        {
            let c = self.letters[i];
            r.insert(c);
            assert(self.letters@.take(i + 1) == self.letters@.take(i as int).push(c));
            assert(r@ =~= Set::new(|d: char| self.letters@.take(i + 1).contains(d))) by {
                assert forall|d: char| self.letters@.take(i as int).contains(d) implies self.letters@.take(i + 1).contains(d) by {
                    let j = choose|j: int| 0 <= j < i && self.letters@.take(i as int)[j] == d;
                    assert(self.letters@.take(i + 1)[j] == d);
                }
                assert(self.letters@.take(i + 1)[i as int] == c);
            }
            i += 1;
        }
        assert(self.letters@.take(i as int) == self.letters@);
        let mut k: usize = 0;
        while k < other.letters.len()
            invariant
                0 <= k <= other.letters.len(),
                r@ == self@.union(Set::new(|c: char| other.letters@.take(k as int).contains(c))),
            decreases other.letters.len() - k,
        {
            let c = other.letters[k];
            r.insert(c);
            assert(other.letters@.take(k + 1) == other.letters@.take(k as int).push(c));
            assert(r@ =~= self@.union(Set::new(|d: char| other.letters@.take(k + 1).contains(d)))) by {
                assert forall|d: char| other.letters@.take(k as int).contains(d) implies other.letters@.take(k + 1).contains(d) by {
                    let j = choose|j: int| 0 <= j < k && other.letters@.take(k as int)[j] == d;
                    assert(other.letters@.take(k + 1)[j] == d);
                }
                assert(other.letters@.take(k + 1)[k as int] == c);
            }
            k += 1;
        }
        assert(other.letters@.take(k as int) == other.letters@);
        assert(r@ =~= self@.union(other@));
        r
    }

    /// The members, in no promised order.
    pub fn to_vec(&self) -> (r: Vec<char>)
        ensures
            forall|c: char| r@.contains(c) <==> self@.contains(c),
    {
        self.letters.clone()
    }
}

} // verus!
