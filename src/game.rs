//! Classification of guesses against the secret word, and the round around it.

use crate::counter::{
    codes, lemma_code_point_injective, lemma_occurrences_monotone, occurrences, occurrences_upto, tally,
    Counter,
};
use crate::letters::LetterSet;
use crate::text::letters_of;
use std::collections::HashMap;
use vstd::prelude::*;

verus! {

broadcast use vstd::std_specs::hash::group_hash_axioms;

/// Guesses allowed in a round unless another limit is chosen.
pub const DEFAULT_MAX_GUESSES: usize = 5;

/// Feedback for one letter of a guess.
#[derive(Clone, Copy, Debug, PartialEq, Eq, Structural)]
pub enum Mark {
    /// The letter stands in this position of the word.
    Correct,
    /// The letter stands in this position, and the word holds more of it than the
    /// guess accounts for.
    CorrectOversupplied,
    /// The letter occurs elsewhere in the word.
    CloseMatch,
    /// No occurrence of the letter is left for this position.
    Absent,
}

/// Where a round stands.
#[derive(Clone, Copy, Debug, PartialEq, Eq, Structural)]
pub enum GameState {
    /// More guesses are accepted.
    InProgress,
    /// A guess matched the word.
    Won,
    /// The allowed guesses ran out without a match.
    Lost,
}

/// Positions below `n` where guess `g` places `c` where word `w` has it.
pub open spec fn placed_upto(w: Seq<char>, g: Seq<char>, c: char, n: int) -> nat
    decreases n,
{
    if n <= 0 {
        0
    } else {
        placed_upto(w, g, c, n - 1) + if g[n - 1] == c && w[n - 1] == c {
            1nat
        } else {
            0nat
        }
    }
}

/// Positions below `n` where guess `g` holds `c` and word `w` holds another letter.
pub open spec fn misplaced_upto(w: Seq<char>, g: Seq<char>, c: char, n: int) -> nat
    decreases n,
{
    if n <= 0 {
        0
    } else {
        misplaced_upto(w, g, c, n - 1) + if g[n - 1] == c && w[n - 1] != c {
            1nat
        } else {
            0nat
        }
    }
}

/// Occurrences of `c` in `w` that the correctly placed letters of `g` leave over.
pub open spec fn spare(w: Seq<char>, g: Seq<char>, c: char) -> int {
    occurrences(w, c) - placed_upto(w, g, c, g.len() as int)
}

/// The mark of position `i` of guess `g` against word `w`. A misplaced letter is a
/// close match while the spare occurrences of it are not used up by misplaced
/// copies further left; a placed letter is oversupplied when the spare
/// occurrences outnumber all misplaced copies.
pub open spec fn mark_at(w: Seq<char>, g: Seq<char>, i: int) -> Mark {
    let c = g[i];
    if w[i] == c {
        if spare(w, g, c) > misplaced_upto(w, g, c, g.len() as int) {
            Mark::CorrectOversupplied
        } else {
            Mark::Correct
        }
    } else if misplaced_upto(w, g, c, i) < spare(w, g, c) {
        Mark::CloseMatch
    } else {
        Mark::Absent
    }
}

/// Each letter of `g` with its mark against `w`.
pub open spec fn classify(w: Seq<char>, g: Seq<char>) -> Seq<(char, Mark)> {
    Seq::new(g.len(), |i: int| (g[i], mark_at(w, g, i)))
}

/// Letters that `g` places correctly at some position below `n`.
pub open spec fn placed_letters_upto(w: Seq<char>, g: Seq<char>, n: int) -> Set<char> {
    Set::new(|c: char| exists|j: int| 0 <= j < n && g[j] == w[j] && #[trigger] g[j] == c)
}

/// Letters that `g` does not place correctly at some position below `n`.
pub open spec fn missed_letters_upto(w: Seq<char>, g: Seq<char>, n: int) -> Set<char> {
    Set::new(|c: char| exists|j: int| 0 <= j < n && g[j] != w[j] && #[trigger] g[j] == c)
}

/// Letters marked as close matches at some position below `n`.
pub open spec fn close_letters_upto(w: Seq<char>, g: Seq<char>, n: int) -> Set<char> {
    Set::new(
        |c: char|
            exists|j: int|
                0 <= j < n && mark_at(w, g, j) == Mark::CloseMatch && #[trigger] g[j] == c,
    )
}

/// Letters of `g` in their right place.
pub open spec fn placed_letters(w: Seq<char>, g: Seq<char>) -> Set<char> {
    placed_letters_upto(w, g, g.len() as int)
}

/// Letters of `g` out of their place.
pub open spec fn missed_letters(w: Seq<char>, g: Seq<char>) -> Set<char> {
    missed_letters_upto(w, g, g.len() as int)
}

/// Letters of `g` marked as close matches.
pub open spec fn close_letters(w: Seq<char>, g: Seq<char>) -> Set<char> {
    close_letters_upto(w, g, g.len() as int)
}

/// The known letters after guess `g`.
pub open spec fn next_known(known: Set<char>, w: Seq<char>, g: Seq<char>) -> Set<char> {
    known.union(placed_letters(w, g))
}

/// The close letters after guess `g`.
pub open spec fn next_close(known: Set<char>, close: Set<char>, w: Seq<char>, g: Seq<char>) -> Set<
    char,
> {
    close.union(close_letters(w, g)).difference(next_known(known, w, g))
}

/// The unused letters after guess `g`.
pub open spec fn next_unused(
    known: Set<char>,
    close: Set<char>,
    unused: Set<char>,
    w: Seq<char>,
    g: Seq<char>,
) -> Set<char> {
    unused.union(missed_letters(w, g)).difference(
        next_known(known, w, g).union(next_close(known, close, w, g)),
    )
}

/// No letter lies in two of the three sets.
pub open spec fn pairwise_disjoint(known: Set<char>, close: Set<char>, unused: Set<char>) -> bool {
    &&& known.disjoint(close)
    &&& known.disjoint(unused)
    &&& close.disjoint(unused)
}

/// Where a round stands after guess `g` at word `w`, once `made` guesses have been
/// made of the `limit` allowed. A match wins even on the last allowed guess.
pub open spec fn outcome(w: Seq<char>, g: Seq<char>, made: nat, limit: nat) -> GameState {
    if g == w {
        GameState::Won
    } else if made >= limit {
        GameState::Lost
    } else {
        GameState::InProgress
    }
}

/// A guess places a letter in the first `n` positions no more often than the word
/// holds it there.
proof fn lemma_placed_within(w: Seq<char>, g: Seq<char>, c: char, n: int)
    requires
        w.len() == g.len(),
        0 <= n <= g.len(),
    ensures
        placed_upto(w, g, c, n) <= occurrences_upto(w, c, n),
    decreases n,
{
    if n > 0 {
        lemma_placed_within(w, g, c, n - 1);
    }
}

/// Reads the count that `snap` holds for `c`.
fn count_of(snap: &HashMap<u32, i32>, c: char) -> (r: i32)
    ensures
        r == tally(snap@, c),
{
    match snap.get(&(c as u32)) {
        Some(v) => *v,
        None => 0,
    }
}

/// Sets the count that `snap` holds for `c` to `v`, leaving the other letters.
fn set_count(snap: &mut HashMap<u32, i32>, c: char, v: i32)
    ensures
        tally(final(snap)@, c) == v,
        forall|d: char| d != c ==> #[trigger] tally(final(snap)@, d) == tally(old(snap)@, d),
{
    snap.insert(c as u32, v);
    assert forall|d: char| d != c implies #[trigger] tally(snap@, d) == tally(old(snap)@, d) by {
        if d as u32 == c as u32 {
            lemma_code_point_injective(c, d);
        }
    }
}

/// Classifies `guess` against `secret` and folds what it shows into the three
/// sets of letters. `counts` holds how often each letter occurs in `secret`.
pub fn evaluate(
    secret: &Vec<char>,
    counts: &Counter,
    guess: &Vec<char>,
    known: &mut LetterSet,
    close: &mut LetterSet,
    unused: &mut LetterSet,
) -> (r: Vec<(char, Mark)>)
    requires
        guess@.len() == secret@.len(),
        forall|c: char| #[trigger] tally(counts@, c) == occurrences(secret@, c),
    ensures
        r@ == classify(secret@, guess@),
        final(known)@ == next_known(old(known)@, secret@, guess@),
        final(close)@ == next_close(old(known)@, old(close)@, secret@, guess@),
        final(unused)@ == next_unused(old(known)@, old(close)@, old(unused)@, secret@, guess@),
{
    let ghost w = secret@;
    let ghost g = guess@;
    let n = guess.len();
    let mut snap = counts.clone_counts();
    let mut row: Vec<(char, Mark)> = Vec::new();

    // Correct letters claim their occurrences first.
    let mut i: usize = 0;
    while i < n
        invariant
            n == g.len(),
            w.len() == g.len(),
            w == secret@,
            g == guess@,
            0 <= i <= n,
            forall|c: char| #[trigger]
                tally(snap@, c) == occurrences(w, c) - placed_upto(w, g, c, i as int),
            row@.len() == i,
            forall|j: int|
                0 <= j < i ==> #[trigger] row@[j] == (g[j], if g[j] == w[j] {
                    Mark::Correct
                } else {
                    Mark::Absent
                }),
            known@ == old(known)@.union(placed_letters_upto(w, g, i as int)),
            unused@ == old(unused)@.union(missed_letters_upto(w, g, i as int)),
        decreases n - i,
    {
        let c = guess[i];
        if secret[i] == c {
            known.insert(c);
            row.push((c, Mark::Correct));
            proof {
                lemma_placed_within(w, g, c, i + 1);
                lemma_occurrences_monotone(w, c, i + 1, w.len() as int);
            }
            let v = count_of(&snap, c);
            set_count(&mut snap, c, v - 1);
            assert(placed_letters_upto(w, g, i + 1) =~= placed_letters_upto(w, g, i as int).insert(
                c,
            ));
            assert(missed_letters_upto(w, g, i + 1) =~= missed_letters_upto(w, g, i as int));
        } else {
            unused.insert(c);
            row.push((c, Mark::Absent));
            assert(placed_letters_upto(w, g, i + 1) =~= placed_letters_upto(w, g, i as int));
            assert(missed_letters_upto(w, g, i + 1) =~= missed_letters_upto(w, g, i as int).insert(
                c,
            ));
        }
        assert(known@ =~= old(known)@.union(placed_letters_upto(w, g, i + 1)));
        assert(unused@ =~= old(unused)@.union(missed_letters_upto(w, g, i + 1)));
        i += 1;
    }
    assert(known@ == next_known(old(known)@, w, g));
    proof {
        assert forall|c: char| #[trigger] spare(w, g, c) >= 0 by {
            lemma_placed_within(w, g, c, g.len() as int);
        }
    }

    // Misplaced letters take what is left, from left to right.
    let mut i: usize = 0;
    while i < n
        invariant
            n == g.len(),
            w.len() == g.len(),
            w == secret@,
            g == guess@,
            0 <= i <= n,
            forall|c: char| #[trigger] spare(w, g, c) >= 0,
            forall|c: char| #[trigger]
                tally(snap@, c) == if misplaced_upto(w, g, c, i as int) <= spare(w, g, c) {
                    spare(w, g, c) - misplaced_upto(w, g, c, i as int)
                } else {
                    0
                },
            row@.len() == n,
            forall|j: int|
                0 <= j < i ==> #[trigger] row@[j] == (g[j], if g[j] == w[j] {
                    Mark::Correct
                } else {
                    mark_at(w, g, j)
                }),
            forall|j: int|
                i <= j < n ==> #[trigger] row@[j] == (g[j], if g[j] == w[j] {
                    Mark::Correct
                } else {
                    Mark::Absent
                }),
            close@ == old(close)@.union(close_letters_upto(w, g, i as int)),
        decreases n - i,
    {
        let c = guess[i];
        if secret[i] != c {
            let v = count_of(&snap, c);
            if v > 0 {
                close.insert(c);
                set_count(&mut snap, c, v - 1);
                row.set(i, (c, Mark::CloseMatch));
                assert(mark_at(w, g, i as int) == Mark::CloseMatch);
                assert(close_letters_upto(w, g, i + 1) =~= close_letters_upto(
                    w,
                    g,
                    i as int,
                ).insert(c));
            } else {
                assert(mark_at(w, g, i as int) == Mark::Absent);
                assert(close_letters_upto(w, g, i + 1) =~= close_letters_upto(w, g, i as int));
            }
        } else {
            assert(close_letters_upto(w, g, i + 1) =~= close_letters_upto(w, g, i as int));
        }
        assert(close@ =~= old(close)@.union(close_letters_upto(w, g, i + 1)));
        i += 1;
    }

    // Placed letters with occurrences still unclaimed are oversupplied.
    let mut i: usize = 0;
    while i < n
        invariant
            n == g.len(),
            w.len() == g.len(),
            w == secret@,
            g == guess@,
            0 <= i <= n,
            forall|c: char| #[trigger]
                tally(snap@, c) == if misplaced_upto(w, g, c, n as int) <= spare(w, g, c) {
                    spare(w, g, c) - misplaced_upto(w, g, c, n as int)
                } else {
                    0
                },
            row@.len() == n,
            forall|j: int| 0 <= j < i ==> #[trigger] row@[j] == (g[j], mark_at(w, g, j)),
            forall|j: int|
                i <= j < n ==> #[trigger] row@[j] == (g[j], if g[j] == w[j] {
                    Mark::Correct
                } else {
                    mark_at(w, g, j)
                }),
        decreases n - i,
    {
        let c = guess[i];
        if secret[i] == c {
            let v = count_of(&snap, c);
            if v > 0 {
                row.set(i, (c, Mark::CorrectOversupplied));
            }
        }
        i += 1;
    }
    assert(row@ =~= classify(w, g));

    let narrowed = close.difference(known);
    *close = narrowed;
    let settled = known.union(close);
    let remaining = unused.difference(&settled);
    *unused = remaining;
    row
}

/// The state of one round: the secret word, the guesses so far with their
/// marks, and what they have shown about letters.
pub struct Grid {
    word: String,
    letters: Vec<char>,
    max_guesses: usize,
    guesses: Vec<String>,
    known_chars: LetterSet,
    close_chars: LetterSet,
    unused_chars: LetterSet,
    char_counts: Counter,
    rows: Vec<Vec<(char, Mark)>>,
    state: GameState,
}

impl Grid {
    /// The secret word.
    pub closed spec fn secret(&self) -> Seq<char> {
        self.word@
    }

    /// How many guesses the round allows.
    pub closed spec fn limit(&self) -> nat {
        self.max_guesses as nat
    }

    /// The guesses made so far, in order.
    pub closed spec fn history(&self) -> Seq<Seq<char>> {
        self.guesses@.map_values(|s: String| s@)
    }

    /// The marked letters of each guess so far, in order.
    pub closed spec fn feedback(&self) -> Seq<Seq<(char, Mark)>> {
        self.rows@.map_values(|r: Vec<(char, Mark)>| r@)
    }

    /// Letters found in their right place.
    pub closed spec fn known(&self) -> Set<char> {
        self.known_chars@
    }

    /// Letters found in the word but never yet in their right place.
    pub closed spec fn close(&self) -> Set<char> {
        self.close_chars@
    }

    /// Letters found absent from the word.
    pub closed spec fn unused(&self) -> Set<char> {
        self.unused_chars@
    }

    /// How often each letter occurs in the word, keyed by code point.
    pub closed spec fn counts(&self) -> Map<u32, i32> {
        self.char_counts@
    }

    /// Where the round stands.
    pub closed spec fn status(&self) -> GameState {
        self.state
    }

    /// The letter counts match the word, and no letter lies in two of the sets.
    pub closed spec fn wf(&self) -> bool {
        &&& self.letters@ == self.word@
        &&& forall|c: char| #[trigger] tally(self.char_counts@, c) == occurrences(self.word@, c)
        &&& pairwise_disjoint(self.known_chars@, self.close_chars@, self.unused_chars@)
    }

    /// A round at `word` that allows the default number of guesses.
    pub fn new(word: String) -> (r: Grid)
        requires
            forall|c: char| #[trigger] occurrences(word@, c) <= i32::MAX,
        ensures
            r.wf(),
            r.secret() == word@,
            r.counts().dom() == codes(word@),
            forall|c: char| #[trigger] tally(r.counts(), c) == occurrences(word@, c),
            r.limit() == DEFAULT_MAX_GUESSES,
            r.history() == Seq::<Seq<char>>::empty(),
            r.feedback() == Seq::<Seq<(char, Mark)>>::empty(),
            r.known() == Set::<char>::empty(),
            r.close() == Set::<char>::empty(),
            r.unused() == Set::<char>::empty(),
            r.status() == GameState::InProgress,
    {
        Grid::with_max_guesses(word, DEFAULT_MAX_GUESSES)
    }

    /// A round at `word` that allows `max_guesses` guesses.
    pub fn with_max_guesses(word: String, max_guesses: usize) -> (r: Grid)
        requires
            forall|c: char| #[trigger] occurrences(word@, c) <= i32::MAX,
        ensures
            r.wf(),
            r.secret() == word@,
            r.counts().dom() == codes(word@),
            forall|c: char| #[trigger] tally(r.counts(), c) == occurrences(word@, c),
            r.limit() == max_guesses,
            r.history() == Seq::<Seq<char>>::empty(),
            r.feedback() == Seq::<Seq<(char, Mark)>>::empty(),
            r.known() == Set::<char>::empty(),
            r.close() == Set::<char>::empty(),
            r.unused() == Set::<char>::empty(),
            r.status() == GameState::InProgress,
    {
        let letters = letters_of(word.as_str());
        let mut char_counts = Counter::new();
        char_counts.add_vec(&letters);
        let r = Grid {
            word,
            letters,
            max_guesses,
            guesses: Vec::new(),
            known_chars: LetterSet::new(),
            close_chars: LetterSet::new(),
            unused_chars: LetterSet::new(),
            char_counts,
            rows: Vec::new(),
            state: GameState::InProgress,
        };
        assert(r.history() =~= Seq::<Seq<char>>::empty());
        assert(r.feedback() =~= Seq::<Seq<(char, Mark)>>::empty());
        r
    }

    /// Makes a guess of the same length as the word, and says where the round
    /// stands after it.
    pub fn guess(&mut self, guess: &str) -> (r: GameState)
        requires
            old(self).wf(),
            old(self).status() == GameState::InProgress,
            guess@.len() == old(self).secret().len(),
        ensures
            final(self).wf(),
            final(self).secret() == old(self).secret(),
            final(self).limit() == old(self).limit(),
            final(self).history() == old(self).history().push(guess@),
            final(self).feedback() == old(self).feedback().push(
                classify(old(self).secret(), guess@),
            ),
            final(self).known() == next_known(old(self).known(), old(self).secret(), guess@),
            final(self).close() == next_close(
                old(self).known(),
                old(self).close(),
                old(self).secret(),
                guess@,
            ),
            final(self).unused() == next_unused(
                old(self).known(),
                old(self).close(),
                old(self).unused(),
                old(self).secret(),
                guess@,
            ),
            final(self).counts() == old(self).counts(),
            old(self).known().subset_of(final(self).known()),
            forall|c: char|
                #[trigger] old(self).close().contains(c) ==> final(self).close().contains(c)
                    || final(self).known().contains(c),
            forall|c: char|
                #[trigger] old(self).unused().contains(c) ==> final(self).unused().contains(c)
                    || final(self).close().contains(c) || final(self).known().contains(c),
            r == outcome(old(self).secret(), guess@, final(self).history().len(), old(self).limit()),
            final(self).status() == r,
    {
        let attempt = guess.to_string();
        let letters = letters_of(guess);
        let won = self.word == attempt;
        self.guesses.push(attempt);
        self.compute_renderables(&letters);
        let r = if won {
            GameState::Won
        } else if self.guesses.len() >= self.max_guesses {
            GameState::Lost
        } else {
            GameState::InProgress
        };
        self.state = r;
        assert(self.history() =~= old(self).history().push(guess@));
        proof {
            lemma_knowledge_only_upgrades(
                old(self).known(),
                old(self).close(),
                old(self).unused(),
                old(self).secret(),
                guess@,
            );
        }
        r
    }

    /// Marks `guess` against the word, records the marks and updates the sets.
    fn compute_renderables(&mut self, guess: &Vec<char>)
        requires
            old(self).wf(),
            guess@.len() == old(self).word@.len(),
        ensures
            final(self).wf(),
            final(self).word == old(self).word,
            final(self).max_guesses == old(self).max_guesses,
            final(self).guesses == old(self).guesses,
            final(self).state == old(self).state,
            final(self).char_counts@ == old(self).char_counts@,
            final(self).feedback() == old(self).feedback().push(classify(old(self).word@, guess@)),
            final(self).known() == next_known(old(self).known(), old(self).word@, guess@),
            final(self).close() == next_close(
                old(self).known(),
                old(self).close(),
                old(self).word@,
                guess@,
            ),
            final(self).unused() == next_unused(
                old(self).known(),
                old(self).close(),
                old(self).unused(),
                old(self).word@,
                guess@,
            ),
    {
        let row = evaluate(
            &self.letters,
            &self.char_counts,
            guess,
            &mut self.known_chars,
            &mut self.close_chars,
            &mut self.unused_chars,
        );
        self.rows.push(row);
        proof {
            lemma_knowledge_disjoint(
                old(self).known(),
                old(self).close(),
                old(self).unused(),
                old(self).word@,
                guess@,
            );
        }
        assert(self.feedback() =~= old(self).feedback().push(classify(old(self).word@, guess@)));
    }

    /// The secret word.
    pub fn word(&self) -> (r: &String)
        ensures
            r@ == self.secret(),
    {
        &self.word
    }

    /// How many guesses the round allows.
    pub fn max_guesses(&self) -> (r: usize)
        ensures
            r == self.limit(),
    {
        self.max_guesses
    }

    /// The guesses made so far.
    pub fn guesses(&self) -> (r: &Vec<String>)
        ensures
            r@.map_values(|s: String| s@) == self.history(),
    {
        &self.guesses
    }

    /// The marked letters of each guess so far.
    pub fn rows(&self) -> (r: &Vec<Vec<(char, Mark)>>)
        ensures
            r@.map_values(|row: Vec<(char, Mark)>| row@) == self.feedback(),
    {
        &self.rows
    }

    /// Letters found in their right place. Reading it changes nothing, so two
    /// reads with no guess between them agree.
    pub fn known_chars(&self) -> (r: &LetterSet)
        ensures
            r@ == self.known(),
    {
        &self.known_chars
    }

    /// Letters found in the word but never yet in their right place.
    pub fn close_chars(&self) -> (r: &LetterSet)
        ensures
            r@ == self.close(),
    {
        &self.close_chars
    }

    /// Letters found absent from the word.
    pub fn unused_chars(&self) -> (r: &LetterSet)
        ensures
            r@ == self.unused(),
    {
        &self.unused_chars
    }

    /// Where the round stands.
    pub fn state(&self) -> (r: GameState)
        ensures
            r == self.status(),
    {
        self.state
    }
}

/// After any guess, whatever the sets held before, no letter lies in two of the
/// known, close and unused sets.
pub proof fn lemma_knowledge_disjoint(
    known: Set<char>,
    close: Set<char>,
    unused: Set<char>,
    w: Seq<char>,
    g: Seq<char>,
)
    ensures
        pairwise_disjoint(
            next_known(known, w, g),
            next_close(known, close, w, g),
            next_unused(known, close, unused, w, g),
        ),
{
}

/// A guess only moves letters upward: a known letter stays known, a close letter
/// stays close or becomes known, and an unused letter stays in one of the three sets.
pub proof fn lemma_knowledge_only_upgrades(
    known: Set<char>,
    close: Set<char>,
    unused: Set<char>,
    w: Seq<char>,
    g: Seq<char>,
)
    ensures
        known.subset_of(next_known(known, w, g)),
        forall|c: char|
            close.contains(c) ==> next_known(known, w, g).contains(c) || next_close(
                known,
                close,
                w,
                g,
            ).contains(c),
        forall|c: char|
            unused.contains(c) ==> next_known(known, w, g).contains(c) || next_close(
                known,
                close,
                w,
                g,
            ).contains(c) || next_unused(known, close, unused, w, g).contains(c),
{
}

/// Guessing the word itself places every letter, with nothing oversupplied.
proof fn lemma_self_counts(w: Seq<char>, c: char, n: int)
    requires
        0 <= n <= w.len(),
    ensures
        placed_upto(w, w, c, n) == occurrences_upto(w, c, n),
        misplaced_upto(w, w, c, n) == 0,
    decreases n,
{
    if n > 0 {
        lemma_self_counts(w, c, n - 1);
    }
}

/// A guess equal to the word marks every letter correct and wins the round,
/// however many guesses it took and whatever the limit.
pub proof fn lemma_exact_guess_wins(w: Seq<char>, made: nat, limit: nat)
    ensures
        forall|i: int| 0 <= i < w.len() ==> #[trigger] mark_at(w, w, i) == Mark::Correct,
        outcome(w, w, made, limit) == GameState::Won,
{
    assert forall|i: int| 0 <= i < w.len() implies #[trigger] mark_at(w, w, i) == Mark::Correct by {
        lemma_self_counts(w, w[i], w.len() as int);
    }
}

} // verus!
