use std::collections::HashSet;
use wordle::counter::Counter;
use wordle::game::{evaluate, GameState, Grid, Mark, DEFAULT_MAX_GUESSES};
use wordle::letters::LetterSet;

fn set_of(s: &LetterSet) -> HashSet<char> {
    s.to_vec().into_iter().collect()
}

fn chars(s: &str) -> HashSet<char> {
    s.chars().collect()
}

fn marks(grid: &Grid, row: usize) -> Vec<Mark> {
    grid.rows()[row].iter().map(|p| p.1).collect()
}

fn counter_of(word: &str) -> Counter {
    let mut counter = Counter::new();
    counter.add_vec(&word.chars().collect());
    counter
}

#[test]
fn duplicate_letters_abbey_babel() {
    let mut grid = Grid::new(String::from("ABBEY"));
    let state = grid.guess("BABEL");
    assert_eq!(state, GameState::InProgress);
    assert_eq!(
        marks(&grid, 0),
        vec![Mark::CloseMatch, Mark::CloseMatch, Mark::Correct, Mark::Correct, Mark::Absent]
    );
    let letters: Vec<char> = grid.rows()[0].iter().map(|p| p.0).collect();
    assert_eq!(letters, vec!['B', 'A', 'B', 'E', 'L']);
    assert_eq!(set_of(grid.known_chars()), chars("BE"));
    assert_eq!(set_of(grid.close_chars()), chars("A"));
    assert_eq!(set_of(grid.unused_chars()), chars("L"));
}

#[test]
fn placed_letter_claims_before_misplaced_copy() {
    // The placed O claims the only O of the word before the misplaced O is seen.
    let mut grid = Grid::new(String::from("ERROR"));
    grid.guess("ROBOT");
    assert_eq!(
        marks(&grid, 0),
        vec![Mark::CloseMatch, Mark::Absent, Mark::Absent, Mark::Correct, Mark::Absent]
    );
    assert_eq!(set_of(grid.known_chars()), chars("O"));
    assert_eq!(set_of(grid.close_chars()), chars("R"));
    assert_eq!(set_of(grid.unused_chars()), chars("BT"));
}

#[test]
fn oversupplied_when_word_holds_more() {
    let mut grid = Grid::new(String::from("ABBEY"));
    grid.guess("ABCDE");
    assert_eq!(
        marks(&grid, 0),
        vec![
            Mark::Correct,
            Mark::CorrectOversupplied,
            Mark::Absent,
            Mark::Absent,
            Mark::CloseMatch
        ]
    );
}

#[test]
fn oversupply_cleared_by_misplaced_copy() {
    // The spare B is accounted for by the misplaced B at the end.
    let mut grid = Grid::new(String::from("ABBEY"));
    grid.guess("ABXXB");
    assert_eq!(
        marks(&grid, 0),
        vec![Mark::Correct, Mark::Correct, Mark::Absent, Mark::Absent, Mark::CloseMatch]
    );
}

#[test]
fn exact_guess_wins_with_all_correct() {
    let mut grid = Grid::new(String::from("LEVEL"));
    let state = grid.guess("LEVEL");
    assert_eq!(state, GameState::Won);
    assert_eq!(grid.state(), GameState::Won);
    assert!(marks(&grid, 0).iter().all(|m| *m == Mark::Correct));
    assert_eq!(set_of(grid.known_chars()), chars("LEV"));
    assert!(set_of(grid.close_chars()).is_empty());
    assert!(set_of(grid.unused_chars()).is_empty());
}

#[test]
fn lost_after_default_limit() {
    let mut grid = Grid::new(String::from("CRANE"));
    assert_eq!(grid.max_guesses(), DEFAULT_MAX_GUESSES);
    assert_eq!(DEFAULT_MAX_GUESSES, 5);
    for _ in 0..4 {
        assert_eq!(grid.guess("SLOTH"), GameState::InProgress);
    }
    assert_eq!(grid.guess("SLOTH"), GameState::Lost);
    assert_eq!(grid.state(), GameState::Lost);
    assert_eq!(grid.guesses().len(), 5);
}

#[test]
fn win_on_last_allowed_guess() {
    let mut grid = Grid::new(String::from("CRANE"));
    for _ in 0..4 {
        assert_eq!(grid.guess("SLOTH"), GameState::InProgress);
    }
    assert_eq!(grid.guess("CRANE"), GameState::Won);
}

#[test]
fn custom_limit() {
    let mut grid = Grid::with_max_guesses(String::from("CRANE"), 2);
    assert_eq!(grid.guess("SLOTH"), GameState::InProgress);
    assert_eq!(grid.guess("CRATE"), GameState::Lost);
    assert_eq!(grid.word(), "CRANE");
}

#[test]
fn sets_stay_disjoint_across_guesses() {
    let mut grid = Grid::new(String::from("ABBEY"));
    for g in ["BABEL", "YEABB", "ABBOT", "KEBAB"] {
        grid.guess(g);
        let k = set_of(grid.known_chars());
        let c = set_of(grid.close_chars());
        let u = set_of(grid.unused_chars());
        assert!(k.is_disjoint(&c));
        assert!(k.is_disjoint(&u));
        assert!(c.is_disjoint(&u));
    }
}

#[test]
fn known_letters_never_leave() {
    let mut grid = Grid::new(String::from("ABBEY"));
    grid.guess("YEABB");
    assert_eq!(set_of(grid.close_chars()), chars("YEAB"));
    assert!(set_of(grid.known_chars()).is_empty());
    grid.guess("ABXXX");
    assert_eq!(set_of(grid.known_chars()), chars("AB"));
    assert_eq!(set_of(grid.close_chars()), chars("YE"));
    assert_eq!(set_of(grid.unused_chars()), chars("X"));
    let before = set_of(grid.known_chars());
    grid.guess("XXXXX");
    assert!(before.is_subset(&set_of(grid.known_chars())));
    assert_eq!(set_of(grid.close_chars()), chars("YE"));
}

#[test]
fn accessors_read_the_same_twice() {
    let mut grid = Grid::new(String::from("ABBEY"));
    grid.guess("BABEL");
    assert_eq!(set_of(grid.known_chars()), set_of(grid.known_chars()));
    assert_eq!(set_of(grid.close_chars()), set_of(grid.close_chars()));
    assert_eq!(set_of(grid.unused_chars()), set_of(grid.unused_chars()));
    assert_eq!(grid.state(), grid.state());
}

#[test]
fn history_is_kept() {
    let mut grid = Grid::new(String::from("ABBEY"));
    grid.guess("BABEL");
    grid.guess("ABBOT");
    assert_eq!(grid.guesses(), &vec![String::from("BABEL"), String::from("ABBOT")]);
    assert_eq!(grid.rows().len(), 2);
}

#[test]
fn empty_word_matches_empty_guess() {
    let mut grid = Grid::new(String::new());
    assert_eq!(grid.guess(""), GameState::Won);
    assert!(grid.rows()[0].is_empty());
}

#[test]
fn evaluate_folds_into_given_sets() {
    let secret: Vec<char> = "ABBEY".chars().collect();
    let guess: Vec<char> = "BABEL".chars().collect();
    let counts = counter_of("ABBEY");
    let mut known = LetterSet::new();
    let mut close = LetterSet::new();
    let mut unused = LetterSet::new();
    close.insert('E');
    unused.insert('A');
    let row = evaluate(&secret, &counts, &guess, &mut known, &mut close, &mut unused);
    assert_eq!(
        row,
        vec![
            ('B', Mark::CloseMatch),
            ('A', Mark::CloseMatch),
            ('B', Mark::Correct),
            ('E', Mark::Correct),
            ('L', Mark::Absent)
        ]
    );
    assert_eq!(set_of(&known), chars("BE"));
    assert_eq!(set_of(&close), chars("A"));
    assert_eq!(set_of(&unused), chars("L"));
}

#[test]
fn counter_counts_each_letter() {
    let counter = counter_of("ERROR");
    let counts = counter.clone_counts();
    assert_eq!(counts.len(), 3);
    assert_eq!(counts[&('E' as u32)], 1);
    assert!(!counts.contains_key(&('A' as u32)));
    assert_eq!(counts[&('R' as u32)], 3);
    assert_eq!(counts[&('O' as u32)], 1);
}

#[test]
fn counter_adds_to_earlier_counts() {
    let mut counter = counter_of("AB");
    counter.add_vec(&vec!['B', 'C']);
    let counts = counter.clone_counts();
    assert_eq!(counts[&('A' as u32)], 1);
    assert_eq!(counts[&('B' as u32)], 2);
    assert_eq!(counts[&('C' as u32)], 1);
    assert_eq!(counts.len(), 3);
}

#[test]
fn counter_unchanged_by_nothing() {
    let mut counter = counter_of("ABBEY");
    let before = counter.clone_counts();
    counter.add_vec(&Vec::new());
    assert_eq!(counter.clone_counts(), before);
}

#[test]
fn counter_adding_in_two_parts_matches_adding_at_once() {
    let mut parts = counter_of("ABB");
    parts.add_vec(&vec!['E', 'Y', 'B']);
    let whole = counter_of("ABBEYB");
    assert_eq!(parts.clone_counts(), whole.clone_counts());
}

#[test]
fn counter_of_nothing_is_empty() {
    let counter = counter_of("");
    assert!(counter.clone_counts().is_empty());
}

#[test]
fn letter_set_operations() {
    let mut a = LetterSet::new();
    for c in "ABCA".chars() {
        a.insert(c);
    }
    let mut b = LetterSet::new();
    b.insert('B');
    b.insert('D');
    assert!(a.contains('A'));
    assert!(!a.contains('D'));
    assert_eq!(set_of(&a), chars("ABC"));
    assert_eq!(set_of(&a.difference(&b)), chars("AC"));
    assert_eq!(set_of(&a.union(&b)), chars("ABCD"));
}

#[test]
fn letters_of_non_ascii() {
    let mut grid = Grid::new(String::from("ÉTÉ"));
    assert_eq!(grid.guess("TÉÉ"), GameState::InProgress);
    assert_eq!(marks(&grid, 0), vec![Mark::CloseMatch, Mark::CloseMatch, Mark::Correct]);
}
