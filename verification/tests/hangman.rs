use cs110l::hangman::{pick_a_random_word, pick_word_at, to_string, Hangman, NUM_INCORRECT_GUESSES};

#[test]
fn to_string_keeps_characters() {
    assert_eq!(to_string(&vec!['a', '-', 'ü']), "a-ü");
    assert_eq!(to_string(&vec![]), "");
}

#[test]
fn word_list_lines_are_trimmed() {
    let contents = "apple\n  banana \r\ncherry\n";
    assert_eq!(pick_word_at(contents, 0), "apple");
    assert_eq!(pick_word_at(contents, 1), "banana");
    assert_eq!(pick_word_at(contents, 2), "cherry");
    assert_eq!(pick_word_at(contents, 3), "");
}

#[test]
fn random_word_comes_from_the_list() {
    let contents = "red\ngreen\nblue";
    for _ in 0..50 {
        let w = pick_a_random_word(contents);
        assert!(["red", "green", "blue"].contains(&w.as_str()), "{}", w);
    }
    assert_eq!(pick_a_random_word("only"), "only");
}

#[test]
fn guesses_reveal_letters() {
    let mut g = Hangman::new("apple");
    assert_eq!(g.word_so_far(), "-----");
    assert_eq!(g.chances_left(), NUM_INCORRECT_GUESSES);
    assert!(g.guess('p'));
    assert_eq!(g.word_so_far(), "-pp--");
    assert!(!g.won());
    assert!(!g.guess('z'));
    assert_eq!(g.chances_left(), NUM_INCORRECT_GUESSES - 1);
    assert_eq!(g.guessed_letters(), "pz");
    assert!(g.guess('a'));
    assert!(g.guess('l'));
    assert!(!g.won());
    assert!(g.guess('e'));
    assert_eq!(g.word_so_far(), "apple");
    assert!(g.won());
}

#[test]
fn five_misses_lose() {
    let mut g = Hangman::new("ok");
    for c in ['a', 'b', 'c', 'd'] {
        assert!(g.can_guess(c));
        g.guess(c);
        assert!(!g.lost());
    }
    g.guess('e');
    assert!(g.lost());
    assert!(!g.can_guess('o'));
    assert_eq!(g.word_so_far(), "--");
}

#[test]
fn repeated_guess_counts_letters_again() {
    let mut g = Hangman::new("ab");
    g.guess('a');
    assert!(!g.won());
    g.guess('a');
    assert!(g.won());
    assert_eq!(g.word_so_far(), "a-");
    let mut h = Hangman::new("aab");
    h.guess('a');
    assert!(!h.can_guess('a'));
}

#[test]
fn empty_word() {
    let mut g = Hangman::new("");
    assert!(g.won());
    assert!(!g.guess('x'));
    assert_eq!(g.chances_left(), NUM_INCORRECT_GUESSES - 1);
}
