//! The hangman game: choosing the secret word from a word list, and the rules
//! by which guesses reveal it.
use vstd::prelude::*;
use crate::text::{chars_of, pieces, split_at_char, string_from_chars, trim, trim_chars};
use rand::Rng;

verus! {

/// The number of wrong guesses a player may make.
pub const NUM_INCORRECT_GUESSES: u32 = 5;

/// The characters of `vec` as a `String`.
pub fn to_string(vec: &Vec<char>) -> (r: String)
    ensures
        r@ == vec@,
{
    string_from_chars(vec.as_slice())
}

/// The words of a word list: its lines (split at `'\n'`), each trimmed.
pub open spec fn word_list(contents: Seq<char>) -> Seq<Seq<char>> {
    pieces(contents, '\n').map_values(|line: Seq<char>| trim(line))
}

/// The word on line `index` of the word list `contents`, trimmed.
pub fn pick_word_at(contents: &str, index: usize) -> (r: String)
    requires
        index < pieces(contents@, '\n').len(),
    ensures
        r@ == word_list(contents@)[index as int],
{
    let chars = chars_of(contents);
    let lines = split_at_char(&chars, '\n');
    assert(lines@.map_values(|p: Vec<char>| p@)[index as int] == lines@[index as int]@);
    trim_chars(&lines[index])
}

/// `rand::thread_rng().gen_range(0, len)`: rand 0.7 documents that
/// `gen_range(low, high)` samples a value in `[low, high)` and panics when
/// `low >= high`. Which value comes is left unsaid: it is random.
#[verifier::external_body]
fn random_index(len: usize) -> (r: usize)
    requires
        len > 0,
    ensures
        r < len,
{
    rand::thread_rng().gen_range(0, len)
}

/// A word of the word list `contents`, chosen at random.
pub fn pick_a_random_word(contents: &str) -> (r: String)
    ensures
        exists|i: int| 0 <= i < word_list(contents@).len() && r@ == word_list(contents@)[i],
{
    let chars = chars_of(contents);
    let lines = split_at_char(&chars, '\n');
    let index = random_index(lines.len());
    let r = pick_word_at(contents, index);
    assert(r@ == word_list(contents@)[index as int]);
    r
}

/// The number of times `c` occurs in `s`.
pub open spec fn occurrences(s: Seq<char>, c: char) -> nat
    decreases s.len(),
{
    if s.len() == 0 {
        0
    } else {
        occurrences(s.drop_last(), c) + if s.last() == c {
            1nat
        } else {
            0nat
        }
    }
}

/// The total, over the guesses in order, of how many letters of `secret` each
/// guess matched.
pub open spec fn matched_total(secret: Seq<char>, guesses: Seq<char>) -> nat
    decreases guesses.len(),
{
    if guesses.len() == 0 {
        0
    } else {
        matched_total(secret, guesses.drop_last()) + occurrences(secret, guesses.last())
    }
}

/// The number of guesses that matched no letter of `secret`.
pub open spec fn misses(secret: Seq<char>, guesses: Seq<char>) -> nat
    decreases guesses.len(),
{
    if guesses.len() == 0 {
        0
    } else {
        misses(secret, guesses.drop_last()) + if secret.contains(guesses.last()) {
            0nat
        } else {
            1nat
        }
    }
}

/// The word as the player sees it: each letter that was guessed, and `-` for
/// the others.
pub open spec fn masked(secret: Seq<char>, guesses: Seq<char>) -> Seq<char> {
    Seq::new(
        secret.len(),
        |i: int|
            if guesses.contains(secret[i]) {
                secret[i]
            } else {
                '-'
            },
    )
}

/// A game of hangman.
pub struct Hangman {
    secret: Vec<char>,
    revealed: Vec<char>,
    guessed: Vec<char>,
    chances: u32,
    unrevealed: usize,
}

/// The mathematical value of a [`Hangman`] game.
pub struct HangmanView {
    pub secret: Seq<char>,
    pub revealed: Seq<char>,
    pub guessed: Seq<char>,
    pub chances: nat,
    pub unrevealed: nat,
}

impl View for Hangman {
    type V = HangmanView;

    closed spec fn view(&self) -> HangmanView {
        HangmanView {
            secret: self.secret@,
            revealed: self.revealed@,
            guessed: self.guessed@,
            chances: self.chances as nat,
            unrevealed: self.unrevealed as nat,
        }
    }
}

impl HangmanView {
    /// The rules hold of the game so far: the word shows exactly the guessed
    /// letters, every miss cost one chance, and the count of letters still to
    /// find went down by one for each letter that each guess matched.
    pub open spec fn wf(self) -> bool {
        &&& self.revealed == masked(self.secret, self.guessed)
        &&& self.chances + misses(self.secret, self.guessed) == NUM_INCORRECT_GUESSES
        &&& self.unrevealed + matched_total(self.secret, self.guessed) == self.secret.len()
    }

    /// A guess of `letter` can be taken: a chance is left, the count of
    /// letters to find does not drop below zero, and the list of guesses has
    /// room.
    pub open spec fn can_guess(self, letter: char) -> bool {
        &&& self.chances > 0
        &&& occurrences(self.secret, letter) <= self.unrevealed
        &&& self.guessed.len() < usize::MAX
    }
}

/// Counting occurrences in a prefix, one position further.
proof fn lemma_occurrences_step(s: Seq<char>, i: int, c: char)
    requires
        0 <= i < s.len(),
    ensures
        occurrences(s.take(i + 1), c) == occurrences(s.take(i), c) + if s[i] == c {
            1nat
        } else {
            0nat
        },
        occurrences(s.take(i), c) <= occurrences(s, c),
    decreases s.len(),
{
    assert(s.take(i + 1).drop_last() =~= s.take(i));
    lemma_occurrences_prefix(s, i, c);
}

proof fn lemma_occurrences_prefix(s: Seq<char>, i: int, c: char)
    requires
        0 <= i <= s.len(),
    ensures
        occurrences(s.take(i), c) <= occurrences(s, c),
    decreases s.len(),
{
    if i < s.len() {
        lemma_occurrences_prefix(s.drop_last(), i, c);
        assert(s.drop_last().take(i) =~= s.take(i));
    } else {
        assert(s.take(i) =~= s);
    }
}

/// The number of letters of `secret` that no guess has matched.
pub open spec fn hidden(secret: Seq<char>, guesses: Seq<char>) -> nat
    decreases secret.len(),
{
    if secret.len() == 0 {
        0
    } else {
        hidden(secret.drop_last(), guesses) + if guesses.contains(secret.last()) {
            0nat
        } else {
            1nat
        }
    }
}

proof fn lemma_hidden_none_guessed(secret: Seq<char>)
    ensures
        hidden(secret, Seq::empty()) == secret.len(),
    decreases secret.len(),
{
    if secret.len() > 0 {
        lemma_hidden_none_guessed(secret.drop_last());
    }
}

proof fn lemma_hidden_new_guess(secret: Seq<char>, guesses: Seq<char>, g: char)
    requires
        !guesses.contains(g),
    ensures
        hidden(secret, guesses) == hidden(secret, guesses.push(g)) + occurrences(secret, g),
    decreases secret.len(),
{
    if secret.len() > 0 {
        lemma_hidden_new_guess(secret.drop_last(), guesses, g);
        let c = secret.last();
        let g2 = guesses.push(g);
        assert(g2.contains(c) <==> (guesses.contains(c) || c == g)) by {
            if g2.contains(c) {
                let k = choose|k: int| 0 <= k < g2.len() && g2[k] == c;
                if k < guesses.len() {
                    assert(guesses[k] == c);
                }
            }
            if guesses.contains(c) {
                let k = choose|k: int| 0 <= k < guesses.len() && guesses[k] == c;
                assert(g2[k] == c);
            }
            if c == g {
                assert(g2[g2.len() - 1] == c);
            }
        }
    }
}

proof fn lemma_matched_plus_hidden(secret: Seq<char>, guesses: Seq<char>)
    requires
        guesses.no_duplicates(),
    ensures
        matched_total(secret, guesses) + hidden(secret, guesses) == secret.len(),
    decreases guesses.len(),
{
    if guesses.len() == 0 {
        lemma_hidden_none_guessed(secret);
        assert(guesses =~= Seq::<char>::empty());
    } else {
        let prev = guesses.drop_last();
        let g = guesses.last();
        assert(prev.no_duplicates());
        assert(!prev.contains(g)) by {
            if prev.contains(g) {
                let k = choose|k: int| 0 <= k < prev.len() && prev[k] == g;
                assert(guesses[k] == guesses[guesses.len() - 1]);
            }
        }
        lemma_matched_plus_hidden(secret, prev);
        lemma_hidden_new_guess(secret, prev, g);
        assert(prev.push(g) =~= guesses);
        assert(hidden(secret, guesses) == hidden(secret, prev) - occurrences(secret, g));
    }
}

proof fn lemma_hidden_zero(secret: Seq<char>, guesses: Seq<char>)
    ensures
        hidden(secret, guesses) == 0 <==> forall|i: int|
            0 <= i < secret.len() ==> guesses.contains(#[trigger] secret[i]),
    decreases secret.len(),
{
    if secret.len() > 0 {
        let prev = secret.drop_last();
        lemma_hidden_zero(prev, guesses);
        if hidden(secret, guesses) == 0 {
            assert forall|i: int| 0 <= i < secret.len() implies guesses.contains(
                #[trigger] secret[i],
            ) by {
                if i < prev.len() {
                    assert(prev[i] == secret[i]);
                }
            }
        }
        if forall|i: int| 0 <= i < secret.len() ==> guesses.contains(#[trigger] secret[i]) {
            assert forall|i: int| 0 <= i < prev.len() implies guesses.contains(
                #[trigger] prev[i],
            ) by {
                assert(prev[i] == secret[i]);
            }
            assert(guesses.contains(secret[secret.len() - 1]));
        }
    }
}

/// When no letter has been guessed twice, the count of letters still to find
/// is the number of letters of the word that no guess matched; so the game is
/// won exactly when every letter of the word has been guessed, and then the
/// word shows in full.
pub proof fn lemma_won_iff_all_found(game: HangmanView)
    requires
        game.wf(),
        game.guessed.no_duplicates(),
    ensures
        game.unrevealed == hidden(game.secret, game.guessed),
        game.unrevealed == 0 <==> forall|i: int|
            0 <= i < game.secret.len() ==> game.guessed.contains(#[trigger] game.secret[i]),
        game.unrevealed == 0 ==> game.revealed == game.secret,
{
    lemma_matched_plus_hidden(game.secret, game.guessed);
    lemma_hidden_zero(game.secret, game.guessed);
    if game.unrevealed == 0 {
        assert(game.revealed =~= game.secret);
    }
}

proof fn lemma_fresh_letter_is_hidden(secret: Seq<char>, guesses: Seq<char>, letter: char)
    requires
        !guesses.contains(letter),
    ensures
        occurrences(secret, letter) <= hidden(secret, guesses),
    decreases secret.len(),
{
    if secret.len() > 0 {
        lemma_fresh_letter_is_hidden(secret.drop_last(), guesses, letter);
    }
}

/// A player with a chance left may always guess: any game whose rules hold
/// accepts a guess while at least one chance is left, as long as the letter's
/// occurrences do not exceed the letters still to find and there is room for
/// one more guess; the last chance included.
pub proof fn lemma_guess_allowed_while_chances_left(game: HangmanView, letter: char)
    requires
        game.wf(),
        game.chances >= 1,
        occurrences(game.secret, letter) <= game.unrevealed,
        game.guessed.len() < usize::MAX,
    ensures
        game.can_guess(letter),
{
}

/// When no letter has been guessed twice, any letter not yet guessed can be
/// guessed as long as one chance is left: after `NUM_INCORRECT_GUESSES - 1`
/// misses from a new game the player still has a guess.
pub proof fn lemma_fresh_letter_can_be_guessed(game: HangmanView, letter: char)
    requires
        game.wf(),
        game.guessed.no_duplicates(),
        !game.guessed.contains(letter),
        game.chances >= 1,
        game.guessed.len() < usize::MAX,
    ensures
        game.can_guess(letter),
{
    lemma_won_iff_all_found(game);
    lemma_fresh_letter_is_hidden(game.secret, game.guessed, letter);
}

/// Every miss costs one chance, and nothing else does: the chances left are
/// the allowance less the number of guesses that matched no letter.
pub proof fn lemma_chances_count_misses(game: HangmanView)
    requires
        game.wf(),
    ensures
        game.chances == NUM_INCORRECT_GUESSES - misses(game.secret, game.guessed),
{
}

impl Hangman {
    /// A new game with `secret` to guess: nothing revealed, no guesses, all
    /// chances left.
    pub fn new(secret: &str) -> (r: Hangman)
        ensures
            r@.secret == secret@,
            r@.revealed == Seq::new(secret@.len(), |i: int| '-'),
            r@.guessed == Seq::<char>::empty(),
            r@.chances == NUM_INCORRECT_GUESSES,
            r@.unrevealed == secret@.len(),
            r@.wf(),
    {
        let chars = chars_of(secret);
        let mut revealed: Vec<char> = Vec::new();
        let mut i: usize = 0;
        while i < chars.len()
            invariant
                i <= chars@.len(),
                revealed@ == Seq::new(i as nat, |j: int| '-'),
            decreases chars@.len() - i,
        {
            revealed.push('-');
            assert(revealed@ =~= Seq::new((i + 1) as nat, |j: int| '-'));
            i += 1;
        }
        let n = chars.len();
        let r = Hangman {
            secret: chars,
            revealed,
            guessed: Vec::new(),
            chances: NUM_INCORRECT_GUESSES,
            unrevealed: n,
        };
        assert(r@.revealed =~= masked(r@.secret, r@.guessed));
        r
    }

    /// Guesses `letter`: reveals each of its occurrences, counts each one off
    /// the letters still to find, and costs a chance when there is none.
    /// Returns whether the letter occurs in the word.
    pub fn guess(&mut self, letter: char) -> (hit: bool)
        requires
            old(self)@.wf(),
            old(self)@.can_guess(letter),
        ensures
            final(self)@.wf(),
            hit == old(self)@.secret.contains(letter),
            final(self)@.secret == old(self)@.secret,
            final(self)@.guessed == old(self)@.guessed.push(letter),
            final(self)@.revealed == masked(old(self)@.secret, old(self)@.guessed.push(letter)),
            final(self)@.chances == old(self)@.chances - if hit {
                0int
            } else {
                1int
            },
            final(self)@.unrevealed == old(self)@.unrevealed - occurrences(
                old(self)@.secret,
                letter,
            ),
    {
        let ghost old_view = self@;
        assert(old_view.revealed.len() == old_view.secret.len());
        let mut hit = false;
        let mut index: usize = 0;
        let n = self.secret.len();
        while index < n
            invariant
                n == self.secret@.len() == old_view.secret.len(),
                index <= n,
                self.secret@ == old_view.secret,
                self.guessed@ == old_view.guessed,
                self.chances == old_view.chances,
                self.revealed@.len() == n,
                old_view.revealed.len() == n,
                forall|j: int|
                    0 <= j < index ==> #[trigger] self.revealed@[j] == if self.secret@[j]
                        == letter {
                        letter
                    } else {
                        old_view.revealed[j]
                    },
                forall|j: int| index <= j < n ==> #[trigger] self.revealed@[j] == old_view.revealed[j],
                hit == old_view.secret.take(index as int).contains(letter),
                self.unrevealed + occurrences(self.secret@.take(index as int), letter)
                    == old_view.unrevealed,
                occurrences(old_view.secret, letter) <= old_view.unrevealed,
            decreases n - index,
        {
            proof {
                lemma_occurrences_step(self.secret@, index as int, letter);
                lemma_occurrences_prefix(self.secret@, index + 1, letter);
            }
            let ghost prefix = old_view.secret.take(index as int);
            assert(old_view.secret.take(index + 1) =~= prefix.push(old_view.secret[index as int]));
            if self.secret[index] == letter {
                hit = true;
                self.unrevealed = self.unrevealed - 1;
                self.revealed.set(index, letter);
            }
            proof {
                let next = old_view.secret.take(index + 1);
                if !(old_view.secret[index as int] == letter) {
                    if next.contains(letter) {
                        let k = choose|k: int| 0 <= k < next.len() && next[k] == letter;
                        assert(prefix[k] == letter);
                    }
                } else {
                    assert(next[index as int] == letter);
                }
            }
            index += 1;
        }
        assert(old_view.secret.take(n as int) =~= old_view.secret);
        self.guessed.push(letter);
        if !hit {
            self.chances = self.chances - 1;
        }
        proof {
            let g2 = old_view.guessed.push(letter);
            assert(g2.drop_last() =~= old_view.guessed);
            assert forall|j: int| 0 <= j < n implies #[trigger] self.revealed@[j] == masked(
                old_view.secret,
                g2,
            )[j] by {
                let c = old_view.secret[j];
                assert(g2.contains(c) <==> (old_view.guessed.contains(c) || c == letter)) by {
                    if g2.contains(c) {
                        let k = choose|k: int| 0 <= k < g2.len() && g2[k] == c;
                        if k < old_view.guessed.len() {
                            assert(old_view.guessed[k] == c);
                        }
                    }
                    if old_view.guessed.contains(c) {
                        let k = choose|k: int|
                            0 <= k < old_view.guessed.len() && old_view.guessed[k] == c;
                        assert(g2[k] == c);
                    }
                    if c == letter {
                        assert(g2[g2.len() - 1] == c);
                    }
                }
                assert(old_view.revealed[j] == masked(old_view.secret, old_view.guessed)[j]);
            }
            assert(self.revealed@ =~= masked(old_view.secret, g2));
        }
        hit
    }

    /// The word has been found: no letter is left to find.
    pub fn won(&self) -> (b: bool)
        ensures
            b == (self@.unrevealed == 0),
    {
        self.unrevealed == 0
    }

    /// The player has no chance left.
    pub fn lost(&self) -> (b: bool)
        ensures
            b == (self@.chances == 0),
    {
        self.chances == 0
    }

    /// The chances left.
    pub fn chances_left(&self) -> (r: u32)
        ensures
            r == self@.chances,
    {
        self.chances
    }

    /// The word so far, with `-` for each letter not yet found.
    pub fn word_so_far(&self) -> (r: String)
        ensures
            r@ == self@.revealed,
    {
        to_string(&self.revealed)
    }

    /// The letters guessed so far, in order.
    pub fn guessed_letters(&self) -> (r: String)
        ensures
            r@ == self@.guessed,
    {
        to_string(&self.guessed)
    }

    /// Whether `letter` can be guessed now without breaking the game's count
    /// of letters to find (see [`HangmanView::can_guess`]).
    pub fn can_guess(&self, letter: char) -> (b: bool)
        ensures
            b == self@.can_guess(letter),
    {
        if self.chances == 0 || self.guessed.len() == usize::MAX {
            return false;
        }
        let mut count: usize = 0;
        let mut i: usize = 0;
        while i < self.secret.len()
            invariant
                i <= self.secret@.len(),
                count == occurrences(self.secret@.take(i as int), letter),
                count <= i,
            decreases self.secret@.len() - i,
        {
            proof {
                lemma_occurrences_step(self.secret@, i as int, letter);
            }
            if self.secret[i] == letter {
                count += 1;
            }
            i += 1;
        }
        assert(self.secret@.take(self.secret@.len() as int) =~= self.secret@);
        count <= self.unrevealed
    }
}

} // verus!
