//! Character-level text handling: the characters of a `str`, building a
//! `String` from characters, whitespace splitting, line splitting and trimming,
//! each with the meaning that std gives the operation of the same name.
use vstd::prelude::*;
use vstd::string::axiom_spec_iter;
use vstd::string::next_postcondition;
use std::str::Chars;
use vstd::std_specs::iter::IteratorSpec;

verus! {

/// The characters of `s`, in order.
pub fn chars_of(s: &str) -> (r: Vec<char>)
    ensures
        r@ == s@,
{
    let mut it: Chars = s.chars();
    let mut r: Vec<char> = Vec::new();
    proof {
        broadcast use axiom_spec_iter;
    }
    loop
        invariant
            r@ + it.remaining() == s@,
            it.obeys_prophetic_iter_laws(),
        decreases s@.len() - r@.len(),
    {
        let ghost before = it.remaining();
        proof {
            broadcast use next_postcondition;
        }
        match it.next() {
            Some(c) => {
                r.push(c);
                assert(r@ + it.remaining() =~= s@) by {
                    assert(before =~= seq![c] + it.remaining());
                }
            },
            None => {
                assert(r@ =~= s@);
                return r;
            },
        }
    }
}


/// `String::push`: std documents that it appends the given `char` to the end
/// of the `String`.
#[verifier::external_body]
fn push_char(s: &mut String, c: char)
    ensures
        final(s)@ == old(s)@.push(c),
{
    s.push(c);
}

/// The `String` made of the characters of `v`, in order.
pub fn string_from_chars(v: &[char]) -> (r: String)
    ensures
        r@ == v@,
{
    let mut r = String::new();
    let mut i: usize = 0;
    while i < v.len()
        invariant
            i <= v@.len(),
            r@ == v@.take(i as int),
        decreases v@.len() - i,
    {
        push_char(&mut r, v[i]);
        assert(v@.take(i + 1) =~= v@.take(i as int).push(v@[i as int]));
        i += 1;
    }
    assert(v@.take(v@.len() as int) =~= v@);
    r
}

/// The characters that `char::is_whitespace` accepts: those with the Unicode
/// `White_Space` property.
pub open spec fn is_whitespace(c: char) -> bool {
    let u = c as int;
    ||| 9 <= u <= 13
    ||| u == 32
    ||| u == 0x85
    ||| u == 0xA0
    ||| u == 0x1680
    ||| 0x2000 <= u <= 0x200A
    ||| u == 0x2028
    ||| u == 0x2029
    ||| u == 0x202F
    ||| u == 0x205F
    ||| u == 0x3000
}

/// `char::is_whitespace`.
pub fn char_is_whitespace(c: char) -> (b: bool)
    ensures
        b == is_whitespace(c),
{
    let u = c as u32;
    (9 <= u && u <= 13) || u == 32 || u == 0x85 || u == 0xA0 || u == 0x1680 || (0x2000 <= u && u
        <= 0x200A) || u == 0x2028 || u == 0x2029 || u == 0x202F || u == 0x205F || u == 0x3000
}

/// Reading `s` from the left: the words finished so far, and the word in progress.
pub open spec fn words_state(s: Seq<char>) -> (Seq<Seq<char>>, Seq<char>)
    decreases s.len(),
{
    if s.len() == 0 {
        (Seq::empty(), Seq::empty())
    } else {
        let (done, cur) = words_state(s.drop_last());
        let c = s.last();
        if is_whitespace(c) {
            if cur.len() > 0 {
                (done.push(cur), Seq::empty())
            } else {
                (done, Seq::empty())
            }
        } else {
            (done, cur.push(c))
        }
    }
}

/// The words of `s`, as `str::split_whitespace` yields them: the maximal runs
/// of non-whitespace characters, in order.
pub open spec fn words(s: Seq<char>) -> Seq<Seq<char>> {
    let (done, cur) = words_state(s);
    if cur.len() > 0 {
        done.push(cur)
    } else {
        done
    }
}

/// Every word is non-empty and holds no whitespace, and the word in progress
/// holds no whitespace.
pub proof fn lemma_words_state_shape(s: Seq<char>)
    ensures
        forall|k: int|
            0 <= k < words_state(s).0.len() ==> (#[trigger] words_state(s).0[k]).len() > 0,
        forall|k: int, j: int|
            0 <= k < words_state(s).0.len() && 0 <= j < words_state(s).0[k].len()
                ==> !is_whitespace(#[trigger] words_state(s).0[k][j]),
        forall|j: int|
            0 <= j < words_state(s).1.len() ==> !is_whitespace(#[trigger] words_state(s).1[j]),
    decreases s.len(),
{
    if s.len() > 0 {
        lemma_words_state_shape(s.drop_last());
        let (done, cur) = words_state(s.drop_last());
        let c = s.last();
        if is_whitespace(c) && cur.len() > 0 {
            let nd = done.push(cur);
            assert(words_state(s).0 == nd);
            assert forall|k: int| 0 <= k < nd.len() implies (#[trigger] nd[k]).len() > 0 by {
                if k < done.len() {
                    assert(nd[k] == done[k]);
                }
            }
            assert forall|k: int, j: int| 0 <= k < nd.len() && 0 <= j < nd[k].len() implies !is_whitespace(
                #[trigger] nd[k][j],
            ) by {
                if k < done.len() {
                    assert(nd[k] == done[k]);
                }
            }
        } else if !is_whitespace(c) {
            let nc = cur.push(c);
            assert(words_state(s).1 == nc);
            assert forall|j: int| 0 <= j < nc.len() implies !is_whitespace(#[trigger] nc[j]) by {
                if j < cur.len() {
                    assert(nc[j] == cur[j]);
                }
            }
        }
    }
}

/// The words of a text are non-empty and hold no whitespace.
pub proof fn lemma_words_shape(s: Seq<char>)
    ensures
        forall|k: int| 0 <= k < words(s).len() ==> (#[trigger] words(s)[k]).len() > 0,
        forall|k: int, j: int|
            0 <= k < words(s).len() && 0 <= j < words(s)[k].len() ==> !is_whitespace(
                #[trigger] words(s)[k][j],
            ),
{
    lemma_words_state_shape(s);
}

/// A text made only of whitespace has no words.
pub proof fn lemma_blank_has_no_words(s: Seq<char>)
    requires
        forall|i: int| 0 <= i < s.len() ==> is_whitespace(#[trigger] s[i]),
    ensures
        words(s).len() == 0,
        words_state(s).0.len() == 0,
        words_state(s).1.len() == 0,
    decreases s.len(),
{
    if s.len() > 0 {
        lemma_blank_has_no_words(s.drop_last());
    }
}

proof fn lemma_no_words_is_blank(s: Seq<char>)
    requires
        words_state(s).0.len() == 0,
        words_state(s).1.len() == 0,
    ensures
        forall|i: int| 0 <= i < s.len() ==> is_whitespace(#[trigger] s[i]),
    decreases s.len(),
{
    if s.len() > 0 {
        let prev = s.drop_last();
        let (done, cur) = words_state(prev);
        assert(is_whitespace(s.last()));
        assert(cur.len() == 0);
        assert(done.len() == 0);
        lemma_no_words_is_blank(prev);
        assert forall|i: int| 0 <= i < s.len() implies is_whitespace(#[trigger] s[i]) by {
            if i < prev.len() {
                assert(prev[i] == s[i]);
            }
        }
    }
}

proof fn lemma_trim_start_blank(s: Seq<char>)
    ensures
        trim_start(s).len() == 0 <==> forall|i: int| 0 <= i < s.len() ==> is_whitespace(
            #[trigger] s[i],
        ),
        trim_start(s).len() > 0 ==> !is_whitespace(trim_start(s)[0]),
    decreases s.len(),
{
    if s.len() > 0 && is_whitespace(s[0]) {
        let rest = s.drop_first();
        lemma_trim_start_blank(rest);
        if forall|i: int| 0 <= i < rest.len() ==> is_whitespace(#[trigger] rest[i]) {
            assert forall|i: int| 0 <= i < s.len() implies is_whitespace(#[trigger] s[i]) by {
                if i > 0 {
                    assert(s[i] == rest[i - 1]);
                }
            }
        }
        if forall|i: int| 0 <= i < s.len() ==> is_whitespace(#[trigger] s[i]) {
            assert forall|i: int| 0 <= i < rest.len() implies is_whitespace(#[trigger] rest[i]) by {
                assert(rest[i] == s[i + 1]);
            }
        }
    }
}

proof fn lemma_trim_end_keeps_first(s: Seq<char>)
    requires
        s.len() > 0,
        !is_whitespace(s[0]),
    ensures
        trim_end(s).len() > 0,
    decreases s.len(),
{
    if is_whitespace(s.last()) {
        lemma_trim_end_keeps_first(s.drop_last());
    }
}

/// A line is blank (nothing is left after trimming it) exactly when it has no
/// words.
pub proof fn lemma_blank_iff_no_words(s: Seq<char>)
    ensures
        trim(s).len() == 0 <==> words(s).len() == 0,
{
    lemma_trim_start_blank(s);
    lemma_words_state_shape(s);
    if trim_start(s).len() > 0 {
        lemma_trim_end_keeps_first(trim_start(s));
    }
    if forall|i: int| 0 <= i < s.len() ==> is_whitespace(#[trigger] s[i]) {
        lemma_blank_has_no_words(s);
    }
    if words(s).len() == 0 {
        let (done, cur) = words_state(s);
        assert(cur.len() == 0);
        lemma_no_words_is_blank(s);
    }
}

/// A character that is part of a word.
pub open spec fn is_word_char(c: char) -> bool {
    !is_whitespace(c)
}

proof fn lemma_words_state_keep_all(s: Seq<char>)
    ensures
        words_state(s).0.flatten() + words_state(s).1 == s.filter(|c: char| is_word_char(c)),
        words_state(s).1.len() > 0 <==> (s.len() > 0 && is_word_char(s.last())),
    decreases s.len(),
{
    broadcast use Seq::lemma_filter_push, Seq::lemma_flatten_push;

    if s.len() == 0 {
        assert(s.filter(|c: char| is_word_char(c)) =~= Seq::<char>::empty()) by {
            reveal(Seq::filter);
        }
        assert(Seq::<Seq<char>>::empty().flatten() =~= Seq::<char>::empty());
    } else {
        let prev = s.drop_last();
        let c = s.last();
        lemma_words_state_keep_all(prev);
        assert(prev.push(c) =~= s);
        let (done, cur) = words_state(prev);
        if is_whitespace(c) {
            if cur.len() > 0 {
                assert(done.push(cur).flatten() == done.flatten() + cur);
            }
            assert(done.flatten() + cur + Seq::<char>::empty() =~= done.flatten() + cur);
        } else {
            assert(done.flatten() + cur.push(c) =~= (done.flatten() + cur).push(c));
        }
    }
}

/// No character of a line is lost or added by splitting it: the words, put
/// back together in order, are exactly the line's non-whitespace characters.
pub proof fn lemma_words_keep_all_characters(s: Seq<char>)
    ensures
        words(s).flatten() == s.filter(|c: char| is_word_char(c)),
{
    broadcast use Seq::lemma_flatten_push;

    lemma_words_state_keep_all(s);
    let (done, cur) = words_state(s);
    if cur.len() == 0 {
        assert(done.flatten() + cur =~= done.flatten());
    }
}

/// Position `i` of `s` begins a word: a non-whitespace character at the start
/// of the text or just after whitespace.
pub open spec fn starts_word(s: Seq<char>, i: int) -> bool {
    0 <= i < s.len() && is_word_char(s[i]) && (i == 0 || is_whitespace(s[i - 1]))
}

/// The number of positions of `s` that begin a word.
pub open spec fn word_start_count(s: Seq<char>) -> nat
    decreases s.len(),
{
    if s.len() == 0 {
        0
    } else {
        word_start_count(s.drop_last()) + if starts_word(s, s.len() - 1) {
            1nat
        } else {
            0nat
        }
    }
}

proof fn lemma_words_state_count(s: Seq<char>)
    ensures
        words_state(s).0.len() + (if words_state(s).1.len() > 0 {
            1nat
        } else {
            0nat
        }) == word_start_count(s),
        words_state(s).1.len() > 0 <==> (s.len() > 0 && is_word_char(s.last())),
    decreases s.len(),
{
    if s.len() > 0 {
        let prev = s.drop_last();
        lemma_words_state_count(prev);
        if s.len() > 1 {
            assert(prev.last() == s[s.len() - 2]);
        }
    }
}

/// Words are maximal: there are exactly as many words as positions that begin
/// one, so no run of non-whitespace characters is cut in two or merged with
/// another.
pub proof fn lemma_words_are_maximal_runs(s: Seq<char>)
    ensures
        words(s).len() == word_start_count(s),
{
    lemma_words_state_count(s);
}

proof fn lemma_words_state_append(a: Seq<char>, b: Seq<char>)
    requires
        words_state(a).1.len() == 0,
    ensures
        words_state(a + b) == (words_state(a).0 + words_state(b).0, words_state(b).1),
    decreases b.len(),
{
    if b.len() == 0 {
        assert(a + b =~= a);
        assert(words_state(a).0 + Seq::<Seq<char>>::empty() =~= words_state(a).0);
    } else {
        lemma_words_state_append(a, b.drop_last());
        assert((a + b).drop_last() =~= a + b.drop_last());
        assert((a + b).last() == b.last());
        let (d1, _) = words_state(a);
        let (d2, cur) = words_state(b.drop_last());
        if is_whitespace(b.last()) && cur.len() > 0 {
            assert(d1 + d2.push(cur) =~= (d1 + d2).push(cur));
        }
    }
}

/// A non-empty text without whitespace is one word: itself.
pub proof fn lemma_unbroken_text_is_one_word(s: Seq<char>)
    requires
        s.len() > 0,
        forall|i: int| 0 <= i < s.len() ==> is_word_char(#[trigger] s[i]),
    ensures
        words(s) == seq![s],
{
    lemma_unbroken_state(s);
    assert(Seq::<Seq<char>>::empty().push(s) =~= seq![s]);
}

proof fn lemma_unbroken_state(s: Seq<char>)
    requires
        forall|i: int| 0 <= i < s.len() ==> is_word_char(#[trigger] s[i]),
    ensures
        words_state(s) == (Seq::<Seq<char>>::empty(), s),
    decreases s.len(),
{
    if s.len() > 0 {
        let prev = s.drop_last();
        assert forall|i: int| 0 <= i < prev.len() implies is_word_char(#[trigger] prev[i]) by {
            assert(prev[i] == s[i]);
        }
        lemma_unbroken_state(prev);
        assert(is_word_char(s[s.len() - 1]));
        assert(prev.push(s.last()) =~= s);
    }
}

/// Splitting at any whitespace character and taking the words of the two
/// sides gives the words of the whole: words never span whitespace.
pub proof fn lemma_words_split_at_whitespace(s: Seq<char>, i: int)
    requires
        0 <= i < s.len(),
        is_whitespace(s[i]),
    ensures
        words(s) == words(s.take(i)) + words(s.skip(i + 1)),
{
    let a = s.take(i + 1);
    let b = s.skip(i + 1);
    assert(a.drop_last() =~= s.take(i));
    assert(a.last() == s[i]);
    assert(words_state(a).1.len() == 0);
    assert(words_state(a).0 == words(s.take(i)));
    lemma_words_state_append(a, b);
    assert(a + b =~= s);
    let (d, cur) = words_state(b);
    if cur.len() > 0 {
        assert(words(s.take(i)) + d.push(cur) =~= (words(s.take(i)) + d).push(cur));
    }
}

/// `line.split_whitespace()`, each word as a `String`.
pub fn split_whitespace(line: &str) -> (r: Vec<String>)
    ensures
        r@.map_values(|t: String| t@) == words(line@),
{
    let chars = chars_of(line);
    let mut done: Vec<String> = Vec::new();
    let mut cur: Vec<char> = Vec::new();
    let mut i: usize = 0;
    while i < chars.len()
        invariant
            i <= chars@.len(),
            chars@ == line@,
            done@.map_values(|t: String| t@) == words_state(chars@.take(i as int)).0,
            cur@ == words_state(chars@.take(i as int)).1,
        decreases chars@.len() - i,
    {
        let c = chars[i];
        let ghost prev = chars@.take(i as int);
        assert(chars@.take(i + 1).drop_last() =~= prev);
        if char_is_whitespace(c) {
            if cur.len() > 0 {
                let w = string_from_chars(cur.as_slice());
                done.push(w);
                cur = Vec::new();
                assert(done@.map_values(|t: String| t@) =~= words_state(prev).0.push(
                    words_state(prev).1,
                ));
            }
        } else {
            cur.push(c);
        }
        i += 1;
    }
    assert(chars@.take(chars@.len() as int) =~= chars@);
    if cur.len() > 0 {
        let w = string_from_chars(cur.as_slice());
        done.push(w);
        assert(done@.map_values(|t: String| t@) =~= words_state(line@).0.push(
            words_state(line@).1,
        ));
    }
    done
}

/// Reading `s` from the left: the pieces finished so far, split at `sep`, and
/// the piece in progress.
pub open spec fn pieces_state(s: Seq<char>, sep: char) -> (Seq<Seq<char>>, Seq<char>)
    decreases s.len(),
{
    if s.len() == 0 {
        (Seq::empty(), Seq::empty())
    } else {
        let (done, cur) = pieces_state(s.drop_last(), sep);
        let c = s.last();
        if c == sep {
            (done.push(cur), Seq::empty())
        } else {
            (done, cur.push(c))
        }
    }
}

/// The pieces of `s` between occurrences of `sep`, as `str::split(sep)` yields
/// them: empty pieces included, one more piece than there are separators.
pub open spec fn pieces(s: Seq<char>, sep: char) -> Seq<Seq<char>> {
    pieces_state(s, sep).0.push(pieces_state(s, sep).1)
}

/// `s.split(sep)`, each piece as its characters.
pub fn split_at_char(s: &Vec<char>, sep: char) -> (r: Vec<Vec<char>>)
    ensures
        r@.map_values(|p: Vec<char>| p@) == pieces(s@, sep),
        r@.len() >= 1,
{
    let mut done: Vec<Vec<char>> = Vec::new();
    let mut cur: Vec<char> = Vec::new();
    let mut i: usize = 0;
    while i < s.len()
        invariant
            i <= s@.len(),
            done@.map_values(|p: Vec<char>| p@) == pieces_state(s@.take(i as int), sep).0,
            cur@ == pieces_state(s@.take(i as int), sep).1,
        decreases s@.len() - i,
    {
        let c = s[i];
        let ghost prev = s@.take(i as int);
        assert(s@.take(i + 1).drop_last() =~= prev);
        if c == sep {
            let finished = cur;
            done.push(finished);
            cur = Vec::new();
            assert(done@.map_values(|p: Vec<char>| p@) =~= pieces_state(prev, sep).0.push(
                pieces_state(prev, sep).1,
            ));
        } else {
            cur.push(c);
        }
        i += 1;
    }
    assert(s@.take(s@.len() as int) =~= s@);
    done.push(cur);
    assert(done@.map_values(|p: Vec<char>| p@) =~= pieces(s@, sep));
    done
}

/// `s` without its leading whitespace.
pub open spec fn trim_start(s: Seq<char>) -> Seq<char>
    decreases s.len(),
{
    if s.len() > 0 && is_whitespace(s[0]) {
        trim_start(s.drop_first())
    } else {
        s
    }
}

/// `s` without its trailing whitespace.
pub open spec fn trim_end(s: Seq<char>) -> Seq<char>
    decreases s.len(),
{
    if s.len() > 0 && is_whitespace(s.last()) {
        trim_end(s.drop_last())
    } else {
        s
    }
}

/// `str::trim`: `s` without leading and trailing whitespace.
pub open spec fn trim(s: Seq<char>) -> Seq<char> {
    trim_end(trim_start(s))
}

/// `s.trim()`, as a `String`.
pub fn trim_chars(s: &Vec<char>) -> (r: String)
    ensures
        r@ == trim(s@),
{
    let n = s.len();
    let mut lo: usize = 0;
    assert(s@.subrange(0, n as int) =~= s@);
    while lo < n && char_is_whitespace(s[lo])
        invariant
            lo <= n == s@.len(),
            trim_start(s@) == trim_start(s@.subrange(lo as int, n as int)),
        decreases n - lo,
    {
        assert(s@.subrange(lo as int, n as int).drop_first() =~= s@.subrange(lo + 1, n as int));
        lo += 1;
    }
    let ghost start = s@.subrange(lo as int, n as int);
    assert(trim_start(start) == start);
    let mut hi: usize = n;
    while hi > lo && char_is_whitespace(s[hi - 1])
        invariant
            lo <= hi <= n == s@.len(),
            trim_end(start) == trim_end(s@.subrange(lo as int, hi as int)),
        decreases hi - lo,
    {
        assert(s@.subrange(lo as int, hi as int).drop_last() =~= s@.subrange(
            lo as int,
            hi - 1,
        ));
        hi -= 1;
    }
    let mut kept: Vec<char> = Vec::new();
    let mut k = lo;
    while k < hi
        invariant
            lo <= k <= hi <= n == s@.len(),
            kept@ == s@.subrange(lo as int, k as int),
        decreases hi - k,
    {
        kept.push(s[k]);
        assert(kept@ =~= s@.subrange(lo as int, k + 1));
        k += 1;
    }
    string_from_chars(kept.as_slice())
}

} // verus!
