//! Unsigned integer parsing from text, in a given radix.
//!
//! This is the behaviour of `usize::from_str_radix` (and of `str::parse::<usize>`,
//! which is the radix-10 case): an optional leading `+`, then one or more
//! digits of the radix, and a value that fits in a `usize`.
use vstd::prelude::*;

verus! {

/// The value of `c` as a digit of `radix`, if it is one: `0`-`9`, then the
/// letters of either case from `a` for ten upwards.
pub open spec fn digit_value(c: char, radix: nat) -> Option<nat> {
    let u = c as int;
    let d: int = if 48 <= u <= 57 {
        u - 48
    } else if 97 <= u <= 122 {
        u - 97 + 10
    } else if 65 <= u <= 90 {
        u - 65 + 10
    } else {
        radix as int
    };
    if 0 <= d < radix {
        Some(d as nat)
    } else {
        None
    }
}

/// Every character of `s` is a digit of `radix`.
pub open spec fn all_digits(s: Seq<char>, radix: nat) -> bool {
    forall|i: int| 0 <= i < s.len() ==> (#[trigger] digit_value(s[i], radix)) is Some
}

/// The positional value of the digits `s`, most significant first.
pub open spec fn digits_value(s: Seq<char>, radix: nat) -> nat
    decreases s.len(),
{
    if s.len() == 0 {
        0
    } else {
        let d: nat = match digit_value(s.last(), radix) {
            Some(d) => d,
            None => 0,
        };
        digits_value(s.drop_last(), radix) * radix + d
    }
}

/// The digits that follow an optional leading `+`; `None` for the empty text
/// and for a `+` alone.
pub open spec fn unsigned_digits(s: Seq<char>) -> Option<Seq<char>> {
    if s.len() == 0 {
        None
    } else if s[0] == '+' {
        if s.len() == 1 {
            None
        } else {
            Some(s.drop_first())
        }
    } else {
        Some(s)
    }
}

/// What `usize::from_str_radix(s, radix).ok()` gives.
pub open spec fn parse_unsigned_spec(s: Seq<char>, radix: nat) -> Option<nat> {
    match unsigned_digits(s) {
        None => None,
        Some(d) => if all_digits(d, radix) && digits_value(d, radix) <= usize::MAX {
            Some(digits_value(d, radix))
        } else {
            None
        },
    }
}

/// The digit characters: `'0'` to `'9'` stand for 0 to 9, and the `v`-th
/// letter after `a` stands for `10 + v` in upper and lower case alike; each is
/// a digit exactly in the radixes larger than its value.
pub proof fn lemma_digit_characters(radix: nat, v: nat)
    ensures
        v < 10 ==> digit_value((48 + v) as char, radix) == if v < radix {
            Some(v)
        } else {
            None
        },
        v < 26 ==> digit_value((97 + v) as char, radix) == if 10 + v < radix {
            Some(10 + v)
        } else {
            None
        },
        v < 26 ==> digit_value((65 + v) as char, radix) == if 10 + v < radix {
            Some(10 + v)
        } else {
            None
        },
{
}

/// Digit values ignore case: a lowercase letter and its uppercase form are the
/// same digit, in every radix.
pub proof fn lemma_digit_case_insensitive(c: char, radix: nat)
    requires
        'a' <= c <= 'z',
    ensures
        digit_value(c, radix) == digit_value(((c as int) - 32) as char, radix),
{
    lemma_digit_characters(radix, ((c as int) - 97) as nat);
}

/// Characters that are neither ASCII digits nor ASCII letters are no digit in
/// any radix.
pub proof fn lemma_non_alphanumeric_is_no_digit(c: char, radix: nat)
    requires
        !('0' <= c <= '9'),
        !('a' <= c <= 'z'),
        !('A' <= c <= 'Z'),
        radix <= 36,
    ensures
        digit_value(c, radix) is None,
{
}

/// A single digit parses to its own value.
pub proof fn lemma_parse_one_digit(c: char, radix: nat)
    requires
        radix <= 36,
        c != '+',
    ensures
        parse_unsigned_spec(seq![c], radix) == digit_value(c, radix),
{
    let s = seq![c];
    assert(s.drop_last() =~= Seq::<char>::empty());
    assert(s.last() == c && s[0] == c);
    assert(unsigned_digits(s) == Some(s));
    if digit_value(c, radix) is Some {
        let d = digit_value(c, radix)->0;
        assert(digits_value(s.drop_last(), radix) == 0);
        assert(0 * radix == 0) by (nonlinear_arith);
        assert(digits_value(s, radix) == d);
        assert(d < 36);
        assert(all_digits(s, radix));
    } else {
        assert(!all_digits(s, radix)) by {
            assert(digit_value(s[0], radix) is None);
        }
    }
}

/// Writing one more digit after a number multiplies its value by the radix
/// and adds the digit, and the text stops parsing once the value leaves the
/// range of `usize`.
pub proof fn lemma_parse_append_digit(s: Seq<char>, c: char, radix: nat)
    requires
        radix <= 36,
        parse_unsigned_spec(s, radix) is Some,
        digit_value(c, radix) is Some,
    ensures
        ({
            let v = parse_unsigned_spec(s, radix)->0;
            let d = digit_value(c, radix)->0;
            parse_unsigned_spec(s.push(c), radix) == if v * radix + d <= usize::MAX {
                Some(v * radix + d)
            } else {
                None::<nat>
            }
        }),
{
    let t = s.push(c);
    let digits = unsigned_digits(s)->0;
    let tdigits = unsigned_digits(t)->0;
    if s[0] == '+' {
        assert(t[0] == '+');
        assert(tdigits =~= digits.push(c));
    } else {
        assert(tdigits =~= digits.push(c));
    }
    assert(tdigits.drop_last() =~= digits);
    assert(all_digits(tdigits, radix)) by {
        assert forall|i: int| 0 <= i < tdigits.len() implies (#[trigger] digit_value(
            tdigits[i],
            radix,
        )) is Some by {
            if i < digits.len() {
                assert(tdigits[i] == digits[i]);
            }
        }
    }
}

/// Adding digits never makes the value smaller.
pub proof fn lemma_digits_value_prefix(s: Seq<char>, k: int, radix: nat)
    requires
        0 <= k <= s.len(),
        radix >= 1,
    ensures
        digits_value(s.take(k), radix) <= digits_value(s, radix),
    decreases s.len(),
{
    if k < s.len() {
        lemma_digits_value_prefix(s.drop_last(), k, radix);
        assert(s.drop_last().take(k) =~= s.take(k));
        let v = digits_value(s.drop_last(), radix);
        assert(v <= v * radix) by (nonlinear_arith)
            requires
                radix >= 1,
        ;
    } else {
        assert(s.take(k) =~= s);
    }
}

/// The digit value of `c` in `radix`.
fn char_digit(c: char, radix: u32) -> (r: Option<u32>)
    ensures
        match r {
            Some(d) => digit_value(c, radix as nat) == Some(d as nat),
            None => digit_value(c, radix as nat) is None,
        },
{
    let u = c as u32;
    let d: u32 = if 48 <= u && u <= 57 {
        u - 48
    } else if 97 <= u && u <= 122 {
        u - 97 + 10
    } else if 65 <= u && u <= 90 {
        u - 65 + 10
    } else {
        radix
    };
    if d < radix {
        Some(d)
    } else {
        None
    }
}

/// Parses `s[start..]` as an unsigned number in `radix`, as
/// `usize::from_str_radix` does.
pub fn parse_unsigned(s: &Vec<char>, start: usize, radix: u32) -> (r: Option<usize>)
    requires
        2 <= radix <= 36,
        start <= s.len(),
    ensures
        match r {
            Some(v) => parse_unsigned_spec(s@.subrange(start as int, s.len() as int), radix as nat)
                == Some(v as nat),
            None => parse_unsigned_spec(
                s@.subrange(start as int, s.len() as int),
                radix as nat,
            ) is None,
        },
{
    let ghost text = s@.subrange(start as int, s.len() as int);
    let n = s.len();
    if start >= n {
        return None;
    }
    let mut first = start;
    if s[start] == '+' {
        if start + 1 == n {
            return None;
        }
        first = start + 1;
    }
    let ghost digits = s@.subrange(first as int, n as int);
    assert(unsigned_digits(text) == Some(digits)) by {
        if s[start as int] == '+' {
            assert(text.drop_first() =~= digits);
        } else {
            assert(text =~= digits);
        }
    }
    let mut acc: usize = 0;
    let mut i = first;
    while i < n
        invariant
            start <= first <= i <= n,
            n == s.len(),
            2 <= radix <= 36,
            digits == s@.subrange(first as int, n as int),
            text == s@.subrange(start as int, n as int),
            unsigned_digits(text) == Some(digits),
            acc as nat == digits_value(s@.subrange(first as int, i as int), radix as nat),
            all_digits(s@.subrange(first as int, i as int), radix as nat),
        decreases n - i,
    {
        let ghost before = s@.subrange(first as int, i as int);
        let ghost after = s@.subrange(first as int, i + 1);
        assert(after.drop_last() =~= before);
        assert(after.last() == s@[i as int]);
        assert(after =~= digits.take(i + 1 - first));
        match char_digit(s[i], radix) {
            None => {
                assert(!all_digits(digits, radix as nat)) by {
                    assert(digits[i - first] == s@[i as int]);
                }
                return None;
            },
            Some(d) => {
                let next = match acc.checked_mul(radix as usize) {
                    Some(m) => m.checked_add(d as usize),
                    None => None,
                };
                match next {
                    Some(v) => {
                        acc = v;
                    },
                    None => {
                        assert(digits_value(after, radix as nat) > usize::MAX) by {
                            assert(acc as nat * radix as nat + d as nat > usize::MAX);
                        }
                        proof {
                            lemma_digits_value_prefix(digits, i + 1 - first, radix as nat);
                        }
                        return None;
                    },
                }
            },
        }
        i += 1;
    }
    assert(s@.subrange(first as int, n as int) =~= digits);
    Some(acc)
}

} // verus!
