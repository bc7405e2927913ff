use cs110l::number::parse_unsigned;

fn parse(s: &str, radix: u32) -> Option<usize> {
    let chars: Vec<char> = s.chars().collect();
    parse_unsigned(&chars, 0, radix)
}

#[test]
fn decimal_matches_std_parse() {
    for s in ["0", "42", "+7", "007", "", "+", "-3", "1_000", " 5", "18446744073709551615", "18446744073709551616", "99999999999999999999999"] {
        assert_eq!(parse(s, 10), s.parse::<usize>().ok(), "{:?}", s);
    }
}

#[test]
fn radix_matches_std() {
    for (s, r) in [("zz", 36), ("ZZ", 36), ("777", 8), ("8", 8), ("1010", 2), ("2", 2), ("fF", 16)] {
        assert_eq!(parse(s, r), usize::from_str_radix(s, r).ok(), "{:?} {}", s, r);
    }
}

#[test]
fn parse_from_offset() {
    let chars: Vec<char> = "b*12".chars().collect();
    assert_eq!(parse_unsigned(&chars, 2, 10), Some(12));
    assert_eq!(parse_unsigned(&chars, 4, 10), None);
}
