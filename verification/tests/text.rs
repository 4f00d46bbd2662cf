use commission_meetings::error::IntegerError;
use commission_meetings::number::{
    parse_integer, to_decimal, to_padded_decimal, to_signed_decimal,
};
use commission_meetings::text::{
    chars_of, contains, contains_any, is_listed, is_white_space, join, replace, same_text, split,
    split_whitespace, starts_with, trim, trim_end, trim_start,
};

const SAMPLES: [&str; 9] = [
    "",
    " ",
    "abc",
    "  abc ",
    "\u{a0}\u{2003}é\u{85}\n",
    "aaa",
    "a, b,, c",
    "\tfinanciën  en begroting\r\n",
    "aab aab",
];

#[test]
fn white_space_is_that_of_unicode() {
    for code in 0..=0x10ffffu32 {
        if let Some(c) = char::from_u32(code) {
            assert_eq!(is_white_space(c), c.is_whitespace(), "{:x}", code);
        }
    }
}

#[test]
fn trimming_removes_white_space_at_the_ends() {
    for s in SAMPLES {
        assert_eq!(trim(s), s.trim());
        assert_eq!(trim_start(s), s.trim_start());
        assert_eq!(trim_end(s), s.trim_end());
        assert_eq!(trim(trim(s)), trim(s));
    }
}

#[test]
fn searching_finds_parts() {
    for s in SAMPLES {
        for part in ["", "a", "aa", "b", "é", " ", "ën"] {
            assert_eq!(contains(s, part), s.contains(part));
            assert_eq!(starts_with(s, part), s.starts_with(part));
            assert_eq!(same_text(s, part), s == part);
        }
    }
    assert!(contains_any("de vraag van", &["question", "vraag"]));
    assert!(!contains_any("de vraag van", &["question"]));
    assert!(!contains_any("de vraag van", &[]));
}

#[test]
fn replacing_goes_from_left_to_right() {
    for s in SAMPLES {
        for from in ["a", "aa", "b", "é", " ", ","] {
            for to in ["", "x", "aa"] {
                assert_eq!(replace(s, from, to), s.replace(from, to));
            }
        }
    }
}

#[test]
fn splitting_and_joining_are_inverse() {
    for s in SAMPLES {
        for separator in ["a", "aa", ",", ", ", "é"] {
            let parts = split(s, separator);
            let expected: Vec<String> = s.split(separator).map(str::to_string).collect();
            assert_eq!(parts, expected);
            assert_eq!(join(&parts, separator), s);
        }
        let words: Vec<String> = s.split_whitespace().map(str::to_string).collect();
        assert_eq!(split_whitespace(s), words);
        assert_eq!(chars_of(s), s.chars().collect::<Vec<char>>());
    }
    assert_eq!(join(&vec![], ","), "");
}

#[test]
fn listed_texts_are_found() {
    let list = vec!["a".to_string(), "b".to_string()];
    assert!(is_listed(&list, &"b".to_string()));
    assert!(!is_listed(&list, &"c".to_string()));
}

#[test]
fn numbers_are_written_in_decimal() {
    for n in [0u64, 7, 10, 56, 100, 4294967295, u64::MAX] {
        assert_eq!(to_decimal(n), n.to_string());
        assert_eq!(to_padded_decimal(n, 3), format!("{:03}", n));
        assert_eq!(to_padded_decimal(n, 2), format!("{:02}", n));
    }
    for n in [0i32, 1, -1, 42, i32::MAX, i32::MIN] {
        assert_eq!(to_signed_decimal(n), n.to_string());
    }
    assert_eq!(to_padded_decimal(5, 0), "5");
}

#[test]
fn numbers_are_read_from_decimal() {
    for s in ["", "+", "-", "0", "+7", "007", "255", "256", "999x", "1x9", "12 ", "٣", "++1", "-1"] {
        let expected = s.parse::<u8>();
        match parse_integer(s, 255) {
            Ok(n) => assert_eq!(Ok(n as u8), expected),
            Err(e) => assert_eq!(e.message(), expected.unwrap_err().to_string()),
        }
    }
    assert_eq!(parse_integer("", 255), Err(IntegerError::Empty));
    assert_eq!(parse_integer("x", 255), Err(IntegerError::InvalidDigit));
    assert_eq!(parse_integer("256", 255), Err(IntegerError::TooLarge));
    assert_eq!(parse_integer("18446744073709551615", u64::MAX), Ok(u64::MAX));
    assert_eq!(parse_integer("18446744073709551616", u64::MAX), Err(IntegerError::TooLarge));
}

#[test]
fn the_lower_case_of_latin_letters_is_known() {
    for code in 0..=0xffu32 {
        let c = char::from_u32(code).unwrap();
        let capital = ('A'..='Z').contains(&c)
            || (('\u{c0}'..='\u{de}').contains(&c) && c != '\u{d7}');
        let lower = if capital { char::from_u32(code + 32).unwrap() } else { c };
        assert_eq!(c.to_string().to_lowercase(), lower.to_string(), "{:x}", code);
        for rest in ["Σ", "Σa", "“A”", "İ"] {
            let text = format!("{}É{}", c, rest);
            assert!(text.to_lowercase().starts_with(&format!("{}é", lower)), "{:x}", code);
        }
    }
}

#[test]
fn lower_case_goes_by_character() {
    for a in SAMPLES.iter().chain(&["ÉÀ“İ", "ǅẞK"]) {
        for b in ["", "ABC", "“İ”", "Ωa"] {
            assert_eq!(format!("{}{}", a, b).to_lowercase(), a.to_lowercase() + &b.to_lowercase());
        }
    }
    for c in ['İ', 'Ω', 'ẞ', '“', 'Ж'] {
        let alone = c.to_string().to_lowercase();
        assert_eq!(format!("aΣ{}Σb", c).to_lowercase().replace(['σ', 'ς'], ""), format!("a{}b", alone));
    }
}
