use assembler::text::{
    chars_of, is_whitespace_char, split_spaces, starts_with_char, str_eq, to_lower_char, trim,
};

const SAMPLES: [&str; 22] = [
    "",
    " ",
    "  ",
    "a",
    " a",
    "a ",
    " a ",
    "a b",
    "a  b",
    "PRT $0",
    "SET $1 1 5",
    "  ADD $2 0 3  ",
    "\tSUB $3 3 -7\r",
    "; comment",
    "   ; indented comment",
    "\u{a0}\u{2003}x y\u{3000}",
    "\u{85}",
    "\u{e9} \u{fc}",
    "a\tb",
    " \n ",
    "\u{200b}x\u{200b}",
    "x\u{feff}",
];

#[test]
fn split_spaces_agrees_with_std_split() {
    for sample in SAMPLES.iter() {
        let expected: Vec<&str> = sample.split(' ').collect();
        assert_eq!(split_spaces(sample), expected, "{:?}", sample);
    }
}

#[test]
fn split_spaces_keeps_empty_tokens() {
    assert_eq!(split_spaces(""), vec![""]);
    assert_eq!(split_spaces(" "), vec!["", ""]);
    assert_eq!(split_spaces("a  b"), vec!["a", "", "b"]);
    assert_eq!(split_spaces(" a "), vec!["", "a", ""]);
    assert_eq!(split_spaces("SET $1 1 5"), vec!["SET", "$1", "1", "5"]);
}

#[test]
fn split_spaces_splits_on_spaces_only() {
    assert_eq!(split_spaces("a\tb"), vec!["a\tb"]);
    assert_eq!(split_spaces("a\u{a0}b"), vec!["a\u{a0}b"]);
}

#[test]
fn joining_the_tokens_gives_the_line_back() {
    for sample in SAMPLES.iter() {
        let parts = split_spaces(sample);
        assert_eq!(parts.join(" "), *sample);
        assert_eq!(parts.len(), sample.matches(' ').count() + 1);
        assert!(parts.iter().all(|part| !part.contains(' ')));
    }
}

#[test]
fn trim_agrees_with_std_trim() {
    for sample in SAMPLES.iter() {
        assert_eq!(trim(sample), sample.trim(), "{:?}", sample);
    }
}

#[test]
fn trim_takes_whitespace_off_both_ends_only() {
    assert_eq!(trim("  ADD $2 0 3  "), "ADD $2 0 3");
    assert_eq!(trim("\t\r\n"), "");
    assert_eq!(trim(""), "");
    assert_eq!(trim("a  b"), "a  b");
    assert_eq!(trim(" ; x "), "; x");
}

#[test]
fn is_whitespace_char_agrees_with_std_on_every_char() {
    for code in 0u32..=0x10FFFF {
        if let Some(c) = char::from_u32(code) {
            assert_eq!(is_whitespace_char(c), c.is_whitespace(), "{:?}", c);
        }
    }
}

#[test]
fn to_lower_char_agrees_with_std_ascii_lowercase_on_every_char() {
    for code in 0u32..=0x10FFFF {
        if let Some(c) = char::from_u32(code) {
            assert_eq!(to_lower_char(c), c.to_ascii_lowercase(), "{:?}", c);
        }
    }
}

#[test]
fn to_lower_char_lowers_capitals_only() {
    assert_eq!(to_lower_char('A'), 'a');
    assert_eq!(to_lower_char('Z'), 'z');
    assert_eq!(to_lower_char('a'), 'a');
    assert_eq!(to_lower_char('$'), '$');
    assert_eq!(to_lower_char('0'), '0');
    assert_eq!(to_lower_char('@'), '@');
    assert_eq!(to_lower_char('['), '[');
    assert_eq!(to_lower_char('\u{c9}'), '\u{c9}');
}

#[test]
fn chars_of_lists_the_characters() {
    assert_eq!(chars_of(""), Vec::<char>::new());
    assert_eq!(chars_of("$a"), vec!['$', 'a']);
    assert_eq!(chars_of("\u{e9} \u{fc}"), vec!['\u{e9}', ' ', '\u{fc}']);
}

#[test]
fn str_eq_compares_whole_strings() {
    assert!(str_eq("", ""));
    assert!(str_eq("PRT", "PRT"));
    assert!(!str_eq("PRT", "PRt"));
    assert!(!str_eq("PRT", "PR"));
    assert!(!str_eq("PR", "PRT"));
    assert!(!str_eq("", "x"));
    assert!(str_eq("\u{e9}", "\u{e9}"));
}

#[test]
fn starts_with_char_looks_at_the_first_character() {
    assert!(starts_with_char("$1", '$'));
    assert!(starts_with_char(";", ';'));
    assert!(!starts_with_char("", '$'));
    assert!(!starts_with_char("1$", '$'));
    assert!(!starts_with_char(" $", '$'));
}
