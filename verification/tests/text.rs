use collector::text::{
    chars_of, is_whitespace, lines, same_text, split, split_whitespace, starts_with, text_of, trim,
    Separator,
};

const SAMPLES: [&str; 12] = [
    "",
    " ",
    "a",
    " a ",
    "\t a b\u{3000}c \r\n",
    "one\ntwo\n",
    "one\r\ntwo\r\n\r\nthree",
    "\n\n",
    "a;b;;c;",
    ";",
    "\u{85}x\u{200b}y\u{2028}z\u{a0}",
    "-j 4  --verbose\n--all",
];

fn strings(texts: &[Vec<char>]) -> Vec<String> {
    texts.iter().map(text_of).collect()
}

#[test]
fn white_space_is_that_of_the_standard_library() {
    for u in 0..=0x10ffffu32 {
        if let Some(c) = char::from_u32(u) {
            assert_eq!(is_whitespace(c), c.is_whitespace(), "{:?}", c);
        }
    }
}

#[test]
fn text_survives_the_way_to_characters_and_back() {
    for s in SAMPLES {
        assert_eq!(text_of(&chars_of(s)), s);
    }
    assert_eq!(chars_of("aé∞"), vec!['a', 'é', '∞']);
}

#[test]
fn fields_are_what_stands_between_the_marks() {
    for s in SAMPLES {
        let found = strings(&split(&chars_of(s), Separator::Mark(';')));
        let expected: Vec<&str> = s.split(';').collect();
        assert_eq!(found, expected);
        assert_eq!(found.join(";"), s);
    }
    assert_eq!(strings(&split(&chars_of("a;b;;c;"), Separator::Mark(';'))), ["a", "b", "", "c", ""]);
}

#[test]
fn lines_end_in_one_of_two_ways() {
    for s in SAMPLES {
        let expected: Vec<&str> = s.lines().collect();
        assert_eq!(strings(&lines(&chars_of(s))), expected);
    }
    assert_eq!(strings(&lines(&chars_of("a\r\nb\n\nc"))), ["a", "b", "", "c"]);
}

#[test]
fn words_are_free_of_white_space() {
    for s in SAMPLES {
        let found = split_whitespace(s);
        let expected: Vec<&str> = s.split_whitespace().collect();
        assert_eq!(found, expected);
        let together: String = s.chars().filter(|c| !c.is_whitespace()).collect();
        assert_eq!(found.concat(), together);
    }
    assert_eq!(split_whitespace("  -j 4\t--all "), ["-j", "4", "--all"]);
}

#[test]
fn trimming_takes_white_space_off_both_sides() {
    for s in SAMPLES {
        let trimmed = trim(&chars_of(s));
        assert_eq!(text_of(&trimmed), s.trim());
        assert_eq!(trim(&trimmed), trimmed);
    }
    assert_eq!(text_of(&trim(&chars_of(" \u{2003}a b\r\n"))), "a b");
}

#[test]
fn prefixes_and_equality_are_by_character() {
    assert!(starts_with(&chars_of("100.00"), &chars_of("100.")));
    assert!(!starts_with(&chars_of("100"), &chars_of("100.")));
    assert!(!starts_with(&chars_of("99.100."), &chars_of("100.")));
    assert!(starts_with(&chars_of("x"), &chars_of("")));
    assert!(same_text(&chars_of("abc"), &chars_of("abc")));
    assert!(!same_text(&chars_of("abc"), &chars_of("abd")));
    assert!(!same_text(&chars_of("abc"), &chars_of("ab")));
}

#[test]
fn separators_match_what_they_say() {
    assert!(Separator::Mark(';').separates(';'));
    assert!(!Separator::Mark(';').separates(' '));
    assert!(Separator::Whitespace.separates('\t'));
    assert!(!Separator::Whitespace.separates(';'));
}
