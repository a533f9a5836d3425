use findit::text::{contains, lines};

const SAMPLES: [&str; 24] = [
    "",
    "\n",
    "\r",
    "\r\n",
    "\n\n",
    "\n\r",
    "a",
    "a\n",
    "a\r\n",
    "a\r",
    "a\r\r\n",
    "a\nb",
    "a\r\nb\r\n",
    "a\n\nb\n",
    "\na",
    "one\ntwo\nthree",
    "one\r\ntwo\rthree\n",
    "tab\tand space \n trailing ",
    "\u{e4}\u{f6}\u{fc}\n\u{1f600}\r\n\u{20ac}",
    "\u{e4}\r",
    "\r\n\r\n",
    "x\n\r\ny",
    "no newline at all",
    "\u{85}next line\u{2028}separator\n",
];

#[test]
fn lines_agree_with_the_standard_library() {
    for text in SAMPLES {
        let expected: Vec<&str> = text.lines().collect();
        assert_eq!(lines(text), expected, "{:?}", text);
    }
}

#[test]
fn lines_of_some_texts() {
    assert_eq!(lines("a\r\nb\nc"), vec!["a", "b", "c"]);
    assert_eq!(lines("a\n\nb\n"), vec!["a", "", "b"]);
    assert_eq!(lines("a\r"), vec!["a\r"]);
    assert_eq!(lines("a\r\r\n"), vec!["a\r"]);
    assert_eq!(lines("\n"), vec![""]);
    assert!(lines("").is_empty());
}

#[test]
fn lines_are_slices_of_the_text() {
    let text = String::from("first\nsecond");
    let found = lines(&text);
    assert_eq!(found[0].as_ptr(), text.as_ptr());
    assert_eq!(found[1].as_ptr(), text[6..].as_ptr());
}

#[test]
fn contains_agrees_with_the_standard_library() {
    let needles = [
        "", "a", "b", "\n", "\r\n", "one", "two", "e\nt", "\u{e4}", "\u{f6}\u{fc}", "\u{1f600}",
        " ", "aa", "three", "line", "no newline at all", "no newline at all!",
    ];
    for hay in SAMPLES {
        for needle in needles {
            assert_eq!(contains(hay, needle), hay.contains(needle), "{:?} in {:?}", needle, hay);
        }
    }
}

#[test]
fn contains_finds_a_needle_anywhere() {
    assert!(contains("hello world", "hello"));
    assert!(contains("hello world", "o w"));
    assert!(contains("hello world", "world"));
    assert!(contains("hello world", "hello world"));
    assert!(contains("hello world", ""));
    assert!(contains("", ""));
    assert!(!contains("hello world", "worlds"));
    assert!(!contains("hello world", "World"));
    assert!(!contains("", "a"));
    assert!(contains("aaab", "aab"));
    assert!(!contains("abab", "abb"));
}

#[test]
fn contains_does_not_match_inside_a_character() {
    // U+00E4 is C3 A4 and U+0124 is C4 A4 in UTF-8.
    assert!(!contains("\u{e4}", "\u{124}"));
    assert!(contains("x\u{e4}y", "\u{e4}y"));
    assert!(!contains("\u{20ac}", "\u{ac}"));
}
