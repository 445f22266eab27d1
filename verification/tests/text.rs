use document_finder::panic_report::{panic_line, PanicLocation};
use document_finder::text::{
    decimal_text, eq_ignoring_ascii_case, joined, keep_nonempty, signed_decimal_text,
    split_at_class, split_words, trimmed, trimmed_end, trimmed_start, without_prefix, CharClass,
};

const SAMPLES: [&str; 12] = [
    "",
    " ",
    "a",
    " a b ",
    "a,b,,c,",
    ",",
    "\u{a0}x\u{3000}",
    "caf\u{e9}, \u{1f600} z",
    "x...",
    "http://h///",
    "\t\n\u{b}\u{c}\r\u{85}",
    "\u{180e}\u{200b}\u{feff}",
];

#[test]
fn whitespace_is_that_of_unicode() {
    for code in 0..=0x10ffff_u32 {
        if let Some(c) = char::from_u32(code) {
            assert_eq!(CharClass::Whitespace.contains(c), c.is_whitespace());
        }
    }
    assert!(CharClass::Only('/').contains('/'));
    assert!(!CharClass::Only('/').contains('.'));
}

#[test]
fn trimming_and_splitting_samples() {
    for s in SAMPLES {
        assert_eq!(trimmed(s), s.trim());
        assert_eq!(trimmed_start(s, &CharClass::Whitespace), s.trim_start());
        assert_eq!(trimmed_end(s, &CharClass::Only('/')), s.trim_end_matches('/'));
        assert_eq!(trimmed_end(s, &CharClass::Only('.')), s.trim_end_matches('.'));
        let pieces: Vec<&str> = s.split(',').collect();
        assert_eq!(split_at_class(s, &CharClass::Only(',')), pieces);
        let words: Vec<&str> = s.split_whitespace().collect();
        assert_eq!(split_words(s), words);
        assert_eq!(joined(&split_at_class(s, &CharClass::Only(',')), ","), s);
    }
}

#[test]
fn joining() {
    assert_eq!(joined(&vec![], ", "), "");
    assert_eq!(joined(&vec!["a".to_string()], ", "), "a");
    let three = vec!["a".to_string(), String::new(), "c".to_string()];
    assert_eq!(joined(&three, ", "), "a, , c");
    assert_eq!(keep_nonempty(three), vec!["a", "c"]);
}

#[test]
fn list_of_names_round_trip() {
    let names = vec!["Ada L.".to_string(), "Bob".to_string(), String::new()];
    let line = joined(&names, ", ");
    let read: Vec<String> = split_at_class(&line, &CharClass::Only(','))
        .iter()
        .map(|p| trimmed(p).to_string())
        .collect();
    assert_eq!(read, names);
}

#[test]
fn prefixes() {
    assert_eq!(without_prefix("meta_search/brave", "meta_search/"), "brave");
    assert_eq!(without_prefix("meta_search", "meta_search/"), "meta_search");
    assert_eq!(without_prefix("x/meta_search/", "meta_search/"), "x/meta_search/");
    assert_eq!(without_prefix("abc", ""), "abc");
}

#[test]
fn comparing_without_case() {
    for (a, b) in [
        ("PDF", "pdf"),
        ("pdf", "pdfs"),
        ("@[`{", "`{@["),
        ("\u{c9}", "\u{e9}"),
        ("\u{c9}A", "\u{c9}a"),
        ("", ""),
    ] {
        assert_eq!(eq_ignoring_ascii_case(a, b), a.eq_ignore_ascii_case(b));
    }
}

#[test]
fn numbers() {
    for n in [0, 9, 10, 99, 100, 1234567890, u64::MAX] {
        assert_eq!(decimal_text(n), n.to_string());
    }
    for n in [0, -1, 1, -2024, i64::MIN, i64::MAX] {
        assert_eq!(signed_decimal_text(n), n.to_string());
    }
}

#[test]
fn panic_lines() {
    let here = Some(PanicLocation {
        file: "src/a.rs".to_string(),
        line: 12,
        column: 5,
    });
    assert_eq!(
        panic_line(&here, Some("boom"), None),
        "panic at src/a.rs:12:5: boom"
    );
    let owned = "bang".to_string();
    assert_eq!(
        panic_line(&None, None, Some(&owned)),
        "panic at <unknown>: bang"
    );
    assert_eq!(
        panic_line(&None, None, None),
        "panic at <unknown>: <non-string panic payload>"
    );
}
