use manahg::text::{
    capitalize, decimal, first_words, is_whitespace, precedes, same_text, starts_with, trim,
};

#[test]
fn whitespace_is_what_the_standard_library_calls_whitespace() {
    let mut n: u32 = 0;
    while n <= 0x10FFFF {
        if let Some(c) = char::from_u32(n) {
            assert_eq!(is_whitespace(c), c.is_whitespace(), "U+{:04X}", n);
        }
        n += 1;
    }
}

#[test]
fn trim_drops_whitespace_at_both_ends_only() {
    assert_eq!(trim("  default \n"), "default");
    assert_eq!(trim("a b"), "a b");
    assert_eq!(trim("\t a \u{a0} b \r\n"), "a \u{a0} b");
    assert_eq!(trim(""), "");
    assert_eq!(trim(" \n\t "), "");
    assert_eq!(trim("\u{3000}x\u{2003}"), "x");
}

#[test]
fn trim_agrees_with_the_standard_library() {
    let samples = [
        "", " ", "x", " x", "x ", "  abort: no repository\n", "\n\nline one\nline two\n\n",
        "\u{85}é\u{2028}", "tab\tinside",
    ];
    for s in samples {
        assert_eq!(trim(s), s.trim());
    }
}

#[test]
fn first_words_takes_one_name_per_line() {
    let listing = "default                      412:0123456789ab\nfeature/x                    77:aaaaaaaaaaaa (inactive)\n";
    assert_eq!(first_words(listing), vec!["default".to_string(), "feature/x".to_string()]);
}

#[test]
fn first_words_skips_lines_without_a_word() {
    assert_eq!(first_words(""), Vec::<String>::new());
    assert_eq!(first_words("\n\n"), Vec::<String>::new());
    assert_eq!(first_words("  \n a b\n\t\nc"), vec!["a".to_string(), "c".to_string()]);
    assert_eq!(first_words("one\r\ntwo\r\n"), vec!["one".to_string(), "two".to_string()]);
}

#[test]
fn first_words_agrees_with_lines_and_split_whitespace() {
    let samples = [
        "", "a", "a\n", "\na", "a b\nc d\n\n e", " \t \n", "x\r\ny z\r\n", "é ü\n\u{3000}w\n",
        "stable   12:ab\ndefault  3:cd (inactive)",
    ];
    for s in samples {
        let expected: Vec<String> = s
            .lines()
            .map(|line| line.split_whitespace().next().unwrap_or("").to_string())
            .filter(|w| !w.is_empty())
            .collect();
        assert_eq!(first_words(s), expected, "{:?}", s);
    }
}

#[test]
fn precedes_is_the_order_of_str() {
    let samples = ["", "a", "A", "ab", "b", "10", "9", "é", "z", "/srv/a", "/srv/a/b", "/srv/b"];
    for a in samples {
        for b in samples {
            assert_eq!(precedes(a, b), a < b, "{:?} {:?}", a, b);
        }
    }
}

#[test]
fn precedes_compares_revisions_as_text_not_as_numbers() {
    assert!(precedes("10", "9"));
    assert!(!precedes("9", "10"));
}

#[test]
fn same_text_and_starts_with() {
    assert!(same_text("", ""));
    assert!(same_text("/srv/r1", "/srv/r1"));
    assert!(!same_text("/srv/r1", "/srv/r2"));
    assert!(!same_text("/srv/r1", "/srv/r"));
    assert!(!same_text("/srv/r", "/srv/r1"));
    assert!(starts_with("ERROR", "ERROR"));
    assert!(starts_with("ERROR: gone", "ERROR"));
    assert!(starts_with("anything", ""));
    assert!(!starts_with("ERRO", "ERROR"));
    assert!(!starts_with("error", "ERROR"));
    assert!(!starts_with("", "ERROR"));
}

#[test]
fn capitalize_raises_the_first_character_only() {
    assert_eq!(capitalize("draft"), "Draft");
    assert_eq!(capitalize("public"), "Public");
    assert_eq!(capitalize("Secret"), "Secret");
    assert_eq!(capitalize(""), "");
    assert_eq!(capitalize("éa"), "Éa");
    assert_eq!(capitalize("ßa"), "SSa");
    assert_eq!(capitalize("x"), "X");
}

#[test]
fn decimal_writes_the_digits() {
    assert_eq!(decimal(0), "0");
    assert_eq!(decimal(7), "7");
    assert_eq!(decimal(10), "10");
    assert_eq!(decimal(42), "42");
    assert_eq!(decimal(1005), "1005");
    assert_eq!(decimal(usize::MAX), usize::MAX.to_string());
}
