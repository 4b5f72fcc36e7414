use third_party_licenses::order::{comes_before, place};
use third_party_licenses::text::{
    after_prefix, begins_with, characters, decimal_text, is_white_space, normalize,
    same_ignoring_case, stem_of, text_of, to_upper,
};

const SAMPLES: [&str; 14] = [
    "", "a", "ab", "abc", "b", "A", "serde", "serde_json", "1.0.10", "1.0.9", "\u{e9}", "\u{ffff}",
    "\u{10000}", "a\u{0}",
];

#[test]
fn white_space_is_that_of_std() {
    for n in 0..=0x10ffffu32 {
        if let Some(c) = char::from_u32(n) {
            assert_eq!(is_white_space(c), c.is_whitespace(), "{n:x}");
        }
    }
}

#[test]
fn order_is_that_of_std() {
    for a in SAMPLES {
        for b in SAMPLES {
            assert_eq!(comes_before(a, b), a < b, "{a:?} {b:?}");
        }
    }
}

#[test]
fn upper_case_is_that_of_std() {
    for n in 0..=0x10ffffu32 {
        if let Some(c) = char::from_u32(n) {
            let s = c.to_string();
            assert_eq!(to_upper(&s), s.to_ascii_uppercase());
        }
    }
    assert_eq!(to_upper("License-\u{e9}z"), "LICENSE-\u{e9}Z");
}

#[test]
fn case_is_ignored_for_ascii_only() {
    assert!(same_ignoring_case("apache-2.0", "Apache-2.0"));
    assert!(same_ignoring_case("", ""));
    assert!(!same_ignoring_case("\u{e9}", "\u{c9}"));
    assert!(!same_ignoring_case("MIT", "MIT0"));
}

#[test]
fn prefixes() {
    assert!(begins_with("LICENSE-MIT", "LICENSE-"));
    assert!(begins_with("x", ""));
    assert!(!begins_with("LICENS", "LICENSE"));
    assert!(!begins_with("LICENCE", "LICENSE"));
    assert_eq!(after_prefix("LICENSE-MIT", "LICENSE-"), Some("MIT".to_string()));
    assert_eq!(after_prefix("LICENSE-", "LICENSE-"), Some(String::new()));
    assert_eq!(after_prefix("COPYING", "LICENSE-"), None);
}

#[test]
fn stems() {
    assert_eq!(stem_of("MIT.txt"), "MIT");
    assert_eq!(stem_of("Apache-2.0.txt"), "Apache-2.0");
    assert_eq!(stem_of("Apache-2.0"), "Apache-2");
    assert_eq!(stem_of("LICENSE"), "LICENSE");
    assert_eq!(stem_of(".txt"), "");
    assert_eq!(stem_of("a."), "a");
    assert_eq!(stem_of(""), "");
}

#[test]
fn characters_and_back() {
    let chars = characters("a\u{e9}\u{1f600}");
    assert_eq!(chars, vec!['a', '\u{e9}', '\u{1f600}']);
    assert_eq!(text_of(&chars, 1, 3), "\u{e9}\u{1f600}");
    assert_eq!(text_of(&chars, 2, 2), "");
}

#[test]
fn decimals() {
    for n in [0, 1, 9, 10, 11, 99, 100, 120, 4711, usize::MAX] {
        assert_eq!(decimal_text(n), n.to_string());
    }
}

#[test]
fn normalized_texts() {
    assert_eq!(normalize("a\r\nb\r\n"), "a\nb");
    assert_eq!(normalize("\u{2003}\n a b \u{a0}\n"), "a b");
    assert_eq!(normalize("a\rb"), "a\rb");
    assert_eq!(normalize("a\r\r\nb"), "a\r\nb");
    assert_eq!(normalize(" \r\n\t"), "");
    assert_eq!(normalize(""), "");
    for text in ["", "\r", "\n", "x\r\n", "\r\n\r\nx", "  x\r\r\n y ", "\u{85}x\u{3000}"] {
        assert_eq!(normalize(text), text.replace("\r\n", "\n").trim());
        let n = normalize(text);
        if let (Some(first), Some(last)) = (n.chars().next(), n.chars().last()) {
            assert!(!first.is_whitespace() && !last.is_whitespace());
        }
    }
}

#[test]
fn placing_keeps_order_and_first() {
    let mut items: Vec<(String, String)> = Vec::new();
    for (a, b) in [("b", "2"), ("a", "9"), ("b", "10"), ("b", "2"), ("c", "")] {
        place(&mut items, (a.to_string(), b.to_string()));
    }
    let mut expected: Vec<(String, String)> = vec![
        ("a".to_string(), "9".to_string()),
        ("b".to_string(), "10".to_string()),
        ("b".to_string(), "2".to_string()),
        ("c".to_string(), String::new()),
    ];
    assert_eq!(items, expected);
    expected.sort();
    assert_eq!(items, expected);
}

#[test]
fn line_ends_make_no_difference() {
    for text in ["", "a\nb\n", "\n\na\n", "a b\n\n c"] {
        assert_eq!(normalize(&text.replace('\n', "\r\n")), normalize(text));
    }
}
