use octosync::names::NameSet;
use octosync::text::{compare_texts, decimal_of, join, lines_of, same_text, trim};

#[test]
fn names_are_listed_in_order_and_once() {
    let mut set = NameSet::new();
    for name in ["ops", "developers", "ops", "Zed", "äpfel"] {
        set.insert(name.to_string());
    }
    assert_eq!(set.to_list(), vec!["Zed", "developers", "ops", "äpfel"]);
    assert!(set.contains("ops"));
    assert!(!set.contains("op"));
    let same = NameSet::from_list(&vec![
        "äpfel".to_string(),
        "ops".to_string(),
        "Zed".to_string(),
        "developers".to_string(),
    ]);
    assert!(set.same(&same));
    assert!(!set.same(&NameSet::new()));
}

#[test]
fn texts_compare_like_strings() {
    let samples = ["", "a", "ab", "b", "Z", "a-", "a_", "ä", "\u{10ffff}", "\u{e000}"];
    for a in samples {
        for b in samples {
            assert_eq!(compare_texts(a, b), a <= b, "{a:?} {b:?}");
            assert_eq!(same_text(a, b), a == b);
        }
    }
}

#[test]
fn lines_are_those_of_std() {
    for s in ["", "\n", "a", "a\n", "a\r\n", "a\r", "\r\n\r\n", "a\n\nb\r\r\nc", "\u{85}x\n"] {
        assert_eq!(lines_of(s), s.lines().collect::<Vec<_>>(), "{s:?}");
    }
}

#[test]
fn trimming_is_that_of_std() {
    for s in [
        "", " ", "a", " a ", "\t a b\r\n", "\u{85}\u{a0}x\u{3000}", "\u{200b}x", "\u{2009}\u{1680}",
        "\u{2028}x\u{2029}", "\u{202f}x\u{205f}", "\u{1c}x",
    ] {
        assert_eq!(trim(s), s.trim(), "{s:?}");
    }
}

#[test]
fn every_white_space_character_is_trimmed() {
    for n in 0..=0x10ffffu32 {
        if let Some(c) = char::from_u32(n) {
            assert_eq!(octosync::text::is_white_space(c), c.is_whitespace(), "{n:x}");
        }
    }
}

#[test]
fn numerals_are_decimal() {
    for n in [0u64, 7, 10, 99, 1000, 18446744073709551615] {
        assert_eq!(decimal_of(n), n.to_string());
    }
}

#[test]
fn joined_texts() {
    let parts = vec!["a".to_string(), "".to_string(), "b".to_string()];
    assert_eq!(join(&parts, ", "), "a, , b");
    assert_eq!(join(&Vec::new(), ","), "");
}
