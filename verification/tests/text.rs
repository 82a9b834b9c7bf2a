use airwire::table::Table;
use airwire::text::{
    begins_with, blank, contains_char, contains_text, decimal_text, finishes_with, first_chars,
    padded_left, replaced, same_text, split_at_first, trimmed, without_prefix, without_suffix,
    control_char, whitespace_char,
};

#[test]
fn characters_are_classified_as_in_std() {
    for number in 0..=0x10ffff_u32 {
        if let Some(c) = char::from_u32(number) {
            assert_eq!(whitespace_char(c), c.is_whitespace(), "{number:x}");
            assert_eq!(control_char(c), c.is_control(), "{number:x}");
        }
    }
}

#[test]
fn texts_are_searched_as_in_std() {
    for (text, pattern) in [("", ""), ("", "a"), ("aab", "ab"), ("abab", "b"), ("x", "xyz"), ("é@ü", "@")] {
        assert_eq!(contains_text(text, pattern), text.contains(pattern));
        assert_eq!(begins_with(text, pattern), text.starts_with(pattern));
        assert_eq!(finishes_with(text, pattern), text.ends_with(pattern));
        assert_eq!(
            split_at_first(text, pattern),
            text.split_once(pattern).map(|(a, b)| (a.to_owned(), b.to_owned()))
        );
        assert_eq!(without_prefix(text, pattern).as_deref(), text.strip_prefix(pattern));
        assert_eq!(without_suffix(text, pattern).as_deref(), text.strip_suffix(pattern));
        assert_eq!(same_text(text, pattern), text == pattern);
    }
    assert!(contains_char("aé", 'é'));
    assert!(!contains_char("ae", 'é'));
}

#[test]
fn texts_are_rewritten_as_in_std() {
    for text in ["", " ", "\t a b \n", "a", "\u{3000}x\u{85}"] {
        assert_eq!(trimmed(text), text.trim());
        assert_eq!(blank(text), text.trim().is_empty());
    }
    assert_eq!(first_chars("aéb", 2), "aé");
    assert_eq!(replaced("a'b''", '\'', "--"), "a--b----");
    assert_eq!(padded_left("é", 3), "  é");
    assert_eq!(padded_left("abcd", 3), "abcd");
    for number in [0, 9, 10, 1234567890, u64::MAX] {
        assert_eq!(decimal_text(number), number.to_string());
    }
}

#[test]
fn tables_are_maps() {
    let mut table: Table<String, u8> = Table::new();
    table.insert("a".to_owned(), 1);
    table.insert("b".to_owned(), 2);
    table.insert("a".to_owned(), 3);
    assert_eq!(table.len(), 2);
    assert_eq!(table.get(&"a".to_owned()), Some(&3));
    assert!(table.contains(&"b".to_owned()));
    assert_eq!(table.remove(&"b".to_owned()), Some(2));
    assert_eq!(table.remove(&"b".to_owned()), None);
    assert_eq!(table.len(), 1);
}
