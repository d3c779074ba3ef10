use relaymail::text::{
    chars_of, contains_text, decimal_text, has_substring, is_text_le, is_white_space, join,
    load_list, same_text, sort_texts, split, string_of, trim,
};
use relaymail::text_set::TextSet;

fn strings(list: &[&str]) -> Vec<String> {
    list.iter().map(|s| s.to_string()).collect()
}

#[test]
fn white_space_is_that_of_unicode() {
    for code in 0..=0x10ffff_u32 {
        if let Some(c) = char::from_u32(code) {
            assert_eq!(is_white_space(c), c.is_whitespace(), "{code:x}");
        }
    }
}

#[test]
fn trimming_is_that_of_the_standard_library() {
    for s in ["", " ", "a", " a b ", "\t\u{3000}x\u{85}\n", "\u{200b}x"] {
        assert_eq!(trim(s), s.trim());
    }
}

#[test]
fn lists_are_joined_and_split() {
    assert_eq!(join(&strings(&[]), " "), "");
    assert_eq!(join(&strings(&["a"]), " "), "a");
    assert_eq!(join(&strings(&["a", "", "b"]), ", "), "a, , b");
    assert_eq!(split("a  b", ' '), ["a", "", "b"]);
    assert_eq!(split("", ' '), [""]);
    assert_eq!(load_list(""), Vec::<String>::new());
    assert_eq!(load_list("a b"), ["a", "b"]);
}

#[test]
fn numbers_are_written_in_decimal() {
    for n in [0, 7, 10, 123, 65535, u64::MAX] {
        assert_eq!(decimal_text(n), n.to_string());
    }
}

#[test]
fn substrings_are_found() {
    for (hay, needle) in [("", ""), ("abc", ""), ("abc", "bc"), ("abc", "bd"), ("a", "ab"), ("aab", "ab")] {
        assert_eq!(has_substring(hay, needle), hay.contains(needle));
    }
}

#[test]
fn texts_are_ordered_as_strings_are() {
    let all = ["", "a", "ab", "b", "B", "ä", "\u{ffff}", "\u{10000}", "é"];
    for a in all {
        for b in all {
            assert_eq!(is_text_le(a, b), a <= b);
            assert_eq!(same_text(a, b), a == b);
        }
    }
    let mut list = strings(&["b", "ä", "", "a", "b", "\u{10000}", "\u{ffff}"]);
    let mut expected = list.clone();
    expected.sort();
    sort_texts(&mut list);
    assert_eq!(list, expected);
}

#[test]
fn characters_are_taken_apart() {
    let chars = chars_of("aéb");
    assert_eq!(chars, ['a', 'é', 'b']);
    assert_eq!(string_of(&chars, 1, 3), "éb");
    assert!(contains_text(&strings(&["x", "y"]), "y"));
    assert!(!contains_text(&strings(&["x", "y"]), "z"));
}

#[test]
fn sets_are_listed_in_order() {
    let mut set = TextSet::from_list(&strings(&["b", "a", "b"]));
    assert_eq!(set.len(), 2);
    assert!(set.insert("aa".to_string()));
    assert!(!set.insert("a".to_string()));
    assert!(set.contains("aa"));
    assert!(!set.contains("c"));
    assert_eq!(set.join(" "), "a aa b");
    assert_eq!(TextSet::new().join(" "), "");
}
