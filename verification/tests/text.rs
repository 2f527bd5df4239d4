use credchain::order::sort_names;
use credchain::path::{join, join_text};
use credchain::text::{
    contains, decimal, ends_with, is_white_space, same_text, split, starts_with, trim,
};

#[test]
fn white_space_is_what_the_standard_library_takes_it_for() {
    for c in '\0'..=char::MAX {
        assert_eq!(is_white_space(c), c.is_whitespace(), "{c:?}");
    }
}

#[test]
fn texts_are_trimmed_on_both_sides() {
    for s in ["", " ", "a", " a b ", "\u{2003}x\u{85}", "\t\r\n", "é ", " \u{200b} "] {
        assert_eq!(trim(s), s.trim());
    }
}

#[test]
fn texts_are_split_at_each_separator() {
    for s in ["", ",", "a", "a,b", ",a,,b,", "é,ü"] {
        let expected: Vec<&str> = s.split(',').collect();
        assert_eq!(split(s, ','), expected);
    }
}

#[test]
fn texts_are_searched_like_the_standard_library_does() {
    let pieces = ["", "a", "ab", "aab", "aaab", "ba", "é", "aé", "éa"];
    for s in pieces {
        for t in pieces {
            assert_eq!(starts_with(s, t), s.starts_with(t));
            assert_eq!(ends_with(s, t), s.ends_with(t));
            assert_eq!(contains(s, t), s.contains(t));
            assert_eq!(same_text(s, t), s == t);
        }
    }
}

#[test]
fn numbers_are_shown_in_decimal() {
    for n in [0u64, 7, 10, 42, 99, 100, 4711, u32::MAX as u64, u64::MAX] {
        assert_eq!(decimal(n), n.to_string());
    }
}

#[test]
fn paths_are_joined_like_the_standard_library_does() {
    for base in ["", "/", "/a", "/a/", "a", "a//"] {
        for part in ["", "b", "/b", "b/c", "."] {
            let expected = std::path::Path::new(base).join(part);
            let expected = expected.to_str().unwrap().as_bytes();
            assert_eq!(join(base.as_bytes(), part.as_bytes()), expected, "{base} {part}");
            assert_eq!(join_text(base.as_bytes(), part), expected);
        }
    }
}

#[test]
fn names_are_sorted_like_the_standard_library_does() {
    let names = ["b", "", "a", "é", "ab", "B", "a", "\u{10ffff}", "\u{ffff}", "a.b", "a-b", "a_b"];
    let mut expected: Vec<String> = names.iter().map(|n| n.to_string()).collect();
    let given = expected.clone();
    expected.sort();
    assert_eq!(sort_names(given), expected);
    assert!(sort_names(Vec::new()).is_empty());
}
