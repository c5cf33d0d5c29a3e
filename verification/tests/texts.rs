use hotaru::text::{after_prefix, can_shorten, contains, is_white, lowered, not_after, same, shortened, split_trimmed, stripped_end, trimmed, truncate, with_first_replaced};

#[test]
fn white_space_is_that_of_the_standard_library() {
    for code in 0..=0x10FFFFu32 {
        if let Some(c) = char::from_u32(code) {
            assert_eq!(is_white(c), c.is_whitespace(), "{code:x}");
        }
    }
}

#[test]
fn trimming_matches_the_standard_library() {
    for s in ["", " ", "a", " a b ", "\u{3000}节点\u{2003}", "x/ //", "///", "\t\r\n y \u{85}"] {
        assert_eq!(trimmed(s), s.trim());
        assert_eq!(stripped_end(s, '/'), s.trim_end_matches('/'));
    }
}

#[test]
fn searching_matches_the_standard_library() {
    for (s, part) in [("https://a", "://"), ("a", "://"), ("", ""), ("abc", ""), ("aab", "ab"), ("节点", "点")] {
        assert_eq!(contains(s, part), s.contains(part), "{s} {part}");
        assert_eq!(with_first_replaced(s, part, "X"), s.replacen(part, "X", 1), "{s} {part}");
        assert_eq!(after_prefix(s, part), s.strip_prefix(part).map(String::from), "{s} {part}");
    }
}

#[test]
fn texts_are_ordered_as_strings_are() {
    let list = ["", "a", "A", "ab", "b", "节点", "节", "z", "\u{10FFFF}", "\u{E000}", "\u{D7FF}"];
    for a in list {
        for b in list {
            assert_eq!(not_after(a, b), a <= b, "{a} {b}");
            assert_eq!(same(a, b), a == b);
        }
    }
}

#[test]
fn small_letters_are_ascii_only() {
    assert_eq!(lowered("SuM"), "sum");
    assert_eq!(lowered("ÄZ节"), "ÄZ节".to_ascii_lowercase());
}

#[test]
fn pieces_are_trimmed_and_never_empty() {
    assert_eq!(split_trimmed(" a ;; b;c ", ';'), vec!["a", "b", "c"]);
    assert!(split_trimmed("", ';').is_empty());
}

#[test]
fn long_texts_end_in_an_ellipsis() {
    assert_eq!(truncate("abc", 3), "abc");
    assert_eq!(truncate("abcd", 3), "ab…");
    assert_eq!(truncate("abcd", 0), "…");
    assert_eq!(truncate("节点甲乙", 3), "节点…");
}

#[test]
fn ids_are_cut_after_eight_bytes() {
    assert_eq!(shortened("0123456789"), "01234567");
    assert_eq!(shortened("abc"), "abc");
    assert!(can_shorten("0123456789"));
    // Eight bytes end in the middle of the third character.
    assert!(!can_shorten("节点甲乙"));
    assert!(can_shorten("ab节点甲"));
    assert_eq!(shortened("ab节点甲"), "ab节点");
}
