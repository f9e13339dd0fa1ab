use herdr_updater::text::{
    contains_text, eq_ignore_case, first_line, hex_text, join, lines, number_text, one_line,
    pad_left, pad_right, padded_text, parse_number, prefix_of, replace, rsplit_once, signed_text,
    split, split_once, split_whitespace, text_precedes, trim,
};

#[test]
fn numbers_read_back() {
    for n in [0u64, 7, 10, 99, 4_294_967_296, u64::MAX] {
        assert_eq!(number_text(n), n.to_string());
        assert_eq!(parse_number(&number_text(n), u64::MAX), Some(n));
    }
    assert_eq!(parse_number("+5", 10), Some(5));
    assert_eq!(parse_number("11", 10), None);
    assert_eq!(parse_number("", 10), None);
    assert_eq!(parse_number("1a", 10), None);
    assert_eq!(signed_text(i32::MIN), "-2147483648");
    assert_eq!(padded_text(7, 3), "007");
    assert_eq!(hex_text(255, 4), "00ff");
}

#[test]
fn splitting_follows_the_standard_library() {
    for s in ["", "a", "a,b", ",a,,b,"] {
        assert_eq!(split(s, ','), s.split(',').collect::<Vec<_>>());
        assert_eq!(
            split_once(s, ','),
            s.split_once(',').map(|(a, b)| (a.to_string(), b.to_string()))
        );
        assert_eq!(rsplit_once(s, ','), s.rsplit_once(','));
    }
    for s in ["", "one", "a\nb", "a\r\nb\n", "\n\n", "a\r"] {
        assert_eq!(lines(s), s.lines().collect::<Vec<_>>());
    }
    for s in ["", "  a  b\tc\n", "x"] {
        assert_eq!(split_whitespace(s), s.split_whitespace().collect::<Vec<_>>());
        assert_eq!(trim(s), s.trim());
    }
    assert_eq!(first_line("", "none"), "none");
    assert_eq!(first_line("a\nb", "none"), "a");
}

#[test]
fn searching_and_comparing() {
    assert!(contains_text("haystack", "stack"));
    assert!(contains_text("x", ""));
    assert!(!contains_text("hay", "stack"));
    assert!(eq_ignore_case("AbC", "aBc"));
    assert!(!eq_ignore_case("ab", "abc"));
    assert!(text_precedes("a", "b"));
    assert!(text_precedes("a", "aa"));
    assert!(!text_precedes("b", "a"));
}

#[test]
fn building() {
    assert_eq!(join(&vec!["a".to_string(), "b".to_string()], ", "), "a, b");
    assert_eq!(replace("a:b:c", ':', "\\:"), "a\\:b\\:c");
    assert_eq!(pad_right("ab", 4), "ab  ");
    assert_eq!(pad_left("ab", 4), "  ab");
    assert_eq!(pad_right("abcdef", 4), "abcdef");
    assert_eq!(prefix_of("abcdef", 2), "ab");
    assert_eq!(one_line("a\nb  c", 100), "a b c");
}
