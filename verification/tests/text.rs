use xdf_mcp::text::{
    chars_of, comes_before, contains_text, decimal_of, join, same_text, split_first, starts_with,
    text_of, trimmed, trimmed_end, trimmed_start, uppercased,
};

#[test]
fn characters_and_texts_are_exchanged() {
    let chars = chars_of("aあb");
    assert_eq!(chars, vec!['a', 'あ', 'b']);
    assert_eq!(text_of(&chars, 1, 3), "あb");
    assert_eq!(text_of(&chars, 2, 2), "");
}

#[test]
fn trimming_agrees_with_the_standard_library() {
    for s in ["", "/", "///", "a", "/a", "a/", "//a//b//", "あ/い/", " /x"] {
        assert_eq!(trimmed_start(s, '/'), s.trim_start_matches('/'));
        assert_eq!(trimmed_end(s, '/'), s.trim_end_matches('/'));
        assert_eq!(trimmed(s, '/'), s.trim_matches('/'));
    }
}

#[test]
fn splitting_agrees_with_the_standard_library() {
    for s in ["", "!/", "a!/b", "a!!/b", "a!/b!/c", "!a/b", "a!", "/!", "あ!/い"] {
        let expected = s.split_once("!/").map(|(l, r)| (l.to_string(), r.to_string()));
        assert_eq!(split_first(s, "!/"), expected);
        assert_eq!(contains_text(s, "!/"), s.contains("!/"));
    }
    assert_eq!(split_first("abc", ""), Some((String::new(), "abc".to_string())));
    assert_eq!(split_first("", ""), Some((String::new(), String::new())));
}

#[test]
fn comparisons_agree_with_the_standard_library() {
    let samples = ["", "a", "A", "ab", "b", "2024-11-05", "2025-03-26", "2025-06-18", "あ", "\u{10000}"];
    for a in samples {
        for b in samples {
            assert_eq!(same_text(a, b), a == b);
            assert_eq!(comes_before(a, b), a < b);
            assert_eq!(starts_with(a, b), a.starts_with(b));
        }
    }
}

#[test]
fn upper_case_is_for_ascii_letters_only() {
    for s in ["", "music/Sample.zms", "azAZ@[`{", "ファイルｚé.doc"] {
        assert_eq!(uppercased(s), s.to_ascii_uppercase());
    }
}

#[test]
fn numbers_are_written_in_decimal() {
    for n in [0u64, 7, 9, 10, 99, 100, 1048576, u64::MAX] {
        assert_eq!(decimal_of(n), n.to_string());
    }
}

#[test]
fn texts_are_joined() {
    let list = vec!["a".to_string(), "b".to_string(), "c".to_string()];
    assert_eq!(join(&list, ", "), "a, b, c");
    assert_eq!(join(&vec![], ", "), "");
    assert_eq!(join(&vec!["x".to_string()], ", "), "x");
}
