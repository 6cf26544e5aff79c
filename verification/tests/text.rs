use daily_standup::text::{
    chars_equal, chars_of, eq_ignore_ascii_case_chars, is_white_space_char, split_chars,
    string_from_chars, trim_chars,
};

fn chars(text: &str) -> Vec<char> {
    text.chars().collect()
}

#[test]
fn trims_unicode_white_space_at_both_ends_only() {
    assert_eq!(
        trim_chars(&chars("\u{2003}\t a b \u{205f}\n")),
        chars("a b")
    );
    assert_eq!(trim_chars(&chars(" \u{85} ")), Vec::<char>::new());
    assert_eq!(trim_chars(&chars("\u{200b}x")), chars("\u{200b}x"));
    assert!(is_white_space_char('\u{1680}'));
    assert!(!is_white_space_char('\u{200b}'));
}

#[test]
fn compares_ignoring_ascii_case_only() {
    assert!(eq_ignore_ascii_case_chars(&chars("Platform"), &chars("pLATFORM")));
    assert!(!eq_ignore_ascii_case_chars(&chars("Äbc"), &chars("äbc")));
    assert!(!eq_ignore_ascii_case_chars(&chars("ab"), &chars("abc")));
    assert!(!chars_equal(&chars("ab"), &chars("aB")));
}

#[test]
fn splits_on_every_separator_and_keeps_empty_pieces() {
    let pieces = split_chars(&chars("a,,b\nc"), &vec![',', '\n']);
    assert_eq!(pieces, vec![chars("a"), chars(""), chars("b"), chars("c")]);
    assert_eq!(split_chars(&chars(""), &vec![',']), vec![chars("")]);
}

#[test]
fn converts_between_strings_and_characters() {
    assert_eq!(chars_of("héllo"), chars("héllo"));
    assert_eq!(string_from_chars(&chars("héllo")), "héllo");
}
