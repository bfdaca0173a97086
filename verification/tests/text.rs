use aws_ses_relay::text::{
    ascii_alphanumeric, control_char, decimal, eq_ignore_ascii_case, to_ascii_lowercase, trim,
    white_space,
};

#[test]
fn character_classes_agree_with_the_standard_library() {
    for c in '\0'..=char::MAX {
        assert_eq!(white_space(c), c.is_whitespace(), "white space: {c:?}");
        assert_eq!(control_char(c), c.is_control(), "control: {c:?}");
        assert_eq!(
            ascii_alphanumeric(c),
            c.is_ascii_alphanumeric(),
            "alphanumeric: {c:?}"
        );
    }
}

#[test]
fn trimming_agrees_with_the_standard_library() {
    for s in ["", " ", "a", " a ", "\t\u{a0}a b\u{3000}\n", "\u{200b}x", "x \u{85}"] {
        assert_eq!(trim(s), s.trim());
    }
}

#[test]
fn case_folding_is_ascii_only() {
    assert_eq!(to_ascii_lowercase("Info@Example.COM"), "info@example.com");
    assert_eq!(to_ascii_lowercase("\u{c4}B"), "\u{c4}b");
    assert!(eq_ignore_ascii_case("aws:SES", "AWS:ses"));
    assert!(!eq_ignore_ascii_case("\u{e4}", "\u{c4}"));
    assert!(!eq_ignore_ascii_case("ses", "sess"));
}

#[test]
fn decimal_writes_every_digit() {
    for n in [0, 7, 10, 50, 99, 100, 31_457_280, u64::MAX] {
        assert_eq!(decimal(n), n.to_string());
    }
}
