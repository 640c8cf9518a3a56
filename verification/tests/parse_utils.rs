use toylang::parse_utils::{
    is_decimal_digit, is_valid_identifier_first, is_valid_in_identifier, is_whitespace,
};

#[test]
fn whitespace_is_space_cr_lf() {
    assert!(is_whitespace(' '));
    assert!(is_whitespace('\r'));
    assert!(is_whitespace('\n'));
    assert!(!is_whitespace('\t'));
    assert!(!is_whitespace('a'));
    assert!(!is_whitespace('\u{a0}'));
}

#[test]
fn identifier_first_is_letter_or_underscore() {
    for c in ['A', 'Z', 'a', 'z', 'm', '_'] {
        assert!(is_valid_identifier_first(c));
    }
    for c in ['0', '9', '@', '[', '\\', ']', '^', '`', '{', ' ', 'é', '-'] {
        assert!(!is_valid_identifier_first(c));
    }
}

#[test]
fn identifier_rest_adds_digits() {
    for c in ['A', 'Z', 'a', 'z', '_', '0', '5', '9'] {
        assert!(is_valid_in_identifier(c));
    }
    for c in ['/', ':', '@', '[', '`', '{', ' ', 'é', '٣'] {
        assert!(!is_valid_in_identifier(c));
    }
}

#[test]
fn decimal_digits_are_ascii() {
    for c in ['0', '1', '9'] {
        assert!(is_decimal_digit(c));
    }
    for c in ['/', ':', 'a', '٣', '²'] {
        assert!(!is_decimal_digit(c));
    }
}
