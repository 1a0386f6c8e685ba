use groq_syntax::chars::{
    is_ident_continue, is_ident_start, is_newline, is_whitespace, utf8_width,
};

fn every_char() -> impl Iterator<Item = char> {
    (0u32..=0x10FFFF).filter_map(char::from_u32)
}

#[test]
fn whitespace_is_the_unicode_white_space_property() {
    for c in every_char() {
        assert_eq!(is_whitespace(c), c.is_whitespace(), "U+{:04X}", c as u32);
    }
}

#[test]
fn newline_class_has_exactly_seven_members() {
    let members: Vec<char> = every_char().filter(|c| is_newline(*c)).collect();
    assert_eq!(members, vec!['\n', '\u{b}', '\u{c}', '\r', '\u{85}', '\u{2028}', '\u{2029}']);
}

#[test]
fn every_newline_is_whitespace() {
    for c in every_char() {
        if is_newline(c) {
            assert!(is_whitespace(c));
        }
    }
}

#[test]
fn identifier_characters_are_ascii_letters_digits_and_underscore() {
    for c in every_char() {
        assert_eq!(is_ident_start(c), c.is_ascii_alphabetic() || c == '_', "U+{:04X}", c as u32);
        assert_eq!(is_ident_continue(c), c.is_ascii_alphanumeric() || c == '_', "U+{:04X}", c as u32);
    }
}

#[test]
fn utf8_width_is_the_length_of_the_encoding() {
    for c in every_char() {
        assert_eq!(utf8_width(c), c.len_utf8(), "U+{:04X}", c as u32);
    }
    assert_eq!(utf8_width('a'), 1);
    assert_eq!(utf8_width('é'), 2);
    assert_eq!(utf8_width('\u{3000}'), 3);
    assert_eq!(utf8_width('\u{1F600}'), 4);
}
