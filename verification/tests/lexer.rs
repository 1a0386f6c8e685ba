use groq_syntax::lexer::{
    identifier, keyword, literal_token, scan, skip_whitespace, trim_bounds, CharClass,
};
use groq_syntax::text::{chars_of, string_of};

fn chars(text: &str) -> Vec<char> {
    text.chars().collect()
}

#[test]
fn chars_of_gives_the_characters_in_order() {
    assert_eq!(chars_of(""), Vec::<char>::new());
    assert_eq!(chars_of("a=é\u{3000}"), vec!['a', '=', 'é', '\u{3000}']);
}

#[test]
fn string_of_copies_a_range() {
    let input = chars("héllo wörld");
    assert_eq!(string_of(&input, 0, 5), "héllo");
    assert_eq!(string_of(&input, 6, 11), "wörld");
    assert_eq!(string_of(&input, 3, 3), "");
    assert_eq!(string_of(&input, 0, 11), "héllo wörld");
}

#[test]
fn skip_whitespace_stops_at_the_first_other_character() {
    let input = chars(" \t\n x  y");
    assert_eq!(skip_whitespace(&input, 0), 4);
    assert_eq!(skip_whitespace(&input, 4), 4);
    assert_eq!(skip_whitespace(&input, 5), 7);
    assert_eq!(skip_whitespace(&input, 8), 8);
    assert_eq!(skip_whitespace(&chars("   "), 0), 3);
    assert_eq!(skip_whitespace(&chars(""), 0), 0);
}

#[test]
fn recognizers_fail_cleanly_past_the_end() {
    let input = chars("ab");
    assert_eq!(skip_whitespace(&input, 7), 7);
    assert_eq!(scan(&input, 7, CharClass::Inline), 7);
    assert_eq!(identifier(&input, 2), None);
    assert_eq!(identifier(&input, 7), None);
    assert_eq!(literal_token(&input, 7, "a"), None);
    assert_eq!(literal_token(&input, 7, ""), None);
    assert_eq!(keyword(&input, 7, "ab"), None);
}

#[test]
fn identifier_is_letters_digits_and_underscores() {
    assert_eq!(identifier(&chars("abc def"), 0), Some(3));
    assert_eq!(identifier(&chars("abc def"), 4), Some(7));
    assert_eq!(identifier(&chars("abc def"), 3), None);
    assert_eq!(identifier(&chars("_a1_B2=3"), 0), Some(6));
    assert_eq!(identifier(&chars("1abc"), 0), None);
    assert_eq!(identifier(&chars("1abc"), 1), Some(4));
    assert_eq!(identifier(&chars("aé"), 0), Some(1));
    assert_eq!(identifier(&chars("é"), 0), None);
    assert_eq!(identifier(&chars("a"), 0), Some(1));
    assert_eq!(identifier(&chars(""), 0), None);
}

#[test]
fn literal_token_matches_exact_text() {
    let input = chars("a == b");
    assert_eq!(literal_token(&input, 2, "=="), Some(4));
    assert_eq!(literal_token(&input, 2, "="), Some(3));
    assert_eq!(literal_token(&input, 3, "=="), None);
    assert_eq!(literal_token(&input, 2, "&&"), None);
    assert_eq!(literal_token(&input, 5, "b"), Some(6));
    assert_eq!(literal_token(&input, 5, "bb"), None);
    assert_eq!(literal_token(&input, 6, ""), Some(6));
    assert_eq!(literal_token(&input, 0, ""), Some(0));
    assert_eq!(literal_token(&chars("truex"), 0, "true"), Some(4));
}

#[test]
fn keyword_matches_whole_identifiers_only() {
    assert_eq!(keyword(&chars("true"), 0, "true"), Some(4));
    assert_eq!(keyword(&chars("true "), 0, "true"), Some(4));
    assert_eq!(keyword(&chars("true=x"), 0, "true"), Some(4));
    assert_eq!(keyword(&chars("truex"), 0, "true"), None);
    assert_eq!(keyword(&chars("true1"), 0, "true"), None);
    assert_eq!(keyword(&chars("true_"), 0, "true"), None);
    assert_eq!(keyword(&chars("tru"), 0, "true"), None);
    assert_eq!(keyword(&chars("xtrue"), 1, "true"), Some(5));
    assert_eq!(keyword(&chars("false"), 0, "true"), None);
    assert_eq!(keyword(&chars("true"), 0, ""), None);
    assert_eq!(keyword(&chars("=="), 0, "=="), None);
}

#[test]
fn scan_follows_a_character_class() {
    let input = chars("ab1 \n// c\r\nd");
    assert_eq!(scan(&input, 0, CharClass::IdentContinue), 3);
    assert_eq!(scan(&input, 3, CharClass::Whitespace), 5);
    assert_eq!(scan(&input, 5, CharClass::Inline), 9);
    assert_eq!(scan(&input, 9, CharClass::Inline), 9);
    assert_eq!(scan(&input, 9, CharClass::Whitespace), 11);
    assert_eq!(scan(&input, 11, CharClass::Inline), 12);
}

#[test]
fn char_classes_hold_what_they_say() {
    assert!(CharClass::Whitespace.contains(' '));
    assert!(CharClass::Whitespace.contains('\n'));
    assert!(!CharClass::Whitespace.contains('a'));
    assert!(CharClass::IdentContinue.contains('7'));
    assert!(!CharClass::IdentContinue.contains('-'));
    assert!(CharClass::Inline.contains(' '));
    assert!(CharClass::Inline.contains('x'));
    assert!(!CharClass::Inline.contains('\n'));
    assert!(!CharClass::Inline.contains('\u{2029}'));
}

#[test]
fn trim_bounds_cut_whitespace_at_both_ends() {
    let input = chars("xx  a b \t yy");
    assert_eq!(trim_bounds(&input, 2, 10), (4, 7));
    assert_eq!(trim_bounds(&input, 0, 12), (0, 12));
    assert_eq!(trim_bounds(&input, 2, 4), (4, 4));
    assert_eq!(trim_bounds(&input, 7, 10), (10, 10));
    assert_eq!(trim_bounds(&input, 5, 5), (5, 5));
    assert_eq!(trim_bounds(&input, 4, 5), (4, 5));
}
