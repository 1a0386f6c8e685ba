use groq_syntax::ast::{Binary, Literal, Unary};
use groq_syntax::grammar::Expected;
use groq_syntax::operator::{BinaryOperator, UnaryOperator};
use groq_syntax::parser::{parse, parse_chars, ParseError};

fn binary(lhs: &str, operator: BinaryOperator, rhs: &str) -> Literal {
    Literal::BinaryOp(Binary { operator, lhs: lhs.to_string(), rhs: rhs.to_string() })
}

fn not(rhs: &str) -> Literal {
    Literal::UnaryOp(Unary { operator: UnaryOperator::Not, rhs: rhs.to_string() })
}

fn comment(text: &str) -> Literal {
    Literal::Comment(text.to_string())
}

fn infix() -> Vec<Expected> {
    vec![
        Expected::Binary(BinaryOperator::Equality),
        Expected::Binary(BinaryOperator::Comparison),
        Expected::Binary(BinaryOperator::And),
    ]
}

#[test]
fn parses_true() {
    assert_eq!(parse("true"), Ok(vec![Literal::Bool(true)]));
}

#[test]
fn parses_false() {
    assert_eq!(parse("false"), Ok(vec![Literal::Bool(false)]));
}

#[test]
fn parses_negation_with_space() {
    assert_eq!(parse("! isActive"), Ok(vec![not("isActive")]));
}

#[test]
fn parses_negation_without_space() {
    assert_eq!(parse("!isActive"), Ok(vec![not("isActive")]));
}

#[test]
fn string_operand_is_a_parse_error() {
    let errors = parse("name == \"Michael\"").unwrap_err();
    assert_eq!(
        errors,
        vec![
            ParseError {
                offset: 0,
                byte_offset: 0,
                line: 1,
                column: 1,
                expected: vec![
                    Expected::Comment,
                    Expected::True,
                    Expected::False,
                    Expected::Unary(UnaryOperator::Not),
                ],
            },
            ParseError { offset: 8, byte_offset: 8, line: 1, column: 9, expected: vec![Expected::Identifier] },
        ]
    );
}

#[test]
fn parses_comment_then_boolean() {
    assert_eq!(parse("// a note\ntrue"), Ok(vec![comment("a note"), Literal::Bool(true)]));
}

#[test]
fn empty_input_has_no_nodes() {
    assert_eq!(parse(""), Ok(vec![]));
}

#[test]
fn whitespace_only_input_has_no_nodes() {
    assert_eq!(parse(" \t\r\n \u{2028}\u{3000} "), Ok(vec![]));
}

#[test]
fn double_equals_is_equality() {
    assert_eq!(parse("a == b"), Ok(vec![binary("a", BinaryOperator::Equality, "b")]));
    assert_eq!(parse("a==b"), Ok(vec![binary("a", BinaryOperator::Equality, "b")]));
}

#[test]
fn single_equals_is_comparison() {
    assert_eq!(parse("a = b"), Ok(vec![binary("a", BinaryOperator::Comparison, "b")]));
    assert_eq!(parse("something=som"), Ok(vec![binary("something", BinaryOperator::Comparison, "som")]));
}

#[test]
fn double_ampersand_is_and() {
    assert_eq!(parse("a && b"), Ok(vec![binary("a", BinaryOperator::And, "b")]));
}

#[test]
fn operands_may_stand_on_other_lines() {
    assert_eq!(parse("a\n==\n\tb"), Ok(vec![binary("a", BinaryOperator::Equality, "b")]));
    assert_eq!(parse("!\n x"), Ok(vec![not("x")]));
}

#[test]
fn trailing_garbage_is_an_error_at_its_offset() {
    let errors = parse("true garbage").unwrap_err();
    assert_eq!(errors[0].offset, 5);
    assert_eq!(errors[0].line, 1);
    assert_eq!(errors[0].column, 6);
    assert_eq!(
        errors,
        vec![
            ParseError {
                offset: 5,
                byte_offset: 5,
                line: 1,
                column: 6,
                expected: vec![
                    Expected::Comment,
                    Expected::True,
                    Expected::False,
                    Expected::Unary(UnaryOperator::Not),
                ],
            },
            ParseError { offset: 12, byte_offset: 12, line: 1, column: 13, expected: infix() },
        ]
    );
}

#[test]
fn keyword_inside_identifier_is_no_boolean() {
    assert_eq!(parse("truex = y"), Ok(vec![binary("truex", BinaryOperator::Comparison, "y")]));
    assert!(parse("truex").is_err());
    assert!(parse("truefalse").is_err());
    assert_eq!(
        parse("true_ == false1"),
        Ok(vec![binary("true_", BinaryOperator::Equality, "false1")])
    );
}

#[test]
fn boolean_wins_over_binary_operation() {
    let errors = parse("true == x").unwrap_err();
    assert_eq!(errors[0].offset, 5);
    assert_eq!(
        errors[0].expected,
        vec![
            Expected::Comment,
            Expected::True,
            Expected::False,
            Expected::Identifier,
            Expected::Unary(UnaryOperator::Not),
        ]
    );
    assert_eq!(errors.len(), 1);
}

#[test]
fn boolean_may_be_a_right_operand() {
    assert_eq!(parse("x == true"), Ok(vec![binary("x", BinaryOperator::Equality, "true")]));
}

#[test]
fn nodes_need_no_space_between_them() {
    assert_eq!(parse("true!x"), Ok(vec![Literal::Bool(true), not("x")]));
    assert_eq!(parse("a=b//c"), Ok(vec![binary("a", BinaryOperator::Comparison, "b"), comment("c")]));
}

#[test]
fn several_nodes_in_order() {
    assert_eq!(
        parse("something=som false true // single line comment\n"),
        Ok(vec![
            binary("something", BinaryOperator::Comparison, "som"),
            Literal::Bool(false),
            Literal::Bool(true),
            comment("single line comment"),
        ])
    );
}

#[test]
fn comment_runs_to_the_end_of_input() {
    assert_eq!(parse("// no newline"), Ok(vec![comment("no newline")]));
    assert_eq!(parse("//"), Ok(vec![comment("")]));
    assert_eq!(parse("//   "), Ok(vec![comment("")]));
}

#[test]
fn comment_text_is_trimmed_but_keeps_inner_spaces() {
    assert_eq!(parse("//  a   b \t\ntrue"), Ok(vec![comment("a   b"), Literal::Bool(true)]));
    assert_eq!(parse("//a // b"), Ok(vec![comment("a // b")]));
}

#[test]
fn every_line_terminator_ends_a_comment() {
    for terminator in ["\n", "\r", "\r\n", "\u{b}", "\u{c}", "\u{85}", "\u{2028}", "\u{2029}"] {
        let input = format!("// c{}true", terminator);
        assert_eq!(parse(&input), Ok(vec![comment("c"), Literal::Bool(true)]));
    }
}

#[test]
fn identifier_may_not_start_with_a_digit() {
    let errors = parse("1a = b").unwrap_err();
    assert_eq!(errors.len(), 1);
    assert_eq!(errors[0].offset, 0);
    assert_eq!(
        errors[0].expected,
        vec![
            Expected::Comment,
            Expected::True,
            Expected::False,
            Expected::Identifier,
            Expected::Unary(UnaryOperator::Not),
        ]
    );
    assert_eq!(parse("_a1 = b2_"), Ok(vec![binary("_a1", BinaryOperator::Comparison, "b2_")]));
}

#[test]
fn missing_operator_is_reported_where_it_should_stand() {
    let errors = parse("a  + b").unwrap_err();
    assert_eq!(errors.len(), 2);
    assert_eq!(errors[0].offset, 0);
    assert_eq!(errors[1], ParseError { offset: 3, byte_offset: 3, line: 1, column: 4, expected: infix() });
}

#[test]
fn missing_operand_is_reported_at_the_end_of_input() {
    let errors = parse("a ==").unwrap_err();
    assert_eq!(errors.len(), 2);
    assert_eq!(errors[1], ParseError { offset: 4, byte_offset: 4, line: 1, column: 5, expected: vec![Expected::Identifier] });
    let errors = parse("!").unwrap_err();
    assert_eq!(
        errors,
        vec![
            ParseError {
                offset: 0,
                byte_offset: 0,
                line: 1,
                column: 1,
                expected: vec![Expected::Comment, Expected::True, Expected::False, Expected::Identifier],
            },
            ParseError { offset: 1, byte_offset: 1, line: 1, column: 2, expected: vec![Expected::Identifier] },
        ]
    );
}

#[test]
fn triple_equals_fails_after_equality() {
    let errors = parse("a === b").unwrap_err();
    assert_eq!(errors[1], ParseError { offset: 4, byte_offset: 4, line: 1, column: 5, expected: vec![Expected::Identifier] });
}

#[test]
fn single_ampersand_is_no_operator() {
    let errors = parse("a & b").unwrap_err();
    assert_eq!(errors[1].offset, 2);
    assert_eq!(errors[1].expected, infix());
}

#[test]
fn errors_carry_line_and_column() {
    let errors = parse("true\nfalse\n  ?").unwrap_err();
    assert_eq!(errors.len(), 1);
    assert_eq!((errors[0].offset, errors[0].line, errors[0].column), (13, 3, 3));
}

#[test]
fn carriage_return_line_feed_is_one_line_break() {
    let errors = parse("true\r\nfalse\r\n?").unwrap_err();
    assert_eq!((errors[0].offset, errors[0].line, errors[0].column), (13, 3, 1));
    let errors = parse("true\r\rfalse\n\r?").unwrap_err();
    assert_eq!((errors[0].offset, errors[0].line, errors[0].column), (13, 5, 1));
}

#[test]
fn offsets_count_characters_and_bytes() {
    let input = "// é\u{3000}ü\n\u{a0}?";
    let errors = parse(input).unwrap_err();
    assert_eq!((errors[0].offset, errors[0].line, errors[0].column), (8, 2, 2));
    assert_eq!(errors[0].byte_offset, 13);
    assert_eq!(&input[errors[0].byte_offset..], "?");
    assert_eq!(input.chars().nth(errors[0].offset), Some('?'));
}

#[test]
fn byte_offset_follows_four_byte_characters() {
    let input = "// \u{1F600}\u{10000}\n\u{2028}a == \u{1F600}";
    let errors = parse(input).unwrap_err();
    assert_eq!(errors.len(), 2);
    assert_eq!((errors[0].offset, errors[0].byte_offset), (7, 15));
    assert_eq!((errors[1].offset, errors[1].byte_offset), (12, 20));
    assert_eq!(&input[errors[0].byte_offset..errors[1].byte_offset], "a == ");
    assert_eq!((errors[1].line, errors[1].column), (3, 6));
}

#[test]
fn byte_offset_at_the_end_of_input_is_its_length() {
    let input = "a = é";
    let errors = parse(input).unwrap_err();
    assert_eq!((errors[1].offset, errors[1].byte_offset), (4, 4));
    let input = "\u{3000}!\u{3000}";
    let errors = parse(input).unwrap_err();
    assert_eq!((errors[1].offset, errors[1].byte_offset), (3, input.len()));
}

#[test]
fn an_error_discards_the_nodes_before_it() {
    assert!(parse("a = b\nc = d\n@").is_err());
}

#[test]
fn non_ascii_letters_are_not_identifier_characters() {
    let errors = parse("é = b").unwrap_err();
    assert_eq!(errors[0].offset, 0);
    let errors = parse("a = bé").unwrap_err();
    assert_eq!(errors[0].offset, 5);
}

#[test]
fn parse_chars_agrees_with_parse() {
    let text = "a == b // c\n!d true";
    let chars: Vec<char> = text.chars().collect();
    assert_eq!(parse_chars(&chars), parse(text));
    assert_eq!(
        parse(text),
        Ok(vec![
            binary("a", BinaryOperator::Equality, "b"),
            comment("c"),
            not("d"),
            Literal::Bool(true),
        ])
    );
}
