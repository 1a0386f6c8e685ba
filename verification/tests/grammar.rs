use groq_syntax::ast::{Binary, Literal, Unary};
use groq_syntax::grammar::{
    binary_operation, boolean, comment, infix_operator, node, unary_operation, Expected, Failure,
};
use groq_syntax::operator::{BinaryOperator, UnaryOperator};

fn chars(text: &str) -> Vec<char> {
    text.chars().collect()
}

fn failure(offset: usize, expected: Vec<Expected>) -> Failure {
    Failure { offset, expected }
}

fn infix() -> Vec<Expected> {
    vec![
        Expected::Binary(BinaryOperator::Equality),
        Expected::Binary(BinaryOperator::Comparison),
        Expected::Binary(BinaryOperator::And),
    ]
}

#[test]
fn comment_production() {
    let input = chars("x //  note \ny");
    assert_eq!(comment(&input, 2), Ok((Literal::Comment("note".to_string()), 11)));
    assert_eq!(comment(&input, 0), Err(failure(0, vec![Expected::Comment])));
    assert_eq!(comment(&input, 3), Err(failure(3, vec![Expected::Comment])));
    assert_eq!(comment(&chars("//"), 0), Ok((Literal::Comment(String::new()), 2)));
    assert_eq!(comment(&chars("/"), 0), Err(failure(0, vec![Expected::Comment])));
    assert_eq!(comment(&chars(""), 0), Err(failure(0, vec![Expected::Comment])));
}

#[test]
fn boolean_production() {
    assert_eq!(boolean(&chars("true"), 0), Ok((Literal::Bool(true), 4)));
    assert_eq!(boolean(&chars("false!"), 0), Ok((Literal::Bool(false), 5)));
    assert_eq!(
        boolean(&chars("truth"), 0),
        Err(failure(0, vec![Expected::True, Expected::False]))
    );
    assert_eq!(
        boolean(&chars("falsey"), 0),
        Err(failure(0, vec![Expected::True, Expected::False]))
    );
    assert_eq!(boolean(&chars(" true"), 0), Err(failure(0, vec![Expected::True, Expected::False])));
    assert_eq!(boolean(&chars(" true"), 1), Ok((Literal::Bool(true), 5)));
}

#[test]
fn infix_operator_tries_the_longer_spelling_first() {
    assert_eq!(infix_operator(&chars("=="), 0), Some((BinaryOperator::Equality, 2)));
    assert_eq!(infix_operator(&chars("=x"), 0), Some((BinaryOperator::Comparison, 1)));
    assert_eq!(infix_operator(&chars("="), 0), Some((BinaryOperator::Comparison, 1)));
    assert_eq!(infix_operator(&chars("==="), 0), Some((BinaryOperator::Equality, 2)));
    assert_eq!(infix_operator(&chars("==="), 2), Some((BinaryOperator::Comparison, 3)));
    assert_eq!(infix_operator(&chars("&&"), 0), Some((BinaryOperator::And, 2)));
    assert_eq!(infix_operator(&chars("&"), 0), None);
    assert_eq!(infix_operator(&chars("||"), 0), None);
    assert_eq!(infix_operator(&chars("+"), 0), None);
    assert_eq!(infix_operator(&chars(""), 0), None);
}

#[test]
fn binary_production() {
    let input = chars("lhs  ==\trhs;");
    assert_eq!(
        binary_operation(&input, 0),
        Ok((
            Literal::BinaryOp(Binary {
                operator: BinaryOperator::Equality,
                lhs: "lhs".to_string(),
                rhs: "rhs".to_string(),
            }),
            11
        ))
    );
    assert_eq!(binary_operation(&chars("=b"), 0), Err(failure(0, vec![Expected::Identifier])));
    assert_eq!(binary_operation(&chars("a b"), 0), Err(failure(2, infix())));
    assert_eq!(binary_operation(&chars("a"), 0), Err(failure(1, infix())));
    assert_eq!(binary_operation(&chars("a = "), 0), Err(failure(4, vec![Expected::Identifier])));
    assert_eq!(binary_operation(&chars("a=1"), 0), Err(failure(2, vec![Expected::Identifier])));
}

#[test]
fn unary_production() {
    assert_eq!(
        unary_operation(&chars("! \n x=1"), 0),
        Ok((Literal::UnaryOp(Unary { operator: UnaryOperator::Not, rhs: "x".to_string() }), 5))
    );
    assert_eq!(
        unary_operation(&chars("x"), 0),
        Err(failure(0, vec![Expected::Unary(UnaryOperator::Not)]))
    );
    assert_eq!(unary_operation(&chars("!!x"), 0), Err(failure(1, vec![Expected::Identifier])));
    assert_eq!(unary_operation(&chars("! "), 0), Err(failure(2, vec![Expected::Identifier])));
    assert_eq!(
        unary_operation(&chars("-x"), 0),
        Err(failure(0, vec![Expected::Unary(UnaryOperator::Not)]))
    );
}

#[test]
fn node_takes_the_first_production_that_matches() {
    assert_eq!(node(&chars("//x"), 0), Ok((Literal::Comment("x".to_string()), 3)));
    assert_eq!(node(&chars("true"), 0), Ok((Literal::Bool(true), 4)));
    assert_eq!(
        node(&chars("t=u"), 0),
        Ok((
            Literal::BinaryOp(Binary {
                operator: BinaryOperator::Comparison,
                lhs: "t".to_string(),
                rhs: "u".to_string(),
            }),
            3
        ))
    );
    assert_eq!(
        node(&chars("!t"), 0),
        Ok((Literal::UnaryOp(Unary { operator: UnaryOperator::Not, rhs: "t".to_string() }), 2))
    );
}

#[test]
fn node_reports_every_alternative_at_the_failure_point() {
    assert_eq!(
        node(&chars("?"), 0),
        Err(vec![failure(
            0,
            vec![
                Expected::Comment,
                Expected::True,
                Expected::False,
                Expected::Identifier,
                Expected::Unary(UnaryOperator::Not),
            ]
        )])
    );
    assert_eq!(
        node(&chars("a ?"), 0),
        Err(vec![
            failure(
                0,
                vec![
                    Expected::Comment,
                    Expected::True,
                    Expected::False,
                    Expected::Unary(UnaryOperator::Not),
                ]
            ),
            failure(2, infix()),
        ])
    );
    assert_eq!(
        node(&chars("! ?"), 0),
        Err(vec![
            failure(
                0,
                vec![Expected::Comment, Expected::True, Expected::False, Expected::Identifier]
            ),
            failure(2, vec![Expected::Identifier]),
        ])
    );
}

#[test]
fn node_at_the_end_of_input_fails_there() {
    assert_eq!(
        node(&chars("ab"), 2),
        Err(vec![failure(
            2,
            vec![
                Expected::Comment,
                Expected::True,
                Expected::False,
                Expected::Identifier,
                Expected::Unary(UnaryOperator::Not),
            ]
        )])
    );
}

#[test]
fn expectations_describe_themselves() {
    assert_eq!(Expected::Comment.describe(), "//");
    assert_eq!(Expected::True.describe(), "true");
    assert_eq!(Expected::False.describe(), "false");
    assert_eq!(Expected::Identifier.describe(), "identifier");
    assert_eq!(Expected::Unary(UnaryOperator::Not).describe(), "!");
    assert_eq!(Expected::Binary(BinaryOperator::Equality).describe(), "==");
    assert_eq!(Expected::Binary(BinaryOperator::Comparison).describe(), "=");
    assert_eq!(Expected::Binary(BinaryOperator::And).describe(), "&&");
}
