use groq_syntax::ast::{Binary, Literal, Unary};
use groq_syntax::operator::{BinaryOperator, UnaryOperator};
use groq_syntax::parser::parse;
use groq_syntax::printer::{print, PrintError};

fn binary(lhs: &str, operator: BinaryOperator, rhs: &str) -> Literal {
    Literal::BinaryOp(Binary { operator, lhs: lhs.to_string(), rhs: rhs.to_string() })
}

fn comment(text: &str) -> Literal {
    Literal::Comment(text.to_string())
}

fn not(rhs: &str) -> Literal {
    Literal::UnaryOp(Unary { operator: UnaryOperator::Not, rhs: rhs.to_string() })
}

#[test]
fn prints_nothing_for_no_nodes() {
    assert_eq!(print(&[]), Ok(String::new()));
}

#[test]
fn prints_a_comment_with_its_text_trimmed() {
    assert_eq!(print(&[comment("a note")]), Ok("// a note".to_string()));
    assert_eq!(print(&[comment("  a  note \t")]), Ok("// a  note".to_string()));
    assert_eq!(print(&[comment("")]), Ok("// ".to_string()));
    assert_eq!(print(&[comment(" \u{3000} ")]), Ok("// ".to_string()));
}

#[test]
fn prints_a_binary_operation_with_single_spaces() {
    assert_eq!(print(&[binary("a", BinaryOperator::Equality, "b")]), Ok("a == b".to_string()));
    assert_eq!(
        print(&[binary("something", BinaryOperator::Comparison, "som")]),
        Ok("something = som".to_string())
    );
    assert_eq!(print(&[binary("x", BinaryOperator::And, "y")]), Ok("x && y".to_string()));
}

#[test]
fn prints_every_binary_operator_by_its_spelling() {
    let cases = [
        (BinaryOperator::And, "l && r"),
        (BinaryOperator::Or, "l || r"),
        (BinaryOperator::Equality, "l == r"),
        (BinaryOperator::Comparison, "l = r"),
        (BinaryOperator::In, "l in r"),
        (BinaryOperator::Match, "l match r"),
        (BinaryOperator::Plus, "l + r"),
        (BinaryOperator::Minus, "l - r"),
        (BinaryOperator::Star, "l * r"),
        (BinaryOperator::Slash, "l / r"),
        (BinaryOperator::Percent, "l % r"),
        (BinaryOperator::StarStar, "l ** r"),
    ];
    for (operator, text) in cases {
        assert_eq!(print(&[binary("l", operator, "r")]), Ok(text.to_string()));
    }
}

#[test]
fn prints_one_node_to_a_line() {
    let nodes = vec![
        comment("first"),
        binary("a", BinaryOperator::Comparison, "b"),
        comment("second"),
        binary("c", BinaryOperator::And, "d"),
    ];
    assert_eq!(print(&nodes), Ok("// first\na = b\n// second\nc && d".to_string()));
}

#[test]
fn operands_are_written_as_they_are() {
    assert_eq!(
        print(&[binary("\"Michael\"", BinaryOperator::Equality, "a b")]),
        Ok("\"Michael\" == a b".to_string())
    );
}

#[test]
fn refuses_every_kind_without_a_written_form() {
    let unsupported = [
        Literal::Null,
        Literal::Bool(true),
        Literal::Bool(false),
        Literal::Number,
        Literal::String,
        Literal::Array,
        Literal::Object,
        not("x"),
    ];
    for node in unsupported {
        assert_eq!(print(&[node.clone()]), Err(PrintError::UnsupportedNode { index: 0 }));
        assert_eq!(
            print(&[comment("c"), node.clone()]),
            Err(PrintError::UnsupportedNode { index: 1 })
        );
    }
}

#[test]
fn names_the_first_unsupported_node() {
    let nodes = vec![
        comment("c"),
        binary("a", BinaryOperator::Equality, "b"),
        Literal::Number,
        comment("d"),
        Literal::Null,
    ];
    assert_eq!(print(&nodes), Err(PrintError::UnsupportedNode { index: 2 }));
}

#[test]
fn what_is_printed_parses_to_the_same_nodes() {
    let cases: Vec<Vec<Literal>> = vec![
        vec![],
        vec![comment("a note")],
        vec![comment("")],
        vec![comment("a // b  c")],
        vec![comment("é\u{a0}ü")],
        vec![binary("a", BinaryOperator::Equality, "b")],
        vec![binary("a", BinaryOperator::Comparison, "b")],
        vec![binary("a", BinaryOperator::And, "b")],
        vec![binary("_x1", BinaryOperator::Equality, "true")],
        vec![binary("truer", BinaryOperator::Equality, "false")],
        vec![
            comment("head"),
            binary("a", BinaryOperator::Comparison, "b"),
            binary("c", BinaryOperator::Equality, "d"),
            comment(""),
            comment("tail"),
            binary("e", BinaryOperator::And, "f"),
        ],
    ];
    for nodes in cases {
        let text = print(&nodes).unwrap();
        assert_eq!(parse(&text), Ok(nodes), "{:?}", text);
    }
}

#[test]
fn untrimmed_comment_comes_back_trimmed() {
    let nodes = vec![comment(" padded ")];
    let text = print(&nodes).unwrap();
    assert_eq!(text, "// padded");
    assert_eq!(parse(&text), Ok(vec![comment("padded")]));
}

#[test]
fn comment_with_a_line_break_does_not_come_back() {
    let text = print(&[comment("a\nb = c")]).unwrap();
    assert_eq!(text, "// a\nb = c");
    assert_eq!(parse(&text), Ok(vec![comment("a"), binary("b", BinaryOperator::Comparison, "c")]));
}

#[test]
fn keyword_as_left_operand_does_not_come_back() {
    let text = print(&[binary("true", BinaryOperator::Equality, "x")]).unwrap();
    assert_eq!(text, "true == x");
    assert!(parse(&text).is_err());
}

#[test]
fn operator_outside_the_grammar_does_not_come_back() {
    let text = print(&[binary("a", BinaryOperator::Plus, "b")]).unwrap();
    assert_eq!(text, "a + b");
    assert!(parse(&text).is_err());
}

#[test]
fn what_is_parsed_prints_and_parses_again() {
    let nodes = parse("  a==b   // note  \n\n c\n=\nd").unwrap();
    let text = print(&nodes).unwrap();
    assert_eq!(text, "a == b\n// note\nc = d");
    assert_eq!(parse(&text), Ok(nodes));
}
