//! The productions of the language.
//!
//! Every production is stated twice: as a specification function over the
//! input's characters, which is the definition, and as an executable
//! recognizer that is proved to compute exactly that function. A production
//! reads from a position that holds no whitespace and gives either a node
//! together with the position after it, or the place where it could not go
//! on and what it would have needed there.

use crate::ast::{Binary, Literal, Node, Unary};
use crate::chars::newline;
use crate::lexer::{
    identifier, identifier_end, is_identifier, keyword, keyword_at, lemma_identifier_end,
    lemma_run_end, lemma_trim_bounds, lemma_trim_twice, line_end, literal_token, matches_at, scan,
    skip_whitespace, skip_whitespace_end, trim, trim_bounds, CharClass,
};
use crate::operator::{BinaryOperator, UnaryOperator};
use crate::text::string_of;
use vstd::prelude::*;

verus! {

/// Something a production would have accepted at the place where it failed.
#[derive(Clone, Copy, Debug, PartialEq, Eq, Hash, Structural)]
pub enum Expected {
    /// The `//` that opens a comment.
    Comment,
    /// The keyword `true`.
    True,
    /// The keyword `false`.
    False,
    /// An identifier.
    Identifier,
    /// A prefix operator.
    Unary(UnaryOperator),
    /// An infix operator.
    Binary(BinaryOperator),
}

impl Expected {
    /// How this expectation reads in a message: the text that was looked
    /// for, or `identifier`.
    pub open spec fn spec_describe(self) -> Seq<char> {
        match self {
            Expected::Comment => comment_marker(),
            Expected::True => true_word(),
            Expected::False => false_word(),
            Expected::Identifier => seq!['i', 'd', 'e', 'n', 't', 'i', 'f', 'i', 'e', 'r'],
            Expected::Unary(operator) => operator.spec_spelling(),
            Expected::Binary(operator) => operator.spec_spelling(),
        }
    }

    /// How this expectation reads in a message.
    pub fn describe(self) -> (text: &'static str)
        ensures
            text@ == self.spec_describe(),
    {
        proof {
            reveal_strlit("//");
            reveal_strlit("true");
            reveal_strlit("false");
            reveal_strlit("identifier");
        }
        match self {
            Expected::Comment => {
                assert("//"@ =~= comment_marker());
                "//"
            },
            Expected::True => {
                assert("true"@ =~= true_word());
                "true"
            },
            Expected::False => {
                assert("false"@ =~= false_word());
                "false"
            },
            Expected::Identifier => {
                assert("identifier"@ =~= Expected::Identifier.spec_describe());
                "identifier"
            },
            Expected::Unary(operator) => operator.spelling(),
            Expected::Binary(operator) => operator.spelling(),
        }
    }
}

/// Where a production could not go on, and what it would have accepted
/// there.
#[derive(Clone, Debug, PartialEq, Eq)]
pub struct Failure {
    pub offset: usize,
    pub expected: Vec<Expected>,
}

/// What a [`Failure`] is.
pub struct FailureView {
    pub offset: int,
    pub expected: Seq<Expected>,
}

impl View for Failure {
    type V = FailureView;

    open spec fn view(&self) -> FailureView {
        FailureView { offset: self.offset as int, expected: self.expected@ }
    }
}

impl DeepView for Failure {
    type V = FailureView;

    open spec fn deep_view(&self) -> FailureView {
        self@
    }
}

/// What a production gives: a node and the position after it, or a failure.
pub type Outcome = Result<(Literal, usize), Failure>;

/// What an [`Outcome`] is.
pub type OutcomeView = Result<(Node, int), FailureView>;

/// The view of an outcome: the node's view and the position, or the
/// failure's view.
pub open spec fn outcome_view(outcome: Outcome) -> OutcomeView {
    match outcome {
        Ok((literal, next)) => Ok((literal@, next as int)),
        Err(failure) => Err(failure@),
    }
}

/// The two characters that open a comment.
pub open spec fn comment_marker() -> Seq<char> {
    seq!['/', '/']
}

/// The keyword `true`.
pub open spec fn true_word() -> Seq<char> {
    seq!['t', 'r', 'u', 'e']
}

/// The keyword `false`.
pub open spec fn false_word() -> Seq<char> {
    seq!['f', 'a', 'l', 's', 'e']
}

/// The infix operators the grammar recognizes, in the order in which it
/// tries them. `==` stands before `=`, so that the shorter spelling never
/// hides the longer one.
pub open spec fn infix_operators() -> Seq<BinaryOperator> {
    seq![BinaryOperator::Equality, BinaryOperator::Comparison, BinaryOperator::And]
}

/// The first operator of [`infix_operators`] from index `k` on whose
/// spelling stands at `from`.
pub open spec fn infix_from(s: Seq<char>, from: int, k: int) -> Option<BinaryOperator>
    decreases infix_operators().len() - k,
{
    if 0 <= k < infix_operators().len() {
        if matches_at(s, from, infix_operators()[k].spec_spelling()) {
            Some(infix_operators()[k])
        } else {
            infix_from(s, from, k + 1)
        }
    } else {
        None
    }
}

/// The infix operator that stands at `from`.
pub open spec fn infix_at(s: Seq<char>, from: int) -> Option<BinaryOperator> {
    infix_from(s, from, 0)
}

/// What is expected where an infix operator is missing: each operator of
/// [`infix_operators`], in order.
pub open spec fn infix_expected() -> Seq<Expected> {
    infix_operators().map_values(|op: BinaryOperator| Expected::Binary(op))
}

/// Comment: `//`, then everything up to the end of the line. The node
/// holds that text without the whitespace around it; the line terminator
/// is left in the input.
pub open spec fn comment_at(s: Seq<char>, from: int) -> OutcomeView {
    if matches_at(s, from, comment_marker()) {
        let end = line_end(s, from + 2);
        Ok((Node::Comment(trim(s.subrange(from + 2, end))), end))
    } else {
        Err(FailureView { offset: from, expected: seq![Expected::Comment] })
    }
}

/// Boolean literal: the keyword `true` or `false`, and not a longer
/// identifier that begins with one of them.
pub open spec fn boolean_at(s: Seq<char>, from: int) -> OutcomeView {
    if keyword_at(s, from, true_word()) {
        Ok((Node::Bool(true), from + 4))
    } else if keyword_at(s, from, false_word()) {
        Ok((Node::Bool(false), from + 5))
    } else {
        Err(FailureView { offset: from, expected: seq![Expected::True, Expected::False] })
    }
}

/// Binary operator application: an identifier, an infix operator and an
/// identifier, with any whitespace between them. The operands are kept as
/// the identifiers' text.
pub open spec fn binary_at(s: Seq<char>, from: int) -> OutcomeView {
    let lhs_end = identifier_end(s, from);
    if lhs_end == from {
        Err(FailureView { offset: from, expected: seq![Expected::Identifier] })
    } else {
        let operator_at = skip_whitespace_end(s, lhs_end);
        match infix_at(s, operator_at) {
            None => Err(FailureView { offset: operator_at, expected: infix_expected() }),
            Some(operator) => {
                let rhs_at = skip_whitespace_end(s, operator_at + operator.spec_spelling().len());
                let rhs_end = identifier_end(s, rhs_at);
                if rhs_end == rhs_at {
                    Err(FailureView { offset: rhs_at, expected: seq![Expected::Identifier] })
                } else {
                    Ok(
                        (
                            Node::BinaryOp(
                                Binary {
                                    operator,
                                    lhs: s.subrange(from, lhs_end),
                                    rhs: s.subrange(rhs_at, rhs_end),
                                },
                            ),
                            rhs_end,
                        ),
                    )
                }
            },
        }
    }
}

/// Unary operator application: `!`, any whitespace, and an identifier. The
/// operand is kept as the identifier's text.
pub open spec fn unary_at(s: Seq<char>, from: int) -> OutcomeView {
    if matches_at(s, from, UnaryOperator::Not.spec_spelling()) {
        let rhs_at = skip_whitespace_end(s, from + 1);
        let rhs_end = identifier_end(s, rhs_at);
        if rhs_end == rhs_at {
            Err(FailureView { offset: rhs_at, expected: seq![Expected::Identifier] })
        } else {
            Ok(
                (
                    Node::UnaryOp(
                        Unary { operator: UnaryOperator::Not, rhs: s.subrange(rhs_at, rhs_end) },
                    ),
                    rhs_end,
                ),
            )
        }
    } else {
        Err(
            FailureView {
                offset: from,
                expected: seq![Expected::Unary(UnaryOperator::Not)],
            },
        )
    }
}

/// What the failures that arose at `at` itself would have accepted there,
/// in the order of the failures.
pub open spec fn expected_here(failures: Seq<FailureView>, at: int) -> Seq<Expected>
    decreases failures.len(),
{
    if failures.len() == 0 {
        Seq::empty()
    } else {
        let rest = expected_here(failures.drop_last(), at);
        if failures.last().offset == at {
            rest + failures.last().expected
        } else {
            rest
        }
    }
}

/// The failures that arose elsewhere than at `at`, in their order.
pub open spec fn failures_beyond(failures: Seq<FailureView>, at: int) -> Seq<FailureView>
    decreases failures.len(),
{
    if failures.len() == 0 {
        Seq::empty()
    } else {
        let rest = failures_beyond(failures.drop_last(), at);
        if failures.last().offset == at {
            rest
        } else {
            rest.push(failures.last())
        }
    }
}

/// The report for a position at which every alternative failed. It opens
/// with one failure at `at` that names everything the alternatives that
/// failed right there would have accepted. After it come, unchanged, the
/// failures of the alternatives that got further before they failed.
pub open spec fn report(failures: Seq<FailureView>, at: int) -> Seq<FailureView> {
    seq![FailureView { offset: at, expected: expected_here(failures, at) }] + failures_beyond(
        failures,
        at,
    )
}

/// A top-level node: the first of comment, boolean, binary operation and
/// unary operation that matches at `from`. Where none does, the report of
/// the four failures.
pub open spec fn node_at(s: Seq<char>, from: int) -> Result<(Node, int), Seq<FailureView>> {
    match comment_at(s, from) {
        Ok(found) => Ok(found),
        Err(no_comment) => match boolean_at(s, from) {
            Ok(found) => Ok(found),
            Err(no_boolean) => match binary_at(s, from) {
                Ok(found) => Ok(found),
                Err(no_binary) => match unary_at(s, from) {
                    Ok(found) => Ok(found),
                    Err(no_unary) => Err(
                        report(seq![no_comment, no_boolean, no_binary, no_unary], from),
                    ),
                },
            },
        },
    }
}

/// Whether the grammar can produce this node.
///
/// A comment holds trimmed text without a line terminator. A binary
/// operation holds two identifiers, the left one no keyword, and one of
/// [`infix_operators`]. A unary operation holds `!` and an identifier.
/// Every boolean can be produced; a node of any other kind cannot.
pub open spec fn well_formed(node: Node) -> bool {
    match node {
        Node::Comment(text) => {
            &&& trim(text) == text
            &&& forall|k: int| 0 <= k < text.len() ==> !newline(#[trigger] text[k])
        },
        Node::Bool(_) => true,
        Node::BinaryOp(binary) => {
            &&& is_identifier(binary.lhs)
            &&& is_identifier(binary.rhs)
            &&& binary.lhs != true_word()
            &&& binary.lhs != false_word()
            &&& infix_operators().contains(binary.operator)
        },
        Node::UnaryOp(unary) => unary.operator == UnaryOperator::Not && is_identifier(unary.rhs),
        _ => false,
    }
}

/// A production that succeeds inside the input ends after where it began
/// and inside the input; one that fails, fails at or after where it began
/// and no later than the end of the input.
pub open spec fn well_placed(outcome: OutcomeView, from: int, len: int) -> bool {
    match outcome {
        Ok((_, next)) => from < next <= len,
        Err(failure) => from <= failure.offset <= len,
    }
}

/// A comment is well placed.
pub proof fn lemma_comment_at(s: Seq<char>, from: int)
    requires
        0 <= from <= s.len(),
    ensures
        well_placed(comment_at(s, from), from, s.len() as int),
{
    if matches_at(s, from, comment_marker()) {
        lemma_run_end(s, from + 2, CharClass::Inline);
    }
}

/// A boolean literal is well placed.
pub proof fn lemma_boolean_at(s: Seq<char>, from: int)
    requires
        0 <= from <= s.len(),
    ensures
        well_placed(boolean_at(s, from), from, s.len() as int),
{
}

/// The infix operator at a position is the first of `==`, `=` and `&&`
/// that stands there, and its spelling does stand there.
pub proof fn lemma_infix_at(s: Seq<char>, from: int)
    ensures
        infix_at(s, from) matches Some(op) ==> matches_at(s, from, op.spec_spelling())
            && op.spec_spelling().len() > 0,
        infix_at(s, from) == if matches_at(s, from, BinaryOperator::Equality.spec_spelling()) {
            Some(BinaryOperator::Equality)
        } else if matches_at(s, from, BinaryOperator::Comparison.spec_spelling()) {
            Some(BinaryOperator::Comparison)
        } else if matches_at(s, from, BinaryOperator::And.spec_spelling()) {
            Some(BinaryOperator::And)
        } else {
            None
        },
{
    reveal_with_fuel(infix_from, 4);
    assert(infix_operators()[0] == BinaryOperator::Equality);
    assert(infix_operators()[1] == BinaryOperator::Comparison);
    assert(infix_operators()[2] == BinaryOperator::And);
    assert(BinaryOperator::Equality.spec_spelling().len() == 2);
    assert(BinaryOperator::Comparison.spec_spelling().len() == 1);
    assert(BinaryOperator::And.spec_spelling().len() == 2);
}

/// Longest match: where `==` stands, the operator read is equality, never
/// a comparison followed by a stray `=`.
pub proof fn lemma_equality_before_comparison(s: Seq<char>, from: int)
    requires
        matches_at(s, from, BinaryOperator::Equality.spec_spelling()),
    ensures
        matches_at(s, from, BinaryOperator::Comparison.spec_spelling()),
        infix_at(s, from) == Some(BinaryOperator::Equality),
{
    lemma_infix_at(s, from);
    let double = BinaryOperator::Equality.spec_spelling();
    let single = BinaryOperator::Comparison.spec_spelling();
    assert(double.len() == 2);
    assert(single.len() == 1);
    assert(s.subrange(from, from + 2)[0] == double[0]);
    assert(s.subrange(from, from + 1) =~= single);
}

/// A binary operation is well placed.
pub proof fn lemma_binary_at(s: Seq<char>, from: int)
    requires
        0 <= from <= s.len(),
    ensures
        well_placed(binary_at(s, from), from, s.len() as int),
{
    lemma_identifier_end(s, from);
    let lhs_end = identifier_end(s, from);
    if lhs_end != from {
        lemma_run_end(s, lhs_end, CharClass::Whitespace);
        let operator_at = skip_whitespace_end(s, lhs_end);
        lemma_infix_at(s, operator_at);
        match infix_at(s, operator_at) {
            None => {},
            Some(operator) => {
                let after = operator_at + operator.spec_spelling().len();
                lemma_run_end(s, after, CharClass::Whitespace);
                lemma_identifier_end(s, skip_whitespace_end(s, after));
            },
        }
    }
}

/// A unary operation is well placed.
pub proof fn lemma_unary_at(s: Seq<char>, from: int)
    requires
        0 <= from <= s.len(),
    ensures
        well_placed(unary_at(s, from), from, s.len() as int),
{
    if matches_at(s, from, UnaryOperator::Not.spec_spelling()) {
        assert(UnaryOperator::Not.spec_spelling().len() == 1);
        lemma_run_end(s, from + 1, CharClass::Whitespace);
        lemma_identifier_end(s, skip_whitespace_end(s, from + 1));
    }
}

/// A node is at least one character long and ends inside the input. A
/// report is never empty, opens at the position where the node was looked
/// for, and names no position outside the input.
pub proof fn lemma_node_at(s: Seq<char>, from: int)
    requires
        0 <= from <= s.len(),
    ensures
        match node_at(s, from) {
            Ok((_, next)) => from < next <= s.len(),
            Err(failures) => {
                &&& failures.len() > 0
                &&& failures[0].offset == from
                &&& forall|k: int|
                    0 <= k < failures.len() ==> from <= (#[trigger] failures[k]).offset <= s.len()
            },
        },
{
    lemma_comment_at(s, from);
    lemma_boolean_at(s, from);
    lemma_binary_at(s, from);
    lemma_unary_at(s, from);
    if let Err(failures) = node_at(s, from) {
        let all = seq![
            comment_at(s, from)->Err_0,
            boolean_at(s, from)->Err_0,
            binary_at(s, from)->Err_0,
            unary_at(s, from)->Err_0,
        ];
        assert(failures == report(all, from));
        lemma_failures_beyond(all, from, s.len() as int);
    }
}

/// Every node that a production gives is well formed.
pub proof fn lemma_node_at_well_formed(s: Seq<char>, from: int)
    requires
        0 <= from <= s.len(),
    ensures
        node_at(s, from) matches Ok((node, _)) ==> well_formed(node),
{
    match node_at(s, from) {
        Ok((Node::Comment(text), _)) => {
            let end = line_end(s, from + 2);
            lemma_run_end(s, from + 2, CharClass::Inline);
            let line = s.subrange(from + 2, end);
            assert(text == trim(line));
            lemma_trim_twice(line);
            lemma_trim_bounds(line);
            let a = skip_whitespace_end(line, 0);
            assert forall|k: int| 0 <= k < text.len() implies !newline(#[trigger] text[k]) by {
                assert(text[k] == line[a + k]);
                assert(line[a + k] == s[from + 2 + a + k]);
                assert(CharClass::Inline.spec_contains(s[from + 2 + a + k]));
            }
        },
        Ok((Node::BinaryOp(binary), _)) => {
            assert(comment_at(s, from) is Err);
            assert(boolean_at(s, from) is Err);
            lemma_identifier_end(s, from);
            let lhs_end = identifier_end(s, from);
            lemma_run_end(s, lhs_end, CharClass::Whitespace);
            let operator_at = skip_whitespace_end(s, lhs_end);
            lemma_infix_at(s, operator_at);
            let after = operator_at + binary.operator.spec_spelling().len();
            lemma_run_end(s, after, CharClass::Whitespace);
            lemma_identifier_end(s, skip_whitespace_end(s, after));
            if binary.lhs == true_word() {
                assert(keyword_at(s, from, true_word()));
            }
            if binary.lhs == false_word() {
                assert(keyword_at(s, from, false_word()));
            }
            assert(infix_operators()[0] == BinaryOperator::Equality);
            assert(infix_operators()[1] == BinaryOperator::Comparison);
            assert(infix_operators()[2] == BinaryOperator::And);
        },
        Ok((Node::UnaryOp(unary), _)) => {
            assert(comment_at(s, from) is Err);
            assert(boolean_at(s, from) is Err);
            assert(binary_at(s, from) is Err);
            assert(UnaryOperator::Not.spec_spelling().len() == 1);
            lemma_run_end(s, from + 1, CharClass::Whitespace);
            lemma_identifier_end(s, skip_whitespace_end(s, from + 1));
        },
        _ => {},
    }
}

/// The failures beyond a position are among the failures given, so they
/// lie where those lie.
pub proof fn lemma_failures_beyond(failures: Seq<FailureView>, at: int, len: int)
    requires
        forall|k: int| 0 <= k < failures.len() ==> at <= (#[trigger] failures[k]).offset <= len,
    ensures
        forall|k: int|
            0 <= k < failures_beyond(failures, at).len() ==> at < (#[trigger] failures_beyond(
                failures,
                at,
            )[k]).offset <= len,
    decreases failures.len(),
{
    if failures.len() > 0 {
        let shorter = failures.drop_last();
        let last = failures.last();
        assert forall|k: int| 0 <= k < shorter.len() implies at <= (#[trigger] shorter[k]).offset
            <= len by {
            assert(shorter[k] == failures[k]);
        }
        lemma_failures_beyond(shorter, at, len);
        assert(at <= last.offset <= len);
        let rest = failures_beyond(shorter, at);
        let all = failures_beyond(failures, at);
        assert forall|k: int| 0 <= k < all.len() implies at < (#[trigger] all[k]).offset
            <= len by {
            if last.offset == at {
                assert(all == rest);
            } else {
                assert(all == rest.push(last));
                if k < rest.len() {
                    assert(all[k] == rest[k]);
                } else {
                    assert(all[k] == last);
                }
            }
        }
    }
}

/// Adding one failure to the end of a sequence adds it to the report: to
/// what is expected at `at` if it arose there, and to the failures beyond
/// otherwise.
pub proof fn lemma_report_push(failures: Seq<FailureView>, failure: FailureView, at: int)
    ensures
        expected_here(failures.push(failure), at) == if failure.offset == at {
            expected_here(failures, at) + failure.expected
        } else {
            expected_here(failures, at)
        },
        failures_beyond(failures.push(failure), at) == if failure.offset == at {
            failures_beyond(failures, at)
        } else {
            failures_beyond(failures, at).push(failure)
        },
{
    assert(failures.push(failure).drop_last() =~= failures);
    assert(failures.push(failure).last() == failure);
}

/// A vector that holds one expectation.
fn expecting(expected: Expected) -> (list: Vec<Expected>)
    ensures
        list@ == seq![expected],
{
    let list = vec![expected];
    assert(list@ =~= seq![expected]);
    list
}

/// Recognizes a comment at `from`.
pub fn comment(input: &[char], from: usize) -> (outcome: Outcome)
    ensures
        outcome_view(outcome) == comment_at(input@, from as int),
{
    proof {
        reveal_strlit("//");
        assert("//"@ =~= comment_marker());
    }
    match literal_token(input, from, "//") {
        Some(body) => {
            let end = scan(input, body, CharClass::Inline);
            let (a, b) = trim_bounds(input, body, end);
            let text = string_of(input, a, b);
            Ok((Literal::Comment(text), end))
        },
        None => Err(Failure { offset: from, expected: expecting(Expected::Comment) }),
    }
}

/// Recognizes a boolean literal at `from`.
pub fn boolean(input: &[char], from: usize) -> (outcome: Outcome)
    ensures
        outcome_view(outcome) == boolean_at(input@, from as int),
{
    proof {
        reveal_strlit("true");
        reveal_strlit("false");
        assert("true"@ =~= true_word());
        assert("false"@ =~= false_word());
    }
    if let Some(end) = keyword(input, from, "true") {
        Ok((Literal::Bool(true), end))
    } else if let Some(end) = keyword(input, from, "false") {
        Ok((Literal::Bool(false), end))
    } else {
        let expected = vec![Expected::True, Expected::False];
        assert(expected@ =~= seq![Expected::True, Expected::False]);
        Err(Failure { offset: from, expected })
    }
}

/// Recognizes one of [`infix_operators`] at `from`: the operator and the
/// position after its spelling.
pub fn infix_operator(input: &[char], from: usize) -> (found: Option<(BinaryOperator, usize)>)
    ensures
        match found {
            Some((operator, end)) => infix_at(input@, from as int) == Some(operator) && end == from
                + operator.spec_spelling().len(),
            None => infix_at(input@, from as int) is None,
        },
{
    proof {
        lemma_infix_at(input@, from as int);
    }
    if let Some(end) = literal_token(input, from, BinaryOperator::Equality.spelling()) {
        Some((BinaryOperator::Equality, end))
    } else if let Some(end) = literal_token(input, from, BinaryOperator::Comparison.spelling()) {
        Some((BinaryOperator::Comparison, end))
    } else if let Some(end) = literal_token(input, from, BinaryOperator::And.spelling()) {
        Some((BinaryOperator::And, end))
    } else {
        None
    }
}

/// What is expected where an infix operator is missing.
fn infix_expectations() -> (expected: Vec<Expected>)
    ensures
        expected@ == infix_expected(),
{
    let expected = vec![
        Expected::Binary(BinaryOperator::Equality),
        Expected::Binary(BinaryOperator::Comparison),
        Expected::Binary(BinaryOperator::And),
    ];
    assert(expected@ =~= infix_expected());
    expected
}

/// Recognizes a binary operator application at `from`.
pub fn binary_operation(input: &[char], from: usize) -> (outcome: Outcome)
    ensures
        outcome_view(outcome) == binary_at(input@, from as int),
{
    let lhs_end = match identifier(input, from) {
        Some(end) => end,
        None => {
            return Err(Failure { offset: from, expected: expecting(Expected::Identifier) });
        },
    };
    let operator_at = skip_whitespace(input, lhs_end);
    let (operator, operator_end) = match infix_operator(input, operator_at) {
        Some(found) => found,
        None => {
            return Err(Failure { offset: operator_at, expected: infix_expectations() });
        },
    };
    let rhs_at = skip_whitespace(input, operator_end);
    let rhs_end = match identifier(input, rhs_at) {
        Some(end) => end,
        None => {
            return Err(Failure { offset: rhs_at, expected: expecting(Expected::Identifier) });
        },
    };
    let lhs = string_of(input, from, lhs_end);
    let rhs = string_of(input, rhs_at, rhs_end);
    Ok((Literal::BinaryOp(Binary { operator, lhs, rhs }), rhs_end))
}

/// Recognizes a unary operator application at `from`.
pub fn unary_operation(input: &[char], from: usize) -> (outcome: Outcome)
    ensures
        outcome_view(outcome) == unary_at(input@, from as int),
{
    let operator_end = match literal_token(input, from, UnaryOperator::Not.spelling()) {
        Some(end) => end,
        None => {
            return Err(
                Failure { offset: from, expected: expecting(Expected::Unary(UnaryOperator::Not)) },
            );
        },
    };
    assert(UnaryOperator::Not.spec_spelling().len() == 1);
    let rhs_at = skip_whitespace(input, operator_end);
    let rhs_end = match identifier(input, rhs_at) {
        Some(end) => end,
        None => {
            return Err(Failure { offset: rhs_at, expected: expecting(Expected::Identifier) });
        },
    };
    let rhs = string_of(input, rhs_at, rhs_end);
    Ok((Literal::UnaryOp(Unary { operator: UnaryOperator::Not, rhs }), rhs_end))
}

/// Files one alternative's failure in a report under construction for
/// position `at`: under what is expected at `at` if it arose there, among
/// the failures beyond otherwise.
fn record(failure: Failure, at: usize, here: &mut Vec<Expected>, beyond: &mut Vec<Failure>)
    ensures
        final(here)@ == if failure.offset == at {
            old(here)@ + failure.expected@
        } else {
            old(here)@
        },
        final(beyond).deep_view() == if failure.offset == at {
            old(beyond).deep_view()
        } else {
            old(beyond).deep_view().push(failure@)
        },
{
    if failure.offset == at {
        let mut expected = failure.expected;
        here.append(&mut expected);
    } else {
        let ghost before = beyond.deep_view();
        beyond.push(failure);
        assert(beyond.deep_view() =~= before.push(failure@));
    }
}

/// Recognizes a top-level node at `from`, trying the productions in their
/// fixed order: comment, boolean, binary operation, unary operation.
pub fn node(input: &[char], from: usize) -> (outcome: Result<(Literal, usize), Vec<Failure>>)
    ensures
        match outcome {
            Ok((literal, next)) => node_at(input@, from as int) == Ok::<
                (Node, int),
                Seq<FailureView>,
            >((literal@, next as int)),
            Err(failures) => node_at(input@, from as int) == Err::<(Node, int), Seq<FailureView>>(
                failures.deep_view(),
            ),
        },
{
    let no_comment = match comment(input, from) {
        Ok(found) => {
            return Ok(found);
        },
        Err(failure) => failure,
    };
    let no_boolean = match boolean(input, from) {
        Ok(found) => {
            return Ok(found);
        },
        Err(failure) => failure,
    };
    let no_binary = match binary_operation(input, from) {
        Ok(found) => {
            return Ok(found);
        },
        Err(failure) => failure,
    };
    let no_unary = match unary_operation(input, from) {
        Ok(found) => {
            return Ok(found);
        },
        Err(failure) => failure,
    };
    proof {
        let at = from as int;
        let none = Seq::<FailureView>::empty();
        let one = none.push(no_comment@);
        let two = one.push(no_boolean@);
        let three = two.push(no_binary@);
        let four = three.push(no_unary@);
        lemma_report_push(none, no_comment@, at);
        lemma_report_push(one, no_boolean@, at);
        lemma_report_push(two, no_binary@, at);
        lemma_report_push(three, no_unary@, at);
        assert(four =~= seq![no_comment@, no_boolean@, no_binary@, no_unary@]);
    }
    let mut here: Vec<Expected> = Vec::new();
    let mut beyond: Vec<Failure> = Vec::new();
    assert(beyond.deep_view() =~= Seq::<FailureView>::empty());
    record(no_comment, from, &mut here, &mut beyond);
    record(no_boolean, from, &mut here, &mut beyond);
    record(no_binary, from, &mut here, &mut beyond);
    record(no_unary, from, &mut here, &mut beyond);
    let mut failures: Vec<Failure> = Vec::new();
    failures.push(Failure { offset: from, expected: here });
    let ghost head = failures.deep_view();
    let ghost tail = beyond.deep_view();
    failures.append(&mut beyond);
    assert(failures.deep_view() =~= head + tail);
    assert(head =~= seq![FailureView { offset: from as int, expected: here@ }]);
    Err(failures)
}

} // verus!
