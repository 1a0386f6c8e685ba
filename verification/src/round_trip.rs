//! Printing and parsing are inverse to each other on the nodes that the
//! grammar can produce and the printer can write.

use crate::ast::Node;
use crate::chars::{newline, whitespace};
use crate::grammar::{
    binary_at, boolean_at, comment_at, comment_marker, false_word, infix_at, infix_operators,
    lemma_infix_at, node_at, true_word, well_formed, FailureView,
};
use crate::lexer::{
    is_identifier, keyword_at, lemma_identifier_end_is, lemma_matches_at, lemma_run_end,
    lemma_run_end_is, lemma_trim_is, lemma_trimmed, line_end, matches_at, skip_whitespace_end,
    trim, CharClass,
};
use crate::operator::BinaryOperator;
use crate::parser::{
    extend, lemma_parsed_nodes_are_well_formed, parse_from, spec_parse, ParseErrorView,
};
use crate::printer::{comment_prefix, printable, render, render_all, spec_print, PrintError};
use vstd::prelude::*;

verus! {

/// The nodes that come back unchanged from printing and parsing: those
/// that the printer can write and the grammar can produce.
///
/// So a comment does if its text has no whitespace at either end and no
/// line terminator inside, for the parser trims the text and ends it with
/// the line. A binary operation does if both operands are identifiers, the
/// left one is not a keyword, which at the start of a node reads as a
/// boolean, and the operator is one that the grammar recognizes.
pub open spec fn round_trips(node: Node) -> bool {
    printable(node) && well_formed(node)
}

/// A printed comment that fills its line reads back as the comment.
proof fn lemma_comment_rendered(s: Seq<char>, from: int, text: Seq<char>)
    requires
        round_trips(Node::Comment(text)),
        matches_at(s, from, render(Node::Comment(text))),
        from + render(Node::Comment(text)).len() < s.len() ==> newline(
            s[from + render(Node::Comment(text)).len()],
        ),
    ensures
        comment_at(s, from) == Ok::<(Node, int), FailureView>(
            (Node::Comment(text), from + render(Node::Comment(text)).len()),
        ),
{
    let written = render(Node::Comment(text));
    let end = from + written.len();
    lemma_matches_at(s, from, written);
    assert(written == comment_prefix() + text);
    assert(written.len() == 3 + text.len());
    assert(s[from + 0] == written[0]);
    assert(s[from + 1] == written[1]);
    assert(s[from + 2] == written[2]);
    assert(s.subrange(from, from + 2) =~= comment_marker());
    assert forall|k: int| from + 2 <= k < end implies CharClass::Inline.spec_contains(
        #[trigger] s[k],
    ) by {
        assert(s[from + (k - from)] == written[k - from]);
        if k > from + 2 {
            assert(written[k - from] == text[k - from - 3]);
        }
    }
    lemma_run_end_is(s, from + 2, CharClass::Inline, end);
    assert(line_end(s, from + 2) == end);
    let line = s.subrange(from + 2, end);
    assert(line.len() == 1 + text.len());
    assert(line[0] == s[from + 2]);
    assert(whitespace(line[0]));
    assert forall|k: int| 0 <= k < text.len() implies line[1 + k] == text[k] by {
        assert(line[1 + k] == s[from + (3 + k)]);
        assert(written[3 + k] == text[k]);
    }
    if text.len() > 0 {
        lemma_trimmed(text);
        assert(line[1] == text[0]);
        assert(line[line.len() - 1] == text[text.len() - 1]);
        lemma_trim_is(line, 1, line.len() as int);
        assert(line.subrange(1, line.len() as int) =~= text);
    } else {
        lemma_trim_is(line, 1, 1);
        assert(line.subrange(1, 1) =~= text);
    }
}

/// A printed binary operation that is followed by a line terminator, or by
/// nothing, reads back as the operation.
proof fn lemma_binary_rendered(s: Seq<char>, from: int, node: Node)
    requires
        node is BinaryOp,
        round_trips(node),
        matches_at(s, from, render(node)),
        from + render(node).len() < s.len() ==> newline(s[from + render(node).len()]),
    ensures
        comment_at(s, from) is Err,
        boolean_at(s, from) is Err,
        binary_at(s, from) == Ok::<(Node, int), FailureView>(
            (node, from + render(node).len()),
        ),
{
    let binary = node->BinaryOp_0;
    let lhs = binary.lhs;
    let rhs = binary.rhs;
    let op = binary.operator.spec_spelling();
    let written = render(node);
    let end = from + written.len();
    lemma_matches_at(s, from, written);
    assert(written == lhs + seq![' '] + op + seq![' '] + rhs);
    assert(binary.operator == BinaryOperator::Equality || binary.operator
        == BinaryOperator::Comparison || binary.operator == BinaryOperator::And) by {
        let k = choose|k: int|
            0 <= k < infix_operators().len() && infix_operators()[k] == binary.operator;
        assert(infix_operators().len() == 3);
    }
    assert(op.len() == 1 || op.len() == 2);
    let a = lhs.len() as int;
    let o = op.len() as int;
    let lhs_end = from + a;
    let operator_at = lhs_end + 1;
    let operator_end = operator_at + o;
    let rhs_at = operator_end + 1;
    assert(end == rhs_at + rhs.len());

    assert forall|k: int| 0 <= k < lhs.len() implies s[from + k] == lhs[k] by {
        assert(written[k] == lhs[k]);
    }
    assert(s[lhs_end] == ' ') by {
        assert(s[from + a] == written[a]);
    }
    assert forall|k: int| 0 <= k < op.len() implies s[operator_at + k] == op[k] by {
        assert(s[from + (a + 1 + k)] == written[a + 1 + k]);
    }
    assert(s[operator_end] == ' ') by {
        assert(s[from + (a + 1 + o)] == written[a + 1 + o]);
    }
    assert forall|k: int| 0 <= k < rhs.len() implies s[rhs_at + k] == rhs[k] by {
        assert(s[from + (a + 2 + o + k)] == written[a + 2 + o + k]);
    }

    // No comment and no boolean starts here.
    assert(s[from + 0] == lhs[0]);
    assert(!matches_at(s, from, comment_marker())) by {
        if matches_at(s, from, comment_marker()) {
            lemma_matches_at(s, from, comment_marker());
            assert(s[from + 0] == comment_marker()[0]);
        }
    }
    assert(s.subrange(from, lhs_end) =~= lhs);
    assert(matches_at(s, from, lhs));
    lemma_identifier_end_is(s, from, lhs);
    assert(!keyword_at(s, from, true_word()));
    assert(!keyword_at(s, from, false_word()));

    // The operator stands one space after the left operand.
    assert(whitespace(s[lhs_end]));
    assert(!whitespace(s[operator_at])) by {
        assert(s[operator_at + 0] == op[0]);
    }
    lemma_run_end_is(s, lhs_end, CharClass::Whitespace, operator_at);
    assert(s.subrange(operator_at, operator_end) =~= op);
    assert(matches_at(s, operator_at, op));
    lemma_infix_at(s, operator_at);
    let equality = BinaryOperator::Equality.spec_spelling();
    let comparison = BinaryOperator::Comparison.spec_spelling();
    if binary.operator != BinaryOperator::Equality {
        if matches_at(s, operator_at, equality) {
            lemma_matches_at(s, operator_at, equality);
            assert(s[operator_at + 0] == equality[0]);
            assert(s[operator_at + 1] == equality[1]);
            assert(s[operator_at + 0] == op[0]);
        }
        if binary.operator != BinaryOperator::Comparison && matches_at(
            s,
            operator_at,
            comparison,
        ) {
            lemma_matches_at(s, operator_at, comparison);
            assert(s[operator_at + 0] == comparison[0]);
            assert(s[operator_at + 0] == op[0]);
        }
    }
    assert(infix_at(s, operator_at) == Some(binary.operator));

    // The right operand stands one space after the operator.
    assert(whitespace(s[operator_end]));
    assert(!whitespace(s[rhs_at])) by {
        assert(s[rhs_at + 0] == rhs[0]);
    }
    lemma_run_end_is(s, operator_end, CharClass::Whitespace, rhs_at);
    assert(s.subrange(rhs_at, end) =~= rhs);
    assert(matches_at(s, rhs_at, rhs));
    lemma_identifier_end_is(s, rhs_at, rhs);
}

/// A printed node that is followed by a line terminator, or by nothing,
/// reads back as the node.
pub proof fn lemma_node_rendered(s: Seq<char>, from: int, node: Node)
    requires
        round_trips(node),
        matches_at(s, from, render(node)),
        from + render(node).len() < s.len() ==> newline(s[from + render(node).len()]),
    ensures
        node_at(s, from) == Ok::<(Node, int), Seq<FailureView>>(
            (node, from + render(node).len()),
        ),
        render(node).len() > 0,
        !whitespace(s[from]),
{
    lemma_matches_at(s, from, render(node));
    match node {
        Node::Comment(text) => {
            lemma_comment_rendered(s, from, text);
            assert(render(node)[0] == '/');
            assert(s[from + 0] == render(node)[0]);
        },
        Node::BinaryOp(binary) => {
            lemma_binary_rendered(s, from, node);
            assert(render(node)[0] == binary.lhs[0]);
            assert(s[from + 0] == render(node)[0]);
        },
        _ => {},
    }
}

/// Where the rest of `s` from `from` on is what printing `nodes` gives,
/// parsing from there gives `nodes`.
pub proof fn lemma_parse_rendered(s: Seq<char>, from: int, nodes: Seq<Node>)
    requires
        forall|i: int| 0 <= i < nodes.len() ==> round_trips(#[trigger] nodes[i]),
        matches_at(s, from, render_all(nodes)),
        from + render_all(nodes).len() == s.len(),
    ensures
        parse_from(s, from) == Ok::<Seq<Node>, Seq<FailureView>>(nodes),
    decreases nodes.len(),
{
    if nodes.len() == 0 {
        lemma_run_end(s, from, CharClass::Whitespace);
        assert(nodes =~= Seq::<Node>::empty());
    } else {
        let first = nodes[0];
        let rest = nodes.drop_first();
        let written = render(first);
        let all = render_all(nodes);
        let end = from + written.len();
        assert(round_trips(first));
        lemma_matches_at(s, from, all);
        if nodes.len() == 1 {
            assert(all == written);
            assert(rest =~= Seq::<Node>::empty());
        } else {
            assert(all == written + seq!['\n'] + render_all(rest));
            assert(s.subrange(from, end) =~= written) by {
                assert forall|k: int| 0 <= k < written.len() implies s.subrange(from, end)[k]
                    == written[k] by {
                    assert(s[from + k] == all[k]);
                }
            }
            assert(s[end] == '\n') by {
                let w = written.len() as int;
                assert(s[from + w] == all[w]);
            }
        }
        lemma_node_rendered(s, from, first);
        lemma_run_end_is(s, from, CharClass::Whitespace, from);
        assert(skip_whitespace_end(s, from) == from);
        assert(parse_from(s, from) == extend(seq![first], parse_from(s, end)));
        if nodes.len() == 1 {
            lemma_run_end(s, end, CharClass::Whitespace);
            assert(parse_from(s, end) == Ok::<Seq<Node>, Seq<FailureView>>(
                Seq::empty(),
            ));
            assert(seq![first] + Seq::<Node>::empty() =~= nodes);
        } else {
            let tail = render_all(rest);
            assert(s.subrange(end + 1, end + 1 + tail.len()) =~= tail) by {
                assert forall|k: int| 0 <= k < tail.len() implies s.subrange(
                    end + 1,
                    end + 1 + tail.len(),
                )[k] == tail[k] by {
                    let w = written.len() as int;
                    assert(s[from + (w + 1 + k)] == all[w + 1 + k]);
                }
            }
            assert forall|i: int| 0 <= i < rest.len() implies round_trips(#[trigger] rest[i]) by {
                assert(rest[i] == nodes[i + 1]);
            }
            lemma_parse_rendered(s, end + 1, rest);
            // The line feed after the node is skipped like any whitespace.
            assert(whitespace(s[end]));
            assert(skip_whitespace_end(s, end) == skip_whitespace_end(s, end + 1));
            assert(parse_from(s, end) == parse_from(s, end + 1));
            assert(seq![first] + rest =~= nodes);
        }
    }
}

/// Round trip: a sequence of nodes that each satisfy [`round_trips`] can be
/// printed, and parsing what was printed gives the same sequence.
pub proof fn lemma_round_trip(nodes: Seq<Node>)
    requires
        forall|i: int| 0 <= i < nodes.len() ==> round_trips(#[trigger] nodes[i]),
    ensures
        spec_print(nodes) == Ok::<Seq<char>, PrintError>(render_all(nodes)),
        spec_parse(render_all(nodes)) == Ok::<Seq<Node>, Seq<ParseErrorView>>(
            nodes,
        ),
{
    assert forall|i: int| 0 <= i < nodes.len() implies printable(#[trigger] nodes[i]) by {
        assert(round_trips(nodes[i]));
    }
    let text = render_all(nodes);
    assert(text.subrange(0, text.len() as int) =~= text);
    lemma_parse_rendered(text, 0, nodes);
}

/// The round trip holds of no other sequence: where printing succeeds and
/// parsing what was printed gives the sequence back, every node of it
/// satisfies [`round_trips`].
pub proof fn lemma_round_trip_only(nodes: Seq<Node>)
    requires
        spec_print(nodes) matches Ok(text) && spec_parse(text) == Ok::<
            Seq<Node>,
            Seq<ParseErrorView>,
        >(nodes),
    ensures
        forall|i: int| 0 <= i < nodes.len() ==> round_trips(#[trigger] nodes[i]),
{
    assert(forall|i: int| 0 <= i < nodes.len() ==> printable(#[trigger] nodes[i]));
    lemma_parsed_nodes_are_well_formed(render_all(nodes), nodes);
}

} // verus!
