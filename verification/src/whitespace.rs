//! Whitespace at the edges of lines carries no meaning: trimming every
//! line of an input leaves the parsed nodes as they were.

use crate::ast::Node;
use crate::chars::{ident_continue, ident_start, newline, whitespace};
use crate::grammar::{
    binary_at, boolean_at, comment_at, comment_marker, false_word, infix_at, lemma_infix_at,
    lemma_node_at, node_at, true_word, unary_at, FailureView, OutcomeView,
};
use crate::lexer::{
    identifier_end, keyword_at, lemma_identifier_end, lemma_matches_at, lemma_run_end,
    lemma_run_end_is, lemma_trim_push, line_end, matches_at, run_end, scan,
    skip_whitespace_end, trim, trim_bounds, trim_end, trim_start, CharClass,
};
use crate::operator::{BinaryOperator, UnaryOperator};
use crate::parser::{parse_from, spec_parse, ParseErrorView};
use crate::text::chars_of;
use vstd::prelude::*;

verus! {

/// Whitespace that does not end a line.
pub open spec fn inline_whitespace(c: char) -> bool {
    whitespace(c) && !newline(c)
}

/// Whether position `p` holds whitespace at the edge of its line: inline
/// whitespace that the start of the line directly precedes, or that the
/// end of the line directly follows.
pub open spec fn at_line_edge(s: Seq<char>, p: int) -> bool {
    &&& 0 <= p < s.len()
    &&& inline_whitespace(s[p])
    &&& (p == 0 || newline(s[p - 1]) || p + 1 == s.len() || newline(s[p + 1]))
}

/// Where position `i` of a sequence lies once the character at `p` is
/// taken out.
pub open spec fn moved(p: int, i: int) -> int {
    if i <= p {
        i
    } else {
        i - 1
    }
}

/// The nodes of a parse result, or `None` for a failed parse.
pub open spec fn nodes_of(result: Result<Seq<Node>, Seq<FailureView>>) -> Option<Seq<Node>> {
    match result {
        Ok(nodes) => Some(nodes),
        Err(_) => None,
    }
}

/// What parsing `s` gives when only the nodes count: the nodes, or `None`
/// where `s` does not parse.
pub open spec fn parsed_nodes(s: Seq<char>) -> Option<Seq<Node>> {
    nodes_of(parse_from(s, 0))
}

/// Whether two outcomes agree up to where they lie: both fail, or both
/// give the same node and the second ends where the first does once the
/// character at `p` is taken out.
pub open spec fn same_outcome(p: int, with: OutcomeView, without: OutcomeView) -> bool {
    match (with, without) {
        (Ok((node, next)), Ok((other, other_next))) => node == other && other_next == moved(
            p,
            next,
        ),
        (Err(_), Err(_)) => true,
        _ => false,
    }
}

/// What taking out one character does to the characters around it.
pub proof fn lemma_remove(s: Seq<char>, p: int)
    requires
        0 <= p < s.len(),
    ensures
        s.remove(p).len() == s.len() - 1,
        forall|i: int| 0 <= i < p ==> #[trigger] s.remove(p)[i] == s[i],
        forall|i: int| p <= i < s.len() - 1 ==> #[trigger] s.remove(p)[i] == s[i + 1],
{
}

/// A part of `s` that does not hold position `p` is still there, moved,
/// once the character at `p` is taken out.
pub proof fn lemma_subrange_without(s: Seq<char>, p: int, a: int, b: int)
    requires
        0 <= p < s.len(),
        0 <= a <= b <= s.len(),
        b <= p || a > p,
    ensures
        s.remove(p).subrange(moved(p, a), moved(p, b)) == s.subrange(a, b),
{
    lemma_remove(s, p);
    assert(s.remove(p).subrange(moved(p, a), moved(p, b)) =~= s.subrange(a, b));
}

/// A run is still a run once a character is taken out, unless that
/// character was all that kept two runs apart.
pub proof fn lemma_run_end_without(s: Seq<char>, p: int, from: int, class: CharClass)
    requires
        0 <= p < s.len(),
        0 <= from <= s.len(),
        from <= p && run_end(s, from, class) == p && p + 1 < s.len() ==> class.spec_contains(s[p])
            || !class.spec_contains(s[p + 1]),
    ensures
        run_end(s.remove(p), moved(p, from), class) == moved(p, run_end(s, from, class)),
{
    let t = s.remove(p);
    let r = run_end(s, from, class);
    let j = moved(p, from);
    let e = moved(p, r);
    lemma_remove(s, p);
    lemma_run_end(s, from, class);
    assert forall|k: int| j <= k < e implies class.spec_contains(#[trigger] t[k]) by {
        if k < p {
            assert(t[k] == s[k]);
        } else {
            assert(t[k] == s[k + 1]);
        }
    }
    if e < t.len() {
        if e < p {
            assert(t[e] == s[e]);
        } else {
            assert(t[e] == s[e + 1]);
        }
    }
    lemma_run_end_is(t, j, class, e);
}

/// Text without whitespace never lies across a whitespace character.
pub proof fn lemma_match_stops_before(s: Seq<char>, p: int, from: int, text: Seq<char>)
    requires
        0 <= from < p < s.len(),
        whitespace(s[p]),
        matches_at(s, from, text),
        forall|k: int| 0 <= k < text.len() ==> !whitespace(#[trigger] text[k]),
    ensures
        from + text.len() <= p,
{
    lemma_matches_at(s, from, text);
    if from + text.len() > p {
        assert(s[from + (p - from)] == text[p - from]);
    }
}

/// A text without whitespace stands at a position exactly if it stands
/// there once whitespace at the edge of a line is taken out.
pub proof fn lemma_matches_at_without(s: Seq<char>, p: int, from: int, text: Seq<char>)
    requires
        at_line_edge(s, p),
        0 <= from <= s.len(),
        from != p,
        forall|k: int| 0 <= k < text.len() ==> !whitespace(#[trigger] text[k]),
    ensures
        matches_at(s.remove(p), moved(p, from), text) == matches_at(s, from, text),
{
    let t = s.remove(p);
    let j = moved(p, from);
    let n = text.len() as int;
    lemma_remove(s, p);
    if matches_at(s, from, text) {
        lemma_matches_at(s, from, text);
        if from < p {
            lemma_match_stops_before(s, p, from, text);
        }
        lemma_subrange_without(s, p, from, from + n);
        assert(moved(p, from + n) == j + n);
    }
    if matches_at(t, j, text) {
        lemma_matches_at(t, j, text);
        if from < p && from + n > p {
            // The text would lie across the place of the character taken
            // out, with a line terminator or the end of the input in it.
            assert(t[j + (p - 1 - j)] == text[p - 1 - j]);
            assert(t[j + (p - j)] == text[p - j]);
            assert(t[p - 1] == s[p - 1]);
            assert(t[p] == s[p + 1]);
            assert(false);
        }
        if from < p {
            assert(s.subrange(from, from + n) =~= t.subrange(j, j + n));
        } else {
            assert(s.subrange(from, from + n) =~= t.subrange(j, j + n));
        }
    }
}

/// An identifier is the same identifier once whitespace at the edge of a
/// line is taken out.
pub proof fn lemma_identifier_end_without(s: Seq<char>, p: int, from: int)
    requires
        at_line_edge(s, p),
        0 <= from <= s.len(),
        from != p,
    ensures
        identifier_end(s.remove(p), moved(p, from)) == moved(p, identifier_end(s, from)),
        from < p ==> identifier_end(s, from) <= p,
        s.remove(p).subrange(moved(p, from), moved(p, identifier_end(s, from))) == s.subrange(
            from,
            identifier_end(s, from),
        ),
{
    let t = s.remove(p);
    lemma_remove(s, p);
    lemma_identifier_end(s, from);
    let end = identifier_end(s, from);
    if from < s.len() && ident_start(s[from]) {
        lemma_run_end(s, from + 1, CharClass::IdentContinue);
        if from < p && end > p {
            assert(ident_continue(s[p]));
        }
        if from + 1 <= p && end == p && p + 1 < s.len() {
            assert(s[p - 1] == s[from] || ident_continue(s[p - 1]));
            assert(!newline(s[p - 1]));
            assert(newline(s[p + 1]));
        }
        lemma_run_end_without(s, p, from + 1, CharClass::IdentContinue);
        assert(t[moved(p, from)] == s[from]);
        assert(moved(p, from) + 1 == moved(p, from + 1));
    } else {
        if from < s.len() {
            assert(t[moved(p, from)] == s[from]);
        }
    }
    lemma_subrange_without(s, p, from, end);
}

/// No character of the texts that the grammar looks for is whitespace.
pub proof fn lemma_fixed_texts()
    ensures
        forall|k: int| 0 <= k < comment_marker().len() ==> !whitespace(#[trigger] comment_marker()[k]),
        forall|k: int| 0 <= k < true_word().len() ==> !whitespace(#[trigger] true_word()[k]),
        forall|k: int| 0 <= k < false_word().len() ==> !whitespace(#[trigger] false_word()[k]),
        forall|k: int|
            0 <= k < BinaryOperator::Equality.spec_spelling().len() ==> !whitespace(
                #[trigger] BinaryOperator::Equality.spec_spelling()[k],
            ),
        forall|k: int|
            0 <= k < BinaryOperator::Comparison.spec_spelling().len() ==> !whitespace(
                #[trigger] BinaryOperator::Comparison.spec_spelling()[k],
            ),
        forall|k: int|
            0 <= k < BinaryOperator::And.spec_spelling().len() ==> !whitespace(
                #[trigger] BinaryOperator::And.spec_spelling()[k],
            ),
        forall|k: int|
            0 <= k < UnaryOperator::Not.spec_spelling().len() ==> !whitespace(
                #[trigger] UnaryOperator::Not.spec_spelling()[k],
            ),
{
}

/// Skipping whitespace ends at the same character once whitespace at the
/// edge of a line is taken out.
pub proof fn lemma_skip_whitespace_without(s: Seq<char>, p: int, from: int)
    requires
        at_line_edge(s, p),
        0 <= from <= s.len(),
    ensures
        skip_whitespace_end(s.remove(p), moved(p, from)) == moved(p, skip_whitespace_end(s, from)),
        from <= skip_whitespace_end(s, from) <= s.len(),
        skip_whitespace_end(s, from) != p,
{
    lemma_run_end(s, from, CharClass::Whitespace);
    lemma_run_end_without(s, p, from, CharClass::Whitespace);
}

/// A comment is the same comment once whitespace at the edge of a line is
/// taken out.
pub proof fn lemma_comment_without(s: Seq<char>, p: int, from: int)
    requires
        at_line_edge(s, p),
        0 <= from <= s.len(),
        from != p,
    ensures
        same_outcome(p, comment_at(s, from), comment_at(s.remove(p), moved(p, from))),
{
    let t = s.remove(p);
    let j = moved(p, from);
    lemma_remove(s, p);
    lemma_fixed_texts();
    lemma_matches_at_without(s, p, from, comment_marker());
    if matches_at(s, from, comment_marker()) {
        let body = from + 2;
        if from < p {
            lemma_match_stops_before(s, p, from, comment_marker());
        }
        assert(moved(p, body) == j + 2);
        let end = line_end(s, body);
        lemma_run_end(s, body, CharClass::Inline);
        lemma_run_end_without(s, p, body, CharClass::Inline);
        assert(line_end(t, j + 2) == moved(p, end));
        if body <= p < end {
            // The character taken out is the last one of the comment's line.
            lemma_matches_at(s, from, comment_marker());
            assert(s[from + 1] == comment_marker()[1]);
            if p > body {
                assert(CharClass::Inline.spec_contains(s[p - 1]));
            }
            assert(!newline(s[p - 1]));
            if p + 1 < s.len() {
                assert(newline(s[p + 1]));
                if end > p + 1 {
                    assert(CharClass::Inline.spec_contains(s[p + 1]));
                }
            }
            assert(end == p + 1);
            let kept = s.subrange(body, p);
            assert(s.subrange(body, end) =~= kept.push(s[p]));
            assert(t.subrange(j + 2, moved(p, end)) =~= kept);
            lemma_trim_push(kept, s[p]);
        } else {
            if body <= p {
                assert(end != p);
            }
            lemma_subrange_without(s, p, body, end);
        }
    }
}

/// A keyword is the same keyword once whitespace at the edge of a line is
/// taken out.
pub proof fn lemma_keyword_without(s: Seq<char>, p: int, from: int, word: Seq<char>)
    requires
        at_line_edge(s, p),
        0 <= from <= s.len(),
        from != p,
        forall|k: int| 0 <= k < word.len() ==> !whitespace(#[trigger] word[k]),
    ensures
        keyword_at(s.remove(p), moved(p, from), word) == keyword_at(s, from, word),
        keyword_at(s, from, word) ==> moved(p, from + word.len()) == moved(p, from) + word.len(),
{
    lemma_matches_at_without(s, p, from, word);
    lemma_identifier_end_without(s, p, from);
}

/// A boolean literal is the same literal once whitespace at the edge of a
/// line is taken out.
pub proof fn lemma_boolean_without(s: Seq<char>, p: int, from: int)
    requires
        at_line_edge(s, p),
        0 <= from <= s.len(),
        from != p,
    ensures
        same_outcome(p, boolean_at(s, from), boolean_at(s.remove(p), moved(p, from))),
{
    lemma_fixed_texts();
    lemma_keyword_without(s, p, from, true_word());
    lemma_keyword_without(s, p, from, false_word());
    assert(true_word().len() == 4);
    assert(false_word().len() == 5);
}

/// The same infix operator stands at a position once whitespace at the
/// edge of a line is taken out, and it ends at the same character.
pub proof fn lemma_infix_without(s: Seq<char>, p: int, from: int)
    requires
        at_line_edge(s, p),
        0 <= from <= s.len(),
        from != p,
    ensures
        infix_at(s.remove(p), moved(p, from)) == infix_at(s, from),
        infix_at(s, from) matches Some(op) ==> {
            &&& from + op.spec_spelling().len() <= s.len()
            &&& moved(p, from + op.spec_spelling().len()) == moved(p, from)
                + op.spec_spelling().len()
        },
{
    lemma_fixed_texts();
    lemma_infix_at(s, from);
    lemma_infix_at(s.remove(p), moved(p, from));
    lemma_matches_at_without(s, p, from, BinaryOperator::Equality.spec_spelling());
    lemma_matches_at_without(s, p, from, BinaryOperator::Comparison.spec_spelling());
    lemma_matches_at_without(s, p, from, BinaryOperator::And.spec_spelling());
    match infix_at(s, from) {
        Some(op) => {
            if from < p {
                lemma_match_stops_before(s, p, from, op.spec_spelling());
            }
        },
        None => {},
    }
}

/// An operand, read after any whitespace that follows `from`, is the same
/// operand once whitespace at the edge of a line is taken out.
proof fn lemma_operand_without(s: Seq<char>, p: int, from: int)
    requires
        at_line_edge(s, p),
        0 <= from <= s.len(),
    ensures
        ({
            let at = skip_whitespace_end(s, from);
            let end = identifier_end(s, at);
            let other_at = skip_whitespace_end(s.remove(p), moved(p, from));
            let other_end = identifier_end(s.remove(p), other_at);
            &&& other_at == moved(p, at)
            &&& other_end == moved(p, end)
            &&& (end == at) == (other_end == other_at)
            &&& from <= at <= end <= s.len()
            &&& s.remove(p).subrange(other_at, other_end) == s.subrange(at, end)
        }),
{
    lemma_skip_whitespace_without(s, p, from);
    let at = skip_whitespace_end(s, from);
    lemma_identifier_end(s, at);
    lemma_identifier_end_without(s, p, at);
}

/// A binary operation is the same operation once whitespace at the edge of
/// a line is taken out.
pub proof fn lemma_binary_without(s: Seq<char>, p: int, from: int)
    requires
        at_line_edge(s, p),
        0 <= from <= s.len(),
        from != p,
    ensures
        same_outcome(p, binary_at(s, from), binary_at(s.remove(p), moved(p, from))),
{
    lemma_identifier_end(s, from);
    lemma_identifier_end_without(s, p, from);
    let lhs_end = identifier_end(s, from);
    if lhs_end != from {
        lemma_skip_whitespace_without(s, p, lhs_end);
        let operator_at = skip_whitespace_end(s, lhs_end);
        lemma_infix_without(s, p, operator_at);
        match infix_at(s, operator_at) {
            Some(operator) => {
                lemma_operand_without(s, p, operator_at + operator.spec_spelling().len());
            },
            None => {},
        }
    }
}

/// A unary operation is the same operation once whitespace at the edge of
/// a line is taken out.
pub proof fn lemma_unary_without(s: Seq<char>, p: int, from: int)
    requires
        at_line_edge(s, p),
        0 <= from <= s.len(),
        from != p,
    ensures
        same_outcome(p, unary_at(s, from), unary_at(s.remove(p), moved(p, from))),
{
    let not = UnaryOperator::Not.spec_spelling();
    lemma_fixed_texts();
    lemma_matches_at_without(s, p, from, not);
    assert(not.len() == 1);
    if matches_at(s, from, not) {
        if from < p {
            lemma_match_stops_before(s, p, from, not);
        }
        lemma_operand_without(s, p, from + 1);
    }
}

/// The parse from `from` on gives the same nodes once whitespace at the
/// edge of a line is taken out.
pub proof fn lemma_parse_without(s: Seq<char>, p: int, from: int)
    requires
        at_line_edge(s, p),
        0 <= from <= s.len(),
    ensures
        nodes_of(parse_from(s.remove(p), moved(p, from))) == nodes_of(parse_from(s, from)),
    decreases s.len() - from,
{
    let t = s.remove(p);
    lemma_remove(s, p);
    lemma_skip_whitespace_without(s, p, from);
    let at = skip_whitespace_end(s, from);
    if at < s.len() {
        lemma_comment_without(s, p, at);
        lemma_boolean_without(s, p, at);
        lemma_binary_without(s, p, at);
        lemma_unary_without(s, p, at);
        lemma_node_at(s, at);
        match node_at(s, at) {
            Ok((node, next)) => {
                assert(node_at(t, moved(p, at)) == Ok::<(Node, int), Seq<FailureView>>(
                    (node, moved(p, next)),
                ));
                lemma_parse_without(s, p, next);
            },
            Err(_) => {
                assert(node_at(t, moved(p, at)) is Err);
            },
        }
    }
}

/// Taking out one whitespace character at the edge of a line leaves the
/// parsed nodes as they were.
pub proof fn lemma_edge_whitespace_is_ignored(s: Seq<char>, p: int)
    requires
        at_line_edge(s, p),
    ensures
        parsed_nodes(s.remove(p)) == parsed_nodes(s),
{
    lemma_parse_without(s, p, 0);
}

/// `s` with the whitespace at both ends of every line taken out. Lines are
/// what the line terminators separate; every terminator stays in place.
pub open spec fn spec_trim_each_line(s: Seq<char>) -> Seq<char>
    decreases s.len(),
{
    let end = line_end(s, 0);
    if 0 <= end < s.len() {
        trim(s.take(end)) + seq![s[end]] + spec_trim_each_line(s.skip(end + 1))
    } else {
        trim(s)
    }
}

/// Whether `line` holds no line terminator.
pub open spec fn is_line(line: Seq<char>) -> bool {
    forall|k: int| 0 <= k < line.len() ==> !newline(#[trigger] line[k])
}

/// Whether a line may begin right after `before`: nothing precedes it, or
/// a line terminator does.
pub open spec fn ends_with_break(before: Seq<char>) -> bool {
    before.len() == 0 || newline(before.last())
}

/// Whether a line may end right before `after`: nothing follows it, or a
/// line terminator does.
pub open spec fn starts_with_break(after: Seq<char>) -> bool {
    after.len() == 0 || newline(after[0])
}

/// Whitespace at the start of a line is ignored.
proof fn lemma_leading_is_ignored(before: Seq<char>, line: Seq<char>, after: Seq<char>)
    requires
        ends_with_break(before),
        is_line(line),
    ensures
        parsed_nodes(before + trim_start(line) + after) == parsed_nodes(before + line + after),
    decreases line.len(),
{
    lemma_run_end(line, 0, CharClass::Whitespace);
    let k = skip_whitespace_end(line, 0);
    if line.len() > 0 && whitespace(line[0]) {
        let s = before + line + after;
        let p = before.len() as int;
        let shorter = line.drop_first();
        assert(s[p] == line[0]);
        if p > 0 {
            assert(s[p - 1] == before.last());
        }
        lemma_edge_whitespace_is_ignored(s, p);
        assert(s.remove(p) =~= before + shorter + after);
        assert forall|i: int| 0 <= i < shorter.len() implies !newline(#[trigger] shorter[i]) by {
            assert(shorter[i] == line[i + 1]);
        }
        lemma_leading_is_ignored(before, shorter, after);
        assert(k >= 1);
        assert forall|i: int| 0 <= i < k - 1 implies CharClass::Whitespace.spec_contains(
            #[trigger] shorter[i],
        ) by {
            assert(shorter[i] == line[i + 1]);
        }
        if k - 1 < shorter.len() {
            assert(shorter[k - 1] == line[k]);
        }
        lemma_run_end_is(shorter, 0, CharClass::Whitespace, k - 1);
        assert(trim_start(shorter) =~= trim_start(line));
    } else {
        assert(k == 0);
        assert(trim_start(line) =~= line);
    }
}

/// Whitespace at the end of a line is ignored.
proof fn lemma_trailing_is_ignored(before: Seq<char>, line: Seq<char>, after: Seq<char>)
    requires
        is_line(line),
        starts_with_break(after),
    ensures
        parsed_nodes(before + trim_end(line) + after) == parsed_nodes(before + line + after),
    decreases line.len(),
{
    if line.len() > 0 && whitespace(line.last()) {
        let s = before + line + after;
        let p = before.len() + line.len() - 1;
        let shorter = line.drop_last();
        assert(s[p] == line.last());
        if p + 1 < s.len() {
            assert(s[p + 1] == after[0]);
        }
        lemma_edge_whitespace_is_ignored(s, p);
        assert(s.remove(p) =~= before + shorter + after);
        assert forall|i: int| 0 <= i < shorter.len() implies !newline(#[trigger] shorter[i]) by {
            assert(shorter[i] == line[i]);
        }
        lemma_trailing_is_ignored(before, shorter, after);
    }
}

/// Whitespace at both ends of one line is ignored.
pub proof fn lemma_trimmed_line_is_ignored(before: Seq<char>, line: Seq<char>, after: Seq<char>)
    requires
        ends_with_break(before),
        is_line(line),
        starts_with_break(after),
    ensures
        parsed_nodes(before + trim(line) + after) == parsed_nodes(before + line + after),
{
    lemma_leading_is_ignored(before, line, after);
    lemma_run_end(line, 0, CharClass::Whitespace);
    let inner = trim_start(line);
    assert forall|i: int| 0 <= i < inner.len() implies !newline(#[trigger] inner[i]) by {
        assert(inner[i] == line[i + skip_whitespace_end(line, 0)]);
    }
    lemma_trailing_is_ignored(before, inner, after);
}

/// Concatenation may be regrouped.
proof fn lemma_regroup(a: Seq<char>, b: Seq<char>, c: Seq<char>, d: Seq<char>)
    ensures
        a + b + (c + d) == a + b + c + d,
        a + (b + c + d) == a + b + c + d,
{
    assert(a + b + (c + d) =~= a + b + c + d);
    assert(a + (b + c + d) =~= a + b + c + d);
}

/// An input whose first line has a terminator is that line, the
/// terminator, and what follows; trimming each line trims the first line
/// and each line of what follows.
proof fn lemma_first_line(rest: Seq<char>)
    requires
        0 <= line_end(rest, 0) < rest.len(),
    ensures
        ({
            let end = line_end(rest, 0);
            let line = rest.take(end);
            let terminator = seq![rest[end]];
            let following = rest.skip(end + 1);
            &&& is_line(line)
            &&& newline(rest[end])
            &&& rest == line + terminator + following
            &&& spec_trim_each_line(rest) == trim(line) + terminator + spec_trim_each_line(following)
            &&& following.len() < rest.len()
        }),
{
    lemma_run_end(rest, 0, CharClass::Inline);
    let end = line_end(rest, 0);
    let line = rest.take(end);
    assert forall|k: int| 0 <= k < line.len() implies !newline(#[trigger] line[k]) by {
        assert(line[k] == rest[k]);
        assert(CharClass::Inline.spec_contains(rest[k]));
    }
    assert(rest =~= line + seq![rest[end]] + rest.skip(end + 1));
}

/// An input without a line terminator is one line.
proof fn lemma_last_line(rest: Seq<char>)
    requires
        !(0 <= line_end(rest, 0) < rest.len()),
    ensures
        is_line(rest),
        spec_trim_each_line(rest) == trim(rest),
{
    lemma_run_end(rest, 0, CharClass::Inline);
    assert forall|k: int| 0 <= k < rest.len() implies !newline(#[trigger] rest[k]) by {
        assert(CharClass::Inline.spec_contains(rest[k]));
    }
}

/// Trimming every line of what follows a line break is ignored.
proof fn lemma_trimmed_lines_are_ignored(before: Seq<char>, rest: Seq<char>)
    requires
        ends_with_break(before),
    ensures
        parsed_nodes(before + spec_trim_each_line(rest)) == parsed_nodes(before + rest),
    decreases rest.len(),
{
    let end = line_end(rest, 0);
    if 0 <= end < rest.len() {
        lemma_first_line(rest);
        let line = rest.take(end);
        let terminator = seq![rest[end]];
        let following = rest.skip(end + 1);
        let after = terminator + following;
        let done = before + trim(line) + terminator;
        assert(starts_with_break(after)) by {
            assert(after[0] == rest[end]);
        }
        assert(ends_with_break(done)) by {
            assert(done.last() == rest[end]);
        }
        lemma_trimmed_line_is_ignored(before, line, after);
        lemma_trimmed_lines_are_ignored(done, following);
        lemma_regroup(before, line, terminator, following);
        lemma_regroup(before, trim(line), terminator, following);
        lemma_regroup(before, trim(line), terminator, spec_trim_each_line(following));
    } else {
        lemma_last_line(rest);
        lemma_trimmed_line_is_ignored(before, rest, Seq::empty());
        assert(before + rest + Seq::<char>::empty() =~= before + rest);
        assert(before + trim(rest) + Seq::<char>::empty() =~= before + trim(rest));
    }
}

/// Whitespace law: an input and the same input with every line trimmed
/// parse to the same nodes, and where one does not parse, neither does
/// the other.
pub proof fn lemma_trim_each_line_is_ignored(s: Seq<char>)
    ensures
        parsed_nodes(spec_trim_each_line(s)) == parsed_nodes(s),
        spec_parse(s) matches Ok(nodes) ==> spec_parse(spec_trim_each_line(s)) == Ok::<
            Seq<Node>,
            Seq<ParseErrorView>,
        >(nodes),
        spec_parse(s) is Err ==> spec_parse(spec_trim_each_line(s)) is Err,
{
    lemma_trimmed_lines_are_ignored(Seq::empty(), s);
    assert(Seq::<char>::empty() + s =~= s);
    assert(Seq::<char>::empty() + spec_trim_each_line(s) =~= spec_trim_each_line(s));
}

/// Trims every line of `input`: takes out the whitespace at both ends of
/// each line and keeps every line terminator.
pub fn trim_each_line(input: &str) -> (trimmed: String)
    ensures
        trimmed@ == spec_trim_each_line(input@),
{
    let chars = chars_of(input);
    let mut trimmed = String::new();
    let mut from: usize = 0;
    assert(chars@.skip(0) =~= chars@);
    loop
        invariant_except_break
            from <= chars@.len(),
            trimmed@ + spec_trim_each_line(chars@.skip(from as int)) == spec_trim_each_line(chars@),
        ensures
            trimmed@ == spec_trim_each_line(chars@),
        decreases chars@.len() - from,
    {
        let ghost rest = chars@.skip(from as int);
        let ghost before = trimmed@;
        let end = scan(chars.as_slice(), from, CharClass::Inline);
        let (a, b) = trim_bounds(chars.as_slice(), from, end);
        proof {
            lemma_run_end(chars@, from as int, CharClass::Inline);
            lemma_run_end(rest, 0, CharClass::Inline);
            assert forall|k: int| 0 <= k < end - from implies CharClass::Inline.spec_contains(
                #[trigger] rest[k],
            ) by {
                assert(rest[k] == chars@[from + k]);
            }
            if end < chars@.len() {
                assert(rest[end - from] == chars@[end as int]);
            }
            lemma_run_end_is(rest, 0, CharClass::Inline, end - from);
            assert(rest.take(end - from) =~= chars@.subrange(from as int, end as int));
            assert(rest.subrange(0, rest.len() as int) =~= rest);
        }
        let mut i: usize = a;
        while i < b
            invariant
                a <= i <= b <= chars@.len(),
                trimmed@ == before + chars@.subrange(a as int, i as int),
            decreases b - i,
        {
            trimmed.push(chars[i]);
            i += 1;
            assert(trimmed@ =~= before + chars@.subrange(a as int, i as int));
        }
        if end >= chars.len() {
            proof {
                assert(rest =~= chars@.subrange(from as int, end as int));
            }
            break ;
        }
        trimmed.push(chars[end]);
        proof {
            let line = chars@.subrange(from as int, end as int);
            let following = chars@.skip(end + 1);
            assert(rest.skip(end - from + 1) =~= following);
            assert(spec_trim_each_line(rest) == trim(line) + seq![chars@[end as int]] + spec_trim_each_line(
                following,
            ));
            assert(trimmed@ =~= before + trim(line) + seq![chars@[end as int]]);
            assert(trimmed@ + spec_trim_each_line(following) =~= before + spec_trim_each_line(rest));
        }
        from = end + 1;
    }
    trimmed
}

} // verus!
