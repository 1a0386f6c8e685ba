//! The parse driver: applies the grammar to a whole input, and reports
//! where and why it could not.
//!
//! A parse either consumes the whole input or fails: text that no
//! production accepts is an error at the offset of its first character,
//! never a silently shortened result.

use crate::ast::{Literal, Node};
use crate::chars::{is_newline, newline, spec_utf8_width, utf8_width, whitespace};
use crate::grammar::{
    lemma_node_at, lemma_node_at_well_formed, node, node_at, well_formed, Expected, Failure,
    FailureView,
};
use crate::lexer::{lemma_run_end, skip_whitespace, skip_whitespace_end, CharClass};
use crate::text::chars_of;
use vstd::prelude::*;
use vstd::utf8::{encode_scalar, encode_utf8};

verus! {

/// A syntax error: the input matches no production at `offset`.
///
/// `offset` counts characters from the start of the input, from zero, and
/// `byte_offset` counts the bytes that the same characters take in UTF-8,
/// so that it is an index into the text as a `str`. `line` and `column`
/// count from one; a line ends with its terminator, and a carriage return
/// directly before a line feed ends the line together with it.
#[derive(Clone, Debug, PartialEq, Eq)]
pub struct ParseError {
    pub offset: usize,
    pub byte_offset: usize,
    pub line: usize,
    pub column: usize,
    pub expected: Vec<Expected>,
}

/// What a [`ParseError`] is.
pub struct ParseErrorView {
    pub offset: int,
    pub byte_offset: int,
    pub line: int,
    pub column: int,
    pub expected: Seq<Expected>,
}

impl View for ParseError {
    type V = ParseErrorView;

    open spec fn view(&self) -> ParseErrorView {
        ParseErrorView {
            offset: self.offset as int,
            byte_offset: self.byte_offset as int,
            line: self.line as int,
            column: self.column as int,
            expected: self.expected@,
        }
    }
}

impl DeepView for ParseError {
    type V = ParseErrorView;

    open spec fn deep_view(&self) -> ParseErrorView {
        self@
    }
}

/// Whether a line ends with the character at `p`: it is a line terminator,
/// and not a carriage return that a line feed follows.
pub open spec fn ends_line(s: Seq<char>, p: int) -> bool {
    &&& 0 <= p < s.len()
    &&& newline(s[p])
    &&& !(s[p] == '\r' && p + 1 < s.len() && s[p + 1] == '\n')
}

/// How many lines end before `offset`.
pub open spec fn line_breaks(s: Seq<char>, offset: int) -> int
    decreases offset,
{
    if offset <= 0 {
        0
    } else {
        line_breaks(s, offset - 1) + if ends_line(s, offset - 1) {
            1int
        } else {
            0int
        }
    }
}

/// Where the line that holds `offset` begins.
pub open spec fn line_start(s: Seq<char>, offset: int) -> int
    decreases offset,
{
    if offset <= 0 {
        0
    } else if ends_line(s, offset - 1) {
        offset
    } else {
        line_start(s, offset - 1)
    }
}

/// How many bytes the characters before `offset` take in UTF-8.
pub open spec fn bytes_before(s: Seq<char>, offset: int) -> int {
    encode_utf8(s.take(offset)).len() as int
}

/// `count`, capped at `usize::MAX`. Only the numbers of an input that no
/// memory can hold reach the cap.
pub open spec fn capped(count: int) -> int {
    if count < usize::MAX {
        count
    } else {
        usize::MAX as int
    }
}

/// The one-based number for a zero-based count, capped at `usize::MAX`.
pub open spec fn one_based(count: int) -> int {
    capped(count + 1)
}

/// The error for a failure: the failure, with the byte offset, the line
/// and the column of its offset in `s`.
pub open spec fn located(s: Seq<char>, failure: FailureView) -> ParseErrorView {
    ParseErrorView {
        offset: failure.offset,
        byte_offset: capped(bytes_before(s, failure.offset)),
        line: one_based(line_breaks(s, failure.offset)),
        column: one_based(failure.offset - line_start(s, failure.offset)),
        expected: failure.expected,
    }
}

/// `nodes` followed by what `rest` holds, or the failures of `rest`.
pub open spec fn extend(nodes: Seq<Node>, rest: Result<Seq<Node>, Seq<FailureView>>) -> Result<
    Seq<Node>,
    Seq<FailureView>,
> {
    match rest {
        Ok(more) => Ok(nodes + more),
        Err(failures) => Err(failures),
    }
}

/// The nodes of `s` from position `from` on: whitespace is skipped, then a
/// node is read, and so on until only whitespace is left. The first
/// position that holds something that is no node ends the parse with that
/// position's report.
pub open spec fn parse_from(s: Seq<char>, from: int) -> Result<Seq<Node>, Seq<FailureView>>
    decreases s.len() - from,
    via parse_from_terminates
{
    let at = skip_whitespace_end(s, from);
    if from < 0 || at >= s.len() {
        Ok(Seq::empty())
    } else {
        match node_at(s, at) {
            Ok((node, next)) => extend(seq![node], parse_from(s, next)),
            Err(failures) => Err(failures),
        }
    }
}

/// Every node is at least one character long, so each step of
/// [`parse_from`] starts further into the input than the one before.
#[via_fn]
proof fn parse_from_terminates(s: Seq<char>, from: int) {
    if 0 <= from <= s.len() {
        lemma_run_end(s, from, CharClass::Whitespace);
        let at = skip_whitespace_end(s, from);
        if at < s.len() {
            lemma_node_at(s, at);
        }
    }
}

/// What parsing `s` gives: every node of `s` in order, or the errors at the
/// first position that holds something other than a node.
pub open spec fn spec_parse(s: Seq<char>) -> Result<Seq<Node>, Seq<ParseErrorView>> {
    match parse_from(s, 0) {
        Ok(nodes) => Ok(nodes),
        Err(failures) => Err(failures.map_values(|failure: FailureView| located(s, failure))),
    }
}

/// What a parse result is.
pub open spec fn result_view(result: Result<Vec<Literal>, Vec<ParseError>>) -> Result<
    Seq<Node>,
    Seq<ParseErrorView>,
> {
    match result {
        Ok(nodes) => Ok(nodes.deep_view()),
        Err(errors) => Err(errors.deep_view()),
    }
}

/// A failed parse names at least one failure. The first one lies inside
/// the input, at a character that is not whitespace: the first character
/// that the parse could not account for. No other failure lies before it,
/// and none lies past the end of the input.
pub proof fn lemma_parse_from_fails_inside(s: Seq<char>, from: int)
    requires
        0 <= from <= s.len(),
    ensures
        parse_from(s, from) matches Err(failures) ==> {
            &&& failures.len() > 0
            &&& from <= failures[0].offset < s.len()
            &&& !whitespace(s[failures[0].offset])
            &&& forall|k: int|
                0 <= k < failures.len() ==> failures[0].offset <= (#[trigger] failures[k]).offset
                    <= s.len()
        },
    decreases s.len() - from,
{
    lemma_run_end(s, from, CharClass::Whitespace);
    let at = skip_whitespace_end(s, from);
    if at < s.len() {
        lemma_node_at(s, at);
        match node_at(s, at) {
            Ok((_, next)) => {
                lemma_parse_from_fails_inside(s, next);
            },
            Err(_) => {},
        }
    }
}

/// Full consumption: a parse that fails names, as its first error, a
/// character of the input that is not whitespace, with a line and a
/// column that count from one.
pub proof fn lemma_errors_name_unread_text(s: Seq<char>)
    ensures
        spec_parse(s) matches Err(errors) ==> {
            &&& errors.len() > 0
            &&& 0 <= errors[0].offset < s.len()
            &&& !whitespace(s[errors[0].offset])
            &&& errors[0].line >= 1
            &&& errors[0].column >= 1
        },
{
    lemma_parse_from_fails_inside(s, 0);
    if let Err(failures) = parse_from(s, 0) {
        let offset = failures[0].offset;
        lemma_position(s, offset);
    }
}

/// Full consumption: a parse gives no nodes and no error only for an
/// input that holds nothing but whitespace.
pub proof fn lemma_no_nodes_means_blank(s: Seq<char>)
    ensures
        spec_parse(s) == Ok::<Seq<Node>, Seq<ParseErrorView>>(Seq::empty()) <==> forall|k: int|
            0 <= k < s.len() ==> whitespace(#[trigger] s[k]),
{
    lemma_run_end(s, 0, CharClass::Whitespace);
    let at = skip_whitespace_end(s, 0);
    if at < s.len() {
        lemma_node_at(s, at);
        match node_at(s, at) {
            Ok((node, next)) => {
                match parse_from(s, next) {
                    Ok(more) => {
                        assert((seq![node] + more).len() > 0);
                    },
                    Err(_) => {},
                }
            },
            Err(_) => {},
        }
        assert(!whitespace(s[at]));
    } else {
        assert forall|k: int| 0 <= k < s.len() implies whitespace(#[trigger] s[k]) by {
            assert(CharClass::Whitespace.spec_contains(s[k]));
        }
    }
}

/// Every node of a parse is well formed.
pub proof fn lemma_parse_from_well_formed(s: Seq<char>, from: int)
    requires
        0 <= from <= s.len(),
    ensures
        parse_from(s, from) matches Ok(nodes) ==> forall|i: int|
            0 <= i < nodes.len() ==> well_formed(#[trigger] nodes[i]),
    decreases s.len() - from,
{
    lemma_run_end(s, from, CharClass::Whitespace);
    let at = skip_whitespace_end(s, from);
    if at < s.len() {
        lemma_node_at(s, at);
        lemma_node_at_well_formed(s, at);
        match node_at(s, at) {
            Ok((node, next)) => {
                lemma_parse_from_well_formed(s, next);
                match parse_from(s, next) {
                    Ok(more) => {
                        let nodes = seq![node] + more;
                        assert forall|i: int| 0 <= i < nodes.len() implies well_formed(
                            #[trigger] nodes[i],
                        ) by {
                            if i > 0 {
                                assert(nodes[i] == more[i - 1]);
                            }
                        }
                    },
                    Err(_) => {},
                }
            },
            Err(_) => {},
        }
    }
}

/// Every node that parsing gives is well formed: the parser builds no
/// node that the grammar does not describe.
pub proof fn lemma_parsed_nodes_are_well_formed(s: Seq<char>, nodes: Seq<Node>)
    requires
        spec_parse(s) == Ok::<Seq<Node>, Seq<ParseErrorView>>(nodes),
    ensures
        forall|i: int| 0 <= i < nodes.len() ==> well_formed(#[trigger] nodes[i]),
{
    lemma_parse_from_well_formed(s, 0);
    assert(parse_from(s, 0)->Ok_0 == nodes);
}

/// Lines are counted from zero up to the offset, and a line starts at or
/// before every offset on it.
pub proof fn lemma_position(s: Seq<char>, offset: int)
    requires
        0 <= offset,
    ensures
        0 <= line_breaks(s, offset) <= offset,
        0 <= line_start(s, offset) <= offset,
    decreases offset,
{
    if offset > 0 {
        lemma_position(s, offset - 1);
    }
}

/// One more character adds the bytes of its own encoding.
pub proof fn lemma_encode_push(chars: Seq<char>, c: char)
    ensures
        encode_utf8(chars.push(c)) == encode_utf8(chars) + encode_scalar(c as u32),
    decreases chars.len(),
{
    let all = chars.push(c);
    if chars.len() == 0 {
        let none = Seq::<char>::empty();
        assert(all.drop_first() =~= none);
        assert(chars =~= none);
        assert(all[0] == c);
        assert(encode_utf8(none).len() == 0);
        assert(encode_utf8(all) == encode_scalar(c as u32) + encode_utf8(none));
        assert(encode_utf8(all) =~= encode_utf8(chars) + encode_scalar(c as u32));
    } else {
        lemma_encode_push(chars.drop_first(), c);
        assert(all.drop_first() =~= chars.drop_first().push(c));
        assert(all[0] == chars[0]);
        assert(encode_utf8(all) =~= encode_utf8(chars) + encode_scalar(c as u32));
    }
}

/// The bytes before a position are the bytes before the position in front
/// of it and the bytes of the character between the two.
pub proof fn lemma_bytes_before(s: Seq<char>, offset: int)
    requires
        0 <= offset < s.len(),
    ensures
        bytes_before(s, 0) == 0,
        bytes_before(s, offset + 1) == bytes_before(s, offset) + spec_utf8_width(s[offset]),
{
    assert(s.take(offset + 1) =~= s.take(offset).push(s[offset]));
    lemma_encode_push(s.take(offset), s[offset]);
    assert(s.take(0) =~= Seq::<char>::empty());
}

/// Every character takes one to four bytes, so a byte offset is at least
/// the character offset and at most four times as much.
pub proof fn lemma_bytes_before_bounds(s: Seq<char>, offset: int)
    requires
        0 <= offset <= s.len(),
    ensures
        offset <= bytes_before(s, offset) <= 4 * offset,
    decreases offset,
{
    if offset == 0 {
        assert(s.take(0) =~= Seq::<char>::empty());
    } else {
        lemma_bytes_before_bounds(s, offset - 1);
        lemma_bytes_before(s, offset - 1);
        assert(1 <= spec_utf8_width(s[offset - 1]) <= 4);
    }
}

/// The byte offset, the line and the column of `offset`.
fn position(input: &[char], offset: usize) -> (at: (usize, usize, usize))
    requires
        offset <= input@.len(),
    ensures
        at.0 == capped(bytes_before(input@, offset as int)),
        at.1 == one_based(line_breaks(input@, offset as int)),
        at.2 == one_based(offset - line_start(input@, offset as int)),
{
    let mut bytes: usize = 0;
    let mut breaks: usize = 0;
    let mut start: usize = 0;
    let mut p: usize = 0;
    assert(input@.take(0) =~= Seq::<char>::empty());
    while p < offset
        invariant
            p <= offset <= input@.len(),
            bytes == capped(bytes_before(input@, p as int)),
            breaks == line_breaks(input@, p as int),
            start == line_start(input@, p as int),
            breaks <= p,
            start <= p,
        decreases offset - p,
    {
        let c = input[p];
        let ends = is_newline(c) && !(c == '\r' && p + 1 < input.len() && input[p + 1] == '\n');
        assert(ends == ends_line(input@, p as int));
        proof {
            lemma_bytes_before(input@, p as int);
        }
        let width = utf8_width(c);
        bytes = if bytes <= usize::MAX - width {
            bytes + width
        } else {
            usize::MAX
        };
        p += 1;
        if ends {
            breaks += 1;
            start = p;
        }
    }
    let line = if breaks < usize::MAX {
        breaks + 1
    } else {
        usize::MAX
    };
    let width = offset - start;
    let column = if width < usize::MAX {
        width + 1
    } else {
        usize::MAX
    };
    (bytes, line, column)
}

/// The errors for the failures of one report.
fn locate(input: &[char], failures: Vec<Failure>) -> (errors: Vec<ParseError>)
    requires
        forall|k: int| 0 <= k < failures@.len() ==> (#[trigger] failures@[k]).offset <= input@.len(),
    ensures
        errors.deep_view() == failures.deep_view().map_values(
            |failure: FailureView| located(input@, failure),
        ),
{
    broadcast use vstd::std_specs::vec::axiom_spec_into_iter;

    let ghost all = failures@;
    let ghost target = failures.deep_view().map_values(
        |failure: FailureView| located(input@, failure),
    );
    let mut errors: Vec<ParseError> = Vec::new();
    for failure in it: failures.into_iter()
        invariant
            it.seq() == all,
            target.len() == all.len(),
            forall|k: int| 0 <= k < all.len() ==> #[trigger] target[k] == located(input@, all[k]@),
            forall|k: int| 0 <= k < all.len() ==> (#[trigger] all[k]).offset <= input@.len(),
            errors@.len() == it.index(),
            forall|k: int| 0 <= k < errors@.len() ==> (#[trigger] errors@[k])@ == target[k],
    {
        assert(failure == all[it.index()]);
        let (byte_offset, line, column) = position(input, failure.offset);
        errors.push(
            ParseError {
                offset: failure.offset,
                byte_offset,
                line,
                column,
                expected: failure.expected,
            },
        );
    }
    assert(errors.deep_view() =~= target);
    errors
}

/// Parses the characters of a whole input.
///
/// Gives every node of the input in order, or, where some position holds
/// what no production accepts, the errors at the first such position.
pub fn parse_chars(input: &[char]) -> (result: Result<Vec<Literal>, Vec<ParseError>>)
    ensures
        result_view(result) == spec_parse(input@),
        result matches Ok(nodes) ==> forall|i: int|
            0 <= i < nodes@.len() ==> well_formed(#[trigger] nodes@[i]@),
{
    let mut nodes: Vec<Literal> = Vec::new();
    let mut from: usize = 0;
    assert(nodes.deep_view() =~= Seq::<Node>::empty());
    loop
        invariant_except_break
            from <= input@.len(),
            extend(nodes.deep_view(), parse_from(input@, from as int)) == parse_from(input@, 0),
        ensures
            parse_from(input@, 0) == Ok::<Seq<Node>, Seq<FailureView>>(nodes.deep_view()),
        decreases input@.len() - from,
    {
        let at = skip_whitespace(input, from);
        if at >= input.len() {
            assert(nodes.deep_view() + Seq::<Node>::empty() =~= nodes.deep_view());
            break ;
        }
        proof {
            lemma_node_at(input@, at as int);
        }
        match node(input, at) {
            Ok((literal, next)) => {
                let ghost before = nodes.deep_view();
                nodes.push(literal);
                proof {
                    let rest = parse_from(input@, next as int);
                    assert(nodes.deep_view() =~= before.push(literal@));
                    match rest {
                        Ok(more) => {
                            assert(before + (seq![literal@] + more) =~= before.push(literal@)
                                + more);
                        },
                        Err(_) => {},
                    }
                }
                from = next;
            },
            Err(failures) => {
                assert forall|k: int| 0 <= k < failures@.len() implies (#[trigger] failures@[k]).offset
                    <= input@.len() by {
                    assert(failures.deep_view()[k] == failures@[k]@);
                }
                return Err(locate(input, failures));
            },
        }
    }
    assert forall|i: int| 0 <= i < nodes@.len() implies well_formed(#[trigger] nodes@[i]@) by {
        lemma_parsed_nodes_are_well_formed(input@, nodes.deep_view());
        assert(nodes.deep_view()[i] == nodes@[i]@);
    }
    Ok(nodes)
}

/// Parses a whole input.
///
/// Gives every node of the input in order, or, where some position holds
/// what no production accepts, the errors at the first such position.
pub fn parse(input: &str) -> (result: Result<Vec<Literal>, Vec<ParseError>>)
    ensures
        result_view(result) == spec_parse(input@),
        result matches Ok(nodes) ==> forall|i: int|
            0 <= i < nodes@.len() ==> well_formed(#[trigger] nodes@[i]@),
{
    let chars = chars_of(input);
    parse_chars(chars.as_slice())
}

} // verus!
