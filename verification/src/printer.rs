//! The printer: writes a sequence of nodes as source text.
//!
//! Each node is written on a line of its own. A node that has no written
//! form makes the whole call fail; nothing is ever left out in silence.

use crate::ast::{Literal, Node};
use crate::lexer::{trim, trim_bounds};
use crate::text::chars_of;
use vstd::prelude::*;
use vstd::string::StringExecFns;

verus! {

/// Why a sequence of nodes could not be printed.
#[derive(Clone, Copy, Debug, PartialEq, Eq, Structural)]
pub enum PrintError {
    /// The node at `index` is of a kind that has no written form.
    UnsupportedNode { index: usize },
}

/// Whether a node has a written form: comments and binary operations do.
pub open spec fn printable(node: Node) -> bool {
    node is Comment || node is BinaryOp
}

/// What opens a printed comment.
pub open spec fn comment_prefix() -> Seq<char> {
    seq!['/', '/', ' ']
}

/// The written form of one node: `// ` and the trimmed text for a comment;
/// left operand, operator spelling and right operand, separated by single
/// spaces, for a binary operation. Empty for a node that has none.
pub open spec fn render(node: Node) -> Seq<char> {
    match node {
        Node::Comment(text) => comment_prefix() + trim(text),
        Node::BinaryOp(binary) => binary.lhs + seq![' '] + binary.operator.spec_spelling() + seq![
            ' ',
        ] + binary.rhs,
        _ => Seq::empty(),
    }
}

/// The written forms of `nodes`, in order, with one line feed between each
/// two.
pub open spec fn render_all(nodes: Seq<Node>) -> Seq<char>
    decreases nodes.len(),
{
    if nodes.len() == 0 {
        Seq::empty()
    } else if nodes.len() == 1 {
        render(nodes[0])
    } else {
        render(nodes[0]) + seq!['\n'] + render_all(nodes.drop_first())
    }
}

/// What printing `nodes` gives: their written forms, or the index of the
/// first node that has none.
pub open spec fn spec_print(nodes: Seq<Node>) -> Result<Seq<char>, PrintError> {
    if forall|i: int| 0 <= i < nodes.len() ==> printable(#[trigger] nodes[i]) {
        Ok(render_all(nodes))
    } else {
        Err(PrintError::UnsupportedNode { index: first_unprintable(nodes, 0) as usize })
    }
}

/// The index of the first node from `from` on that has no written form, or
/// the length of `nodes` where every one of them has.
pub open spec fn first_unprintable(nodes: Seq<Node>, from: int) -> int
    decreases nodes.len() - from,
{
    if 0 <= from < nodes.len() && printable(nodes[from]) {
        first_unprintable(nodes, from + 1)
    } else {
        from
    }
}

/// The first unprintable node is unprintable, and every node before it is
/// printable.
pub proof fn lemma_first_unprintable(nodes: Seq<Node>, from: int)
    requires
        0 <= from <= nodes.len(),
    ensures
        from <= first_unprintable(nodes, from) <= nodes.len(),
        forall|i: int| from <= i < first_unprintable(nodes, from) ==> printable(#[trigger] nodes[i]),
        first_unprintable(nodes, from) < nodes.len() ==> !printable(
            nodes[first_unprintable(nodes, from)],
        ),
    decreases nodes.len() - from,
{
    if from < nodes.len() && printable(nodes[from]) {
        lemma_first_unprintable(nodes, from + 1);
    }
}

/// Printing one more node adds a line feed, unless it is the first node,
/// and then the node's written form.
pub proof fn lemma_render_all_push(nodes: Seq<Node>, node: Node)
    ensures
        render_all(nodes.push(node)) == if nodes.len() == 0 {
            render(node)
        } else {
            render_all(nodes) + seq!['\n'] + render(node)
        },
    decreases nodes.len(),
{
    let all = nodes.push(node);
    if nodes.len() == 0 {
        assert(all[0] == node);
    } else if nodes.len() == 1 {
        assert(all.drop_first() =~= seq![node]);
        assert(all[0] == nodes[0]);
        assert(render_all(seq![node]) == render(node));
    } else {
        let rest = nodes.drop_first();
        lemma_render_all_push(rest, node);
        assert(all.drop_first() =~= rest.push(node));
        assert(all[0] == nodes[0]);
        assert(render_all(all) == render(nodes[0]) + seq!['\n'] + render_all(rest.push(node)));
        assert(render_all(nodes) == render(nodes[0]) + seq!['\n'] + render_all(rest));
        assert(render(nodes[0]) + seq!['\n'] + (render_all(rest) + seq!['\n'] + render(node))
            =~= render(nodes[0]) + seq!['\n'] + render_all(rest) + seq!['\n'] + render(node));
    }
}

/// Appends the written form of one node to `out`. Gives `false`, and
/// leaves `out` as it was, for a node that has none.
fn print_node(node: &Literal, out: &mut String) -> (printed: bool)
    ensures
        printed == printable(node@),
        final(out)@ == old(out)@ + render(node@),
{
    match node {
        Literal::Comment(text) => {
            proof {
                reveal_strlit("// ");
            }
            let ghost before = out@;
            out.append("// ");
            assert(out@ =~= before + comment_prefix());
            let chars = chars_of(text.as_str());
            let (a, b) = trim_bounds(chars.as_slice(), 0, chars.len());
            assert(chars@.subrange(0, chars@.len() as int) =~= chars@);
            let mut i: usize = a;
            while i < b
                invariant
                    a <= i <= b <= chars@.len(),
                    out@ == before + comment_prefix() + chars@.subrange(a as int, i as int),
                decreases b - i,
            {
                out.push(chars[i]);
                i += 1;
                assert(out@ =~= before + comment_prefix() + chars@.subrange(a as int, i as int));
            }
            assert(out@ =~= before + render(node@));
            true
        },
        Literal::BinaryOp(binary) => {
            let ghost before = out@;
            out.append(binary.lhs.as_str());
            out.push(' ');
            out.append(binary.operator.spelling());
            out.push(' ');
            out.append(binary.rhs.as_str());
            assert(out@ =~= before + render(node@));
            true
        },
        _ => {
            assert(out@ =~= out@ + render(node@));
            false
        },
    }
}

/// Prints `nodes` as source text, one node to a line.
///
/// Fails on the first node that has no written form, and says which one it
/// is.
pub fn print(nodes: &[Literal]) -> (result: Result<String, PrintError>)
    ensures
        match result {
            Ok(text) => spec_print(nodes.deep_view()) == Ok::<Seq<char>, PrintError>(text@),
            Err(error) => spec_print(nodes.deep_view()) == Err::<Seq<char>, PrintError>(error),
        },
{
    let mut out = String::new();
    let mut i: usize = 0;
    let ghost all = nodes.deep_view();
    assert(all.take(0) =~= Seq::<Node>::empty());
    while i < nodes.len()
        invariant
            i <= nodes@.len(),
            all == nodes.deep_view(),
            forall|k: int| 0 <= k < i ==> printable(#[trigger] all[k]),
            out@ == render_all(all.take(i as int)),
        decreases nodes@.len() - i,
    {
        if i > 0 {
            out.push('\n');
        }
        let printed = print_node(&nodes[i], &mut out);
        proof {
            assert(all[i as int] == nodes@[i as int]@);
            assert(all.take(i + 1) =~= all.take(i as int).push(all[i as int]));
            lemma_render_all_push(all.take(i as int), all[i as int]);
        }
        if !printed {
            proof {
                lemma_first_unprintable(all, 0);
                let first = first_unprintable(all, 0);
                if first < i {
                    assert(printable(all[first]));
                }
                if first > i {
                    assert(printable(all[i as int]));
                }
            }
            return Err(PrintError::UnsupportedNode { index: i });
        }
        i += 1;
    }
    assert(all.take(i as int) =~= all);
    Ok(out)
}

} // verus!
