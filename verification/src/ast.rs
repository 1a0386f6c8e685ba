//! The syntax tree: an owned value with no references back into the text
//! it was read from.

use crate::operator::{BinaryOperator, UnaryOperator};
use vstd::prelude::*;

verus! {

/// A prefix operator applied to one operand.
#[derive(Clone, Debug, PartialEq, Eq)]
pub struct Unary<T> {
    pub operator: UnaryOperator,
    pub rhs: T,
}

/// An infix operator applied to two operands of one representation.
#[derive(Clone, Debug, PartialEq, Eq)]
pub struct Binary<T> {
    pub operator: BinaryOperator,
    pub lhs: T,
    pub rhs: T,
}

/// A top-level node.
///
/// `Number`, `String`, `Array` and `Object` are reserved: the grammar does
/// not produce them and the printer refuses them.
#[derive(Clone, Debug, PartialEq, Eq)]
pub enum Literal {
    Null,
    Bool(bool),
    Number,
    String,
    Array,
    BinaryOp(Binary<String>),
    UnaryOp(Unary<String>),
    Object,
    Comment(String),
}

/// Leaf references into the data being queried. Reserved for the operand
/// grammar; no production builds one yet.
#[derive(Clone, Copy, Debug, PartialEq, Eq, Structural)]
pub enum SimpleExpression {
    This,
    ThisAttribute,
    Everything,
    Parent,
    FuncCall,
}

/// Forms that wrap other expressions. Reserved for the operand grammar; no
/// production builds one yet.
#[derive(Clone, Copy, Debug, PartialEq, Eq, Structural)]
pub enum CompoundExpression {
    Parenthesis,
    TraversalExpression,
    PipeFuncCall,
}

/// What a [`Literal`] is, with every text held as a character sequence.
pub enum Node {
    Null,
    Bool(bool),
    Number,
    String,
    Array,
    BinaryOp(Binary<Seq<char>>),
    UnaryOp(Unary<Seq<char>>),
    Object,
    Comment(Seq<char>),
}

impl View for Unary<String> {
    type V = Unary<Seq<char>>;

    open spec fn view(&self) -> Unary<Seq<char>> {
        Unary { operator: self.operator, rhs: self.rhs@ }
    }
}

impl View for Binary<String> {
    type V = Binary<Seq<char>>;

    open spec fn view(&self) -> Binary<Seq<char>> {
        Binary { operator: self.operator, lhs: self.lhs@, rhs: self.rhs@ }
    }
}

impl View for Literal {
    type V = Node;

    open spec fn view(&self) -> Node {
        match self {
            Literal::Null => Node::Null,
            Literal::Bool(value) => Node::Bool(*value),
            Literal::Number => Node::Number,
            Literal::String => Node::String,
            Literal::Array => Node::Array,
            Literal::BinaryOp(binary) => Node::BinaryOp(binary@),
            Literal::UnaryOp(unary) => Node::UnaryOp(unary@),
            Literal::Object => Node::Object,
            Literal::Comment(text) => Node::Comment(text@),
        }
    }
}

impl DeepView for Literal {
    type V = Node;

    open spec fn deep_view(&self) -> Node {
        self@
    }
}

} // verus!
