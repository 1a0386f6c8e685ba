//! Parser and printer for a small GROQ-like filter language.
//!
//! Source text is a sequence of characters; every position in this crate is a
//! character offset into that sequence. The grammar is given as specification
//! functions over `Seq<char>`, and each executable function is proved to
//! compute exactly what its specification function says.
//!
//! [`parse`] turns text into nodes and [`print`] turns nodes into text. Two
//! laws tie them together and to the text: printing and parsing are inverse
//! on the nodes that both support ([`round_trip`]), and whitespace at the
//! edges of lines never changes what is parsed ([`whitespace`]).

pub mod ast;
pub mod chars;
pub mod grammar;
pub mod lexer;
pub mod operator;
pub mod parser;
pub mod printer;
pub mod round_trip;
pub mod text;
pub mod whitespace;

pub use crate::ast::{Binary, Literal, Unary};
pub use crate::grammar::Expected;
pub use crate::operator::{BinaryOperator, Fixity, Operator, UnaryOperator};
pub use crate::parser::{parse, ParseError};
pub use crate::printer::{print, PrintError};
pub use crate::whitespace::trim_each_line;
