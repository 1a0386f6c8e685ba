//! Character classes shared by every recognizer.

use vstd::prelude::*;

verus! {

/// Characters with the Unicode `White_Space` property.
pub open spec fn whitespace(c: char) -> bool {
    let n = c as u32;
    ||| 0x09 <= n <= 0x0D
    ||| n == 0x20
    ||| n == 0x85
    ||| n == 0xA0
    ||| n == 0x1680
    ||| 0x2000 <= n <= 0x200A
    ||| n == 0x2028
    ||| n == 0x2029
    ||| n == 0x202F
    ||| n == 0x205F
    ||| n == 0x3000
}

/// Characters that end a line: line feed, carriage return, vertical tab,
/// form feed, next line, line separator and paragraph separator.
pub open spec fn newline(c: char) -> bool {
    let n = c as u32;
    ||| 0x0A <= n <= 0x0D
    ||| n == 0x85
    ||| n == 0x2028
    ||| n == 0x2029
}

/// Characters that may begin an identifier: ASCII letters and underscore.
pub open spec fn ident_start(c: char) -> bool {
    let n = c as u32;
    ||| 0x41 <= n <= 0x5A
    ||| 0x61 <= n <= 0x7A
    ||| n == 0x5F
}

/// Characters that may continue an identifier: ASCII letters, ASCII digits
/// and underscore.
pub open spec fn ident_continue(c: char) -> bool {
    let n = c as u32;
    ident_start(c) || 0x30 <= n <= 0x39
}

/// How many bytes the UTF-8 encoding of `c` takes.
pub open spec fn spec_utf8_width(c: char) -> int {
    vstd::utf8::encode_scalar(c as u32).len() as int
}

/// Every line terminator is also whitespace, so skipping whitespace always
/// moves past the end of a line.
pub proof fn lemma_newline_is_whitespace(c: char)
    ensures
        newline(c) ==> whitespace(c),
{
}

/// No whitespace character can be part of an identifier.
pub proof fn lemma_ident_is_not_whitespace(c: char)
    ensures
        ident_continue(c) ==> !whitespace(c),
        ident_start(c) ==> ident_continue(c),
{
}

/// Whether `c` is whitespace.
pub fn is_whitespace(c: char) -> (b: bool)
    ensures
        b == whitespace(c),
{
    let n: u32 = c as u32;
    (0x09 <= n && n <= 0x0D) || n == 0x20 || n == 0x85 || n == 0xA0 || n == 0x1680 || (0x2000 <= n
        && n <= 0x200A) || n == 0x2028 || n == 0x2029 || n == 0x202F || n == 0x205F || n == 0x3000
}

/// Whether `c` ends a line.
pub fn is_newline(c: char) -> (b: bool)
    ensures
        b == newline(c),
{
    let n: u32 = c as u32;
    (0x0A <= n && n <= 0x0D) || n == 0x85 || n == 0x2028 || n == 0x2029
}

/// Whether `c` may begin an identifier.
pub fn is_ident_start(c: char) -> (b: bool)
    ensures
        b == ident_start(c),
{
    let n: u32 = c as u32;
    (0x41 <= n && n <= 0x5A) || (0x61 <= n && n <= 0x7A) || n == 0x5F
}

/// Whether `c` may continue an identifier.
pub fn is_ident_continue(c: char) -> (b: bool)
    ensures
        b == ident_continue(c),
{
    let n: u32 = c as u32;
    is_ident_start(c) || (0x30 <= n && n <= 0x39)
}

/// How many bytes the UTF-8 encoding of `c` takes: one to four.
pub fn utf8_width(c: char) -> (width: usize)
    ensures
        width == spec_utf8_width(c),
        1 <= width <= 4,
{
    let n: u32 = c as u32;
    if n < 0x80 {
        1
    } else if n < 0x800 {
        2
    } else if n < 0x10000 {
        3
    } else {
        4
    }
}

} // verus!
