//! Atomic recognizers over a character cursor.
//!
//! A cursor is a position `from` in the input. Each recognizer either
//! reports where its match ends, or reports no match; it never changes
//! anything, so a caller that gets no match simply tries the next
//! alternative from the same position.

use crate::chars::{
    ident_continue, ident_start, is_ident_continue, is_ident_start, is_newline, is_whitespace,
    newline, whitespace,
};
use vstd::prelude::*;

verus! {

/// The character classes a run can be made of.
#[derive(Clone, Copy, Debug, PartialEq, Eq, Structural)]
pub enum CharClass {
    /// Whitespace, line terminators included.
    Whitespace,
    /// What may follow the first character of an identifier.
    IdentContinue,
    /// Anything but a line terminator.
    Inline,
}

impl CharClass {
    /// Whether `c` belongs to the class.
    pub open spec fn spec_contains(self, c: char) -> bool {
        match self {
            CharClass::Whitespace => whitespace(c),
            CharClass::IdentContinue => ident_continue(c),
            CharClass::Inline => !newline(c),
        }
    }

    /// Whether `c` belongs to the class.
    #[verifier::when_used_as_spec(spec_contains)]
    pub fn contains(self, c: char) -> (b: bool)
        ensures
            b == self.spec_contains(c),
    {
        match self {
            CharClass::Whitespace => is_whitespace(c),
            CharClass::IdentContinue => is_ident_continue(c),
            CharClass::Inline => !is_newline(c),
        }
    }
}

/// Where the longest run of `class` characters that starts at `from` ends:
/// the first position at or after `from` that holds no character of the
/// class. Outside the input there is no run, and the result is `from`.
pub open spec fn run_end(s: Seq<char>, from: int, class: CharClass) -> int
    decreases s.len() - from,
{
    if 0 <= from < s.len() && class.spec_contains(s[from]) {
        run_end(s, from + 1, class)
    } else {
        from
    }
}

/// The first position at or after `from` that holds no whitespace.
pub open spec fn skip_whitespace_end(s: Seq<char>, from: int) -> int {
    run_end(s, from, CharClass::Whitespace)
}

/// Where the line that holds position `from` ends: at its terminator, or at
/// the end of the input.
pub open spec fn line_end(s: Seq<char>, from: int) -> int {
    run_end(s, from, CharClass::Inline)
}

/// Where the identifier that starts at `from` ends, or `from` itself where
/// no identifier starts there.
pub open spec fn identifier_end(s: Seq<char>, from: int) -> int {
    if 0 <= from < s.len() && ident_start(s[from]) {
        run_end(s, from + 1, CharClass::IdentContinue)
    } else {
        from
    }
}

/// Whether the characters of `text` stand in `s` from position `from` on.
pub open spec fn matches_at(s: Seq<char>, from: int, text: Seq<char>) -> bool {
    &&& 0 <= from
    &&& from + text.len() <= s.len()
    &&& s.subrange(from, from + text.len()) == text
}

/// Whether the identifier that starts at `from` is exactly `word`.
pub open spec fn keyword_at(s: Seq<char>, from: int, word: Seq<char>) -> bool {
    &&& word.len() > 0
    &&& matches_at(s, from, word)
    &&& identifier_end(s, from) == from + word.len()
}

/// Whether `text` is an identifier: a letter or underscore, followed by
/// letters, digits and underscores.
pub open spec fn is_identifier(text: Seq<char>) -> bool {
    &&& text.len() > 0
    &&& ident_start(text[0])
    &&& forall|k: int| 0 < k < text.len() ==> ident_continue(#[trigger] text[k])
}

/// `t` without its leading whitespace.
pub open spec fn trim_start(t: Seq<char>) -> Seq<char> {
    t.skip(skip_whitespace_end(t, 0))
}

/// `t` without its trailing whitespace.
pub open spec fn trim_end(t: Seq<char>) -> Seq<char>
    decreases t.len(),
{
    if t.len() > 0 && whitespace(t.last()) {
        trim_end(t.drop_last())
    } else {
        t
    }
}

/// `t` without its leading and trailing whitespace.
pub open spec fn trim(t: Seq<char>) -> Seq<char> {
    trim_end(trim_start(t))
}

/// A run ends inside the input, holds only characters of its class, and
/// stops at the first character that is not of the class.
pub proof fn lemma_run_end(s: Seq<char>, from: int, class: CharClass)
    requires
        0 <= from <= s.len(),
    ensures
        from <= run_end(s, from, class) <= s.len(),
        forall|k: int| from <= k < run_end(s, from, class) ==> class.spec_contains(#[trigger] s[k]),
        run_end(s, from, class) < s.len() ==> !class.spec_contains(s[run_end(s, from, class)]),
    decreases s.len() - from,
{
    if from < s.len() && class.spec_contains(s[from]) {
        lemma_run_end(s, from + 1, class);
    }
}

/// The end of a run is the only position of which what [`lemma_run_end`]
/// states holds.
pub proof fn lemma_run_end_is(s: Seq<char>, from: int, class: CharClass, end: int)
    requires
        0 <= from <= end <= s.len(),
        forall|k: int| from <= k < end ==> class.spec_contains(#[trigger] s[k]),
        end < s.len() ==> !class.spec_contains(s[end]),
    ensures
        run_end(s, from, class) == end,
    decreases end - from,
{
    if from < end {
        assert(class.spec_contains(s[from]));
        lemma_run_end_is(s, from + 1, class, end);
    }
}

/// An identifier's end lies inside the input, and the characters up to it
/// form an identifier.
pub proof fn lemma_identifier_end(s: Seq<char>, from: int)
    requires
        0 <= from <= s.len(),
    ensures
        from <= identifier_end(s, from) <= s.len(),
        identifier_end(s, from) > from <==> (from < s.len() && ident_start(s[from])),
        identifier_end(s, from) > from ==> is_identifier(s.subrange(from, identifier_end(s, from))),
        from < identifier_end(s, from) < s.len() ==> !ident_continue(s[identifier_end(s, from)]),
{
    if from < s.len() && ident_start(s[from]) {
        lemma_run_end(s, from + 1, CharClass::IdentContinue);
        let end = identifier_end(s, from);
        let text = s.subrange(from, end);
        assert(text[0] == s[from]);
        assert forall|k: int| 0 < k < text.len() implies ident_continue(#[trigger] text[k]) by {
            assert(text[k] == s[from + k]);
        }
    }
}

/// Trimming cuts a sequence down to `t[a..b]`, where everything before `a`
/// and from `b` on is whitespace and the cut is as wide as that allows.
pub proof fn lemma_trim_is(t: Seq<char>, a: int, b: int)
    requires
        0 <= a <= b <= t.len(),
        forall|k: int| 0 <= k < a ==> whitespace(#[trigger] t[k]),
        forall|k: int| b <= k < t.len() ==> whitespace(#[trigger] t[k]),
        a < b ==> !whitespace(t[a]) && !whitespace(t[b - 1]),
    ensures
        trim(t) == t.subrange(a, b),
{
    if a < b {
        lemma_run_end_is(t, 0, CharClass::Whitespace, a);
        assert(trim_start(t) == t.skip(a));
        lemma_trim_end_is(t.skip(a), b - a);
        assert(t.skip(a).subrange(0, b - a) =~= t.subrange(a, b));
    } else {
        // Nothing but whitespace: both cuts meet.
        lemma_run_end_is(t, 0, CharClass::Whitespace, t.len() as int);
        assert(trim_start(t) =~= Seq::<char>::empty());
        assert(t.subrange(a, b) =~= Seq::<char>::empty());
    }
}

/// `trim_end` keeps `t[0..b]` where everything from `b` on is whitespace
/// and `t[b - 1]`, if there is one, is not.
pub proof fn lemma_trim_end_is(t: Seq<char>, b: int)
    requires
        0 <= b <= t.len(),
        forall|k: int| b <= k < t.len() ==> whitespace(#[trigger] t[k]),
        b > 0 ==> !whitespace(t[b - 1]),
    ensures
        trim_end(t) == t.subrange(0, b),
    decreases t.len(),
{
    if b < t.len() {
        assert(whitespace(t[t.len() - 1]));
        let shorter = t.drop_last();
        assert forall|k: int| b <= k < shorter.len() implies whitespace(#[trigger] shorter[k]) by {
            assert(shorter[k] == t[k]);
        }
        lemma_trim_end_is(shorter, b);
        assert(shorter.subrange(0, b) =~= t.subrange(0, b));
    } else {
        assert(t.subrange(0, b) =~= t);
    }
}

/// Where `text` stands at `from`, each of its characters stands at its
/// place.
pub proof fn lemma_matches_at(s: Seq<char>, from: int, text: Seq<char>)
    requires
        matches_at(s, from, text),
    ensures
        forall|k: int| 0 <= k < text.len() ==> #[trigger] s[from + k] == text[k],
{
    assert forall|k: int| 0 <= k < text.len() implies #[trigger] s[from + k] == text[k] by {
        assert(s.subrange(from, from + text.len())[k] == s[from + k]);
    }
}

/// An identifier ends where its characters are followed by something that
/// cannot continue it.
pub proof fn lemma_identifier_end_is(s: Seq<char>, from: int, text: Seq<char>)
    requires
        is_identifier(text),
        matches_at(s, from, text),
        from + text.len() < s.len() ==> !ident_continue(s[from + text.len()]),
    ensures
        identifier_end(s, from) == from + text.len(),
{
    lemma_matches_at(s, from, text);
    assert(s[from + 0] == text[0]);
    assert forall|k: int| from + 1 <= k < from + text.len() implies ident_continue(
        #[trigger] s[k],
    ) by {
        assert(s[from + (k - from)] == text[k - from]);
    }
    lemma_run_end_is(s, from + 1, CharClass::IdentContinue, from + text.len());
}

/// Trimming never lengthens, and leaves alone only what has no whitespace
/// at its end.
pub proof fn lemma_trim_end_shortens(t: Seq<char>)
    ensures
        trim_end(t).len() <= t.len(),
        trim_end(t).len() == t.len() ==> t.len() == 0 || !whitespace(t.last()),
    decreases t.len(),
{
    if t.len() > 0 && whitespace(t.last()) {
        lemma_trim_end_shortens(t.drop_last());
    }
}

/// A text that trimming leaves unchanged neither starts nor ends with
/// whitespace.
pub proof fn lemma_trimmed(t: Seq<char>)
    requires
        trim(t) == t,
        t.len() > 0,
    ensures
        !whitespace(t[0]),
        !whitespace(t.last()),
{
    lemma_run_end(t, 0, CharClass::Whitespace);
    let k = skip_whitespace_end(t, 0);
    lemma_trim_end_shortens(trim_start(t));
    assert(trim_start(t).len() == t.len() - k);
    assert(k == 0);
    assert(trim_start(t) =~= t);
}

/// What `trim_end` keeps is the start of the text, it does not end with
/// whitespace, and it is empty only where the text is nothing but
/// whitespace.
pub proof fn lemma_trim_end_keeps(t: Seq<char>)
    ensures
        trim_end(t).len() <= t.len(),
        trim_end(t) == t.take(trim_end(t).len() as int),
        trim_end(t).len() > 0 ==> !whitespace(trim_end(t).last()),
        forall|k: int| trim_end(t).len() <= k < t.len() ==> whitespace(#[trigger] t[k]),
    decreases t.len(),
{
    if t.len() > 0 && whitespace(t.last()) {
        let shorter = t.drop_last();
        lemma_trim_end_keeps(shorter);
        let n = trim_end(shorter).len() as int;
        assert(shorter.take(n) =~= t.take(n));
        assert forall|k: int| n <= k < t.len() implies whitespace(#[trigger] t[k]) by {
            if k < shorter.len() {
                assert(shorter[k] == t[k]);
            }
        }
    } else {
        assert(t.take(t.len() as int) =~= t);
    }
}

/// What trimming gives is a part of the text: it begins where the leading
/// whitespace ends, and it neither begins nor ends with whitespace.
pub proof fn lemma_trim_bounds(t: Seq<char>)
    ensures
        ({
            let a = skip_whitespace_end(t, 0);
            let b = a + trim(t).len();
            &&& 0 <= a <= b <= t.len()
            &&& trim(t) == t.subrange(a, b)
            &&& a < b ==> !whitespace(t[a]) && !whitespace(t[b - 1])
        }),
{
    lemma_run_end(t, 0, CharClass::Whitespace);
    let a = skip_whitespace_end(t, 0);
    let inner = trim_start(t);
    lemma_trim_end_keeps(inner);
    let n = trim_end(inner).len() as int;
    assert(inner.take(n) =~= t.subrange(a, a + n));
    if n > 0 {
        assert(trim_end(inner).last() == inner[n - 1]);
        assert(inner[n - 1] == t[a + n - 1]);
    }
}

/// Trimming what is trimmed changes nothing.
pub proof fn lemma_trim_twice(t: Seq<char>)
    ensures
        trim(trim(t)) == trim(t),
{
    lemma_trim_bounds(t);
    let a = skip_whitespace_end(t, 0);
    let once = trim(t);
    if once.len() > 0 {
        assert(once[0] == t[a]);
        assert(once[once.len() - 1] == t[a + once.len() - 1]);
    }
    lemma_trim_is(once, 0, once.len() as int);
    assert(once.subrange(0, once.len() as int) =~= once);
}

/// Whitespace at the end of a text does not change what trimming gives.
pub proof fn lemma_trim_push(x: Seq<char>, w: char)
    requires
        whitespace(w),
    ensures
        trim(x.push(w)) == trim(x),
{
    let y = x.push(w);
    lemma_run_end(x, 0, CharClass::Whitespace);
    let k = skip_whitespace_end(x, 0);
    if k == x.len() {
        assert forall|i: int| 0 <= i < y.len() implies CharClass::Whitespace.spec_contains(
            #[trigger] y[i],
        ) by {
            if i < x.len() {
                assert(y[i] == x[i]);
            }
        }
        lemma_run_end_is(y, 0, CharClass::Whitespace, y.len() as int);
        assert(trim_start(y) =~= Seq::<char>::empty());
        assert(trim_start(x) =~= Seq::<char>::empty());
    } else {
        assert forall|i: int| 0 <= i < k implies CharClass::Whitespace.spec_contains(
            #[trigger] y[i],
        ) by {
            assert(y[i] == x[i]);
        }
        assert(y[k] == x[k]);
        lemma_run_end_is(y, 0, CharClass::Whitespace, k);
        assert(trim_start(y) =~= trim_start(x).push(w));
        assert(trim_start(x).push(w).drop_last() =~= trim_start(x));
    }
}

/// The end of the run of `class` characters that starts at `from`.
pub fn scan(input: &[char], from: usize, class: CharClass) -> (end: usize)
    ensures
        end == run_end(input@, from as int, class),
        from <= end,
        from <= input@.len() ==> end <= input@.len(),
{
    let mut end: usize = from;
    while end < input.len() && class.contains(input[end])
        invariant
            from <= end,
            from <= input@.len() ==> end <= input@.len(),
            run_end(input@, end as int, class) == run_end(input@, from as int, class),
        decreases input@.len() - end,
    {
        end += 1;
    }
    end
}

/// Skips whitespace and line terminators: the first position at or after
/// `from` that holds something else, or the end of the input.
pub fn skip_whitespace(input: &[char], from: usize) -> (end: usize)
    ensures
        end == skip_whitespace_end(input@, from as int),
        from <= end,
        from <= input@.len() ==> end <= input@.len(),
{
    scan(input, from, CharClass::Whitespace)
}

/// Recognizes an identifier at `from`: the position after its last
/// character, or `None` where no identifier starts at `from`.
pub fn identifier(input: &[char], from: usize) -> (end: Option<usize>)
    ensures
        match end {
            Some(end) => from < end <= input@.len() && end == identifier_end(input@, from as int),
            None => identifier_end(input@, from as int) == from,
        },
{
    if from < input.len() && is_ident_start(input[from]) {
        Some(scan(input, from + 1, CharClass::IdentContinue))
    } else {
        None
    }
}

/// Recognizes the exact text `text` at `from`: the position after it, or
/// `None` where the input holds something else there.
pub fn literal_token(input: &[char], from: usize, text: &str) -> (end: Option<usize>)
    ensures
        match end {
            Some(end) => matches_at(input@, from as int, text@) && end == from + text@.len(),
            None => !matches_at(input@, from as int, text@),
        },
{
    let n = text.unicode_len();
    if from > input.len() || n > input.len() - from {
        return None;
    }
    let mut k: usize = 0;
    while k < n
        invariant
            k <= n,
            n == text@.len(),
            from + n <= input@.len() <= usize::MAX,
            forall|j: int| 0 <= j < k ==> input@[from + j] == text@[j],
        decreases n - k,
    {
        if input[from + k] != text.get_char(k) {
            proof {
                let found = input@.subrange(from as int, from + n);
                assert(found[k as int] == input@[from + k]);
            }
            return None;
        }
        k += 1;
    }
    assert(input@.subrange(from as int, from + n) =~= text@);
    Some(from + n)
}

/// Recognizes the word `word` at `from`, but only as a whole identifier:
/// `true` is not found at the start of `truex`. Gives the position after
/// the word.
pub fn keyword(input: &[char], from: usize, word: &str) -> (end: Option<usize>)
    ensures
        match end {
            Some(end) => keyword_at(input@, from as int, word@) && end == from + word@.len(),
            None => !keyword_at(input@, from as int, word@),
        },
{
    match identifier(input, from) {
        Some(ident_end) => match literal_token(input, from, word) {
            Some(end) => if end == ident_end {
                Some(end)
            } else {
                None
            },
            None => None,
        },
        None => None,
    }
}

/// The bounds of `input[from..to]` without its leading and trailing
/// whitespace.
pub fn trim_bounds(input: &[char], from: usize, to: usize) -> (bounds: (usize, usize))
    requires
        from <= to <= input@.len(),
    ensures
        from <= bounds.0 <= bounds.1 <= to,
        bounds.0 == if skip_whitespace_end(input@, from as int) < to {
            skip_whitespace_end(input@, from as int)
        } else {
            to as int
        },
        input@.subrange(bounds.0 as int, bounds.1 as int) == trim(
            input@.subrange(from as int, to as int),
        ),
{
    let mut a: usize = from;
    while a < to && is_whitespace(input[a])
        invariant
            from <= a <= to <= input@.len(),
            forall|k: int| from <= k < a ==> whitespace(#[trigger] input@[k]),
        decreases to - a,
    {
        a += 1;
    }
    let mut b: usize = to;
    while a < b && is_whitespace(input[b - 1])
        invariant
            a <= b <= to <= input@.len(),
            forall|k: int| b <= k < to ==> whitespace(#[trigger] input@[k]),
        decreases b - a,
    {
        b -= 1;
    }
    proof {
        lemma_run_end(input@, from as int, CharClass::Whitespace);
        if a < to {
            lemma_run_end_is(input@, from as int, CharClass::Whitespace, a as int);
        } else if skip_whitespace_end(input@, from as int) < to {
            assert(whitespace(input@[skip_whitespace_end(input@, from as int)]));
        }
        let t = input@.subrange(from as int, to as int);
        assert forall|k: int| 0 <= k < a - from implies whitespace(#[trigger] t[k]) by {
            assert(t[k] == input@[from + k]);
        }
        assert forall|k: int| b - from <= k < t.len() implies whitespace(#[trigger] t[k]) by {
            assert(t[k] == input@[from + k]);
        }
        lemma_trim_is(t, a - from, b - from);
        assert(t.subrange(a - from, b - from) =~= input@.subrange(a as int, b as int));
    }
    (a, b)
}

} // verus!
