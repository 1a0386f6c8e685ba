//! Operators, their canonical spellings, and the arity classes that decide
//! which node may carry which operator.

use vstd::prelude::*;

verus! {

/// Where an operator stands relative to its operands.
#[derive(Clone, Copy, Debug, PartialEq, Eq, Hash, Structural)]
pub enum Fixity {
    /// Before its single operand.
    Prefix,
    /// Between its two operands.
    Infix,
    /// After its single operand.
    Postfix,
}

/// Every operator of the language.
#[derive(Clone, Copy, Debug, PartialEq, Eq, Hash, Structural)]
pub enum Operator {
    And,
    Or,
    Not,
    Equality,
    Comparison,
    In,
    Match,
    Asc,
    Desc,
    UnaryPlus,
    UnaryMinus,
    Plus,
    Minus,
    Star,
    Slash,
    Percent,
    StarStar,
}

/// The operators a [`crate::ast::Unary`] node may carry.
#[derive(Clone, Copy, Debug, PartialEq, Eq, Hash, Structural)]
pub enum UnaryOperator {
    Not,
    Plus,
    Minus,
}

/// The operators a [`crate::ast::Binary`] node may carry.
#[derive(Clone, Copy, Debug, PartialEq, Eq, Hash, Structural)]
pub enum BinaryOperator {
    And,
    Or,
    Equality,
    Comparison,
    In,
    Match,
    Plus,
    Minus,
    Star,
    Slash,
    Percent,
    StarStar,
}

impl Operator {
    /// The canonical spelling, as a character sequence.
    pub open spec fn spec_spelling(self) -> Seq<char> {
        match self {
            Operator::And => seq!['&', '&'],
            Operator::Or => seq!['|', '|'],
            Operator::Not => seq!['!'],
            Operator::Equality => seq!['=', '='],
            Operator::Comparison => seq!['='],
            Operator::In => seq!['i', 'n'],
            Operator::Match => seq!['m', 'a', 't', 'c', 'h'],
            Operator::Asc => seq!['a', 's', 'c'],
            Operator::Desc => seq!['d', 'e', 's', 'c'],
            Operator::UnaryPlus => seq!['+'],
            Operator::UnaryMinus => seq!['-'],
            Operator::Plus => seq!['+'],
            Operator::Minus => seq!['-'],
            Operator::Star => seq!['*'],
            Operator::Slash => seq!['/'],
            Operator::Percent => seq!['%'],
            Operator::StarStar => seq!['*', '*'],
        }
    }

    /// Where the operator stands: `!`, unary `+` and unary `-` before their
    /// operand, `asc` and `desc` after it, every other operator between two.
    pub open spec fn spec_fixity(self) -> Fixity {
        match self {
            Operator::Not | Operator::UnaryPlus | Operator::UnaryMinus => Fixity::Prefix,
            Operator::Asc | Operator::Desc => Fixity::Postfix,
            _ => Fixity::Infix,
        }
    }

    /// Whether this operator is the one written `text` in position `fixity`.
    pub open spec fn spelled(self, fixity: Fixity, text: Seq<char>) -> bool {
        self.spec_fixity() == fixity && self.spec_spelling() == text
    }

    /// The operator written `text` in position `fixity`, if there is one.
    ///
    /// The position is part of the key because `+` and `-` name a different
    /// operator before an operand than between two. At most one operator
    /// fits: see [`Operator::lemma_spelling_is_unique`].
    pub open spec fn spec_from_spelling(fixity: Fixity, text: Seq<char>) -> Option<Operator> {
        if exists|op: Operator| op.spelled(fixity, text) {
            Some(choose|op: Operator| op.spelled(fixity, text))
        } else {
            None
        }
    }

    /// This operator as one that a unary node may carry: a prefix operator
    /// is one, no other is.
    pub open spec fn spec_as_unary(self) -> Option<UnaryOperator> {
        match self {
            Operator::Not => Some(UnaryOperator::Not),
            Operator::UnaryPlus => Some(UnaryOperator::Plus),
            Operator::UnaryMinus => Some(UnaryOperator::Minus),
            _ => None,
        }
    }

    /// This operator as one that a binary node may carry: an infix operator
    /// is one, no other is.
    pub open spec fn spec_as_binary(self) -> Option<BinaryOperator> {
        match self {
            Operator::And => Some(BinaryOperator::And),
            Operator::Or => Some(BinaryOperator::Or),
            Operator::Equality => Some(BinaryOperator::Equality),
            Operator::Comparison => Some(BinaryOperator::Comparison),
            Operator::In => Some(BinaryOperator::In),
            Operator::Match => Some(BinaryOperator::Match),
            Operator::Plus => Some(BinaryOperator::Plus),
            Operator::Minus => Some(BinaryOperator::Minus),
            Operator::Star => Some(BinaryOperator::Star),
            Operator::Slash => Some(BinaryOperator::Slash),
            Operator::Percent => Some(BinaryOperator::Percent),
            Operator::StarStar => Some(BinaryOperator::StarStar),
            _ => None,
        }
    }

    /// The canonical spelling, used for recognizing the operator and for
    /// printing it.
    pub fn spelling(self) -> (text: &'static str)
        ensures
            text@ == self.spec_spelling(),
    {
        proof {
            reveal_strlit("&&");
            reveal_strlit("||");
            reveal_strlit("!");
            reveal_strlit("==");
            reveal_strlit("=");
            reveal_strlit("in");
            reveal_strlit("match");
            reveal_strlit("asc");
            reveal_strlit("desc");
            reveal_strlit("+");
            reveal_strlit("-");
            reveal_strlit("*");
            reveal_strlit("/");
            reveal_strlit("%");
            reveal_strlit("**");
        }
        let text = match self {
            Operator::And => "&&",
            Operator::Or => "||",
            Operator::Not => "!",
            Operator::Equality => "==",
            Operator::Comparison => "=",
            Operator::In => "in",
            Operator::Match => "match",
            Operator::Asc => "asc",
            Operator::Desc => "desc",
            Operator::UnaryPlus => "+",
            Operator::UnaryMinus => "-",
            Operator::Plus => "+",
            Operator::Minus => "-",
            Operator::Star => "*",
            Operator::Slash => "/",
            Operator::Percent => "%",
            Operator::StarStar => "**",
        };
        assert(text@ =~= self.spec_spelling());
        text
    }

    /// Where the operator stands relative to its operands.
    #[verifier::when_used_as_spec(spec_fixity)]
    pub fn fixity(self) -> (fixity: Fixity)
        ensures
            fixity == self.spec_fixity(),
    {
        match self {
            Operator::Not | Operator::UnaryPlus | Operator::UnaryMinus => Fixity::Prefix,
            Operator::Asc | Operator::Desc => Fixity::Postfix,
            _ => Fixity::Infix,
        }
    }

    /// The operator written `text` in position `fixity`, or `None` where no
    /// operator is spelled that way there.
    pub fn from_spelling(fixity: Fixity, text: &str) -> (found: Option<Operator>)
        ensures
            found == Operator::spec_from_spelling(fixity, text@),
    {
        let candidates = Operator::candidates(fixity);
        let mut i: usize = 0;
        while i < candidates.len()
            invariant
                i <= candidates@.len(),
                candidates@ == Operator::spec_candidates(fixity),
                forall|k: int| 0 <= k < i ==> (#[trigger] candidates@[k]).spec_spelling() != text@,
            decreases candidates@.len() - i,
        {
            let candidate = candidates[i];
            if same_text(text, candidate.spelling()) {
                proof {
                    Operator::lemma_from_spelling_finds(fixity, text@, i as int);
                }
                return Some(candidate);
            }
            i += 1;
        }
        proof {
            Operator::lemma_from_spelling_misses(fixity, text@);
        }
        None
    }

    /// This operator as one that a unary node may carry, or `None` where it
    /// is no prefix operator.
    #[verifier::when_used_as_spec(spec_as_unary)]
    pub fn as_unary(self) -> (unary: Option<UnaryOperator>)
        ensures
            unary == self.spec_as_unary(),
    {
        match self {
            Operator::Not => Some(UnaryOperator::Not),
            Operator::UnaryPlus => Some(UnaryOperator::Plus),
            Operator::UnaryMinus => Some(UnaryOperator::Minus),
            _ => None,
        }
    }

    /// This operator as one that a binary node may carry, or `None` where
    /// it is no infix operator.
    #[verifier::when_used_as_spec(spec_as_binary)]
    pub fn as_binary(self) -> (binary: Option<BinaryOperator>)
        ensures
            binary == self.spec_as_binary(),
    {
        match self {
            Operator::And => Some(BinaryOperator::And),
            Operator::Or => Some(BinaryOperator::Or),
            Operator::Equality => Some(BinaryOperator::Equality),
            Operator::Comparison => Some(BinaryOperator::Comparison),
            Operator::In => Some(BinaryOperator::In),
            Operator::Match => Some(BinaryOperator::Match),
            Operator::Plus => Some(BinaryOperator::Plus),
            Operator::Minus => Some(BinaryOperator::Minus),
            Operator::Star => Some(BinaryOperator::Star),
            Operator::Slash => Some(BinaryOperator::Slash),
            Operator::Percent => Some(BinaryOperator::Percent),
            Operator::StarStar => Some(BinaryOperator::StarStar),
            _ => None,
        }
    }

    /// The operators that stand in position `fixity`.
    pub open spec fn spec_candidates(fixity: Fixity) -> Seq<Operator> {
        match fixity {
            Fixity::Prefix => seq![Operator::Not, Operator::UnaryPlus, Operator::UnaryMinus],
            Fixity::Postfix => seq![Operator::Asc, Operator::Desc],
            Fixity::Infix => seq![
                Operator::And,
                Operator::Or,
                Operator::Equality,
                Operator::Comparison,
                Operator::In,
                Operator::Match,
                Operator::Plus,
                Operator::Minus,
                Operator::Star,
                Operator::Slash,
                Operator::Percent,
                Operator::StarStar,
            ],
        }
    }

    /// The operators that stand in position `fixity`.
    fn candidates(fixity: Fixity) -> (list: Vec<Operator>)
        ensures
            list@ == Operator::spec_candidates(fixity),
    {
        let list = match fixity {
            Fixity::Prefix => vec![Operator::Not, Operator::UnaryPlus, Operator::UnaryMinus],
            Fixity::Postfix => vec![Operator::Asc, Operator::Desc],
            Fixity::Infix => vec![
                Operator::And,
                Operator::Or,
                Operator::Equality,
                Operator::Comparison,
                Operator::In,
                Operator::Match,
                Operator::Plus,
                Operator::Minus,
                Operator::Star,
                Operator::Slash,
                Operator::Percent,
                Operator::StarStar,
            ],
        };
        assert(list@ =~= Operator::spec_candidates(fixity));
        list
    }

    /// Every operator is among the candidates of its own position, and the
    /// candidates of a position all stand there.
    proof fn lemma_candidates_are_complete(fixity: Fixity)
        ensures
            forall|op: Operator|
                op.spec_fixity() == fixity ==> exists|k: int|
                    0 <= k < Operator::spec_candidates(fixity).len() && #[trigger] Operator::spec_candidates(
                        fixity,
                    )[k] == op,
            forall|k: int|
                0 <= k < Operator::spec_candidates(fixity).len() ==> (
                #[trigger] Operator::spec_candidates(fixity)[k]).spec_fixity() == fixity,
    {
        let list = Operator::spec_candidates(fixity);
        assert forall|op: Operator| op.spec_fixity() == fixity implies exists|k: int|
            0 <= k < list.len() && #[trigger] list[k] == op by {
            let k: int = match op {
                Operator::Not | Operator::Asc | Operator::And => 0,
                Operator::UnaryPlus | Operator::Desc | Operator::Or => 1,
                Operator::UnaryMinus | Operator::Equality => 2,
                Operator::Comparison => 3,
                Operator::In => 4,
                Operator::Match => 5,
                Operator::Plus => 6,
                Operator::Minus => 7,
                Operator::Star => 8,
                Operator::Slash => 9,
                Operator::Percent => 10,
                Operator::StarStar => 11,
            };
            assert(list[k] == op);
        }
    }

    /// A candidate that is spelled `text` is what `text` names.
    proof fn lemma_from_spelling_finds(fixity: Fixity, text: Seq<char>, i: int)
        requires
            0 <= i < Operator::spec_candidates(fixity).len(),
            Operator::spec_candidates(fixity)[i].spec_spelling() == text,
        ensures
            Operator::spec_from_spelling(fixity, text) == Some(Operator::spec_candidates(fixity)[i]),
    {
        let op = Operator::spec_candidates(fixity)[i];
        Operator::lemma_candidates_are_complete(fixity);
        assert(op.spelled(fixity, text));
        Operator::lemma_spelling_is_unique(op);
    }

    /// Where no candidate is spelled `text`, `text` names no operator.
    proof fn lemma_from_spelling_misses(fixity: Fixity, text: Seq<char>)
        requires
            forall|k: int|
                0 <= k < Operator::spec_candidates(fixity).len() ==> (
                #[trigger] Operator::spec_candidates(fixity)[k]).spec_spelling() != text,
        ensures
            Operator::spec_from_spelling(fixity, text) is None,
    {
        Operator::lemma_candidates_are_complete(fixity);
    }

    /// Two operators of one position never share a spelling.
    pub proof fn lemma_spelling_is_unique(op: Operator)
        ensures
            forall|other: Operator|
                other.spec_fixity() == op.spec_fixity() && #[trigger] other.spec_spelling()
                    == op.spec_spelling() ==> other == op,
    {
        assert forall|other: Operator|
            other.spec_fixity() == op.spec_fixity() && #[trigger] other.spec_spelling()
                == op.spec_spelling() implies other == op by {
            let a = other.spec_spelling();
            let b = op.spec_spelling();
            assert(a.len() == b.len());
            assert(a[0] == b[0]);
            if a.len() > 1 {
                assert(a[1] == b[1]);
            }
        }
    }

    /// Spelling, then reading: an operator's own spelling, read in the
    /// operator's own position, gives the operator back.
    pub proof fn lemma_spelling_round_trip(op: Operator)
        ensures
            Operator::spec_from_spelling(op.spec_fixity(), op.spec_spelling()) == Some(op),
    {
        assert(op.spelled(op.spec_fixity(), op.spec_spelling()));
        Operator::lemma_spelling_is_unique(op);
    }

    /// Reading, then spelling: whatever is read from a text in a position
    /// stands in that position and is spelled exactly that text. With
    /// [`Operator::lemma_spelling_round_trip`], the two maps are inverse to
    /// each other.
    pub proof fn lemma_spelling_is_exact(fixity: Fixity, text: Seq<char>)
        ensures
            Operator::spec_from_spelling(fixity, text) matches Some(op) ==> op.spec_fixity()
                == fixity && op.spec_spelling() == text,
    {
    }
}

impl UnaryOperator {
    /// This operator as a member of the full operator set.
    pub open spec fn spec_operator(self) -> Operator {
        match self {
            UnaryOperator::Not => Operator::Not,
            UnaryOperator::Plus => Operator::UnaryPlus,
            UnaryOperator::Minus => Operator::UnaryMinus,
        }
    }

    /// The canonical spelling, as a character sequence.
    pub open spec fn spec_spelling(self) -> Seq<char> {
        self.spec_operator().spec_spelling()
    }

    /// The unary operator written `text`, if there is one.
    pub open spec fn spec_from_spelling(text: Seq<char>) -> Option<UnaryOperator> {
        match Operator::spec_from_spelling(Fixity::Prefix, text) {
            Some(op) => op.spec_as_unary(),
            None => None,
        }
    }

    /// This operator as a member of the full operator set.
    #[verifier::when_used_as_spec(spec_operator)]
    pub fn operator(self) -> (op: Operator)
        ensures
            op == self.spec_operator(),
            op.spec_fixity() == Fixity::Prefix,
            op.spec_as_unary() == Some(self),
    {
        match self {
            UnaryOperator::Not => Operator::Not,
            UnaryOperator::Plus => Operator::UnaryPlus,
            UnaryOperator::Minus => Operator::UnaryMinus,
        }
    }

    /// The canonical spelling.
    pub fn spelling(self) -> (text: &'static str)
        ensures
            text@ == self.spec_spelling(),
    {
        self.operator().spelling()
    }

    /// The unary operator written `text`, or `None` where there is none.
    pub fn from_spelling(text: &str) -> (found: Option<UnaryOperator>)
        ensures
            found == UnaryOperator::spec_from_spelling(text@),
    {
        match Operator::from_spelling(Fixity::Prefix, text) {
            Some(op) => op.as_unary(),
            None => None,
        }
    }

    /// Spelling, then reading, gives a unary operator back.
    pub proof fn lemma_spelling_round_trip(op: UnaryOperator)
        ensures
            UnaryOperator::spec_from_spelling(op.spec_spelling()) == Some(op),
    {
        Operator::lemma_spelling_round_trip(op.spec_operator());
    }

    /// Whatever unary operator is read from a text is spelled that text.
    pub proof fn lemma_spelling_is_exact(text: Seq<char>)
        ensures
            UnaryOperator::spec_from_spelling(text) matches Some(op) ==> op.spec_spelling() == text,
    {
    }
}

impl BinaryOperator {
    /// This operator as a member of the full operator set.
    pub open spec fn spec_operator(self) -> Operator {
        match self {
            BinaryOperator::And => Operator::And,
            BinaryOperator::Or => Operator::Or,
            BinaryOperator::Equality => Operator::Equality,
            BinaryOperator::Comparison => Operator::Comparison,
            BinaryOperator::In => Operator::In,
            BinaryOperator::Match => Operator::Match,
            BinaryOperator::Plus => Operator::Plus,
            BinaryOperator::Minus => Operator::Minus,
            BinaryOperator::Star => Operator::Star,
            BinaryOperator::Slash => Operator::Slash,
            BinaryOperator::Percent => Operator::Percent,
            BinaryOperator::StarStar => Operator::StarStar,
        }
    }

    /// The canonical spelling, as a character sequence.
    pub open spec fn spec_spelling(self) -> Seq<char> {
        self.spec_operator().spec_spelling()
    }

    /// The binary operator written `text`, if there is one.
    pub open spec fn spec_from_spelling(text: Seq<char>) -> Option<BinaryOperator> {
        match Operator::spec_from_spelling(Fixity::Infix, text) {
            Some(op) => op.spec_as_binary(),
            None => None,
        }
    }

    /// This operator as a member of the full operator set.
    #[verifier::when_used_as_spec(spec_operator)]
    pub fn operator(self) -> (op: Operator)
        ensures
            op == self.spec_operator(),
            op.spec_fixity() == Fixity::Infix,
            op.spec_as_binary() == Some(self),
    {
        match self {
            BinaryOperator::And => Operator::And,
            BinaryOperator::Or => Operator::Or,
            BinaryOperator::Equality => Operator::Equality,
            BinaryOperator::Comparison => Operator::Comparison,
            BinaryOperator::In => Operator::In,
            BinaryOperator::Match => Operator::Match,
            BinaryOperator::Plus => Operator::Plus,
            BinaryOperator::Minus => Operator::Minus,
            BinaryOperator::Star => Operator::Star,
            BinaryOperator::Slash => Operator::Slash,
            BinaryOperator::Percent => Operator::Percent,
            BinaryOperator::StarStar => Operator::StarStar,
        }
    }

    /// The canonical spelling.
    pub fn spelling(self) -> (text: &'static str)
        ensures
            text@ == self.spec_spelling(),
    {
        self.operator().spelling()
    }

    /// The binary operator written `text`, or `None` where there is none.
    pub fn from_spelling(text: &str) -> (found: Option<BinaryOperator>)
        ensures
            found == BinaryOperator::spec_from_spelling(text@),
    {
        match Operator::from_spelling(Fixity::Infix, text) {
            Some(op) => op.as_binary(),
            None => None,
        }
    }

    /// Spelling, then reading, gives a binary operator back.
    pub proof fn lemma_spelling_round_trip(op: BinaryOperator)
        ensures
            BinaryOperator::spec_from_spelling(op.spec_spelling()) == Some(op),
    {
        Operator::lemma_spelling_round_trip(op.spec_operator());
    }

    /// Whatever binary operator is read from a text is spelled that text.
    pub proof fn lemma_spelling_is_exact(text: Seq<char>)
        ensures
            BinaryOperator::spec_from_spelling(text) matches Some(op) ==> op.spec_spelling()
                == text,
    {
    }
}

/// Whether two strings hold the same characters.
pub fn same_text(a: &str, b: &str) -> (same: bool)
    ensures
        same == (a@ == b@),
{
    let n = a.unicode_len();
    if n != b.unicode_len() {
        return false;
    }
    let mut i: usize = 0;
    while i < n
        invariant
            i <= n,
            n == a@.len(),
            n == b@.len(),
            forall|k: int| 0 <= k < i ==> a@[k] == b@[k],
        decreases n - i,
    {
        if a.get_char(i) != b.get_char(i) {
            return false;
        }
        i += 1;
    }
    assert(a@ =~= b@);
    true
}

} // verus!
