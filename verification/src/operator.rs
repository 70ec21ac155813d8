//! The mutation operators: each turns one operator token, or one boolean
//! literal in a `return`, into another.

use vstd::prelude::*;

use crate::text::text_equals;

verus! {

/// A mutation operator. The order of the variants is the order in which
/// mutants at the same position are listed.
#[derive(Clone, Copy, Debug, PartialEq, Eq, Structural, PartialOrd, Ord, Hash)]
pub enum Operator {
    CondBoundaryGt,
    CondBoundaryLt,
    LogicalAndToOr,
    LogicalOrToAnd,
    EqualityStrictToLooseNeg,
    InequalityToEquality,
    ReturnTrueToFalse,
    ReturnFalseToTrue,
}

/// The identifier of an operator on the command line and in reports.
pub open spec fn operator_id(operator: Operator) -> Seq<char> {
    match operator {
        Operator::CondBoundaryGt => "cond-boundary-gt"@,
        Operator::CondBoundaryLt => "cond-boundary-lt"@,
        Operator::LogicalAndToOr => "logical-and-to-or"@,
        Operator::LogicalOrToAnd => "logical-or-to-and"@,
        Operator::EqualityStrictToLooseNeg => "equality-strict-to-loose-neg"@,
        Operator::InequalityToEquality => "inequality-to-equality"@,
        Operator::ReturnTrueToFalse => "return-true-to-false"@,
        Operator::ReturnFalseToTrue => "return-false-to-true"@,
    }
}

/// The operator whose identifier is `id`, if there is one.
pub open spec fn operator_named(id: Seq<char>) -> Option<Operator> {
    if id == operator_id(Operator::CondBoundaryGt) {
        Some(Operator::CondBoundaryGt)
    } else if id == operator_id(Operator::CondBoundaryLt) {
        Some(Operator::CondBoundaryLt)
    } else if id == operator_id(Operator::LogicalAndToOr) {
        Some(Operator::LogicalAndToOr)
    } else if id == operator_id(Operator::LogicalOrToAnd) {
        Some(Operator::LogicalOrToAnd)
    } else if id == operator_id(Operator::EqualityStrictToLooseNeg) {
        Some(Operator::EqualityStrictToLooseNeg)
    } else if id == operator_id(Operator::InequalityToEquality) {
        Some(Operator::InequalityToEquality)
    } else if id == operator_id(Operator::ReturnTrueToFalse) {
        Some(Operator::ReturnTrueToFalse)
    } else if id == operator_id(Operator::ReturnFalseToTrue) {
        Some(Operator::ReturnFalseToTrue)
    } else {
        None
    }
}

/// The position of an operator in the declaration order, which is the order
/// `Ord` gives.
pub open spec fn operator_rank(operator: Operator) -> nat {
    match operator {
        Operator::CondBoundaryGt => 0,
        Operator::CondBoundaryLt => 1,
        Operator::LogicalAndToOr => 2,
        Operator::LogicalOrToAnd => 3,
        Operator::EqualityStrictToLooseNeg => 4,
        Operator::InequalityToEquality => 5,
        Operator::ReturnTrueToFalse => 6,
        Operator::ReturnFalseToTrue => 7,
    }
}

/// The text of the token that an operator replaces.
pub open spec fn operator_target(operator: Operator) -> Seq<char> {
    match operator {
        Operator::CondBoundaryGt => ">"@,
        Operator::CondBoundaryLt => "<"@,
        Operator::LogicalAndToOr => "&&"@,
        Operator::LogicalOrToAnd => "||"@,
        Operator::EqualityStrictToLooseNeg => "==="@,
        Operator::InequalityToEquality => "!=="@,
        Operator::ReturnTrueToFalse => "true"@,
        Operator::ReturnFalseToTrue => "false"@,
    }
}

/// The text that an operator writes in place of its token.
pub open spec fn operator_replacement(operator: Operator) -> Seq<char> {
    match operator {
        Operator::CondBoundaryGt => ">="@,
        Operator::CondBoundaryLt => "<="@,
        Operator::LogicalAndToOr => "||"@,
        Operator::LogicalOrToAnd => "&&"@,
        Operator::EqualityStrictToLooseNeg => "!=="@,
        Operator::InequalityToEquality => "==="@,
        Operator::ReturnTrueToFalse => "false"@,
        Operator::ReturnFalseToTrue => "true"@,
    }
}

impl Operator {
    /// Every operator, in declaration order.
    pub const ALL: [Operator; 8] = [
        Operator::CondBoundaryGt,
        Operator::CondBoundaryLt,
        Operator::LogicalAndToOr,
        Operator::LogicalOrToAnd,
        Operator::EqualityStrictToLooseNeg,
        Operator::InequalityToEquality,
        Operator::ReturnTrueToFalse,
        Operator::ReturnFalseToTrue,
    ];

    /// The identifier of this operator, such as `logical-and-to-or`.
    pub fn id(self) -> (id: &'static str)
        ensures
            id@ == operator_id(self),
    {
        match self {
            Operator::CondBoundaryGt => "cond-boundary-gt",
            Operator::CondBoundaryLt => "cond-boundary-lt",
            Operator::LogicalAndToOr => "logical-and-to-or",
            Operator::LogicalOrToAnd => "logical-or-to-and",
            Operator::EqualityStrictToLooseNeg => "equality-strict-to-loose-neg",
            Operator::InequalityToEquality => "inequality-to-equality",
            Operator::ReturnTrueToFalse => "return-true-to-false",
            Operator::ReturnFalseToTrue => "return-false-to-true",
        }
    }

    /// The operator whose identifier is `id`, or `None` when no operator has
    /// that identifier.
    pub fn from_id(id: &str) -> (found: Option<Operator>)
        ensures
            found == operator_named(id@),
    {
        if text_equals(id, Operator::CondBoundaryGt.id()) {
            Some(Operator::CondBoundaryGt)
        } else if text_equals(id, Operator::CondBoundaryLt.id()) {
            Some(Operator::CondBoundaryLt)
        } else if text_equals(id, Operator::LogicalAndToOr.id()) {
            Some(Operator::LogicalAndToOr)
        } else if text_equals(id, Operator::LogicalOrToAnd.id()) {
            Some(Operator::LogicalOrToAnd)
        } else if text_equals(id, Operator::EqualityStrictToLooseNeg.id()) {
            Some(Operator::EqualityStrictToLooseNeg)
        } else if text_equals(id, Operator::InequalityToEquality.id()) {
            Some(Operator::InequalityToEquality)
        } else if text_equals(id, Operator::ReturnTrueToFalse.id()) {
            Some(Operator::ReturnTrueToFalse)
        } else if text_equals(id, Operator::ReturnFalseToTrue.id()) {
            Some(Operator::ReturnFalseToTrue)
        } else {
            None
        }
    }

    /// The text of the token this operator replaces.
    pub fn target(self) -> (target: &'static str)
        ensures
            target@ == operator_target(self),
    {
        match self {
            Operator::CondBoundaryGt => ">",
            Operator::CondBoundaryLt => "<",
            Operator::LogicalAndToOr => "&&",
            Operator::LogicalOrToAnd => "||",
            Operator::EqualityStrictToLooseNeg => "===",
            Operator::InequalityToEquality => "!==",
            Operator::ReturnTrueToFalse => "true",
            Operator::ReturnFalseToTrue => "false",
        }
    }

    /// The text this operator writes in place of its token.
    pub fn replacement(self) -> (replacement: &'static str)
        ensures
            replacement@ == operator_replacement(self),
    {
        match self {
            Operator::CondBoundaryGt => ">=",
            Operator::CondBoundaryLt => "<=",
            Operator::LogicalAndToOr => "||",
            Operator::LogicalOrToAnd => "&&",
            Operator::EqualityStrictToLooseNeg => "!==",
            Operator::InequalityToEquality => "===",
            Operator::ReturnTrueToFalse => "false",
            Operator::ReturnFalseToTrue => "true",
        }
    }

    /// Whether this operator comes before `other` in declaration order.
    pub fn precedes(self, other: Operator) -> (before: bool)
        ensures
            before == (operator_rank(self) < operator_rank(other)),
    {
        self.rank() < other.rank()
    }

    fn rank(self) -> (rank: u8)
        ensures
            rank as nat == operator_rank(self),
    {
        match self {
            Operator::CondBoundaryGt => 0,
            Operator::CondBoundaryLt => 1,
            Operator::LogicalAndToOr => 2,
            Operator::LogicalOrToAnd => 3,
            Operator::EqualityStrictToLooseNeg => 4,
            Operator::InequalityToEquality => 5,
            Operator::ReturnTrueToFalse => 6,
            Operator::ReturnFalseToTrue => 7,
        }
    }
}

/// No two operators share an identifier.
pub proof fn lemma_operator_ids_distinct(first: Operator, second: Operator)
    requires
        first != second,
    ensures
        operator_id(first) != operator_id(second),
{
    reveal_strlit("cond-boundary-gt");
    reveal_strlit("cond-boundary-lt");
    reveal_strlit("logical-and-to-or");
    reveal_strlit("logical-or-to-and");
    reveal_strlit("equality-strict-to-loose-neg");
    reveal_strlit("inequality-to-equality");
    reveal_strlit("return-true-to-false");
    reveal_strlit("return-false-to-true");
    if operator_id(first) == operator_id(second) {
        assert(operator_id(first).len() == operator_id(second).len());
        assert(operator_id(first)[7] == operator_id(second)[7]);
        assert(operator_id(first)[8] == operator_id(second)[8]);
        assert(operator_id(first)[14] == operator_id(second)[14]);
    }
}

/// Looking up an operator by its own identifier gives that operator back, and
/// an identifier that is found names the operator that was found.
pub proof fn lemma_operator_id_round_trip(operator: Operator, id: Seq<char>)
    ensures
        operator_named(operator_id(operator)) == Some(operator),
        operator_named(id) == Some(operator) <==> id == operator_id(operator),
{
    assert forall|other: Operator| other != operator implies operator_id(other) != operator_id(
        operator,
    ) by {
        lemma_operator_ids_distinct(other, operator);
    }
    assert(operator_named(operator_id(operator)) == Some(operator));
}

} // verus!
