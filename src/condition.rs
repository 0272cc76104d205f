use vstd::prelude::*;

use crate::variables::{get_variable, lookup, vars_view};

verus! {

#[derive(Debug, Clone, Copy, PartialEq, Eq, Structural)]
pub enum Comparison {
    Equals,
    NotEquals,
    MoreThan,
    LessThan,
}

/// One side of a comparison: a variable's name or a literal integer.
#[derive(Debug, Clone, PartialEq)]
pub enum CompareableData {
    Variable(String),
    Number(i32),
}

/// What a condition tests before any negation.
#[derive(Debug, Clone, PartialEq)]
pub enum Predicate {
    /// Two operands under a comparator.
    Compare { first: CompareableData, compare: Comparison, second: CompareableData },
    /// Whether the named variable holds a value.
    IsSet(String),
}

/// A predicate, or its logical negation when `negated` is set.
#[derive(Debug, Clone, PartialEq)]
pub struct Condition {
    pub predicate: Predicate,
    pub negated: bool,
}

pub enum OperandView {
    Variable(Seq<char>),
    Number(i32),
}

pub enum PredicateView {
    Compare { first: OperandView, compare: Comparison, second: OperandView },
    IsSet(Seq<char>),
}

pub struct CondView {
    pub predicate: PredicateView,
    pub negated: bool,
}

impl View for CompareableData {
    type V = OperandView;

    open spec fn view(&self) -> OperandView {
        match self {
            CompareableData::Variable(s) => OperandView::Variable(s@),
            CompareableData::Number(n) => OperandView::Number(*n),
        }
    }
}

impl View for Predicate {
    type V = PredicateView;

    open spec fn view(&self) -> PredicateView {
        match self {
            Predicate::Compare { first, compare, second } => PredicateView::Compare {
                first: first@,
                compare: *compare,
                second: second@,
            },
            Predicate::IsSet(name) => PredicateView::IsSet(name@),
        }
    }
}

impl View for Condition {
    type V = CondView;

    open spec fn view(&self) -> CondView {
        CondView { predicate: self.predicate@, negated: self.negated }
    }
}

/// Why a call on a cursor could not be carried out.
#[derive(Debug, Clone, Copy, PartialEq, Eq, Structural)]
pub enum NovelError {
    /// A condition names a variable that holds no value.
    UndefinedVariable,
    /// A scene is not registered under the name asked for.
    UnknownScene,
    /// One call followed more jumps than the walker allows.
    JumpLimit,
    /// The cursor's scope stack does not fit the scene it points into.
    BrokenCursor,
    /// The name `choice` is reserved for recorded choices.
    ReservedName,
}

pub open spec fn operand_value(o: CompareableData, vars: Seq<(Seq<char>, i32)>) -> Option<i32> {
    match o {
        CompareableData::Number(n) => Some(n),
        CompareableData::Variable(name) => lookup(vars, name@),
    }
}

pub open spec fn compare_spec(c: Comparison, a: i32, b: i32) -> bool {
    match c {
        Comparison::Equals => a == b,
        Comparison::NotEquals => a != b,
        Comparison::MoreThan => a > b,
        Comparison::LessThan => a < b,
    }
}

/// The truth of a predicate against a variable table. A comparison with a
/// missing variable is an error, never a default; an is-set test never fails.
pub open spec fn predicate_spec(p: Predicate, vars: Seq<(Seq<char>, i32)>) -> Result<bool, NovelError> {
    match p {
        Predicate::Compare { first, compare, second } => match (
            operand_value(first, vars),
            operand_value(second, vars),
        ) {
            (Some(a), Some(b)) => Ok(compare_spec(compare, a, b)),
            _ => Err(NovelError::UndefinedVariable),
        },
        Predicate::IsSet(name) => Ok(lookup(vars, name@) is Some),
    }
}

/// The truth of a condition: its predicate's, flipped when negated.
pub open spec fn check_spec(c: Condition, vars: Seq<(Seq<char>, i32)>) -> Result<bool, NovelError> {
    match predicate_spec(c.predicate, vars) {
        Ok(b) => Ok(b != c.negated),
        Err(e) => Err(e),
    }
}

/// The logical negation of a result; an error stays the same error.
pub open spec fn negation(r: Result<bool, NovelError>) -> Result<bool, NovelError> {
    match r {
        Ok(b) => Ok(!b),
        Err(e) => Err(e),
    }
}

fn operand(o: &CompareableData, vars: &Vec<(String, i32)>) -> (r: Option<i32>)
    ensures
        r == operand_value(*o, vars_view(vars@)),
{
    match o {
        CompareableData::Number(n) => Some(*n),
        CompareableData::Variable(name) => get_variable(vars, name),
    }
}

impl Condition {
    /// The comparison `first compare second`.
    pub fn compare(first: CompareableData, compare: Comparison, second: CompareableData) -> (r: Self)
        ensures
            r.predicate == (Predicate::Compare { first, compare, second }),
            !r.negated,
    {
        Condition { predicate: Predicate::Compare { first, compare, second }, negated: false }
    }

    /// The test whether the variable `name` holds a value.
    pub fn is_set(name: String) -> (r: Self)
        ensures
            r.predicate == Predicate::IsSet(name),
            !r.negated,
    {
        Condition { predicate: Predicate::IsSet(name), negated: false }
    }

    /// The logical negation of this condition: against every variable table
    /// it holds exactly when this one does not, and fails exactly when this
    /// one fails, with the same error.
    pub fn new_reverse(self) -> (r: Self)
        ensures
            r.predicate == self.predicate,
            r.negated == !self.negated,
            forall|vars: Seq<(Seq<char>, i32)>| #[trigger]
                check_spec(r, vars) == negation(check_spec(self, vars)),
    {
        Condition { predicate: self.predicate, negated: !self.negated }
    }

    /// Evaluates the condition against a variable table.
    pub fn check(&self, vars: &Vec<(String, i32)>) -> (r: Result<bool, NovelError>)
        ensures
            r == check_spec(*self, vars_view(vars@)),
    {
        let holds = match &self.predicate {
            Predicate::Compare { first, compare, second } => {
                let a = operand(first, vars);
                let b = operand(second, vars);
                match (a, b) {
                    (Some(x), Some(y)) => match compare {
                        Comparison::Equals => x == y,
                        Comparison::NotEquals => x != y,
                        Comparison::MoreThan => x > y,
                        Comparison::LessThan => x < y,
                    },
                    _ => {
                        return Err(NovelError::UndefinedVariable);
                    },
                }
            },
            Predicate::IsSet(name) => get_variable(vars, name).is_some(),
        };
        Ok(holds != self.negated)
    }
}

} // verus!
