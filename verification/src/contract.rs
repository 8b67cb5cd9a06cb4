//! Behavioral contracts of functions: pre- and postconditions and the
//! properties a function is known to have.

use vstd::prelude::*;
use crate::ir::{NodeId, Ratio};
use crate::types::TypeRef;

verus! {

/// A behavioral contract for a function.
pub struct Contract {
    /// The function this contract applies to.
    pub function: NodeId,
    /// Preconditions that must hold when the function is called.
    pub preconditions: Vec<Condition>,
    /// Postconditions that must hold after the function returns.
    pub postconditions: Vec<Condition>,
    /// Properties that hold throughout execution.
    pub properties: Vec<FunctionProperty>,
    /// How this contract was determined.
    pub origin: ContractOrigin,
    /// Confidence, between zero and one.
    pub confidence: Ratio,
}

/// A condition (pre or post) expressed as a constraint.
pub enum Condition {
    /// Parameter must satisfy a constraint.
    ParamConstraint { param_name: String, constraint: ValueConstraint },
    /// Return value must satisfy a constraint.
    ReturnConstraint { constraint: ValueConstraint },
    /// A relationship between parameters.
    RelationalConstraint { left: String, relation: Relation, right: String },
    /// Type must match expected.
    TypeConstraint { name: String, expected: TypeRef },
    /// Custom expression.
    Expression(String),
}

/// A constraint on a value.
pub enum ValueConstraint {
    NotNull,
    NotEmpty,
    Positive,
    NonNegative,
    InRange { min: String, max: String },
    MatchesPattern(String),
    OneOf(Vec<String>),
    LengthConstraint { min: Option<usize>, max: Option<usize> },
}

/// A relation between two values.
#[derive(Debug, Clone, Copy, PartialEq, Eq, Structural)]
pub enum Relation {
    LessThan,
    LessOrEqual,
    GreaterThan,
    GreaterOrEqual,
    Equal,
    NotEqual,
}

/// Properties that describe function behavior.
#[derive(Debug, Clone, Copy, PartialEq, Eq, Structural)]
pub enum FunctionProperty {
    /// Function has no side effects.
    Pure,
    /// Calling multiple times with same input gives same result.
    Idempotent,
    /// Function doesn't modify its arguments.
    NoMutation,
    /// Function is safe to call from multiple threads.
    ThreadSafe,
    /// Function always terminates.
    Terminating,
    /// Function doesn't perform I/O.
    NoIO,
    /// Function doesn't allocate heap memory.
    NoAlloc,
    /// Function doesn't panic/throw.
    NoPanic,
}

/// How the contract was determined.
#[derive(Debug, Clone, Copy, PartialEq, Eq, Structural)]
pub enum ContractOrigin {
    /// Inferred from analyzing existing code patterns.
    Inferred,
    /// Extracted from documentation/comments.
    Documented,
    /// Specified by user via annotation or config.
    UserDefined,
    /// Derived from type system constraints.
    TypeDerived,
    /// Discovered from test assertions.
    TestDerived,
}

} // verus!
