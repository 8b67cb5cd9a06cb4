//! Invariants: rules that hold throughout a codebase, and their violations.

use vstd::prelude::*;
use crate::ir::{NodeId, Ratio, SourceSpan};

verus! {

/// An invariant discovered or declared in the codebase.
pub struct Invariant {
    pub id: InvariantId,
    pub kind: InvariantKind,
    pub description: String,
    /// How confident the discovery is, between zero and one.
    pub confidence: Ratio,
    /// Number of code locations that conform to this invariant.
    pub evidence_count: usize,
    /// Nodes that this invariant applies to.
    pub scope: Vec<NodeId>,
}

#[derive(Debug, Clone, Copy, PartialEq, Eq, Hash, Structural)]
pub struct InvariantId(pub u64);

/// Categories of invariants.
pub enum InvariantKind {
    /// All calls to `target` must go through `gateway`.
    MustGoThrough { target: NodeId, gateway: NodeId },
    /// `before` must always be called before `after`.
    MustPrecede { before: NodeId, after: NodeId },
    /// Return type of functions matching a pattern must be the expected one.
    ReturnTypeConstraint { pattern: String, expected_type: String },
    /// Errors must be handled, not silently ignored.
    ErrorsMustBeHandled { error_source: NodeId },
    /// Tainted data must not flow to a sink without a sanitizer.
    DataFlowConstraint { source_taint: String, forbidden_sink: String, required_sanitizer: Option<String> },
    /// All instances of a pattern must follow a convention.
    ConventionConstraint { pattern: String, convention: String },
    /// A type must only be used in some contexts.
    TypeUsageConstraint { used_type: String, allowed_contexts: Vec<String>, forbidden_alternatives: Vec<String> },
    /// Custom invariant given as a query.
    Custom { query: String },
}

/// Result of checking an invariant against new code.
pub struct InvariantViolation {
    pub invariant: InvariantId,
    pub location: SourceSpan,
    pub description: String,
    pub severity: ViolationSeverity,
    /// Suggested fix, if available.
    pub suggested_fix: Option<String>,
}

/// How serious a violation is.
#[derive(Debug, Clone, Copy, PartialEq, Eq, Structural)]
pub enum ViolationSeverity {
    /// Must fix before merge.
    Error,
    /// Likely a problem, review needed.
    Warning,
    /// Informational, may be intentional.
    Info,
}

} // verus!
