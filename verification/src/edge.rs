//! IR edge definitions — relationships between nodes in the semantic graph.

use vstd::prelude::*;
use crate::ir::{NodeId, SourceSpan};

verus! {

/// An edge in the semantic IR graph.
#[derive(Debug, Clone)]
pub enum UsirEdge {
    /// Function A calls Function B.
    Calls(CallEdge),
    /// Type A references Type B (field type, parameter type, etc.).
    References(ReferenceEdge),
    /// Type A implements Interface/Trait B.
    Implements(ImplementsEdge),
    /// Data flows from source to sink (for taint analysis).
    DataFlow(DataFlowEdge),
    /// Module A imports from Module B.
    Imports(ImportEdge),
    /// A contains B (module contains function, struct contains method).
    Contains(ContainsEdge),
}

#[derive(Debug, Clone)]
pub struct CallEdge {
    pub caller: NodeId,
    pub callee: NodeId,
    pub call_site: SourceSpan,
    /// Under what condition this call occurs (None = unconditional).
    pub condition: Option<CallCondition>,
    /// Is this a dynamic dispatch (virtual call, trait object, etc.)?
    pub is_dynamic: bool,
}

#[derive(Debug, Clone)]
pub enum CallCondition {
    /// Inside an if/match branch.
    Conditional(String),
    /// Inside a loop body.
    InLoop,
    /// Inside error handling (catch, Result::Err branch).
    ErrorPath,
    /// Inside a try block or ? operator chain.
    Fallible,
}

#[derive(Debug, Clone)]
pub struct ReferenceEdge {
    pub from: NodeId,
    pub to: NodeId,
    pub kind: ReferenceKind,
}

#[derive(Debug, Clone, Copy, PartialEq, Eq, Structural)]
pub enum ReferenceKind {
    FieldType,
    ParamType,
    ReturnType,
    LocalType,
    GenericBound,
}

#[derive(Debug, Clone)]
pub struct ImplementsEdge {
    pub implementor: NodeId,
    pub interface: NodeId,
}

#[derive(Debug, Clone)]
pub struct DataFlowEdge {
    pub source: NodeId,
    pub sink: NodeId,
    pub taint: TaintKind,
    pub through: Vec<NodeId>,
}

/// Classification of data origin for taint analysis.
#[derive(Debug, Clone, Copy, PartialEq, Eq, Hash, Structural)]
pub enum TaintKind {
    /// Direct user input (HTTP body, CLI args, stdin).
    UserInput,
    /// Data from database query results.
    Database,
    /// Data from filesystem reads.
    FileSystem,
    /// Data from network requests.
    Network,
    /// Data from environment variables or config.
    Config,
    /// Sensitive data (passwords, tokens, PII).
    Sensitive,
}

#[derive(Debug, Clone)]
pub struct ImportEdge {
    pub importer: NodeId,
    pub imported: NodeId,
}

#[derive(Debug, Clone)]
pub struct ContainsEdge {
    pub parent: NodeId,
    pub child: NodeId,
}

/// The `(from, to)` endpoints of an edge.
pub open spec fn endpoints(e: UsirEdge) -> (NodeId, NodeId) {
    match e {
        UsirEdge::Calls(c) => (c.caller, c.callee),
        UsirEdge::References(c) => (c.from, c.to),
        UsirEdge::Implements(c) => (c.implementor, c.interface),
        UsirEdge::DataFlow(c) => (c.source, c.sink),
        UsirEdge::Imports(c) => (c.importer, c.imported),
        UsirEdge::Contains(c) => (c.parent, c.child),
    }
}

/// Extract (from, to) node IDs from an edge.
pub fn edge_endpoints(edge: &UsirEdge) -> (r: (NodeId, NodeId))
    ensures
        r == endpoints(*edge),
{
    match edge {
        UsirEdge::Calls(e) => (e.caller, e.callee),
        UsirEdge::References(e) => (e.from, e.to),
        UsirEdge::Implements(e) => (e.implementor, e.interface),
        UsirEdge::DataFlow(e) => (e.source, e.sink),
        UsirEdge::Imports(e) => (e.importer, e.imported),
        UsirEdge::Contains(e) => (e.parent, e.child),
    }
}

} // verus!
