//! The verification of a change: what is checked, what is found, and how the
//! findings are counted and weighed.

use vstd::prelude::*;
use crate::contract::Contract;
use crate::ir::{NodeId, SourceSpan};
use crate::rules::{InvariantViolation, ViolationSeverity};

verus! {

/// What to verify.
pub enum DiffSpec {
    /// Changes between two git refs.
    GitDiff { base: String, head: String },
    /// Specific files.
    Files(Vec<String>),
    /// Staged changes.
    Staged,
    /// Working directory changes.
    WorkingDir,
}

/// Complete verification result.
pub struct VerifyResult {
    pub semantic_changes: Vec<SemanticChange>,
    pub invariant_violations: Vec<InvariantViolation>,
    pub contract_violations: Vec<ContractViolation>,
    /// Risk, in hundredths (0 to 100).
    pub risk_percent: u32,
    /// Confidence in the result, in hundredths.
    pub confidence_percent: u32,
    pub suggested_tests: Vec<TestSuggestion>,
}

/// A semantic change (a behavioral change, not a text diff).
pub struct SemanticChange {
    pub location: SourceSpan,
    pub kind: SemanticChangeKind,
    pub description: String,
    pub risk: ChangeRisk,
}

/// What kind of change it is.
#[derive(Debug, Clone, Copy, PartialEq, Eq, Structural)]
pub enum SemanticChangeKind {
    SignatureChange,
    ControlFlowChange,
    DataFlowChange,
    DependencyAdded,
    DependencyRemoved,
    ApiSurfaceChange,
    TypeChange,
    FunctionAdded,
    FunctionRemoved,
    ComplexityChange { old: u32, new: u32 },
}

/// How risky a change is.
#[derive(Debug, Clone, Copy, PartialEq, Eq, Structural)]
pub enum ChangeRisk {
    Safe,
    NeedsReview,
    Breaking,
    SecuritySensitive,
}

/// A broken contract.
pub struct ContractViolation {
    pub contract: Contract,
    pub location: SourceSpan,
    pub description: String,
    pub is_breaking: bool,
    pub suggested_fix: Option<String>,
}

/// A test worth writing.
pub struct TestSuggestion {
    pub target: NodeId,
    pub description: String,
    pub priority: TestPriority,
    pub skeleton: Option<String>,
}

/// How urgent a suggested test is.
#[derive(Debug, Clone, Copy, PartialEq, Eq, Structural)]
pub enum TestPriority {
    Critical,
    High,
    Medium,
    Low,
}

/// How many violations have the given severity.
pub open spec fn count_severity(s: Seq<InvariantViolation>, sev: ViolationSeverity) -> nat
    decreases s.len(),
{
    if s.len() == 0 {
        0
    } else {
        count_severity(s.drop_last(), sev) + if s.last().severity == sev { 1nat } else { 0nat }
    }
}

/// How many contract violations are breaking.
pub open spec fn count_breaking(s: Seq<ContractViolation>) -> nat
    decreases s.len(),
{
    if s.len() == 0 {
        0
    } else {
        count_breaking(s.drop_last()) + if s.last().is_breaking { 1nat } else { 0nat }
    }
}

/// How many changes have the given risk.
pub open spec fn count_risk(s: Seq<SemanticChange>, risk: ChangeRisk) -> nat
    decreases s.len(),
{
    if s.len() == 0 {
        0
    } else {
        count_risk(s.drop_last(), risk) + if s.last().risk == risk { 1nat } else { 0nat }
    }
}

proof fn lemma_count_severity_le(s: Seq<InvariantViolation>, sev: ViolationSeverity)
    ensures
        count_severity(s, sev) <= s.len(),
    decreases s.len(),
{
    if s.len() > 0 {
        lemma_count_severity_le(s.drop_last(), sev);
    }
}

proof fn lemma_count_breaking_le(s: Seq<ContractViolation>)
    ensures
        count_breaking(s) <= s.len(),
    decreases s.len(),
{
    if s.len() > 0 {
        lemma_count_breaking_le(s.drop_last());
    }
}

proof fn lemma_count_risk_le(s: Seq<SemanticChange>, risk: ChangeRisk)
    ensures
        count_risk(s, risk) <= s.len(),
    decreases s.len(),
{
    if s.len() > 0 {
        lemma_count_risk_le(s.drop_last(), risk);
    }
}

fn severity_count(s: &Vec<InvariantViolation>, sev: ViolationSeverity) -> (r: usize)
    ensures
        r == count_severity(s@, sev),
{
    let mut n: usize = 0;
    let mut i: usize = 0;
    while i < s.len()
        invariant
            i <= s@.len(),
            n == count_severity(s@.take(i as int), sev),
        decreases s@.len() - i,
    {
        proof {
            assert(s@.take(i + 1).drop_last() =~= s@.take(i as int));
            lemma_count_severity_le(s@.take(i as int), sev);
        }
        if s[i].severity == sev {
            n = n + 1;
        }
        i = i + 1;
    }
    proof {
        assert(s@.take(s@.len() as int) =~= s@);
    }
    n
}

fn breaking_count(s: &Vec<ContractViolation>) -> (r: usize)
    ensures
        r == count_breaking(s@),
{
    let mut n: usize = 0;
    let mut i: usize = 0;
    while i < s.len()
        invariant
            i <= s@.len(),
            n == count_breaking(s@.take(i as int)),
        decreases s@.len() - i,
    {
        proof {
            assert(s@.take(i + 1).drop_last() =~= s@.take(i as int));
            lemma_count_breaking_le(s@.take(i as int));
        }
        if s[i].is_breaking {
            n = n + 1;
        }
        i = i + 1;
    }
    proof {
        assert(s@.take(s@.len() as int) =~= s@);
    }
    n
}

fn risk_count(s: &Vec<SemanticChange>, risk: ChangeRisk) -> (r: usize)
    ensures
        r == count_risk(s@, risk),
{
    let mut n: usize = 0;
    let mut i: usize = 0;
    while i < s.len()
        invariant
            i <= s@.len(),
            n == count_risk(s@.take(i as int), risk),
        decreases s@.len() - i,
    {
        proof {
            assert(s@.take(i + 1).drop_last() =~= s@.take(i as int));
            lemma_count_risk_le(s@.take(i as int), risk);
        }
        if s[i].risk == risk {
            n = n + 1;
        }
        i = i + 1;
    }
    proof {
        assert(s@.take(s@.len() as int) =~= s@);
    }
    n
}

impl VerifyResult {
    /// Whether an invariant violation is an error or a contract violation
    /// is breaking.
    pub fn has_errors(&self) -> (r: bool)
        ensures
            r == (count_severity(self.invariant_violations@, ViolationSeverity::Error) > 0
                || count_breaking(self.contract_violations@) > 0),
    {
        severity_count(&self.invariant_violations, ViolationSeverity::Error) > 0
            || breaking_count(&self.contract_violations) > 0
    }

    /// The invariant violations that are errors plus the breaking contract
    /// violations.
    pub fn error_count(&self) -> (r: usize)
        requires
            self.invariant_violations@.len() + self.contract_violations@.len() <= usize::MAX,
        ensures
            r == count_severity(self.invariant_violations@, ViolationSeverity::Error)
                + count_breaking(self.contract_violations@),
    {
        let a = severity_count(&self.invariant_violations, ViolationSeverity::Error);
        let b = breaking_count(&self.contract_violations);
        proof {
            lemma_count_severity_le(self.invariant_violations@, ViolationSeverity::Error);
            lemma_count_breaking_le(self.contract_violations@);
        }
        a + b
    }

    /// The invariant violations that are warnings plus the changes that need
    /// review.
    pub fn warning_count(&self) -> (r: usize)
        requires
            self.invariant_violations@.len() + self.semantic_changes@.len() <= usize::MAX,
        ensures
            r == count_severity(self.invariant_violations@, ViolationSeverity::Warning)
                + count_risk(self.semantic_changes@, ChangeRisk::NeedsReview),
    {
        let a = severity_count(&self.invariant_violations, ViolationSeverity::Warning);
        let b = risk_count(&self.semantic_changes, ChangeRisk::NeedsReview);
        proof {
            lemma_count_severity_le(self.invariant_violations@, ViolationSeverity::Warning);
            lemma_count_risk_le(self.semantic_changes@, ChangeRisk::NeedsReview);
        }
        a + b
    }
}

} // verus!
