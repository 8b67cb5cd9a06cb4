//! What a generated test is: its target, code, framework and strategy.

use vstd::prelude::*;
use crate::ir::NodeId;

verus! {

/// Strategy for test generation.
#[derive(Debug, Clone, Copy, PartialEq, Eq, Structural)]
pub enum TestStrategy {
    /// Boundary value tests (min, max, zero, empty, overflow).
    Boundary,
    /// Tests targeting every error/exception return path.
    ErrorPaths,
    /// Concurrent access tests for shared state.
    RaceConditions,
    /// Property-based tests.
    PropertyBased,
    /// Most branch coverage with the fewest tests.
    CoverageOptimal,
    /// Tests of behavioral contracts (pre/post conditions).
    ContractVerification,
    /// Regression tests from a semantic diff.
    RegressionFromDiff,
}

/// A generated test.
pub struct GeneratedTest {
    /// Target function/method being tested.
    pub target: NodeId,
    /// Test name.
    pub name: String,
    /// Test code in the target language.
    pub code: String,
    /// Which test framework to use.
    pub framework: TestFramework,
    /// What this test verifies.
    pub description: String,
    /// Which strategy generated this test.
    pub strategy: TestStrategy,
}

/// The framework a test is written for.
#[derive(Debug, Clone, Copy, PartialEq, Eq, Structural)]
pub enum TestFramework {
    /// Rust.
    CargoTest,
    /// TypeScript/JavaScript.
    Jest,
    /// Python.
    Pytest,
    /// Go.
    GoTest,
    /// Java.
    JUnit,
}

} // verus!
