//! Project configuration and its defaults.

use vstd::prelude::*;
use crate::paths::{join_path, join_path_exec};

verus! {

/// Project-level configuration.
pub struct Config {
    pub project_root: String,
    pub languages: Vec<LanguageConfig>,
    pub verification: VerificationConfig,
    pub storage: StorageConfig,
}

/// One language's settings.
pub struct LanguageConfig {
    pub name: String,
    pub enabled: bool,
    pub include_patterns: Vec<String>,
    pub exclude_patterns: Vec<String>,
}

/// Thresholds of the verification.
pub struct VerificationConfig {
    /// Minimum confidence to report an invariant violation, in hundredths.
    pub invariant_min_confidence_percent: u32,
    /// Minimum confidence to report a contract violation, in hundredths.
    pub contract_min_confidence_percent: u32,
    /// Enable AI-specific checks (hallucinated APIs, stale patterns, etc.).
    pub ai_checks_enabled: bool,
    /// Severity threshold for a CI gate (error, warning, info).
    pub gate_severity: String,
}

/// Where and how much the index may store.
pub struct StorageConfig {
    /// Where to store the index.
    pub index_dir: String,
    /// Maximum memory for the in-memory graph (bytes).
    pub max_memory: usize,
}

impl Config {
    /// The defaults of a project without a configuration file.
    pub fn defaults_for(project_root: &str) -> (r: Self)
        ensures
            r.project_root@ == project_root@,
            r.languages@.len() == 0,
            r.verification.invariant_min_confidence_percent == 80,
            r.verification.contract_min_confidence_percent == 70,
            r.verification.ai_checks_enabled,
            r.verification.gate_severity@ == "error"@,
            r.storage.index_dir@ == join_path(project_root@, ".omnilens"@),
            r.storage.max_memory == 512 * 1024 * 1024,
    {
        Config {
            project_root: String::from_str(project_root),
            languages: Vec::new(),
            verification: VerificationConfig {
                invariant_min_confidence_percent: 80,
                contract_min_confidence_percent: 70,
                ai_checks_enabled: true,
                gate_severity: String::from_str("error"),
            },
            storage: StorageConfig {
                index_dir: join_path_exec(project_root, ".omnilens"),
                max_memory: 512 * 1024 * 1024,
            },
        }
    }
}

} // verus!
