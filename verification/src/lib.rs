//! Code analysis library: a language-independent semantic IR, a semantic
//! graph with impact analysis and cross-file linking, and the text logic that
//! turns source code and tool output into that IR.

pub mod text;
pub mod numtext;
pub mod sorting;
pub mod types;
pub mod ir;
pub mod node;
pub mod edge;
pub mod store;
pub mod graph;
pub mod impact;
pub mod linker;
pub mod typeparse;
pub mod frontend;
pub mod json;
pub mod rustlang;
pub mod python;
pub mod typescript;
pub mod snapshot;
pub mod tool_runner;
pub mod ai;
pub mod summary;
pub mod contract;
pub mod rules;
pub mod verify;
pub mod paths;
pub mod config;
pub mod testgen;
pub mod index;
pub mod storage;
pub mod frontends;
pub mod engine;
pub mod discovery;
pub mod snapshot_build;
pub mod fixgen;
pub mod diff;
pub mod pipeline;
pub mod fixflow;
pub mod syntax;
pub mod extract;
pub mod pyparse;
pub mod rsparse;
pub mod tsparse;
pub mod report;
pub mod status;
