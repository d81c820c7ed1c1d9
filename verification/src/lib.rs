//! Cleanroom: the verified core of an agent system that analyses source
//! repositories into S.DEF specifications and regenerates code from them.

pub mod text;

pub mod agent;
pub mod cli;
pub mod codegen;
pub mod completeness;
pub mod collaboration;
pub mod consistency;
pub mod degradation;
pub mod dependency_graph;
pub mod i18n;
pub mod incremental_analysis;
pub mod interaction;
pub mod lsp;
pub mod lsp_pool;
pub mod migration_gen;
pub mod mcp;
pub mod module_partitioner;
pub mod naming;
pub mod orchestrator;
pub mod progress;
pub mod prompt;
pub mod records;
pub mod recovery;
pub mod retry;
pub mod reviewer;
pub mod workflow_signal;
