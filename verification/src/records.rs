//! Records kept by the repositories: evaluation trends, cached types.

use vstd::prelude::*;

verus! {

/// Direction of the roundtrip fidelity over recent evaluation runs.
#[derive(Debug, Clone, Copy, PartialEq, Eq)]
pub enum EvaluationTrend {
    Improving,
    Stable,
    Degrading,
    Unknown,
}

/// Type information resolved once (by LSP analysis) and shared across
/// agents.
#[derive(Debug, Clone)]
pub struct TypeCacheEntry {
    pub entity_uri: String,
    pub language: String,
    pub resolved_type: String,
    pub source_file: Option<String>,
    pub from_lsp: bool,
    pub cached_at: String,
}

} // verus!
