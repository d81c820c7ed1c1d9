//! Parameters and results of the MCP tools: clarification and decision
//! bridges, compatibility layers, consistency checks, evaluations and the
//! task queue.

use vstd::prelude::*;

verus! {

/// Ask the user a clarification question.
#[derive(Debug, Clone)]
pub struct RequestClarificationParams {
    pub question: String,
    pub context_uri: Option<String>,
    pub options: Option<Vec<String>>,
}

/// Propose a design decision for approval.
#[derive(Debug, Clone)]
pub struct ProposeDecisionParams {
    pub topic: String,
    pub proposal: String,
    pub rationale: String,
    pub alternatives: Vec<String>,
    pub affects: Vec<String>,
}

/// Preview the changes regeneration would make to an entity.
#[derive(Debug, Clone)]
pub struct PreviewChangesParams {
    pub entity_uri: String,
    pub target_language: String,
}

/// Pause or resume the workflow (no parameters).
#[derive(Debug, Clone, Copy)]
pub struct PauseResumeParams {}

/// Answer to a clarification request (`status` is `answered` or `pending`).
#[derive(Debug, Clone)]
pub struct ClarificationResponse {
    pub question_id: String,
    pub status: String,
    pub answer: Option<String>,
}

/// Outcome of a proposed decision (`status` is `approved`, `modified` or
/// `rejected`).
#[derive(Debug, Clone)]
pub struct DecisionResponse {
    pub decision_id: String,
    pub status: String,
    pub modified_proposal: Option<String>,
}

/// Preview of the changes to an entity.
#[derive(Debug, Clone)]
pub struct PreviewResponse {
    pub entity_uri: String,
    pub diff_preview: Option<String>,
    pub affected_files: Vec<String>,
}

/// Set a document's compatibility mode.
#[derive(Debug, Clone)]
pub struct SetCompatModeParams {
    pub document_name: String,
    pub mode: String,
}

/// List a document's compatibility layers.
#[derive(Debug, Clone)]
pub struct ListCompatLayersParams {
    pub document_name: String,
}

/// Get one compatibility layer.
#[derive(Debug, Clone)]
pub struct GetCompatLayerParams {
    pub document_name: String,
    pub layer_id: String,
}

/// Ignore one compatibility layer.
#[derive(Debug, Clone)]
pub struct IgnoreCompatLayerParams {
    pub document_name: String,
    pub layer_id: String,
}

/// A compatibility layer.
#[derive(Debug, Clone)]
pub struct CompatLayerInfo {
    pub layer_id: String,
    pub source_interface: Option<String>,
    pub target_interface: Option<String>,
    pub transform_type: String,
    pub bidirectional: bool,
    pub is_ignored: bool,
    pub priority: i32,
}

/// A document's compatibility mode and layers.
#[derive(Debug, Clone)]
pub struct CompatModeInfo {
    pub document_name: String,
    pub current_mode: String,
    pub layers: Vec<CompatLayerInfo>,
    pub incompatibilities_remaining: usize,
}

/// Run a consistency check on a document.
#[derive(Debug, Clone)]
pub struct ConsistencyCheckParams {
    pub document_name: String,
    pub check_type: String,
}

/// The check type used when none is given: `fast`.
pub fn default_check_type() -> (s: String)
    ensures
        s@ == "fast"@,
{
    "fast".to_owned()
}

/// Recompute a document's fingerprints.
#[derive(Debug, Clone)]
pub struct FingerprintParams {
    pub document_name: String,
}

/// Resolve one inconsistency with a strategy.
#[derive(Debug, Clone)]
pub struct ResolveInconsistencyParams {
    pub document_name: String,
    pub entity_uri: String,
    pub strategy: String,
}

/// Report the inconsistencies of a document.
#[derive(Debug, Clone)]
pub struct InconsistencyReportParams {
    pub document_name: String,
    pub entity_type: Option<String>,
}

/// One inconsistent entity.
#[derive(Debug, Clone)]
pub struct InconsistencyItem {
    pub entity_uri: String,
    pub entity_type: String,
    pub code_path: Option<String>,
    pub sdef_hash: Option<String>,
    pub db_hash: Option<String>,
    pub code_hash: Option<String>,
    pub last_consistent_at: Option<String>,
    pub suggested_strategies: Vec<String>,
}

/// The inconsistencies of a document.
#[derive(Debug, Clone)]
pub struct InconsistencyReport {
    pub document_name: String,
    pub total_inconsistencies: usize,
    pub items: Vec<InconsistencyItem>,
}

/// Run an evaluation.
#[derive(Debug, Clone)]
pub struct RunEvalParams {
    pub project_name: Option<String>,
    pub output_dir: Option<String>,
}

/// Get evaluation reports.
#[derive(Debug, Clone)]
pub struct GetEvalReportParams {
    pub project_name: Option<String>,
    pub limit: Option<usize>,
}

/// Get the task queue, optionally filtered.
#[derive(Debug, Clone)]
pub struct GetTaskQueueParams {
    pub document_name: Option<String>,
    pub filter_status: Option<Vec<String>>,
    pub filter_type: Option<String>,
}

/// Remove a task from the queue.
#[derive(Debug, Clone)]
pub struct RemoveTaskParams {
    pub task_id: String,
}

/// The priority of a task created without one: 5.
pub fn default_priority() -> (p: i32)
    ensures
        p == 5,
{
    5
}

/// Claim the next pending task for an agent.
#[derive(Debug, Clone)]
pub struct ClaimTaskParams {
    pub agent_id: String,
}

/// Mark a task failed.
#[derive(Debug, Clone)]
pub struct FailTaskParams {
    pub task_id: String,
    pub error_message: String,
}

/// Heartbeat of a running task.
#[derive(Debug, Clone)]
pub struct HeartbeatParams {
    pub task_id: String,
    pub agent_id: String,
}

/// List tasks, filtered and paged.
#[derive(Debug, Clone)]
pub struct ListTasksParams {
    pub status: Option<String>,
    pub task_type: Option<String>,
    pub assigned_to: Option<String>,
    pub limit: usize,
    pub offset: usize,
}

/// The page size used when none is given: 20.
pub fn default_limit() -> (n: usize)
    ensures
        n == 20,
{
    20
}

} // verus!
