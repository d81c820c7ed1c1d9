//! Workflow orchestration settings.

use vstd::prelude::*;

verus! {

/// Orchestrator configuration: paths, checkpoint interval and idle timeout.
#[derive(Debug, Clone)]
pub struct OrchestratorConfig {
    /// Path to the source code repository to analyze.
    pub repo_path: String,
    /// Directory for S.DEF output files.
    pub output_path: String,
    /// Path to the SQLite database.
    pub db_path: String,
    /// Name of the project (document) being analyzed.
    pub project_name: String,
    /// Interval between checkpoints, in seconds.
    pub checkpoint_interval_secs: u64,
    /// Idle timeout for agent tasks, in seconds.
    pub agent_idle_timeout_secs: u64,
}

impl Default for OrchestratorConfig {
    fn default() -> (c: Self)
        ensures
            c.repo_path@ == "."@,
            c.output_path@ == "./output"@,
            c.db_path@ == "state.db"@,
            c.project_name@ == "unnamed"@,
            c.checkpoint_interval_secs == 600,
            c.agent_idle_timeout_secs == 300,
    {
        OrchestratorConfig {
            repo_path: ".".to_owned(),
            output_path: "./output".to_owned(),
            db_path: "state.db".to_owned(),
            project_name: "unnamed".to_owned(),
            checkpoint_interval_secs: 600,
            agent_idle_timeout_secs: 300,
        }
    }
}

} // verus!
