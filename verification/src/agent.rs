//! Top-level agent settings: the run modes and the agent configuration.

use vstd::prelude::*;

verus! {

/// Run mode for the agent.
#[derive(Debug, Clone)]
pub enum RunMode {
    /// Analyze a code repository and output S.DEF.
    Produce { repo_path: String, output_path: String, project_name: String },
    /// Read S.DEF and generate code.
    Consume {
        sdef_path: String,
        output_path: String,
        language: String,
        framework: Option<String>,
        compat_mode: String,
        fidelity: String,
    },
    /// Resume a paused workflow from its checkpoint.
    Resume { document: String, retry_failed: bool },
}

/// Configuration of the top-level agent.
#[derive(Debug, Clone)]
pub struct AgentConfig {
    /// Database path.
    pub db_path: String,
    /// LLM model name.
    pub model_name: Option<String>,
    /// System prompt for the LLM agent.
    pub system_prompt: Option<String>,
    /// Agent name, used for identification.
    pub agent_name: String,
}

/// The default system prompt of the agent.
pub open spec fn default_agent_prompt() -> Seq<char> {
    "You are Cleanroom Agent, an intelligent system for software definition analysis and code generation using the S.DEF format. You work with S.DEF (Software Definition Exchange Format) to analyze code repositories and generate functionally equivalent software."@
}

impl Default for AgentConfig {
    fn default() -> (c: Self)
        ensures
            c.db_path@ == "state.db"@,
            c.model_name matches Some(m) && m@ == "gemini-2.5-flash"@,
            c.system_prompt matches Some(p) && p@ == default_agent_prompt(),
            c.agent_name@ == "cleanroom-agent"@,
    {
        AgentConfig {
            db_path: "state.db".to_owned(),
            model_name: Some("gemini-2.5-flash".to_owned()),
            system_prompt: Some(
                "You are Cleanroom Agent, an intelligent system for software definition analysis and code generation using the S.DEF format. You work with S.DEF (Software Definition Exchange Format) to analyze code repositories and generate functionally equivalent software.".to_owned(),
            ),
            agent_name: "cleanroom-agent".to_owned(),
        }
    }
}

} // verus!
