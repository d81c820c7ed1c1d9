//! Tool orchestration hints: which MCP tools the LLM should use, in which
//! order, for each task type.

use vstd::prelude::*;
use crate::prompt::system_prompt::AgentType;
use crate::text::str_eq;

verus! {

/// Provides orchestration guidance for the LLM.
pub struct ToolOrchestrator;

pub const PRODUCER_HINT: &'static str = r#"PRODUCER ORCHESTRATION HINTS:

For EXTRACT_DATA_MODEL tasks:
  1. resolve_name — register the entity URI
  2. lsp_get_document_symbols — get all symbols in the file
  3. lsp_get_type_info — for each property, get precise types
  4. lsp_find_references — track cross-file references
  5. complete_task — submit S.DEF data model JSON

For EXTRACT_MODULE tasks:
  1. lsp_get_document_symbols — analyze each file in the module
  2. lsp_find_references — find all imports/exports
  3. lsp_get_diagnostics — collect warnings
  4. complete_task — submit module S.DEF fragment

For INFER_DESIGN_DECISIONS tasks:
  1. get_data_model / get_contract — load related models for context
  2. analyze patterns using LSP and AST data
  3. complete_task — submit DesignDecision records
"#;

pub const CONSUMER_HINT: &'static str = r#"CONSUMER ORCHESTRATION HINTS:

For GENERATE_CODE tasks:
  1. get_data_model — load the entity specification
  2. batch_resolve_names — pre-resolve ALL dependency symbol names
  3. get_contract — load any interface contracts
  4. Generate code (LLM internal)
  5. complete_task — submit generated files with symbols_registered list

For RUN_TESTS tasks:
  1. claim_task with task_type=RUN_TESTS
  2. Execute tests in sandbox
  3. check_consistency — verify generated code matches S.DEF
  4. complete_task with test results

For MERGE_CODE tasks:
  1. list_shards — identify all generated shards
  2. Merge files, resolve conflicts
  3. compute_fingerprints — re-fingerprint merged output
  4. complete_task with merge report
"#;

pub const REPO_ANALYZE_FLOW: &'static str = r#"
REPO_ANALYZE flow:
  1. Scan repository → identify all source files
  2. Detect languages → partition into modules
  3. Create sub-tasks (EXTRACT_DATA_MODEL, EXTRACT_MODULE, etc.)
  4. Build initial dependency graph
  5. complete_task with repository metadata
"#;

pub const EXTRACT_DATA_MODEL_FLOW: &'static str = r#"
EXTRACT_DATA_MODEL flow:
  1. resolve_name — register URI for this entity
  2. lsp_get_document_symbols — get symbols in source file
  3. lsp_get_type_info — for each property (repeated calls)
  4. lsp_find_references — find related entities
  5. complete_task — persist data model with attributes
"#;

pub const EXTRACT_MODULE_FLOW: &'static str = r#"
EXTRACT_MODULE flow:
  1. For each file in the module:
     a. lsp_get_document_symbols — file-level symbols
     b. lsp_find_references — cross-file refs
     c. Map symbols to S.DEF entities
  2. Aggregate results into module definition
  3. complete_task with module IR
"#;

pub const EXTRACT_ARCHITECTURE_FLOW: &'static str = r#"
EXTRACT_ARCHITECTURE flow:
  1. get_dependency_graph — load existing dependency info
  2. Identify architecture layers (presentation, business, data)
  3. Classify modules into layers
  4. Detect communication patterns
  5. complete_task with architecture description
"#;

pub const EXTRACT_UI_FLOW: &'static str = r#"
EXTRACT_UI flow:
  1. Scan UI files (.html, .tsx, .rs for Yew/Dioxus)
  2. Extract screen definitions and navigation
  3. Map to S.DEF UIScreen entities
  4. complete_task with UI specification
"#;

pub const EXTRACT_TESTS_FLOW: &'static str = r#"
EXTRACT_TESTS flow:
  1. Identify test files (spec, test, _test suffixes)
  2. Parse test structure (describe/it blocks, #[test])
  3. Extract Given/When/Then patterns
  4. Map to S.DEF test contracts
  5. complete_task with test contract JSON
"#;

pub const INFER_DD_FLOW: &'static str = r#"
INFER_DESIGN_DECISIONS flow:
  1. get_data_model — load relevant data models for context
  2. Infer decisions from:
     - Library/framework choices
     - Architectural patterns
     - Naming conventions
     - Config patterns
  3. complete_task with DesignDecision records
"#;

pub const VALIDATE_SHARD_FLOW: &'static str = r#"
VALIDATE_SHARD flow:
  1. get_data_model / get_contract — load shard data
  2. check_consistency — verify shard against DB
  3. compute_fingerprints — update fingerprints
  4. list_symbols — verify all refs resolved
  5. complete_task with validation result
"#;

pub const GENERATE_CODE_FLOW: &'static str = r#"
GENERATE_CODE flow:
  1. get_data_model — load entity spec
  2. batch_resolve_names — resolve ALL dependency symbols
  3. list_symbols — verify all symbols available
  4. Generate code matching the specification
  5. register_custom_name — register any new symbols
  6. complete_task with generated files and registered symbols
"#;

pub const RUN_TESTS_FLOW: &'static str = r#"
RUN_TESTS flow:
  1. Execute generated tests in sandbox
  2. Check test pass/fail results
  3. check_consistency — verify roundtrip
  4. complete_task with test report
"#;

pub const MERGE_CODE_FLOW: &'static str = r#"
MERGE_CODE flow:
  1. list_shards — get all generated shard statuses
  2. Merge individual files into final output
  3. Resolve cross-file conflicts
  4. compute_fingerprints — final fingerprint calculation
  5. complete_task with merge report
"#;

/// The orchestration flow for a task type, or the empty string.
pub open spec fn spec_for_task(task_type: Seq<char>, agent_type: AgentType) -> Seq<char> {
    if agent_type is Producer && task_type == "REPO_ANALYZE"@ {
        REPO_ANALYZE_FLOW@
    }     else if agent_type is Producer && task_type == "EXTRACT_DATA_MODEL"@ {
        EXTRACT_DATA_MODEL_FLOW@
    }     else if agent_type is Producer && task_type == "EXTRACT_MODULE"@ {
        EXTRACT_MODULE_FLOW@
    }     else if agent_type is Producer && task_type == "EXTRACT_ARCHITECTURE"@ {
        EXTRACT_ARCHITECTURE_FLOW@
    }     else if agent_type is Producer && task_type == "EXTRACT_UI"@ {
        EXTRACT_UI_FLOW@
    }     else if agent_type is Producer && task_type == "EXTRACT_TESTS"@ {
        EXTRACT_TESTS_FLOW@
    }     else if agent_type is Producer && task_type == "INFER_DESIGN_DECISIONS"@ {
        INFER_DD_FLOW@
    }     else if agent_type is Producer && task_type == "VALIDATE_SHARD"@ {
        VALIDATE_SHARD_FLOW@
    }     else if agent_type is Consumer && task_type == "GENERATE_CODE"@ {
        GENERATE_CODE_FLOW@
    }     else if agent_type is Consumer && task_type == "RUN_TESTS"@ {
        RUN_TESTS_FLOW@
    }     else if agent_type is Consumer && task_type == "MERGE_CODE"@ {
        MERGE_CODE_FLOW@
    } else {
        ""@
    }
}

/// The hint for an agent type.
pub open spec fn spec_system_hint(agent_type: AgentType) -> Seq<char> {
    match agent_type {
        AgentType::Producer => PRODUCER_HINT@,
        AgentType::Consumer => CONSUMER_HINT@,
    }
}

impl ToolOrchestrator {
    /// System-level hint appended to prompts based on agent type.
    pub fn system_hint(agent_type: AgentType) -> (r: String)
        ensures
            r@ == spec_system_hint(agent_type),
    {
        match agent_type {
            AgentType::Producer => PRODUCER_HINT.to_owned(),
            AgentType::Consumer => CONSUMER_HINT.to_owned(),
        }
    }

    /// The orchestration flow for a specific task type (empty when the
    /// task type is not one of the agent's own).
    pub fn for_task(task_type: &str, agent_type: AgentType) -> (r: &'static str)
        ensures
            r@ == spec_for_task(task_type@, agent_type),
    {
        let producer = matches!(agent_type, AgentType::Producer);
        if producer && str_eq(task_type, "REPO_ANALYZE") {
            return REPO_ANALYZE_FLOW;
        }
        if producer && str_eq(task_type, "EXTRACT_DATA_MODEL") {
            return EXTRACT_DATA_MODEL_FLOW;
        }
        if producer && str_eq(task_type, "EXTRACT_MODULE") {
            return EXTRACT_MODULE_FLOW;
        }
        if producer && str_eq(task_type, "EXTRACT_ARCHITECTURE") {
            return EXTRACT_ARCHITECTURE_FLOW;
        }
        if producer && str_eq(task_type, "EXTRACT_UI") {
            return EXTRACT_UI_FLOW;
        }
        if producer && str_eq(task_type, "EXTRACT_TESTS") {
            return EXTRACT_TESTS_FLOW;
        }
        if producer && str_eq(task_type, "INFER_DESIGN_DECISIONS") {
            return INFER_DD_FLOW;
        }
        if producer && str_eq(task_type, "VALIDATE_SHARD") {
            return VALIDATE_SHARD_FLOW;
        }
        if !producer && str_eq(task_type, "GENERATE_CODE") {
            return GENERATE_CODE_FLOW;
        }
        if !producer && str_eq(task_type, "RUN_TESTS") {
            return RUN_TESTS_FLOW;
        }
        if !producer && str_eq(task_type, "MERGE_CODE") {
            return MERGE_CODE_FLOW;
        }
        ""
    }
}

} // verus!
