//! Prompt layer: system prompts, task prompts, context budgeting, tool
//! orchestration hints and LLM response clean-up.

pub mod builder;
pub mod context_budget;
pub mod few_shot;
pub mod response_parser;
pub mod system_prompt;
pub mod tool_orchestration;

use vstd::prelude::*;

verus! {

/// The (name, description) pairs of the MCP tools, in catalogue order.
pub open spec fn default_tools() -> Seq<(Seq<char>, Seq<char>)> {
    seq![
        ("create_task"@, "Create a new analysis or generation task"@),
        ("claim_task"@, "Atomically claim the next pending task"@),
        ("update_task_progress"@, "Update task progress (0.0~1.0)"@),
        ("complete_task"@, "Mark task as complete and submit output"@),
        ("fail_task"@, "Mark task as failed and record error"@),
        ("send_heartbeat"@, "Send heartbeat for a running task"@),
        ("get_task"@, "Get task details by ID"@),
        ("list_tasks"@, "List tasks (filter by status/type/agent)"@),
        ("get_data_model"@, "Get data model with attributes"@),
        ("get_contract"@, "Get contract (interface/class/API)"@),
        ("get_function_spec"@, "Get function specification"@),
        ("get_ui_screen"@, "Get UI screen definition"@),
        ("list_documents"@, "List all S.DEF documents"@),
        ("search_sdef"@, "Full-text search S.DEF content"@),
        ("get_dependency_graph"@, "Get module dependency graph"@),
        ("list_shards"@, "List shards (filter by type/status)"@),
        ("resolve_name"@, "Resolve S.DEF URI to code name"@),
        ("batch_resolve_names"@, "Batch-resolve URIs to names"@),
        ("list_symbols"@, "List registered symbols"@),
        ("register_custom_name"@, "Register a custom symbol name"@),
        ("export_sdef"@, "Export complete S.DEF (JSON/YAML)"@),
        ("export_sdef_to_disk"@, "Export S.DEF to disk as shard tree"@),
        ("import_sdef"@, "Import S.DEF from JSON"@),
        ("export_shard"@, "Export a single shard"@),
        ("import_shard"@, "Import a single shard"@),
        ("check_consistency"@, "Run consistency check"@),
        ("compute_fingerprints"@, "Recompute consistency fingerprints"@),
        ("resolve_inconsistency"@, "Resolve an inconsistency"@),
        ("get_inconsistency_report"@, "Get inconsistency report"@),
        ("lsp_initialize"@, "Initialize LSP server"@),
        ("lsp_get_document_symbols"@, "Get file symbols via LSP"@),
        ("lsp_get_type_info"@, "Get type info at position"@),
        ("lsp_find_references"@, "Find symbol references"@),
        ("lsp_get_diagnostics"@, "Get file diagnostics"@),
        ("lsp_get_hierarchy"@, "Get type hierarchy"@),
        ("create_checkpoint"@, "Create workflow checkpoint"@),
        ("list_checkpoints"@, "List checkpoints"@),
        ("restore_checkpoint"@, "Restore from checkpoint"@),
        ("begin_transaction"@, "Begin DB transaction"@),
        ("commit_transaction"@, "Commit transaction"@),
        ("rollback_transaction"@, "Rollback transaction"@),
        ("set_compatibility_mode"@, "Set compatibility mode"@),
        ("list_compat_layers"@, "List compatibility layers"@),
        ("get_compat_layer_detail"@, "Get compat layer details"@),
        ("ignore_compat_layer"@, "Ignore a compat layer"@)
    ]
}

/// The views of a list of (name, description) pairs.
pub open spec fn pair_views(v: Seq<(String, String)>) -> Seq<(Seq<char>, Seq<char>)> {
    v.map_values(|p: (String, String)| (p.0@, p.1@))
}

fn add_tool(tools: &mut Vec<(String, String)>, name: &str, desc: &str)
    ensures
        pair_views(final(tools)@) == pair_views(old(tools)@).push((name@, desc@)),
{
    tools.push((name.to_owned(), desc.to_owned()));
    proof {
        assert(pair_views(tools@) =~= pair_views(old(tools)@).push((name@, desc@)));
    }
}

/// Default descriptions of the MCP tools, one entry per tool name.
pub fn default_tool_descriptions() -> (tools: Vec<(String, String)>)
    ensures
        pair_views(tools@) == default_tools(),
{
    let mut tools: Vec<(String, String)> = Vec::new();
    add_tool(&mut tools, "create_task", "Create a new analysis or generation task");
    add_tool(&mut tools, "claim_task", "Atomically claim the next pending task");
    add_tool(&mut tools, "update_task_progress", "Update task progress (0.0~1.0)");
    add_tool(&mut tools, "complete_task", "Mark task as complete and submit output");
    add_tool(&mut tools, "fail_task", "Mark task as failed and record error");
    add_tool(&mut tools, "send_heartbeat", "Send heartbeat for a running task");
    add_tool(&mut tools, "get_task", "Get task details by ID");
    add_tool(&mut tools, "list_tasks", "List tasks (filter by status/type/agent)");
    add_tool(&mut tools, "get_data_model", "Get data model with attributes");
    add_tool(&mut tools, "get_contract", "Get contract (interface/class/API)");
    add_tool(&mut tools, "get_function_spec", "Get function specification");
    add_tool(&mut tools, "get_ui_screen", "Get UI screen definition");
    add_tool(&mut tools, "list_documents", "List all S.DEF documents");
    add_tool(&mut tools, "search_sdef", "Full-text search S.DEF content");
    add_tool(&mut tools, "get_dependency_graph", "Get module dependency graph");
    add_tool(&mut tools, "list_shards", "List shards (filter by type/status)");
    add_tool(&mut tools, "resolve_name", "Resolve S.DEF URI to code name");
    add_tool(&mut tools, "batch_resolve_names", "Batch-resolve URIs to names");
    add_tool(&mut tools, "list_symbols", "List registered symbols");
    add_tool(&mut tools, "register_custom_name", "Register a custom symbol name");
    add_tool(&mut tools, "export_sdef", "Export complete S.DEF (JSON/YAML)");
    add_tool(&mut tools, "export_sdef_to_disk", "Export S.DEF to disk as shard tree");
    add_tool(&mut tools, "import_sdef", "Import S.DEF from JSON");
    add_tool(&mut tools, "export_shard", "Export a single shard");
    add_tool(&mut tools, "import_shard", "Import a single shard");
    add_tool(&mut tools, "check_consistency", "Run consistency check");
    add_tool(&mut tools, "compute_fingerprints", "Recompute consistency fingerprints");
    add_tool(&mut tools, "resolve_inconsistency", "Resolve an inconsistency");
    add_tool(&mut tools, "get_inconsistency_report", "Get inconsistency report");
    add_tool(&mut tools, "lsp_initialize", "Initialize LSP server");
    add_tool(&mut tools, "lsp_get_document_symbols", "Get file symbols via LSP");
    add_tool(&mut tools, "lsp_get_type_info", "Get type info at position");
    add_tool(&mut tools, "lsp_find_references", "Find symbol references");
    add_tool(&mut tools, "lsp_get_diagnostics", "Get file diagnostics");
    add_tool(&mut tools, "lsp_get_hierarchy", "Get type hierarchy");
    add_tool(&mut tools, "create_checkpoint", "Create workflow checkpoint");
    add_tool(&mut tools, "list_checkpoints", "List checkpoints");
    add_tool(&mut tools, "restore_checkpoint", "Restore from checkpoint");
    add_tool(&mut tools, "begin_transaction", "Begin DB transaction");
    add_tool(&mut tools, "commit_transaction", "Commit transaction");
    add_tool(&mut tools, "rollback_transaction", "Rollback transaction");
    add_tool(&mut tools, "set_compatibility_mode", "Set compatibility mode");
    add_tool(&mut tools, "list_compat_layers", "List compatibility layers");
    add_tool(&mut tools, "get_compat_layer_detail", "Get compat layer details");
    add_tool(&mut tools, "ignore_compat_layer", "Ignore a compat layer");
    proof {
        assert(pair_views(tools@) =~= default_tools());
    }
    tools
}

} // verus!
