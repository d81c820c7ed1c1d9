//! System prompt generation for Producer and Consumer agents: role
//! definition, behavioral rules, output format, MCP tool list and
//! orchestration hints, joined by blank lines.

use vstd::prelude::*;
use crate::prompt::tool_orchestration::{ToolOrchestrator, spec_system_hint};
use crate::prompt::context_budget::{TokenBudget, remaining_spec};
use crate::text::{
    byte_len, byte_len_of, chars_of, char_views, decimal, extend_chars, lines, lines_of, matches_at,
    push_str, slice_chars, starts_with, str_eq, string_of, strip_cr, usize_to_string,
    lemma_byte_len_bounds,
};

verus! {

/// Agent type determines the role prompt.
#[derive(Debug, Clone, Copy, PartialEq, Eq, Hash)]
pub enum AgentType {
    Producer,
    Consumer,
}

/// Fidelity level for Consumer agents.
#[derive(Debug, Clone, Copy)]
pub enum FidelityLevel {
    Prototype,
    ProductionEquivalent,
    BitIdentical,
}

pub open spec fn fidelity_text(f: FidelityLevel) -> Seq<char> {
    match f {
        FidelityLevel::Prototype => "prototype"@,
        FidelityLevel::ProductionEquivalent => "production_equivalent"@,
        FidelityLevel::BitIdentical => "bit_identical"@,
    }
}

impl FidelityLevel {
    /// The level's name as it appears in prompts.
    pub fn as_str(&self) -> (r: &'static str)
        ensures
            r@ == fidelity_text(*self),
    {
        match self {
            FidelityLevel::Prototype => "prototype",
            FidelityLevel::ProductionEquivalent => "production_equivalent",
            FidelityLevel::BitIdentical => "bit_identical",
        }
    }
}

/// Configuration for system prompt generation.
#[derive(Debug, Clone)]
pub struct SystemPromptConfig {
    pub agent_type: AgentType,
    pub target_language: Option<String>,
    pub fidelity: FidelityLevel,
    pub compatibility_mode: Option<String>,
    /// Whether to include the MCP tool list in the prompt.
    pub include_tools: bool,
    /// MCP tool descriptions as (name, description) pairs, listed in this
    /// order within each category.
    pub tool_descriptions: Vec<(String, String)>,
}

impl Default for SystemPromptConfig {
    fn default() -> (c: Self)
        ensures
            c.agent_type == AgentType::Producer,
            c.target_language is None,
            c.fidelity == FidelityLevel::ProductionEquivalent,
            c.compatibility_mode matches Some(m) && m@ == "full"@,
            c.include_tools,
            c.tool_descriptions@.len() == 0,
    {
        SystemPromptConfig {
            agent_type: AgentType::Producer,
            target_language: None,
            fidelity: FidelityLevel::ProductionEquivalent,
            compatibility_mode: Some("full".to_owned()),
            include_tools: true,
            tool_descriptions: Vec::new(),
        }
    }
}

/// Full system prompt with estimated token count.
#[derive(Debug, Clone)]
pub struct GeneratedPrompt {
    pub text: String,
    pub estimated_tokens: usize,
}

pub const COMMON_RULES: &'static str = r#"Rules:
1. Tool-First: Think → Plan tools → Execute → Verify result.
   Never output code or S.DEF JSON directly — always use MCP tools.
2. Atomic: Each claim_task → ... → complete_task must be self-contained.
3. Verify: Before completing, check consistency using available tools.
4. Boundaries: Only use shards loaded in context. Request more via tools."#;

pub const PRODUCER_ROLE_HEAD: &'static str = r#"You are a software ANALYSIS agent. Your job is to deeply understand source code repositories and produce S.DEF (Software Definition Exchange Format) specifications.

You analyze code by:
1. Using LSP tools to get precise type information for every symbol
2. Tracking cross-file references to build complete dependency graphs
3. Extracting both explicit and implicit design decisions
4. Marking compatibility layers (deprecated APIs, version bridges) with metadata
5. Assigning every entity a unique sdef:// URI
6. Outputting valid S.DEF JSON conforming to the schema

"#;

pub const CONSUMER_ROLE_INTRO: &'static str = r#"You are a software RECONSTRUCTION agent. Your job is to read S.DEF specifications and generate functionally equivalent code.

Configuration:
- Target language: "#;

pub const CONSUMER_ROLE_COMPAT: &'static str = r#"
- Compatibility mode: "#;

pub const CONSUMER_ROLE_FIDELITY: &'static str = r#"
- Fidelity level: "#;

pub const CONSUMER_ROLE_TAIL: &'static str = r#"

You generate code by:
1. ALWAYS resolving symbol names through the naming service — never invent names
2. Generating compilable code that exactly matches the specification
3. Respecting compatibility mode when handling deprecated/legacy interfaces
4. Outputting code as structured files (not raw text blocks)
5. Registering all generated symbols before completing a task

"#;

pub const BEHAVIORAL_RULES: &'static str = r#"BEHAVIORAL RULES:

1. Tool-First: Think → Plan tools → Execute → Verify result
   Never output code or S.DEF JSON directly — ALWAYS use MCP tools.

2. Atomicity: Each claim_task → ... → complete_task must be self-contained.
   The next agent must be able to resume from where you left off.

3. Consistency: Before completing a task, verify:
   - All referenced entities exist in symbol_registry (use list_symbols)
   - Fingerprints match across sdef/db/code layers (use check_consistency)
   - No orphaned references

4. Boundaries: Your context window contains only the shards needed for
   the current task. Use get_data_model / get_contract / get_function_spec
   to fetch additional information as needed.

5. Progress: Update progress frequently with update_task_progress.
   Send heartbeats for long-running operations."#;

pub const OUTPUT_FORMAT_BASE: &'static str = r#"OUTPUT FORMAT:

All task completions must use the following pattern:
- Use complete_task with a structured output JSON object.
- Every output MUST contain an "entities" array listing changed/created entities.
- Use fail_task for error states with a detailed error_message.
- Use claim_task to acquire new work.
- Use check_consistency before completing any generation task."#;

pub const PRODUCER_OUTPUT_FORMAT: &'static str = r#"

For analysis tasks, the output format is:
{
  "entities": [
    {
      "type": "data_model|interface|function|design_decision",
      "uri": "sdef://...",
      "file": "path/to/file",
      "result": { /* S.DEF entity JSON */ }
    }
  ],
  "summary": "Brief summary of what was analyzed"
}"#;

pub const CONSUMER_OUTPUT_FORMAT_HEAD: &'static str = r#"

For generation tasks, the output format is:
{
  "entities": [
    {
      "type": "generated_file",
      "path": "relative/output/path",
      "name": "entity_name",
      "language": ""#;

pub const CONSUMER_OUTPUT_FORMAT_TAIL: &'static str = r#""
    }
  ],
  "files": [
    {
      "path": "src/models/user.rs",
      "content": "// generated code",
      "symbols_registered": ["sdef://..."]
    }
  ],
  "verification": {
    "compiled": true,
    "lints": 0
  }
}"#;


/// The text of an optional setting, or `default` when it is unset.
pub open spec fn opt_text(o: Option<String>, default: Seq<char>) -> Seq<char> {
    match o {
        Some(s) => s@,
        None => default,
    }
}

pub open spec fn spec_role_prompt(c: SystemPromptConfig) -> Seq<char> {
    match c.agent_type {
        AgentType::Producer => PRODUCER_ROLE_HEAD@ + COMMON_RULES@,
        AgentType::Consumer => CONSUMER_ROLE_INTRO@ + opt_text(c.target_language, "rust"@)
            + CONSUMER_ROLE_COMPAT@ + opt_text(c.compatibility_mode, "full"@)
            + CONSUMER_ROLE_FIDELITY@ + fidelity_text(c.fidelity)
            + CONSUMER_ROLE_TAIL@ + COMMON_RULES@,
    }
}

pub open spec fn spec_output_format(c: SystemPromptConfig) -> Seq<char> {
    match c.agent_type {
        AgentType::Producer => OUTPUT_FORMAT_BASE@ + PRODUCER_OUTPUT_FORMAT@,
        AgentType::Consumer => OUTPUT_FORMAT_BASE@ + CONSUMER_OUTPUT_FORMAT_HEAD@
            + opt_text(c.target_language, "rust"@) + CONSUMER_OUTPUT_FORMAT_TAIL@,
    }
}

/// One tool entry of the tool list.
pub open spec fn tool_line(t: (String, String)) -> Seq<char> {
    "\n    - "@ + t.0@ + " — "@ + t.1@
}

/// The entries of the first `n` tools that fall in category `cat`.
pub open spec fn category_lines(tools: Seq<(String, String)>, cat: Seq<char>, n: int) -> Seq<char>
    decreases n,
{
    if n <= 0 {
        Seq::empty()
    } else if spec_categorize_tool(tools[n - 1].0@) == cat {
        category_lines(tools, cat, n - 1) + tool_line(tools[n - 1])
    } else {
        category_lines(tools, cat, n - 1)
    }
}

/// A category heading with its entries, or nothing when it has none.
pub open spec fn category_section(tools: Seq<(String, String)>, cat: Seq<char>) -> Seq<char> {
    let body = category_lines(tools, cat, tools.len() as int);
    if body.len() > 0 { "\n\n  "@ + cat + ":"@ + body } else { Seq::empty() }
}

/// The tool list: every listed category, in a fixed order.
pub open spec fn spec_tool_list(tools: Seq<(String, String)>) -> Seq<char> {
    "AVAILABLE MCP TOOLS:"@
        + category_section(tools, "Task Management"@)
        + category_section(tools, "S.DEF Query"@)
        + category_section(tools, "Naming"@)
        + category_section(tools, "Import/Export"@)
        + category_section(tools, "Consistency"@)
        + category_section(tools, "LSP"@)
        + category_section(tools, "Checkpoint"@)
        + category_section(tools, "Transaction"@)
        + category_section(tools, "Compatibility"@)
}

/// The system prompt: role, rules, output format, the tool list when
/// requested and non-empty, and the orchestration hint, separated by blank
/// lines.
pub open spec fn spec_system_prompt_text(c: SystemPromptConfig) -> Seq<char> {
    let tools = if c.include_tools && c.tool_descriptions@.len() > 0 {
        "\n\n"@ + spec_tool_list(c.tool_descriptions@)
    } else {
        Seq::empty()
    };
    spec_role_prompt(c) + "\n\n"@ + BEHAVIORAL_RULES@ + "\n\n"@ + spec_output_format(c) + tools
        + "\n\n"@ + spec_system_hint(c.agent_type)
}

/// Token estimate of a run of lines: a line opening or closing a code
/// fence counts 1 and toggles code mode; a code line counts 1.3 tokens per
/// byte (rounded down); any other line counts a token per 4 bytes, plus 1.
pub open spec fn tokens_from(ls: Seq<Seq<char>>, in_code: bool) -> nat
    decreases ls.len(),
{
    if ls.len() == 0 {
        0
    } else if starts_with(ls[0], "```"@) {
        1 + tokens_from(ls.skip(1), !in_code)
    } else if in_code {
        byte_len(ls[0]) * 13 / 10 + tokens_from(ls.skip(1), in_code)
    } else {
        byte_len(ls[0]) / 4 + 1 + tokens_from(ls.skip(1), in_code)
    }
}

/// Estimated token count of a text (at least 1).
pub open spec fn spec_estimate_tokens(text: Seq<char>) -> nat {
    let t = tokens_from(lines(text), false);
    if t == 0 { 1 } else { t }
}

/// The category a tool is listed under (`"Other"` ones are not listed).
pub open spec fn spec_categorize_tool(name: Seq<char>) -> Seq<char> {
    if name == "create_task"@
        || name == "claim_task"@
        || name == "update_task_progress"@
        || name == "complete_task"@
        || name == "fail_task"@
        || name == "send_heartbeat"@
        || name == "get_task"@
        || name == "list_tasks"@ {
        "Task Management"@
    } else if name == "get_data_model"@
        || name == "get_contract"@
        || name == "get_function_spec"@
        || name == "get_ui_screen"@
        || name == "list_documents"@
        || name == "search_sdef"@
        || name == "get_dependency_graph"@
        || name == "list_shards"@ {
        "S.DEF Query"@
    } else if name == "resolve_name"@
        || name == "batch_resolve_names"@
        || name == "list_symbols"@
        || name == "register_custom_name"@ {
        "Naming"@
    } else if name == "export_sdef"@
        || name == "export_sdef_to_disk"@
        || name == "import_sdef"@
        || name == "export_shard"@
        || name == "import_shard"@ {
        "Import/Export"@
    } else if name == "check_consistency"@
        || name == "compute_fingerprints"@
        || name == "resolve_inconsistency"@
        || name == "get_inconsistency_report"@ {
        "Consistency"@
    } else if name == "lsp_initialize"@
        || name == "lsp_get_document_symbols"@
        || name == "lsp_get_type_info"@
        || name == "lsp_find_references"@
        || name == "lsp_get_diagnostics"@
        || name == "lsp_get_hierarchy"@ {
        "LSP"@
    } else if name == "create_checkpoint"@
        || name == "list_checkpoints"@
        || name == "restore_checkpoint"@ {
        "Checkpoint"@
    } else if name == "begin_transaction"@
        || name == "commit_transaction"@
        || name == "rollback_transaction"@ {
        "Transaction"@
    } else if name == "set_compatibility_mode"@
        || name == "list_compat_layers"@
        || name == "get_compat_layer_detail"@
        || name == "ignore_compat_layer"@ {
        "Compatibility"@
    } else {
        "Other"@
    }
}

/// The category a tool is listed under.
fn categorize_tool(name: &str) -> (r: &'static str)
    ensures
        r@ == spec_categorize_tool(name@),
{
    if str_eq(name, "create_task")
        || str_eq(name, "claim_task")
        || str_eq(name, "update_task_progress")
        || str_eq(name, "complete_task")
        || str_eq(name, "fail_task")
        || str_eq(name, "send_heartbeat")
        || str_eq(name, "get_task")
        || str_eq(name, "list_tasks") {
        return "Task Management";
    }
    if str_eq(name, "get_data_model")
        || str_eq(name, "get_contract")
        || str_eq(name, "get_function_spec")
        || str_eq(name, "get_ui_screen")
        || str_eq(name, "list_documents")
        || str_eq(name, "search_sdef")
        || str_eq(name, "get_dependency_graph")
        || str_eq(name, "list_shards") {
        return "S.DEF Query";
    }
    if str_eq(name, "resolve_name")
        || str_eq(name, "batch_resolve_names")
        || str_eq(name, "list_symbols")
        || str_eq(name, "register_custom_name") {
        return "Naming";
    }
    if str_eq(name, "export_sdef")
        || str_eq(name, "export_sdef_to_disk")
        || str_eq(name, "import_sdef")
        || str_eq(name, "export_shard")
        || str_eq(name, "import_shard") {
        return "Import/Export";
    }
    if str_eq(name, "check_consistency")
        || str_eq(name, "compute_fingerprints")
        || str_eq(name, "resolve_inconsistency")
        || str_eq(name, "get_inconsistency_report") {
        return "Consistency";
    }
    if str_eq(name, "lsp_initialize")
        || str_eq(name, "lsp_get_document_symbols")
        || str_eq(name, "lsp_get_type_info")
        || str_eq(name, "lsp_find_references")
        || str_eq(name, "lsp_get_diagnostics")
        || str_eq(name, "lsp_get_hierarchy") {
        return "LSP";
    }
    if str_eq(name, "create_checkpoint")
        || str_eq(name, "list_checkpoints")
        || str_eq(name, "restore_checkpoint") {
        return "Checkpoint";
    }
    if str_eq(name, "begin_transaction")
        || str_eq(name, "commit_transaction")
        || str_eq(name, "rollback_transaction") {
        return "Transaction";
    }
    if str_eq(name, "set_compatibility_mode")
        || str_eq(name, "list_compat_layers")
        || str_eq(name, "get_compat_layer_detail")
        || str_eq(name, "ignore_compat_layer") {
        return "Compatibility";
    }
    "Other"
}


/// Total length of a run of lines, counting one extra per line.
spec fn lines_size(ls: Seq<Seq<char>>) -> nat
    decreases ls.len(),
{
    if ls.len() == 0 { 0 } else { ls[0].len() + 1 + lines_size(ls.skip(1)) }
}

proof fn lemma_lines_size(s: Seq<char>)
    ensures
        lines_size(lines(s)) <= s.len() + 1,
    decreases s.len(),
{
    if s.len() > 0 {
        s.index_of_first_ensures('\n');
        match s.index_of_first('\n') {
            None => {
                let ls = lines(s);
                assert(ls == seq![s]);
                assert(ls.skip(1) == Seq::<Seq<char>>::empty());
                assert(lines_size(ls) == ls[0].len() + 1 + lines_size(ls.skip(1)));
            },
            Some(i) => {
                lemma_lines_size(s.skip(i + 1));
                let ls = lines(s);
                assert(ls[0] == strip_cr(s.take(i)));
                assert(ls.skip(1) == lines(s.skip(i + 1)));
                assert(ls[0].len() <= i);
                assert(lines_size(ls) == ls[0].len() + 1 + lines_size(ls.skip(1)));
                assert(s.skip(i + 1).len() == s.len() - i - 1);
            },
        }
    }
}

proof fn lemma_line_len_bound(ls: Seq<Seq<char>>, j: int)
    requires
        0 <= j < ls.len(),
    ensures
        ls[j].len() < lines_size(ls),
    decreases j,
{
    if j > 0 {
        lemma_line_len_bound(ls.skip(1), j - 1);
        assert(ls.skip(1)[j - 1] == ls[j]);
    }
}

proof fn lemma_tokens_bound(ls: Seq<Seq<char>>, in_code: bool)
    ensures
        tokens_from(ls, in_code) <= 8 * lines_size(ls),
    decreases ls.len(),
{
    if ls.len() > 0 {
        lemma_tokens_bound(ls.skip(1), true);
        lemma_tokens_bound(ls.skip(1), false);
        lemma_byte_len_bounds(ls[0]);
    }
}

/// Token estimate of a text (see `spec_estimate_tokens`).
pub fn estimate_tokens(text: &str) -> (r: usize)
    requires
        text@.len() <= usize::MAX / 16,
    ensures
        r == spec_estimate_tokens(text@),
{
    let chars = chars_of(text);
    let ls = lines_of(chars.as_slice());
    let fence = chars_of("```");
    let ghost all = lines(text@);
    proof {
        lemma_lines_size(text@);
        lemma_tokens_bound(all, false);
        assert(all.skip(0) == all);
        assert forall|j: int| 0 <= j < ls@.len() implies (#[trigger] ls@[j])@.len() <= text@.len() + 1 by {
            assert(all[j] == ls@[j]@);
            lemma_line_len_bound(all, j);
        }
    }
    let mut tokens: usize = 0;
    let mut in_code = false;
    let mut i: usize = 0;
    while i < ls.len()
        invariant
            char_views(ls@) == all,
            all == lines(text@),
            fence@ == "```"@,
            i <= ls@.len(),
            tokens + tokens_from(all.skip(i as int), in_code) == tokens_from(all, false),
            tokens_from(all, false) <= 8 * (text@.len() + 1),
            text@.len() <= usize::MAX / 16,
            forall|j: int| 0 <= j < ls@.len() ==> (#[trigger] ls@[j])@.len() <= text@.len() + 1,
        decreases ls@.len() - i,
    {
        let line = &ls[i];
        proof {
            let rest = all.skip(i as int);
            assert(rest[0] == line@);
            assert(rest.skip(1) == all.skip(i + 1));
            lemma_tokens_bound(rest.skip(1), in_code);
            lemma_tokens_bound(rest.skip(1), !in_code);
        }
        if matches_at(line.as_slice(), 0, fence.as_slice()) {
            assert(line@.skip(0) == line@);
            in_code = !in_code;
            tokens = tokens + 1;
        } else {
            assert(line@.skip(0) == line@);
            let b = byte_len_of(line.as_slice());
            proof { lemma_byte_len_bounds(line@); }
            if in_code {
                tokens = tokens + (b + b * 3 / 10);
            } else {
                tokens = tokens + (b / 4 + 1);
            }
        }
        i = i + 1;
    }
    if tokens == 0 { 1 } else { tokens }
}


fn opt_str<'a>(o: &'a Option<String>, default: &'a str) -> (r: &'a str)
    ensures
        r@ == opt_text(*o, default@),
{
    match o {
        Some(v) => v.as_str(),
        None => default,
    }
}

fn build_role_prompt(config: &SystemPromptConfig) -> (r: String)
    ensures
        r@ == spec_role_prompt(*config),
{
    let mut r = String::new();
    match config.agent_type {
        AgentType::Producer => {
            push_str(&mut r, PRODUCER_ROLE_HEAD);
            push_str(&mut r, COMMON_RULES);
        },
        AgentType::Consumer => {
            push_str(&mut r, CONSUMER_ROLE_INTRO);
            push_str(&mut r, opt_str(&config.target_language, "rust"));
            push_str(&mut r, CONSUMER_ROLE_COMPAT);
            push_str(&mut r, opt_str(&config.compatibility_mode, "full"));
            push_str(&mut r, CONSUMER_ROLE_FIDELITY);
            push_str(&mut r, config.fidelity.as_str());
            push_str(&mut r, CONSUMER_ROLE_TAIL);
            push_str(&mut r, COMMON_RULES);
        },
    }
    r
}

fn build_output_format(config: &SystemPromptConfig) -> (r: String)
    ensures
        r@ == spec_output_format(*config),
{
    let mut r = String::new();
    push_str(&mut r, OUTPUT_FORMAT_BASE);
    match config.agent_type {
        AgentType::Producer => {
            push_str(&mut r, PRODUCER_OUTPUT_FORMAT);
        },
        AgentType::Consumer => {
            push_str(&mut r, CONSUMER_OUTPUT_FORMAT_HEAD);
            push_str(&mut r, opt_str(&config.target_language, "rust"));
            push_str(&mut r, CONSUMER_OUTPUT_FORMAT_TAIL);
        },
    }
    r
}

fn append_category(out: &mut String, tools: &Vec<(String, String)>, cat: &str)
    ensures
        final(out)@ == old(out)@ + category_section(tools@, cat@),
{
    let mut body = String::new();
    let mut k: usize = 0;
    while k < tools.len()
        invariant
            k <= tools@.len(),
            body@ == category_lines(tools@, cat@, k as int),
        decreases tools@.len() - k,
    {
        if str_eq(categorize_tool(tools[k].0.as_str()), cat) {
            push_str(&mut body, "\n    - ");
            push_str(&mut body, tools[k].0.as_str());
            push_str(&mut body, " — ");
            push_str(&mut body, tools[k].1.as_str());
        }
        k = k + 1;
    }
    if body.as_str().unicode_len() > 0 {
        push_str(out, "\n\n  ");
        push_str(out, cat);
        push_str(out, ":");
        push_str(out, body.as_str());
    }
}

fn build_tool_list(config: &SystemPromptConfig) -> (r: String)
    ensures
        r@ == spec_tool_list(config.tool_descriptions@),
{
    let tools = &config.tool_descriptions;
    let mut r = String::new();
    push_str(&mut r, "AVAILABLE MCP TOOLS:");
    append_category(&mut r, tools, "Task Management");
    append_category(&mut r, tools, "S.DEF Query");
    append_category(&mut r, tools, "Naming");
    append_category(&mut r, tools, "Import/Export");
    append_category(&mut r, tools, "Consistency");
    append_category(&mut r, tools, "LSP");
    append_category(&mut r, tools, "Checkpoint");
    append_category(&mut r, tools, "Transaction");
    append_category(&mut r, tools, "Compatibility");
    r
}

/// Build the complete system prompt from a configuration.
pub fn build_system_prompt(config: &SystemPromptConfig) -> (p: GeneratedPrompt)
    requires
        spec_system_prompt_text(*config).len() <= usize::MAX / 16,
    ensures
        p.text@ == spec_system_prompt_text(*config),
        p.estimated_tokens == spec_estimate_tokens(p.text@),
{
    let mut text = build_role_prompt(config);
    push_str(&mut text, "\n\n");
    push_str(&mut text, BEHAVIORAL_RULES);
    push_str(&mut text, "\n\n");
    let output = build_output_format(config);
    push_str(&mut text, output.as_str());
    if config.include_tools && config.tool_descriptions.len() > 0 {
        push_str(&mut text, "\n\n");
        let tools = build_tool_list(config);
        push_str(&mut text, tools.as_str());
    }
    push_str(&mut text, "\n\n");
    let hint = ToolOrchestrator::system_hint(config.agent_type);
    push_str(&mut text, hint.as_str());
    let estimated_tokens = estimate_tokens(text.as_str());
    GeneratedPrompt { text, estimated_tokens }
}

/// The token estimate grows at most linearly with the text's length.
pub proof fn lemma_estimate_bound(text: Seq<char>)
    ensures
        spec_estimate_tokens(text) <= 8 * (text.len() + 1),
{
    lemma_lines_size(text);
    lemma_tokens_bound(lines(text), false);
}

/// Marker placed between the kept head and tail of a shortened text.
pub open spec fn trimmed_marker() -> Seq<char> {
    "\n\n\u{27ea} ... content trimmed for context budget ... \u{27eb}\n\n"@
}

/// Naive summary of a text for a token budget: a text whose UTF-8 length is
/// within four bytes per token is kept whole; otherwise the first 60% of that
/// many characters are kept, then a marker, then the characters from the
/// position given by the byte length less 40% of the limit.
pub open spec fn summary_text(text: Seq<char>, budget_tokens: nat) -> Seq<char> {
    let limit = budget_tokens * 4;
    let head = limit * 3 / 5;
    let tail = limit * 2 / 5;
    if byte_len(text) <= limit {
        text
    } else if text.len() <= head {
        text
    } else {
        let start = if byte_len(text) >= tail { (byte_len(text) - tail) as nat } else { 0 };
        text.take(head as int) + trimmed_marker() + if start < text.len() {
            text.skip(start as int)
        } else {
            Seq::<char>::empty()
        }
    }
}

/// Shortens a text to fit a token budget (see `summary_text`).
pub fn summarize(text: &str, budget_tokens: usize) -> (r: String)
    requires
        budget_tokens * 4 <= usize::MAX,
        4 * text@.len() <= usize::MAX,
    ensures
        r@ == summary_text(text@, budget_tokens as nat),
{
    let limit = budget_tokens * 4;
    let chars = chars_of(text);
    let bytes = byte_len_of(chars.as_slice());
    if bytes <= limit {
        return text.to_owned();
    }
    let head = limit / 5 * 3 + limit % 5 * 3 / 5;
    let tail = limit / 5 * 2 + limit % 5 * 2 / 5;
    proof {
        assert(head == limit * 3 / 5 && tail == limit * 2 / 5) by (nonlinear_arith)
            requires
                head == limit / 5 * 3 + limit % 5 * 3 / 5,
                tail == limit / 5 * 2 + limit % 5 * 2 / 5,
                limit >= 0;
    }
    if chars.len() <= head {
        return text.to_owned();
    }
    let start = bytes.saturating_sub(tail);
    let mut v = slice_chars(chars.as_slice(), 0, head);
    let marker = chars_of("\n\n\u{27ea} ... content trimmed for context budget ... \u{27eb}\n\n");
    extend_chars(&mut v, marker.as_slice());
    if start < chars.len() {
        let rest = slice_chars(chars.as_slice(), start, chars.len());
        extend_chars(&mut v, rest.as_slice());
    }
    proof {
        assert(chars@.subrange(0, head as int) == text@.take(head as int));
        assert(chars@.subrange(start as int, chars@.len() as int) == text@.skip(start as int));
    }
    string_of(v.as_slice())
}

/// Note that stands in for a dependency context left out entirely.
pub open spec fn omitted_dependency_note() -> Seq<char> {
    "(Dependency context omitted \u{2014} use get_data_model / get_contract to retrieve)"@
}

/// Dependency and working-set context fitted to a token budget: both whole
/// when they fit; when the working set alone is over budget, a note instead
/// of the dependencies and a summary of the working set; otherwise the
/// working set whole, and the dependencies whole when the budget left for
/// them exceeds half their estimate, else summarized to that budget under a
/// truncation note.
pub open spec fn trimmed_context(dep: Seq<char>, ws: Seq<char>, budget: nat) -> (Seq<char>, Seq<char>) {
    let dep_tokens = spec_estimate_tokens(dep);
    let ws_tokens = spec_estimate_tokens(ws);
    if dep_tokens + ws_tokens <= budget {
        (dep, ws)
    } else if ws_tokens > budget {
        (omitted_dependency_note(), summary_text(ws, budget))
    } else {
        let dep_budget = (budget - ws_tokens) as nat;
        if dep_budget > dep_tokens / 2 {
            (dep, ws)
        } else {
            (
                "\u{27ea} Truncated dependency context ("@ + decimal(dep_tokens)
                    + " tokens). Use MCP tools to retrieve. \u{27eb}\n\n"@ + summary_text(dep, dep_budget),
                ws,
            )
        }
    }
}

/// Trims context to fit within a token budget (see `trimmed_context`).
pub fn trim_context(dep_context: &str, working_set: &str, budget: usize) -> (r: (String, String))
    requires
        budget * 4 <= usize::MAX,
        dep_context@.len() <= usize::MAX / 32,
        working_set@.len() <= usize::MAX / 32,
    ensures
        (r.0@, r.1@) == trimmed_context(dep_context@, working_set@, budget as nat),
{
    proof {
        lemma_estimate_bound(dep_context@);
        lemma_estimate_bound(working_set@);
    }
    let dep_tokens = estimate_tokens(dep_context);
    let ws_tokens = estimate_tokens(working_set);
    if dep_tokens + ws_tokens <= budget {
        return (dep_context.to_owned(), working_set.to_owned());
    }
    if ws_tokens > budget {
        let summary = summarize(working_set, budget);
        return (
            "(Dependency context omitted \u{2014} use get_data_model / get_contract to retrieve)".to_owned(),
            summary,
        );
    }
    let dep_budget = budget - ws_tokens;
    if dep_budget > dep_tokens / 2 {
        (dep_context.to_owned(), working_set.to_owned())
    } else {
        let mut note = String::new();
        push_str(&mut note, "\u{27ea} Truncated dependency context (");
        let n = usize_to_string(dep_tokens);
        push_str(&mut note, n.as_str());
        push_str(&mut note, " tokens). Use MCP tools to retrieve. \u{27eb}\n\n");
        let summary = summarize(dep_context, dep_budget);
        push_str(&mut note, summary.as_str());
        (note, working_set.to_owned())
    }
}

/// The full task prompt: system prompt, dependency context, task
/// instruction and working set, separated by rules.
pub open spec fn task_prompt_text(system: Seq<char>, task: Seq<char>, dep: Seq<char>, ws: Seq<char>) -> Seq<char> {
    system + "\n\n---\n\nDEPENDENCY CONTEXT:\n"@ + dep + "\n\n---\n\nCURRENT TASK:\n"@ + task
        + "\n\n---\n\nWORKING SET:\n"@ + ws
}

/// The context that goes into a task prompt: both parts whole when their
/// estimates fit the budget left after the system prompt and the task,
/// otherwise trimmed.
pub open spec fn task_context(
    system_tokens: nat,
    budget: TokenBudget,
    task: Seq<char>,
    dep: Seq<char>,
    ws: Seq<char>,
) -> (Seq<char>, Seq<char>) {
    let remaining = remaining_spec(budget, system_tokens, spec_estimate_tokens(task));
    if spec_estimate_tokens(dep) + spec_estimate_tokens(ws) <= remaining {
        (dep, ws)
    } else {
        trimmed_context(dep, ws, remaining)
    }
}

/// Builds the task prompt (layers 2 and 3) on top of a system prompt.
pub fn build_task_prompt(
    system_prompt: &GeneratedPrompt,
    task_instruction: &str,
    dependency_context: &str,
    working_set: &str,
    budget: &TokenBudget,
) -> (p: GeneratedPrompt)
    requires
        budget.effective_max * 4 <= usize::MAX,
        system_prompt.estimated_tokens + spec_estimate_tokens(task_instruction@)
            + budget.tool_response_reserve <= usize::MAX,
        task_instruction@.len() <= usize::MAX / 16,
        dependency_context@.len() <= usize::MAX / 32,
        working_set@.len() <= usize::MAX / 32,
        ({
            let ctx = task_context(
                system_prompt.estimated_tokens as nat,
                *budget,
                task_instruction@,
                dependency_context@,
                working_set@,
            );
            task_prompt_text(system_prompt.text@, task_instruction@, ctx.0, ctx.1).len() <= usize::MAX / 16
        }),
    ensures
        ({
            let ctx = task_context(
                system_prompt.estimated_tokens as nat,
                *budget,
                task_instruction@,
                dependency_context@,
                working_set@,
            );
            &&& p.text@ == task_prompt_text(system_prompt.text@, task_instruction@, ctx.0, ctx.1)
            &&& p.estimated_tokens == spec_estimate_tokens(p.text@)
        }),
{
    proof {
        lemma_estimate_bound(dependency_context@);
        lemma_estimate_bound(working_set@);
    }
    let task_tokens = estimate_tokens(task_instruction);
    let remaining = budget.remaining_budget(system_prompt.estimated_tokens, task_tokens);
    let dep_tokens = estimate_tokens(dependency_context);
    let ws_tokens = estimate_tokens(working_set);
    let (dep_text, ws_text) = if dep_tokens + ws_tokens <= remaining {
        (dependency_context.to_owned(), working_set.to_owned())
    } else {
        trim_context(dependency_context, working_set, remaining)
    };
    let mut text = system_prompt.text.clone();
    push_str(&mut text, "\n\n---\n\nDEPENDENCY CONTEXT:\n");
    push_str(&mut text, dep_text.as_str());
    push_str(&mut text, "\n\n---\n\nCURRENT TASK:\n");
    push_str(&mut text, task_instruction);
    push_str(&mut text, "\n\n---\n\nWORKING SET:\n");
    push_str(&mut text, ws_text.as_str());
    let estimated_tokens = estimate_tokens(text.as_str());
    GeneratedPrompt { text, estimated_tokens }
}

} // verus!
