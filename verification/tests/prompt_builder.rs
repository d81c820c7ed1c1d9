use cleanroom::prompt::builder::PromptBuilder;
use cleanroom::prompt::context_budget::{ContextItem, Priority, TokenBudget};
use cleanroom::prompt::default_tool_descriptions;
use cleanroom::prompt::few_shot::{FewShotExample, FewShotManager};
use cleanroom::prompt::system_prompt::{AgentType, SystemPromptConfig};
use serde_json::Value;

fn json(text: &str) -> Value {
    serde_json::from_str(text).unwrap()
}

fn example(id: &str, recorded_at: &str, tokens: usize) -> FewShotExample {
    FewShotExample {
        id: id.to_string(),
        task_type: "EXTRACT_DATA_MODEL".to_string(),
        language: None,
        input: json("{\"entity\": \"User\"}"),
        output: json("{\"entities\": [{\"type\": \"data_model\"}], \"files\": []}"),
        tool_trace: vec![],
        recorded_at: recorded_at.to_string(),
        estimated_tokens: tokens,
    }
}

fn make_item(uri: &str, content: &str, priority: Priority) -> ContextItem {
    ContextItem::new(uri, content, priority)
}

#[test]
fn test_budget_defaults() {
    let budget = TokenBudget::default();
    assert_eq!(budget.effective_max, 18700); // 22000 * 0.85 = 18700
    assert_eq!(budget.tool_response_reserve, 2000);
}

#[test]
fn test_can_fit() {
    let budget = TokenBudget::default();
    assert!(budget.can_fit(0, 15000));
    assert!(!budget.can_fit(0, 20000));
}

#[test]
fn test_fit_items_keeps_must() {
    let budget = TokenBudget::default();
    let items = vec![
        make_item("sdef://core", &"X".repeat(2000), Priority::Must),
        make_item("sdef://extra", &"X".repeat(100000), Priority::Optional),
    ];

    let result = budget.fit_items(5000, 1000, items);
    assert_eq!(result.included.len(), 1, "Must item should be included");
    assert_eq!(result.trimmed.len(), 1, "Optional item should be trimmed");
}

#[test]
fn test_record_and_select() {
    let mut mgr = FewShotManager::new(10, 100);

    mgr.record(
        "EXTRACT_DATA_MODEL",
        Some("rust"),
        json("{\"entity\": \"User\"}"),
        json("{\"entities\": [{\"type\": \"data_model\"}], \"files\": [{\"path\": \"user.rs\"}]}"),
        vec!["lsp_get_document_symbols".into(), "complete_task".into()],
    );

    let selected = mgr.select("EXTRACT_DATA_MODEL", Some("rust"), 3, 5000);
    assert_eq!(selected.len(), 1);
    assert_eq!(selected[0].task_type, "EXTRACT_DATA_MODEL");
    assert_eq!(selected[0].id.len(), 36);
    assert!(selected[0].estimated_tokens > 0);
}

#[test]
fn test_format_examples() {
    let mut ex = example("1", "2024-01-01T00:00:00+00:00", 100);
    ex.tool_trace = vec!["lsp_get_document_symbols".into(), "complete_task".into()];
    let formatted = FewShotManager::format_examples(&[ex]);
    assert!(formatted.contains("EXTRACT_DATA_MODEL"));
    assert!(formatted.contains("lsp_get_document_symbols"));
    assert!(formatted.starts_with("\n─── FEW-SHOT EXAMPLES ───\n\n【Example 1 of successful EXTRACT_DATA_MODEL】\n  Input: {\n  \"entity\": \"User\"\n}\n"));
    assert!(formatted.contains("  Tool calls made: lsp_get_document_symbols → complete_task\n"));
    assert!(formatted.ends_with("  Output pattern: 1 entities, 0 files\n"));
    assert_eq!(FewShotManager::format_examples(&[]), "");
}

#[test]
fn test_prune_oldest() {
    let mut mgr = FewShotManager::new(2, 5);

    for i in 0..3 {
        mgr.record("EXTRACT_ARCHITECTURE", None, json(&format!("{{\"i\": {}}}", i)), json("{\"result\": \"ok\"}"), vec![]);
    }

    let selected = mgr.select("EXTRACT_ARCHITECTURE", None, 10, 10000);
    assert!(selected.len() >= 2, "Expected at least 2 examples after pruning");
}

#[test]
fn test_category_keeps_newest() {
    let mut mgr = FewShotManager::new(2, 100);
    mgr.insert_example(example("a", "2024-01-01", 10));
    mgr.insert_example(example("b", "2024-03-01", 10));
    mgr.insert_example(example("c", "2024-02-01", 10));
    // The full category keeps its newest example, then takes the new one.
    let ids: Vec<String> = mgr.select("EXTRACT_DATA_MODEL", None, 10, 1000).into_iter().map(|e| e.id).collect();
    assert_eq!(ids, vec!["b", "c"]);
    assert_eq!(mgr.total_count(), 2);
}

#[test]
fn test_total_limit_prunes_oldest_fifth() {
    let mut mgr = FewShotManager::new(10, 3);
    mgr.insert_example(example("a", "2024-01-04", 1));
    mgr.insert_example(example("b", "2024-01-01", 1));
    mgr.insert_example(example("c", "2024-01-03", 1));
    assert_eq!(mgr.total_count(), 3);
    mgr.insert_example(example("d", "2024-01-02", 1));
    // Four stored exceed the limit of three: the oldest one goes.
    let ids: Vec<String> = mgr.select("EXTRACT_DATA_MODEL", None, 10, 1000).into_iter().map(|e| e.id).collect();
    assert_eq!(ids, vec!["a", "c", "d"]);
    mgr.clear();
    assert_eq!(mgr.total_count(), 0);
}

#[test]
fn test_select_budget_and_fallback() {
    let mut mgr = FewShotManager::new(10, 100);
    let mut rust_ex = example("r", "2024-01-02", 600);
    rust_ex.language = Some("rust".to_string());
    mgr.insert_example(rust_ex);
    mgr.insert_example(example("x", "2024-01-03", 600));
    mgr.insert_example(example("y", "2024-01-01", 600));
    // Language-free examples fill up to the count; newest first.
    let ids: Vec<String> = mgr.select("EXTRACT_DATA_MODEL", Some("rust"), 3, 5000).into_iter().map(|e| e.id).collect();
    assert_eq!(ids, vec!["x", "r", "y"]);
    // The token budget stops at the first example that does not fit.
    let fit: Vec<String> = mgr.select("EXTRACT_DATA_MODEL", Some("rust"), 3, 1300).into_iter().map(|e| e.id).collect();
    assert_eq!(fit, vec!["x", "r"]);
    // The count is taken before the budget.
    assert_eq!(mgr.select("EXTRACT_DATA_MODEL", Some("rust"), 1, 5000).len(), 1);
    assert!(mgr.select("EXTRACT_UI", None, 3, 5000).is_empty());
}

#[test]
fn test_build_producer_prompt_with_tools() {
    let tools = default_tool_descriptions();
    let config = SystemPromptConfig { agent_type: AgentType::Producer, ..Default::default() };
    let builder = PromptBuilder::new(config).with_tools(tools);
    let prompt = builder.build(
        "Analyze the User entity",
        None,
        &[],
        &[ContextItem::new("sdef://core/User", "struct User { id: u64, name: String }", Priority::Must)],
    );
    assert!(prompt.text.contains("AVAILABLE MCP TOOLS"));
    assert!(prompt.text.contains("lsp_get_type_info"));
    assert!(prompt.text.contains("struct User"));
    assert!(prompt.text.contains("[MUST]: struct User { id: u64, name: String }"));
}

#[test]
fn test_build_with_task_orchestration() {
    let config = SystemPromptConfig { agent_type: AgentType::Producer, ..Default::default() };
    let builder = PromptBuilder::new(config);
    let prompt = builder.build("Extract data model for User", Some("EXTRACT_DATA_MODEL"), &[], &[]);
    assert!(prompt.text.contains("resolve_name"));
    assert!(prompt.text.contains("lsp_get_type_info"));
    assert!(prompt.text.contains("─── ORCHESTRATION HINT ───"));
}

#[test]
fn test_build_with_few_shot_examples() {
    let config = SystemPromptConfig { agent_type: AgentType::Producer, include_tools: false, ..Default::default() };
    let mut mgr = FewShotManager::new(10, 100);
    mgr.insert_example(example("e1", "2024-01-01", 50));
    let plain = PromptBuilder::new(config.clone()).build("Extract", Some("EXTRACT_DATA_MODEL"), &[], &[]);
    let with = PromptBuilder::new(config).with_few_shot(mgr).build("Extract", Some("EXTRACT_DATA_MODEL"), &[], &[]);
    assert!(!plain.text.contains("FEW-SHOT EXAMPLES"));
    assert!(with.text.contains("【Example 1 of successful EXTRACT_DATA_MODEL】"));
    assert!(with.estimated_tokens > plain.estimated_tokens);
}

#[test]
fn test_build_trims_context_over_budget() {
    let config = SystemPromptConfig { agent_type: AgentType::Consumer, include_tools: false, ..Default::default() };
    let builder = PromptBuilder::new(config).with_budget(TokenBudget { effective_max: 8000, tool_response_reserve: 0 });
    let dep = vec![
        make_item("sdef://core", "core model", Priority::Must),
        make_item("sdef://history", &"word ".repeat(8000), Priority::Optional),
    ];
    let prompt = builder.build("Generate code", None, &dep, &[]);
    assert!(prompt.text.contains("[sdef://core] core model"));
    assert!(prompt.text.contains("--- Context Budget Exceeded ---"));
    assert!(prompt.text.contains("'collapsed_Optional'"));
    assert!(!prompt.text.contains("[MUST]"));
}
