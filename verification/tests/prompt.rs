use cleanroom::prompt::context_budget::{
    build_trimmed_placeholders, ContextItem, Priority, TokenBudget, TrimmedItem,
};
use cleanroom::prompt::default_tool_descriptions;
use cleanroom::prompt::response_parser::{
    apply_common_fixes, extract_error_message, find_matching_brace, is_known_tool, is_likely_question,
    merge_json_blocks, parse_response, AgentAction, ParseError, ParserConfig,
};
use cleanroom::prompt::system_prompt::{
    build_system_prompt, build_task_prompt, estimate_tokens, summarize, trim_context, AgentType,
    SystemPromptConfig,
};
use cleanroom::prompt::tool_orchestration::ToolOrchestrator;

#[test]
fn test_producer_hint_contains_tools() {
    let hint = ToolOrchestrator::system_hint(AgentType::Producer);
    assert!(hint.contains("lsp_get_document_symbols"));
    assert!(hint.contains("complete_task"));
}

#[test]
fn test_consumer_hint_contains_tools() {
    let hint = ToolOrchestrator::system_hint(AgentType::Consumer);
    assert!(hint.contains("batch_resolve_names"));
    assert!(hint.contains("check_consistency"));
}

#[test]
fn test_task_specific_flows() {
    let flow = ToolOrchestrator::for_task("EXTRACT_DATA_MODEL", AgentType::Producer);
    assert!(flow.contains("resolve_name"));
    assert!(flow.contains("lsp_get_type_info"));

    let flow = ToolOrchestrator::for_task("GENERATE_CODE", AgentType::Consumer);
    assert!(flow.contains("get_data_model"));
    assert!(flow.contains("batch_resolve_names"));
}

#[test]
fn test_unknown_task_returns_empty() {
    assert_eq!(ToolOrchestrator::for_task("UNKNOWN", AgentType::Producer), "");
}

#[test]
fn test_build_producer_prompt() {
    let config = SystemPromptConfig { agent_type: AgentType::Producer, include_tools: false, ..Default::default() };
    let prompt = build_system_prompt(&config);
    assert!(prompt.text.contains("ANALYSIS agent"));
    assert!(prompt.text.contains("Tool-First"));
    assert!(prompt.estimated_tokens > 0);
}

#[test]
fn test_build_consumer_prompt() {
    let config = SystemPromptConfig {
        agent_type: AgentType::Consumer,
        target_language: Some("rust".to_string()),
        compatibility_mode: Some("mixed".to_string()),
        include_tools: false,
        ..Default::default()
    };
    let prompt = build_system_prompt(&config);
    assert!(prompt.text.contains("RECONSTRUCTION agent"));
    assert!(prompt.text.contains("rust"));
    assert!(prompt.text.contains("mixed"));
}

#[test]
fn test_token_estimation() {
    let short = "hello world";
    assert!(estimate_tokens(short) >= 2);

    let code = "fn main() { println!(\"Hello\"); }\n";
    let in_block = format!("```rust\n{}\n```", code);
    let tokens = estimate_tokens(&in_block);
    assert!(tokens > 5, "Code blocks should consume tokens");
}

#[test]
fn test_context_trimming() {
    let dep = "A".repeat(5000);
    let ws = "B".repeat(200);
    let budget = 50;

    let (dep_out, ws_out) = trim_context(&dep, &ws, budget);
    assert!(ws_out.len() <= budget * 4);
    assert!(
        dep_out.contains("Dependency context omitted"),
        "Expected dep to be omitted: got '{}'",
        &dep_out[..dep_out.len().min(100)]
    );
}

#[test]
fn test_summarize_long_text() {
    let text = "X".repeat(1000);
    let result = summarize(&text, 10);
    assert!(result.len() < 1000);
    assert!(result.contains("trimmed"));
}

#[test]
fn test_trimmed_placeholders() {
    let trimmed = vec![TrimmedItem { uri: "sdef://a".into(), priority: Priority::Low, count_hint: Some(3) }];
    let text = build_trimmed_placeholders(&trimmed);
    assert!(text.contains("3 items"));
    assert!(text.contains("Low"));
    assert!(text.contains("budget"));
}

#[test]
fn test_default_tool_descriptions_count() {
    let tools = default_tool_descriptions();
    assert_eq!(tools.len(), 45, "Should have all 45 MCP tool descriptions (some tools have aliased names)");
}

#[test]
fn test_apply_common_fixes() {
    let raw = "```json\n{\"key\": True, \"val\": None}\n```";
    let fixed = apply_common_fixes(raw);
    assert!(!fixed.contains("True"));
    assert!(!fixed.contains("None"));
    assert!(!fixed.contains("```"));
}

#[test]
fn common_fixes_exact_output() {
    let raw = "```json\n{\"a\": True, \"b\": False, \"c\": None, \u{201c}q\u{201d}: \u{2018}x\u{2019}}\n```";
    assert_eq!(apply_common_fixes(raw), "\n{\"a\": true, \"b\": false, \"c\": null, \"q\": 'x'}\n");
}

#[test]
fn summarize_keeps_head_and_tail() {
    let text = "0123456789".repeat(10);
    // budget 5 tokens: limit 20 bytes, head 12 chars, tail starts at 100 - 8.
    let result = summarize(&text, 5);
    let expected = format!(
        "{}\n\n\u{27ea} ... content trimmed for context budget ... \u{27eb}\n\n{}",
        &text[..12],
        &text[92..]
    );
    assert_eq!(result, expected);
    assert_eq!(summarize("short", 5), "short");
}

#[test]
fn trim_context_keeps_both_when_they_fit() {
    let (d, w) = trim_context("dep", "ws", 100);
    assert_eq!(d, "dep");
    assert_eq!(w, "ws");
}

#[test]
fn trim_context_truncates_dependencies_under_a_note() {
    let dep = "D".repeat(400); // 101 tokens
    let ws = "W".repeat(40); // 11 tokens
    let (d, w) = trim_context(&dep, &ws, 60);
    assert_eq!(w, ws);
    assert!(d.starts_with("\u{27ea} Truncated dependency context (101 tokens). Use MCP tools to retrieve. \u{27eb}\n\n"));
}

#[test]
fn estimate_tokens_exact_values() {
    assert_eq!(estimate_tokens(""), 1);
    assert_eq!(estimate_tokens("abcd"), 2);
    assert_eq!(estimate_tokens("```\nabcdefghij\n```"), 15);
}

#[test]
fn task_prompt_layout() {
    let system = cleanroom::prompt::system_prompt::GeneratedPrompt { text: "SYS".to_string(), estimated_tokens: 10 };
    let budget = TokenBudget { effective_max: 18700, tool_response_reserve: 2000 };
    let p = build_task_prompt(&system, "do it", "deps", "ws", &budget);
    assert_eq!(
        p.text,
        "SYS\n\n---\n\nDEPENDENCY CONTEXT:\ndeps\n\n---\n\nCURRENT TASK:\ndo it\n\n---\n\nWORKING SET:\nws"
    );
    assert_eq!(p.estimated_tokens, estimate_tokens(&p.text));
}

#[test]
fn token_budget_fit_and_remaining() {
    let budget = TokenBudget { effective_max: 18700, tool_response_reserve: 2000 };
    assert!(budget.can_fit(0, 15000));
    assert!(!budget.can_fit(0, 20000));
    assert_eq!(budget.remaining_budget(5000, 1000), 10700);
    assert_eq!(budget.remaining_budget(20000, 0), 0);
}

#[test]
fn fit_items_keeps_must_and_collapses_trimmed() {
    let budget = TokenBudget { effective_max: 18700, tool_response_reserve: 2000 };
    let items = vec![
        ContextItem::new("sdef://low1", &"L".repeat(60000), Priority::Low),
        ContextItem::new("sdef://core", &"X".repeat(2000), Priority::Must),
        ContextItem::new("sdef://low2", &"L".repeat(60000), Priority::Low),
        ContextItem::new("sdef://opt", &"O".repeat(100000), Priority::Optional),
        ContextItem::new("sdef://high", "small", Priority::High),
    ];
    let result = budget.fit_items(5000, 1000, items);
    let uris: Vec<&str> = result.included.iter().map(|i| i.uri.as_str()).collect();
    assert_eq!(uris, vec!["sdef://core", "sdef://high"]);
    assert_eq!(result.total_tokens, 501 + 2);
    assert_eq!(result.trimmed.len(), 2);
    assert_eq!(result.trimmed[0].uri, "collapsed_Low");
    assert_eq!(result.trimmed[0].count_hint, Some(2));
    assert_eq!(result.trimmed[1].uri, "collapsed_Optional");
    assert_eq!(result.trimmed[1].count_hint, Some(1));
    assert_eq!(
        result.trimmed[0].to_placeholder(),
        "\u{27ea} 2 items of priority Low omitted (budget). Use MCP tools to retrieve. \u{27eb}"
    );
    assert_eq!(
        result.trimmed[1].to_placeholder(),
        "\u{27ea} Item 'collapsed_Optional' omitted (budget). Use MCP tools to retrieve. \u{27eb}"
    );
}

#[test]
fn fit_items_without_must_stays_within_budget() {
    let budget = TokenBudget { effective_max: 1000, tool_response_reserve: 100 };
    let items = vec![
        ContextItem::new("a", &"a".repeat(2000), Priority::High),
        ContextItem::new("b", &"b".repeat(1000), Priority::Medium),
        ContextItem::new("c", &"c".repeat(1000), Priority::Medium),
    ];
    let result = budget.fit_items(100, 100, items);
    assert!(result.total_tokens <= 700);
    assert_eq!(result.included.len() + result.trimmed.iter().map(|t| t.count_hint.unwrap()).sum::<usize>(), 3);
}

#[test]
fn placeholders_empty_when_nothing_trimmed() {
    assert_eq!(build_trimmed_placeholders(&[]), "");
}

#[test]
fn response_parser_helpers() {
    assert_eq!(find_matching_brace("{\"a\": {\"b\": \"}\"}} tail"), Some(16));
    assert_eq!(find_matching_brace("{ unclosed"), None);
    assert_eq!(find_matching_brace("{\u{e9}}"), Some(3));
    assert!(is_known_tool("resolve_name"));
    assert!(!is_known_tool("unknown_command"));
    assert_eq!(extract_error_message("all good\nERROR: disk full  \nmore"), "ERROR: disk full");
    assert_eq!(extract_error_message("first line\nsecond"), "first line");
    assert_eq!(extract_error_message(""), "Unknown error");
    assert!(is_likely_question("  What database do you use?  "));
    assert!(!is_likely_question("Is this {json}?"));
    assert!(!is_likely_question("no question here"));
    let config = ParserConfig::default();
    assert_eq!(config.max_retries, 3);
    assert_eq!(config.min_response_chars, 5);
    assert!(config.auto_fix);
}

#[test]
fn test_extract_json_fenced() {
    let raw = "Here is output:\n```json\n{\"name\": \"test\"}\n```\nDone.";
    let blocks = cleanroom::prompt::response_parser::extract_json_blocks(raw);
    assert_eq!(blocks.len(), 1);
    assert_eq!(blocks[0]["name"], "test");
}

#[test]
fn test_extract_json_inline() {
    let raw = "Result: {\"entities\": [{\"type\": \"data_model\"}]}";
    let blocks = cleanroom::prompt::response_parser::extract_json_blocks(raw);
    assert_eq!(blocks.len(), 1);
}

#[test]
fn test_extract_tool_calls() {
    let raw = r#"I'll call resolve_name({"document_name":"test","sdef_uri":"sdef://x","language":"rust","symbol_type":"class"})"#;
    let calls = cleanroom::prompt::response_parser::extract_tool_calls(raw);
    assert_eq!(calls.len(), 1);
    assert_eq!(calls[0].name, "resolve_name");
}

#[test]
fn test_parse_complete_task() {
    let raw = "```json\n{\"entities\": [{\"type\": \"data_model\"}], \"summary\": \"ok\"}\n```";
    let config = ParserConfig::default();
    let result = cleanroom::prompt::response_parser::parse_response(raw, 0, &config).unwrap();
    assert!(result.parse_success);
    assert_eq!(result.entities.len(), 1);
}

#[test]
fn test_parse_unknown_tool_ignored() {
    let raw = "unknown_command with some text but no JSON at all";
    let config = ParserConfig::default();
    let result = cleanroom::prompt::response_parser::parse_response(raw, 0, &config);
    assert!(result.is_err(), "Text without JSON or tools should error on first parse");
}

#[test]
fn parse_response_branches() {
    let config = ParserConfig::default();
    assert!(matches!(parse_response("anything", 4, &config), Err(ParseError::MaxRetriesExceeded(3))));
    assert!(matches!(parse_response("   \n ", 0, &config), Err(ParseError::EmptyResponse)));
    assert!(matches!(parse_response("abc", 0, &config), Err(ParseError::TruncatedResponse(3))));
    match parse_response("Build failed.\nError: missing crate", 0, &config) {
        Ok(p) => match p.action {
            AgentAction::FailTask { task_id, error } => {
                assert_eq!(task_id, "");
                assert_eq!(error, "Build failed.");
            }
            _ => panic!("expected a failure report"),
        },
        Err(_) => panic!("expected a parse"),
    }
    match parse_response("  Which database should I use?  ", 0, &config) {
        Ok(p) => match p.action {
            AgentAction::RequestClarification { question } => assert_eq!(question, "Which database should I use?"),
            _ => panic!("expected a question"),
        },
        Err(_) => panic!("expected a parse"),
    }
    match parse_response("plain words only", 3, &config) {
        Ok(p) => match p.action {
            AgentAction::CompleteTask { output, .. } => assert_eq!(output["raw_output"], "plain words only"),
            _ => panic!("expected raw output"),
        },
        Err(_) => panic!("expected a parse"),
    }
    match parse_response("call get_task({\"task_id\": \"t1\"}) now", 0, &config) {
        Ok(p) => match p.action {
            AgentAction::CallTools(calls) => {
                assert_eq!(calls.len(), 1);
                assert_eq!(calls[0].name, "get_task");
                assert_eq!(calls[0].arguments["task_id"], "t1");
            }
            _ => panic!("expected tool calls"),
        },
        Err(_) => panic!("expected a parse"),
    }
}

#[test]
fn merge_of_several_blocks_keeps_later_members() {
    let blocks = vec![serde_json::from_str("{\"a\": 1, \"b\": 2}").unwrap(), serde_json::from_str("{\"b\": 3}").unwrap()];
    let merged = merge_json_blocks(&blocks);
    assert_eq!(merged["a"], 1);
    assert_eq!(merged["b"], 3);
}
