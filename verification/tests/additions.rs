use cleanroom::completeness::{cross_verdict, dependency_verdict, entity_verdict, file_coverage_warnings, interface_verdict};
use cleanroom::consistency::{ConsistencyService, Inconsistency};
use cleanroom::degradation::DegradationMode;
use cleanroom::lsp::{encode_message, header_step, HeaderStep};
use cleanroom::dependency_graph::{DepEdgeKind, DepNode, DepNodeType, DependencyGraph};
use cleanroom::incremental_analysis::{FileState, IncrementalAnalyzer};
use cleanroom::module_partitioner::{module_type_of_presence, ModuleType};
use cleanroom::progress::{count_statuses, TaskState};
use cleanroom::prompt::response_parser::{extract_json_blocks, extract_tool_calls, parse_response, AgentAction, ParserConfig};
use cleanroom::reviewer::{FingerprintLookup, ReviewerAgent, ReviewerConfig};

fn node(id: &str) -> DepNode {
    DepNode { id: id.to_string(), name: id.to_string(), node_type: DepNodeType::Module }
}

fn inconsistency(uri: &str) -> Inconsistency {
    Inconsistency {
        entity_uri: uri.to_string(),
        sdef_hash: Some("s".to_string()),
        db_hash: Some("d".to_string()),
        code_hash: Some("c".to_string()),
    }
}

#[test]
fn module_type_from_presence() {
    let ind = ["Cargo.toml", "package.json", "go.mod"];
    assert_eq!(module_type_of_presence(&ind, &[false, true, true]), ModuleType::NpmPackage);
    assert_eq!(module_type_of_presence(&ind, &[true, true, false]), ModuleType::CargoCrate);
    assert_eq!(module_type_of_presence(&ind, &[false, false, true]), ModuleType::GoModule);
    assert_eq!(module_type_of_presence(&ind, &[false, false, false]), ModuleType::Directory);
    assert_eq!(module_type_of_presence(&["pom.xml"], &[true]), ModuleType::Directory);
}

#[test]
fn file_hash_of_bytes() {
    assert_eq!(
        IncrementalAnalyzer::compute_file_hash(b"hello"),
        "2cf24dba5fb0a30e26e83b2ac5b9e29e1b161e5c1fa7425e73043362938b9824"
    );
    assert_eq!(IncrementalAnalyzer::compute_file_hash(b"hello world"), ConsistencyService::compute_hash("hello world"));
}

#[test]
fn diff_keeps_last_stored_row_and_lists_vanished_once() {
    let analyzer = IncrementalAnalyzer::new("doc");
    let stored = vec![
        ("file://a.rs".to_string(), "old".to_string()),
        ("file://a.rs".to_string(), "new".to_string()),
        ("file://gone.rs".to_string(), "1".to_string()),
        ("file://gone.rs".to_string(), "2".to_string()),
    ];
    let states = vec![FileState::Present { hash: "new".to_string(), file_name: "a.rs".to_string() }];
    let (diff, writes) = analyzer.diff(&stored, &vec!["a.rs".to_string()], &states);
    assert_eq!(diff.unchanged, vec!["a.rs".to_string()]);
    assert!(diff.modified.is_empty());
    assert_eq!(diff.deleted, vec!["gone.rs".to_string()]);
    assert!(writes.is_empty());
}

#[test]
fn new_node_is_isolated_and_counts_match() {
    let mut g = DependencyGraph::new();
    g.add_node(node("impl"));
    g.add_node(node("base"));
    g.add_edge("impl", "base", DepEdgeKind::Import);
    g.add_edge("impl", "base", DepEdgeKind::Import);
    g.add_edge("impl", "missing", DepEdgeKind::Import);
    g.add_node(node("base"));
    g.add_node(node("fresh"));
    assert_eq!(g.node_count(), 3);
    assert_eq!(g.edge_count(), 2);
    assert!(g.upstream("fresh").is_empty());
    assert!(g.downstream("fresh").is_empty());
    assert_eq!(g.upstream("impl").iter().filter(|n| n.id == "base").count(), 2);
    assert_eq!(g.downstream("base").iter().filter(|n| n.id == "impl").count(), 2);
}

#[test]
fn sdef_to_db_outcomes() {
    let svc = ConsistencyService::new();
    let inc = inconsistency("sdef://proj/data-models/User#User");
    let e = svc.sync_sdef_to_db_outcome(&inc, Err("no such file"), None, "now").unwrap_err();
    assert_eq!(e, "SyncSdefToDb: cannot read S.DEF file 'sdef-output/proj.sdef.json': no such file");
    let e = svc.sync_sdef_to_db_outcome(&inc, Ok("{"), Some("EOF while parsing"), "now").unwrap_err();
    assert_eq!(e, "SyncSdefToDb: failed to parse S.DEF file: EOF while parsing");
    let fp = svc.sync_sdef_to_db_outcome(&inc, Ok("{}"), None, "now").unwrap();
    assert_eq!(fp.sdef_hash, Some(ConsistencyService::compute_hash("{}")));
    assert_eq!(fp.db_hash, fp.sdef_hash);
    assert_eq!(fp.document_name, "proj");
}

#[test]
fn regenerate_code_task_input() {
    let svc = ConsistencyService::new();
    let t = svc.regenerate_code_task(&inconsistency("sdef://proj/data-models/User#User"), "2024-01-01T00:00:00+00:00");
    assert_eq!(t.task_type, "GENERATE_CODE");
    assert_eq!(t.status, TaskState::Pending);
    assert_eq!(t.retry_count, 0);
    assert_eq!(t.task_id.len(), 36);
    assert_eq!(t.dependencies_json, "[]");
    assert_eq!(t.version, 1);
    assert_eq!(t.created_at, "2024-01-01T00:00:00+00:00");
    assert_eq!(t.priority, 5);
    assert_eq!(t.max_retries, 3);
    assert_eq!(
        t.input,
        serde_json::from_str::<serde_json::Value>("{\"entity_uri\": \"sdef://proj/data-models/User#User\", \"document\": \"proj\"}")
            .unwrap()
    );
}

#[test]
fn status_counts() {
    let c = count_statuses(&[
        TaskState::Completed,
        TaskState::Failed,
        TaskState::FailedPermanently,
        TaskState::Pending,
        TaskState::InProgress,
        TaskState::Completed,
        TaskState::Other,
    ]);
    assert_eq!((c.completed, c.in_progress, c.pending, c.failed, c.total), (2, 1, 1, 2, 7));
    let e = count_statuses(&[]);
    assert_eq!(e.total, 0);
}

#[test]
fn parse_complete_task_content() {
    let raw = "```json\n{\"entities\": [{\"type\": \"data_model\"}], \"summary\": \"ok\"}\n```";
    let config = ParserConfig { max_retries: 3, min_response_chars: 5, auto_fix: false };
    let r = parse_response(raw, 0, &config).unwrap();
    assert!(r.parse_success);
    assert_eq!(r.raw_text, raw);
    assert_eq!(r.retries_used, 0);
    assert_eq!(r.entities, vec![serde_json::from_str::<serde_json::Value>("{\"type\": \"data_model\"}").unwrap()]);
    match r.action {
        AgentAction::CompleteTask { task_id, output } => {
            assert_eq!(task_id, "");
            assert_eq!(
                output,
                serde_json::from_str::<serde_json::Value>(
                    "{\"entities\": [{\"type\": \"data_model\"}], \"summary\": \"ok\"}"
                )
                .unwrap()
            );
        }
        _ => panic!("expected CompleteTask"),
    }
}

#[test]
fn json_blocks_and_merge() {
    let blocks = extract_json_blocks("```json\n{\"a\": 1}\n```\ntext\n```json\n{\"b\": [2]}\n```");
    assert_eq!(blocks.len(), 2);
    assert_eq!(blocks[1], serde_json::from_str::<serde_json::Value>("{\"b\": [2]}").unwrap());
    let inline = extract_json_blocks("Result: {\"x\": \"}\"} done");
    assert_eq!(inline, vec![serde_json::from_str::<serde_json::Value>("{\"x\": \"}\"}").unwrap()]);
    let raw = "```json\n{\"a\": 1}\n```\n```json\n{\"b\": 2, \"a\": 3}\n```";
    let config = ParserConfig { max_retries: 3, min_response_chars: 5, auto_fix: false };
    match parse_response(raw, 0, &config).unwrap().action {
        AgentAction::CompleteTask { output, .. } => {
            assert_eq!(output, serde_json::from_str::<serde_json::Value>("{\"a\": 3, \"b\": 2}").unwrap());
        }
        _ => panic!("expected CompleteTask"),
    }
}

#[test]
fn tool_call_arguments_wrapped() {
    let calls = extract_tool_calls("resolve_name({\"uri\": \"sdef://x\"})");
    assert_eq!(calls.len(), 1);
    assert_eq!(calls[0].name, "resolve_name");
    assert_eq!(calls[0].arguments, serde_json::from_str::<serde_json::Value>("{\"uri\": \"sdef://x\"}").unwrap());
}

#[test]
fn last_retry_takes_text_whole() {
    let config = ParserConfig { max_retries: 1, min_response_chars: 1, auto_fix: false };
    let r = parse_response("plain words only", 1, &config).unwrap();
    match r.action {
        AgentAction::CompleteTask { output, .. } => {
            assert_eq!(output, serde_json::from_str::<serde_json::Value>("{\"raw_output\": \"plain words only\"}").unwrap());
        }
        _ => panic!("expected CompleteTask"),
    }
}

#[test]
fn reviewer_paths_and_equal_hashes() {
    let agent = ReviewerAgent::new(ReviewerConfig::default(), "out");
    assert_eq!(agent.generated_file_path(Some("user.py")), "out/user.py");
    assert_eq!(agent.module_file_path("mod_a"), "out/mod_a");
    let h = "é".repeat(5);
    let r = ReviewerAgent::roundtrip_report("sdef://p/x", "p", &FingerprintLookup::Found(Some(h.clone()), Some(h), None));
    assert!(r.approved);
}

#[test]
fn task_input_fields() {
    let input = "{\"entity_uri\": \"sdef://p/x\", \"count\": 3}";
    assert_eq!(ReviewerAgent::task_field(input, "entity_uri"), "sdef://p/x");
    assert_eq!(ReviewerAgent::task_field(input, "document_name"), "unknown");
    assert_eq!(ReviewerAgent::task_field(input, "count"), "unknown");
    assert_eq!(ReviewerAgent::task_field("not json", "entity_uri"), "unknown");
}

#[test]
fn test_validate_data_model_missing() {
    let agent = ReviewerAgent::new(ReviewerConfig::default(), "/tmp");
    let input = r#"{"entity": "User", "code_path": "nonexistent.rs"}"#;
    let entity = ReviewerAgent::task_field(input, "entity");
    let code_path = ReviewerAgent::task_field(input, "code_path");
    let full_path = agent.generated_file_path(Some(code_path.as_str()));
    assert_eq!(full_path, "/tmp/nonexistent.rs");
    let report = ReviewerAgent::generated_file_missing(&entity, &full_path, "No such file or directory (os error 2)");
    assert!(!report.approved);
    assert!(!report.issues.is_empty());
    assert_eq!(report.issues[0], "Generated file not found: /tmp/nonexistent.rs (No such file or directory (os error 2))");
    assert_eq!(report.suggested_fixes[0], "Re-generate code for entity 'User'");
}

#[test]
fn decode_steps_read_back_a_frame() {
    let framed = String::from_utf8(encode_message("{\"id\":1,\"x\":\"é\"}")).unwrap();
    let mut lines = framed.split_inclusive('\n');
    let first = lines.next().unwrap();
    let second = lines.next().unwrap();
    let s1 = header_step(None, Some(first));
    assert_eq!(s1, HeaderStep::Continue(Some(17)));
    let s2 = header_step(Some(17), Some(second));
    assert_eq!(s2, HeaderStep::ReadBody(17));
    assert_eq!(header_step(None, None), HeaderStep::EndOfStream);
    assert_eq!(header_step(None, Some("\r\n")), HeaderStep::Failed("Missing Content-Length header".to_string()));
    assert_eq!(header_step(Some(3), Some("Content-Type: json\r\n")), HeaderStep::Continue(Some(3)));
    assert_eq!(
        header_step(None, Some("Content-Length: abc\r\n")),
        HeaderStep::Failed("abc".parse::<usize>().unwrap_err().to_string())
    );
    assert_eq!(
        header_step(None, Some("Content-Length: 99999999999999999999999\r\n")),
        HeaderStep::Failed("99999999999999999999999".parse::<usize>().unwrap_err().to_string())
    );
    assert_eq!(
        header_step(None, Some("Content-Length: +\r\n")),
        HeaderStep::Failed("+".parse::<usize>().unwrap_err().to_string())
    );
    assert_eq!(
        header_step(None, Some("Content-Length: 1x9\r\n")),
        HeaderStep::Failed("1x9".parse::<usize>().unwrap_err().to_string())
    );
}

#[test]
fn no_lsp_modes_compare_as_sets() {
    assert_eq!(DegradationMode::no_lsp_strict(&["rust", "go"]), DegradationMode::no_lsp_strict(&["go", "rust"]));
    assert_ne!(DegradationMode::no_lsp_strict(&["rust"]), DegradationMode::no_lsp_with_fallback(&["rust"]));
    assert_ne!(DegradationMode::no_lsp_strict(&["rust"]), DegradationMode::no_lsp_strict(&["rust", "go"]));
}

#[test]
fn levels_skip_an_unreached_cycle() {
    let mut g = DependencyGraph::new();
    for id in ["root", "x", "a", "b", "y"] {
        g.add_node(node(id));
    }
    g.add_edge("x", "root", DepEdgeKind::Import);
    g.add_edge("a", "b", DepEdgeKind::Import);
    g.add_edge("b", "a", DepEdgeKind::Import);
    g.add_edge("y", "x", DepEdgeKind::Import);
    g.add_edge("y", "a", DepEdgeKind::Import);
    let levels = g.levels();
    assert_eq!(
        levels,
        vec![("root".to_string(), 0), ("x".to_string(), 1), ("y".to_string(), 2)]
    );
}

#[test]
fn completeness_layer_verdicts() {
    assert_eq!(file_coverage_warnings(2, 1), vec!["2 tasks failed analysis".to_string(), "1 tasks still pending".to_string()]);
    assert!(file_coverage_warnings(0, 0).is_empty());
    let d = dependency_verdict(3, 1);
    assert!(!d.passed);
    assert_eq!(d.warnings, vec!["3 symbols with no matching data model".to_string()]);
    assert!(dependency_verdict(0, 1).passed);
    assert!(!dependency_verdict(0, 0).passed);
    let i = interface_verdict(2, 0);
    assert!(!i.passed);
    assert_eq!(i.warnings, vec!["Contracts exist but no methods defined".to_string()]);
    assert!(interface_verdict(0, 0).passed);
    let e = entity_verdict(1, 2, 1);
    assert!(!e.passed);
    assert_eq!(e.warnings, vec!["1 attributes missing type information".to_string()]);
    let e0 = entity_verdict(1, 0, 0);
    assert_eq!(e0.warnings, vec!["Data models exist but no attributes defined".to_string()]);
    assert!(entity_verdict(1, 2, 2).passed);
    let c = cross_verdict(3, 1, false);
    assert!(!c.passed);
    assert_eq!(
        c.warnings,
        vec![
            "2 functions without logic/behavior description".to_string(),
            "Functions exist but no function symbols registered".to_string()
        ]
    );
    assert!(cross_verdict(0, 0, false).passed);
}
