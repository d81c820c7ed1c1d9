use cleanroom::agent::{AgentConfig, RunMode};
use cleanroom::cli::{format_kv, format_list, format_section};
use cleanroom::orchestrator::OrchestratorConfig;
use cleanroom::recovery::RecoveryReport;
use cleanroom::reviewer::{AttributeSpec, FingerprintLookup, ReviewReport, ReviewerAgent, ReviewerConfig};

#[test]
fn test_recovery_report_had_issues() {
    let mut report = RecoveryReport::default();
    assert!(!report.had_issues());

    report.stuck_tasks = 5;
    assert!(report.had_issues());
}

#[test]
fn permanent_failures_count_as_issues() {
    let report = RecoveryReport { permanently_failed: 2, ..RecoveryReport::default() };
    assert!(report.had_issues());
}

#[test]
fn test_agent_config_default() {
    let config = AgentConfig::default();
    assert_eq!(config.agent_name, "cleanroom-agent");
    assert!(config.model_name.is_some());
    assert!(config.system_prompt.is_some());
}

#[test]
fn test_run_mode_debug() {
    let mode = RunMode::Produce {
        repo_path: "/tmp/repo".to_string(),
        output_path: "/tmp/output".to_string(),
        project_name: "test".to_string(),
    };
    let debug = format!("{:?}", mode);
    assert!(debug.contains("Produce"));
    assert!(debug.contains("/tmp/repo"));
}

#[test]
fn test_agent_config_constructor() {
    let config = AgentConfig {
        db_path: ":memory:".to_string(),
        model_name: Some("gpt-4".to_string()),
        system_prompt: Some("Test prompt".to_string()),
        agent_name: "custom-agent".to_string(),
    };
    assert_eq!(config.agent_name, "custom-agent");
    assert_eq!(config.model_name.unwrap(), "gpt-4");
    assert_eq!(config.system_prompt.unwrap(), "Test prompt");
}

#[test]
fn orchestrator_defaults() {
    let c = OrchestratorConfig::default();
    assert_eq!(c.repo_path, ".");
    assert_eq!(c.output_path, "./output");
    assert_eq!(c.db_path, "state.db");
    assert_eq!(c.project_name, "unnamed");
    assert_eq!(c.checkpoint_interval_secs, 600);
    assert_eq!(c.agent_idle_timeout_secs, 300);
}

#[test]
fn cli_formatting() {
    assert_eq!(format_kv("Files", "12"), format!("  {:<30} {}", "Files", "12"));
    assert_eq!(format_kv(&"k".repeat(35), "v"), format!("  {} v", "k".repeat(35)));
    assert_eq!(format_section("Summary"), "\n\u{2500}\u{2500}\u{2500} Summary \u{2500}\u{2500}\u{2500}");
    assert_eq!(format_list(&["a".to_string(), "b".to_string()]), "    \u{2022} a\n    \u{2022} b");
    assert_eq!(format_list(&[]), "");
}

fn attr(name: &str, t: &str) -> AttributeSpec {
    AttributeSpec { name: name.to_string(), attr_type: t.to_string(), description: None, required: true, identity: false }
}

#[test]
fn reviewer_reports() {
    let agent = ReviewerAgent::new(ReviewerConfig::default(), "/tmp");
    assert!(agent.agent_id().starts_with("validator-"));
    assert_eq!(agent.agent_id().len(), 46);

    let attrs = vec![attr("id", "UUID"), attr("email", "string")];
    let r = agent.check_data_model("User", &attrs, "struct User { id: Uuid }");
    assert!(!r.approved);
    assert_eq!(r.issues, vec!["Missing field 'email' (type: string) in generated code for entity 'User'".to_string()]);
    assert_eq!(r.suggested_fixes, vec!["Add field 'email': string to entity 'User'".to_string()]);
    assert_eq!((r.files_checked, r.entities_checked), (1, 1));
    let r = agent.check_data_model("User", &attrs, "id email");
    assert!(r.approved);

    let r = ReviewerAgent::data_model_not_found("User");
    assert_eq!(r.issues, vec!["Data model 'User' not found in database".to_string()]);
    let r = ReviewerAgent::generated_file_missing("User", "/tmp/x.rs", "gone");
    assert_eq!(r.issues, vec!["Generated file not found: /tmp/x.rs (gone)".to_string()]);
    assert_eq!(r.suggested_fixes, vec!["Re-generate code for entity 'User'".to_string()]);

    let lookup = FingerprintLookup::Found(Some("abcdef0123456789".to_string()), Some("ffff".to_string()), None);
    let r = ReviewerAgent::roundtrip_report("sdef://d/U", "d", &lookup);
    assert_eq!(r.issues, vec!["S.DEF hash (abcdef01) does not match DB hash (ffff) for sdef://d/U".to_string()]);
    let r = ReviewerAgent::roundtrip_report("sdef://d/U", "d", &FingerprintLookup::NoRow);
    assert_eq!(r.issues, vec!["No fingerprint found for entity 'sdef://d/U' in document 'd'".to_string()]);
    let same = FingerprintLookup::Found(Some("aa".to_string()), Some("aa".to_string()), None);
    assert!(ReviewerAgent::roundtrip_report("u", "d", &same).approved);

    let r = ReviewerAgent::cross_file_report(
        &vec!["a.rs".to_string(), "b.rs".to_string()],
        &vec!["/out/a.rs".to_string(), "/out/b.rs".to_string()],
        &vec![true, false],
    );
    assert!(!r.approved);
    assert_eq!(r.issues, vec!["Module file not found: /out/b.rs".to_string()]);
    assert_eq!(r.suggested_fixes, vec!["Generate module file: b.rs".to_string()]);
    assert_eq!((r.files_checked, r.entities_checked), (1, 1));

    let p = ReviewReport::pass(2, 3);
    assert!(p.approved && p.issues.is_empty());
}
