use cleanroom::consistency::ConsistencyService;
use cleanroom::i18n::{flatten_value, Lang, LocaleValue, Translator};
use cleanroom::incremental_analysis::{FileState, IncrementalAnalyzer, WriteKind};
use cleanroom::lsp::{default_lsp_configs, encode_message, read_header_line, HeaderLine};
use cleanroom::retry::{after_failure, capped_backoff_ms, RetryConfig, RetryStep};
use cleanroom::workflow_signal::WorkflowSignal;

fn object(children: Vec<(&str, LocaleValue)>) -> LocaleValue {
    LocaleValue::Object(children.into_iter().map(|(k, v)| (k.to_string(), v)).collect())
}

fn text(s: &str) -> LocaleValue {
    LocaleValue::Text(s.to_string())
}

fn english() -> LocaleValue {
    object(vec![
        (
            "cli",
            object(vec![
                ("app_about", text("Cleanroom Agent — S.DEF intelligent agent system")),
                ("produce_about", text("Production mode: analyze a repository → output S.DEF")),
                ("produce_complete", text("Production completed for '{0}'")),
            ]),
        ),
        (
            "mcp",
            object(vec![
                ("create_task", text("Create a new task")),
                ("get_data_model", text("Get a data model")),
                ("resolve_name", text("Resolve a name")),
                ("export_sdef", text("Export S.DEF")),
                ("check_consistency", text("Check consistency")),
                ("begin_transaction", text("Begin a transaction")),
            ]),
        ),
    ])
}

fn chinese() -> LocaleValue {
    object(vec![
        ("cli", object(vec![("produce_about", text("生产模式：分析代码仓库 → 输出 S.DEF"))])),
        (
            "mcp",
            object(vec![
                ("create_task", text("创建新任务")),
                ("get_data_model", text("获取数据模型")),
                ("resolve_name", text("解析名称")),
                ("export_sdef", text("导出 S.DEF")),
                ("check_consistency", text("一致性检查")),
                ("begin_transaction", text("开始事务")),
            ]),
        ),
    ])
}

#[test]
fn test_english_translator() {
    let t = Translator::new(Lang::En, &english(), &english());
    assert_eq!(t.translate("cli.app_about"), "Cleanroom Agent — S.DEF intelligent agent system");
}

#[test]
fn test_chinese_translator() {
    let t = Translator::new(Lang::ZhCn, &chinese(), &english());
    assert_eq!(t.translate("cli.produce_about"), "生产模式：分析代码仓库 → 输出 S.DEF");
    // A key the Chinese locale lacks falls back to English.
    assert_eq!(t.translate("cli.app_about"), "Cleanroom Agent — S.DEF intelligent agent system");
}

#[test]
fn test_translate_with_args() {
    let t = Translator::new(Lang::En, &english(), &english());
    let s = t.translate_with_args("cli.produce_complete", &["my-project".to_string()]);
    assert_eq!(s, "Production completed for 'my-project'");
}

#[test]
fn test_key_fallback_to_english() {
    let t = Translator::new(Lang::ZhCn, &chinese(), &english());
    let s = t.translate("nonexistent.key");
    assert_eq!(s, "nonexistent.key");
}

#[test]
fn test_mcp_descriptions_exist() {
    let t_en = Translator::new(Lang::En, &english(), &english());
    let t_zh = Translator::new(Lang::ZhCn, &chinese(), &english());

    let tools = [
        "mcp.create_task", "mcp.get_data_model", "mcp.resolve_name",
        "mcp.export_sdef", "mcp.check_consistency", "mcp.begin_transaction",
    ];

    for key in &tools {
        let en = t_en.translate(key);
        let zh = t_zh.translate(key);
        assert_ne!(en, *key, "English key '{}' not found", key);
        assert_ne!(zh, *key, "Chinese key '{}' not found", key);
    }
}

#[test]
fn test_lang_codes() {
    assert_eq!(Lang::from_str("zh_CN.UTF-8"), Lang::ZhCn);
    assert_eq!(Lang::from_str("Chinese"), Lang::ZhCn);
    assert_eq!(Lang::from_str("en_US"), Lang::En);
    assert_eq!(Lang::all(), vec![Lang::En, Lang::ZhCn]);
    assert_eq!(Lang::ZhCn.display_name(), "中文");
    assert_eq!(Lang::ZhCn.display_name(), "中文");
    let t = Translator::new(Lang::ZhCn, &chinese(), &english());
    assert_eq!(t.lang(), Lang::ZhCn);
}

#[test]
fn test_flatten_nested_locale() {
    let v = object(vec![
        ("a", object(vec![("b", text("x")), ("n", LocaleValue::Other("42".to_string()))])),
        ("c", text("y")),
    ]);
    let flat = flatten_value(&v, "");
    assert_eq!(
        flat,
        vec![
            ("a.b".to_string(), "x".to_string()),
            ("a.n".to_string(), "42".to_string()),
            ("c".to_string(), "y".to_string()),
        ]
    );
}

#[test]
fn test_calculate_backoff_grows() {
    let b1 = capped_backoff_ms(1000, 60_000, 1);
    let b2 = capped_backoff_ms(1000, 60_000, 2);
    assert_eq!(b1, 1000);
    assert_eq!(b2, 2000);
    assert!(b2 as u128 <= 60_000u128 + 100);
}

#[test]
fn test_calculate_backoff_capped() {
    let b10 = capped_backoff_ms(1000, 60_000, 10);
    assert!(b10 as u128 <= 60_000u128 * 2);
    assert_eq!(b10, 60_000);
    assert_eq!(capped_backoff_ms(u64::MAX, u64::MAX, 64), u64::MAX);
    assert_eq!(capped_backoff_ms(500, 10_000, 0), 500);
}

#[test]
fn test_retry_decisions() {
    assert_eq!(after_failure(0, 3), RetryStep::Retry { attempt: 1 });
    assert_eq!(after_failure(1, 3), RetryStep::Retry { attempt: 2 });
    assert_eq!(after_failure(2, 3), RetryStep::GiveUp);
    assert_eq!(after_failure(0, 0), RetryStep::GiveUp);
    assert_eq!(after_failure(5, 2), RetryStep::GiveUp);
}

#[test]
fn test_lsp_framing_roundtrip() {
    let body = "{\"id\":1,\"name\":\"é\"}";
    let bytes = encode_message(body);
    let text = String::from_utf8(bytes).unwrap();
    assert_eq!(text, format!("Content-Length: {}\r\n\r\n{}", body.len(), body));
    let header = text.split("\r\n").next().unwrap();
    assert_eq!(read_header_line(header), HeaderLine::ContentLength(body.len()));
    assert_eq!(read_header_line("\r\n"), HeaderLine::End);
    assert_eq!(read_header_line("Content-Length: x12"), HeaderLine::BadLength);
    assert_eq!(read_header_line("Content-Type: application/json"), HeaderLine::Other);
}

#[test]
fn test_default_lsp_configs() {
    let configs = default_lsp_configs();
    assert!(configs.iter().any(|c| c.language_id == "rust" && c.command == "rust-analyzer"));
    assert!(configs.iter().all(|c| !c.extensions.is_empty()));
}

#[test]
fn test_compute_file_hash() {
    let hash = ConsistencyService::compute_hash("hello world");
    assert!(!hash.is_empty());
    assert_eq!(hash.len(), 64);
    let hash2 = ConsistencyService::compute_hash("hello world");
    assert_eq!(hash, hash2);
    assert_eq!(hash, "b94d27b9934d3e08a52e52d7da7dabfac484efe37a5380ee9088f7ace2efcde9");
}

#[test]
fn test_empty_diff() {
    let analyzer = IncrementalAnalyzer::new("test");
    let (diff, writes) = analyzer.diff(&vec![], &vec![], &vec![]);
    assert_eq!(diff.total, 0);
    assert!(diff.added.is_empty());
    assert!(diff.unchanged.is_empty());
    assert!(writes.is_empty());
    assert!(!analyzer.has_changes(&diff));
}

#[test]
fn test_new_file_detected_as_added() {
    let analyzer = IncrementalAnalyzer::new("test");
    let path = "/tmp/cleanroom_new_file.rs".to_string();
    let hash = ConsistencyService::compute_hash("pub fn test() {}");
    let state = || FileState::Present { hash: hash.clone(), file_name: "cleanroom_new_file.rs".to_string() };
    let (diff, writes) = analyzer.diff(&vec![], &vec![path.clone()], &vec![state()]);
    assert_eq!(diff.added.len(), 1);
    assert!(analyzer.has_changes(&diff));
    assert_eq!(writes.len(), 1);
    assert_eq!(writes[0].kind, WriteKind::Insert);

    // Second run, over the fingerprints the first one wrote: unchanged.
    let stored: Vec<(String, String)> = writes.iter().map(|w| (w.uri.clone(), w.hash.clone())).collect();
    let (diff2, _) = analyzer.diff(&stored, &vec![path], &vec![state()]);
    assert_eq!(diff2.unchanged.len(), 1);
    assert!(!analyzer.has_changes(&diff2));
}

#[test]
fn test_deleted_and_modified_files() {
    let analyzer = IncrementalAnalyzer::new("doc");
    let stored = vec![
        ("file://a.rs".to_string(), "h1".to_string()),
        ("file://gone.rs".to_string(), "h2".to_string()),
    ];
    let states = vec![FileState::Present { hash: "h9".to_string(), file_name: "a.rs".to_string() }];
    let (diff, writes) = analyzer.diff(&stored, &vec!["a.rs".to_string()], &states);
    assert_eq!(diff.modified, vec!["a.rs".to_string()]);
    assert_eq!(diff.deleted, vec!["gone.rs".to_string()]);
    assert_eq!(writes[0].kind, WriteKind::Update);
    assert_eq!(analyzer.document_name(), "doc");
}

use cleanroom::lsp::LspConfig;
use cleanroom::lsp_pool::{LspPoolError, LspServerPool, ServerAccess};

fn lsp_config(lang: &str, idle: u64) -> LspConfig {
    LspConfig {
        language_id: lang.to_string(),
        command: format!("{}-ls", lang),
        args: vec![],
        extensions: vec![lang.to_string()],
        idle_timeout_secs: idle,
    }
}

#[test]
fn test_pool_defaults() {
    let pool = LspServerPool::new();
    assert_eq!(pool.max_concurrent(), 4);
    assert_eq!(pool.running_count(), 0);
}

#[test]
fn test_pool_start_reuse_and_limit() {
    let mut pool = LspServerPool::with_configs(vec![lsp_config("rust", 60), lsp_config("go", 60), lsp_config("c", 60)]);
    pool.set_max_concurrent(2);
    match pool.get_server("rust", 0) {
        Ok(ServerAccess::Start(cfg)) => assert_eq!(cfg.command, "rust-ls"),
        other => panic!("expected a start, got {:?}", other),
    }
    assert!(matches!(pool.get_server("rust", 10), Ok(ServerAccess::Running)));
    assert!(matches!(pool.get_server("go", 20), Ok(ServerAccess::Start(_))));
    match pool.get_server("c", 30) {
        Err(LspPoolError::ServerNotAvailable(m)) => assert_eq!(m, "Max concurrent servers (2) reached"),
        other => panic!("expected the limit, got {:?}", other),
    }
    assert_eq!(pool.running_count(), 2);
    pool.stop_server("go").unwrap();
    match pool.get_server("cobol", 40) {
        Err(LspPoolError::UnsupportedLanguage(l)) => assert_eq!(l, "cobol"),
        other => panic!("expected unsupported, got {:?}", other),
    }
    assert_eq!(pool.stop_all(), vec!["rust".to_string()]);
    assert_eq!(pool.running_count(), 0);
}

#[test]
fn test_pool_idle_sweep() {
    let mut pool = LspServerPool::with_configs(vec![lsp_config("rust", 2), lsp_config("go", 5)]);
    pool.get_server("rust", 0).unwrap();
    pool.get_server("go", 0).unwrap();
    assert!(pool.idle_sweep(1_999).is_empty());
    assert_eq!(pool.idle_sweep(2_000), vec!["rust".to_string()]);
    pool.touch_server("go", 4_000);
    assert!(pool.idle_sweep(8_999).is_empty());
    assert_eq!(pool.idle_sweep(9_000), vec!["go".to_string()]);
    assert_eq!(pool.running_count(), 0);
}

#[test]
fn test_pool_register_replaces_config() {
    let mut pool = LspServerPool::with_configs(vec![lsp_config("rust", 60), lsp_config("rust", 5)]);
    pool.register_config(lsp_config("zig", 1));
    match pool.get_server("rust", 0) {
        Ok(ServerAccess::Start(cfg)) => assert_eq!(cfg.idle_timeout_secs, 5),
        other => panic!("expected a start, got {:?}", other),
    }
    assert!(matches!(pool.get_server("zig", 0), Ok(ServerAccess::Start(_))));
    assert_eq!(pool.shutdown().len(), 2);
}

#[test]
fn test_signal_initial_state() {
    let signal = WorkflowSignal::new();
    assert!(!signal.is_paused());
}

#[test]
fn test_signal_pause_resume() {
    let mut signal = WorkflowSignal::new();
    signal.pause();
    assert!(signal.is_paused());
    signal.resume();
    assert!(!signal.is_paused());
}

#[test]
fn signal_pause_is_idempotent() {
    let mut signal = WorkflowSignal::new();
    signal.pause();
    signal.pause();
    assert!(signal.is_paused());
    signal.resume();
    signal.resume();
    assert!(!signal.is_paused());
}

#[test]
fn test_fast_config_is_shorter() {
    let fast = RetryConfig::fast();
    let default = RetryConfig::default();
    assert!(fast.max_attempts < default.max_attempts);
    assert!(fast.initial_backoff_ms < default.initial_backoff_ms);
}

#[test]
fn test_llm_api_config_is_longer() {
    let llm = RetryConfig::llm_api();
    let default = RetryConfig::default();
    assert!(llm.initial_backoff_ms >= default.initial_backoff_ms);
}

#[test]
fn retry_config_values() {
    let d = RetryConfig::default();
    assert_eq!((d.max_attempts, d.initial_backoff_ms, d.max_backoff_ms, d.jitter_permille), (5, 1000, 60_000, 200));
    let f = RetryConfig::fast();
    assert_eq!((f.max_attempts, f.initial_backoff_ms, f.max_backoff_ms, f.jitter_permille), (3, 500, 10_000, 200));
    let l = RetryConfig::llm_api();
    assert_eq!((l.max_attempts, l.initial_backoff_ms, l.max_backoff_ms, l.jitter_permille), (5, 2000, 120_000, 200));
    assert_eq!(capped_backoff_ms(d.initial_backoff_ms, d.max_backoff_ms, 10), 60_000);
}
