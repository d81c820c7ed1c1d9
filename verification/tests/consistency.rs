use cleanroom::consistency::{
    extract_document_name, CheckLevel, ConsistencyService, Fingerprint, FixStrategy, Inconsistency,
};

#[test]
fn test_extract_document_name_from_uri() {
    let uri = "sdef://my-project/data-models/User#User";
    assert_eq!(extract_document_name(uri), "my-project");
}

#[test]
fn test_extract_document_name_with_dots() {
    let uri = "sdef://com.example.app/contracts/interfaces/TodoService#create";
    assert_eq!(extract_document_name(uri), "com.example.app");
}

#[test]
fn test_extract_document_name_fallback() {
    assert_eq!(extract_document_name("invalid"), "unknown");
    assert_eq!(extract_document_name(""), "unknown");
}

#[test]
fn test_compute_hash_consistency() {
    let h1 = ConsistencyService::compute_hash("hello");
    let h2 = ConsistencyService::compute_hash("hello");
    assert_eq!(h1, h2, "Same input should produce same hash");
    assert_eq!(h1.len(), 64, "SHA-256 should produce 64 hex chars");
}

#[test]
fn test_strategy_display() {
    assert_eq!(format!("{:?}", FixStrategy::SyncCodeToSdef), "SyncCodeToSdef");
    assert_eq!(format!("{:?}", FixStrategy::AcceptExternal), "AcceptExternal");
}

#[test]
fn known_sha256_values() {
    assert_eq!(
        ConsistencyService::compute_hash("hello"),
        "2cf24dba5fb0a30e26e83b2ac5b9e29e1b161e5c1fa7425e73043362938b9824"
    );
    assert_eq!(ConsistencyService::code_hash("hello\r\n"), ConsistencyService::compute_hash("hello\n"));
    assert_eq!(ConsistencyService::sdef_path("doc"), "sdef-output/doc.sdef.json");
}

fn row(uri: &str, s: Option<&str>, d: Option<&str>, c: Option<&str>) -> Inconsistency {
    Inconsistency {
        entity_uri: uri.to_string(),
        sdef_hash: s.map(|x| x.to_string()),
        db_hash: d.map(|x| x.to_string()),
        code_hash: c.map(|x| x.to_string()),
    }
}

#[test]
fn check_keeps_rows_whose_hashes_disagree() {
    let service = ConsistencyService::new();
    let rows = vec![
        row("sdef://d/a", Some("1"), Some("1"), Some("1")),
        row("sdef://d/b", Some("1"), Some("2"), Some("2")),
        row("sdef://d/c", Some("1"), None, Some("2")),
        row("sdef://d/e", Some("1"), Some("1"), Some("3")),
    ];
    let found = service.check(rows, CheckLevel::Fast);
    let uris: Vec<&str> = found.iter().map(|i| i.entity_uri.as_str()).collect();
    assert_eq!(uris, vec!["sdef://d/b", "sdef://d/e"]);
}

#[test]
fn accept_external_marks_consistent() {
    let service = ConsistencyService::new();
    let inc = row("sdef://proj/data-models/User", Some("a"), Some("b"), None);
    let fp = service.accept_external(&inc, None, "2024-01-01T00:00:00Z");
    assert_eq!(fp.document_name, "proj");
    assert_eq!(fp.sdef_hash.as_deref(), Some("a"));
    assert_eq!(fp.db_hash.as_deref(), Some("b"));
    assert_eq!(fp.code_hash, None);
    assert_eq!(fp.last_consistent_at.as_deref(), Some("2024-01-01T00:00:00Z"));
    assert_eq!(fp.last_checked_at, "");
}

#[test]
fn sync_code_to_sdef_uses_code_hash() {
    let service = ConsistencyService::new();
    let inc = row("sdef://proj/x", Some("s"), Some("d"), Some("c"));
    let stored = Fingerprint {
        entity_uri: "sdef://proj/x".to_string(),
        document_name: "proj".to_string(),
        entity_type: "data_model".to_string(),
        sdef_hash: Some("s".to_string()),
        db_hash: Some("d".to_string()),
        code_hash: Some("c".to_string()),
        code_path: Some("src/x.rs".to_string()),
        last_checked_at: "then".to_string(),
        last_consistent_at: None,
    };
    let fp = service.sync_code_to_sdef(&inc, &stored, Some("code\r\n"), "now");
    let h = ConsistencyService::compute_hash("code\n");
    assert_eq!(fp.sdef_hash.as_deref(), Some(h.as_str()));
    assert_eq!(fp.db_hash.as_deref(), Some(h.as_str()));
    assert_eq!(fp.code_hash.as_deref(), Some(h.as_str()));
    assert_eq!(fp.entity_type, "data_model");
    let fp = service.sync_code_to_sdef(&inc, &stored, None, "now");
    assert_eq!(fp.sdef_hash.as_deref(), Some("c"));
    let no_path = Fingerprint { code_path: None, ..stored };
    let fp = service.sync_code_to_sdef(&inc, &no_path, None, "now");
    assert_eq!(fp.sdef_hash.as_deref(), Some("s"));
    assert_eq!(fp.db_hash.as_deref(), Some("s"));
    assert_eq!(fp.code_hash, None);
    assert_eq!(fp.entity_type, "");
}

#[test]
fn sync_db_to_sdef_rows() {
    let service = ConsistencyService::new();
    let inc = row("sdef://proj/data-models/User", Some("a"), Some("b"), Some("c"));
    let fp = service.sync_db_to_sdef(&inc, Some("{}"), "t1");
    assert_eq!(fp.sdef_hash.as_deref(), Some("b"));
    assert_eq!(fp.db_hash.as_deref(), Some("b"));
    assert_eq!(fp.code_hash.as_deref(), Some("c"));
    assert_eq!(fp.code_path, None);
    let no_db = row("sdef://proj/x", Some("a"), None, None);
    let fp2 = service.sync_db_to_sdef(&no_db, Some("hello"), "t2");
    assert_eq!(fp2.db_hash, Some(ConsistencyService::compute_hash("hello")));
    let failed = service.sync_db_to_sdef(&inc, None, "t3");
    assert_eq!(failed.sdef_hash.as_deref(), Some("a"));
    assert_eq!(failed.last_consistent_at.as_deref(), Some("t3"));
}

#[test]
fn sync_sdef_to_db_rows() {
    let service = ConsistencyService::new();
    let inc = row("sdef://proj/data-models/User", Some("a"), Some("b"), None);
    let fp = service.sync_sdef_to_db(&inc, "hello", "t");
    let h = ConsistencyService::compute_hash("hello");
    assert_eq!(fp.sdef_hash.as_ref(), Some(&h));
    assert_eq!(fp.db_hash.as_ref(), Some(&h));
    assert_eq!(fp.document_name, "proj");
}
