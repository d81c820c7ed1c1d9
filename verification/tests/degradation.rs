use cleanroom::degradation::{DegradationMode, Operation};

#[test]
fn test_normal_allows_everything() {
    let mode = DegradationMode::Normal;
    assert!(mode.lsp_available());
    assert!(mode.llm_available());
    assert!(mode.writes_permitted());
    assert!(mode.is_operational());
}

#[test]
fn test_no_lsp_degradation() {
    let mode = DegradationMode::no_lsp_strict(&["rust"]);
    assert!(!mode.lsp_available());
    assert!(!mode.lsp_available_for("rust"));
    assert!(mode.llm_available());
    assert!(mode.writes_permitted());
}

#[test]
fn test_no_lsp_with_fallback() {
    let mode = DegradationMode::no_lsp_with_fallback(&["python"]);
    assert!(mode.lsp_available_for("rust"));
    assert!(mode.lsp_available_for("python"));
}

#[test]
fn test_no_lsp_strict() {
    let mode = DegradationMode::no_lsp_strict(&["python"]);
    assert!(!mode.lsp_available_for("python"));
}

#[test]
fn test_no_llm_read_only() {
    let mode = DegradationMode::NoLLm;
    assert!(!mode.llm_available());
    assert!(mode.writes_permitted());
    assert!(mode.is_operational());
}

#[test]
fn test_read_only_denies_writes() {
    let mode = DegradationMode::ReadOnly;
    assert!(!mode.writes_permitted());
    assert!(mode.is_operational());
}

#[test]
fn test_emergency_denies_everything() {
    let mode = DegradationMode::Emergency;
    assert!(!mode.is_operational());
    assert!(!mode.writes_permitted());
    assert!(!mode.llm_available());
    assert!(!mode.lsp_available());
}

#[test]
fn permitted_operations_agree_with_allows() {
    let modes = vec![
        DegradationMode::Normal,
        DegradationMode::no_lsp_strict(&["rust"]),
        DegradationMode::no_lsp_with_fallback(&["go"]),
        DegradationMode::NoLLm,
        DegradationMode::ReadOnly,
        DegradationMode::Emergency,
    ];
    let all = [
        Operation::Query,
        Operation::ImportExport,
        Operation::ConsistencyCheck,
        Operation::LspAnalysis,
        Operation::LlmGeneration,
        Operation::Write,
    ];
    for mode in &modes {
        let permitted = mode.permitted_operations();
        for op in all.iter() {
            assert_eq!(permitted.contains(op), mode.allows(*op));
        }
    }
}

#[test]
fn emergency_permits_nothing_and_normal_everything() {
    assert!(DegradationMode::Emergency.permitted_operations().is_empty());
    assert_eq!(DegradationMode::Normal.permitted_operations().len(), 6);
}
