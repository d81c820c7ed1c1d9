use std::time::Duration;

use cleanroom::collaboration::conflict_detector::{Conflict, ConflictDetector, Resolution, SignatureConflict};
use cleanroom::collaboration::health_monitor::HealthMonitor;
use cleanroom::collaboration::messages::{AgentMessage, MessageType};

#[test]
fn test_auto_resolve_symbol_collision() {
    let detector = ConflictDetector::new();
    let conflict = Conflict::SymbolCollision {
        uri: "sdef://test".to_string(),
        proposals: vec![
            ("agent-1".to_string(), "Foo".to_string()),
            ("agent-2".to_string(), "FooVariant".to_string()),
        ],
    };
    let resolutions = detector.auto_resolve(&[conflict]);
    assert_eq!(resolutions.len(), 1);
    match &resolutions[0].1 {
        Resolution::SuffixDisambiguation(name) => {
            assert!(name.contains("Foo"));
        }
        _ => panic!("Expected SuffixDisambiguation"),
    }
}

#[test]
fn test_auto_resolve_file_overlap() {
    let detector = ConflictDetector::new();
    let conflict = Conflict::FileOverlap {
        path: "src/main.rs".to_string(),
        sources: vec!["agent-1".to_string(), "agent-2".to_string()],
    };
    let resolutions = detector.auto_resolve(&[conflict]);
    assert_eq!(resolutions.len(), 1);
    assert!(matches!(resolutions[0].1, Resolution::LatestWins));
}

#[test]
fn test_conflict_description() {
    let conflict = Conflict::SymbolCollision {
        uri: "sdef://model/User".to_string(),
        proposals: vec![
            ("agent-1".to_string(), "User".to_string()),
            ("agent-2".to_string(), "UserModel".to_string()),
        ],
    };
    let desc = conflict.description();
    assert!(desc.contains("sdef://model/User"));
    assert!(desc.contains("User"));
    assert!(desc.contains("UserModel"));
}

#[test]
fn descriptions_exact_text() {
    let c = Conflict::SymbolCollision {
        uri: "sdef://m/U".to_string(),
        proposals: vec![("a1".to_string(), "U".to_string()), ("a2".to_string(), "V".to_string())],
    };
    assert_eq!(c.description(), "Symbol collision for sdef://m/U: conflicting names \u{2014} U from a1, V from a2");
    let c = Conflict::InterfaceMismatch {
        contract: "Svc".to_string(),
        signatures: vec![SignatureConflict {
            method_name: "run".to_string(),
            signature_a: "fn run()".to_string(),
            agent_a: "a1".to_string(),
            signature_b: "fn run(x: u8)".to_string(),
            agent_b: "a2".to_string(),
        }],
    };
    assert_eq!(c.description(), "Interface mismatch in contract 'Svc': Svc.run: fn run() vs fn run(x: u8)");
    let c = Conflict::FileOverlap { path: "src/a.rs".to_string(), sources: vec!["x".to_string(), "y".to_string()] };
    assert_eq!(c.description(), "File overlap at src/a.rs: produced by agents x, y");
}

#[test]
fn auto_resolve_suffix_counts_proposals_and_escalates_the_rest() {
    let detector = ConflictDetector::new();
    let conflicts = vec![
        Conflict::SymbolCollision {
            uri: "sdef://x".to_string(),
            proposals: vec![
                ("a".to_string(), "Foo".to_string()),
                ("b".to_string(), "Bar".to_string()),
                ("c".to_string(), "Baz".to_string()),
            ],
        },
        Conflict::SymbolCollision { uri: "sdef://y".to_string(), proposals: vec![] },
        Conflict::InterfaceMismatch { contract: "C".to_string(), signatures: vec![] },
    ];
    let r = detector.auto_resolve(&conflicts);
    assert_eq!(r.len(), 3);
    match &r[0].1 {
        Resolution::SuffixDisambiguation(name) => assert_eq!(name, "Foo_3"),
        _ => panic!("expected a suffix"),
    }
    assert!(matches!(r[1].1, Resolution::EscalateToOrchestrator(Conflict::SymbolCollision { .. })));
    assert!(matches!(r[2].1, Resolution::EscalateToOrchestrator(Conflict::InterfaceMismatch { .. })));
    assert!(detector.detect_interface_mismatches("doc").is_none());
}

#[test]
fn collision_proposals_and_file_overlaps() {
    let names = vec!["User".to_string(), "UserModel".to_string()];
    let p = ConflictDetector::collision_proposals(&names);
    assert_eq!(p, vec![("agent-0".to_string(), "User".to_string()), ("agent-1".to_string(), "UserModel".to_string())]);
    assert!(ConflictDetector::file_overlaps(vec![]).is_none());
    let c = ConflictDetector::file_overlaps(vec!["src/a.rs".to_string()]).unwrap();
    assert_eq!(c.len(), 1);
    match &c[0] {
        Conflict::FileOverlap { path, sources } => {
            assert_eq!(path, "src/a.rs");
            assert_eq!(sources, &vec!["unknown".to_string()]);
        }
        _ => panic!("expected a file overlap"),
    }
}

#[test]
fn health_monitor_settings() {
    let m = HealthMonitor::default();
    assert_eq!(m.heartbeat_timeout(), Duration::from_secs(120));
    assert_eq!(m.check_interval(), Duration::from_secs(30));
    assert_eq!(m.stale_heartbeat_modifier(), "-120 seconds");
    let m = HealthMonitor::new(Duration::from_secs(5), Duration::from_secs(1));
    assert_eq!(m.heartbeat_timeout(), Duration::from_secs(5));
    assert_eq!(m.check_interval(), Duration::from_secs(1));
}

#[test]
fn test_message_constructors() {
    let msg = AgentMessage::review_request(
        "checker-1",
        "consumer-1",
        "sdef://model/User",
        vec!["Missing field: email".to_string()],
    );
    assert_eq!(msg.to, "consumer-1");
    assert!(!msg.read);
    assert_eq!(msg.message_id.len(), 36);
    assert_eq!(msg.payload, serde_json::from_str::<serde_json::Value>("{\"issues\": [\"Missing field: email\"]}").unwrap());
    match &msg.message_type {
        MessageType::ReviewRequest { entity_uri, issues } => {
            assert_eq!(entity_uri, "sdef://model/User");
            assert_eq!(issues.len(), 1);
        }
        _ => panic!("Expected ReviewRequest"),
    }

    let p = AgentMessage::symbol_proposal("producer-1", "consumer-1", "sdef://symbol/user_callback", "user_callback_fn");
    match &p.message_type {
        MessageType::SymbolProposal { sdef_uri, proposed_name } => {
            assert_eq!(sdef_uri, "sdef://symbol/user_callback");
            assert_eq!(proposed_name, "user_callback_fn");
        }
        _ => panic!("Expected SymbolProposal"),
    }
    assert_eq!(p.payload["proposed_name"], "user_callback_fn");

    let b = AgentMessage::broadcast(
        "orchestrator",
        MessageType::DependencyResolved { task_id: "task-456".to_string() },
        serde_json::from_str("{\"note\": \"all agents notified\"}").unwrap(),
    );
    assert_eq!(b.to, "broadcast");
    let d = AgentMessage::dependency_resolved("agent-1", "agent-2", "task-123");
    assert_eq!(d.payload, serde_json::from_str::<serde_json::Value>("{}").unwrap());
    assert!(matches!(d.message_type, MessageType::DependencyResolved { ref task_id } if task_id == "task-123"));
    let r = AgentMessage::clarification_response("a", "b", "sdef://x", "yes");
    assert_eq!(r.payload["answer"], "yes");
    let q = AgentMessage::clarification_request("a", "b", "sdef://x", "why?");
    assert_eq!(q.payload["question"], "why?");
}
