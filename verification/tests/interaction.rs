use cleanroom::interaction::{
    clarification_answer, compat_layer_answer, design_decision_answer, DesignAnswer, InteractionMode,
    InteractiveContext, UserDecision,
};

#[test]
fn test_interaction_context_records_qa() {
    let mut ctx = InteractiveContext::default();
    ctx.record_answer("What is the database?", "PostgreSQL");
    assert_eq!(ctx.qa_history.len(), 1);
    assert_eq!(ctx.qa_history[0].question, "What is the database?");
    assert_eq!(ctx.qa_history[0].answer, "PostgreSQL");
}

#[test]
fn test_interaction_mode_default() {
    assert_eq!(InteractionMode::Automatic, InteractionMode::Automatic);
}

#[test]
fn design_answers() {
    assert_eq!(design_decision_answer(true, ""), DesignAnswer::Accept);
    assert_eq!(design_decision_answer(true, "YES"), DesignAnswer::Accept);
    assert_eq!(design_decision_answer(true, "No"), DesignAnswer::Reject);
    assert_eq!(design_decision_answer(true, "edit"), DesignAnswer::AskForEdit);
    assert_eq!(design_decision_answer(true, "e"), DesignAnswer::AskForEdit);
    assert_eq!(design_decision_answer(true, "Edit"), DesignAnswer::Reject);
    assert_eq!(design_decision_answer(true, "maybe"), DesignAnswer::Reject);
    assert_eq!(design_decision_answer(false, "y"), DesignAnswer::Accept);
    assert_eq!(design_decision_answer(false, "edit"), DesignAnswer::Reject);
}

#[test]
fn compat_and_clarification_answers() {
    assert!(matches!(compat_layer_answer("K"), UserDecision::Accept));
    assert!(matches!(compat_layer_answer("keep"), UserDecision::Accept));
    match compat_layer_answer("Mark") {
        UserDecision::Modify(m) => assert_eq!(m, "deprecated"),
        _ => panic!("expected a modification"),
    }
    assert!(matches!(compat_layer_answer("r"), UserDecision::Reject));
    assert!(matches!(compat_layer_answer("whatever"), UserDecision::Accept));
    match clarification_answer("PostgreSQL") {
        UserDecision::Select(s) => assert_eq!(s, "PostgreSQL"),
        _ => panic!("expected a selection"),
    }
}
