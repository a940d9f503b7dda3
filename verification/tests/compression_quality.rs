use autonoetic_gateway::compression::{finish_compress_context, plan_compress_context, unchanged, CompressionPlan};
use autonoetic_gateway::compression_quality::{
    check_tool_sequence_preserved, default_end_turn, default_test_compression_config,
    golden_history, quality_report, threshold_scan_config, validate_compressed_history,
    GoldenSession, GoldenToolCall, GoldenTurn,
};
use autonoetic_gateway::llm::{Message, Role};
use autonoetic_gateway::textmap::TextMap;

fn make_test_session() -> GoldenSession {
    GoldenSession {
        id: "test-simple".into(),
        description: "Simple conversation with tool use".into(),
        system_prompt: "You are a helpful assistant.".into(),
        turns: vec![
            GoldenTurn {
                user_message: "What is the weather?".into(),
                assistant_response: "Let me check.".into(),
                tool_calls: vec![GoldenToolCall {
                    id: "tc1".into(),
                    name: "weather.get".into(),
                    arguments: r#"{"city":"NYC"}"#.into(),
                }],
                end_turn: false,
            },
            GoldenTurn {
                user_message: "It's sunny.".into(),
                assistant_response: "Great!".into(),
                tool_calls: vec![],
                end_turn: true,
            },
        ],
        expected_outcome: "Done".into(),
        expected_tool_sequence: vec![GoldenToolCall {
            id: "tc1".into(),
            name: "weather.get".into(),
            arguments: r#"{"city":"NYC"}"#.into(),
        }],
    }
}

#[test]
fn test_validate_compressed_history_no_orphans() {
    let original = vec![
        Message::system("s"),
        Message::user("u1"),
        Message::assistant("a1"),
        Message::user("u2"),
        Message::assistant("a2"),
    ];
    let compressed = vec![
        Message::system("s"),
        Message::user("[COMPRESSED CONTEXT - Turn 1]\nsummary"),
        Message::user("u2"),
        Message::assistant("a2"),
    ];
    let v = validate_compressed_history(&original, &compressed);
    assert!(v.valid);
    assert!(v.no_orphaned_tool_results);
    assert!(v.system_messages_first);
    assert!(v.summary_present);
    assert!(v.messages_reduced);
}

#[test]
fn test_validate_detects_orphaned_tool_result() {
    let original = vec![Message::system("s"), Message::user("u")];
    let compressed = vec![
        Message::system("s"),
        Message::user("u"),
        Message::tool_result("orphan_tc", "tool", "result"),
    ];
    let v = validate_compressed_history(&original, &compressed);
    assert!(!v.no_orphaned_tool_results);
    assert!(!v.valid);
}

#[test]
fn test_validate_detects_system_messages_not_first() {
    let original = vec![Message::system("s")];
    let compressed = vec![Message::user("u"), Message::system("s")];
    let v = validate_compressed_history(&original, &compressed);
    assert!(!v.system_messages_first);
}

#[test]
fn test_check_tool_sequence_preserved() {
    let original = vec![
        GoldenToolCall {
            id: "tc1".into(),
            name: "tool_a".into(),
            arguments: "{}".into(),
        },
        GoldenToolCall {
            id: "tc2".into(),
            name: "tool_b".into(),
            arguments: "{}".into(),
        },
    ];
    let history_with_both = vec![
        Message::system("s"),
        Message::tool_result("tc1", "tool_a", "r1"),
        Message::tool_result("tc2", "tool_b", "r2"),
    ];
    assert!(check_tool_sequence_preserved(&original, &history_with_both));

    let history_missing_one = vec![
        Message::system("s"),
        Message::tool_result("tc1", "tool_a", "r1"),
    ];
    assert!(!check_tool_sequence_preserved(
        &original,
        &history_missing_one
    ));
}

#[test]
fn test_quality_validation_when_compression_not_triggered() {
    let session = make_test_session();
    let (history, calls) = golden_history(&session);
    let result = unchanged(history.clone(), None);
    let report = quality_report(&session, &history, &calls, Ok(&result));
    assert!(!report.compressed);
    assert!(report.validation.is_none());
    assert_eq!(
        report.issues,
        vec!["Compression not triggered (threshold not exceeded or no LLM configured)"]
    );
}

#[test]
fn test_threshold_scan_returns_results() {
    let session = make_test_session();
    let (history, calls) = golden_history(&session);
    let mut results = Vec::new();
    for threshold in [20.0f64, 50.0] {
        let cfg = threshold_scan_config(threshold.to_bits());
        let plan = plan_compress_context(
            &history,
            0,
            (128_000f64 * threshold / 100.0) as usize,
            &cfg,
            None,
            &TextMap::new(),
            &session.id,
            session.turns.len() as u64,
            None,
        );
        assert!(matches!(plan, CompressionPlan::Unchanged));
        let result = unchanged(history.clone(), None);
        results.push((threshold, quality_report(&session, &history, &calls, Ok(&result))));
    }
    assert_eq!(results.len(), 2);
}

#[test]
fn golden_sessions_are_replayed_in_order() {
    let session = make_test_session();
    let (history, calls) = golden_history(&session);
    let roles: Vec<Role> = history.iter().map(|m| m.role).collect();
    assert_eq!(
        roles,
        vec![Role::System, Role::User, Role::Assistant, Role::Tool, Role::User, Role::Assistant]
    );
    assert_eq!(calls.len(), 1);
    assert_eq!(calls[0].id, "tc1");
    assert!(default_end_turn());
}

#[test]
fn a_failed_compression_is_reported() {
    let session = make_test_session();
    let (history, calls) = golden_history(&session);
    let report = quality_report(&session, &history, &calls, Err("no model"));
    assert!(!report.compressed);
    assert_eq!(report.issues, vec!["Compression failed: no model"]);
}

#[test]
fn a_lost_tool_result_is_reported() {
    let session = make_test_session();
    let (history, calls) = golden_history(&session);
    let split = history.len();
    let result = finish_compress_context(history.clone(), split, Some("gist"), 2, None);
    let report = quality_report(&session, &history, &calls, Ok(&result));
    assert!(report.compressed);
    assert!(!report.tool_sequence_preserved);
    assert!(report
        .issues
        .contains(&"Tool call sequence not preserved in compressed history".to_string()));
}

#[test]
fn test_settings_have_their_values() {
    let c = default_test_compression_config();
    assert_eq!(f64::from_bits(c.threshold_pct_bits), 50.0);
    assert_eq!(c.min_turns_between_compression, 3);
    assert_eq!(c.llm_preset.as_deref(), Some("haiku"));
}
