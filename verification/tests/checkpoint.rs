use autonoetic_gateway::checkpoint::{
    append_feedback_to_latest_checkpoint, checkpoint_hmac_key, checkpoint_path,
    compute_runtime_lock_hash, delete_approval_bound_checkpoint,
    enter_repair_mode_on_latest_checkpoint, exit_repair_mode_on_latest_checkpoint,
    is_bound_to_approval, is_checkpoint_file, is_orphan_checkpoint, list_checkpoints,
    load_checkpoint, load_latest_checkpoint, load_latest_checkpoint_strict, prune_checkpoints,
    reap_orphan_checkpoints, reset_after_successful_repair_on_latest_checkpoint,
    sanitize_path_component, save_checkpoint, turn_id_for, turn_number_from_id, verified_payload,
    ApprovalRead, ApprovalStatus, CheckpointFile, LlmConfigSnapshot, LoopGuard,
    ResolvedInferenceProfile, SessionCheckpoint, SessionFork, SessionState, StrictSearchError, YieldReason,
};
use autonoetic_gateway::config::LlmConfig;
use autonoetic_gateway::content_store::ContentStore;
use autonoetic_gateway::egress::{EgressLabel, Sink};
use autonoetic_gateway::json::Json;
use autonoetic_gateway::llm::Message;
use autonoetic_gateway::textmap::TextMap;

fn guard() -> LoopGuard {
    LoopGuard {
        max_loops_without_progress: 10,
        max_tool_failures: 5,
        max_consecutive_same_progress: 0,
        max_child_failures: 3,
        current_loops: 0,
        tool_failure_counts: TextMap::new(),
        last_progress_fingerprint: None,
        consecutive_progress_count: 0,
        child_failure_count: 0,
        repair_mode: false,
        repair_loops: 0,
        max_repair_loops: 0,
    }
}

fn sample_checkpoint() -> SessionCheckpoint {
    SessionCheckpoint {
        egress_labels: TextMap::new(),
        egress_ask: None,
        history: vec![Message::user("hello")],
        turn_counter: 1,
        loop_guard_state: guard(),
        session_state: SessionState::Normal,
        tool_tier_escalated: false,
        discovered_tools: vec![],
        blocked_state_event_emitted: false,
        extended_loaded: false,
        agent_id: "test-agent".to_string(),
        session_id: "session-egress".to_string(),
        turn_id: "turn-001".to_string(),
        workflow_id: None,
        task_id: None,
        runtime_lock_hash: None,
        constitution_version: None,
        constitution_digest: None,
        llm_config_snapshot: None,
        tool_registry_version: None,
        yield_reason: YieldReason::Hibernation,
        content_store_refs: vec![],
        created_at: "2024-01-01T00:00:00Z".to_string(),
        pending_tool_state: None,
        llm_rounds_consumed: 1,
        tool_invocations_consumed: 0,
        tokens_consumed: 100,
        estimated_cost_bits: 0.001f64.to_bits(),
        compression_metadata: None,
        capsule_state: None,
        assistant_message: None,
        pending_action: None,
        suspended_at: None,
        suppress_until_turn: 0,
        trajectory_last_level: None,
        feedback_events: vec![],
    }
}

#[test]
fn test_save_and_load_checkpoint() {
    let key = checkpoint_hmac_key(&None, "node-1");
    assert_eq!(key, "autonoetic-checkpoint-node-1");
    let payload = r#"{"session_id":"session-123","turn_counter":1}"#;
    let file = save_checkpoint(&key, "session-123", "turn-001", payload).expect("should save");
    assert_eq!(file.directory, "session-123");
    assert_eq!(file.name, "turn-001.checkpoint.json");
    let loaded =
        load_checkpoint(&key, "session-123", "turn-001", &file.content).expect("should load");
    assert_eq!(loaded, payload);
    assert!(save_checkpoint(&key, "session-123", "turn-001", "{").is_none());
}

#[test]
fn fork_from_checkpoint_inherits_egress_labels() {
    let mut source = sample_checkpoint();
    source.egress_labels.insert("tc_email_read_1", EgressLabel::local_only());
    source.suppress_until_turn = 7;
    source.yield_reason = YieldReason::ManualStop;
    source.suspended_at = Some("2024-01-01T00:00:00Z".to_string());

    let (fork, forked_cp) =
        SessionFork::fork_from_checkpoint(source, Some("forked-sess"), "fresh", Some("go on"));

    assert_eq!(fork.new_session_id, "forked-sess");
    assert_eq!(fork.source_session_id, "session-egress");
    assert_eq!(fork.fork_turn, 1);
    assert_eq!(forked_cp.egress_labels.len(), 1);
    assert!(!forked_cp
        .egress_labels
        .get("tc_email_read_1")
        .expect("labeled result must survive the fork")
        .allows(Sink::RemoteModel));
    assert_eq!(forked_cp.session_id, "forked-sess");
    assert_eq!(forked_cp.suppress_until_turn, 0);
    assert!(matches!(forked_cp.yield_reason, YieldReason::Hibernation));
    assert!(forked_cp.suspended_at.is_none());
    assert_eq!(fork.initial_history().len(), 2);
    assert_eq!(fork.initial_history()[1].content, "go on");

    let mut store = ContentStore::new();
    let handle = fork.publish_history(&mut store, "[]");
    assert_eq!(store.resolve_name("forked-sess", "session_history").unwrap(), handle);
    assert_eq!(store.read(&handle).unwrap(), b"[]");
}

#[test]
fn forks_need_a_checkpoint() {
    let err = SessionFork::fork(None, "source", None, "fresh", None).err().expect("an error");
    assert!(err.contains("source"), "{err}");
    let (fork, cp) =
        SessionFork::fork(Some(sample_checkpoint()), "source", None, "fresh", None).unwrap();
    assert_eq!(fork.new_session_id, "fork-fresh");
    assert_eq!(cp.session_id, "fork-fresh");
    assert_eq!(fork.initial_history().len(), 1);
}

#[test]
fn test_load_latest_checkpoint() {
    let turns = vec![Some(1), Some(2), Some(3)];
    let latest = load_latest_checkpoint(&turns).expect("should have checkpoint");
    assert_eq!(turns[latest], Some(3));
    assert_eq!(load_latest_checkpoint(&vec![None, Some(4), None, Some(4)]), Some(1));
    assert_eq!(load_latest_checkpoint(&vec![None, None]), None);
}

#[test]
fn test_prune_checkpoints() {
    let turns: Vec<u64> = vec![1, 2, 3, 4, 5];
    let ids: Vec<String> = (1..=5).map(|i| format!("turn-{:03}", i)).collect();

    let pruned = prune_checkpoints(&turns, 3);

    let kept: Vec<usize> = (0..5).filter(|i| !pruned.contains(i)).collect();
    let remaining = list_checkpoints(
        &kept.iter().map(|i| turns[*i]).collect(),
        &kept.iter().map(|i| ids[*i].clone()).collect(),
    );
    assert_eq!(remaining.len(), 3);
    assert!(remaining.contains(&"turn-003".to_string()));
    assert!(remaining.contains(&"turn-004".to_string()));
    assert!(remaining.contains(&"turn-005".to_string()));
    assert!(prune_checkpoints(&turns, 9).is_empty());
    let shuffled = list_checkpoints(
        &vec![3, 1, 2],
        &vec!["c".to_string(), "a".to_string(), "b".to_string()],
    );
    assert_eq!(shuffled, vec!["a", "b", "c"]);
}

#[test]
fn test_checkpoint_hmac_tamper_rejection() {
    let key = checkpoint_hmac_key(&Some("secret".to_string()), "node-1");
    assert_eq!(key, "secret");
    let session_id = "session-tamper";
    let turn_id = "turn-001";
    let saved = save_checkpoint(&key, session_id, turn_id, r#"{"turn_counter":1}"#).unwrap();

    let mut envelope: serde_json::Value = serde_json::from_str(&saved.content).unwrap();
    envelope["hmac_hex"] = serde_json::Value::String("deadbeef00".repeat(8));
    let tampered = serde_json::to_string(&envelope).unwrap();

    let err = load_checkpoint(&key, session_id, turn_id, &tampered)
        .expect_err("tampered checkpoint should be rejected by load_checkpoint");
    assert_eq!(
        err.message(),
        "checkpoint integrity violation for session 'session-tamper' turn 'turn-001': HMAC mismatch"
    );

    assert!(
        verified_payload(&key, &tampered).is_none(),
        "tampered checkpoint should be skipped by load_latest_checkpoint"
    );

    let files = vec![CheckpointFile {
        name: saved.name,
        content: Some(tampered),
        decodes: false,
    }];
    let strict_err = load_latest_checkpoint_strict(&key, session_id, &files)
        .expect_err("strict loader should surface a tampered latest checkpoint");
    assert!(matches!(strict_err, StrictSearchError::Tampered(_)));
    assert_eq!(
        strict_err.message(),
        "checkpoint integrity violation for session 'session-tamper' turn 'turn-000001': HMAC mismatch on latest checkpoint"
    );
}

#[test]
fn load_latest_checkpoint_strict_loads_valid_latest() {
    let key = "k";
    let session_id = "session-strict-valid";
    let mut files = vec![];
    for turn in [1u64, 2] {
        let saved = save_checkpoint(
            key,
            session_id,
            &turn_id_for(turn),
            &format!("{{\"turn_counter\":{turn}}}"),
        )
        .unwrap();
        files.push(CheckpointFile {
            name: saved.name,
            content: Some(saved.content),
            decodes: true,
        });
    }
    let latest = load_latest_checkpoint_strict(key, session_id, &files)
        .expect("valid checkpoints should load")
        .expect("a checkpoint should exist");
    assert_eq!(
        load_checkpoint(key, session_id, "t", files[latest].content.as_ref().unwrap()).unwrap(),
        "{\"turn_counter\":2}",
        "strict loader returns the latest turn"
    );

    files.push(CheckpointFile {
        name: "turn-000003.checkpoint.json".to_string(),
        content: None,
        decodes: false,
    });
    files.push(CheckpointFile {
        name: "turn-000004.other".to_string(),
        content: Some("{}".to_string()),
        decodes: true,
    });
    assert!(matches!(load_latest_checkpoint_strict(key, session_id, &files), Ok(Some(1))));

    let unread = vec![CheckpointFile {
        name: "turn-000001.checkpoint.json".to_string(),
        content: None,
        decodes: false,
    }];
    let lost = load_latest_checkpoint_strict(key, session_id, &unread).expect_err("a lost turn");
    assert!(matches!(lost, StrictSearchError::Unusable { .. }));
    assert_eq!(lost.message(), "no checkpoint file of session 'session-strict-valid' can be read");
    let undecodable = vec![CheckpointFile {
        name: "turn-000001.checkpoint.json".to_string(),
        content: Some("{".to_string()),
        decodes: false,
    }];
    assert!(load_latest_checkpoint_strict(key, session_id, &undecodable).is_err());
    let others = vec![CheckpointFile {
        name: "notes.txt".to_string(),
        content: None,
        decodes: false,
    }];
    assert!(matches!(load_latest_checkpoint_strict(key, session_id, &others), Ok(None)));

    assert!(
        matches!(load_latest_checkpoint_strict(key, "no-such-session", &vec![]), Ok(None)),
        "strict loader returns Ok(None) when no checkpoint files exist"
    );
}

#[test]
fn append_feedback_to_latest_checkpoint_round_trips() {
    let mut checkpoint = sample_checkpoint();
    checkpoint.turn_counter = 2;
    let events = vec![
        Json::Text("required_artifacts".to_string()),
        Json::Text("output_schema".to_string()),
    ];
    let latest = append_feedback_to_latest_checkpoint(Some(checkpoint), &events)
        .expect("should append feedback");
    assert_eq!(latest.feedback_events.len(), 2);
    assert_eq!(latest.feedback_events[0].turn, 2);
    assert!(matches!(&latest.feedback_events[0].event, Json::Text(s) if s == "required_artifacts"));
    assert!(append_feedback_to_latest_checkpoint(Some(latest), &vec![]).is_none());
    assert!(append_feedback_to_latest_checkpoint(None, &events).is_none());
}

#[test]
fn repair_mode_checkpoint_helpers_roundtrip() {
    let mut checkpoint = sample_checkpoint();
    checkpoint.loop_guard_state.current_loops = 3;

    let latest = enter_repair_mode_on_latest_checkpoint(Some(checkpoint), 10).unwrap();
    assert!(latest.loop_guard_state.repair_mode);
    assert_eq!(latest.loop_guard_state.repair_loops, 0);
    assert_eq!(latest.loop_guard_state.max_repair_loops, 10);
    assert_eq!(latest.loop_guard_state.current_loops, 3, "outer loops preserved");

    let left = exit_repair_mode_on_latest_checkpoint(Some(latest)).unwrap();
    assert!(!left.loop_guard_state.repair_mode);
    assert_eq!(left.loop_guard_state.current_loops, 3);

    let latest = enter_repair_mode_on_latest_checkpoint(Some(left), 10).unwrap();
    let latest = reset_after_successful_repair_on_latest_checkpoint(Some(latest)).unwrap();
    assert!(!latest.loop_guard_state.repair_mode);
    assert_eq!(latest.loop_guard_state.current_loops, 0, "outer loops cleared on success");
    assert!(enter_repair_mode_on_latest_checkpoint(None, 1).is_none());
}

#[test]
fn turn_ids_name_turns() {
    assert_eq!(turn_id_for(7), "turn-000007");
    assert_eq!(turn_id_for(12345678), "turn-12345678");
    assert_eq!(turn_number_from_id("turn-000007"), Some(7));
    assert_eq!(turn_number_from_id("turn-x"), None);
    assert_eq!(turn_number_from_id("7"), None);
    assert_eq!(turn_number_from_id("turn-18446744073709551616"), None);
    assert_eq!(sanitize_path_component("root/a b.c-é"), "root_a_b.c-_");
    assert_eq!(
        checkpoint_path("root/a", "turn-000001"),
        ("root_a".to_string(), "turn-000001.checkpoint.json".to_string())
    );
    assert!(is_checkpoint_file("x.checkpoint.json"));
    assert!(!is_checkpoint_file("x.json"));
}

#[test]
fn locks_are_hashed() {
    assert_eq!(
        compute_runtime_lock_hash(Some(b"abc")).as_deref(),
        Some("ba7816bf8f01cfea414140de5dae2223b00361a396177a9cb410ff61f20015ad")
    );
    assert_eq!(compute_runtime_lock_hash(None), None);
}

fn waiting(id: &str) -> YieldReason {
    YieldReason::ApprovalRequired { approval_request_id: id.to_string() }
}

#[test]
fn checkpoints_go_with_their_approvals() {
    assert!(is_bound_to_approval(&waiting("apr-1"), "apr-1"));
    assert!(!is_bound_to_approval(&waiting("apr-1"), "apr-2"));
    assert!(!is_bound_to_approval(&YieldReason::ManualStop, "apr-1"));
    let reasons = vec![Some(waiting("apr-1")), None, Some(waiting("apr-2")), Some(waiting("apr-1"))];
    assert_eq!(delete_approval_bound_checkpoint(&reasons, "apr-1"), vec![0, 3]);
    let approvals = vec![
        ApprovalRead::Found(Some(ApprovalStatus::Rejected)),
        ApprovalRead::Absent,
        ApprovalRead::Absent,
        ApprovalRead::Found(None),
    ];
    assert_eq!(reap_orphan_checkpoints(&reasons, &approvals), vec![0, 2]);
    assert!(!is_orphan_checkpoint(&waiting("a"), &ApprovalRead::Failed));
    assert!(!is_orphan_checkpoint(
        &waiting("a"),
        &ApprovalRead::Found(Some(ApprovalStatus::Approved))
    ));
    assert!(is_orphan_checkpoint(
        &waiting("a"),
        &ApprovalRead::Found(Some(ApprovalStatus::Cancelled))
    ));
    assert!(!is_orphan_checkpoint(&YieldReason::Hibernation, &ApprovalRead::Absent));
}

#[test]
fn the_first_user_message_starts_a_session() {
    let mut cp = sample_checkpoint();
    assert_eq!(cp.initial_user_message(), "hello");
    cp.history = vec![Message::system("s"), Message::user("first"), Message::user("second")];
    assert_eq!(cp.initial_user_message(), "first");
    cp.history.clear();
    assert_eq!(cp.initial_user_message(), "");
}

#[test]
fn snapshots_say_where_a_configuration_came_from() {
    let profile = ResolvedInferenceProfile {
        llm_config: LlmConfig {
            provider: "llamacpp".to_string(),
            model: "qwen".to_string(),
            temperature_bits: (0.2f64).to_bits(),
            fallback_provider: None,
            fallback_model: Some("small".to_string()),
            chat_only: true,
            context_window_tokens: Some(4096),
            base_url: None,
            api_key_env: None,
            routing_preset: None,
            thinking: None,
            egress_class: None,
        },
        preset_name: Some("fast".to_string()),
        preset_source: "session".to_string(),
        session_override_preset: None,
    };
    let snap = LlmConfigSnapshot::from_inference_profile(&profile);
    assert_eq!(snap.provider, "llamacpp");
    assert_eq!(snap.model, "qwen");
    assert_eq!(f64::from_bits(snap.temperature_bits), 0.2);
    assert_eq!(snap.fallback_model.as_deref(), Some("small"));
    assert!(snap.chat_only);
    assert_eq!(snap.context_window_tokens, Some(4096));
    assert_eq!(snap.preset_name.as_deref(), Some("fast"));
    assert_eq!(snap.preset_source.as_deref(), Some("session"));
    assert_eq!(snap.session_override_preset, None);
}
