use autonoetic_gateway::causal::CausalEventRecord;
use autonoetic_gateway::checkpoint::SessionState;
use autonoetic_gateway::context::{
    build_degradation_notice_tail, build_state_attestation, compose_foundation,
    compose_system_instructions_full, compose_system_instructions_with_metadata,
    compose_system_instructions_with_user_context, compute_burn_rate, generate_json_template,
    inline_extended, json_placeholder, memory_query_sink, pending_escalation_ids,
    render_user_context_snippet, role_from_manifest, safe_prefix_by_bytes, snapshot_budget_meters,
    workflow_status_user_message_for_chat, AgentManifest, AttestationReads, AttestationSubject,
    BindingScope, BudgetCounters, BudgetLimits, BudgetMeter, Capability, CivicItems,
    DegradationEvents, ExecutionMode, FoundationLayers, OutputPolicy, PendingRequest, PromptExtras,
    Ratio,
};
use autonoetic_gateway::continuation::ScheduledAction;
use autonoetic_gateway::egress::{EgressLabel, Sink};
use autonoetic_gateway::json::{Json, JsonField};

fn tree_of(v: serde_json::Value) -> Json {
    match v {
        serde_json::Value::Null => Json::Null,
        serde_json::Value::Bool(b) => Json::Bool(b),
        serde_json::Value::Number(n) => Json::Number(n.to_string()),
        serde_json::Value::String(s) => Json::Text(s),
        serde_json::Value::Array(a) => Json::List(a.into_iter().map(tree_of).collect()),
        serde_json::Value::Object(m) => Json::Object(
            m.into_iter().map(|(key, v)| JsonField { key, value: tree_of(v) }).collect(),
        ),
    }
}

fn tree(s: &str) -> Json {
    tree_of(serde_json::from_str(s).unwrap())
}

fn layers() -> FoundationLayers {
    FoundationLayers {
        core: "CORE\n".to_string(),
        workflow: "WORKFLOW".to_string(),
        artifact: "ARTIFACT".to_string(),
        script: "SCRIPT".to_string(),
        digest: "DIGEST".to_string(),
        sdk: "SDK".to_string(),
    }
}

fn default_test_manifest() -> AgentManifest {
    AgentManifest {
        agent_id: "test".to_string(),
        capabilities: vec![],
        execution_mode: ExecutionMode::Reasoning,
        needs_tool_bridging: None,
        io_returns: None,
    }
}

fn close(r: Ratio, expected: f64) -> bool {
    (r.numerator as f64 / r.denominator as f64 - expected).abs() < 0.01
}

#[test]
fn no_extended_returns_core_unchanged() {
    assert_eq!(inline_extended("core only", None), "core only");
}

#[test]
fn empty_extended_returns_core_unchanged() {
    assert_eq!(inline_extended("core only", Some("")), "core only");
}

#[test]
fn concatenates_with_blank_line_separator() {
    assert_eq!(
        inline_extended("core part", Some("extended part")),
        "core part\n\nextended part"
    );
}

#[test]
fn tool_bridging_injected_for_agentskills_import() {
    let mut manifest = default_test_manifest();
    manifest.needs_tool_bridging = Some(true);

    let output = compose_system_instructions_with_metadata(
        "Do git things with Bash(git log).",
        &manifest,
        &layers(),
        None,
    );

    assert!(
        output.contains("Tool Compatibility Notes"),
        "should include tool bridging appendix"
    );
    assert!(output.contains("Bash(command)"), "should contain Bash mapping");
    assert!(output.contains("resolve"), "should contain content.read mapping");
    assert!(
        output.contains("Do git things with Bash(git log)."),
        "should still contain agent instructions"
    );
}

#[test]
fn no_tool_bridging_without_agentskills_import() {
    let mut manifest = default_test_manifest();
    let output =
        compose_system_instructions_with_metadata("Do things.", &manifest, &layers(), None);
    assert!(
        !output.contains("Tool Compatibility Notes"),
        "should not include tool bridging for native agents"
    );
    manifest.needs_tool_bridging = Some(false);
    let output =
        compose_system_instructions_with_metadata("Do things.", &manifest, &layers(), None);
    assert!(!output.contains("Tool Compatibility Notes"));
}

#[test]
fn output_contract_states_no_markdown_fences() {
    let mut manifest = default_test_manifest();
    manifest.io_returns = Some(tree(
        r#"{"type": "object", "required": ["status"],
            "properties": { "status": { "type": "string" } }}"#,
    ));
    let output =
        compose_system_instructions_with_metadata("Do things.", &manifest, &layers(), None);
    assert!(output.contains("Your Output Contract"));
    assert!(
        output.contains("no markdown code fences"),
        "io.returns contract must instruct no fences: {output}"
    );
}

#[test]
fn output_contract_states_anomalies_witness_line_when_present() {
    let mut manifest = default_test_manifest();
    manifest.io_returns = Some(tree(
        r#"{"type": "object", "required": ["status", "anomalies"],
            "properties": { "status": { "type": "string" }, "anomalies": { "type": "array" } }}"#,
    ));
    let output =
        compose_system_instructions_with_metadata("Do things.", &manifest, &layers(), None);
    assert!(output.contains("Your Output Contract"));
    assert!(output.contains("anomalies"));
    assert!(
        output.contains("standing witness contract"),
        "expected the anomalies witness-contract doctrine line: {output}"
    );
}

#[test]
fn output_contract_omits_anomalies_line_when_absent() {
    let mut manifest = default_test_manifest();
    manifest.io_returns = Some(tree(
        r#"{"type": "object", "required": ["status"],
            "properties": { "status": { "type": "string" } }}"#,
    ));
    let output =
        compose_system_instructions_with_metadata("Do things.", &manifest, &layers(), None);
    assert!(
        !output.contains("standing witness contract"),
        "no anomalies property declared; witness line must not appear: {output}"
    );
}

#[test]
fn workflow_chat_planner_nonempty_only_headline() {
    let s = "workflow wf-abc · 2 done [RESUMABLE]\n  last intent (v3): long details here";
    let m = workflow_status_user_message_for_chat(s, false);
    assert!(m.starts_with("**Workflow status:**"));
    assert!(m.contains("wf-abc"));
    assert!(!m.contains("long details"));
}

#[test]
fn workflow_chat_planner_empty_includes_intent_snippet() {
    let s = "workflow wf-abc · 2 done [RESUMABLE]\n  last intent (v3): Done with task.";
    let m = workflow_status_user_message_for_chat(s, true);
    assert!(m.contains("wf-abc"));
    assert!(m.contains("Done with task."));
}

#[test]
fn json_template_coder_schema() {
    let schema = tree(
        r#"{
            "type": "object",
            "required": ["status"],
            "properties": {
                "status": { "type": "string" },
                "artifact_ref": { "type": "string" },
                "clarification_request": { "type": "object" },
                "reason": { "type": "string" },
                "dependency_files": { "type": "array", "items": { "type": "string" } }
            }
        }"#,
    );
    let tmpl = generate_json_template(&schema);
    assert!(tmpl.contains("\"status\": \"(required)\""));
    assert!(tmpl.contains("\"artifact_ref\": \"...\""));
    assert!(tmpl.contains("\"clarification_request\": {}"));
    assert!(tmpl.contains("\"dependency_files\": []"));
}

#[test]
fn json_template_empty_schema() {
    let schema = tree(r#"{"type": "object"}"#);
    let tmpl = generate_json_template(&schema);
    assert_eq!(tmpl, "{}");
}

#[test]
fn burn_rate_none_on_turn_zero() {
    assert!(compute_burn_rate(&vec![], 0).is_none());
}

#[test]
fn burn_rate_none_without_token_meter() {
    let meters =
        vec![BudgetMeter { name: "llm_rounds".to_string(), used: 5, limit: Some(20) }];
    assert!(compute_burn_rate(&meters, 5).is_none());
}

#[test]
fn burn_rate_shows_remaining_even_when_no_usage() {
    let meters =
        vec![BudgetMeter { name: "llm_tokens".to_string(), used: 0, limit: Some(10000) }];
    let forecast = compute_burn_rate(&meters, 1).expect("forecast");
    assert_eq!(forecast.tokens_per_turn.numerator, 0);
    assert_eq!(forecast.remaining_tokens, Some(10000));
    assert!(forecast.projected_turns_remaining.is_none());
}

#[test]
fn burn_rate_computes_projected_turns() {
    let meters = vec![
        BudgetMeter { name: "llm_rounds".to_string(), used: 10, limit: Some(20) },
        BudgetMeter { name: "llm_tokens".to_string(), used: 5000, limit: Some(10000) },
    ];
    let forecast = compute_burn_rate(&meters, 10).expect("forecast");
    assert!(close(forecast.tokens_per_turn, 500.0));
    assert_eq!(forecast.remaining_tokens, Some(5000));
    let turns = forecast.projected_turns_remaining.expect("projection");
    assert_eq!(turns.numerator as f64 / turns.denominator as f64, 10.0);
}

#[test]
fn burn_rate_no_projection_without_limit() {
    let meters = vec![BudgetMeter { name: "llm_tokens".to_string(), used: 5000, limit: None }];
    let forecast = compute_burn_rate(&meters, 10).expect("forecast");
    assert!(close(forecast.tokens_per_turn, 500.0));
    assert!(forecast.remaining_tokens.is_none());
    assert!(forecast.projected_turns_remaining.is_none());
}

#[test]
fn foundations_follow_the_agent() {
    let mut m = default_test_manifest();
    assert_eq!(compose_foundation(&m, &layers()), "CORE\n\n---\n\nWORKFLOW");
    m.execution_mode = ExecutionMode::Script;
    assert_eq!(compose_foundation(&m, &layers()), "CORE\n\n---\n\nSCRIPT");
    m.capabilities.push(Capability::WriteAccess { scopes: vec!["digest.lesson".to_string()] });
    assert_eq!(
        compose_foundation(&m, &layers()),
        "CORE\n\n---\n\nARTIFACT\n\n---\n\nSCRIPT\n\n---\n\nDIGEST"
    );
    m.capabilities = vec![Capability::ArtifactExecution];
    assert_eq!(compose_foundation(&m, &layers()), "CORE\n\n---\n\nSCRIPT\n\n---\n\nSDK");
    m.capabilities = vec![Capability::AgentSpawn { max_children: 1, max_spawn_depth: 1 }];
    assert_eq!(
        compose_foundation(&m, &layers()),
        "CORE\n\n---\n\nWORKFLOW\n\n---\n\nSCRIPT\n\n---\n\nSDK"
    );
    m.capabilities = vec![];
    m.agent_id = "architect.default".to_string();
    assert_eq!(compose_foundation(&m, &layers()), "CORE\n\n---\n\nSCRIPT\n\n---\n\nSDK");
    assert_eq!(role_from_manifest("architect.default").as_deref(), Some("architect"));
    assert_eq!(role_from_manifest("planner").as_deref(), Some("planner"));
    assert_eq!(role_from_manifest(".x"), None);
}

#[test]
fn prompts_keep_their_layers_in_order() {
    let m = default_test_manifest();
    let extras = PromptExtras {
        user_context: Some("PROFILE"),
        persona: Some("PERSONA"),
        guidance: Some("  GUIDE  "),
    };
    let policy = OutputPolicy {
        required_artifacts: vec!["a".to_string(), "b".to_string()],
        max_artifacts: Some(3),
        max_total_size_mb: None,
        max_reply_length_chars: None,
        min_artifact_builds: Some(1),
        prohibited_text_patterns: vec![],
        validation_max_loops: 2,
    };
    let p = compose_system_instructions_full(" OWN ", &m, &layers(), Some(&policy), &extras);
    let order = [
        "CORE",
        "WORKFLOW",
        "Guidance\n\nGUIDE\n\n",
        "PERSONA",
        "PROFILE",
        "Agent-Specific Instructions\n\n\n\nOWN",
        "Your Output Contract",
        "- **required_artifacts**: a, b\n- **max_artifacts**: 3\n",
        "- **min_artifact_builds**: 1 (durable `artifact.build` trace required)\n",
        "- **validation_max_loops**: 2",
    ];
    let mut from = 0;
    for part in order {
        let at = p[from..].find(part);
        assert!(at.is_some(), "{part} is missing or out of place: {p}");
        from += at.unwrap() + part.len();
    }
    assert!(p.starts_with("CORE"));
    assert_eq!(from, p.len());

    let none = PromptExtras { user_context: None, persona: None, guidance: Some("  ") };
    assert_eq!(
        compose_system_instructions_full("  ", &m, &layers(), None, &none),
        "CORE\n\n---\n\nWORKFLOW"
    );
    assert_eq!(
        compose_system_instructions_with_user_context("", &m, &layers(), None, Some("PROFILE")),
        "CORE\n\n---\n\nWORKFLOW\n\nPROFILE"
    );
}

#[test]
fn placeholders_follow_the_type() {
    let text = |j: Json| match j {
        Json::Text(s) => s,
        other => panic!("{other:?}"),
    };
    assert_eq!(text(json_placeholder(&tree("{}"), true)), "...");
    assert_eq!(text(json_placeholder(&tree("{}"), false)), "(required)");
    assert_eq!(text(json_placeholder(&tree(r#"{"type": "null"}"#), true)), "(null)");
    assert!(matches!(
        json_placeholder(&tree(r#"{"type": "boolean"}"#), true),
        Json::Bool(false)
    ));
    assert!(matches!(
        json_placeholder(&tree(r#"{"type": "integer"}"#), true),
        Json::Number(n) if n == "0"
    ));
}

#[test]
fn profiles_are_shown_by_scope() {
    let profile = Some(r#"{"preferences": {"tone": "dry"}, "secret": 1}"#.to_string());
    let full = render_user_context_snippet(&profile, BindingScope::Full).unwrap();
    assert!(full.contains("(scope: full)"));
    assert!(full.contains(r#""secret":1"#));
    let restricted = render_user_context_snippet(&profile, BindingScope::Restricted).unwrap();
    assert!(restricted.contains(r#"{"preferences":{"tone":"dry"}}"#));
    assert!(!restricted.contains("secret"));
    assert_eq!(render_user_context_snippet(&profile, BindingScope::TaskOnly), None);
    assert_eq!(render_user_context_snippet(&None, BindingScope::Full), None);
    for nothing in ["{}", "null", "{not json"] {
        assert_eq!(
            render_user_context_snippet(&Some(nothing.to_string()), BindingScope::Full),
            None
        );
    }
    let long = Some(format!("\"{}\"", "é".repeat(2000)));
    let cut = render_user_context_snippet(&long, BindingScope::Full).unwrap();
    assert!(cut.ends_with("é...\n```"));
    assert_eq!(safe_prefix_by_bytes("aéb", 2), "a");
    assert_eq!(safe_prefix_by_bytes("aéb", 3), "aé");
}

#[test]
fn blank_workflows_are_only_updated() {
    assert_eq!(
        workflow_status_user_message_for_chat(" \nlast intent: ", true),
        "**Workflow status:** Workflow updated."
    );
    let long = format!("w\nlast intent: {}", "x".repeat(1300));
    assert_eq!(
        workflow_status_user_message_for_chat(&long, true),
        format!("**Workflow status:** w\n\n{}…", "x".repeat(1200))
    );
}

fn event(action: &str, rules: &[&str], payload: Option<&str>, reason: Option<&str>) -> CausalEventRecord {
    CausalEventRecord {
        event_id: "ev-1".to_string(),
        agent_id: "a".to_string(),
        session_id: "root/child".to_string(),
        turn_id: None,
        event_seq: 0,
        timestamp: "2026-01-01T00:00:00Z".to_string(),
        category: "session".to_string(),
        action: action.to_string(),
        status: "ok".to_string(),
        enforced_rules: rules.iter().map(|r| r.to_string()).collect(),
        target: None,
        payload: payload.map(|s| s.to_string()),
        payload_ref: None,
        evidence_ref: None,
        reason: reason.map(|s| s.to_string()),
    }
}

#[test]
fn degraded_sessions_are_told_why() {
    let told = |own: Vec<CausalEventRecord>, root: Option<Vec<CausalEventRecord>>, id: &str| {
        build_degradation_notice_tail(
            SessionState::Degraded,
            id,
            &Some(DegradationEvents { own, root }),
        )
    };
    assert_eq!(build_degradation_notice_tail(SessionState::Normal, "s", &None), Ok(None));
    assert_eq!(
        build_degradation_notice_tail(SessionState::Degraded, "s", &None).unwrap().unwrap(),
        "[Ri-0.5 DEGRADED NOTICE] Session 's' is in degraded mode. Trigger evidence unavailable (no gateway store)."
    );
    assert_eq!(
        told(vec![event("session.start", &["R"], None, None)], None, "root/child").unwrap().unwrap(),
        "[Ri-0.5 DEGRADED NOTICE] Session 'root/child' is in degraded mode. session.degraded causal event not found."
    );
    let found = told(
        vec![],
        Some(vec![event("session.degraded", &["R1", "R2"], None, Some("slow"))]),
        "root/child",
    );
    assert_eq!(
        found.unwrap().unwrap(),
        "---\n\nDegradation Notice (Ri-0.5)\n\nThis session is in degraded mode before this turn executes.\nRule IDs: R1, R2\nEvidence Event: ev-1\nEvidence: {\"reason\":\"slow\"}\n"
    );
    let own_root = told(
        vec![],
        Some(vec![event("session.degraded", &["R1"], None, Some("slow"))]),
        "root",
    );
    assert!(own_root.unwrap().unwrap().contains("not found"));
    assert_eq!(
        told(vec![event("session.degraded", &[], Some("{}"), None)], None, "root/child"),
        Err("Ri-0.5 violation: session.degraded event 'ev-1' has no enforced rule IDs".to_string())
    );
    assert_eq!(
        told(vec![event("session.degraded", &["R"], None, None)], None, "root/child"),
        Err("Ri-0.5 violation: session.degraded event 'ev-1' has no evidence payload".to_string())
    );
}

fn pending() -> Vec<PendingRequest> {
    vec![
        PendingRequest {
            request_id: "apr-1".to_string(),
            action: ScheduledAction::Other { variant: "x".to_string() },
        },
        PendingRequest {
            request_id: "apr-2".to_string(),
            action: ScheduledAction::SessionEscalate,
        },
    ]
}

fn subject() -> AttestationSubject {
    AttestationSubject {
        agent_id: "a".to_string(),
        session_id: Some("root/child".to_string()),
        turn_counter: 4,
        gateway_node_id: "n".to_string(),
        constitution_version: "1".to_string(),
        constitution_digest: "d".to_string(),
        model_id: "m".to_string(),
    }
}

#[test]
fn attestations_report_what_could_be_read() {
    assert_eq!(pending_escalation_ids(&pending()), vec!["apr-2"]);
    let meters = snapshot_budget_meters(
        Some("root/child"),
        Some(BudgetCounters { rounds: 2, tokens: 100, cost_usd_bits: 0.25f64.to_bits() }),
        BudgetLimits {
            max_llm_rounds: None,
            max_llm_tokens: Some(300),
            max_session_price_usd_bits: Some(1.5f64.to_bits()),
        },
    );
    assert_eq!(meters.len(), 3);
    assert_eq!((meters[0].name.as_str(), meters[0].used, meters[0].limit), ("llm_rounds", 2, None));
    assert_eq!(
        (meters[1].name.as_str(), meters[1].used, meters[1].limit),
        ("llm_tokens", 100, Some(300))
    );
    assert_eq!(meters[2].name, "session_price_usd");
    assert_eq!(f64::from_bits(meters[2].used), 0.25);
    assert_eq!(meters[2].limit.map(f64::from_bits), Some(1.5));
    assert!(snapshot_budget_meters(
        Some(""),
        Some(BudgetCounters { rounds: 2, tokens: 100, cost_usd_bits: 0 }),
        BudgetLimits {
            max_llm_rounds: None,
            max_llm_tokens: None,
            max_session_price_usd_bits: None,
        },
    )
    .is_empty());
    let reads = AttestationReads {
        requests: Some(pending()),
        interaction_ids: None,
        civic: Some(CivicItems {
            proposal_ids: vec!["p".to_string()],
            flag_ids: vec![],
            invitations: vec![],
        }),
    };
    let a = build_state_attestation(true, subject(), reads, meters).expect("attestation");
    assert_eq!(a.root_session_id.as_deref(), Some("root"));
    assert_eq!(a.pending_approval_ids, vec!["apr-1", "apr-2"]);
    assert_eq!(a.pending_escalation_ids, vec!["apr-2"]);
    assert!(a.pending_user_interaction_ids.is_empty());
    assert_eq!(a.pending_proposal_ids, vec!["p"]);
    let burn = a.burn_rate.expect("rate");
    assert!(close(burn.tokens_per_turn, 25.0));
    assert_eq!(burn.remaining_tokens, Some(200));
    let turns = burn.projected_turns_remaining.expect("turns");
    assert_eq!(turns.numerator / u128::from(turns.denominator), 8);
    let unread = AttestationReads { requests: None, interaction_ids: None, civic: None };
    assert!(build_state_attestation(false, subject(), unread, vec![]).is_none());
}

#[test]
fn memories_are_read_for_the_model_that_may_see_them() {
    assert_eq!(memory_query_sink(EgressLabel::unrestricted()), None);
    assert_eq!(memory_query_sink(EgressLabel::local_only()), Some(Sink::LocalModel));
}
