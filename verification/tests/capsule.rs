use autonoetic_gateway::capsule::{
    apply_delta, apply_delta_at, bootstrap_capsule_from_compressed_markers,
    build_delta_extraction_prompt, cap_completed_tasks, cap_decisions, capsule_archive_name,
    clean_delta_reply, compile_capsule_injection, seed_capsule, validate_delta_approvals,
    CapsuleDecision, CapsuleDelta, CapsuleTask, CapsuleTaskUpdate, PlanFrameSummary, StableIdentifier, StateCapsule,
};
use autonoetic_gateway::llm::{Message, Role};

fn make_capsule() -> StateCapsule {
    StateCapsule {
        version: 1,
        session_id: "test-session".into(),
        last_update_turn: 5,
        objective_and_criteria: "Build a thing".into(),
        decisions_and_rationale: vec![CapsuleDecision {
            turn: 1,
            summary: "Chose Rust".into(),
            rationale: "Best for perf".into(),
            referenced_ids: vec![],
        }],
        stable_identifiers: vec![StableIdentifier {
            category: "file".into(),
            value: "src/main.rs".into(),
            label: Some("Main".into()),
            first_seen_turn: 1,
        }],
        open_tasks: vec![
            CapsuleTask {
                description: "Write parser".into(),
                status: "in_progress".into(),
                added_turn: 2,
                completed_turn: None,
                blocker: None,
            },
            CapsuleTask {
                description: "Write tests".into(),
                status: "completed".into(),
                added_turn: 3,
                completed_turn: Some(5),
                blocker: None,
            },
        ],
        prior_decisions_summary: None,
        previous_version_handle: None,
        source_history_handle: None,
        updated_at: "2026-01-01T00:00:00Z".into(),
    }
}

#[test]
fn apply_delta_objective_update() {
    let mut capsule = make_capsule();
    let delta = CapsuleDelta {
        objective_update: Some("New objective".into()),
        new_decisions: vec![],
        new_identifiers: vec![],
        task_updates: vec![],
    };
    assert!(apply_delta(&mut capsule, delta, 6).is_ok());
    assert_eq!(capsule.objective_and_criteria, "New objective");
    assert_eq!(capsule.version, 2);
    assert_eq!(capsule.last_update_turn, 6);
}

#[test]
fn apply_delta_add_decisions() {
    let mut capsule = make_capsule();
    let delta = CapsuleDelta {
        objective_update: None,
        new_decisions: vec![CapsuleDecision {
            turn: 3,
            summary: "Chose Axum".into(),
            rationale: "Async HTTP".into(),
            referenced_ids: vec![],
        }],
        new_identifiers: vec![],
        task_updates: vec![],
    };
    assert!(apply_delta(&mut capsule, delta, 7).is_ok());
    assert_eq!(capsule.decisions_and_rationale.len(), 2);
    assert_eq!(capsule.decisions_and_rationale[1].summary, "Chose Axum");
}

#[test]
fn apply_delta_skips_duplicate_decisions() {
    let mut capsule = make_capsule();
    let delta = CapsuleDelta {
        objective_update: None,
        new_decisions: vec![
            CapsuleDecision {
                turn: 1,
                summary: "Chose Rust".into(),
                rationale: "Better rationale".into(),
                referenced_ids: vec![],
            },
            CapsuleDecision {
                turn: 3,
                summary: "Chose Axum".into(),
                rationale: "Async HTTP".into(),
                referenced_ids: vec![],
            },
        ],
        new_identifiers: vec![],
        task_updates: vec![],
    };
    assert!(apply_delta(&mut capsule, delta, 7).is_ok());
    assert_eq!(capsule.decisions_and_rationale.len(), 2);
    assert_eq!(capsule.decisions_and_rationale[1].summary, "Chose Axum");
}

#[test]
fn apply_delta_skips_duplicate_identifiers() {
    let mut capsule = make_capsule();
    let delta = CapsuleDelta {
        objective_update: None,
        new_decisions: vec![],
        new_identifiers: vec![
            StableIdentifier {
                category: "file".into(),
                value: "src/main.rs".into(),
                label: None,
                first_seen_turn: 99,
            },
            StableIdentifier {
                category: "dep".into(),
                value: "tokio".into(),
                label: Some("async runtime".into()),
                first_seen_turn: 6,
            },
        ],
        task_updates: vec![],
    };
    assert!(apply_delta(&mut capsule, delta, 7).is_ok());
    assert_eq!(capsule.stable_identifiers.len(), 2);
    assert_eq!(capsule.stable_identifiers[1].value, "tokio");
}

#[test]
fn apply_delta_task_updates() {
    let mut capsule = make_capsule();
    let delta = CapsuleDelta {
        objective_update: None,
        new_decisions: vec![],
        new_identifiers: vec![],
        task_updates: vec![
            CapsuleTaskUpdate::Add(CapsuleTask {
                description: "Deploy".into(),
                status: "pending".into(),
                added_turn: 6,
                completed_turn: None,
                blocker: None,
            }),
            CapsuleTaskUpdate::Complete {
                description: "Write parser".into(),
                turn: 6,
            },
            CapsuleTaskUpdate::Block {
                description: "Write tests".into(),
                blocker: "Need CI".into(),
            },
        ],
    };
    assert!(apply_delta(&mut capsule, delta, 7).is_ok());
    assert_eq!(capsule.open_tasks.len(), 3);
    let parser = capsule
        .open_tasks
        .iter()
        .find(|t| t.description == "Write parser")
        .unwrap();
    assert_eq!(parser.status, "completed");
    assert_eq!(parser.completed_turn, Some(6));
    let tests = capsule
        .open_tasks
        .iter()
        .find(|t| t.description == "Write tests")
        .unwrap();
    assert_eq!(tests.status, "blocked");
    assert_eq!(tests.blocker.as_deref(), Some("Need CI"));
    let deploy = capsule
        .open_tasks
        .iter()
        .find(|t| t.description == "Deploy")
        .unwrap();
    assert_eq!(deploy.status, "pending");
}

#[test]
fn apply_delta_task_remove() {
    let mut capsule = make_capsule();
    let delta = CapsuleDelta {
        objective_update: None,
        new_decisions: vec![],
        new_identifiers: vec![],
        task_updates: vec![CapsuleTaskUpdate::Remove {
            description: "Write parser".into(),
        }],
    };
    assert!(apply_delta(&mut capsule, delta, 7).is_ok());
    assert_eq!(capsule.open_tasks.len(), 1);
    assert_eq!(capsule.open_tasks[0].description, "Write tests");
}

#[test]
fn cap_decisions_overflow_moves_to_prior_summary() {
    let mut capsule = make_capsule();
    capsule.decisions_and_rationale.push(CapsuleDecision {
        turn: 2,
        summary: "Chose Axum".into(),
        rationale: "Async".into(),
        referenced_ids: vec![],
    });
    capsule.decisions_and_rationale.push(CapsuleDecision {
        turn: 3,
        summary: "Chose SQLite".into(),
        rationale: "Embedded".into(),
        referenced_ids: vec![],
    });
    assert_eq!(capsule.decisions_and_rationale.len(), 3);

    cap_decisions(&mut capsule, 1);

    assert_eq!(capsule.decisions_and_rationale.len(), 1);
    let prior = capsule.prior_decisions_summary.as_deref().unwrap();
    assert!(prior.contains("[Turn 1]"));
    assert!(prior.contains("[Turn 2]"));
    assert_eq!(
        capsule.objective_and_criteria,
        make_capsule().objective_and_criteria
    );
}

#[test]
fn cap_decisions_no_overflow_leaves_prior_unchanged() {
    let mut capsule = make_capsule();
    capsule.prior_decisions_summary = Some("Previous summary".into());
    cap_decisions(&mut capsule, 10);
    assert_eq!(capsule.decisions_and_rationale.len(), 1);
    assert_eq!(
        capsule.prior_decisions_summary.as_deref(),
        Some("Previous summary")
    );
}

#[test]
fn cap_completed_tasks_removes_oldest_first() {
    let mut capsule = make_capsule();
    capsule.open_tasks.push(CapsuleTask {
        description: "Task A".into(),
        status: "completed".into(),
        added_turn: 1,
        completed_turn: Some(2),
        blocker: None,
    });
    capsule.open_tasks.push(CapsuleTask {
        description: "Task B".into(),
        status: "completed".into(),
        added_turn: 3,
        completed_turn: Some(4),
        blocker: None,
    });
    assert_eq!(capsule.open_tasks.len(), 4);

    cap_completed_tasks(&mut capsule, 1);

    let completed: Vec<_> = capsule
        .open_tasks
        .iter()
        .filter(|t| t.status == "completed")
        .collect();
    assert_eq!(completed.len(), 1);
    assert_eq!(completed[0].description, "Task B");
}

#[test]
fn compile_capsule_injection_basic() {
    let capsule = make_capsule();
    let output = compile_capsule_injection(&capsule);

    assert!(output.contains("[SESSION STATE CAPSULE v1"));
    assert!(output.contains("## Objective"));
    assert!(output.contains("Build a thing"));
    assert!(output.contains("## Key Decisions"));
    assert!(output.contains("[Turn 1]"));
    assert!(output.contains("Chose Rust"));
    assert!(output.contains("## Active Identifiers"));
    assert!(output.contains("src/main.rs"));
    assert!(output.contains("## Open Tasks"));
    assert!(output.contains("Write parser"));
    assert!(output.contains("## Completed Tasks (Recent)"));
    assert!(output.contains("[done@5] Write tests"));
}

#[test]
fn compile_capsule_injection_includes_prior_decisions() {
    let mut capsule = make_capsule();
    capsule.prior_decisions_summary = Some("[Turn 0] Started: Initial planning".into());
    let output = compile_capsule_injection(&capsule);

    assert!(output.contains("## Prior Decisions (Summarized)"));
    assert!(output.contains("[Turn 0] Started: Initial planning"));
}

#[test]
fn bootstrap_capsule_from_compressed_markers_present() {
    
    let history = vec![Message {
        id: None,
        role: Role::Assistant,
        content: "Some text\n[COMPRESSED CONTEXT]\nprior info here\n[/COMPRESSED CONTEXT]"
            .into(),
        tool_calls: vec![],
        tool_call_id: None,
        reasoning_content: None,
        reasoning_details: None,
    }];

    let result = bootstrap_capsule_from_compressed_markers("sess-1", &history, 10);
    assert!(result.is_some());
    let capsule = result.unwrap();
    assert!(capsule.objective_and_criteria.contains("prior info here"));
    assert_eq!(capsule.session_id, "sess-1");
    assert_eq!(capsule.last_update_turn, 10);
}

#[test]
fn bootstrap_capsule_from_compressed_markers_absent() {
    let history = vec![Message {
        id: None,
        role: Role::Assistant,
        content: "Just normal text".into(),
        tool_calls: vec![],
        tool_call_id: None,
        reasoning_content: None,
        reasoning_details: None,
    }];

    let result = bootstrap_capsule_from_compressed_markers("sess-1", &history, 10);
    assert!(result.is_none());
}

#[test]
fn seed_capsule_reuses_prior_when_present() {
    // When a prior capsule is supplied, seed_capsule returns it verbatim
    // (the reuse path) and reports reused=true. The governor then evolves
    // it via extract_delta instead of re-summarizing into an empty shell.
    let mut prior = make_capsule();
    prior.version = 7;
    prior.source_history_handle = Some("sha-prior-handle".into());
    let history = vec![]; // not consulted when prior is Some
    let (capsule, reused) = seed_capsule(Some(&prior), "sess-1", &history, 12);
    assert!(reused, "prior present ⇒ reused path");
    assert_eq!(capsule.version, 7, "prior capsule returned as-is (apply_delta bumps later");
    assert_eq!(capsule.objective_and_criteria, prior.objective_and_criteria);
    assert_eq!(
        capsule.source_history_handle.as_deref(),
        Some("sha-prior-handle"),
        "prior handle carried through"
    );
}

#[test]
fn seed_capsule_falls_back_to_bootstrap_when_no_prior_but_marker_present() {
    // Legacy path: no prior capsule, but history carries a compressed
    // marker — recover the prior context from it.
    let history = vec![Message {
        id: None,
        role: Role::System,
        content: "[COMPRESSED CONTEXT] recovered objective".into(),
        tool_calls: vec![],
        tool_call_id: None,
        reasoning_content: None,
        reasoning_details: None,
    }];
    let (capsule, reused) = seed_capsule(None, "sess-1", &history, 9);
    assert!(!reused, "no prior ⇒ bootstrapped, not reused");
    assert!(capsule.objective_and_criteria.contains("recovered objective"));
}

#[test]
fn seed_capsule_fresh_shell_when_no_prior_no_marker() {
    let history = vec![Message {
        id: None,
        role: Role::User,
        content: "hello".into(),
        tool_calls: vec![],
        tool_call_id: None,
        reasoning_content: None,
        reasoning_details: None,
    }];
    let (capsule, reused) = seed_capsule(None, "sess-1", &history, 3);
    assert!(!reused);
    assert_eq!(capsule.version, 1, "fresh baseline capsule");
    assert!(capsule.objective_and_criteria.is_empty());
    assert_eq!(capsule.session_id, "sess-1");
}

fn make_plan_summary() -> PlanFrameSummary {
    PlanFrameSummary {
        plan_id: "plan_abc".into(),
        version: 3,
        status: "approved".into(),
        title: "Add OAuth login".into(),
        step_count: 5,
        operator_steps: vec!["op_login".into(), "op_logout".into()],
        agent_steps: vec!["agent_oauth".into(), "agent_logout".into()],
        required_validations: vec!["security_review".into()],
        advisory_validations: vec!["unit_tests".into()],
    }
}

#[test]
fn delta_prompt_without_plan_omits_anchor_block() {
    let messages = vec![Message {
        id: None,
        role: Role::User,
        content: "Discuss the auth flow".into(),
        tool_calls: vec![],
        tool_call_id: None,
        reasoning_content: None,
        reasoning_details: None,
    }];
    let prompt = build_delta_extraction_prompt(&messages, "{}", None);
    assert!(!prompt.contains("Active Plan"));
    assert!(!prompt.contains("plan_id"));
    assert!(prompt.contains("Recent Conversation Turns"));
}

#[test]
fn delta_prompt_with_plan_includes_anchor_block() {
    let messages = vec![Message {
        id: None,
        role: Role::User,
        content: "Discuss the auth flow".into(),
        tool_calls: vec![],
        tool_call_id: None,
        reasoning_content: None,
        reasoning_details: None,
    }];
    let plan = make_plan_summary();
    let prompt = build_delta_extraction_prompt(&messages, "{}", Some(&plan));
    assert!(prompt.contains("Active Plan"), "expected 'Active Plan' in prompt");
    assert!(prompt.contains("plan_abc"), "expected plan_id in prompt");
    assert!(prompt.contains("Add OAuth login"), "expected title in prompt");
    assert!(prompt.contains("op_login, op_logout"), "expected operator steps in prompt");
    assert!(prompt.contains("agent_oauth, agent_logout"), "expected agent steps in prompt");
    assert!(prompt.contains("security_review"), "expected required validations");
    assert!(prompt.contains("unit_tests"), "expected advisory validations");
    assert!(prompt.contains("relevance lens"), "expected framing as relevance lens");
}

#[test]
fn delta_prompt_with_minimal_plan_omits_empty_sections() {
    let plan = PlanFrameSummary {
        plan_id: "plan_min".into(),
        version: 1,
        status: "awaiting_approval".into(),
        title: String::new(),
        step_count: 0,
        operator_steps: vec![],
        agent_steps: vec![],
        required_validations: vec![],
        advisory_validations: vec![],
    };
    let prompt = build_delta_extraction_prompt(&[], "{}", Some(&plan));
    assert!(prompt.contains("plan_min"));
    assert!(!prompt.contains("operator/shared steps"));
    assert!(!prompt.contains("required validations"));
    assert!(!prompt.contains("advisory validations"));
}

#[test]
fn a_reference_to_a_lost_approval_is_refused() {
    let mut delta = CapsuleDelta {
        objective_update: None,
        new_decisions: vec![CapsuleDecision {
            turn: 3,
            summary: "Deploy".into(),
            rationale: "Approved".into(),
            referenced_ids: vec!["appr_1".into()],
        }],
        new_identifiers: vec![],
        task_updates: vec![],
    };
    let error = validate_delta_approvals(&delta, 7).unwrap_err();
    assert_eq!(
        error.message(),
        "Approval ID 'appr_1' referenced in decision but not preserved in stable_identifiers"
    );
    delta.new_identifiers.push(StableIdentifier {
        category: "approval".into(),
        value: "appr_1".into(),
        label: None,
        first_seen_turn: 3,
    });
    assert!(validate_delta_approvals(&delta, 7).is_ok());
}

#[test]
fn capping_says_what_it_took_away() {
    let mut capsule = make_capsule();
    cap_decisions(&mut capsule, 0);
    assert_eq!(
        capsule.prior_decisions_summary.as_deref(),
        Some("[Turn 1] Chose Rust: Best for perf")
    );
}

#[test]
fn replies_lose_their_fences() {
    assert_eq!(clean_delta_reply("```json\n{\"a\":1}\n```"), "\n{\"a\":1}\n");
    assert_eq!(clean_delta_reply("```{}"), "```{}");
    assert_eq!(clean_delta_reply("  {} "), "{}");
}

#[test]
fn evolution_dates_the_capsule() {
    let mut capsule = make_capsule();
    let delta = CapsuleDelta {
        objective_update: None,
        new_decisions: vec![],
        new_identifiers: vec![],
        task_updates: vec![],
    };
    apply_delta_at(&mut capsule, &delta, 9, "2026-02-02T00:00:00Z");
    assert_eq!(capsule.updated_at, "2026-02-02T00:00:00Z");
    assert_eq!(capsule.version, 2);
    assert_eq!(capsule_archive_name(&capsule, 9), "capsule_v1_turn_9");
}

#[test]
fn archived_capsules_name_their_handle() {
    let mut store = autonoetic_gateway::content_store::ContentStore::new();
    let mut capsule = make_capsule();
    capsule.version = 2;
    autonoetic_gateway::capsule::persist_capsule(&mut store, "s", &mut capsule, "{}", 9);
    let handle = capsule.source_history_handle.expect("a handle");
    assert_eq!(store.resolve_name("s", "capsule_v1_turn_9").unwrap(), handle);
    assert_eq!(store.read(&handle).unwrap(), b"{}");
    assert!(!store.is_handle_visible("other", &handle));
}
