use autonoetic_gateway::continuation::{
    continuation_file_name, continuation_hmac_key, execute_approved_action,
    list_suspended_task_ids, load_continuation, reap_orphaned_continuations, reconstruct_history,
    save_continuation, ApprovedStep, ExecDependencies, PendingApprovalToolCall, ScheduledAction,
    ToolOutcome, TurnContinuation,
};
use autonoetic_gateway::json::Json;
use autonoetic_gateway::llm::{Message, Role, ToolCall};
use autonoetic_gateway::sealed::{canonical_json, open_file, seal, Opened};

#[test]
fn continuations_are_kept_signed() {
    let key = continuation_hmac_key(&None, "node");
    assert_eq!(key, "autonoetic-continuation-node");
    assert_eq!(continuation_file_name("task-1"), "task-1.json");
    let file = save_continuation(&key, "task-1", "{ \"b\": 1, \"a\": [true] }").expect("a file");
    assert_eq!(file.name, "task-1.json");
    assert_eq!(
        load_continuation(&key, "task-1", &file.content).unwrap(),
        "{\"a\":[true],\"b\":1}"
    );
    let err = load_continuation("another", "task-1", &file.content).unwrap_err();
    assert_eq!(
        err.message(),
        "continuation integrity violation for task 'task-1': HMAC mismatch"
    );
    assert_eq!(load_continuation(&key, "task-1", "{\"plain\":1}").unwrap(), "{\"plain\":1}");
    assert!(save_continuation(&key, "task-1", "not json").is_none());
}

#[test]
fn envelopes_tell_payloads_apart() {
    assert_eq!(canonical_json("{\"b\":1,\n\"a\":2}").as_deref(), Some("{\"a\":2,\"b\":1}"));
    assert_eq!(canonical_json("{"), None);
    let file = seal("k", "[1, 2]").unwrap();
    assert!(matches!(open_file("k", &file), Opened::Payload(p) if p == "[1,2]"));
    assert!(matches!(open_file("k", &file.replace("[1,2]", "[1,3]")), Opened::Tampered));
    assert!(matches!(open_file("k", "{\"payload_json\":\"x\"}"), Opened::Unsigned));
    assert!(matches!(
        open_file("k", r#"{"payload_json":"x","hmac_hex":"00"}"#),
        Opened::Tampered
    ));
    for repeated in [
        r#"{"payload_json":"y","payload_json":"x","hmac_hex":"00"}"#,
        r#"{"hmac_hex" : "1", "payload_json":"x", "hmac_hex":"00"}"#,
        r#"{"payload\u005fjson":"y","payload_json":"x","hmac_hex":"00"}"#,
    ] {
        assert!(matches!(open_file("k", repeated), Opened::Unsigned), "{repeated}");
    }
    for single in [
        r#"{"payload_json":"x","hmac_hex":"00","other":{"payload_json":1}}"#,
        r#"{"note":"\"payload_json\": ","payload_json":"x","hmac_hex":"00","a":1,"a":2}"#,
    ] {
        assert!(matches!(open_file("k", single), Opened::Tampered), "{single}");
    }
}

#[test]
fn suspended_tasks_are_those_of_the_files() {
    let names = vec!["t1.json".to_string(), "notes.txt".to_string(), "t2.json".to_string()];
    let tasks = list_suspended_task_ids(&names);
    assert_eq!(tasks, vec!["t1", "t2"]);
    let statuses = vec![Some("pending".to_string()), Some("approved".to_string())];
    assert_eq!(reap_orphaned_continuations(&tasks, &statuses), vec!["t2"]);
    assert_eq!(reap_orphaned_continuations(&tasks, &vec![None, None]), vec!["t1", "t2"]);
}

#[test]
fn approved_actions_run_with_their_approval() {
    let exec = ScheduledAction::SandboxExec {
        command: "ls".to_string(),
        dependencies: Some(ExecDependencies {
            runtime: "python".to_string(),
            packages: vec!["requests".to_string()],
        }),
    };
    match execute_approved_action(&exec, "apr-1") {
        Ok(ApprovedStep::RunTool { tool_name, arguments }) => {
            assert_eq!(tool_name, "sandbox_exec");
            assert_eq!(
                arguments,
                r#"{"approval_ref":"apr-1","command":"ls","dependencies":{"packages":["requests"],"runtime":"python"}}"#
            );
        }
        other => panic!("{other:?}"),
    }
    let go_on = ScheduledAction::SessionContinue {
        session_id: "s".to_string(),
        turn_counter: 5,
        max_turns: 9,
    };
    match execute_approved_action(&go_on, "apr-1") {
        Ok(ApprovedStep::Answer { result }) => assert_eq!(
            result,
            r#"{"approval_required":false,"continued":true,"max_turns":9,"ok":true,"request_id":"apr-1","session_id":"s","turn_counter":5}"#
        ),
        other => panic!("{other:?}"),
    }
    let credential = ScheduledAction::CredentialRequest {
        credential_id: "c".to_string(),
        url: "https://x".to_string(),
        method: Some("POST".to_string()),
        headers: None,
        body: Some(Json::Bool(true)),
        inject_secret_as: None,
    };
    match execute_approved_action(&credential, "apr-1") {
        Ok(ApprovedStep::RunTool { arguments, .. }) => assert_eq!(
            arguments,
            r#"{"approval_ref":"apr-1","body":true,"credential_id":"c","method":"POST","url":"https://x"}"#
        ),
        other => panic!("{other:?}"),
    }
}

#[test]
fn other_approved_actions_are_refused() {
    let message = |a: ScheduledAction| execute_approved_action(&a, "apr-1").unwrap_err().message();
    assert_eq!(
        message(ScheduledAction::AgentInstall { agent_id: "a".to_string() }),
        "Legacy approval action 'AgentInstall' for 'a' cannot be executed: agent.install has been removed. Use revision create + promote workflows."
    );
    assert_eq!(
        message(ScheduledAction::SessionEscalate),
        "SessionEscalate approval is handled by injecting operator guidance into the conversation; no action execution needed"
    );
    assert_eq!(
        message(ScheduledAction::Other { variant: "Other".to_string() }),
        "execute_approved_action: unsupported ScheduledAction variant Other"
    );
}

fn outcome(id: &str, result: &str) -> ToolOutcome {
    ToolOutcome {
        call_id: id.to_string(),
        tool_name: "t".to_string(),
        result: result.to_string(),
    }
}

#[test]
fn turns_go_on_where_they_stopped() {
    let mut asked = Message::assistant("on it");
    for id in ["c1", "c2", "c3"] {
        asked.tool_calls.push(ToolCall {
            id: id.to_string(),
            name: "t".to_string(),
            arguments: "{}".to_string(),
        });
    }
    let cont = TurnContinuation {
        history: vec![Message::user("do it")],
        assistant_message: asked,
        completed_tool_results: vec![outcome("c1", "first")],
        pending_tool_call: PendingApprovalToolCall {
            call_id: "c2".to_string(),
            tool_name: "t".to_string(),
            arguments: "{}".to_string(),
            approval_response: "{}".to_string(),
        },
        remaining_tool_calls: vec![],
        approval_request_id: "apr-1".to_string(),
        pending_action: None,
        workflow_id: None,
        task_id: None,
        session_id: "s".to_string(),
        turn_id: "turn-000001".to_string(),
        suspended_at: "2026-01-01T00:00:00Z".to_string(),
        loop_guard_state: Json::Null,
    };
    let history = reconstruct_history(&cont, "second", &vec![outcome("c3", "third")]);
    let said: Vec<&str> = history.iter().map(|m| m.content.as_str()).collect();
    assert_eq!(said, vec!["do it", "on it", "first", "second", "third"]);
    assert_eq!(history[1].tool_calls.len(), 3);
    assert!(history[2..].iter().all(|m| m.role == Role::Tool));
    assert_eq!(history[3].tool_call_id.as_deref(), Some("c2"));
}
