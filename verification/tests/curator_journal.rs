use autonoetic_gateway::curator_journal::{
    curator_output_memory_id, decision_journal_events, decision_journal_events_at, extract_decision_journal_entries,
    extract_journal_record, extract_json_object_slice,
};

#[test]
fn parses_plain_json() {
    let reply = r#"{"decision_journal": [{"target": "mem-1", "action": "keep", "reason_code": "high_confidence_pattern"}]}"#;
    let entries = extract_decision_journal_entries(reply).unwrap();
    assert_eq!(entries.len(), 1);
    assert_eq!(entries[0].target, "mem-1");
    assert_eq!(entries[0].action, "keep");
}

#[test]
fn parses_fenced_json() {
    let reply = "I previously wrapped my output in markdown code fences. Let me resubmit.\n\n```json\n{\"decision_journal\": [{\"target\": \"mem-2\", \"action\": \"promote_to_skill\", \"reason_code\": \"high_confidence_pattern\", \"reason_detail\": \"recurring across 3 sessions\", \"target_agent\": \"planner.default\", \"proposed_instruction\": \"Never call sandbox_exec directly.\"}]}\n```\n";
    let entries = extract_decision_journal_entries(reply).unwrap();
    assert_eq!(entries.len(), 1);
    assert_eq!(entries[0].target, "mem-2");
    assert_eq!(entries[0].action, "promote_to_skill");
}

#[test]
fn parses_fenced_json_without_lang_tag() {
    let reply = "Here's the journal:\n```\n{\"decision_journal\": [{\"target\": \"mem-3\", \"action\": \"drop\", \"reason_code\": \"stale\"}]}\n```";
    let entries = extract_decision_journal_entries(reply).unwrap();
    assert_eq!(entries.len(), 1);
    assert_eq!(entries[0].action, "drop");
}

#[test]
fn returns_none_for_missing_journal() {
    let reply = r#"{"agent_scores": {}}"#;
    assert!(extract_decision_journal_entries(reply).is_none());
}

#[test]
fn skips_malformed_entries() {
    let reply = r#"{"decision_journal": [
        {"target": "good", "action": "keep", "reason_code": "high_confidence_pattern"},
        {"action": "keep", "reason_code": "missing_target"},
        "not_an_object"
    ]}"#;
    let entries = extract_decision_journal_entries(reply).unwrap();
    assert_eq!(entries.len(), 1);
    assert_eq!(entries[0].target, "good");
}

#[test]
fn accepts_promote_to_skill_with_routing_fields() {
    let reply = r#"{"decision_journal": [{
        "target": "pattern-123", "action": "promote_to_skill", "reason_code": "high_confidence_pattern",
        "target_agent": "planner.default",
        "proposed_instruction": "Never call sandbox_exec directly; always delegate via agent_spawn."
    }]}"#;
    let entries = extract_decision_journal_entries(reply).unwrap();
    assert_eq!(entries.len(), 1);
    assert_eq!(entries[0].action, "promote_to_skill");
    assert_eq!(entries[0].target_agent.as_deref(), Some("planner.default"));
}

#[test]
fn rejects_promote_to_skill_missing_target_agent() {
    let reply = r#"{"decision_journal": [{
        "target": "pattern-123", "action": "promote_to_skill", "reason_code": "high_confidence_pattern",
        "proposed_instruction": "Some instruction"
    }]}"#;
    let entries = extract_decision_journal_entries(reply).unwrap();
    assert!(entries.is_empty());
}

#[test]
fn rejects_promote_to_skill_missing_proposed_instruction() {
    let reply = r#"{"decision_journal": [{
        "target": "pattern-123", "action": "promote_to_skill", "reason_code": "high_confidence_pattern",
        "target_agent": "planner.default"
    }]}"#;
    let entries = extract_decision_journal_entries(reply).unwrap();
    assert!(entries.is_empty());
}

#[test]
fn rejects_promote_to_skill_missing_both_fields() {
    let reply = r#"{"decision_journal": [{
        "target": "pattern-123", "action": "promote_to_skill", "reason_code": "high_confidence_pattern"
    }]}"#;
    let entries = extract_decision_journal_entries(reply).unwrap();
    assert!(entries.is_empty());
}

#[test]
fn keeps_valid_entries_when_mixed_with_rejected() {
    let reply = r#"{"decision_journal": [
        {"target": "pattern-keep", "action": "keep", "reason_code": "high_confidence_pattern"},
        {"target": "pattern-reject", "action": "promote_to_skill", "reason_code": "high_confidence_pattern"},
        {"target": "pattern-ok", "action": "promote_to_skill", "reason_code": "high_confidence_pattern",
         "target_agent": "executor.default", "proposed_instruction": "Use bash -c wrapper."}
    ]}"#;
    let entries = extract_decision_journal_entries(reply).unwrap();
    assert_eq!(entries.len(), 2);
    assert_eq!(entries[0].target, "pattern-keep");
    assert_eq!(entries[1].target, "pattern-ok");
}
#[test]
fn curator_output_memory_id_uses_session_id() {
    let session_id = "curator-final";
    assert_eq!(curator_output_memory_id(session_id), "curator-output-curator-final");
}

#[test]
fn curator_output_memory_id_escapes_slashes() {
    let session_id = "evo-cycle/memory-curator.default-abc123";
    assert_eq!(
        curator_output_memory_id(session_id),
        "curator-output-evo-cycle-memory-curator.default-abc123"
    );
}

#[test]
fn objects_are_found_in_replies() {
    assert_eq!(extract_json_object_slice("no object"), None);
    assert_eq!(extract_json_object_slice(" {\"a\": 1} ").as_deref(), Some("{\"a\": 1}"));
    assert_eq!(
        extract_json_object_slice("see\n```json\n{\"a\": \"}\"}\n```\nbye").as_deref(),
        Some("{\"a\": \"}\"}")
    );
    assert!(extract_decision_journal_entries("{broken").is_none());
}

#[test]
fn journals_leave_records_and_events() {
    let reply = r#"{"decision_journal": [
        {"target": "p", "action": "promote_to_skill", "reason_code": "r", "confidence": 0.5,
         "target_agent": "coder.default", "proposed_instruction": "Do it."},
        {"target": "q", "action": "drop", "reason_code": "stale", "reason_detail": "old"}
    ]}"#;
    let record = extract_journal_record("curator", "s/1", reply).expect("a record");
    assert_eq!(record.entries.len(), 2);
    assert_eq!(record.graduations.len(), 1);
    assert_eq!(record.graduations[0].id, "grad-coder.default-p");
    assert_eq!(
        record.graduations[0].content,
        "promote_to_skill: agent=coder.default, target=p, instruction=Do it."
    );
    assert_eq!(record.graduations[0].confidence.as_deref(), Some("0.5"));
    assert_eq!(record.output.id, "curator-output-s-1");
    assert_eq!(record.output.content, reply);
    assert!(extract_journal_record("curator", "s", r#"{"decision_journal": []}"#).is_none());

    let unique = vec!["u1".to_string(), "u2".to_string(), "u3".to_string()];
    let events = decision_journal_events_at(
        "curation",
        "curator",
        "s/1",
        Some("rev-1"),
        &record.entries,
        &unique,
        "2026-01-01T00:00:00Z",
    );
    assert_eq!(events.len(), 3);
    assert_eq!(events[1].event_id, "curation-dec-u2");
    assert_eq!(events[1].event_seq, 1);
    assert_eq!(events[1].target.as_deref(), Some("q"));
    assert_eq!(events[1].reason.as_deref(), Some("old"));
    assert_eq!(events[2].event_id, "curation-jrn-u3");
    assert_eq!(events[2].action, "decision_journal_recorded");
    assert_eq!(
        events[2].payload.as_deref(),
        Some(r#"{"agent_id":"curator","entry_count":2,"revision_id":"rev-1","session_id":"s/1"}"#)
    );

    let fresh = decision_journal_events("curation", "curator", "s/1", None, &record.entries);
    assert_eq!(fresh.len(), 3);
    assert!(fresh[0].event_id.starts_with("curation-dec-"));
    assert_ne!(fresh[0].event_id, fresh[1].event_id);
    assert!(fresh[2].payload.as_ref().unwrap().contains("\"revision_id\":null"));
}

#[test]
fn confidences_are_doubles() {
    let reply = r#"{"decision_journal": [
        {"target": "p", "action": "keep", "reason_code": "r", "confidence": 1},
        {"target": "q", "action": "keep", "reason_code": "r", "confidence": null},
        {"target": "x", "action": "keep", "reason_code": "r", "confidence": "high"}
    ]}"#;
    let entries = extract_decision_journal_entries(reply).expect("a journal");
    assert_eq!(entries.len(), 2);
    assert_eq!(entries[0].confidence.as_deref(), Some("1.0"));
    assert_eq!(entries[1].confidence, None);
}
