use autonoetic_gateway::causal::{fresh_stamp, CausalEventRecord, EventStamp};
use autonoetic_gateway::discretion_leak::{record_discretion_leak, record_discretion_leak_at, LeakScope};

fn stamp() -> EventStamp {
    EventStamp {
        unique: "u".to_string(),
        timestamp: "2026-01-01T00:00:00Z".to_string(),
        attribution_rule: "P-1".to_string(),
    }
}

fn record(scopes: &Vec<LeakScope>, kind: &str, detail: &str) -> Option<CausalEventRecord> {
    record_discretion_leak_at(scopes, &stamp(), kind, detail, &vec!["P-5.2".to_string()])
}

#[test]
fn leak_inside_scope_records_durable_event() {
    let scopes = vec![LeakScope::new("coder.default", "sess-1", None)];
    let leak = record(&scopes, "lenient_string_coercion", "coerced scalar").expect("an event");
    assert_eq!(leak.category, "discretion_leak");
    assert_eq!(leak.action, "lenient_string_coercion");
    assert_eq!(leak.status, "recorded");
    assert_eq!(leak.enforced_rules, vec!["P-5.2".to_string()]);
    assert_eq!(leak.session_id, "sess-1");
    assert_eq!(leak.event_id, "leak-u");
    assert_eq!(
        leak.payload.as_deref(),
        Some("{\"detail\":\"coerced scalar\",\"kind\":\"lenient_string_coercion\"}")
    );
}

#[test]
fn leak_outside_scope_is_trace_only() {
    assert!(record(&vec![], "fuzzy_patch_match", "matched fuzzily").is_none());
    let rules = vec!["P-5.2".to_string()];
    assert!(record_discretion_leak(&vec![], "k", "d", &rules).is_none());
    let scopes = vec![LeakScope::new("a", "s", None)];
    let first = record_discretion_leak(&scopes, "k", "d", &rules).unwrap();
    let second = record_discretion_leak(&scopes, "k", "d", &rules).unwrap();
    assert_ne!(first.event_id, second.event_id);
    assert!(first.event_id.starts_with("leak-"));
}

#[test]
fn nested_scopes_attribute_to_inner() {
    let mut scopes = vec![LeakScope::new("outer.agent", "sess-outer", None)];
    assert_eq!(record(&scopes, "k_outer", "d").unwrap().agent_id, "outer.agent");
    scopes.push(LeakScope::new("inner.agent", "sess-inner", Some("turn-1".to_string())));
    let inner = record(&scopes, "k_inner", "d").unwrap();
    assert_eq!(inner.agent_id, "inner.agent");
    assert_eq!(inner.turn_id.as_deref(), Some("turn-1"));
    assert_eq!(inner.action, "k_inner");
    scopes.pop();
    assert_eq!(record(&scopes, "k_outer_again", "d").unwrap().agent_id, "outer.agent");
}

#[test]
fn stamps_are_fresh() {
    let a = fresh_stamp("P-1");
    let b = fresh_stamp("P-1");
    assert_ne!(a.unique, b.unique);
    assert_eq!(a.unique.len(), 36);
    assert!(a.timestamp.contains('T'));
    assert_eq!(a.attribution_rule, "P-1");
}
