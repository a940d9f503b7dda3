use autonoetic_gateway::disclosure::{
    DisclosureClass, DisclosurePolicy, DisclosureRule, DisclosureState,
};

#[test]
fn test_disclosure_state_evaluation() {
    let policy = DisclosurePolicy {
        rules: vec![
            DisclosureRule {
                source: "memory_read".to_string(),
                path_pattern: Some("state/secrets/*".to_string()),
                class: DisclosureClass::Restricted,
            },
            DisclosureRule {
                source: "memory_read".to_string(),
                path_pattern: None,
                class: DisclosureClass::Public,
            },
        ],
        default_class: DisclosureClass::Public,
    };

    let state = DisclosureState::new(policy);

    assert_eq!(
        state.evaluate_class("memory_read", Some("state/secrets/keys.json")),
        DisclosureClass::Restricted
    );
    assert_eq!(
        state.evaluate_class("memory_read", Some("state/public/data.json")),
        DisclosureClass::Public
    );
    assert_eq!(
        state.evaluate_class("sandbox_exec", None),
        DisclosureClass::Public
    );
}

#[test]
fn test_disclosure_filter_redaction() {
    let policy = DisclosurePolicy::default();
    let mut state = DisclosureState::new(policy);

    state.register_explicit_taint("super_secret_password_123", DisclosureClass::Restricted);
    state.register_explicit_taint("internal_api_key_456", DisclosureClass::Restricted);

    let input = "Here are the credentials. Password is super_secret_password_123 and the API key is internal_api_key_456.";
    let filtered = state.filter_reply(input);

    assert!(filtered.contains("[REDACTED]"));
    assert!(!filtered.contains("super_secret_password_123"));
    assert!(!filtered.contains("internal_api_key_456"));
}

#[test]
fn test_register_result_taints_restricted_values() {
    let policy = DisclosurePolicy {
        rules: vec![DisclosureRule {
            source: "memory_read".to_string(),
            path_pattern: Some("state/secrets/*".to_string()),
            class: DisclosureClass::Restricted,
        }],
        default_class: DisclosureClass::Public,
    };
    let mut state = DisclosureState::new(policy);

    state.register_result("memory_read", Some("state/secrets/pin.txt"), "1234");
    let filtered = state.filter_reply("The PIN is 1234.");

    assert!(filtered.contains("[REDACTED]"));
    assert!(!filtered.contains("1234"));
}

#[test]
fn test_filter_reply_does_not_redact_transformed_secret_variant() {
    let policy = DisclosurePolicy::default();
    let mut state = DisclosureState::new(policy);
    state.register_explicit_taint("super_secret_wahoo", DisclosureClass::Restricted);

    let filtered = state.filter_reply("I can only say: super secret wahoo");

    assert_eq!(filtered, "I can only say: super secret wahoo");
    assert!(!filtered.contains("[REDACTED]"));
}
#[test]
fn the_first_matching_rule_decides() {
    let rule = |pattern: Option<&str>, class: DisclosureClass| DisclosureRule {
        source: "files".to_string(),
        path_pattern: pattern.map(|p| p.to_string()),
        class,
    };
    let state = DisclosureState::new(DisclosurePolicy {
        rules: vec![
            rule(Some("public/*"), DisclosureClass::Public),
            rule(None, DisclosureClass::Restricted),
        ],
        default_class: DisclosureClass::Public,
    });
    assert_eq!(state.evaluate_class("files", Some("public/a")), DisclosureClass::Public);
    assert_eq!(state.evaluate_class("files", Some("private/a")), DisclosureClass::Restricted);
    assert_eq!(state.evaluate_class("files", None), DisclosureClass::Restricted);
}

#[test]
fn longer_content_is_redacted_first() {
    let mut state = DisclosureState::new(DisclosurePolicy::default());
    state.register_explicit_taint("secret", DisclosureClass::Restricted);
    state.register_explicit_taint("secret plan", DisclosureClass::Restricted);
    state.register_explicit_taint("  ", DisclosureClass::Restricted);
    state.register_explicit_taint("known", DisclosureClass::Public);
    assert_eq!(state.taints.len(), 2);
    assert_eq!(
        state.filter_reply("the secret plan is a known secret"),
        "the [REDACTED] is a known [REDACTED]"
    );
    assert_eq!(state.filter_reply("nothing here"), "nothing here");
}
