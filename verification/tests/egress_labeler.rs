use autonoetic_gateway::egress::{
    EgressClass, EgressConfig, EgressLabel, EgressRule, EgressSessionPolicy, NamedEgressLabel,
    ProviderConstraint, Sink,
};
use autonoetic_gateway::egress_labeler::{
    artifact_ids_in_arguments, artifact_taint_from_store, extract_sandbox_command, is_exec_shaped,
    workspace_taint_from_store, EgressLabeler, LabelRequest, PriorLabeledResult, Resolution,
    RuleScope, StoreReads, StoredLabel,
};
use autonoetic_gateway::egress_routing::{
    compression_preset_eligible, message_egress_key, partition_by_label,
    plan_taint_following_route, preset_batch_eligible, preset_sink, session_accumulated_taint,
    synthesized_band_label, CompressionEligibility, LabelBand, PresetCandidate,
};
use autonoetic_gateway::llm::{Message, Role};
use autonoetic_gateway::textmap::TextMap;

fn rule(source: &str, path: Option<&str>, label: NamedEgressLabel) -> EgressRule {
    EgressRule {
        source: source.to_string(),
        path: path.map(|s| s.to_string()),
        label: label.to_label(),
    }
}

fn cfg(rules: Vec<EgressRule>) -> EgressConfig {
    EgressConfig { rules, default_label: NamedEgressLabel::Unrestricted }
}

fn keys(r: &Resolution) -> Vec<String> {
    r.rule_keys()
}

fn no_prior() -> TextMap<PriorLabeledResult> {
    TextMap::new()
}

fn prior(entries: &[(&str, EgressLabel, Option<&str>)]) -> TextMap<PriorLabeledResult> {
    let mut map = TextMap::new();
    for (tcid, label, snip) in entries {
        map.insert(
            tcid,
            PriorLabeledResult {
                label: *label,
                content_snippet: snip.map(|s| s.to_string()),
            },
        );
    }
    map
}

fn mail_pattern() -> Vec<String> {
    vec!["~/mail/**".to_string()]
}

fn tool_msg(id: &str, content: &str) -> Message {
    Message {
        id: None,
        role: Role::Tool,
        content: content.to_string(),
        tool_calls: vec![],
        tool_call_id: Some(id.to_string()),
        reasoning_content: None,
        reasoning_details: None,
    }
}

fn user_msg(content: &str) -> Message {
    Message::user(content)
}

fn cand(name: &str, class: Option<EgressClass>) -> PresetCandidate {
    PresetCandidate { name: name.to_string(), egress_class: class }
}

fn reads(workspace: StoredLabel) -> StoreReads {
    StoreReads { artifacts: TextMap::new(), workspace }
}

#[test]
fn bare_source_matches_exact() {
    let l = EgressLabeler::from_config(&cfg(vec![rule("fs.read", None, NamedEgressLabel::LocalOnly)]));
    let r = l.resolve_label("fs.read", None);
    assert_eq!(r.label, EgressLabel::local_only());
    assert_eq!(keys(&r), vec!["fs.read"]);
}

#[test]
fn source_glob_matches_suffix() {
    let l = EgressLabeler::from_config(&cfg(vec![rule("email.*", None, NamedEgressLabel::LocalOnly)]));
    assert_eq!(l.resolve_label("email.read", None).label, EgressLabel::local_only());
    assert_eq!(l.resolve_label("email.send", None).label, EgressLabel::local_only());
    assert!(l.resolve_label("fs.read", None).label.is_unrestricted());
}

#[test]
fn mcp_server_glob_matches() {
    let l = EgressLabeler::from_config(&cfg(vec![rule("mcp.gmail.*", None, NamedEgressLabel::LocalOnly)]));
    assert_eq!(
        l.resolve_label("mcp_gmail_send_message", None).label,
        EgressLabel::local_only()
    );
    assert!(l.resolve_label("mcp_outlook_send", None).label.is_unrestricted());
}

#[test]
fn dotted_rule_source_matches_canonical_tool_name() {
    let l = EgressLabeler::from_config(&cfg(vec![rule(
        "fs.read",
        None,
        NamedEgressLabel::LocalOnly,
    )]));
    assert_eq!(l.resolve_label("fs_read", None).label, EgressLabel::local_only());
}


#[test]
fn path_narrows_match() {
    let l = EgressLabeler::from_config(&cfg(vec![
        rule("fs.read", Some("~/mail/**"), NamedEgressLabel::LocalOnly),
    ]));
    assert_eq!(
        l.resolve_label("fs.read", Some("~/mail/inbox/1")).label,
        EgressLabel::local_only()
    );
    assert!(l.resolve_label("fs.read", Some("/etc/passwd")).label.is_unrestricted());
    assert!(l.resolve_label("fs.read", None).label.is_unrestricted());
}


#[test]
fn multiple_matching_rules_intersect_never_widen() {
    let l = EgressLabeler::from_config(&cfg(vec![
        rule("fs.read", Some("~/mail/**"), NamedEgressLabel::LocalOnly),
        rule("fs.read", Some("~/mail/**"), NamedEgressLabel::NoRemoteModel),
    ]));
    let r = l.resolve_label("fs.read", Some("~/mail/inbox/1"));
    assert_eq!(r.label, EgressLabel::local_only());
    assert_eq!(r.matched.len(), 2);
}

#[test]
fn default_label_applies_when_no_rule_matches() {
    let mut c = cfg(vec![]);
    c.default_label = NamedEgressLabel::LocalOnly;
    let l = EgressLabeler::from_config(&c);
    let r = l.resolve_label("anything", None);
    assert_eq!(r.label, EgressLabel::local_only());
    assert!(r.matched.is_empty());
    assert_eq!(r.kind(), "default");
}

#[test]
fn default_unrestricted_is_inert() {
    let l = EgressLabeler::from_config(&EgressConfig::default());
    assert!(l.is_inert());
    let l2 = EgressLabeler::from_config(&cfg(vec![rule("email.*", None, NamedEgressLabel::LocalOnly)]));
    assert!(!l2.is_inert());
}


#[test]
fn session_rules_merge_and_restrict() {
    let l = EgressLabeler::from_config(&cfg(vec![]))
        .with_session_rules(vec![rule("slack.*", None, NamedEgressLabel::NoRemoteModel)]);
    assert!(!l.is_inert());
    let r = l.resolve_label("slack.read", None);
    assert_eq!(r.label, EgressLabel::no_remote_model());
    assert_eq!(r.kind(), "session_rule");
    assert_eq!(r.matched[0].scope, RuleScope::Session);
}

#[test]
fn global_and_session_rules_both_recorded() {
    let l = EgressLabeler::from_config(&cfg(vec![rule(
        "email.*",
        None,
        NamedEgressLabel::NoRemoteModel,
    )]))
    .with_session_rules(vec![rule("email.read", None, NamedEgressLabel::LocalOnly)]);
    let r = l.resolve_label("email.read", None);
    assert_eq!(r.label, EgressLabel::local_only());
    assert_eq!(r.kind(), "operator_and_session_rule");
    assert!(r.matched.iter().any(|m| m.scope == RuleScope::Global));
    assert!(r.matched.iter().any(|m| m.scope == RuleScope::Session));
}

#[test]
fn session_default_restricts_but_cannot_widen() {
    let mut c = cfg(vec![]);
    c.default_label = NamedEgressLabel::LocalOnly;
    let l = EgressLabeler::from_config(&c).with_session_policy(&EgressSessionPolicy {
        rules: vec![],
        default_label: Some(NamedEgressLabel::NoRemoteModel),
        provider_constraint: None,
    });
    assert_eq!(l.resolve_label("anything", None).label, EgressLabel::local_only());

    let l2 = EgressLabeler::from_config(&EgressConfig::default()).with_session_policy(
        &EgressSessionPolicy {
            rules: vec![],
            default_label: Some(NamedEgressLabel::LocalOnly),
            provider_constraint: None,
        },
    );
    assert!(!l2.is_inert(), "a restricting session default cancels the fast path");
    assert_eq!(l2.resolve_label("anything", None).label, EgressLabel::local_only());
}

#[test]
fn empty_session_policy_leaves_the_fast_path_intact() {
    let l = EgressLabeler::from_config(&EgressConfig::default())
        .with_session_policy(&EgressSessionPolicy::default());
    assert!(l.is_inert());
}


#[test]
fn label_tool_result_returns_none_when_inert() {
    let l = EgressLabeler::from_config(&EgressConfig::default());
    let req = LabelRequest {
        tool: "fs_read",
        arguments_json: "{}",
        tool_call_id: "tc_1",
    };
    let out = l.label_tool_result(&req, &vec![], "agent", &no_prior(), None, "1");
    assert!(out.is_none());
}

#[test]
fn label_tool_result_returns_none_when_label_is_unrestricted() {
    let l = EgressLabeler::from_config(&cfg(vec![rule("email.*", None, NamedEgressLabel::LocalOnly)]));
    let req = LabelRequest {
        tool: "fs_read",
        arguments_json: "{}",
        tool_call_id: "tc_1",
    };
    let out = l.label_tool_result(&req, &vec![], "agent", &no_prior(), None, "1");
    assert!(out.is_none());
}

#[test]
fn label_tool_result_emits_envelope_when_restricted() {
    let l = EgressLabeler::from_config(&cfg(vec![rule("email.read", None, NamedEgressLabel::LocalOnly)]));
    let req = LabelRequest {
        tool: "email.read",
        arguments_json: r#"{"box":"inbox"}"#,
        tool_call_id: "tc_42",
    };
    let out = l.label_tool_result(&req, &vec![], "agent", &no_prior(), None, "1").expect("restricted");
    assert!(out.is_restricted());
    assert!(out.envelope_id.starts_with("env_"));
    assert_eq!(out.label, EgressLabel::local_only());
    assert_eq!(out.provenance.tool.as_deref(), Some("email.read"));
    assert_eq!(out.provenance.matched_rules, vec!["email.read"]);
}


#[test]
fn exec_shaped_covers_both_spellings_and_both_tools() {
    assert!(is_exec_shaped("sandbox.exec"));
    assert!(is_exec_shaped("sandbox_exec"));
    assert!(is_exec_shaped("artifact.exec"));
    assert!(is_exec_shaped("artifact_exec"));
    assert!(!is_exec_shaped("fs_read"));
}

#[test]
fn sandbox_exec_with_labeled_path_is_restricted() {
    let l = EgressLabeler::from_config(&cfg(vec![
        rule("sandbox.exec", Some("~/mail/**"), NamedEgressLabel::LocalOnly),
    ]));
    let req = LabelRequest {
        tool: "sandbox_exec",
        arguments_json: r#"{"command":"cat ~/mail/inbox/1"}"#,
        tool_call_id: "tc_exec",
    };
    let out = l.label_tool_result(&req, &mail_pattern(), "agent", &no_prior(), None, "1").expect("restricted");
    assert_eq!(out.label, EgressLabel::local_only());
    assert!(out.provenance.matched_rules.iter().any(|r| r.contains("~/mail/**")));
}

#[test]
fn sandbox_exec_clean_command_is_unrestricted() {
    let l = EgressLabeler::from_config(&cfg(vec![
        rule("sandbox.exec", Some("~/mail/**"), NamedEgressLabel::LocalOnly),
    ]));
    let req = LabelRequest {
        tool: "sandbox_exec",
        arguments_json: r#"{"command":"echo hello"}"#,
        tool_call_id: "tc_exec",
    };
    let out = l.label_tool_result(&req, &vec![], "agent", &no_prior(), None, "1");
    assert!(out.is_none(), "clean exec should not be labeled");
}

#[test]
fn sandbox_exec_ignores_path_rules_for_other_sources() {
    let l = EgressLabeler::from_config(&cfg(vec![
        rule("fs.read", Some("~/mail/**"), NamedEgressLabel::LocalOnly),
    ]));
    let req = LabelRequest {
        tool: "sandbox_exec",
        arguments_json: r#"{"command":"cat ~/mail/inbox/1"}"#,
        tool_call_id: "tc_exec",
    };
    let out = l.label_tool_result(&req, &mail_pattern(), "agent", &no_prior(), None, "1");
    assert!(out.is_none(), "fs.read path rule must not label sandbox.exec");
}

#[test]
fn sandbox_exec_source_only_rule_applies_without_path_match() {
    let l = EgressLabeler::from_config(&cfg(vec![
        rule("sandbox.exec", None, NamedEgressLabel::NoRemoteModel),
    ]));
    let req = LabelRequest {
        tool: "sandbox_exec",
        arguments_json: r#"{"command":"echo hello"}"#,
        tool_call_id: "tc_exec",
    };
    let out = l.label_tool_result(&req, &vec![], "agent", &no_prior(), None, "1").expect("restricted");
    assert_eq!(out.label, EgressLabel::no_remote_model());
}


#[test]
fn compression_eligible_when_no_labels() {
    let band = vec![tool_msg("tc_1", "data")];
    let elig = compression_preset_eligible(&band, &TextMap::new(), EgressClass::Remote);
    assert!(elig.is_eligible());
}

#[test]
fn compression_eligible_when_all_unrestricted() {
    let mut labels = TextMap::new();
    labels.insert("tc_1", EgressLabel::unrestricted());
    let band = vec![tool_msg("tc_1", "public data")];
    assert!(compression_preset_eligible(&band, &labels, EgressClass::Remote).is_eligible());
    assert!(compression_preset_eligible(&band, &labels, EgressClass::Local).is_eligible());
}

#[test]
fn compression_ineligible_local_only_on_remote_preset() {
    let mut labels = TextMap::new();
    labels.insert("tc_secret", EgressLabel::local_only());
    let band = vec![tool_msg("tc_secret", "CANARY-SECRET")];
    let elig = compression_preset_eligible(&band, &labels, EgressClass::Remote);
    assert!(!elig.is_eligible());
    match elig {
        CompressionEligibility::Ineligible { leaked_tool_call_ids, .. } => {
            assert_eq!(leaked_tool_call_ids, vec!["tc_secret".to_string()]);
        }
        _ => unreachable!(),
    }
}

#[test]
fn compression_eligible_local_only_on_local_preset() {
    let mut labels = TextMap::new();
    labels.insert("tc_secret", EgressLabel::local_only());
    let band = vec![tool_msg("tc_secret", "secret")];
    let elig = compression_preset_eligible(&band, &labels, EgressClass::Local);
    assert!(elig.is_eligible());
}

#[test]
fn compression_ineligible_no_remote_model_on_remote_preset() {
    let mut labels = TextMap::new();
    labels.insert("tc_conf", EgressLabel::no_remote_model());
    let band = vec![tool_msg("tc_conf", "business-confidential")];
    assert!(
        !compression_preset_eligible(&band, &labels, EgressClass::Remote).is_eligible(),
        "no_remote_model band must not compress on remote preset"
    );
    assert!(
        compression_preset_eligible(&band, &labels, EgressClass::Local).is_eligible(),
        "no_remote_model band may compress on local preset"
    );
}

#[test]
fn compression_mixed_band_tainted_by_any_local_only() {
    let mut labels = TextMap::new();
    labels.insert("tc_public", EgressLabel::unrestricted());
    labels.insert("tc_secret", EgressLabel::local_only());
    let band = vec![tool_msg("tc_public", "ok"), tool_msg("tc_secret", "secret")];
    let elig = compression_preset_eligible(&band, &labels, EgressClass::Remote);
    assert!(!elig.is_eligible());
}

#[test]
fn partition_by_label_splits_clean_and_tainted() {
    let mut labels = TextMap::new();
    labels.insert("tc_public", EgressLabel::unrestricted());
    labels.insert("tc_secret", EgressLabel::local_only());
    let band = vec![
        user_msg("clean work"),
        tool_msg("tc_public", "ok"),
        tool_msg("tc_secret", "CANARY"),
    ];
    let bands = partition_by_label(&band, &labels);
    assert_eq!(bands.len(), 2, "mixed history must yield two bands");
    assert!(bands[0].label.is_unrestricted(), "unrestricted band first");
    assert_eq!(bands[0].messages.len(), 2);
    assert_eq!(bands[1].label, EgressLabel::local_only());
    assert_eq!(bands[1].messages.len(), 1);
    assert_eq!(bands[1].source_ids, vec!["tc_secret".to_string()]);
    assert!(compression_preset_eligible(&bands[0].messages, &labels, EgressClass::Remote)
        .is_eligible());
    assert!(!compression_preset_eligible(&bands[1].messages, &labels, EgressClass::Remote)
        .is_eligible());
}

#[test]
fn synthesized_band_label_records_parent_ids() {
    let band = LabelBand {
        label: EgressLabel::local_only(),
        messages: vec![tool_msg("tc_secret", "x")],
        source_ids: vec!["tc_secret".into(), "msg_summary".into()],
    };
    let (label, prov) = synthesized_band_label(&band);
    assert_eq!(label, EgressLabel::local_only());
    assert_eq!(prov.tool.as_deref(), Some("context.compress"));
    assert_eq!(
        prov.parent_envelope_ids,
        vec!["tc_secret".to_string(), "msg_summary".to_string()]
    );
}

#[test]
fn compression_unlabeled_tool_result_does_not_taint() {
    let labels: TextMap<EgressLabel> = TextMap::new();
    let band = vec![tool_msg("tc_unlabeled", "data")];
    assert!(
        compression_preset_eligible(&band, &labels, EgressClass::Remote).is_eligible(),
        "unlabeled tool result (unrestricted default) must not block compression"
    );
}

#[test]
fn compression_ignores_non_tool_messages() {
    let mut labels = TextMap::new();
    labels.insert("tc_secret", EgressLabel::local_only());
    let band = vec![
        user_msg("summarize my emails"),
        tool_msg("tc_secret", "secret"),
    ];
    assert!(
        !compression_preset_eligible(&band, &labels, EgressClass::Remote).is_eligible()
    );
}

#[test]
fn artifact_exec_uses_the_same_static_analysis() {
    let l = EgressLabeler::from_config(&cfg(vec![
        rule("artifact.exec", Some("~/mail/**"), NamedEgressLabel::LocalOnly),
    ]));
    let req = LabelRequest {
        tool: "artifact_exec",
        arguments_json: r#"{"command":"python3 read.py ~/mail/archive.mbox"}"#,
        tool_call_id: "tc_exec",
    };
    let out = l.label_tool_result(&req, &mail_pattern(), "agent", &no_prior(), None, "1").expect("restricted");
    assert_eq!(out.label, EgressLabel::local_only());
}

#[test]
fn sink_set_label_from_a_rule_is_honored_verbatim() {
    let custom = EgressLabel::from_sinks(&[Sink::LocalModel, Sink::UserReply]);
    let l = EgressLabeler::from_config(&cfg(vec![EgressRule {
        source: "email.*".to_string(),
        path: None,
        label: custom.clone(),
    }]));
    assert_eq!(l.resolve_label("email_read", None).label, custom);
}


#[test]
fn floor_applies_from_manifest_with_no_operator_rules() {
    let l = EgressLabeler::from_config(&EgressConfig::default())
        .with_manifest_floor(Some(EgressLabel::local_only()));
    assert!(!l.is_inert(), "a bundle floor clears inertness");
    let r = l.resolve_label("anything", None);
    assert_eq!(r.label, EgressLabel::local_only());
    assert!(r.bundle_floor_applied);
}

#[test]
fn floor_cannot_widen_operator_policy() {
    let l = EgressLabeler::from_config(&cfg(vec![rule(
        "email.read",
        None,
        NamedEgressLabel::LocalOnly,
    )]))
    .with_manifest_floor(Some(EgressLabel::unrestricted()));
    let r = l.resolve_label("email.read", None);
    assert_eq!(r.label, EgressLabel::local_only());
    assert!(r.bundle_floor_applied);
}

#[test]
fn bundle_floor_intersects_with_operator_rule() {
    let l = EgressLabeler::from_config(&cfg(vec![rule(
        "fs.read",
        None,
        NamedEgressLabel::NoRemoteModel,
    )]))
    .with_manifest_floor(Some(EgressLabel::local_only()));
    let r = l.resolve_label("fs.read", None);
    assert_eq!(r.label, EgressLabel::local_only());
}

#[test]
fn floor_without_rules_still_labels_clean_source() {
    let l = EgressLabeler::from_config(&EgressConfig::default())
        .with_manifest_floor(Some(EgressLabel::no_remote_model()));
    let r = l.resolve_label("completely_unknown_tool", None);
    assert_eq!(r.label, EgressLabel::no_remote_model());
    assert!(r.bundle_floor_applied);
}

#[test]
fn no_floor_keeps_inert_behavior() {
    let l = EgressLabeler::from_config(&EgressConfig::default())
        .with_manifest_floor(None);
    assert!(l.is_inert());
}

#[test]
fn floor_labeled_result_emits_envelope() {
    let l = EgressLabeler::from_config(&EgressConfig::default())
        .with_manifest_floor(Some(EgressLabel::local_only()));
    let req = LabelRequest {
        tool: "custom_tool",
        arguments_json: "{}",
        tool_call_id: "tc_floor",
    };
    let out = l
        .label_tool_result(&req, &vec![], "agent", &no_prior(), None, "1")
        .expect("floor should produce a restricted envelope");
    assert_eq!(out.label, EgressLabel::local_only());
    assert!(out.is_restricted());
}


#[test]
fn taint_by_handle_reference_intersects_parent_label() {
    let l = EgressLabeler::from_config(&EgressConfig::default())
        .with_manifest_floor(Some(EgressLabel::unrestricted()));
    let taint = prior(&[("tc_prior_secret", EgressLabel::local_only(), None)]);
    let req = LabelRequest {
        tool: "content_write",
        arguments_json: r#"{"source_ref":"tc_prior_secret","content":"derived"}"#,
        tool_call_id: "tc_derived",
    };
    let out = l
        .label_tool_result(&req, &vec![], "agent", &taint, None, "1")
        .expect("tainted result should be labeled");
    assert_eq!(out.label, EgressLabel::local_only());
    assert_eq!(
        out.provenance.parent_envelope_ids,
        vec!["tc_prior_secret".to_string()]
    );
}

#[test]
fn taint_by_verbatim_content_intersects_parent_label() {
    let l = EgressLabeler::from_config(&EgressConfig::default())
        .with_manifest_floor(Some(EgressLabel::unrestricted()));
    let prior_content = "CANARY-SECRET-EMAIL-CONTENT";
    let taint = prior(&[(
        "tc_email_read",
        EgressLabel::local_only(),
        Some(prior_content),
    )]);
    let req = LabelRequest {
        tool: "content_write",
        arguments_json: &format!(r#"{{"content":"Here is the data: {prior_content}"}}"#),
        tool_call_id: "tc_copy",
    };
    let out = l
        .label_tool_result(&req, &vec![], "agent", &taint, None, "1")
        .expect("verbatim taint should fire");
    assert_eq!(out.label, EgressLabel::local_only());
    assert!(out.provenance.parent_envelope_ids.contains(&"tc_email_read".to_string()));
}

#[test]
fn clean_argument_produces_no_taint() {
    let l = EgressLabeler::from_config(&cfg(vec![rule(
        "content_write",
        None,
        NamedEgressLabel::Unrestricted,
    )]))
    .with_manifest_floor(Some(EgressLabel::unrestricted()));
    let taint = prior(&[(
        "tc_prior_secret",
        EgressLabel::local_only(),
        Some("SECRET-DATA-NOT-IN-ARGS"),
    )]);
    let req = LabelRequest {
        tool: "content_write",
        arguments_json: r#"{"content":"completely unrelated clean content"}"#,
        tool_call_id: "tc_clean",
    };
    let out = l.label_tool_result(&req, &vec![], "agent", &taint, None, "1");
    assert!(out.is_none(), "clean argument with unrestricted label → no envelope");
}

#[test]
fn taint_intersection_of_two_parents() {
    let l = EgressLabeler::from_config(&EgressConfig::default())
        .with_manifest_floor(Some(EgressLabel::unrestricted()));
    let taint = prior(&[
        ("tc_a", EgressLabel::local_only(), None),
        ("tc_b", EgressLabel::no_remote_model(), None),
    ]);
    let req = LabelRequest {
        tool: "content_write",
        arguments_json: r#"{"refs":["tc_a","tc_b"]}"#,
        tool_call_id: "tc_combined",
    };
    let out = l
        .label_tool_result(&req, &vec![], "agent", &taint, None, "1")
        .expect("tainted by two parents");
    assert_eq!(out.label, EgressLabel::local_only());
    assert_eq!(out.provenance.parent_envelope_ids.len(), 2);
}

#[test]
fn taint_intersects_with_rule_label() {
    let l = EgressLabeler::from_config(&cfg(vec![rule(
        "content_write",
        None,
        NamedEgressLabel::NoRemoteModel,
    )]))
    .with_manifest_floor(Some(EgressLabel::unrestricted()));
    let taint = prior(&[("tc_secret", EgressLabel::local_only(), None)]);
    let req = LabelRequest {
        tool: "content_write",
        arguments_json: r#"{"ref":"tc_secret"}"#,
        tool_call_id: "tc_out",
    };
    let out = l
        .label_tool_result(&req, &vec![], "agent", &taint, None, "1")
        .expect("should be labeled");
    assert_eq!(out.label, EgressLabel::local_only());
}

#[test]
fn empty_snippet_does_not_taint() {
    let l = EgressLabeler::from_config(&EgressConfig::default())
        .with_manifest_floor(Some(EgressLabel::unrestricted()));
    let taint = prior(&[("tc_empty", EgressLabel::local_only(), Some(""))]);
    let req = LabelRequest {
        tool: "content_write",
        arguments_json: r#"{"content":"anything"}"#,
        tool_call_id: "tc_test",
    };
    let out = l.label_tool_result(&req, &vec![], "agent", &taint, None, "1");
    assert!(out.is_none());
}


#[test]
fn preset_sink_defaults_remote_fail_closed() {
    assert_eq!(preset_sink(None), Sink::RemoteModel);
    assert_eq!(preset_sink(Some(EgressClass::Remote)), Sink::RemoteModel);
    assert_eq!(preset_sink(Some(EgressClass::Local)), Sink::LocalModel);
}

#[test]
fn eligibility_local_only_batch_admits_only_local() {
    let batch = EgressLabel::local_only();
    assert!(preset_batch_eligible(&batch, Some(EgressClass::Local)));
    assert!(!preset_batch_eligible(&batch, Some(EgressClass::Remote)));
    assert!(!preset_batch_eligible(&batch, None));
}

#[test]
fn unrestricted_batch_is_a_fast_noop() {
    let plan = plan_taint_following_route(
        &EgressLabel::unrestricted(),
        Some(EgressClass::Remote),
        &[cand("local", Some(EgressClass::Local))],
        None,
    );
    assert!(plan.primary_eligible);
    assert!(plan.reroute_to.is_none());
    assert!(!plan.no_eligible_provider());
    assert!(plan.eligible.is_empty());
}

#[test]
fn clean_batch_keeps_remote_primary() {
    let plan = plan_taint_following_route(
        &EgressLabel::unrestricted(),
        Some(EgressClass::Remote),
        &[
            cand("sonnet", Some(EgressClass::Remote)),
            cand("local", Some(EgressClass::Local)),
        ],
        None,
    );
    assert!(plan.primary_eligible);
    assert!(plan.reroute_to.is_none());
}

#[test]
fn tainted_batch_reroutes_remote_primary_to_local() {
    let plan = plan_taint_following_route(
        &EgressLabel::local_only(),
        Some(EgressClass::Remote),
        &[
            cand("sonnet", Some(EgressClass::Remote)),
            cand("ollama", Some(EgressClass::Local)),
        ],
        None,
    );
    assert!(!plan.primary_eligible);
    assert_eq!(plan.eligible, vec!["ollama".to_string()]);
    assert_eq!(plan.reroute_to.as_ref().map(|c| c.name.as_str()), Some("ollama"));
    assert!(!plan.no_eligible_provider());
}

#[test]
fn tainted_batch_local_primary_stays_no_reroute() {
    let plan = plan_taint_following_route(
        &EgressLabel::local_only(),
        Some(EgressClass::Local),
        &[cand("ollama", Some(EgressClass::Local))],
        None,
    );
    assert!(plan.primary_eligible);
    assert!(plan.reroute_to.is_none());
}

#[test]
fn tainted_batch_no_local_preset_refuses() {
    let plan = plan_taint_following_route(
        &EgressLabel::local_only(),
        Some(EgressClass::Remote),
        &[cand("sonnet", Some(EgressClass::Remote))],
        None,
    );
    assert!(!plan.primary_eligible);
    assert!(plan.eligible.is_empty());
    assert!(plan.reroute_to.is_none());
    assert!(plan.no_eligible_provider());
}

#[test]
fn reroute_prefers_local_then_stable_by_name() {
    let plan = plan_taint_following_route(
        &EgressLabel::local_only(),
        Some(EgressClass::Remote),
        &[
            cand("zeta-local", Some(EgressClass::Local)),
            cand("alpha-local", Some(EgressClass::Local)),
        ],
        None,
    );
    assert_eq!(
        plan.reroute_to.as_ref().map(|c| c.name.as_str()),
        Some("alpha-local")
    );
    assert_eq!(
        plan.eligible,
        vec!["alpha-local".to_string(), "zeta-local".to_string()]
    );
}

#[test]
fn no_remote_model_batch_admits_local_and_network_not_remote() {
    let batch = EgressLabel::no_remote_model();
    let plan = plan_taint_following_route(
        &batch,
        Some(EgressClass::Remote),
        &[
            cand("sonnet", Some(EgressClass::Remote)),
            cand("ollama", Some(EgressClass::Local)),
        ],
        None,
    );
    assert!(!plan.primary_eligible);
    assert_eq!(plan.reroute_to.as_ref().map(|c| c.name.as_str()), Some("ollama"));
}


#[test]
fn message_egress_key_tool_uses_tool_call_id_others_use_id() {
    let mut tool = tool_msg("tc_1", "x");
    tool.id = Some("msg_ignored".to_string());
    assert_eq!(message_egress_key(&tool), Some("tc_1"));

    let mut asst = Message::assistant("summary");
    asst.id = Some("msg_summary".to_string());
    assert_eq!(message_egress_key(&asst), Some("msg_summary"));

    let user = Message::user("hi");
    assert_eq!(message_egress_key(&user), None);

    let mut orphan_tool = tool_msg("tc_x", "y");
    orphan_tool.tool_call_id = None;
    assert_eq!(message_egress_key(&orphan_tool), None);
}


#[test]
fn compression_band_tainted_by_labeled_assistant_message() {
    let mut summary = Message::assistant("the local summary");
    summary.id = Some("msg_summary".to_string());
    let band = vec![Message::user("q"), summary];
    let mut labels = TextMap::new();
    labels.insert("msg_summary", EgressLabel::local_only());
    let elig = compression_preset_eligible(&band, &labels, EgressClass::Remote);
    assert!(!elig.is_eligible(), "local_only summary must block remote compression");
    let elig_local = compression_preset_eligible(&band, &labels, EgressClass::Local);
    assert!(elig_local.is_eligible(), "local preset may compress the local_only band");
}

#[test]
fn exec_resolving_restricted_narrows_the_workspace_label() {
    let l = EgressLabeler::from_config(&cfg(vec![
        rule("sandbox.exec", Some("~/mail/**"), NamedEgressLabel::LocalOnly),
    ]));
    let req = LabelRequest {
        tool: "sandbox_exec",
        arguments_json: r#"{"command":"unzip ~/mail/mail.zip -d /tmp/w && cat /tmp/w/inbox.mbox"}"#,
        tool_call_id: "tc_ws",
    };
    let store = reads(StoredLabel::Absent);
    let out = l
        .label_tool_result(&req, &mail_pattern(), "coder.abc", &no_prior(), Some(&store), "1")
        .expect("rule-matched exec must be restricted");
    assert_eq!(out.label, EgressLabel::local_only());
    assert!(out.narrows_workspace, "a restricted exec narrows the workspace it ran in");
}

#[test]
fn exec_in_a_labeled_workspace_inherits_the_label() {
    let store = reads(StoredLabel::Found(EgressLabel::local_only()));
    let l = EgressLabeler::from_config(&cfg(vec![]));
    for id in ["tc_ws2", "tc_ws2b"] {
        let req = LabelRequest {
            tool: "sandbox_exec",
            arguments_json: r#"{"command":"cat /tmp/w/inbox.mbox"}"#,
            tool_call_id: id,
        };
        let out = l
            .label_tool_result(&req, &vec![], "coder.abc", &no_prior(), Some(&store), "1")
            .expect("workspace label must carry the taint");
        assert_eq!(out.label, EgressLabel::local_only());
        assert_eq!(out.resolution.workspace_labels_applied, vec!["coder.abc"]);
    }
}

#[test]
fn structured_tools_do_not_touch_the_workspace_label() {
    let store = reads(StoredLabel::Found(EgressLabel::no_remote_model()));
    let l = EgressLabeler::from_config(&cfg(vec![
        rule("content.read", Some("~/mail/**"), NamedEgressLabel::LocalOnly),
    ]));
    let clean = LabelRequest {
        tool: "content.read",
        arguments_json: r#"{"path":"/tmp/w/inbox.mbox"}"#,
        tool_call_id: "tc_ws3",
    };
    assert!(
        l.label_tool_result(&clean, &vec![], "coder.struct", &no_prior(), Some(&store), "1")
            .is_none(),
        "structured tools must not inherit workspace taint"
    );
    let restricted = LabelRequest {
        tool: "content.read",
        arguments_json: r#"{"path":"~/mail/inbox/1"}"#,
        tool_call_id: "tc_ws4",
    };
    let out = l
        .label_tool_result(&restricted, &vec![], "coder.struct", &no_prior(), Some(&store), "1")
        .expect("rule-matched structured read restricted");
    assert_eq!(out.label, EgressLabel::local_only());
    assert!(!out.narrows_workspace, "structured tools never write the workspace label");
}

#[test]
fn workspace_read_error_fails_closed_and_marks_failure() {
    let (label, applied, failed) = workspace_taint_from_store("coder.abc", StoredLabel::Failed);
    assert_eq!(label, EgressLabel::local_only());
    assert_eq!(applied, vec!["coder.abc".to_string()]);
    assert!(failed, "the caller must be told the read failed");
    let (label, applied, failed) = workspace_taint_from_store("coder.xyz", StoredLabel::Absent);
    assert!(label.is_unrestricted());
    assert!(applied.is_empty());
    assert!(!failed);

    let l = EgressLabeler::from_config(&cfg(vec![]));
    let req = LabelRequest {
        tool: "sandbox_exec",
        arguments_json: r#"{"command":"ls"}"#,
        tool_call_id: "tc",
    };
    let out = l
        .label_tool_result(
            &req,
            &vec![],
            "coder.abc",
            &no_prior(),
            Some(&reads(StoredLabel::Failed)),
            "1",
        )
        .expect("an unreadable workspace restricts the result");
    assert_eq!(out.label, EgressLabel::local_only());
    assert!(!out.narrows_workspace, "a failed read must not become durable");
}

#[test]
fn sandbox_exec_labels_a_dependency_script_read() {
    let l = EgressLabeler::from_config(&cfg(vec![
        rule("sandbox.exec", Some("~/mail/**"), NamedEgressLabel::LocalOnly),
    ]));
    assert_eq!(l.exec_path_patterns("sandbox_exec"), mail_pattern());
    let req = LabelRequest {
        tool: "sandbox_exec",
        arguments_json: r#"{"command":"python3 parse_mail.py"}"#,
        tool_call_id: "tc_exec",
    };
    assert!(
        l.label_tool_result(&req, &vec![], "agent", &no_prior(), None, "1").is_none(),
        "command line alone carries no labeled path"
    );
    let out = l
        .label_tool_result(&req, &mail_pattern(), "agent", &no_prior(), None, "1")
        .expect("dependency read should be labeled");
    assert_eq!(out.label, EgressLabel::local_only());
}

#[test]
fn session_accumulated_taint_intersects_everything_touched() {
    assert!(session_accumulated_taint(&TextMap::new()).is_unrestricted());

    let mut clean = TextMap::new();
    clean.insert("tc_1", EgressLabel::unrestricted());
    assert!(session_accumulated_taint(&clean).is_unrestricted());

    let mut mail = TextMap::new();
    mail.insert("tc_email", EgressLabel::local_only());
    mail.insert("tc_clean", EgressLabel::unrestricted());
    assert_eq!(session_accumulated_taint(&mail), EgressLabel::local_only());

    let mut mixed = TextMap::new();
    mixed.insert("a", EgressLabel::no_remote_model());
    mixed.insert("b", EgressLabel::local_only());
    let taint = session_accumulated_taint(&mixed);
    assert_eq!(taint, EgressLabel::local_only());
    assert!(!taint.allows(Sink::RemoteModel));
}

#[test]
fn labels_meet_in_any_order() {
    let a = EgressLabel::from_sinks(&[Sink::LocalModel, Sink::Network]);
    let b = EgressLabel::from_sinks(&[Sink::Network, Sink::UserReply]);
    let both = EgressLabel::from_sinks(&[Sink::Network]);
    assert_eq!(a.restrict(&b), both);
    assert_eq!(b.restrict(&a), both);
    assert_eq!(a.restrict(&EgressLabel::unrestricted()), a);
    assert!(a.restrict(&EgressLabel::from_sinks(&[])).is_empty());
}

#[test]
fn artifacts_carry_their_stored_labels() {
    let arguments = r#"{"refs":["art_0a1b2c3d","art_3d4e5f6a"]}"#;
    let ids = artifact_ids_in_arguments(arguments);
    let mut stored = TextMap::new();
    for id in &ids {
        stored.insert(id, StoredLabel::Found(EgressLabel::no_remote_model()));
    }
    let (label, applied) = artifact_taint_from_store(arguments, &stored);
    assert_eq!(ids, vec!["art_0a1b2c3d", "art_3d4e5f6a"]);
    assert_eq!(label, EgressLabel::no_remote_model());
    assert_eq!(applied, ids);
    stored.insert("art_3d4e5f6a", StoredLabel::Failed);
    assert_eq!(artifact_taint_from_store(arguments, &stored).0, EgressLabel::local_only());
    let (label, applied) = artifact_taint_from_store("{}", &TextMap::new());
    assert!(label.is_unrestricted());
    assert!(applied.is_empty());
}

#[test]
fn local_sessions_take_no_remote_preset() {
    let plan = plan_taint_following_route(
        &EgressLabel::unrestricted(),
        Some(EgressClass::Remote),
        &[cand("big", Some(EgressClass::Remote)), cand("small", Some(EgressClass::Local))],
        Some(ProviderConstraint::LocalOnly),
    );
    assert!(!plan.primary_eligible);
    assert_eq!(plan.eligible, vec!["small".to_string()]);
    assert_eq!(plan.reroute_to.as_ref().map(|c| c.name.as_str()), Some("small"));
}

#[test]
fn commands_and_scripts_are_found() {
    assert_eq!(
        extract_sandbox_command(r#"{"command": "python x.py", "script": "print(1)"}"#),
        ("python x.py".to_string(), Some("print(1)".to_string()))
    );
    assert_eq!(
        extract_sandbox_command(r#"{"code": "a", "script": "b"}"#),
        (String::new(), Some("a".to_string()))
    );
    assert_eq!(extract_sandbox_command("not json"), (String::new(), None));
}
