use autonoetic_gateway::egress::{
    label_display_name, EgressClass, EgressConfig, EgressLabel, EgressRule, NamedEgressLabel,
    Provenance, Sink,
};
use autonoetic_gateway::egress_asks::{
    apply_egress_ask_declassification, declassified_notice, declassify_offer_at,
    egress_ask_options_payload, file_declassify_offer, file_egress_pin_ask, is_egress_pin_ask,
    DeclassifyOffer, PendingDeclassify, PinAsk, PinAskBlocker, UserInteraction,
};
use autonoetic_gateway::egress_boundary::{
    boundary_root, label_from_json, mcp_remote_egress_refusal_json,
    network_egress_boundary_refusal, network_egress_boundary_refusal_json,
    ofp_federated_egress_refusal, ofp_inbound_fail_closed_label, ofp_outbound_allows_federation,
    ofp_outbound_wire_fields, parse_ofp_inbound_egress_label, require_boundary_session_taint,
    resolve_ingest_turn_label, resolve_session_egress_taint, session_egress_declass_target,
    session_host_network_declass_target, session_network_declass_target,
    session_network_declassified_for_hosts,
    snapshot_session_egress_taint_for_approval, strip_ingest_label_keys, BoundaryContext,
    TaintRead,
};
use autonoetic_gateway::egress_events::{
    boundary_refused_notice, chokepoint_events, envelope_labeled_event, label_to_json,
    provider_selected_notice, relabel_notice, stamp_notice, synthesized_envelope_notice,
    AssertionViolation, EgressNotice, FilterReport, WithheldEntry,
};
use autonoetic_gateway::egress_labeler::{EgressLabeler, LabelRequest, PriorLabeledResult};
use autonoetic_gateway::egress_routing::{plan_taint_following_route, PresetCandidate};
use autonoetic_gateway::json::{Json, JsonField};
use autonoetic_gateway::textmap::TextMap;

fn text_of(j: &Json, key: &str) -> String {
    match j.get(key) {
        Some(Json::Text(s)) => s.clone(),
        other => panic!("{key}: {other:?}"),
    }
}

fn object(fields: Vec<(&str, Json)>) -> Json {
    Json::Object(
        fields
            .into_iter()
            .map(|(key, value)| JsonField { key: key.to_string(), value })
            .collect(),
    )
}

fn sinks(names: &[&str]) -> Json {
    Json::List(names.iter().map(|n| Json::Text(n.to_string())).collect())
}

fn carrying(label: EgressLabel) -> BoundaryContext {
    BoundaryContext { egress_taint: Some(label), root_session_id: "root".to_string() }
}

#[test]
fn running_tools_carry_their_taint() {
    let local = EgressLabel::local_only();
    let c = carrying(local);
    let failed = TaintRead::Failed("disk".to_string());
    assert_eq!(resolve_session_egress_taint(Some(&c), &failed, None), Ok(Some(local)));
    assert_eq!(resolve_session_egress_taint(None, &failed, None), Ok(None));
    assert_eq!(resolve_session_egress_taint(None, &failed, Some("s")), Err("disk".to_string()));
    assert_eq!(
        resolve_session_egress_taint(None, &TaintRead::Row(Some(local)), Some("s")),
        Ok(Some(local))
    );
    assert_eq!(boundary_root(Some(&c), "root/a/b"), "root");
    assert_eq!(boundary_root(None, "top/a/b"), "top");
}

#[test]
fn unknown_taint_is_an_error() {
    let missing = require_boundary_session_taint(None, &TaintRead::Row(None), Some(""));
    assert_eq!(missing, Err("egress_boundary_unknown_taint: missing session_id".to_string()));
    let unread = require_boundary_session_taint(None, &TaintRead::NoStore, Some("s"));
    assert_eq!(
        unread,
        Err("egress_boundary_unknown_taint: GatewayStore required to confirm session taint"
            .to_string())
    );
    let clean = require_boundary_session_taint(None, &TaintRead::Row(None), Some("s"));
    assert_eq!(clean, Ok(EgressLabel::unrestricted()));
}

#[test]
fn approvals_keep_restrictive_taint_alone() {
    let row = |l: EgressLabel| TaintRead::Row(Some(l));
    let local = EgressLabel::local_only();
    assert_eq!(snapshot_session_egress_taint_for_approval(None, &row(local), "s"), Ok(Some(local)));
    assert_eq!(snapshot_session_egress_taint_for_approval(None, &row(local), ""), Ok(None));
    assert_eq!(
        snapshot_session_egress_taint_for_approval(None, &row(EgressLabel::unrestricted()), "s"),
        Ok(None)
    );
    assert!(snapshot_session_egress_taint_for_approval(
        None,
        &TaintRead::Failed("x".to_string()),
        "s"
    )
    .is_err());
}

#[test]
fn grants_name_sessions_and_hosts() {
    assert_eq!(session_egress_declass_target("root").value(), "session:root");
    assert_eq!(
        session_host_network_declass_target("root", " API.example.COM.. ").value(),
        "session:root:host:api.example.com"
    );
    assert!(session_network_declassified_for_hosts(true, &[]));
    assert!(!session_network_declassified_for_hosts(false, &[]));
    assert!(session_network_declassified_for_hosts(false, &[true, true]));
    assert!(!session_network_declassified_for_hosts(false, &[true, false]));
}

#[test]
fn the_network_is_closed_without_knowledge() {
    let refusal = |context: Option<&BoundaryContext>,
                   read: &TaintRead,
                   session: Option<&str>,
                   declassified: bool| {
        network_egress_boundary_refusal(
            "web",
            "web_fetch",
            context,
            read,
            session,
            Some("x.org"),
            declassified,
        )
    };
    let clean = TaintRead::Row(None);
    assert!(refusal(None, &clean, Some("s"), false).is_none());

    let no_store = refusal(None, &TaintRead::NoStore, Some("s"), true).expect("refused");
    assert!(no_store.notice.is_none());
    assert_eq!(
        text_of(&no_store.body, "message"),
        "web_fetch refused: GatewayStore required to confirm session egress taint"
    );

    let unknown = refusal(None, &clean, None, true).expect("refused");
    assert!(unknown.notice.is_some());

    let tainted = carrying(EgressLabel::local_only());
    let refused = refusal(Some(&tainted), &clean, Some("s"), false).expect("refused");
    assert_eq!(
        text_of(&refused.body, "message"),
        "web_fetch refused: session egress taint excludes Network; operator declassification required"
    );
    assert!(text_of(&refused.body, "repair_hint").contains("x.org only"));
    assert!(refusal(Some(&tainted), &clean, Some("s"), true).is_none());
    assert!(refusal(Some(&tainted), &clean, None, true).is_some());

    let as_text = network_egress_boundary_refusal_json(
        "web",
        "web_fetch",
        Some(&tainted),
        &clean,
        Some("s"),
        None,
        false,
    )
    .expect("refused");
    assert!(as_text.body.starts_with("{\"error_type\":\"egress_boundary_refused\",\"message\":"));
    assert_eq!(as_text.session_id, "s");
}

#[test]
fn remote_servers_get_no_restricted_arguments() {
    let mut prior = TextMap::new();
    prior.insert(
        "tc_1",
        PriorLabeledResult { label: EgressLabel::local_only(), content_snippet: None },
    );
    let call = |arguments: &str, declassified: bool| {
        mcp_remote_egress_refusal_json(
            "mcp_x_send",
            arguments,
            None,
            &TaintRead::Row(None),
            Some("s"),
            &prior,
            None,
            declassified,
        )
    };
    assert!(call("{\"text\":\"hello\"}", false).is_none());
    let refused = call("{\"ref\":\"tc_1\"}", true).expect("refused");
    assert!(refused.body.contains("\"parent_envelope_ids\":[\"tc_1\"]"));
    assert!(refused.body.contains("argument egress labels exclude Network for remote MCP"));
    assert_eq!(
        text_of(&refused.notice.expect("a notice").payload, "reason"),
        "MCP remote tools/call refused: argument egress labels exclude Network (RFC §7)"
    );
}

#[test]
fn labels_travel_as_lists_of_sinks() {
    for l in [
        EgressLabel::unrestricted(),
        EgressLabel::local_only(),
        EgressLabel::no_remote_model(),
        EgressLabel::empty(),
    ] {
        assert_eq!(label_from_json(&label_to_json(&l)), Some(l));
    }
    assert_eq!(label_from_json(&sinks(&["network", "nowhere"])), None);
    assert_eq!(label_from_json(&Json::Null), None);
}

#[test]
fn peers_that_declare_nothing_are_not_trusted() {
    let closed = ofp_inbound_fail_closed_label();
    assert_eq!(parse_ofp_inbound_egress_label(None), closed);
    assert_eq!(parse_ofp_inbound_egress_label(Some(&Json::Bool(true))), closed);
    assert_eq!(parse_ofp_inbound_egress_label(Some(&sinks(&[]))), closed);
    assert_eq!(
        parse_ofp_inbound_egress_label(Some(&sinks(&["remote_model"]))),
        EgressLabel::from_sinks(&[Sink::RemoteModel])
    );
    assert!(!closed.allows(Sink::RemoteModel));
}

#[test]
fn declarations_of_agents_are_stripped() {
    let metadata = object(vec![
        ("channel", Json::Text("x".to_string())),
        ("parent_egress_taint", sinks(&[])),
        ("operator_egress_label", sinks(&["network"])),
    ]);
    let (left, removed) = strip_ingest_label_keys(metadata);
    assert_eq!(removed, vec!["operator_egress_label", "parent_egress_taint"]);
    assert!(left.get("parent_egress_taint").is_none());
    assert_eq!(text_of(&left, "channel"), "x");
}

#[test]
fn declarations_of_a_turn_meet() {
    assert_eq!(resolve_ingest_turn_label(None, false, None), None);
    assert_eq!(resolve_ingest_turn_label(None, true, None), Some(EgressLabel::local_only()));
    assert_eq!(
        resolve_ingest_turn_label(Some(NamedEgressLabel::NoRemoteModel), false, None),
        Some(EgressLabel::no_remote_model())
    );
    let metadata = object(vec![
        ("operator_egress_label", sinks(&["network", "user_reply"])),
        ("ofp_inbound_egress_label", sinks(&["network", "local_model"])),
    ]);
    assert_eq!(
        resolve_ingest_turn_label(None, false, Some(&metadata)),
        Some(EgressLabel::from_sinks(&[Sink::Network]))
    );
    let unreadable = object(vec![("parent_egress_taint", Json::Null)]);
    assert_eq!(
        resolve_ingest_turn_label(None, false, Some(&unreadable)),
        Some(EgressLabel::local_only())
    );
}

#[test]
fn peers_get_what_the_taint_allows() {
    assert!(ofp_outbound_allows_federation(&EgressLabel::unrestricted()));
    assert!(!ofp_outbound_allows_federation(&EgressLabel::local_only()));
    let taint = TaintRead::Row(Some(EgressLabel::local_only()));
    let refused = ofp_federated_egress_refusal(Some("s"), &taint).expect("refused");
    assert_eq!(
        refused.message,
        "OFP agent_message refused: session egress label excludes FederatedAgent"
    );
    assert_eq!(
        text_of(&refused.notice.expect("a notice").payload, "reason"),
        "OFP agent_message refused: session egress label excludes FederatedAgent (RFC §7)"
    );
    assert!(ofp_federated_egress_refusal(Some("s"), &TaintRead::Row(None)).is_none());
    assert!(ofp_federated_egress_refusal(Some("s"), &TaintRead::NoStore).is_some());
    assert!(ofp_federated_egress_refusal(None, &TaintRead::Row(None)).is_some());

    let (message, label, digest) = ofp_outbound_wire_fields("hi", &EgressLabel::unrestricted());
    assert_eq!(message, "hi");
    assert!(label.is_none() && digest.is_none());
    let (_, label, _) = ofp_outbound_wire_fields("hi", &EgressLabel::local_only());
    assert_eq!(label_from_json(&label.unwrap()), Some(EgressLabel::local_only()));
}

#[test]
fn notices_become_events() {
    let notice = boundary_refused_notice(
        &EgressLabel::local_only(),
        EgressClass::Remote,
        &vec!["tc_1".to_string()],
        "why",
    );
    assert_eq!(notice.target, label_display_name(&EgressLabel::local_only()));
    let event = stamp_notice(&notice, "P-1.1", "s", "a", Some("turn-1"));
    assert!(event.event_id.starts_with("egress-boundary_refused-"));
    assert_eq!(event.enforced_rules, vec!["P-1.1", "P-15.2"]);
    assert_eq!(event.turn_id.as_deref(), Some("turn-1"));
    assert!(event.payload.unwrap().contains("\"fallback\":\"token_budget_truncation\""));

    let relabeled = relabel_notice("memory", 3, &EgressLabel::local_only(), Some("scope"), None);
    let event = stamp_notice(&relabeled, "P-1.1", "s", "a", None);
    assert!(event.event_id.starts_with("egress-relabel-"));
    assert_eq!(event.enforced_rules, vec!["P-1.1", "P-15.3"]);
    assert_eq!(event.action, "egress.relabel");
}

#[test]
fn filtered_requests_are_recorded() {
    let mut report =
        FilterReport { sink: Sink::RemoteModel, withheld: vec![], included: 4, violations: vec![] };
    assert!(chokepoint_events(&report, "preset").is_empty());
    report.withheld.push(WithheldEntry {
        tool_call_id: "tc_1".to_string(),
        label: EgressLabel::local_only(),
        indication: "[withheld]".to_string(),
    });
    report.violations.push(AssertionViolation {
        tool_call_id: "tc_1".to_string(),
        payload_digest: "d".to_string(),
        found_in_message_index: 2,
    });
    let notices: Vec<EgressNotice> = chokepoint_events(&report, "preset");
    let actions: Vec<&str> = notices.iter().map(|n| n.action.as_str()).collect();
    assert_eq!(
        actions,
        vec!["egress.envelope_withheld", "egress.request_filtered", "egress.assertion_violation"]
    );
    assert!(matches!(notices[1].payload.get("included_count"), Some(Json::Number(n)) if n == "4"));
    assert_eq!(notices[1].target, "preset");
}

#[test]
fn labeled_results_are_recorded_with_their_reasons() {
    let labeler = EgressLabeler::from_config(&EgressConfig {
        rules: vec![EgressRule {
            source: "email.*".to_string(),
            path: None,
            label: EgressLabel::local_only(),
        }],
        default_label: NamedEgressLabel::Unrestricted,
    });
    let req = LabelRequest { tool: "email_read", arguments_json: "{}", tool_call_id: "tc_1" };
    let outcome = labeler
        .label_tool_result(&req, &vec![], "a", &TextMap::new(), None, "0")
        .expect("restricted");
    let event = envelope_labeled_event(&labeler, &req, &outcome, "P-1.1", "s", "a", None);
    assert!(event.event_id.starts_with("egress-labeled-"));
    assert_eq!(event.target.as_deref(), Some("env_0"));
    let payload = event.payload.unwrap();
    assert!(payload.contains("\"matched_rule_scopes\":[{\"rule\":\"email.*\",\"scope\":\"global\"}]"));
    assert!(payload.contains("\"args_digest\":\"44136fa355b3\""));
}

#[test]
fn summaries_and_providers_are_recorded() {
    let n = synthesized_envelope_notice(
        "msg_1",
        &EgressLabel::local_only(),
        &Provenance {
            tool: Some("context.compress".to_string()),
            args_digest: None,
            matched_rules: vec![],
            parent_envelope_ids: vec!["tc_1".to_string()],
        },
    );
    assert_eq!(n.action, "egress.envelope_labeled");
    assert!(matches!(n.payload.get("synthesized"), Some(Json::Bool(true))));

    let plan = plan_taint_following_route(
        &EgressLabel::local_only(),
        Some(EgressClass::Remote),
        &[],
        None,
    );
    let n = provider_selected_notice(&plan, None, &vec![], false, false, None);
    assert_eq!(n.target, "none");
    assert!(matches!(n.payload.get("no_eligible_provider"), Some(Json::Bool(true))));
}

#[test]
fn pending_offers_are_used_again() {
    let batch = EgressLabel::local_only();
    let offer = declassify_offer_at(
        Some(&vec![]),
        "1",
        "root/a",
        "root",
        "agent",
        &batch,
        "2026-01-01T00:00:00Z".to_string(),
    );
    let filed = match offer {
        DeclassifyOffer::File(d) => d,
        other => panic!("{other:?}"),
    };
    assert_eq!(filed.request_id, "apr-1");
    assert_eq!(filed.target.value(), "session:root");
    assert!(filed.reason.contains("egress_no_eligible_provider"));
    let pending = vec![PendingDeclassify {
        request_id: filed.request_id,
        target: filed.target,
        allowed_sink: filed.allowed_sink,
    }];
    assert!(matches!(
        file_declassify_offer(Some(&pending), "2", "root/b", "root", "agent", &batch),
        DeclassifyOffer::Reuse(id) if id == "apr-1"
    ));
    assert!(matches!(
        file_declassify_offer(Some(&pending), "2", "x", "other", "agent", &batch),
        DeclassifyOffer::File(d) if d.request_id == "apr-2"
    ));
    assert!(matches!(
        file_declassify_offer(None, "2", "root/b", "root", "agent", &batch),
        DeclassifyOffer::File(_)
    ));
}

fn ask(pending: Option<&Vec<UserInteraction>>, blocker: PinAskBlocker) -> PinAsk {
    let local =
        PresetCandidate { name: "ollama".to_string(), egress_class: Some(EgressClass::Local) };
    file_egress_pin_ask(
        pending,
        "1",
        "root/a",
        "root",
        "agent",
        "turn-1",
        &EgressLabel::local_only(),
        "big",
        Some(&local),
        blocker,
    )
}

fn filed(a: PinAsk) -> UserInteraction {
    match a {
        PinAsk::File(it) => it,
        PinAsk::Reuse(id) => panic!("{id}"),
    }
}

#[test]
fn asks_are_filed_once() {
    let it = filed(ask(Some(&vec![]), PinAskBlocker::BatchTaint));
    assert!(is_egress_pin_ask(&it));
    let ids: Vec<&str> = it.options.iter().map(|o| o.id.as_str()).collect();
    assert_eq!(ids, vec!["declassify", "run_local", "abort"]);
    assert_eq!(it.options[1].label, "Run this turn on the local preset 'ollama'");
    assert!(it.question.contains("The pinned preset 'big' is not cleared"));
    assert!(matches!(
        ask(Some(&vec![it]), PinAskBlocker::BatchTaint),
        PinAsk::Reuse(id) if id == "ui-1"
    ));
}

#[test]
fn pinned_rooms_cannot_be_declassified() {
    let it = filed(ask(None, PinAskBlocker::ProviderConstraint));
    let ids: Vec<&str> = it.options.iter().map(|o| o.id.as_str()).collect();
    assert_eq!(ids, vec!["run_local", "abort"]);
    assert!(it.question.contains("Declassification is not offered"));
    assert_eq!(egress_ask_options_payload(PinAskBlocker::ProviderConstraint, None), vec!["abort"]);
}

#[test]
fn only_the_chosen_option_grants() {
    let mut it = filed(ask(None, PinAskBlocker::BatchTaint));
    assert!(apply_egress_ask_declassification(&it).is_none());
    it.answer_option_id = Some("run_local".to_string());
    assert!(apply_egress_ask_declassification(&it).is_none());
    it.answer_option_id = Some("declassify".to_string());
    it.answered_at = Some("2026-01-01T00:00:00Z".to_string());
    it.root_session_id = String::new();
    let g = apply_egress_ask_declassification(&it).expect("a grant");
    assert_eq!(g.root_session_id, "root");
    assert_eq!(g.granted_by, "gateway");
    assert_eq!(g.granted_at, "2026-01-01T00:00:00Z");
    assert_eq!(g.source, "interaction:ui-1");
    assert_eq!(g.notice.action, "egress.declassified");
    it.context = Some("{}".to_string());
    assert!(apply_egress_ask_declassification(&it).is_none());
}

#[test]
fn grants_are_recorded_without_content() {
    let n = declassified_notice(
        &session_egress_declass_target("root"),
        Sink::RemoteModel,
        "root_session",
        Some("apr-1"),
        "why",
        None,
    );
    assert_eq!(n.target, "session:root");
    assert_eq!(text_of(&n.payload, "source_approval_id"), "apr-1");
    assert!(matches!(n.payload.get("expires_at"), Some(Json::Null)));
}

#[test]
fn network_grants_name_the_root_session() {
    assert_eq!(session_network_declass_target("root").value(), "session:root");
}
