use autonoetic_gateway::budget_tracker::{
    context_pressure_event, enforce_cost_catalog_preflight, finish_cost_catalog_preflight,
    is_retryable_empty_other_response, llm_context_window_tokens, max_other_empty_retries,
    resolve_context_window_for_run, static_context_window, window_limit, CompletionResponse, PricePreflight, StopReason,
    TokenUsage, WindowLookup, WindowSources, LLM_OTHER_EMPTY_RETRY_DEFAULT,
};
use autonoetic_gateway::llm::ToolCall;

fn response(text: &str, stop_reason: StopReason, usage: TokenUsage) -> CompletionResponse {
    CompletionResponse {
        text: text.to_string(),
        tool_calls: vec![],
        reasoning_content: None,
        reasoning_details: None,
        stop_reason,
        usage,
    }
}

#[test]
fn test_is_retryable_empty_other_response() {
    let retryable = response("", StopReason::Other(String::new()), TokenUsage::default());
    assert!(is_retryable_empty_other_response(&retryable));

    let not_retryable = response("has text", StopReason::Other(String::new()), TokenUsage::default());
    assert!(!is_retryable_empty_other_response(&not_retryable));
}

#[test]
fn zero_output_end_turn_is_retryable_provider_failure() {
    let empty_end_turn = response("", StopReason::EndTurn, TokenUsage::default());
    assert!(is_retryable_empty_other_response(&empty_end_turn));

    let normal_end_turn = response(
        "final answer",
        StopReason::EndTurn,
        TokenUsage { input_tokens: 100, output_tokens: 5, reasoning_tokens: 4, cached_tokens: 0 },
    );
    assert!(!is_retryable_empty_other_response(&normal_end_turn));

    let mut with_tool_call = response("", StopReason::EndTurn, TokenUsage::default());
    with_tool_call.tool_calls = vec![ToolCall {
        id: "c1".into(),
        name: "resolve".into(),
        arguments: "{}".into(),
    }];
    assert!(!is_retryable_empty_other_response(&with_tool_call));
}

#[test]
fn deliberate_stops_are_not_retried() {
    assert!(!is_retryable_empty_other_response(&response(
        "",
        StopReason::MaxTokens,
        TokenUsage::default()
    )));
    assert!(!is_retryable_empty_other_response(&response(
        "",
        StopReason::StopSequence,
        TokenUsage::default()
    )));
    assert!(is_retryable_empty_other_response(&response("", StopReason::ToolUse, TokenUsage::default())));
    assert!(!is_retryable_empty_other_response(&response(
        "",
        StopReason::Other("content_filter".to_string()),
        TokenUsage::default()
    )));
}

fn sources() -> WindowSources {
    WindowSources {
        manifest: None,
        environment: None,
        gateway_preset: None,
        base_url: None,
        local: None,
        provider: None,
        has_catalog: false,
        family: "verse".to_string(),
    }
}

#[test]
fn resolve_context_window_uses_gateway_preset_when_manifest_omits_it() {
    let s = WindowSources { gateway_preset: Some(114_688), ..sources() };
    assert_eq!(resolve_context_window_for_run(&s, "qwen"), WindowLookup::Known(114_688));
}

#[test]
fn resolve_context_window_manifest_wins_over_gateway_preset() {
    let s = WindowSources { manifest: Some(32_768), gateway_preset: Some(114_688), ..sources() };
    assert_eq!(resolve_context_window_for_run(&s, "qwen"), WindowLookup::Known(32_768));
}

#[test]
fn windows_fall_back_to_what_is_known_then_to_the_server_then_to_the_catalog() {
    assert_eq!(
        resolve_context_window_for_run(&sources(), "no-such-model"),
        WindowLookup::Unknown
    );
    let local = WindowSources {
        base_url: Some("http://localhost:8080".to_string()),
        local: Some(4096),
        ..sources()
    };
    assert_eq!(resolve_context_window_for_run(&local, "no-such-model"), WindowLookup::Known(4096));
    let blank = WindowSources { base_url: Some(String::new()), local: Some(4096), ..sources() };
    assert_eq!(resolve_context_window_for_run(&blank, "no-such-model"), WindowLookup::Unknown);
    let router = WindowSources {
        provider: Some("OpenRouter".to_string()),
        has_catalog: true,
        ..sources()
    };
    assert_eq!(
        resolve_context_window_for_run(&router, "no-such-model"),
        WindowLookup::AskCatalog
    );
}

#[test]
fn settings_are_read_as_numbers() {
    assert_eq!(max_other_empty_retries(None), LLM_OTHER_EMPTY_RETRY_DEFAULT);
    assert_eq!(max_other_empty_retries(Some("7")), 7);
    assert_eq!(max_other_empty_retries(Some("many")), LLM_OTHER_EMPTY_RETRY_DEFAULT);
    assert_eq!(llm_context_window_tokens(Some(" 8192 ")), Some(8192));
    assert_eq!(llm_context_window_tokens(Some("4294967296")), None);
    assert_eq!(llm_context_window_tokens(None), None);
}

#[test]
fn window_limits_never_go_below_zero() {
    assert_eq!(window_limit(Some(100), 30), 70);
    assert_eq!(window_limit(Some(100), 130), 0);
    assert_eq!(window_limit(None, 30), usize::MAX);
}

#[test]
fn pressure_is_recorded_only_where_it_is_warranted() {
    assert!(context_pressure_event(false, "10.0", "80.0", 10, 5, Some(100)).is_none());
    let event = context_pressure_event(true, "90.0", "80.0", 90, 5, Some(100)).expect("an event");
    assert!(matches!(
        event.get("effective_limit"),
        Some(autonoetic_gateway::json::Json::Number(n)) if n == "95"
    ));
    assert!(matches!(
        event.get("utilization_pct"),
        Some(autonoetic_gateway::json::Json::Number(n)) if n == "90.0"
    ));
}

#[test]
fn price_caps_need_a_catalog_and_a_price() {
    assert!(matches!(
        enforce_cost_catalog_preflight(true, true, true, false, None),
        PricePreflight::Pass
    ));
    assert!(matches!(
        enforce_cost_catalog_preflight(false, false, false, false, None),
        PricePreflight::Pass
    ));
    assert!(matches!(
        enforce_cost_catalog_preflight(false, true, false, true, None),
        PricePreflight::AskCatalog
    ));
    match enforce_cost_catalog_preflight(false, false, true, false, None) {
        PricePreflight::Refuse(m) => assert_eq!(
            m,
            "Session start refused: cost-budget enforcement requires price metadata but catalog is unavailable (P-6.5, I-11: fail-mode=refuse-session-start). Add capability 'budget.no_price_available.allow' to override intentionally."
        ),
        other => panic!("{other:?}"),
    }
    assert!(finish_cost_catalog_preflight("m", true, None).is_ok());
    let refused = finish_cost_catalog_preflight("m", false, Some("warn")).unwrap_err();
    assert!(refused.contains("for model 'm' but catalog is unavailable"));
    assert!(refused.contains("fail-mode=warn"));
}

#[test]
fn common_models_have_known_windows() {
    for (model, window) in [
        ("GPT-4o-mini", 128_000),
        ("gpt-4", 8_192),
        ("gemini-2.5-pro", 1_048_576),
    ] {
        assert_eq!(resolve_context_window_for_run(&sources(), model), WindowLookup::Known(window), "{model}");
    }
    for (model, window) in [
        ("gpt-4o-mini", Some(128_000)),
        ("gpt-4", Some(8_192)),
        ("gpt-4-1106-preview", Some(128_000)),
        ("GPT-4-Turbo", Some(128_000)),
        ("gpt-3.5-turbo", Some(16_385)),
        ("o3-mini", Some(200_000)),
        ("verse-3-haiku", Some(200_000)),
        ("Verse-Opus-4", Some(200_000)),
        ("verse-3-sonnet", Some(200_000)),
        ("verse-2", None),
        ("prose-3-haiku", None),
        ("gemini-2.5-pro", Some(1_048_576)),
        ("gemini-pro", Some(128_000)),
        ("llama3", None),
    ] {
        assert_eq!(static_context_window(model, "verse"), window, "{model}");
    }
}
