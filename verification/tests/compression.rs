use autonoetic_gateway::compression::{
    build_summarization_prompt, compressed_context_name, effective_config, finish_compress_context,
    persist_compressed_context, plan_compress_context, resolve_compression_llm_config,
    split_compressible_messages, unchanged, CompressionMetadata, CompressionPlan,
};
use autonoetic_gateway::config::{CompressionConfig, ContextCompressionConfig, LlmPreset};
use autonoetic_gateway::content_store::ContentStore;
use autonoetic_gateway::llm::{Message, Role, ToolCall};
use autonoetic_gateway::textmap::TextMap;

fn gateway() -> ContextCompressionConfig {
    ContextCompressionConfig {
        enabled: true,
        llm_preset: None,
        provider: None,
        model: None,
        threshold_pct_bits: 70.0f64.to_bits(),
        recent_turns_to_keep: 3,
        max_summary_tokens: 500,
        min_turns_between_compression: 0,
        max_capsule_decisions: 30,
        max_completed_tasks: 10,
    }
}

fn preset(provider: &str, model: &str) -> LlmPreset {
    LlmPreset {
        provider: Some(provider.to_string()),
        model: Some(model.to_string()),
        temperature_bits: Some(0.1f64.to_bits()),
        fallback_provider: None,
        fallback_model: None,
        chat_only: None,
        context_window_tokens: None,
        base_url: None,
        api_key_env: None,
        thinking: None,
        egress_class: None,
    }
}

#[test]
fn test_split_compressible_messages_empty() {
    let messages: Vec<Message> = vec![];
    let (compressible, kept) = split_compressible_messages(&messages, 3);
    assert!(compressible.is_empty());
    assert!(kept.is_empty());
}

#[test]
fn test_split_compressible_messages_only_system() {
    let messages = vec![Message::system("You are helpful.")];
    let (compressible, kept) = split_compressible_messages(&messages, 3);
    assert!(compressible.is_empty());
    assert_eq!(kept.len(), 1);
}

#[test]
fn test_split_compressible_messages_keeps_recent() {
    let messages = vec![
        Message::system("sys"),
        Message::user("u1"),
        Message::assistant("a1"),
        Message::user("u2"),
        Message::assistant("a2"),
        Message::user("u3"),
        Message::assistant("a3"),
    ];
    let (compressible, kept) = split_compressible_messages(&messages, 2);
    assert_eq!(compressible.len(), 3);
    assert_eq!(kept.len(), 4);
    assert!(matches!(kept[0].role, Role::User));
    assert!(matches!(kept[1].role, Role::Assistant));
    assert!(matches!(kept[2].role, Role::User));
    assert!(matches!(kept[3].role, Role::Assistant));
}

#[test]
fn test_split_compressible_messages_all_recent() {
    let messages = vec![
        Message::system("sys"),
        Message::user("u1"),
        Message::assistant("a1"),
    ];
    let (compressible, kept) = split_compressible_messages(&messages, 3);
    assert!(compressible.is_empty());
    assert_eq!(kept.len(), 3);
}

#[test]
fn test_build_summarization_prompt() {
    let msgs = vec![
        Message::user("What is rust?"),
        Message::assistant("A systems language."),
    ];
    let prompt = build_summarization_prompt(&msgs, 100);
    assert!(prompt.contains("What is rust?"));
    assert!(prompt.contains("A systems language."));
    assert!(prompt.contains("100 tokens"));
}

#[test]
fn test_split_tool_call_groups_kept_together() {
    let tool_call = ToolCall {
        id: "tc1".to_string(),
        name: "search".to_string(),
        arguments: "{}".to_string(),
    };
    let messages = vec![
        Message::system("sys"),
        Message::user("u1"),
        Message::assistant("a1"),
        Message::user("u2"),
        {
            let mut m = Message::assistant("a2");
            m.tool_calls = vec![tool_call.clone()];
            m
        },
        Message::tool_result("tc1", "search", "result1"),
        Message::user("u3"),
        Message::assistant("a3"),
    ];
    let (compressible, kept) = split_compressible_messages(&messages, 2);
    assert_eq!(compressible.len(), 4);
    assert_eq!(kept.len(), 4);
    let kept_has_tool_result = kept
        .iter()
        .any(|m| m.tool_call_id.as_deref() == Some("tc1"));
    let kept_has_tool_call = kept
        .iter()
        .any(|m| m.tool_calls.iter().any(|tc| tc.id == "tc1"));
    assert_eq!(kept_has_tool_result, kept_has_tool_call);
    let comp_has_tool_result = compressible
        .iter()
        .any(|m| m.tool_call_id.as_deref() == Some("tc1"));
    let comp_has_tool_call = compressible
        .iter()
        .any(|m| m.tool_calls.iter().any(|tc| tc.id == "tc1"));
    assert_eq!(comp_has_tool_result, comp_has_tool_call);
}

#[test]
fn test_split_tool_call_parent_pulled_into_kept() {
    let tool_call = ToolCall {
        id: "tc_x".to_string(),
        name: "read".to_string(),
        arguments: "{}".to_string(),
    };
    let messages = vec![
        Message::system("sys"),
        {
            let mut m = Message::assistant("a1");
            m.tool_calls = vec![tool_call.clone()];
            m
        },
        Message::tool_result("tc_x", "read", "file content"),
        Message::user("u2"),
        Message::assistant("a2"),
        Message::user("u3"),
        Message::assistant("a3"),
    ];
    let (compressible, kept) = split_compressible_messages(&messages, 2);
    let has_tool_call = |msgs: &[Message]| {
        msgs.iter()
            .any(|m| m.tool_calls.iter().any(|tc| tc.id == "tc_x"))
    };
    let has_tool_result = |msgs: &[Message]| {
        msgs.iter()
            .any(|m| m.tool_call_id.as_deref() == Some("tc_x"))
    };
    if has_tool_result(kept) {
        assert!(
            has_tool_call(compressible) || has_tool_call(kept),
            "Tool result in kept but parent assistant missing from both sides"
        );
    }
    if has_tool_result(compressible) {
        assert!(
            has_tool_call(compressible),
            "Tool result in compressible but parent assistant not in compressible"
        );
    }
}

#[test]
fn test_split_tool_call_parent_in_compressible_tool_in_kept() {
    let tool_call = ToolCall {
        id: "tc2".to_string(),
        name: "read".to_string(),
        arguments: "{}".to_string(),
    };
    let messages = vec![
        Message::system("sys"),
        {
            let mut m = Message::assistant("a1");
            m.tool_calls = vec![tool_call.clone()];
            m
        },
        Message::tool_result("tc2", "read", "result"),
        Message::user("u2"),
        Message::assistant("a2"),
        Message::user("u3"),
        Message::assistant("a3"),
    ];
    let (compressible, kept) = split_compressible_messages(&messages, 2);
    let has_tool_call = |msgs: &[Message]| {
        msgs.iter()
            .any(|m| m.tool_calls.iter().any(|tc| tc.id == "tc2"))
    };
    let has_tool_result = |msgs: &[Message]| {
        msgs.iter()
            .any(|m| m.tool_call_id.as_deref() == Some("tc2"))
    };
    if has_tool_result(kept) {
        assert!(
            has_tool_call(compressible) || has_tool_call(kept),
            "Tool result in kept but parent assistant not in either side"
        );
    }
}

#[test]
fn test_build_summarization_prompt_skips_compressed_context() {
    let msgs = vec![
        Message::user("[COMPRESSED CONTEXT - Turn 5]\nPrevious summary"),
        Message::user("actual user message"),
        Message::assistant("actual assistant response"),
    ];
    let prompt = build_summarization_prompt(&msgs, 100);
    assert!(prompt.contains("actual user message"));
    assert!(prompt.contains("actual assistant response"));
    assert!(!prompt.contains("Previous summary"));
}

#[test]
fn test_effective_config_uses_gateway_defaults() {
    let gateway = ContextCompressionConfig {
        llm_preset: Some("haiku".into()),
        threshold_pct_bits: 50.0f64.to_bits(),
        recent_turns_to_keep: 4,
        max_summary_tokens: 600,
        ..gateway()
    };
    let (threshold, recent, max) = effective_config(&gateway, None);
    assert_eq!(f64::from_bits(threshold), 50.0);
    assert_eq!(recent, 4);
    assert_eq!(max, 600);
}

#[test]
fn test_effective_config_agent_override() {
    let gateway = ContextCompressionConfig {
        llm_preset: Some("haiku".into()),
        threshold_pct_bits: 50.0f64.to_bits(),
        recent_turns_to_keep: 4,
        max_summary_tokens: 600,
        ..gateway()
    };
    let agent = CompressionConfig {
        threshold_pct_bits: Some(40.0f64.to_bits()),
        recent_turns_to_keep: Some(2),
        llm_preset: Some("cheap".into()),
        max_capsule_decisions: None,
        max_completed_tasks: None,
    };
    let (threshold, recent, max) = effective_config(&gateway, Some(&agent));
    assert_eq!(f64::from_bits(threshold), 40.0);
    assert_eq!(recent, 2);
    assert_eq!(max, 600);
}

#[test]
fn test_compression_disabled() {
    let gateway = ContextCompressionConfig { enabled: false, ..gateway() };
    let history = vec![Message::user("hello"), Message::assistant("hi")];
    let plan = plan_compress_context(
        &history,
        usize::MAX,
        0,
        &gateway,
        None,
        &TextMap::new(),
        "sess",
        1,
        None,
    );
    assert!(matches!(plan, CompressionPlan::Unchanged));
    let result = unchanged(history, None);
    assert!(!result.compressed);
}

#[test]
fn test_resolve_compression_llm_config_from_preset() {
    let mut presets = TextMap::new();
    presets.insert("haiku", preset("anthropic", "summary-3-haiku-20240307"));
    let gateway = ContextCompressionConfig { llm_preset: Some("haiku".to_string()), ..gateway() };
    let config = resolve_compression_llm_config(&gateway, None, &presets);
    assert!(config.is_some());
    let config = config.unwrap();
    assert_eq!(config.provider, "anthropic");
    assert_eq!(config.model, "summary-3-haiku-20240307");
}

#[test]
fn test_resolve_compression_llm_config_inline() {
    let presets = TextMap::new();
    let gateway = ContextCompressionConfig {
        provider: Some("openai".to_string()),
        model: Some("gpt-4o-mini".to_string()),
        ..gateway()
    };
    let config = resolve_compression_llm_config(&gateway, None, &presets);
    assert!(config.is_some());
    let config = config.unwrap();
    assert_eq!(config.provider, "openai");
    assert_eq!(config.model, "gpt-4o-mini");
}

fn long_history() -> Vec<Message> {
    let mut history = vec![Message::system("sys")];
    for i in 0..6 {
        history.push(Message::user(&format!("u{i}")));
        history.push(Message::assistant(&format!("a{i}")));
    }
    history
}

#[test]
fn test_min_turns_between_compression_blocks_early_recompression() {
    let gateway = ContextCompressionConfig { min_turns_between_compression: 5, ..gateway() };
    let metadata = CompressionMetadata {
        last_compression_turn: 10,
        messages_summarized: 0,
        compressed_context_handle: None,
        compression_count: 0,
    };
    let history = vec![Message::user("hello"), Message::assistant("hi")];
    for turn in [12, 16, 20] {
        let plan = plan_compress_context(
            &history,
            10,
            89_600,
            &gateway,
            None,
            &TextMap::new(),
            "sess",
            turn,
            Some(&metadata),
        );
        assert!(matches!(plan, CompressionPlan::Unchanged), "turn {turn}");
    }

    let inline = ContextCompressionConfig {
        provider: Some("openai".to_string()),
        model: Some("gpt-4o-mini".to_string()),
        ..gateway
    };
    let plan_at = |turn: u64| {
        plan_compress_context(
            &long_history(),
            100,
            10,
            &inline,
            None,
            &TextMap::new(),
            "sess",
            turn,
            Some(&metadata),
        )
    };
    assert!(matches!(plan_at(14), CompressionPlan::Unchanged));
    assert!(matches!(plan_at(15), CompressionPlan::Summarize(_)));
}

#[test]
fn a_summary_replaces_what_stands_before_the_split() {
    let history = long_history();
    let inline = ContextCompressionConfig {
        provider: Some("openai".to_string()),
        model: Some("gpt-4o-mini".to_string()),
        recent_turns_to_keep: 2,
        ..gateway()
    };
    let plan =
        plan_compress_context(&history, 100, 10, &inline, None, &TextMap::new(), "sess", 9, None);
    let task = match plan {
        CompressionPlan::Summarize(t) => t,
        other => panic!("{other:?}"),
    };
    assert_eq!(task.request.model, "gpt-4o-mini");
    assert_eq!(task.request.max_tokens, Some(500));
    assert_eq!(task.request.temperature_bits.map(f64::from_bits), Some(0.1));
    assert_eq!(task.request.messages.len(), 2);
    assert!(task.request.messages[1].content.contains("u0"));
    let result = finish_compress_context(history, task.split, Some("the gist"), 9, None);
    assert!(result.compressed);
    assert_eq!(result.history[0].content, "sys");
    assert_eq!(result.history[1].content, "[COMPRESSED CONTEXT - Turn 9]\nthe gist");
    assert_eq!(result.metadata.last_compression_turn, 9);
    assert_eq!(result.metadata.messages_summarized, task.split as u64);
    assert_eq!(result.metadata.compression_count, 1);
    assert_eq!(result.original_history.len(), 13);
}

#[test]
fn a_blank_or_missing_summary_changes_nothing() {
    for reply in [None, Some("  \n")] {
        let result = finish_compress_context(long_history(), 3, reply, 9, None);
        assert!(!result.compressed);
        assert_eq!(result.history.len(), 13);
        assert_eq!(result.metadata.compression_count, 0);
    }
}

fn metadata(turn: u64, summarized: u64) -> CompressionMetadata {
    CompressionMetadata {
        last_compression_turn: turn,
        messages_summarized: summarized,
        compressed_context_handle: None,
        compression_count: 1,
    }
}

fn as_json(history: &[Message]) -> String {
    let items: Vec<serde_json::Value> = history
        .iter()
        .map(|m| {
            let mut o = serde_json::Map::new();
            o.insert("role".to_string(), serde_json::Value::String(m.role.as_str().to_string()));
            o.insert("content".to_string(), serde_json::Value::String(m.content.clone()));
            serde_json::Value::Object(o)
        })
        .collect();
    serde_json::Value::Array(items).to_string()
}

#[test]
fn persist_compressed_context_writes_history_and_returns_handle() {
    let mut store = ContentStore::new();
    let history = vec![
        Message::system("system prompt"),
        Message::user("hello"),
        Message::assistant("hi there"),
    ];
    let handle = persist_compressed_context(
        &mut store,
        "test-session",
        &as_json(&history),
        &metadata(5, 2),
    );
    let name = "compressed_context_turn_5";
    assert_eq!(compressed_context_name(5), name);
    let resolved = store.resolve_name("test-session", name).unwrap();
    assert_eq!(resolved, handle);
}

#[test]
fn persist_compressed_context_handle_is_round_trippable() {
    let mut store = ContentStore::new();
    let history = vec![
        Message::user("turn 1"),
        Message::assistant("reply 1"),
        Message::user("turn 2"),
    ];
    let handle =
        persist_compressed_context(&mut store, "session-rt", &as_json(&history), &metadata(3, 3));
    let bytes = store.read(&handle).unwrap();
    let restored: serde_json::Value = serde_json::from_slice(bytes).unwrap();
    let restored = restored.as_array().unwrap();
    assert_eq!(restored.len(), 3);
    assert_eq!(restored[0]["content"], "turn 1");
    assert_eq!(restored[2]["content"], "turn 2");
}

#[test]
fn unknown_windows_are_assumed() {
    assert_eq!(autonoetic_gateway::compression::compression_window(Some(8_000)), 8_000);
    assert_eq!(autonoetic_gateway::compression::compression_window(None), 128_000);
}
