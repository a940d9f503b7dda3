use autonoetic_gateway::memory_recall::{
    build_memory_context_snippet, is_error_lesson_scope, ranking, score_task_relevance,
    MemoryObject, Overlap, Rank,
};

fn memory(
    id: &str,
    agent_id: &str,
    scope: &str,
    content: &str,
    session: &str,
    updated_at: &str,
) -> MemoryObject {
    MemoryObject {
        memory_id: id.to_string(),
        scope: scope.to_string(),
        content: content.to_string(),
        shown: content.to_string(),
        tags: vec![
            "source:post_session_digest".to_string(),
            format!("session:{session}"),
            format!("agent:{agent_id}"),
        ],
        updated_at: updated_at.to_string(),
    }
}

#[test]
fn scorer_matches_related_memory_and_zero_for_unrelated() {
    let task = "fetch weather data from api";
    let related = score_task_relevance(task, "weather api requires retry on 429");
    let unrelated = score_task_relevance(task, "unrelated database migration note");
    assert!(related.shared > 0, "expected positive score, got {related:?}");
    assert_eq!(unrelated.shared, 0, "expected zero score, got {unrelated:?}");
}

#[test]
fn task_matched_recall_prefers_relevant_over_recent() {
    let agent_id = "coder.default";
    let stored = vec![
        memory(
            "mem-recent-irrelevant",
            agent_id,
            "digest.fact",
            "unrelated database migration note about schema versions",
            "sess-recent-bbbbbbbb",
            "2026-06-01T00:00:00Z",
        ),
        memory(
            "mem-relevant",
            agent_id,
            "digest.lesson",
            "weather api requires retry on 429 rate limits",
            "sess-relevant-aaaaaaaa",
            "2026-01-01T00:00:00Z",
        ),
    ];

    let snippet = build_memory_context_snippet(
        agent_id,
        &stored,
        &vec![],
        &vec![],
        1,
        Some("fetch weather data from api"),
    )
    .expect("expected snippet");

    assert!(
        snippet.contains("weather api requires retry"),
        "expected relevant memory to be selected: {snippet}"
    );
    assert!(
        !snippet.contains("database migration"),
        "irrelevant, more recent memory should not have been selected: {snippet}"
    );
}

#[test]
fn snippet_includes_provenance_and_error_lesson_prefix() {
    let agent_id = "coder.default";
    let stored = vec![memory(
        "mem-error",
        agent_id,
        "digest.error_pattern",
        "weather api call failed with 429 without retry",
        "sess-errsession",
        "2026-01-01T00:00:00Z",
    )];

    let snippet = build_memory_context_snippet(
        agent_id,
        &stored,
        &vec![],
        &vec![],
        1,
        Some("fetch weather data from api"),
    )
    .expect("expected snippet");

    assert!(
        snippet.contains("[from session sess-err"),
        "expected provenance suffix: {snippet}"
    );
    assert!(
        snippet.contains("(error lesson)"),
        "expected error-lesson prefix: {snippet}"
    );
}

#[test]
fn other_agents_digests_are_excluded_when_agent_has_own_memories() {
    let stored = vec![
        memory(
            "mem-foreign",
            "researcher.default",
            "digest.lesson",
            "foreign lesson about api retries",
            "sess-foreign-1",
            "2026-06-01T00:00:00Z",
        ),
        memory(
            "mem-own",
            "coder.default",
            "digest.lesson",
            "own lesson about api retries",
            "sess-own-1",
            "2026-01-01T00:00:00Z",
        ),
    ];

    let snippet = build_memory_context_snippet(
        "coder.default",
        &stored,
        &vec![],
        &vec![],
        5,
        Some("api retries"),
    )
    .expect("expected snippet");
    assert!(snippet.contains("own lesson"), "own memory expected: {snippet}");
    assert!(
        !snippet.contains("foreign lesson"),
        "another agent's digest must not appear: {snippet}"
    );
}

#[test]
fn no_task_text_preserves_recency_order() {
    let agent_id = "coder.default";
    let stored = vec![
        memory(
            "mem-newer",
            agent_id,
            "digest.fact",
            "newer fact about unrelated topic",
            "sess-newer-2",
            "2026-06-01T00:00:00Z",
        ),
        memory(
            "mem-older",
            agent_id,
            "digest.fact",
            "older fact about unrelated topic",
            "sess-older-1",
            "2026-01-01T00:00:00Z",
        ),
    ];

    let snippet = build_memory_context_snippet(agent_id, &stored, &vec![], &vec![], 2, None)
        .expect("expected snippet");

    let lines: Vec<&str> = snippet.lines().filter(|l| l.starts_with("- ")).collect();
    assert_eq!(lines.len(), 2);
    assert!(
        lines[0].contains("newer fact") && lines[1].contains("older fact"),
        "expected recency (newest first) order preserved when task_text is None: {snippet}"
    );
}

#[test]
fn overlaps_count_distinct_words() {
    assert_eq!(
        score_task_relevance("Retry, retry the ÜBER-api!", "über api a x"),
        Overlap { shared: 2, total: 4 }
    );
    assert_eq!(score_task_relevance("a b", "a b"), Overlap { shared: 0, total: 1 });
}

#[test]
fn ranks_go_by_overlap_then_lesson_then_date() {
    let rank = |shared: usize, total: usize, lesson: bool, at: &str| Rank {
        overlap: Overlap { shared, total },
        lesson,
        updated_at: at.to_string(),
    };
    let v = vec![
        rank(1, 3, false, "2026-06-01"),
        rank(1, 2, false, "2026-01-01"),
        rank(2, 4, true, "2025-01-01"),
        rank(1, 2, false, "2026-02-01"),
    ];
    assert_eq!(ranking(&v), vec![2, 3, 1, 0]);
}

#[test]
fn strangers_digests_are_a_last_resort() {
    let foreign = memory("m", "other", "digest.fact", &"é".repeat(600), "s", "2026-01-01");
    let line = format!(
        "---\n\nPrior Knowledge (from past sessions)\n\n- {} [from session s]",
        "é".repeat(500)
    );
    assert_eq!(
        build_memory_context_snippet("me", &vec![], &vec![], &vec![foreign], 3, Some(" ")),
        Some(line)
    );
    assert_eq!(build_memory_context_snippet("me", &vec![], &vec![], &vec![], 3, None), None);
    assert!(is_error_lesson_scope("digest.lesson"));
    assert!(!is_error_lesson_scope("digest.fact"));
}
