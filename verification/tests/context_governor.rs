use autonoetic_gateway::context_governor::{
    aggressive_pipeline, default_pipeline, recompute_total, settle_conversation,
    settle_schema_compression, settle_trim, tool_token_total, BudgetSnapshot, ContextGovernor, ContextOverflowDiagnostic,
    ContextOverflowError, GovernorAction, GovernorContext, GovernorResult, PipelineStage,
    PromptBudgetBreakdown, PromptBudgetConfig, RecoveryAction, ReductionOutcome,
    ReductionStrategy,
};
use autonoetic_gateway::llm::Message;
use autonoetic_gateway::textmap::TextMap;

enum Strategy {
    AlwaysResolve,
    AlwaysInsufficient,
    Fails,
}

impl ReductionStrategy for Strategy {
    fn name(&self) -> &'static str {
        match self {
            Strategy::AlwaysResolve => "always_resolve",
            Strategy::AlwaysInsufficient => "always_insufficient",
            Strategy::Fails => "fails",
        }
    }

    fn reduce(&self, ctx: &mut GovernorContext) -> Result<ReductionOutcome, String> {
        match self {
            Strategy::AlwaysResolve => {
                ctx.history.push(Message::user("always_resolve"));
                Ok(ReductionOutcome::Resolved { tokens_after: 1 })
            }
            Strategy::AlwaysInsufficient => Ok(ReductionOutcome::Insufficient {
                tokens_remaining: ctx.breakdown.total_tokens,
            }),
            Strategy::Fails => Err("no model".to_string()),
        }
    }
}

fn make_context(total: usize, limit: usize) -> GovernorContext {
    let breakdown = PromptBudgetBreakdown {
        system_prompt_tokens: 10,
        conversation_tokens: total.saturating_sub(10),
        tool_count: 0,
        tool_definition_tokens: 0,
        total_tokens: total,
        context_window: Some(limit),
        utilization_pct_bits: Some(((total as f64 / limit as f64) * 100.0).to_bits()),
    };
    GovernorContext::new(
        vec![],
        vec![],
        breakdown,
        limit,
        1,
        "test".to_string(),
        None,
        PromptBudgetConfig { margin_tokens: 0, warn_at_pct_bits: 80.0f64.to_bits(), soft_budget_tokens: None },
        None,
        None,
        None,
        TextMap::new(),
    )
}

#[test]
fn test_within_budget_returns_immediately() {
    let governor = ContextGovernor::with_strategies(vec![Strategy::AlwaysResolve]);
    let mut ctx = make_context(50, 100);
    let result = governor.govern(&mut ctx).unwrap();
    assert!(matches!(result, GovernorResult::WithinBudget));
}

#[test]
fn test_first_resolve_skips_later_strategies() {
    let governor =
        ContextGovernor::with_strategies(vec![Strategy::AlwaysResolve, Strategy::AlwaysInsufficient]);
    let mut ctx = make_context(150, 100);
    match governor.govern(&mut ctx).unwrap() {
        GovernorResult::Recovered { actions_taken } => {
            assert_eq!(actions_taken.len(), 1);
            assert_eq!(actions_taken[0].strategy, "always_resolve");
        }
        other => panic!("Expected Recovered, got {:?}", other),
    }
}

#[test]
fn test_all_exhausted_yields_overflow() {
    let governor = ContextGovernor::with_strategies(vec![
        Strategy::AlwaysInsufficient,
        Strategy::AlwaysInsufficient,
    ]);
    let mut ctx = make_context(200, 100);
    match governor.govern(&mut ctx).unwrap() {
        GovernorResult::Overflow(diag) => {
            assert_eq!(diag.actions_attempted.len(), 2);
            assert!(diag.budget_snapshot.estimated_input > 0);
        }
        other => panic!("Expected Overflow, got {:?}", other),
    }
}

#[test]
fn a_failing_strategy_fails_the_run() {
    let governor = ContextGovernor::with_strategies(vec![Strategy::Fails, Strategy::AlwaysResolve]);
    let mut ctx = make_context(200, 100);
    assert_eq!(governor.govern(&mut ctx).unwrap_err(), "no model");
}

#[test]
fn a_soft_budget_starts_the_pipeline_and_the_limit_is_restored() {
    let governor = ContextGovernor::with_strategies(vec![Strategy::AlwaysResolve]);
    let mut ctx = make_context(50, 100);
    ctx.budget_config.soft_budget_tokens = Some(40);
    assert!(matches!(governor.govern(&mut ctx).unwrap(), GovernorResult::Recovered { .. }));
    assert_eq!(ctx.effective_limit, 100);
}

#[test]
fn an_overflow_is_reported_in_words() {
    let error = ContextOverflowError {
        diagnostic: ContextOverflowDiagnostic {
            budget_snapshot: BudgetSnapshot {
                estimated_input: 200,
                margin: 5,
                window: Some(100),
                threshold_pct_bits: 0,
            },
            actions_attempted: vec![GovernorAction { strategy: "a".to_string(), tokens_after: 150 }],
            recovery_action: RecoveryAction::Failed,
        },
    };
    assert_eq!(error.message(), "context overflow after 1 actions: 200 tokens vs limit 100");
}

#[test]
fn pipelines_have_their_stages() {
    assert_eq!(
        default_pipeline(),
        vec![PipelineStage::TrimHistory, PipelineStage::Capsule, PipelineStage::ToolDemotion]
    );
    assert_eq!(aggressive_pipeline(), vec![PipelineStage::TrimHistory, PipelineStage::ToolDemotion]);
}

#[test]
fn settling_a_conversation_recounts_the_prompt() {
    let mut ctx = make_context(150, 100);
    assert_eq!(
        settle_conversation(&mut ctx, 30),
        ReductionOutcome::Resolved { tokens_after: 40 }
    );
    assert_eq!(ctx.breakdown.conversation_tokens, 30);
    assert_eq!(
        settle_conversation(&mut ctx, 130),
        ReductionOutcome::Insufficient { tokens_remaining: 140 }
    );
    assert_eq!(tool_token_total(&[1, 2, 3]), 6);
}

#[test]
fn a_trimmed_history_is_taken_over_only_within_the_limit() {
    let mut ctx = make_context(150, 100);
    ctx.history = vec![Message::user("a"), Message::user("b")];
    let over = settle_trim(&mut ctx, vec![Message::user("b")], vec![], 120);
    assert_eq!(over, ReductionOutcome::Insufficient { tokens_remaining: 120 });
    assert_eq!(ctx.history.len(), 2);
    let within = settle_trim(&mut ctx, vec![Message::user("b")], vec![], 90);
    assert_eq!(within, ReductionOutcome::Resolved { tokens_after: 90 });
    assert_eq!(ctx.history.len(), 1);
    assert_eq!(ctx.breakdown.total_tokens, 90);
}

#[test]
fn schemas_are_compressed_from_the_second_turn_on() {
    let mut ctx = make_context(150, 100);
    assert_eq!(
        settle_schema_compression(&mut ctx, vec![], 80, 20),
        ReductionOutcome::Resolved { tokens_after: 90 }
    );
    let mut first = make_context(150, 100);
    first.turn_number = 0;
    assert_eq!(
        settle_schema_compression(&mut first, vec![], 80, 20),
        ReductionOutcome::Insufficient { tokens_remaining: 150 }
    );
}

#[test]
fn totals_leave_system_messages_out() {
    let history = vec![Message::system("s"), Message::user("u"), Message::assistant("a")];
    assert_eq!(recompute_total(10, &history, &[100, 5, 7], &[3, 4]), 29);
}
