//! The context governor.
//!
//! A pipeline of reduction strategies keeps a turn's prompt within its token
//! budget. The decisions stand here; what a strategy needs from a model, from
//! the disk or from the token estimator is handed in.

use crate::capsule;
use crate::capsule::{CapsuleDelta, CapsuleError, PlanFrameSummary, StateCapsule};
use crate::clock;
use crate::compression;
use crate::compression::{CompletionRequest, CompressionMetadata, CompressionResult};
use crate::config::{CompressionConfig, ContextCompressionConfig, LlmConfig, LlmPreset};
use crate::egress::{EgressClass, EgressLabel};
use crate::egress_routing;
use crate::egress_routing::CompressionEligibility;
use crate::json::Json;
use crate::llm;
use crate::llm::{Message, Role};
use crate::text;
use crate::textmap::TextMap;
use vstd::prelude::*;

verus! {

// ---------------------------------------------------------------------------
// Data
// ---------------------------------------------------------------------------

/// A tool as the model sees it.
#[derive(Debug)]
pub struct ToolDefinition {
    pub name: String,
    pub description: String,
    pub input_schema: Json,
}

/// Where the tokens of a prompt go.
#[derive(Debug)]
pub struct PromptBudgetBreakdown {
    pub system_prompt_tokens: usize,
    pub conversation_tokens: usize,
    pub tool_count: usize,
    pub tool_definition_tokens: usize,
    pub total_tokens: usize,
    pub context_window: Option<usize>,
    /// Share of the context window in percent, as `f64` bits.
    pub utilization_pct_bits: Option<u64>,
}

/// The settings of the prompt budget.
#[derive(Debug)]
pub struct PromptBudgetConfig {
    pub margin_tokens: usize,
    /// Share of the window at which a warning is due, as `f64` bits.
    pub warn_at_pct_bits: u64,
    /// A budget below the hard limit that starts the pipeline already.
    pub soft_budget_tokens: Option<u32>,
}

/// The state that runs through the pipeline.
pub struct GovernorContext {
    pub history: Vec<Message>,
    pub tools: Vec<ToolDefinition>,
    pub breakdown: PromptBudgetBreakdown,
    pub effective_limit: usize,
    pub turn_number: u64,
    pub session_id: String,
    pub compression_metadata: Option<CompressionMetadata>,
    pub budget_config: PromptBudgetConfig,
    pub compression_config: Option<ContextCompressionConfig>,
    pub agent_compression: Option<CompressionConfig>,
    pub capsule_state: Option<StateCapsule>,
    /// The active plan, by which the relevance of decisions is judged.
    pub plan_anchor: Option<PlanFrameSummary>,
    /// The labels of the messages, by their egress keys.
    pub egress_labels: TextMap<EgressLabel>,
}

impl GovernorContext {
    /// A context without a capsule.
    pub fn new(
        history: Vec<Message>,
        tools: Vec<ToolDefinition>,
        breakdown: PromptBudgetBreakdown,
        effective_limit: usize,
        turn_number: u64,
        session_id: String,
        compression_metadata: Option<CompressionMetadata>,
        budget_config: PromptBudgetConfig,
        compression_config: Option<ContextCompressionConfig>,
        agent_compression: Option<CompressionConfig>,
        plan_anchor: Option<PlanFrameSummary>,
        egress_labels: TextMap<EgressLabel>,
    ) -> (r: GovernorContext)
        ensures
            r == (GovernorContext {
                history,
                tools,
                breakdown,
                effective_limit,
                turn_number,
                session_id,
                compression_metadata,
                budget_config,
                compression_config,
                agent_compression,
                capsule_state: None,
                plan_anchor,
                egress_labels,
            }),
    {
        GovernorContext {
            history,
            tools,
            breakdown,
            effective_limit,
            turn_number,
            session_id,
            compression_metadata,
            budget_config,
            compression_config,
            agent_compression,
            capsule_state: None,
            plan_anchor,
            egress_labels,
        }
    }
}

/// What came of one strategy.
#[derive(Debug, Clone, Copy, PartialEq, Eq, Structural)]
pub enum ReductionOutcome {
    /// The prompt is within the limit.
    Resolved { tokens_after: usize },
    /// It is still over.
    Insufficient { tokens_remaining: usize },
}

/// The outcome for a prompt of `tokens` tokens.
pub open spec fn outcome_for(tokens: usize, limit: usize) -> ReductionOutcome {
    if tokens > limit {
        ReductionOutcome::Insufficient { tokens_remaining: tokens }
    } else {
        ReductionOutcome::Resolved { tokens_after: tokens }
    }
}

/// The tokens that an outcome reports.
pub open spec fn outcome_tokens(o: ReductionOutcome) -> usize {
    match o {
        ReductionOutcome::Resolved { tokens_after } => tokens_after,
        ReductionOutcome::Insufficient { tokens_remaining } => tokens_remaining,
    }
}

/// One strategy that ran.
#[derive(Debug)]
pub struct GovernorAction {
    pub strategy: String,
    pub tokens_after: usize,
}

/// How an overflow was met.
#[derive(Debug, Clone, Copy, PartialEq, Eq, Structural)]
pub enum RecoveryAction {
    Compressed,
    Trimmed,
    Failed,
}

/// The budget at the time of an overflow.
#[derive(Debug, Clone, Copy)]
pub struct BudgetSnapshot {
    pub estimated_input: usize,
    pub margin: usize,
    pub window: Option<usize>,
    /// The warning threshold, as `f64` bits.
    pub threshold_pct_bits: u64,
}

/// Why an overflow could not be met.
#[derive(Debug)]
pub struct ContextOverflowDiagnostic {
    pub budget_snapshot: BudgetSnapshot,
    pub actions_attempted: Vec<GovernorAction>,
    pub recovery_action: RecoveryAction,
}

/// The error that an overflow ends a turn with.
#[derive(Debug)]
pub struct ContextOverflowError {
    pub diagnostic: ContextOverflowDiagnostic,
}

impl ContextOverflowError {
    /// The error in words.
    pub fn message(&self) -> (r: String)
        ensures
            r@ == "context overflow after "@ + text::decimal(
                self.diagnostic.actions_attempted@.len(),
            ) + " actions: "@ + text::decimal(
                self.diagnostic.budget_snapshot.estimated_input as nat,
            ) + " tokens vs limit "@ + text::decimal(
                (match self.diagnostic.budget_snapshot.window {
                    Some(w) => w,
                    None => 0,
                }) as nat,
            ),
    {
        let mut s = "context overflow after ".to_owned();
        s.append(
            text::decimal_string(self.diagnostic.actions_attempted.len() as u64).as_str(),
        );
        s.append(" actions: ");
        s.append(
            text::decimal_string(
                self.diagnostic.budget_snapshot.estimated_input as u64,
            ).as_str(),
        );
        s.append(" tokens vs limit ");
        let window: usize = match self.diagnostic.budget_snapshot.window {
            Some(w) => w,
            None => 0,
        };
        s.append(text::decimal_string(window as u64).as_str());
        s
    }
}

/// What came of the pipeline.
#[derive(Debug)]
pub enum GovernorResult {
    /// Nothing had to be done.
    WithinBudget,
    /// The last of these strategies brought the prompt within the limit.
    Recovered { actions_taken: Vec<GovernorAction> },
    /// No strategy did.
    Overflow(ContextOverflowDiagnostic),
}

// ---------------------------------------------------------------------------
// The pipeline
// ---------------------------------------------------------------------------

/// The soft budget in tokens.
pub open spec fn soft_limit(ctx: GovernorContext) -> Option<usize> {
    match ctx.budget_config.soft_budget_tokens {
        Some(sb) => Some(sb as usize),
        None => None,
    }
}

/// The prompt is over the hard limit or over the soft budget.
pub open spec fn needs_reduction(ctx: GovernorContext) -> bool {
    ctx.breakdown.total_tokens > ctx.effective_limit || (soft_limit(ctx) is Some
        && ctx.breakdown.total_tokens > soft_limit(ctx)->Some_0)
}

/// The limit that the strategies aim at: the tighter of the two.
pub open spec fn target_limit(ctx: GovernorContext) -> usize {
    match soft_limit(ctx) {
        Some(sb) => if sb < ctx.effective_limit {
            sb
        } else {
            ctx.effective_limit
        },
        None => ctx.effective_limit,
    }
}

/// The budget as a diagnostic shows it.
pub open spec fn snapshot_of(ctx: GovernorContext) -> BudgetSnapshot {
    BudgetSnapshot {
        estimated_input: ctx.breakdown.total_tokens,
        margin: ctx.budget_config.margin_tokens,
        window: ctx.breakdown.context_window,
        threshold_pct_bits: ctx.budget_config.warn_at_pct_bits,
    }
}

/// The budget as a diagnostic shows it.
pub fn budget_snapshot(ctx: &GovernorContext) -> (r: BudgetSnapshot)
    ensures
        r == snapshot_of(*ctx),
{
    BudgetSnapshot {
        estimated_input: ctx.breakdown.total_tokens,
        margin: ctx.budget_config.margin_tokens,
        window: ctx.breakdown.context_window,
        threshold_pct_bits: ctx.budget_config.warn_at_pct_bits,
    }
}

/// A run of the pipeline under way.
#[derive(Debug)]
pub struct GovernRun {
    pub original_limit: usize,
    pub actions_taken: Vec<GovernorAction>,
}

/// Begins a run, where one is needed: from here on the strategies aim at the
/// tighter of the hard limit and the soft budget.
pub fn begin_govern(ctx: &mut GovernorContext) -> (r: Option<GovernRun>)
    ensures
        match r {
            None => !needs_reduction(*old(ctx)) && *final(ctx) == *old(ctx),
            Some(run) => {
                &&& needs_reduction(*old(ctx))
                &&& run.original_limit == old(ctx).effective_limit
                &&& run.actions_taken@.len() == 0
                &&& *final(ctx) == begun(*old(ctx))
            },
        },
{
    let original: usize = ctx.effective_limit;
    let total: usize = ctx.breakdown.total_tokens;
    let hard_ok = total <= original;
    match ctx.budget_config.soft_budget_tokens {
        Some(sb) => {
            let soft: usize = sb as usize;
            if hard_ok && total <= soft {
                return None;
            }
            if soft < original {
                ctx.effective_limit = soft;
            }
        },
        None => {
            if hard_ok {
                return None;
            }
        },
    }
    Some(GovernRun { original_limit: original, actions_taken: Vec::new() })
}

/// How a run goes on after a strategy.
pub enum Advance {
    Done(GovernorResult),
    Continue(GovernRun),
}

/// The record of one strategy.
pub open spec fn action_of(strategy: Seq<char>, o: ReductionOutcome) -> (Seq<char>, usize) {
    (strategy, outcome_tokens(o))
}

/// The records of the strategies that ran.
pub open spec fn actions(v: Seq<GovernorAction>) -> Seq<(Seq<char>, usize)> {
    v.map_values(|a: GovernorAction| (a.strategy@, a.tokens_after))
}

/// Records a strategy's outcome. A strategy that resolved the overflow ends
/// the run, and the limit is what it was before.
pub fn advance(
    run: GovernRun,
    ctx: &mut GovernorContext,
    strategy: &str,
    outcome: ReductionOutcome,
) -> (r: Advance)
    ensures
        match (outcome, r) {
            (
                ReductionOutcome::Resolved { .. },
                Advance::Done(GovernorResult::Recovered { actions_taken }),
            ) => {
                &&& actions(actions_taken@) == actions(run.actions_taken@).push(
                    action_of(strategy@, outcome),
                )
                &&& *final(ctx) == (GovernorContext {
                    effective_limit: run.original_limit,
                    ..*old(ctx)
                })
            },
            (ReductionOutcome::Insufficient { .. }, Advance::Continue(next)) => {
                &&& actions(next.actions_taken@) == actions(run.actions_taken@).push(
                    action_of(strategy@, outcome),
                )
                &&& next.original_limit == run.original_limit
                &&& *final(ctx) == *old(ctx)
            },
            _ => false,
        },
{
    let ghost before = run.actions_taken@;
    let mut taken = run.actions_taken;
    let tokens: usize = match outcome {
        ReductionOutcome::Resolved { tokens_after } => tokens_after,
        ReductionOutcome::Insufficient { tokens_remaining } => tokens_remaining,
    };
    taken.push(GovernorAction { strategy: strategy.to_owned(), tokens_after: tokens });
    assert(actions(taken@) =~= actions(before).push(action_of(strategy@, outcome)));
    match outcome {
        ReductionOutcome::Resolved { .. } => {
            ctx.effective_limit = run.original_limit;
            Advance::Done(GovernorResult::Recovered { actions_taken: taken })
        },
        ReductionOutcome::Insufficient { .. } => Advance::Continue(
            GovernRun { original_limit: run.original_limit, actions_taken: taken },
        ),
    }
}

/// Ends a run in which every strategy was insufficient.
pub fn exhaust(run: GovernRun, ctx: &mut GovernorContext) -> (r: GovernorResult)
    ensures
        *final(ctx) == (GovernorContext { effective_limit: run.original_limit, ..*old(ctx) }),
        match r {
            GovernorResult::Overflow(d) => {
                &&& d.actions_attempted == run.actions_taken
                &&& d.recovery_action == RecoveryAction::Failed
                &&& d.budget_snapshot == snapshot_of(*final(ctx))
            },
            _ => false,
        },
{
    ctx.effective_limit = run.original_limit;
    GovernorResult::Overflow(
        ContextOverflowDiagnostic {
            budget_snapshot: budget_snapshot(ctx),
            actions_attempted: run.actions_taken,
            recovery_action: RecoveryAction::Failed,
        },
    )
}

/// A way to reduce a prompt, for users of the governor to implement. What an
/// implementation may do is its own to say; by default nothing is promised of it.
pub trait ReductionStrategy {
    /// The strategy may call itself `name`.
    open spec fn may_be_called(&self, name: Seq<char>) -> bool {
        true
    }

    /// The strategy may turn `before` into `after` and give `r`.
    open spec fn may_reduce(
        &self,
        before: GovernorContext,
        after: GovernorContext,
        r: Result<ReductionOutcome, String>,
    ) -> bool {
        true
    }

    fn name(&self) -> (n: &'static str)
        ensures
            self.may_be_called(n@),
    ;

    fn reduce(&self, ctx: &mut GovernorContext) -> (r: Result<ReductionOutcome, String>)
        ensures
            self.may_reduce(*old(ctx), *final(ctx), r),
    ;
}

/// What one strategy of a run came to: what it called itself, the context that it
/// left, and its outcome.
pub struct Attempt {
    pub strategy: Seq<char>,
    pub after: GovernorContext,
    pub outcome: ReductionOutcome,
}

/// The context after the first `n` attempts of a run that began at `start`.
pub open spec fn context_after(start: GovernorContext, attempts: Seq<Attempt>, n: int) -> GovernorContext {
    if n <= 0 {
        start
    } else {
        attempts[n - 1].after
    }
}

/// The first strategies ran, one after the other: each found the context that the one
/// before it left, and made one of the attempts.
pub open spec fn is_run<S: ReductionStrategy>(
    strategies: Seq<S>,
    start: GovernorContext,
    attempts: Seq<Attempt>,
) -> bool {
    &&& attempts.len() <= strategies.len()
    &&& forall|i: int|
        0 <= i < attempts.len() ==> strategies[i].may_reduce(
            context_after(start, attempts, i),
            (#[trigger] attempts[i]).after,
            Ok(attempts[i].outcome),
        ) && strategies[i].may_be_called(attempts[i].strategy)
}

/// The records of attempts.
pub open spec fn records(attempts: Seq<Attempt>) -> Seq<(Seq<char>, usize)> {
    attempts.map_values(|a: Attempt| action_of(a.strategy, a.outcome))
}

/// None of the attempts resolved the overflow.
pub open spec fn all_insufficient(attempts: Seq<Attempt>) -> bool {
    forall|i: int| 0 <= i < attempts.len() ==> (#[trigger] attempts[i]).outcome is Insufficient
}

/// What a run of these attempts comes to, with `count` strategies at hand. It recovered where the last strategy
/// resolved the overflow and none before it did. It overflowed where every strategy
/// ran and none did. Either way what is recorded is exactly what ran.
pub open spec fn is_outcome(count: nat, attempts: Seq<Attempt>, r: GovernorResult) -> bool {
    match r {
        GovernorResult::WithinBudget => false,
        GovernorResult::Recovered { actions_taken } => {
            &&& attempts.len() > 0
            &&& attempts.last().outcome is Resolved
            &&& all_insufficient(attempts.drop_last())
            &&& actions(actions_taken@) == records(attempts)
        },
        GovernorResult::Overflow(d) => {
            &&& attempts.len() == count
            &&& all_insufficient(attempts)
            &&& actions(d.actions_attempted@) == records(attempts)
        },
    }
}

/// The context as the strategies find it: the limit is the tighter of the two.
pub open spec fn begun(ctx: GovernorContext) -> GovernorContext {
    GovernorContext { effective_limit: target_limit(ctx), ..ctx }
}

/// The first attempt that resolves the overflow ends the run: a run recovers exactly
/// where one of its attempts did, that is its last attempt, and the records name the
/// attempts up to it. Where none does, every strategy ran.
pub proof fn the_first_success_ends_the_run(count: nat, attempts: Seq<Attempt>, r: GovernorResult)
    requires
        is_outcome(count, attempts, r),
    ensures
        r is Recovered <==> exists|i: int|
            0 <= i < attempts.len() && (#[trigger] attempts[i]).outcome is Resolved,
        r is Overflow <==> attempts.len() == count && all_insufficient(attempts),
        forall|i: int|
            0 <= i < attempts.len() && (#[trigger] attempts[i]).outcome is Resolved ==> i
                == attempts.len() - 1,
        recorded(r).len() == attempts.len(),
        forall|i: int|
            0 <= i < attempts.len() ==> #[trigger] recorded(r)[i] == action_of(
                attempts[i].strategy,
                attempts[i].outcome,
            ),
{
    if r is Recovered {
        assert(attempts[attempts.len() - 1].outcome is Resolved);
        assert forall|i: int| 0 <= i < attempts.len() - 1 implies (
        #[trigger] attempts[i]).outcome is Insufficient by {
            assert(attempts.drop_last()[i] == attempts[i]);
        }
    }
}

/// The strategies that a result says ran.
pub open spec fn recorded(r: GovernorResult) -> Seq<(Seq<char>, usize)> {
    match r {
        GovernorResult::WithinBudget => Seq::empty(),
        GovernorResult::Recovered { actions_taken } => actions(actions_taken@),
        GovernorResult::Overflow(d) => actions(d.actions_attempted@),
    }
}

/// A pipeline of strategies.
pub struct ContextGovernor<S: ReductionStrategy> {
    pub strategies: Vec<S>,
}

impl<S: ReductionStrategy> ContextGovernor<S> {
    pub fn with_strategies(strategies: Vec<S>) -> (r: ContextGovernor<S>)
        ensures
            r.strategies == strategies,
    {
        ContextGovernor { strategies }
    }

    /// Runs the strategies in order until one resolves the overflow.
    ///
    /// Whatever the strategies do, the limit is afterwards what it was before,
    /// unless a strategy failed. A strategy's failure is the pipeline's.
    pub fn govern(&self, ctx: &mut GovernorContext) -> (r: Result<GovernorResult, String>)
        ensures
            !needs_reduction(*old(ctx)) ==> *final(ctx) == *old(ctx) && r matches Ok(
                GovernorResult::WithinBudget,
            ),
            needs_reduction(*old(ctx)) ==> exists|attempts: Seq<Attempt>|
                {
                    let end = context_after(begun(*old(ctx)), attempts, attempts.len() as int);
                    &&& #[trigger] is_run(self.strategies@, begun(*old(ctx)), attempts)
                    &&& match r {
                        Ok(result) => is_outcome(self.strategies@.len(), attempts, result)
                            && *final(ctx) == (GovernorContext {
                            effective_limit: old(ctx).effective_limit,
                            ..end
                        }),
                        Err(e) => attempts.len() < self.strategies@.len() && all_insufficient(
                            attempts,
                        ) && self.strategies@[attempts.len() as int].may_reduce(
                            end,
                            *final(ctx),
                            Err(e),
                        ),
                    }
                },
            r is Ok ==> final(ctx).effective_limit == old(ctx).effective_limit,
            r matches Ok(GovernorResult::Overflow(d)) ==> d.recovery_action
                == RecoveryAction::Failed && d.budget_snapshot == snapshot_of(*final(ctx)),
    {
        let ghost limit = ctx.effective_limit;
        let mut run = match begin_govern(ctx) {
            Some(run) => run,
            None => {
                return Ok(GovernorResult::WithinBudget);
            },
        };
        let ghost start = *ctx;
        let ghost mut attempts: Seq<Attempt> = Seq::empty();
        let mut i: usize = 0;
        assert(actions(run.actions_taken@) =~= records(attempts));
        while i < self.strategies.len()
            invariant
                i <= self.strategies@.len(),
                run.original_limit == limit,
                limit == old(ctx).effective_limit,
                needs_reduction(*old(ctx)),
                start == begun(*old(ctx)),
                attempts.len() == i,
                is_run(self.strategies@, start, attempts),
                all_insufficient(attempts),
                *ctx == context_after(start, attempts, i as int),
                actions(run.actions_taken@) == records(attempts),
            decreases self.strategies@.len() - i,
        {
            let strategy = &self.strategies[i];
            let outcome = match strategy.reduce(ctx) {
                Ok(o) => o,
                Err(e) => {
                    return Err(e);
                },
            };
            let name = strategy.name();
            proof {
                let before = attempts;
                let a = Attempt { strategy: name@, after: *ctx, outcome };
                attempts = before.push(a);
                assert(attempts.drop_last() =~= before);
                assert(records(attempts) =~= records(before).push(action_of(name@, outcome)));
                assert forall|k: int| 0 <= k < attempts.len() implies #[trigger] context_after(
                    start,
                    attempts,
                    k,
                ) == context_after(start, before, k) by {}
                assert forall|k: int| 0 <= k < attempts.len() implies self.strategies@[k].may_reduce(
                    context_after(start, attempts, k),
                    (#[trigger] attempts[k]).after,
                    Ok(attempts[k].outcome),
                ) && self.strategies@[k].may_be_called(attempts[k].strategy) by {
                    if k < before.len() {
                        assert(attempts[k] == before[k]);
                    }
                }
                assert(is_run(self.strategies@, start, attempts));
                assert(context_after(start, attempts, attempts.len() as int) == *ctx);
            }
            match advance(run, ctx, name, outcome) {
                Advance::Done(result) => {
                    assert(is_outcome(self.strategies@.len(), attempts, result));
                    return Ok(result);
                },
                Advance::Continue(next) => {
                    run = next;
                },
            }
            i = i + 1;
        }
        let result = exhaust(run, ctx);
        assert(is_outcome(self.strategies@.len(), attempts, result));
        Ok(result)
    }
}

/// A stage of the standard pipelines.
#[derive(Debug, Clone, Copy, PartialEq, Eq, Structural)]
pub enum PipelineStage {
    TrimHistory,
    Capsule,
    ToolDemotion,
}

/// The standard pipeline: trim the history, evolve the capsule, demote tools.
pub fn default_pipeline() -> (r: Vec<PipelineStage>)
    ensures
        r@ == seq![PipelineStage::TrimHistory, PipelineStage::Capsule, PipelineStage::ToolDemotion],
{
    let mut v: Vec<PipelineStage> = Vec::new();
    v.push(PipelineStage::TrimHistory);
    v.push(PipelineStage::Capsule);
    v.push(PipelineStage::ToolDemotion);
    assert(v@ =~= seq![
        PipelineStage::TrimHistory,
        PipelineStage::Capsule,
        PipelineStage::ToolDemotion,
    ]);
    v
}

/// The pipeline of a second try: it calls no model.
pub fn aggressive_pipeline() -> (r: Vec<PipelineStage>)
    ensures
        r@ == seq![PipelineStage::TrimHistory, PipelineStage::ToolDemotion],
        !r@.contains(PipelineStage::Capsule),
{
    let mut v: Vec<PipelineStage> = Vec::new();
    v.push(PipelineStage::TrimHistory);
    v.push(PipelineStage::ToolDemotion);
    assert(v@ =~= seq![PipelineStage::TrimHistory, PipelineStage::ToolDemotion]);
    v
}

// ---------------------------------------------------------------------------
// Trimming and schemas
// ---------------------------------------------------------------------------

/// The sum of a list of token counts.
pub open spec fn sum(v: Seq<usize>) -> nat
    decreases v.len(),
{
    if v.len() == 0 {
        0
    } else {
        sum(v.drop_last()) + v.last() as nat
    }
}

/// The sum of the counts of the messages that are not system messages.
pub open spec fn conversation_sum(s: Seq<llm::MessageView>, counts: Seq<usize>) -> nat
    decreases s.len(),
{
    if s.len() == 0 {
        0
    } else {
        conversation_sum(s.drop_last(), counts) + (if s.last().role == Role::System {
            0
        } else {
            counts[s.len() - 1] as nat
        })
    }
}

proof fn lemma_sum_prefix(v: Seq<usize>, i: int)
    requires
        0 <= i <= v.len(),
    ensures
        sum(v.subrange(0, i)) <= sum(v),
    decreases v.len() - i,
{
    if i == v.len() {
        assert(v.subrange(0, i) =~= v);
    } else {
        lemma_sum_prefix(v, i + 1);
        assert(v.subrange(0, i + 1).drop_last() =~= v.subrange(0, i));
    }
}

proof fn lemma_conversation_prefix(s: Seq<llm::MessageView>, counts: Seq<usize>, i: int)
    requires
        0 <= i <= s.len(),
    ensures
        conversation_sum(s.subrange(0, i), counts) <= conversation_sum(s, counts),
    decreases s.len() - i,
{
    if i == s.len() {
        assert(s.subrange(0, i) =~= s);
    } else {
        lemma_conversation_prefix(s, counts, i + 1);
        assert(s.subrange(0, i + 1).drop_last() =~= s.subrange(0, i));
    }
}

/// The tokens of all tool definitions, from those of each.
pub fn tool_token_total(tool_tokens: &[usize]) -> (r: usize)
    requires
        sum(tool_tokens@) <= usize::MAX,
    ensures
        r == sum(tool_tokens@),
{
    let mut total: usize = 0;
    let mut i: usize = 0;
    while i < tool_tokens.len()
        invariant
            i <= tool_tokens@.len(),
            sum(tool_tokens@) <= usize::MAX,
            total == sum(tool_tokens@.subrange(0, i as int)),
        decreases tool_tokens@.len() - i,
    {
        proof {
            lemma_sum_prefix(tool_tokens@, i + 1);
            let t = tool_tokens@.subrange(0, i + 1);
            assert(t.drop_last() =~= tool_tokens@.subrange(0, i as int));
        }
        total = total + tool_tokens[i];
        i = i + 1;
    }
    assert(tool_tokens@.subrange(0, i as int) =~= tool_tokens@);
    total
}

/// The tokens of a prompt: of its system part, of the messages that are not
/// system messages, and of the tools. `message_tokens[i]` is the estimate for
/// `history[i]`, `tool_tokens[i]` that for the `i`-th tool.
pub fn recompute_total(
    system_tokens: usize,
    history: &[Message],
    message_tokens: &[usize],
    tool_tokens: &[usize],
) -> (r: usize)
    requires
        message_tokens@.len() == history@.len(),
        system_tokens + conversation_sum(llm::views(history@), message_tokens@) + sum(tool_tokens@)
            <= usize::MAX,
    ensures
        r == system_tokens + conversation_sum(llm::views(history@), message_tokens@) + sum(
            tool_tokens@,
        ),
{
    let ghost s = llm::views(history@);
    let mut conv: usize = 0;
    let mut i: usize = 0;
    while i < history.len()
        invariant
            i <= history@.len(),
            s == llm::views(history@),
            message_tokens@.len() == history@.len(),
            conversation_sum(s, message_tokens@) <= usize::MAX,
            conv == conversation_sum(s.subrange(0, i as int), message_tokens@),
        decreases history@.len() - i,
    {
        proof {
            lemma_conversation_prefix(s, message_tokens@, i + 1);
            let t = s.subrange(0, i + 1);
            assert(t.drop_last() =~= s.subrange(0, i as int));
            assert(t.last() == history@[i as int]@);
        }
        if history[i].role != Role::System {
            conv = conv + message_tokens[i];
        }
        i = i + 1;
    }
    assert(s.subrange(0, i as int) =~= s);
    system_tokens + conv + tool_token_total(tool_tokens)
}

/// Takes a trimmed history over, where it is within the limit. `new_total` is
/// the size of the prompt with it.
pub fn settle_trim(
    ctx: &mut GovernorContext,
    history: Vec<Message>,
    tools: Vec<ToolDefinition>,
    new_total: usize,
) -> (r: ReductionOutcome)
    ensures
        r == outcome_for(new_total, old(ctx).effective_limit),
        *final(ctx) == (if new_total > old(ctx).effective_limit {
            *old(ctx)
        } else {
            GovernorContext {
                history,
                tools,
                breakdown: PromptBudgetBreakdown {
                    total_tokens: new_total,
                    ..old(ctx).breakdown
                },
                ..*old(ctx)
            }
        }),
{
    if new_total > ctx.effective_limit {
        return ReductionOutcome::Insufficient { tokens_remaining: new_total };
    }
    ctx.tools = tools;
    ctx.history = history;
    ctx.breakdown.total_tokens = new_total;
    ReductionOutcome::Resolved { tokens_after: new_total }
}

/// The first is less than the second by this much, or not at all.
pub open spec fn less(a: nat, b: nat) -> nat {
    if a >= b {
        (a - b) as nat
    } else {
        0
    }
}

/// Takes compressed tool schemas over, from the second turn on. The prompt
/// shrinks by what the tools shrank by.
pub fn settle_schema_compression(
    ctx: &mut GovernorContext,
    compressed: Vec<ToolDefinition>,
    before_tool_tokens: usize,
    after_tool_tokens: usize,
) -> (r: ReductionOutcome)
    ensures
        ({
            let total = old(ctx).breakdown.total_tokens;
            let new_total = less(
                total as nat,
                less(before_tool_tokens as nat, after_tool_tokens as nat),
            ) as usize;
            if old(ctx).turn_number == 0 {
                r == (ReductionOutcome::Insufficient { tokens_remaining: total }) && *final(ctx)
                    == *old(ctx)
            } else {
                r == outcome_for(new_total, old(ctx).effective_limit) && *final(ctx) == (
                GovernorContext {
                    tools: compressed,
                    breakdown: PromptBudgetBreakdown {
                        total_tokens: new_total,
                        ..old(ctx).breakdown
                    },
                    ..*old(ctx)
                })
            }
        }),
{
    if ctx.turn_number == 0 {
        return ReductionOutcome::Insufficient { tokens_remaining: ctx.breakdown.total_tokens };
    }
    let saved: usize = before_tool_tokens.saturating_sub(after_tool_tokens);
    let new_total: usize = ctx.breakdown.total_tokens.saturating_sub(saved);
    ctx.tools = compressed;
    ctx.breakdown.total_tokens = new_total;
    if new_total > ctx.effective_limit {
        ReductionOutcome::Insufficient { tokens_remaining: new_total }
    } else {
        ReductionOutcome::Resolved { tokens_after: new_total }
    }
}

// ---------------------------------------------------------------------------
// Compression
// ---------------------------------------------------------------------------

/// The contents of the messages, by which a conversation's size is estimated.
pub open spec fn contents(s: Seq<llm::MessageView>) -> Seq<Seq<char>> {
    s.map_values(|m: llm::MessageView| m.content)
}

/// The text by which a conversation's size is estimated.
pub fn conversation_text(history: &[Message]) -> (r: String)
    ensures
        r@ == text::join(contents(llm::views(history@)), " "@),
{
    let mut parts: Vec<String> = Vec::new();
    let mut i: usize = 0;
    while i < history.len()
        invariant
            i <= history@.len(),
            parts@.len() == i,
            forall|k: int| 0 <= k < i ==> (#[trigger] parts@[k])@ == history@[k].content@,
        decreases history@.len() - i,
    {
        parts.push(history[i].content.clone());
        i = i + 1;
    }
    assert(parts.deep_view() =~= contents(llm::views(history@)));
    text::joined(&parts, " ")
}

/// The size of a prompt whose conversation part was replaced.
pub open spec fn resized(b: PromptBudgetBreakdown, tokens_after: usize) -> usize {
    let rest = less(b.total_tokens as nat, b.conversation_tokens as nat);
    if rest + tokens_after > usize::MAX {
        usize::MAX
    } else {
        (rest + tokens_after) as usize
    }
}

/// Accounts for a conversation that now has `tokens_after` tokens.
pub fn settle_conversation(ctx: &mut GovernorContext, tokens_after: usize) -> (r: ReductionOutcome)
    ensures
        ({
            let new_total = resized(old(ctx).breakdown, tokens_after);
            &&& r == outcome_for(new_total, old(ctx).effective_limit)
            &&& *final(ctx) == (GovernorContext {
                breakdown: PromptBudgetBreakdown {
                    conversation_tokens: tokens_after,
                    total_tokens: new_total,
                    ..old(ctx).breakdown
                },
                ..*old(ctx)
            })
        }),
{
    let rest: usize = ctx.breakdown.total_tokens.saturating_sub(ctx.breakdown.conversation_tokens);
    let new_total: usize = rest.saturating_add(tokens_after);
    ctx.breakdown.conversation_tokens = tokens_after;
    ctx.breakdown.total_tokens = new_total;
    if new_total > ctx.effective_limit {
        ReductionOutcome::Insufficient { tokens_remaining: new_total }
    } else {
        ReductionOutcome::Resolved { tokens_after: new_total }
    }
}

/// Whether the context is to be compressed at all.
pub open spec fn compression_on(ctx: GovernorContext) -> bool {
    match ctx.compression_config {
        Some(c) => c.enabled,
        None => false,
    }
}

/// Whether the context is to be compressed at all.
pub fn compression_enabled(ctx: &GovernorContext) -> (r: bool)
    ensures
        r == compression_on(*ctx),
{
    match &ctx.compression_config {
        Some(c) => c.enabled,
        None => false,
    }
}

/// Takes the outcome of a compression over: `None` where nothing was
/// compressed. The size of the new history is settled separately.
pub fn install_compression(
    ctx: &mut GovernorContext,
    result: CompressionResult,
    archive_handle: Option<String>,
) -> (r: Option<ReductionOutcome>)
    ensures
        if result.compressed {
            r is None && *final(ctx) == (GovernorContext {
                history: result.history,
                compression_metadata: Some(
                    CompressionMetadata {
                        compressed_context_handle: match archive_handle {
                            Some(h) => Some(h),
                            None => result.metadata.compressed_context_handle,
                        },
                        ..result.metadata
                    },
                ),
                ..*old(ctx)
            })
        } else {
            r == Some(
                ReductionOutcome::Insufficient {
                    tokens_remaining: old(ctx).breakdown.total_tokens,
                },
            ) && *final(ctx) == *old(ctx)
        },
{
    if !result.compressed {
        return Some(
            ReductionOutcome::Insufficient { tokens_remaining: ctx.breakdown.total_tokens },
        );
    }
    let mut metadata = result.metadata;
    if let Some(h) = archive_handle {
        metadata.compressed_context_handle = Some(h);
    }
    ctx.history = result.history;
    ctx.compression_metadata = Some(metadata);
    None
}

// ---------------------------------------------------------------------------
// The capsule
// ---------------------------------------------------------------------------

/// The capsule that is to be evolved, and how.
pub struct CapsulePlan {
    /// Number of leading messages that the capsule takes the place of.
    pub split: usize,
    /// The capsule to evolve.
    pub capsule: StateCapsule,
    /// The model that extracts the delta.
    pub llm_config: LlmConfig,
    pub max_capsule_decisions: usize,
    pub max_completed_tasks: usize,
}

/// An agent's cap on decisions.
pub open spec fn own_max_decisions(agent: Option<CompressionConfig>) -> Option<usize> {
    match agent {
        Some(a) => a.max_capsule_decisions,
        None => None,
    }
}

/// An agent's cap on completed tasks.
pub open spec fn own_max_completed(agent: Option<CompressionConfig>) -> Option<usize> {
    match agent {
        Some(a) => a.max_completed_tasks,
        None => None,
    }
}

/// A reference to what an option holds.
pub open spec fn by_ref(agent: &Option<CompressionConfig>) -> Option<&CompressionConfig> {
    match agent {
        Some(a) => Some(a),
        None => None,
    }
}

/// The class that a model counts as: remote unless it is known to be local.
pub open spec fn class_of(c: LlmConfig) -> EgressClass {
    match c.egress_class {
        Some(e) => e,
        None => EgressClass::Remote,
    }
}

/// Where the history is split for the capsule.
pub open spec fn capsule_split(ctx: GovernorContext) -> int {
    match ctx.compression_config {
        Some(cfg) => compression::split_point(
            llm::views(ctx.history@),
            compression::overridden(
                compression::own_recent(by_ref(&ctx.agent_compression)),
                cfg.recent_turns_to_keep,
            ) as nat,
        ),
        None => 0,
    }
}

/// The model that extracts the delta, where compression is on.
pub open spec fn capsule_llm(ctx: GovernorContext, presets: Map<Seq<char>, LlmPreset>) -> Option<
    LlmConfig,
> {
    match ctx.compression_config {
        Some(cfg) => if cfg.enabled {
            compression::resolved_llm(cfg, by_ref(&ctx.agent_compression), presets)
        } else {
            None
        },
        None => None,
    }
}

/// The turns that the capsule would take the place of may be shown to the model.
pub open spec fn capsule_may_read(ctx: GovernorContext, llm_config: LlmConfig) -> bool {
    egress_routing::leaked(
        llm::views(ctx.history@).subrange(0, capsule_split(ctx)),
        ctx.egress_labels@,
        class_of(llm_config).spec_sink(),
    ).len() == 0
}

/// The capsule to evolve: a prior one records what it descends from.
pub open spec fn capsule_seed(ctx: GovernorContext, now: Seq<char>) -> capsule::CapsuleView {
    let seed = capsule::seeded(
        match ctx.capsule_state {
            Some(c) => Some(c@),
            None => None,
        },
        ctx.session_id@,
        llm::views(ctx.history@),
        ctx.turn_number,
        now,
    );
    match ctx.capsule_state {
        Some(prior) => capsule::CapsuleView {
            previous_version_handle: prior@.source_history_handle,
            ..seed
        },
        None => seed,
    }
}

/// Decides whether the capsule is evolved, at the time `now`: only where
/// compression is on and has a model, where there is something to take the
/// place of, and where none of it is withheld from that model. Otherwise the
/// outcome is insufficient.
pub fn plan_capsule_at(ctx: &GovernorContext, presets: &TextMap<LlmPreset>, now: &str) -> (r: Result<
    CapsulePlan,
    ReductionOutcome,
>)
    ensures
        ({
            let llm_config = capsule_llm(*ctx, presets@);
            let evolves = llm_config is Some && capsule_split(*ctx) > 0 && capsule_may_read(
                *ctx,
                llm_config->Some_0,
            );
            match r {
                Err(o) => !evolves && o == (ReductionOutcome::Insufficient {
                    tokens_remaining: ctx.breakdown.total_tokens,
                }),
                Ok(p) => {
                    &&& evolves
                    &&& p.split == capsule_split(*ctx)
                    &&& p.split <= ctx.history@.len()
                    &&& llm_config == Some(p.llm_config)
                    &&& p.capsule@ == capsule_seed(*ctx, now@)
                    &&& p.max_capsule_decisions == compression::overridden(
                        own_max_decisions(ctx.agent_compression),
                        ctx.compression_config->Some_0.max_capsule_decisions,
                    )
                    &&& p.max_completed_tasks == compression::overridden(
                        own_max_completed(ctx.agent_compression),
                        ctx.compression_config->Some_0.max_completed_tasks,
                    )
                },
            }
        }),
{
    let insufficient = ReductionOutcome::Insufficient {
        tokens_remaining: ctx.breakdown.total_tokens,
    };
    let cfg = match &ctx.compression_config {
        Some(c) => c,
        None => {
            return Err(insufficient);
        },
    };
    if !cfg.enabled {
        return Err(insufficient);
    }
    let agent = ctx.agent_compression.as_ref();
    assert(agent == by_ref(&ctx.agent_compression));
    let llm_config = match compression::resolve_compression_llm_config(cfg, agent, presets) {
        Some(c) => c,
        None => {
            return Err(insufficient);
        },
    };
    let (_threshold, recent, _max) = compression::effective_config(cfg, agent);
    let split = compression::split_index(ctx.history.as_slice(), recent);
    if split == 0 {
        return Err(insufficient);
    }
    let (compressible, _kept) = ctx.history.as_slice().split_at(split);
    assert(llm::views(compressible@) =~= llm::views(ctx.history@).subrange(0, split as int));
    let class = match llm_config.egress_class {
        Some(e) => e,
        None => EgressClass::Remote,
    };
    match egress_routing::compression_preset_eligible(compressible, &ctx.egress_labels, class) {
        CompressionEligibility::Eligible => {},
        CompressionEligibility::Ineligible { .. } => {
            return Err(insufficient);
        },
    }
    let (mut seed, _reused) = capsule::seed_capsule_at(
        ctx.capsule_state.as_ref(),
        ctx.session_id.as_str(),
        ctx.history.as_slice(),
        ctx.turn_number,
        now,
    );
    if let Some(prior) = &ctx.capsule_state {
        seed.previous_version_handle = text::clone_opt(&prior.source_history_handle);
    }
    let max_capsule_decisions: usize = match agent {
        Some(a) => match a.max_capsule_decisions {
            Some(n) => n,
            None => cfg.max_capsule_decisions,
        },
        None => cfg.max_capsule_decisions,
    };
    let max_completed_tasks: usize = match agent {
        Some(a) => match a.max_completed_tasks {
            Some(n) => n,
            None => cfg.max_completed_tasks,
        },
        None => cfg.max_completed_tasks,
    };
    Ok(CapsulePlan { split, capsule: seed, llm_config, max_capsule_decisions, max_completed_tasks })
}

/// Bit pattern of the `f64` value 0.
pub const ZERO_TEMPERATURE_BITS: u64 = 0;

/// The request that asks for a delta. `capsule_json` is the capsule as JSON.
pub fn delta_request(
    plan: &CapsulePlan,
    history: &[Message],
    capsule_json: &str,
    plan_anchor: Option<&PlanFrameSummary>,
) -> (r: CompletionRequest)
    requires
        plan.split <= history@.len(),
    ensures
        r.model == plan.llm_config.model,
        llm::views(r.messages@) == seq![
            llm::plain_message(
                Role::System,
                "You are a state capsule extractor. Output ONLY valid JSON matching the schema."@,
            ),
            llm::plain_message(
                Role::User,
                capsule::delta_prompt(
                    llm::views(history@).subrange(0, plan.split as int),
                    capsule_json@,
                    plan_anchor,
                ),
            ),
        ],
        r.max_tokens == Some(2048u32),
        r.temperature_bits == Some(ZERO_TEMPERATURE_BITS),
        r.metadata is None,
        r.prompt_cache_key.deep_view() == Some("agw-capsule-"@ + plan.capsule.session_id@),
{
    let (compressible, _kept) = history.split_at(plan.split);
    let prompt = capsule::build_delta_extraction_prompt(compressible, capsule_json, plan_anchor);
    let mut messages: Vec<Message> = Vec::new();
    messages.push(
        Message::system(
            "You are a state capsule extractor. Output ONLY valid JSON matching the schema.",
        ),
    );
    messages.push(Message::user(prompt.as_str()));
    proof {
        assert(llm::views(compressible@) =~= llm::views(history@).subrange(0, plan.split as int));
        assert(llm::views(messages@) =~= seq![messages@[0]@, messages@[1]@]);
    }
    let mut key = "agw-capsule-".to_owned();
    key.append(plan.capsule.session_id.as_str());
    CompletionRequest {
        model: plan.llm_config.model.clone(),
        messages,
        max_tokens: Some(2048),
        temperature_bits: Some(ZERO_TEMPERATURE_BITS),
        metadata: None,
        prompt_cache_key: Some(key),
    }
}

/// The capsule after a delta, with its decisions and completed tasks capped.
pub open spec fn capsule_after(
    plan: CapsulePlan,
    delta: CapsuleDelta,
    turn: u64,
    now: Seq<char>,
) -> capsule::CapsuleView {
    capsule::completed_capped(
        capsule::decisions_capped(
            capsule::evolved(plan.capsule@, delta, turn, now),
            plan.max_capsule_decisions as nat,
        ),
        plan.max_completed_tasks as nat,
    )
}

/// Evolves the capsule by the delta that the model extracted, at the time
/// `now`. A delta that refers to an approval without preserving it is refused.
pub fn evolve_capsule_at(plan: &CapsulePlan, delta: &CapsuleDelta, turn_number: u64, now: &str) -> (r:
    Result<StateCapsule, CapsuleError>)
    requires
        plan.capsule.version < u64::MAX,
    ensures
        match r {
            Ok(c) => capsule::unpreserved(
                capsule::decisions(delta.new_decisions@),
                capsule::identifiers(delta.new_identifiers@),
            ) is None && c@ == capsule_after(*plan, *delta, turn_number, now@),
            Err(CapsuleError::UnpreservedApproval { id }) => capsule::unpreserved(
                capsule::decisions(delta.new_decisions@),
                capsule::identifiers(delta.new_identifiers@),
            ) == Some(id@),
        },
{
    match capsule::validate_delta_approvals(delta, turn_number) {
        Ok(_) => {},
        Err(e) => {
            return Err(e);
        },
    }
    let mut c = plan.capsule.clone();
    capsule::apply_delta_at(&mut c, delta, turn_number, now);
    capsule::cap_decisions(&mut c, plan.max_capsule_decisions);
    capsule::cap_completed_tasks(&mut c, plan.max_completed_tasks);
    Ok(c)
}

/// [`plan_capsule_at`] at the present time, with that time.
pub fn plan_capsule(ctx: &GovernorContext, presets: &TextMap<LlmPreset>) -> (r: Result<
    CapsulePlan,
    ReductionOutcome,
>)
    ensures
        ({
            let llm_config = capsule_llm(*ctx, presets@);
            let evolves = llm_config is Some && capsule_split(*ctx) > 0 && capsule_may_read(
                *ctx,
                llm_config->Some_0,
            );
            &&& r is Ok <==> evolves
            &&& r matches Err(o) ==> o == (ReductionOutcome::Insufficient {
                tokens_remaining: ctx.breakdown.total_tokens,
            })
            &&& r matches Ok(p) ==> p.split == capsule_split(*ctx) && p.split
                <= ctx.history@.len() && llm_config == Some(p.llm_config)
                && p.max_capsule_decisions == compression::overridden(
                own_max_decisions(ctx.agent_compression),
                ctx.compression_config->Some_0.max_capsule_decisions,
            ) && p.max_completed_tasks == compression::overridden(
                own_max_completed(ctx.agent_compression),
                ctx.compression_config->Some_0.max_completed_tasks,
            ) && exists|now: Seq<char>|
                clock::is_utc_text(now) && p.capsule@ == #[trigger] capsule_seed(*ctx, now)
        }),
{
    let now = clock::now_rfc3339();
    plan_capsule_at(ctx, presets, now.as_str())
}

/// [`evolve_capsule_at`] at the present time.
pub fn evolve_capsule(plan: &CapsulePlan, delta: &CapsuleDelta, turn_number: u64) -> (r: Result<
    StateCapsule,
    CapsuleError,
>)
    requires
        plan.capsule.version < u64::MAX,
    ensures
        r is Ok <==> capsule::unpreserved(
            capsule::decisions(delta.new_decisions@),
            capsule::identifiers(delta.new_identifiers@),
        ) is None,
        r matches Ok(c) ==> exists|now: Seq<char>|
            clock::is_utc_text(now) && c@ == #[trigger] capsule_after(*plan, *delta, turn_number, now),
        r matches Err(CapsuleError::UnpreservedApproval { id }) ==> capsule::unpreserved(
            capsule::decisions(delta.new_decisions@),
            capsule::identifiers(delta.new_identifiers@),
        ) == Some(id@),
{
    let now = clock::now_rfc3339();
    evolve_capsule_at(plan, delta, turn_number, now.as_str())
}

/// The known metadata, or that of a context that was never compressed.
pub open spec fn metadata_of(ctx: GovernorContext) -> CompressionMetadata {
    match ctx.compression_metadata {
        Some(m) => m,
        None => compression::fresh_metadata(),
    }
}

/// Puts the evolved capsule in the place of the turns that it stands for.
///
/// The metadata records the compression whether or not the history could be
/// archived; `archive_handle` is `None` where it could not. The size of the new
/// history is settled separately.
pub fn install_capsule(
    ctx: &mut GovernorContext,
    capsule: StateCapsule,
    split: usize,
    archive_handle: Option<String>,
)
    requires
        split <= old(ctx).history@.len(),
        metadata_of(*old(ctx)).compression_count < u64::MAX,
    ensures
        final(ctx).capsule_state == Some(capsule),
        final(ctx).compression_metadata == Some(
            CompressionMetadata {
                last_compression_turn: old(ctx).turn_number,
                messages_summarized: split as u64,
                compressed_context_handle: archive_handle,
                compression_count: (metadata_of(*old(ctx)).compression_count + 1) as u64,
            },
        ),
        llm::views(final(ctx).history@) == seq![
            llm::plain_message(Role::System, capsule::injection(capsule@)),
        ] + llm::views(old(ctx).history@).subrange(split as int, old(ctx).history@.len() as int),
        *final(ctx) == (GovernorContext {
            history: final(ctx).history,
            capsule_state: final(ctx).capsule_state,
            compression_metadata: final(ctx).compression_metadata,
            ..*old(ctx)
        }),
{
    let ghost s = llm::views(ctx.history@);
    let count: u64 = match &ctx.compression_metadata {
        Some(m) => m.compression_count,
        None => 0,
    };
    let injection = capsule::compile_capsule_injection(&capsule);
    let mut history: Vec<Message> = Vec::new();
    history.push(Message::system(injection.as_str()));
    assert(llm::views(history@) =~= seq![history@[0]@]);
    llm::append_range(&mut history, ctx.history.as_slice(), split, ctx.history.len());
    assert(s.subrange(split as int, s.len() as int) =~= llm::views(
        ctx.history@.subrange(split as int, ctx.history@.len() as int),
    ));
    ctx.compression_metadata = Some(
        CompressionMetadata {
            last_compression_turn: ctx.turn_number,
            messages_summarized: split as u64,
            compressed_context_handle: archive_handle,
            compression_count: count + 1,
        },
    );
    ctx.capsule_state = Some(capsule);
    ctx.history = history;
}

/// Each version of a capsule records the one that it descends from: where a
/// prior capsule was archived, its handle is the new one's predecessor.
pub proof fn capsule_versions_form_a_chain(
    ctx: GovernorContext,
    plan: CapsulePlan,
    delta: CapsuleDelta,
    seeded_at: Seq<char>,
    evolved_at: Seq<char>,
)
    requires
        ctx.capsule_state is Some,
        plan.capsule@ == capsule_seed(ctx, seeded_at),
        plan.capsule@.version < u64::MAX,
    ensures
        ({
            let next = capsule_after(plan, delta, ctx.turn_number, evolved_at);
            &&& next.previous_version_handle == ctx.capsule_state->Some_0@.source_history_handle
            &&& next.version == ctx.capsule_state->Some_0@.version + 1
            &&& next.session_id == ctx.capsule_state->Some_0@.session_id
        }),
{
}

/// A capsule is evolved only by a model that may see the turns it stands for:
/// no message among them is withheld from that model.
pub proof fn capsules_never_leak(ctx: GovernorContext, llm_config: LlmConfig, i: int)
    requires
        capsule_may_read(ctx, llm_config),
        0 <= i < capsule_split(ctx),
        capsule_split(ctx) <= ctx.history@.len(),
    ensures
        egress_routing::label_of(ctx.history@[i]@, ctx.egress_labels@).permits(
            class_of(llm_config).spec_sink(),
        ),
{
    let band = llm::views(ctx.history@).subrange(0, capsule_split(ctx));
    egress_routing::a_band_is_refused_exactly_for_a_leak(
        band,
        ctx.egress_labels@,
        class_of(llm_config).spec_sink(),
    );
    assert(band[i] == ctx.history@[i]@);
}

/// A prompt is to be reduced exactly where it is over the limit or over the soft budget,
/// and the strategies then aim at the tighter of the two.
pub proof fn reductions_aim_at_the_tighter_limit(ctx: GovernorContext)
    ensures
        ctx.budget_config.soft_budget_tokens is None ==> {
            &&& needs_reduction(ctx) <==> ctx.breakdown.total_tokens > ctx.effective_limit
            &&& target_limit(ctx) == ctx.effective_limit
        },
        ctx.budget_config.soft_budget_tokens matches Some(sb) ==> sb <= usize::MAX ==> {
            &&& needs_reduction(ctx) <==> ctx.breakdown.total_tokens > ctx.effective_limit
                || ctx.breakdown.total_tokens > sb
            &&& target_limit(ctx) <= ctx.effective_limit && target_limit(ctx) <= sb
            &&& target_limit(ctx) == ctx.effective_limit || target_limit(ctx) == sb
        },
        begun(ctx).effective_limit == target_limit(ctx),
        begun(ctx).history == ctx.history,
        begun(ctx).tools == ctx.tools,
{
}

/// A prompt is resolved exactly where it is within the limit, and its outcome tells its
/// size.
pub proof fn outcomes_tell_the_size(tokens: usize, limit: usize)
    ensures
        outcome_for(tokens, limit) is Resolved <==> tokens <= limit,
        outcome_tokens(outcome_for(tokens, limit)) == tokens,
{
}

/// What diagnostics show of a budget is what it is.
pub proof fn snapshots_show_the_budget(ctx: GovernorContext)
    ensures
        snapshot_of(ctx).estimated_input == ctx.breakdown.total_tokens,
        snapshot_of(ctx).margin == ctx.budget_config.margin_tokens,
        snapshot_of(ctx).window == ctx.breakdown.context_window,
        snapshot_of(ctx).threshold_pct_bits == ctx.budget_config.warn_at_pct_bits,
{
}

/// The size of a conversation counts every message but system messages.
pub proof fn conversations_count_all_but_system_messages(
    s: Seq<llm::MessageView>,
    counts: Seq<usize>,
    m: llm::MessageView,
    n: usize,
)
    requires
        s.len() == counts.len(),
    ensures
        m.role == Role::System ==> conversation_sum(s.push(m), counts.push(n)) == conversation_sum(
            s,
            counts,
        ),
        m.role != Role::System ==> conversation_sum(s.push(m), counts.push(n)) == conversation_sum(
            s,
            counts,
        ) + n,
        sum(counts.push(n)) == sum(counts) + n,
{
    assert(s.push(m).drop_last() =~= s);
    assert(counts.push(n).drop_last() =~= counts);
    lemma_same_counts(s, counts, counts.push(n));
}

proof fn lemma_same_counts(s: Seq<llm::MessageView>, a: Seq<usize>, b: Seq<usize>)
    requires
        s.len() <= a.len(),
        s.len() <= b.len(),
        forall|i: int| 0 <= i < s.len() ==> #[trigger] a[i] == b[i],
    ensures
        conversation_sum(s, a) == conversation_sum(s, b),
    decreases s.len(),
{
    if s.len() > 0 {
        lemma_same_counts(s.drop_last(), a, b);
        assert(a[s.len() - 1] == b[s.len() - 1]);
    }
}

/// A prompt whose conversation was replaced has the size of the rest and of the new
/// conversation.
pub proof fn replaced_conversations_change_the_size(b: PromptBudgetBreakdown, after: usize)
    requires
        b.conversation_tokens <= b.total_tokens,
        b.total_tokens - b.conversation_tokens + after <= usize::MAX,
    ensures
        resized(b, after) == b.total_tokens - b.conversation_tokens + after,
{
}

/// A model that is not classified counts as remote.
pub proof fn unclassified_models_count_as_remote(c: LlmConfig)
    ensures
        c.egress_class is None ==> class_of(c) == EgressClass::Remote,
        c.egress_class matches Some(e) ==> class_of(c) == e,
{
}

/// Compression is on exactly where it is configured and enabled, and its model is the one
/// that the configuration resolves to.
pub proof fn compression_is_on_where_enabled(
    ctx: GovernorContext,
    presets: Map<Seq<char>, LlmPreset>,
)
    ensures
        compression_on(ctx) <==> ctx.compression_config is Some
            && ctx.compression_config->Some_0.enabled,
        !compression_on(ctx) ==> capsule_llm(ctx, presets) is None,
{
}

/// A capsule keeps no more decisions and completed tasks than the plan allows, and every
/// task that the delta leaves open.
pub proof fn evolved_capsules_are_capped(
    plan: CapsulePlan,
    delta: CapsuleDelta,
    turn: u64,
    now: Seq<char>,
)
    ensures
        ({
            let c = capsule_after(plan, delta, turn, now);
            let e = capsule::evolved(plan.capsule@, delta, turn, now);
            &&& c.decisions_and_rationale.len() <= plan.max_capsule_decisions
            &&& c.open_tasks.filter(|t: capsule::TaskView| t.status == "completed"@).len()
                <= plan.max_completed_tasks
            &&& c.open_tasks.filter(|t: capsule::TaskView| t.status != "completed"@)
                == e.open_tasks.filter(|t: capsule::TaskView| t.status != "completed"@)
            &&& c.stable_identifiers == e.stable_identifiers
            &&& c.objective_and_criteria == e.objective_and_criteria
        }),
{
    let e = capsule::evolved(plan.capsule@, delta, turn, now);
    let d = capsule::decisions_capped(e, plan.max_capsule_decisions as nat);
    capsule::capping_bounds_the_decisions(e, plan.max_capsule_decisions as nat);
    capsule::capping_keeps_the_latest_completed_tasks(d, plan.max_completed_tasks as nat);
}

/// An agent's own caps on a capsule count, where it sets them.
pub proof fn agents_set_their_own_caps(a: CompressionConfig)
    ensures
        own_max_decisions(Some(a)) == a.max_capsule_decisions,
        own_max_completed(Some(a)) == a.max_completed_tasks,
        own_max_decisions(None) is None,
        own_max_completed(None) is None,
{
}

} // verus!
