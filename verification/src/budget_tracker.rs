//! Budget checks before and after a model call, and the context window.

use crate::json;
use crate::json::{Fields, Json, JsonView};
use crate::llm::ToolCall;
use crate::text;
use vstd::prelude::*;

verus! {

// ---------------------------------------------------------------------------
// Empty replies
// ---------------------------------------------------------------------------

/// Why a model stopped.
#[derive(Debug)]
pub enum StopReason {
    EndTurn,
    ToolUse,
    MaxTokens,
    StopSequence,
    Other(String),
}

/// The tokens of one completion.
#[derive(Debug, Clone, Copy)]
pub struct TokenUsage {
    pub input_tokens: u64,
    pub output_tokens: u64,
    pub reasoning_tokens: u64,
    pub cached_tokens: u64,
}

impl Default for TokenUsage {
    fn default() -> (r: TokenUsage)
        ensures
            r.input_tokens == 0,
            r.output_tokens == 0,
            r.reasoning_tokens == 0,
            r.cached_tokens == 0,
    {
        TokenUsage { input_tokens: 0, output_tokens: 0, reasoning_tokens: 0, cached_tokens: 0 }
    }
}

/// A model's reply.
#[derive(Debug)]
pub struct CompletionResponse {
    pub text: String,
    pub tool_calls: Vec<ToolCall>,
    pub reasoning_content: Option<String>,
    pub reasoning_details: Option<String>,
    pub stop_reason: StopReason,
    pub usage: TokenUsage,
}

/// A reply makes no progress: it has neither text nor tool calls, and its stop
/// reason shows that the provider failed rather than that the model chose to
/// stop.
pub open spec fn is_empty_failure(r: CompletionResponse) -> bool {
    r.tool_calls@.len() == 0 && text::trim(r.text@).len() == 0 && match r.stop_reason {
        StopReason::Other(s) => text::trim(s@).len() == 0,
        StopReason::EndTurn => r.usage.output_tokens == 0,
        StopReason::ToolUse => true,
        StopReason::MaxTokens => false,
        StopReason::StopSequence => false,
    }
}

/// Whether a reply is a failure of the provider that is worth another try.
pub fn is_retryable_empty_other_response(response: &CompletionResponse) -> (r: bool)
    ensures
        r == is_empty_failure(*response),
{
    if response.tool_calls.len() != 0 || !text::is_blank(response.text.as_str()) {
        return false;
    }
    match &response.stop_reason {
        StopReason::Other(s) => text::is_blank(s.as_str()),
        StopReason::EndTurn => response.usage.output_tokens == 0,
        StopReason::ToolUse => true,
        StopReason::MaxTokens => false,
        StopReason::StopSequence => false,
    }
}

/// A reply that carries text or tool calls is never retried.
pub proof fn progress_is_never_retried(r: CompletionResponse)
    requires
        r.tool_calls@.len() > 0 || text::trim(r.text@).len() > 0,
    ensures
        !is_empty_failure(r),
{
}

/// How often an empty reply is retried, unless it is configured.
pub const LLM_OTHER_EMPTY_RETRY_DEFAULT: usize = 1;

/// The number that a setting holds, where it holds one that fits.
pub open spec fn setting_value(value: Option<Seq<char>>, max: nat) -> Option<nat> {
    match value {
        Some(v) => match text::parse_u64(text::trim(v)) {
            Some(n) => if n <= max {
                Some(n as nat)
            } else {
                None
            },
            None => None,
        },
        None => None,
    }
}

/// How often an empty reply is retried, by the setting of that name.
pub fn max_other_empty_retries(setting: Option<&str>) -> (r: usize)
    ensures
        r == (match setting_value(
            match setting {
                Some(s) => Some(s@),
                None => None,
            },
            usize::MAX as nat,
        ) {
            Some(n) => n,
            None => LLM_OTHER_EMPTY_RETRY_DEFAULT as nat,
        }),
{
    match setting {
        Some(s) => match text::parsed_u64(text::trimmed(s).as_str()) {
            Some(n) => if n <= usize::MAX as u64 {
                n as usize
            } else {
                LLM_OTHER_EMPTY_RETRY_DEFAULT
            },
            None => LLM_OTHER_EMPTY_RETRY_DEFAULT,
        },
        None => LLM_OTHER_EMPTY_RETRY_DEFAULT,
    }
}

/// The context window that the environment declares, by the setting of that name.
pub fn llm_context_window_tokens(setting: Option<&str>) -> (r: Option<u32>)
    ensures
        match r {
            Some(n) => setting_value(
                match setting {
                    Some(s) => Some(s@),
                    None => None,
                },
                u32::MAX as nat,
            ) == Some(n as nat),
            None => setting_value(
                match setting {
                    Some(s) => Some(s@),
                    None => None,
                },
                u32::MAX as nat,
            ) is None,
        },
{
    match setting {
        Some(s) => match text::parsed_u64(text::trimmed(s).as_str()) {
            Some(n) => if n <= u32::MAX as u64 {
                Some(n as u32)
            } else {
                None
            },
            None => None,
        },
        None => None,
    }
}

/// The limit that a context window leaves beside its margin; without a window
/// there is none.
pub open spec fn limit_of(context_window: Option<usize>, margin_tokens: usize) -> usize {
    match context_window {
        Some(w) => if w >= margin_tokens {
            (w - margin_tokens) as usize
        } else {
            0
        },
        None => usize::MAX,
    }
}

/// The limit that a context window leaves beside its margin.
pub fn window_limit(context_window: Option<usize>, margin_tokens: usize) -> (r: usize)
    ensures
        r == limit_of(context_window, margin_tokens),
{
    match context_window {
        Some(w) => w.saturating_sub(margin_tokens),
        None => usize::MAX,
    }
}

// ---------------------------------------------------------------------------
// Prices
// ---------------------------------------------------------------------------

/// What is needed before a session with a price cap may start.
#[derive(Debug)]
pub enum PricePreflight {
    /// Nothing stands in the way.
    Pass,
    /// The start is refused.
    Refuse(String),
    /// The price catalog is to be asked about the model.
    AskCatalog,
}

/// What is said where no catalog is there.
pub open spec fn no_catalog_message(mode: Seq<char>) -> Seq<char> {
    "Session start refused: cost-budget enforcement requires price metadata but catalog is unavailable (P-6.5, I-11: fail-mode="@
        + mode + "). Add capability 'budget.no_price_available.allow' to override intentionally."@
}

/// What is said where the catalog has no price for the model.
pub open spec fn no_price_message(model: Seq<char>, mode: Seq<char>) -> Seq<char> {
    "Session start refused: cost-budget enforcement requires price metadata for model '"@ + model
        + "' but catalog is unavailable (P-6.5, I-11: fail-mode="@ + mode
        + "). Add capability 'budget.no_price_available.allow' to override intentionally."@
}

/// The failure mode that applies: the declared one, else to refuse the start.
pub open spec fn fail_mode(mode: Option<&str>) -> Seq<char> {
    match mode {
        Some(m) => m@,
        None => "refuse-session-start"@,
    }
}

fn fail_mode_exec(mode: Option<&str>) -> (r: &str)
    ensures
        r@ == fail_mode(mode),
{
    match mode {
        Some(m) => m,
        None => "refuse-session-start",
    }
}

/// Whether a session may start: without a price cap, or where unpriced models
/// are allowed, it may. With a cap it needs a catalog, which is then asked.
pub fn enforce_cost_catalog_preflight(
    allow_unpriced_budget: bool,
    session_price_cap: bool,
    root_price_cap: bool,
    has_catalog: bool,
    mode: Option<&str>,
) -> (r: PricePreflight)
    ensures
        match r {
            PricePreflight::Pass => allow_unpriced_budget || (!session_price_cap
                && !root_price_cap),
            PricePreflight::Refuse(m) => !allow_unpriced_budget && (session_price_cap
                || root_price_cap) && !has_catalog && m@ == no_catalog_message(fail_mode(mode)),
            PricePreflight::AskCatalog => !allow_unpriced_budget && (session_price_cap
                || root_price_cap) && has_catalog,
        },
{
    if allow_unpriced_budget {
        return PricePreflight::Pass;
    }
    if !session_price_cap && !root_price_cap {
        return PricePreflight::Pass;
    }
    if has_catalog {
        return PricePreflight::AskCatalog;
    }
    let mut m =
        "Session start refused: cost-budget enforcement requires price metadata but catalog is unavailable (P-6.5, I-11: fail-mode=".to_owned();
    m.append(fail_mode_exec(mode));
    m.append("). Add capability 'budget.no_price_available.allow' to override intentionally.");
    PricePreflight::Refuse(m)
}

/// Whether a session may start once the catalog answered.
pub fn finish_cost_catalog_preflight(model_id: &str, priced: bool, mode: Option<&str>) -> (r: Result<
    (),
    String,
>)
    ensures
        match r {
            Ok(_) => priced,
            Err(m) => !priced && m@ == no_price_message(model_id@, fail_mode(mode)),
        },
{
    if priced {
        return Ok(());
    }
    let mut m =
        "Session start refused: cost-budget enforcement requires price metadata for model '".to_owned();
    m.append(model_id);
    m.append("' but catalog is unavailable (P-6.5, I-11: fail-mode=");
    m.append(fail_mode_exec(mode));
    m.append("). Add capability 'budget.no_price_available.allow' to override intentionally.");
    Err(m)
}

// ---------------------------------------------------------------------------
// The context window of a model
// ---------------------------------------------------------------------------

/// The window of a model that is commonly known, by its name in lower case.
/// `family` is what the vendor of the sonnet, opus and haiku lines calls its models.
pub open spec fn known_window(model: Seq<char>, family: Seq<char>) -> Option<u32> {
    if text::begins_with(model, "gpt-4o"@) || text::begins_with(model, "gpt-4-turbo"@) {
        Some(128_000)
    } else if text::begins_with(model, "gpt-4-"@) && text::has_text(model, "1106"@) {
        Some(128_000)
    } else if text::begins_with(model, "gpt-4"@) && !text::has_text(model, "turbo"@) {
        Some(8_192)
    } else if text::begins_with(model, "gpt-3.5-turbo"@) {
        Some(16_385)
    } else if text::begins_with(model, "o1"@) || text::begins_with(model, "o3"@)
        || text::begins_with(model, "o4"@) {
        Some(200_000)
    } else if text::has_text(model, family) && (text::has_text(model, "sonnet"@)
        || text::has_text(model, "opus"@) || text::has_text(model, "haiku"@)) {
        Some(200_000)
    } else if text::begins_with(model, "gemini"@) {
        if text::has_text(model, "2.0"@) || text::has_text(model, "2.5"@) || text::has_text(
            model,
            "1.5"@,
        ) {
            Some(1_048_576)
        } else {
            Some(128_000)
        }
    } else {
        None
    }
}

/// The window of a model that is commonly known. `model` is its name in lower case;
/// `family` is what the vendor of the sonnet, opus and haiku lines calls its models.
pub fn static_context_window_of(model: &str, family: &str) -> (r: Option<u32>)
    ensures
        r == known_window(model@, family@),
{
    if text::starts_with(model, "gpt-4o") || text::starts_with(model, "gpt-4-turbo") {
        return Some(128_000);
    }
    if text::starts_with(model, "gpt-4-") && text::contains(model, "1106") {
        return Some(128_000);
    }
    if text::starts_with(model, "gpt-4") && !text::contains(model, "turbo") {
        return Some(8_192);
    }
    if text::starts_with(model, "gpt-3.5-turbo") {
        return Some(16_385);
    }
    if text::starts_with(model, "o1") || text::starts_with(model, "o3") || text::starts_with(
        model,
        "o4",
    ) {
        return Some(200_000);
    }
    if text::contains(model, family) && (text::contains(model, "sonnet") || text::contains(
        model,
        "opus",
    ) || text::contains(model, "haiku")) {
        return Some(200_000);
    }
    if text::starts_with(model, "gemini") {
        if text::contains(model, "2.0") || text::contains(model, "2.5") || text::contains(
            model,
            "1.5",
        ) {
            return Some(1_048_576);
        }
        return Some(128_000);
    }
    None
}

/// The window of a model that is commonly known. `family` is what the vendor of the
/// sonnet, opus and haiku lines calls its models, in lower case.
pub fn static_context_window(model: &str, family: &str) -> (r: Option<u32>)
    ensures
        r == known_window(text::lower_text(model@), family@),
        text::is_ascii(model@) ==> r == known_window(text::lower_ascii(model@), family@),
{
    static_context_window_of(text::lowered(model).as_str(), family)
}

/// The window that the manifest declares, else the one that the environment does.
pub fn resolve_context_window_tokens(manifest: Option<u32>, environment: Option<u32>) -> (r: Option<
    u32,
>)
    ensures
        r == (if manifest is Some {
            manifest
        } else {
            environment
        }),
{
    if manifest.is_some() {
        manifest
    } else {
        environment
    }
}

/// What is known of a run's context window.
#[derive(Debug)]
pub struct WindowSources {
    pub manifest: Option<u32>,
    pub environment: Option<u32>,
    /// The window of the gateway's preset for the agent.
    pub gateway_preset: Option<u32>,
    /// The base URL of the model server, where the manifest has one.
    pub base_url: Option<String>,
    /// The window that a local server at that URL reported for the model.
    pub local: Option<u32>,
    /// The provider, where the manifest has one.
    pub provider: Option<String>,
    pub has_catalog: bool,
    /// What the vendor of the sonnet, opus and haiku lines calls its models.
    pub family: String,
}

/// How a run's context window is found.
#[derive(Debug, Clone, Copy, PartialEq, Eq, Structural)]
pub enum WindowLookup {
    Known(u32),
    Unknown,
    /// The provider's catalog is to be asked.
    AskCatalog,
}

/// The base URL is there and not empty.
pub open spec fn has_base_url(s: WindowSources) -> bool {
    s.base_url is Some && s.base_url->Some_0@.len() > 0
}

/// The provider is OpenRouter.
pub open spec fn is_openrouter(s: WindowSources) -> bool {
    s.provider is Some && text::lower_ascii(s.provider->Some_0@) == "openrouter"@
}

/// How the window is found: each source in turn, the manifest first. `known`
/// is the window that is commonly known of the model.
pub open spec fn window_lookup(s: WindowSources, known: Option<u32>) -> WindowLookup {
    if s.manifest is Some {
        WindowLookup::Known(s.manifest->Some_0)
    } else if s.environment is Some {
        WindowLookup::Known(s.environment->Some_0)
    } else if s.gateway_preset is Some {
        WindowLookup::Known(s.gateway_preset->Some_0)
    } else if known is Some {
        WindowLookup::Known(known->Some_0)
    } else if has_base_url(s) && s.local is Some {
        WindowLookup::Known(s.local->Some_0)
    } else if is_openrouter(s) && s.has_catalog {
        WindowLookup::AskCatalog
    } else {
        WindowLookup::Unknown
    }
}

/// How the window is found, where `known` is what is commonly known of the model.
pub fn lookup_context_window(sources: &WindowSources, known: Option<u32>) -> (r: WindowLookup)
    ensures
        r == window_lookup(*sources, known),
{
    if let Some(w) = resolve_context_window_tokens(sources.manifest, sources.environment) {
        return WindowLookup::Known(w);
    }
    if let Some(w) = sources.gateway_preset {
        return WindowLookup::Known(w);
    }
    if let Some(w) = known {
        return WindowLookup::Known(w);
    }
    if let Some(u) = &sources.base_url {
        if text::chars_of(u.as_str()).len() > 0 {
            if let Some(w) = sources.local {
                return WindowLookup::Known(w);
            }
        }
    }
    let openrouter = match &sources.provider {
        Some(p) => text::text_eq(text::ascii_lowered(p.as_str()).as_str(), "openrouter"),
        None => false,
    };
    if openrouter && sources.has_catalog {
        WindowLookup::AskCatalog
    } else {
        WindowLookup::Unknown
    }
}

/// How the window of a run with `model` is found.
pub fn resolve_context_window_for_run(sources: &WindowSources, model: &str) -> (r: WindowLookup)
    ensures
        r == window_lookup(*sources, known_window(text::lower_text(model@), sources.family@)),
        text::is_ascii(model@) ==> r == window_lookup(
            *sources,
            known_window(text::lower_ascii(model@), sources.family@),
        ),
{
    lookup_context_window(sources, static_context_window(model, sources.family.as_str()))
}

/// The manifest's window wins over every other source.
pub proof fn the_manifest_decides_the_window(s: WindowSources, known: Option<u32>)
    requires
        s.manifest is Some,
    ensures
        window_lookup(s, known) == WindowLookup::Known(s.manifest->Some_0),
{
}

/// What is recorded of a context that is nearly full.
pub open spec fn pressure_payload(
    utilization: Seq<char>,
    threshold: Seq<char>,
    total_tokens: u64,
    margin_tokens: u64,
    context_window: Option<u64>,
    limit: u64,
) -> JsonView {
    JsonView::Object(
        json::no_fields().push(json::entry("utilization_pct"@, JsonView::Number(utilization))).push(
            json::entry("total_tokens"@, json::count(total_tokens as nat)),
        ).push(json::entry("effective_limit"@, json::count(limit as nat))).push(
            json::entry("margin_tokens"@, json::count(margin_tokens as nat)),
        ).push(
            json::entry(
                "context_window"@,
                match context_window {
                    Some(w) => json::count(w as nat),
                    None => JsonView::Null,
                },
            ),
        ).push(json::entry("warning_threshold_pct"@, JsonView::Number(threshold))),
    )
}

/// What is recorded of a context that is nearly full, where it is: `warranted`
/// says that its utilization is at or above the threshold. Percentages are given
/// as JSON numbers.
pub fn context_pressure_event(
    warranted: bool,
    utilization: &str,
    threshold: &str,
    total_tokens: u64,
    margin_tokens: usize,
    context_window: Option<usize>,
) -> (r: Option<Json>)
    ensures
        match r {
            Some(j) => warranted && j@ == pressure_payload(
                utilization@,
                threshold@,
                total_tokens,
                margin_tokens as u64,
                match context_window {
                    Some(w) => Some(w as u64),
                    None => None,
                },
                limit_of(context_window, margin_tokens) as u64,
            ),
            None => !warranted,
        },
{
    if !warranted {
        return None;
    }
    let mut f = Fields::new();
    f.put("utilization_pct", Json::Number(utilization.to_owned()));
    f.number("total_tokens", total_tokens);
    f.number("effective_limit", window_limit(context_window, margin_tokens) as u64);
    f.number("margin_tokens", margin_tokens as u64);
    match context_window {
        Some(w) => f.number("context_window", w as u64),
        None => f.put("context_window", Json::Null),
    }
    f.put("warning_threshold_pct", Json::Number(threshold.to_owned()));
    Some(f.object())
}

/// A reply without text and tool calls is a failure where its stop reason is unknown and
/// blank, where it claims a tool call, or where it ended with no token; it is none where it
/// was cut off or stopped at a sequence.
pub proof fn empty_replies_fail_by_their_reason(r: CompletionResponse)
    requires
        r.tool_calls@.len() == 0,
        text::all_white(r.text@),
    ensures
        r.stop_reason matches StopReason::Other(s) ==> (is_empty_failure(r) <==> text::all_white(s@)),
        r.stop_reason is EndTurn ==> (is_empty_failure(r) <==> r.usage.output_tokens == 0),
        r.stop_reason is ToolUse ==> is_empty_failure(r),
        r.stop_reason is MaxTokens ==> !is_empty_failure(r),
        r.stop_reason is StopSequence ==> !is_empty_failure(r),
{
    text::lemma_trim_blank(r.text@);
    if let StopReason::Other(s) = r.stop_reason {
        text::lemma_trim_blank(s@);
    }
}

/// A window leaves what it holds beside its margin, and nothing where the margin is larger.
pub proof fn windows_leave_their_margin(w: usize, margin: usize)
    ensures
        margin <= w ==> limit_of(Some(w), margin) == w - margin,
        margin > w ==> limit_of(Some(w), margin) == 0,
        limit_of(None, margin) == usize::MAX,
{
}

/// The window of a run comes from the first source that has it: the manifest, the
/// environment, the gateway's preset, what is commonly known of the model, a local server
/// behind a base URL, and the catalog of OpenRouter.
pub proof fn windows_come_from_the_first_source(s: WindowSources, known: Option<u32>)
    ensures
        s.manifest matches Some(w) ==> window_lookup(s, known) == WindowLookup::Known(w),
        s.manifest is None ==> {
            &&& s.environment matches Some(w) ==> window_lookup(s, known) == WindowLookup::Known(w)
            &&& s.environment is None ==> {
                &&& s.gateway_preset matches Some(w) ==> window_lookup(s, known)
                    == WindowLookup::Known(w)
                &&& s.gateway_preset is None ==> {
                    &&& known matches Some(w) ==> window_lookup(s, known) == WindowLookup::Known(w)
                    &&& known is None ==> {
                        let url = s.base_url is Some && s.base_url->Some_0@.len() > 0;
                        let router = s.provider is Some && text::lower_ascii(s.provider->Some_0@)
                            == "openrouter"@;
                        &&& url && s.local is Some ==> window_lookup(s, known)
                            == WindowLookup::Known(s.local->Some_0)
                        &&& !(url && s.local is Some) && router && s.has_catalog ==> window_lookup(
                            s,
                            known,
                        ) == WindowLookup::AskCatalog
                        &&& !(url && s.local is Some) && !(router && s.has_catalog) ==> window_lookup(
                            s,
                            known,
                        ) == WindowLookup::Unknown
                    }
                }
            }
        },
{
}

/// The windows that are commonly known.
pub proof fn common_windows_are_known(model: Seq<char>, family: Seq<char>)
    ensures
        text::begins_with(model, "gpt-4o"@) || text::begins_with(model, "gpt-4-turbo"@)
            ==> known_window(model, family) == Some(128_000u32),
        text::begins_with(model, "gpt-4"@) && !text::begins_with(model, "gpt-4o"@)
            && !text::has_text(model, "1106"@) && !text::has_text(model, "turbo"@) ==> known_window(
            model,
            family,
        ) == Some(8_192u32),
        text::begins_with(model, "gpt-3.5-turbo"@) ==> known_window(model, family) == Some(
            16_385u32,
        ),
        text::begins_with(model, "o1"@) || text::begins_with(model, "o3"@) || text::begins_with(
            model,
            "o4"@,
        ) ==> known_window(model, family) == Some(200_000u32),
        text::has_text(model, family) && (text::has_text(model, "sonnet"@) || text::has_text(
            model,
            "opus"@,
        ) || text::has_text(model, "haiku"@)) && !text::begins_with(model, "gpt-"@)
            ==> known_window(model, family) == Some(200_000u32),
        text::begins_with(model, "gemini"@) && !text::has_text(model, family) ==> known_window(
            model,
            family,
        ) == (if text::has_text(model, "2.0"@) || text::has_text(model, "2.5"@) || text::has_text(
            model,
            "1.5"@,
        ) {
            Some(1_048_576u32)
        } else {
            Some(128_000u32)
        }),
{
    reveal_strlit("gpt-");
    reveal_strlit("gpt-4");
    reveal_strlit("gpt-4-");
    reveal_strlit("gpt-4o");
    reveal_strlit("gpt-4-turbo");
    reveal_strlit("gpt-3.5-turbo");
    reveal_strlit("o1");
    reveal_strlit("o3");
    reveal_strlit("o4");
    reveal_strlit("gemini");
    reveal_strlit("turbo");
    lemma_begins(model, "gpt-4"@);
    lemma_begins(model, "gpt-4-"@);
    lemma_begins(model, "gpt-4o"@);
    lemma_begins(model, "gpt-4-turbo"@);
    lemma_begins(model, "gpt-3.5-turbo"@);
    lemma_begins(model, "o1"@);
    lemma_begins(model, "o3"@);
    lemma_begins(model, "o4"@);
    lemma_begins(model, "gemini"@);
    assert("gpt-4"@[0] == 'g' && "gpt-4"@[1] == 'p' && "gpt-4"@[4] == '4');
    assert("gpt-4-"@[0] == 'g' && "gpt-4-"@[1] == 'p' && "gpt-4-"@[4] == '4');
    assert("gpt-4o"@[0] == 'g' && "gpt-4o"@[1] == 'p' && "gpt-4o"@[4] == '4');
    assert("gpt-4-turbo"@[0] == 'g' && "gpt-4-turbo"@[1] == 'p' && "gpt-4-turbo"@[4] == '4');
    assert("gpt-3.5-turbo"@[0] == 'g' && "gpt-3.5-turbo"@[1] == 'p' && "gpt-3.5-turbo"@[4] == '3');
    assert("o1"@[0] == 'o' && "o3"@[0] == 'o' && "o4"@[0] == 'o');
    assert("gemini"@[0] == 'g' && "gemini"@[1] == 'e');
    if text::begins_with(model, "gpt-4-turbo"@) {
        assert("gpt-4-turbo"@.subrange(6, 11) =~= "turbo"@);
        assert(model.subrange(6, 11) =~= model.subrange(0, 11).subrange(6, 11));
        assert(text::occurs_at(model, "turbo"@, 6));
    }
    if text::begins_with(model, "gpt-4"@) || text::begins_with(model, "gpt-4o"@)
        || text::begins_with(model, "gpt-4-turbo"@) || text::begins_with(model, "gpt-4-"@)
        || text::begins_with(model, "gpt-3.5-turbo"@) {
        assert(model.subrange(0, 4) =~= "gpt-"@);
    }
}

proof fn lemma_begins(s: Seq<char>, p: Seq<char>)
    ensures
        text::begins_with(s, p) ==> forall|i: int| 0 <= i < p.len() ==> s[i] == #[trigger] p[i],
{
    if text::begins_with(s, p) {
        assert forall|i: int| 0 <= i < p.len() implies s[i] == #[trigger] p[i] by {
            assert(s.subrange(0, p.len() as int)[i] == s[i]);
        }
    }
}

/// A setting counts where it is a number, white space around it aside, that is not above the
/// most allowed; anything else counts as no setting.
pub proof fn settings_are_numbers_within_bounds(n: u64, max: nat, other: Seq<char>)
    ensures
        n <= max ==> setting_value(Some(text::decimal(n as nat)), max) == Some(n as nat),
        n > max ==> setting_value(Some(text::decimal(n as nat)), max) is None,
        text::parse_u64(text::trim(other)) is None ==> setting_value(Some(other), max) is None,
        setting_value(None, max) is None,
{
    let d = text::decimal(n as nat);
    let none = Seq::<char>::empty();
    text::lemma_decimal_value(n as nat);
    text::written_numbers_are_read(n);
    assert(text::is_digit(d[0]) && text::is_digit(d.last()));
    text::lemma_trim_padded(none, d, none);
    assert(none + d + none =~= d);
}

/// The record of budget pressure tells the use, the limit, the margin, the window and the
/// threshold.
pub proof fn pressure_is_told_whole(
    utilization: Seq<char>,
    threshold: Seq<char>,
    total_tokens: u64,
    margin_tokens: u64,
    context_window: Option<u64>,
    limit: u64,
)
    ensures
        ({
            let m = pressure_payload(
                utilization,
                threshold,
                total_tokens,
                margin_tokens,
                context_window,
                limit,
            )->Object_0;
            &&& m.contains(json::entry("utilization_pct"@, JsonView::Number(utilization)))
            &&& m.contains(
                json::entry("total_tokens"@, JsonView::Number(text::decimal(total_tokens as nat))),
            )
            &&& m.contains(
                json::entry("effective_limit"@, JsonView::Number(text::decimal(limit as nat))),
            )
            &&& m.contains(
                json::entry("margin_tokens"@, JsonView::Number(text::decimal(margin_tokens as nat))),
            )
            &&& context_window matches Some(w) ==> m.contains(
                json::entry("context_window"@, JsonView::Number(text::decimal(w as nat))),
            )
            &&& m.contains(json::entry("warning_threshold_pct"@, JsonView::Number(threshold)))
        }),
{
    let m = pressure_payload(
        utilization,
        threshold,
        total_tokens,
        margin_tokens,
        context_window,
        limit,
    )->Object_0;
    assert(m[0] == json::entry("utilization_pct"@, JsonView::Number(utilization)));
    assert(m[1] == json::entry(
        "total_tokens"@,
        JsonView::Number(text::decimal(total_tokens as nat)),
    ));
    assert(m[2] == json::entry("effective_limit"@, JsonView::Number(text::decimal(limit as nat))));
    assert(m[3] == json::entry(
        "margin_tokens"@,
        JsonView::Number(text::decimal(margin_tokens as nat)),
    ));
    if let Some(w) = context_window {
        assert(m[4] == json::entry(
            "context_window"@,
            JsonView::Number(text::decimal(w as nat)),
        ));
    }
    assert(m[5] == json::entry("warning_threshold_pct"@, JsonView::Number(threshold)));
}

/// A session that is refused for want of prices is told the model and how the gateway fails;
/// where nothing is set, it refuses to start.
pub proof fn refused_starts_are_explained(model: Seq<char>, mode: Option<&str>)
    ensures
        text::has_text(no_price_message(model, fail_mode(mode)), model),
        mode matches Some(m) ==> fail_mode(mode) == m@,
        mode is None ==> fail_mode(mode) == "refuse-session-start"@,
        text::has_text(no_catalog_message(fail_mode(mode)), fail_mode(mode)),
        text::has_text(no_price_message(model, fail_mode(mode)), fail_mode(mode)),
{
    let a = "Session start refused: cost-budget enforcement requires price metadata for model '"@;
    let b = "' but catalog is unavailable (P-6.5, I-11: fail-mode="@;
    let c = "). Add capability 'budget.no_price_available.allow' to override intentionally."@;
    let d =
        "Session start refused: cost-budget enforcement requires price metadata but catalog is unavailable (P-6.5, I-11: fail-mode="@;
    let f = fail_mode(mode);
    let rest = b + f + c;
    text::lemma_has_text_around(a, model, rest);
    assert(a + model + rest =~= no_price_message(model, f));
    text::lemma_has_text_around(a + model + b, f, c);
    text::lemma_has_text_around(d, f, c);
}

} // verus!
