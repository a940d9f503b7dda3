//! Context compression.
//!
//! When a conversation approaches the context limit, its old turns are
//! replaced by one summary while the recent turns are kept in full. The
//! decisions stand here: where to split the history, what to ask the
//! summarizing model, and what history results from its answer.

use crate::config;
use crate::config::{CompressionConfig, ContextCompressionConfig, LlmConfig, LlmPreset};
use crate::content_store;
use crate::content_store::{ContentStore, ContentVisibility};
use crate::json;
use crate::json::{Fields, Json};
use crate::llm;
use crate::llm::{Message, Role};
use crate::text;
use crate::textmap::TextMap;
use vstd::prelude::*;

verus! {

// ---------------------------------------------------------------------------
// Splitting
// ---------------------------------------------------------------------------

/// Number of messages that are not system messages.
pub open spec fn non_system_count(s: Seq<llm::MessageView>) -> nat
    decreases s.len(),
{
    if s.len() == 0 {
        0
    } else {
        non_system_count(s.drop_last()) + (if s.last().role == Role::System {
            0nat
        } else {
            1nat
        })
    }
}

/// Length of the shortest prefix of `s` that holds `n` messages that are not
/// system messages.
pub open spec fn prefix_with(s: Seq<llm::MessageView>, n: nat) -> int
    decreases s.len(),
{
    if s.len() == 0 || non_system_count(s.drop_last()) < n {
        s.len() as int
    } else {
        prefix_with(s.drop_last(), n)
    }
}

/// Splitting at `k` would part a tool result from the assistant message that
/// called the tool.
pub open spec fn separates(s: Seq<llm::MessageView>, k: int) -> bool {
    exists|i: int, j: int| #[trigger] parted(s, k, i, j)
}

/// Message `i` stands before `k`, message `j` does not, and `j` is the result
/// of a call that the assistant made in `i`.
pub open spec fn parted(s: Seq<llm::MessageView>, k: int, i: int, j: int) -> bool {
    &&& 0 <= i < k <= j < s.len()
    &&& s[i].role == Role::Assistant
    &&& s[j].role == Role::Tool
    &&& s[j].tool_call_id is Some
    &&& llm::calls_tool(s[i], s[j].tool_call_id->0)
}

/// The longest prefix of at most `k` messages that keeps every tool call
/// together with its results.
pub open spec fn whole_groups(s: Seq<llm::MessageView>, k: int) -> int
    decreases k,
{
    if k <= 0 || !separates(s, k) {
        k
    } else {
        whole_groups(s, k - 1)
    }
}

/// Where a history splits into the part to summarize and the part to keep:
/// the last `2 * recent` messages that are not system messages are kept, and
/// with them every tool call whose result is kept.
pub open spec fn split_point(s: Seq<llm::MessageView>, recent: nat) -> int {
    if non_system_count(s) <= 2 * recent {
        0
    } else {
        whole_groups(s, prefix_with(s, (non_system_count(s) - 2 * recent) as nat))
    }
}

proof fn lemma_prefix_with(s: Seq<llm::MessageView>, n: nat)
    requires
        n <= non_system_count(s),
    ensures
        0 <= prefix_with(s, n) <= s.len(),
        non_system_count(s.subrange(0, prefix_with(s, n))) == n,
        forall|m: int|
            0 <= m < prefix_with(s, n) ==> non_system_count(#[trigger] s.subrange(0, m)) < n,
    decreases s.len(),
{
    if s.len() == 0 || non_system_count(s.drop_last()) < n {
        assert(s.subrange(0, s.len() as int) =~= s);
        assert forall|m: int| 0 <= m < s.len() implies non_system_count(#[trigger] s.subrange(0, m)) < n by {
            lemma_count_prefix(s.drop_last(), m);
            assert(s.drop_last().subrange(0, m) =~= s.subrange(0, m));
        }
    } else {
        let d = s.drop_last();
        lemma_prefix_with(d, n);
        assert(d.subrange(0, prefix_with(d, n)) =~= s.subrange(0, prefix_with(d, n)));
        assert forall|m: int| 0 <= m < prefix_with(s, n) implies non_system_count(
            #[trigger] s.subrange(0, m),
        ) < n by {
            assert(d.subrange(0, m) =~= s.subrange(0, m));
        }
    }
}

proof fn lemma_count_prefix(s: Seq<llm::MessageView>, m: int)
    requires
        0 <= m <= s.len(),
    ensures
        non_system_count(s.subrange(0, m)) <= non_system_count(s) <= s.len(),
    decreases s.len(),
{
    if m == s.len() {
        assert(s.subrange(0, m) =~= s);
        if s.len() > 0 {
            lemma_count_prefix(s.drop_last(), 0);
        }
    } else {
        lemma_count_prefix(s.drop_last(), m);
        assert(s.drop_last().subrange(0, m) =~= s.subrange(0, m));
    }
}

proof fn lemma_count_concat(a: Seq<llm::MessageView>, b: Seq<llm::MessageView>)
    ensures
        non_system_count(a + b) == non_system_count(a) + non_system_count(b),
    decreases b.len(),
{
    if b.len() == 0 {
        assert(a + b =~= a);
    } else {
        lemma_count_concat(a, b.drop_last());
        assert((a + b).drop_last() =~= a + b.drop_last());
        assert((a + b).last() == b.last());
    }
}

proof fn lemma_whole_groups(s: Seq<llm::MessageView>, k: int)
    requires
        0 <= k,
    ensures
        0 <= whole_groups(s, k) <= k,
        !separates(s, whole_groups(s, k)),
        forall|m: int| whole_groups(s, k) < m <= k ==> #[trigger] separates(s, m),
    decreases k,
{
    if k == 0 {
        assert(!separates(s, 0));
    } else if separates(s, k) {
        lemma_whole_groups(s, k - 1);
    }
}

/// The split never parts a tool result from the assistant message that called
/// the tool.
pub proof fn split_never_parts_a_tool_group(s: Seq<llm::MessageView>, recent: nat)
    ensures
        0 <= split_point(s, recent) <= s.len(),
        !separates(s, split_point(s, recent)),
{
    if non_system_count(s) > 2 * recent {
        let n = (non_system_count(s) - 2 * recent) as nat;
        lemma_prefix_with(s, n);
        lemma_whole_groups(s, prefix_with(s, n));
    } else {
        assert(!separates(s, 0));
    }
}

/// The kept part holds the last `2 * recent` messages that are not system
/// messages, or all of them where there are fewer.
pub proof fn split_keeps_the_recent_turns(s: Seq<llm::MessageView>, recent: nat)
    ensures
        ({
            let k = split_point(s, recent);
            let kept = non_system_count(s.subrange(k, s.len() as int));
            kept >= 2 * recent || kept == non_system_count(s)
        }),
{
    split_never_parts_a_tool_group(s, recent);
    let k = split_point(s, recent);
    assert(s =~= s.subrange(0, k) + s.subrange(k, s.len() as int));
    lemma_count_concat(s.subrange(0, k), s.subrange(k, s.len() as int));
    if non_system_count(s) > 2 * recent {
        let n = (non_system_count(s) - 2 * recent) as nat;
        lemma_prefix_with(s, n);
        let p = prefix_with(s, n);
        lemma_whole_groups(s, p);
        if k < p {
            assert(non_system_count(s.subrange(0, k)) < n);
        }
    } else {
        assert(s.subrange(0, 0) =~= Seq::<llm::MessageView>::empty());
    }
}

/// The split is the latest that keeps both promises: between it and the first
/// recent turn, every other split parts a tool group.
pub proof fn split_is_the_latest_allowed(s: Seq<llm::MessageView>, recent: nat, m: int)
    requires
        non_system_count(s) > 2 * recent,
        split_point(s, recent) < m <= prefix_with(s, (non_system_count(s) - 2 * recent) as nat),
    ensures
        separates(s, m),
{
    let n = (non_system_count(s) - 2 * recent) as nat;
    lemma_prefix_with(s, n);
    lemma_whole_groups(s, prefix_with(s, n));
}

/// The last assistant message before `search_up_to` that calls `tool_call_id`.
pub open spec fn last_caller(
    s: Seq<llm::MessageView>,
    tool_call_id: Seq<char>,
    search_up_to: int,
) -> Option<int>
    decreases search_up_to,
{
    if search_up_to <= 0 {
        None
    } else if s[search_up_to - 1].role == Role::Assistant && llm::calls_tool(
        s[search_up_to - 1],
        tool_call_id,
    ) {
        Some(search_up_to - 1)
    } else {
        last_caller(s, tool_call_id, search_up_to - 1)
    }
}

proof fn lemma_last_caller(s: Seq<llm::MessageView>, id: Seq<char>, up_to: int)
    requires
        0 <= up_to <= s.len(),
    ensures
        match last_caller(s, id, up_to) {
            Some(i) => 0 <= i < up_to && s[i].role == Role::Assistant && llm::calls_tool(s[i], id),
            None => forall|i: int|
                0 <= i < up_to && (#[trigger] s[i]).role == Role::Assistant ==> !llm::calls_tool(
                    s[i],
                    id,
                ),
        },
    decreases up_to,
{
    if up_to > 0 && !(s[up_to - 1].role == Role::Assistant && llm::calls_tool(s[up_to - 1], id)) {
        lemma_last_caller(s, id, up_to - 1);
    }
}

/// The last assistant message before `search_up_to` that calls `tool_call_id`.
pub fn find_tool_call_parent(
    messages: &[Message],
    tool_call_id: &str,
    search_up_to: usize,
) -> (r: Option<usize>)
    requires
        search_up_to <= messages@.len(),
    ensures
        match r {
            Some(i) => last_caller(llm::views(messages@), tool_call_id@, search_up_to as int) == Some(
                i as int,
            ),
            None => last_caller(llm::views(messages@), tool_call_id@, search_up_to as int) is None,
        },
{
    let mut i: usize = search_up_to;
    while i > 0
        invariant
            i <= search_up_to <= messages@.len(),
            last_caller(llm::views(messages@), tool_call_id@, search_up_to as int) == last_caller(
                llm::views(messages@),
                tool_call_id@,
                i as int,
            ),
        decreases i,
    {
        i = i - 1;
        assert(llm::views(messages@)[i as int] == messages@[i as int]@);
        if messages[i].role == Role::Assistant && messages[i].calls(tool_call_id) {
            return Some(i);
        }
    }
    None
}

/// Whether splitting at `k` parts a tool group.
fn separates_exec(messages: &[Message], k: usize) -> (r: bool)
    requires
        k <= messages@.len(),
    ensures
        r == separates(llm::views(messages@), k as int),
{
    let ghost s = llm::views(messages@);
    let mut j: usize = k;
    while j < messages.len()
        invariant
            s == llm::views(messages@),
            k <= j <= messages@.len(),
            forall|i: int, l: int| l < j ==> !#[trigger] parted(s, k as int, i, l),
        decreases messages@.len() - j,
    {
        assert(s[j as int] == messages@[j as int]@);
        if messages[j].role == Role::Tool {
            match &messages[j].tool_call_id {
                Some(id) => {
                    proof {
                        lemma_last_caller(s, id@, k as int);
                    }
                    match find_tool_call_parent(messages, id.as_str(), k) {
                        Some(p) => {
                            assert(parted(s, k as int, p as int, j as int));
                            return true;
                        },
                        None => {},
                    }
                },
                None => {},
            }
        }
        j = j + 1;
    }
    false
}

fn count_non_system(messages: &[Message]) -> (n: usize)
    ensures
        n == non_system_count(llm::views(messages@)),
        n <= messages@.len(),
{
    let ghost s = llm::views(messages@);
    let mut n: usize = 0;
    let mut i: usize = 0;
    while i < messages.len()
        invariant
            s == llm::views(messages@),
            n <= i <= messages@.len(),
            n == non_system_count(s.subrange(0, i as int)),
        decreases messages@.len() - i,
    {
        proof {
            let t = s.subrange(0, i + 1);
            assert(t.drop_last() =~= s.subrange(0, i as int));
            assert(t.last() == messages@[i as int]@);
        }
        if messages[i].role != Role::System {
            n = n + 1;
        }
        i = i + 1;
    }
    assert(s.subrange(0, i as int) =~= s);
    n
}

/// Parts the history into the messages to summarize and the messages to keep.
///
/// The last `recent_turns_to_keep` exchange pairs are kept in full, and a tool
/// call is never parted from its results. Where nothing is old enough, nothing
/// is to be summarized.
pub fn split_compressible_messages(messages: &[Message], recent_turns_to_keep: usize) -> (r: (
    &[Message],
    &[Message],
))
    ensures
        ({
            let k = split_point(llm::views(messages@), recent_turns_to_keep as nat);
            &&& r.0@ == messages@.subrange(0, k)
            &&& r.1@ == messages@.subrange(k, messages@.len() as int)
        }),
{
    let k = split_index(messages, recent_turns_to_keep);
    messages.split_at(k)
}

/// The index at which [`split_compressible_messages`] splits.
pub fn split_index(messages: &[Message], recent_turns_to_keep: usize) -> (k: usize)
    ensures
        k == split_point(llm::views(messages@), recent_turns_to_keep as nat),
        k <= messages@.len(),
{
    let ghost s = llm::views(messages@);
    let n = count_non_system(messages);
    if recent_turns_to_keep > usize::MAX / 2 || n <= recent_turns_to_keep * 2 {
        return 0;
    }
    let to_compress: usize = n - recent_turns_to_keep * 2;
    proof {
        lemma_prefix_with(s, to_compress as nat);
        lemma_whole_groups(s, prefix_with(s, to_compress as nat));
    }
    let mut cut: usize = 0;
    let mut seen: usize = 0;
    while seen < to_compress
        invariant
            s == llm::views(messages@),
            to_compress <= non_system_count(s),
            cut <= prefix_with(s, to_compress as nat) <= messages@.len(),
            seen == non_system_count(s.subrange(0, cut as int)),
            seen <= to_compress,
            non_system_count(s.subrange(0, prefix_with(s, to_compress as nat))) == to_compress,
            forall|m: int|
                0 <= m < prefix_with(s, to_compress as nat) ==> non_system_count(
                    #[trigger] s.subrange(0, m),
                ) < to_compress,
        decreases messages@.len() - cut,
    {
        proof {
            assert(cut < prefix_with(s, to_compress as nat));
            let t = s.subrange(0, cut + 1);
            assert(t.drop_last() =~= s.subrange(0, cut as int));
            assert(t.last() == messages@[cut as int]@);
            if cut + 1 < prefix_with(s, to_compress as nat) {
                assert(non_system_count(s.subrange(0, cut + 1)) < to_compress);
            } else {
                assert(cut + 1 == prefix_with(s, to_compress as nat));
            }
        }
        if messages[cut].role != Role::System {
            seen = seen + 1;
        }
        cut = cut + 1;
    }
    assert(cut == prefix_with(s, to_compress as nat));
    while cut > 0 && separates_exec(messages, cut)
        invariant
            s == llm::views(messages@),
            cut <= messages@.len(),
            whole_groups(s, cut as int) == whole_groups(
                s,
                prefix_with(s, to_compress as nat),
            ),
        decreases cut,
    {
        cut = cut - 1;
    }
    cut
}

// ---------------------------------------------------------------------------
// Configuration
// ---------------------------------------------------------------------------

/// Metadata about the compressions of a session, kept in its checkpoints.
#[derive(Debug)]
pub struct CompressionMetadata {
    /// Turn at which compression last occurred.
    pub last_compression_turn: u64,
    /// Number of messages that were summarized then.
    pub messages_summarized: u64,
    /// Content handle of the history before that compression.
    pub compressed_context_handle: Option<String>,
    /// Number of compressions in this session.
    pub compression_count: u64,
}

impl Default for CompressionMetadata {
    fn default() -> (r: CompressionMetadata)
        ensures
            r == fresh_metadata(),
    {
        CompressionMetadata {
            last_compression_turn: 0,
            messages_summarized: 0,
            compressed_context_handle: None,
            compression_count: 0,
        }
    }
}

impl Clone for CompressionMetadata {
    fn clone(&self) -> (r: CompressionMetadata)
        ensures
            r == *self,
    {
        CompressionMetadata {
            last_compression_turn: self.last_compression_turn,
            messages_summarized: self.messages_summarized,
            compressed_context_handle: text::clone_opt(&self.compressed_context_handle),
            compression_count: self.compression_count,
        }
    }
}

/// The metadata of a session that was never compressed.
pub open spec fn fresh_metadata() -> CompressionMetadata {
    CompressionMetadata {
        last_compression_turn: 0,
        messages_summarized: 0,
        compressed_context_handle: None,
        compression_count: 0,
    }
}

/// The known metadata, or that of a session that was never compressed.
pub open spec fn known_metadata(existing: Option<&CompressionMetadata>) -> CompressionMetadata {
    match existing {
        Some(m) => *m,
        None => fresh_metadata(),
    }
}

fn known_metadata_exec(existing: Option<&CompressionMetadata>) -> (r: CompressionMetadata)
    ensures
        r == known_metadata(existing),
{
    match existing {
        Some(m) => m.clone(),
        None => CompressionMetadata::default(),
    }
}

/// The preset that names the summarizing model: the agent's, else the gateway's.
pub open spec fn preset_name(
    gateway: ContextCompressionConfig,
    agent: Option<&CompressionConfig>,
) -> Option<String> {
    match agent {
        Some(a) => match a.llm_preset {
            Some(n) => Some(n),
            None => gateway.llm_preset,
        },
        None => gateway.llm_preset,
    }
}

/// The configuration that a preset with a provider and a model stands for.
pub open spec fn preset_llm(preset: LlmPreset) -> Option<LlmConfig> {
    match (preset.provider, preset.model) {
        (Some(provider), Some(model)) => Some(
            LlmConfig {
                provider,
                model,
                temperature_bits: match preset.temperature_bits {
                    Some(t) => t,
                    None => config::SUMMARY_TEMPERATURE_BITS,
                },
                fallback_provider: preset.fallback_provider,
                fallback_model: preset.fallback_model,
                chat_only: preset.chat_only == Some(true),
                context_window_tokens: preset.context_window_tokens,
                base_url: preset.base_url,
                api_key_env: preset.api_key_env,
                routing_preset: None,
                thinking: preset.thinking,
                egress_class: None,
            },
        ),
        _ => None,
    }
}

/// The configuration of a model that is named inline.
pub open spec fn inline_llm(gateway: ContextCompressionConfig) -> Option<LlmConfig> {
    match (gateway.provider, gateway.model) {
        (Some(provider), Some(model)) => Some(
            LlmConfig {
                provider,
                model,
                temperature_bits: config::SUMMARY_TEMPERATURE_BITS,
                fallback_provider: None,
                fallback_model: None,
                chat_only: false,
                context_window_tokens: None,
                base_url: None,
                api_key_env: None,
                routing_preset: None,
                thinking: None,
                egress_class: None,
            },
        ),
        _ => None,
    }
}

/// The summarizing model: the named preset where one is named, else the inline one.
pub open spec fn resolved_llm(
    gateway: ContextCompressionConfig,
    agent: Option<&CompressionConfig>,
    presets: Map<Seq<char>, LlmPreset>,
) -> Option<LlmConfig> {
    match preset_name(gateway, agent) {
        Some(n) => if presets.dom().contains(n@) {
            preset_llm(presets[n@])
        } else {
            None
        },
        None => inline_llm(gateway),
    }
}

/// Resolves the summarizing model from the gateway's settings and an agent's
/// overrides.
pub fn resolve_compression_llm_config(
    gateway_cfg: &ContextCompressionConfig,
    agent_cfg: Option<&CompressionConfig>,
    presets: &TextMap<LlmPreset>,
) -> (r: Option<LlmConfig>)
    ensures
        r == resolved_llm(*gateway_cfg, agent_cfg, presets@),
{
    let own: Option<&String> = match agent_cfg {
        Some(a) => a.llm_preset.as_ref(),
        None => None,
    };
    let name: Option<&String> = match own {
        Some(n) => Some(n),
        None => gateway_cfg.llm_preset.as_ref(),
    };
    match name {
        Some(n) => {
            let preset = match presets.get(n.as_str()) {
                Some(p) => p,
                None => {
                    return None;
                },
            };
            match (&preset.provider, &preset.model) {
                (Some(provider), Some(model)) => Some(
                    LlmConfig {
                        provider: provider.clone(),
                        model: model.clone(),
                        temperature_bits: match preset.temperature_bits {
                            Some(t) => t,
                            None => config::SUMMARY_TEMPERATURE_BITS,
                        },
                        fallback_provider: text::clone_opt(&preset.fallback_provider),
                        fallback_model: text::clone_opt(&preset.fallback_model),
                        chat_only: match preset.chat_only {
                            Some(b) => b,
                            None => false,
                        },
                        context_window_tokens: preset.context_window_tokens,
                        base_url: text::clone_opt(&preset.base_url),
                        api_key_env: text::clone_opt(&preset.api_key_env),
                        routing_preset: None,
                        thinking: text::clone_opt(&preset.thinking),
                        egress_class: None,
                    },
                ),
                _ => None,
            }
        },
        None => match (&gateway_cfg.provider, &gateway_cfg.model) {
            (Some(provider), Some(model)) => Some(
                LlmConfig {
                    provider: provider.clone(),
                    model: model.clone(),
                    temperature_bits: config::SUMMARY_TEMPERATURE_BITS,
                    fallback_provider: None,
                    fallback_model: None,
                    chat_only: false,
                    context_window_tokens: None,
                    base_url: None,
                    api_key_env: None,
                    routing_preset: None,
                    thinking: None,
                    egress_class: None,
                },
            ),
            _ => None,
        },
    }
}

/// The agent's value where it has one, else the gateway's.
pub open spec fn overridden<T>(own: Option<T>, default: T) -> T {
    match own {
        Some(v) => v,
        None => default,
    }
}

/// The agent's threshold, as `f64` bits, where it sets one.
pub open spec fn own_threshold(agent: Option<&CompressionConfig>) -> Option<u64> {
    match agent {
        Some(a) => a.threshold_pct_bits,
        None => None,
    }
}

/// The agent's number of turns to keep, where it sets one.
pub open spec fn own_recent(agent: Option<&CompressionConfig>) -> Option<usize> {
    match agent {
        Some(a) => a.recent_turns_to_keep,
        None => None,
    }
}

/// The settings in force: the threshold (as `f64` bits), the number of turns
/// to keep and the size of a summary. An agent overrides the first two.
pub fn effective_config(
    gateway_cfg: &ContextCompressionConfig,
    agent_cfg: Option<&CompressionConfig>,
) -> (r: (u64, usize, usize))
    ensures
        r.0 == overridden(own_threshold(agent_cfg), gateway_cfg.threshold_pct_bits),
        r.1 == overridden(own_recent(agent_cfg), gateway_cfg.recent_turns_to_keep),
        r.2 == gateway_cfg.max_summary_tokens,
{
    let threshold: u64 = match agent_cfg {
        Some(a) => match a.threshold_pct_bits {
            Some(t) => t,
            None => gateway_cfg.threshold_pct_bits,
        },
        None => gateway_cfg.threshold_pct_bits,
    };
    let recent: usize = match agent_cfg {
        Some(a) => match a.recent_turns_to_keep {
            Some(n) => n,
            None => gateway_cfg.recent_turns_to_keep,
        },
        None => gateway_cfg.recent_turns_to_keep,
    };
    (threshold, recent, gateway_cfg.max_summary_tokens)
}

/// The context window that is assumed where it is not known.
pub const DEFAULT_CONTEXT_WINDOW: usize = 128_000;

/// The context window that the threshold of compression is a share of.
pub fn compression_window(context_window: Option<usize>) -> (r: usize)
    ensures
        r == overridden(context_window, DEFAULT_CONTEXT_WINDOW),
{
    match context_window {
        Some(w) => w,
        None => DEFAULT_CONTEXT_WINDOW,
    }
}

// ---------------------------------------------------------------------------
// The request for a summary
// ---------------------------------------------------------------------------

/// The line that a message contributes to the transcript. Earlier summaries
/// and system messages contribute nothing, nor do empty tool results.
pub open spec fn transcript_line(m: llm::MessageView) -> Seq<char> {
    if text::begins_with(m.content, "[COMPRESSED CONTEXT"@) {
        Seq::empty()
    } else {
        match m.role {
            Role::User => "[User]: "@ + m.content + "\n"@,
            Role::Assistant => "[Assistant]: "@ + m.content + "\n"@,
            Role::Tool => if m.content.len() == 0 {
                Seq::empty()
            } else {
                "[Tool Result]: "@ + m.content + "\n"@
            },
            Role::System => Seq::empty(),
        }
    }
}

/// The lines of the messages, in order.
pub open spec fn transcript(s: Seq<llm::MessageView>) -> Seq<char>
    decreases s.len(),
{
    if s.len() == 0 {
        Seq::empty()
    } else {
        transcript(s.drop_last()) + transcript_line(s.last())
    }
}

/// The prompt that asks for a summary of `s`.
pub open spec fn summary_prompt(s: Seq<llm::MessageView>, max_summary_tokens: nat) -> Seq<char> {
    "Summarize the following conversation history into a concise summary of at most "@
        + text::decimal(max_summary_tokens)
        + " tokens. Focus on: goals discussed, decisions made, open items, key facts, and tool results. Output ONLY the summary text, no preamble.\n\n--- CONVERSATION ---\n"@
        + transcript(s) + "\n--- END ---"@
}

/// Builds the prompt that asks for a summary of `compressible`.
pub fn build_summarization_prompt(compressible: &[Message], max_summary_tokens: usize) -> (r: String)
    ensures
        r@ == summary_prompt(llm::views(compressible@), max_summary_tokens as nat),
{
    let ghost s = llm::views(compressible@);
    let mut lines = String::new();
    let mut i: usize = 0;
    while i < compressible.len()
        invariant
            s == llm::views(compressible@),
            i <= compressible@.len(),
            lines@ == transcript(s.subrange(0, i as int)),
        decreases compressible@.len() - i,
    {
        let ghost before = lines@;
        let m = &compressible[i];
        if !text::starts_with(m.content.as_str(), "[COMPRESSED CONTEXT") {
            match m.role {
                Role::User => {
                    lines.append("[User]: ");
                    lines.append(m.content.as_str());
                    lines.append("\n");
                },
                Role::Assistant => {
                    lines.append("[Assistant]: ");
                    lines.append(m.content.as_str());
                    lines.append("\n");
                },
                Role::Tool => {
                    if !m.content.as_str().is_empty() {
                        lines.append("[Tool Result]: ");
                        lines.append(m.content.as_str());
                        lines.append("\n");
                    }
                },
                Role::System => {},
            }
        }
        proof {
            let t = s.subrange(0, i + 1);
            assert(t.drop_last() =~= s.subrange(0, i as int));
            assert(t.last() == m@);
            assert(lines@ =~= before + transcript_line(m@));
        }
        i = i + 1;
    }
    assert(s.subrange(0, i as int) =~= s);
    let mut out =
        "Summarize the following conversation history into a concise summary of at most ".to_owned();
    out.append(text::decimal_string(max_summary_tokens as u64).as_str());
    out.append(
        " tokens. Focus on: goals discussed, decisions made, open items, key facts, and tool results. Output ONLY the summary text, no preamble.\n\n--- CONVERSATION ---\n",
    );
    out.append(lines.as_str());
    out.append("\n--- END ---");
    out
}

/// A request to a model.
#[derive(Debug)]
pub struct CompletionRequest {
    pub model: String,
    pub messages: Vec<Message>,
    pub max_tokens: Option<u32>,
    /// Sampling temperature, as `f64` bits.
    pub temperature_bits: Option<u64>,
    /// Tracing metadata, by name.
    pub metadata: Option<Json>,
    pub prompt_cache_key: Option<String>,
}

/// A summary that is to be asked for.
#[derive(Debug)]
pub struct SummaryTask {
    /// Number of leading messages that the summary replaces.
    pub split: usize,
    pub llm_config: LlmConfig,
    pub request: CompletionRequest,
}

/// What compressing comes to before a model is called.
#[derive(Debug)]
pub enum CompressionPlan {
    /// The history stays as it is.
    Unchanged,
    /// The model is to be asked for a summary.
    Summarize(SummaryTask),
}

/// The tracing metadata of a summary request.
pub open spec fn summary_metadata(
    session_id: Seq<char>,
    turn: nat,
    original_tokens: nat,
) -> json::JsonView {
    let inner = json::no_fields().push(
        json::entry("session_id"@, json::JsonView::Text(session_id)),
    ).push(json::entry("turn"@, json::count(turn))).push(
        json::entry("original_tokens"@, json::count(original_tokens)),
    );
    json::JsonView::Object(
        json::no_fields().push(json::entry("compression"@, json::JsonView::Object(inner))),
    )
}

/// The request is the one that asks `llm` for a summary of `s[..split]`.
pub open spec fn is_summary_request(
    r: CompletionRequest,
    llm_config: LlmConfig,
    s: Seq<llm::MessageView>,
    split: int,
    max_summary_tokens: usize,
    session_id: Seq<char>,
    turn: u64,
    conv_tokens: usize,
) -> bool {
    &&& r.model == llm_config.model
    &&& llm::views(r.messages@) == seq![
        llm::plain_message(
            Role::System,
            "You are a concise summarizer. Output only the summary."@,
        ),
        llm::plain_message(
            Role::User,
            summary_prompt(s.subrange(0, split), max_summary_tokens as nat),
        ),
    ]
    &&& r.max_tokens == Some(max_summary_tokens as u32)
    &&& r.temperature_bits == Some(config::SUMMARY_TEMPERATURE_BITS)
    &&& r.metadata is Some
    &&& r.metadata->0@ == summary_metadata(session_id, turn as nat, conv_tokens as nat)
    &&& r.prompt_cache_key is None
}

/// The last compression is fewer turns ago than the gateway asks for.
pub open spec fn too_soon(
    gateway: ContextCompressionConfig,
    turn: u64,
    existing: Option<&CompressionMetadata>,
) -> bool {
    match existing {
        Some(m) => (if turn >= m.last_compression_turn {
            turn - m.last_compression_turn
        } else {
            0
        }) < gateway.min_turns_between_compression,
        None => false,
    }
}

/// Decides whether to compress and what to ask the summarizing model.
///
/// `conv_tokens` is the estimated size of the messages that are not system
/// messages and `threshold_tokens` the size at which compression starts.
pub fn plan_compress_context(
    history: &Vec<Message>,
    conv_tokens: usize,
    threshold_tokens: usize,
    gateway_cfg: &ContextCompressionConfig,
    agent_cfg: Option<&CompressionConfig>,
    presets: &TextMap<LlmPreset>,
    session_id: &str,
    turn_number: u64,
    existing_metadata: Option<&CompressionMetadata>,
) -> (r: CompressionPlan)
    ensures
        ({
            let s = llm::views(history@);
            let recent = overridden(own_recent(agent_cfg), gateway_cfg.recent_turns_to_keep);
            let split = split_point(s, recent as nat);
            let llm = resolved_llm(*gateway_cfg, agent_cfg, presets@);
            let compresses = gateway_cfg.enabled && !too_soon(
                *gateway_cfg,
                turn_number,
                existing_metadata,
            ) && conv_tokens >= threshold_tokens && split > 0 && llm is Some;
            match r {
                CompressionPlan::Unchanged => !compresses,
                CompressionPlan::Summarize(t) => {
                    &&& compresses
                    &&& t.split == split
                    &&& t.split <= history@.len()
                    &&& llm == Some(t.llm_config)
                    &&& is_summary_request(
                        t.request,
                        t.llm_config,
                        s,
                        split,
                        gateway_cfg.max_summary_tokens,
                        session_id@,
                        turn_number,
                        conv_tokens,
                    )
                },
            }
        }),
{
    if !gateway_cfg.enabled {
        return CompressionPlan::Unchanged;
    }
    match existing_metadata {
        Some(m) => {
            let gap: u64 = if turn_number >= m.last_compression_turn {
                turn_number - m.last_compression_turn
            } else {
                0
            };
            if gap < gateway_cfg.min_turns_between_compression {
                return CompressionPlan::Unchanged;
            }
        },
        None => {},
    }
    let (_threshold, recent, max_summary_tokens) = effective_config(gateway_cfg, agent_cfg);
    if conv_tokens < threshold_tokens {
        return CompressionPlan::Unchanged;
    }
    let split: usize = split_index(history.as_slice(), recent);
    if split == 0 {
        return CompressionPlan::Unchanged;
    }
    let llm_config = match resolve_compression_llm_config(gateway_cfg, agent_cfg, presets) {
        Some(c) => c,
        None => {
            return CompressionPlan::Unchanged;
        },
    };
    let (compressible, _kept) = history.as_slice().split_at(split);
    let prompt = build_summarization_prompt(compressible, max_summary_tokens);
    let mut messages: Vec<Message> = Vec::new();
    messages.push(Message::system("You are a concise summarizer. Output only the summary."));
    messages.push(Message::user(prompt.as_str()));
    let mut inner = Fields::new();
    inner.text("session_id", session_id);
    inner.number("turn", turn_number);
    inner.number("original_tokens", conv_tokens as u64);
    let mut metadata = Fields::new();
    metadata.put("compression", inner.object());
    proof {
        let s = llm::views(history@);
        assert(llm::views(compressible@) =~= s.subrange(0, split as int));
        assert(llm::views(messages@) =~= seq![messages@[0]@, messages@[1]@]);
    }
    let request = CompletionRequest {
        model: llm_config.model.clone(),
        messages,
        max_tokens: Some(
            #[verifier::truncate]
            (max_summary_tokens as u32),
        ),
        temperature_bits: Some(config::SUMMARY_TEMPERATURE_BITS),
        metadata: Some(metadata.object()),
        prompt_cache_key: None,
    };
    CompressionPlan::Summarize(SummaryTask { split, llm_config, request })
}

// ---------------------------------------------------------------------------
// The compressed history
// ---------------------------------------------------------------------------

/// The messages of `s` that are system messages, in order.
pub open spec fn systems(s: Seq<llm::MessageView>) -> Seq<llm::MessageView>
    decreases s.len(),
{
    if s.len() == 0 {
        Seq::empty()
    } else if s.last().role == Role::System {
        systems(s.drop_last()).push(s.last())
    } else {
        systems(s.drop_last())
    }
}

/// The messages of `s` that are not system messages, in order.
pub open spec fn non_systems(s: Seq<llm::MessageView>) -> Seq<llm::MessageView>
    decreases s.len(),
{
    if s.len() == 0 {
        Seq::empty()
    } else if s.last().role == Role::System {
        non_systems(s.drop_last())
    } else {
        non_systems(s.drop_last()).push(s.last())
    }
}

/// The message that stands in for the summarized turns.
pub open spec fn summary_message(turn: nat, summary: Seq<char>) -> llm::MessageView {
    llm::plain_message(
        Role::User,
        "[COMPRESSED CONTEXT - Turn "@ + text::decimal(turn) + "]\n"@ + summary,
    )
}

/// All system messages, then the summary, then what was kept.
pub open spec fn compressed_history(
    s: Seq<llm::MessageView>,
    split: int,
    turn: nat,
    summary: Seq<char>,
) -> Seq<llm::MessageView> {
    systems(s).push(summary_message(turn, summary)) + non_systems(
        s.subrange(split, s.len() as int),
    )
}

/// The outcome of a compression.
#[derive(Debug)]
pub struct CompressionResult {
    /// The history to go on with.
    pub history: Vec<Message>,
    /// The history as it was, for the archive.
    pub original_history: Vec<Message>,
    pub metadata: CompressionMetadata,
    /// Whether the history was compressed.
    pub compressed: bool,
}

fn append_by_role(out: &mut Vec<Message>, messages: &[Message], from: usize, system: bool)
    requires
        from <= messages@.len(),
    ensures
        ({
            let part = llm::views(messages@).subrange(from as int, messages@.len() as int);
            llm::views(final(out)@) == llm::views(old(out)@) + (if system {
                systems(part)
            } else {
                non_systems(part)
            })
        }),
{
    let ghost s = llm::views(messages@);
    let ghost start = llm::views(out@);
    let mut i: usize = from;
    assert(s.subrange(from as int, from as int) =~= Seq::<llm::MessageView>::empty());
    assert(start + Seq::<llm::MessageView>::empty() =~= start);
    while i < messages.len()
        invariant
            s == llm::views(messages@),
            from <= i <= messages@.len(),
            llm::views(out@) == start + (if system {
                systems(s.subrange(from as int, i as int))
            } else {
                non_systems(s.subrange(from as int, i as int))
            }),
        decreases messages@.len() - i,
    {
        let ghost before = out@;
        proof {
            let t = s.subrange(from as int, i + 1);
            assert(t.drop_last() =~= s.subrange(from as int, i as int));
            assert(t.last() == messages@[i as int]@);
        }
        if (messages[i].role == Role::System) == system {
            let m = messages[i].clone();
            out.push(m);
            assert(llm::views(out@) =~= llm::views(before).push(m@));
            assert(llm::views(out@) =~= start + (if system {
                systems(s.subrange(from as int, i + 1))
            } else {
                non_systems(s.subrange(from as int, i + 1))
            }));
        }
        i = i + 1;
    }
}

/// Builds the compressed history from the summarizing model's reply.
///
/// `reply` is `None` where the model could not be called. Without a reply, or
/// with a blank one, the history stays as it is.
pub fn finish_compress_context(
    history: Vec<Message>,
    split: usize,
    reply: Option<&str>,
    turn_number: u64,
    existing_metadata: Option<&CompressionMetadata>,
) -> (r: CompressionResult)
    requires
        split <= history@.len(),
        known_metadata(existing_metadata).compression_count < u64::MAX,
    ensures
        r.original_history == history,
        r.compressed == (reply is Some && text::trim(reply->0@).len() > 0),
        llm::views(r.history@) == (if r.compressed {
            compressed_history(
                llm::views(history@),
                split as int,
                turn_number as nat,
                reply->0@,
            )
        } else {
            llm::views(history@)
        }),
        r.metadata == (if r.compressed {
            CompressionMetadata {
                last_compression_turn: turn_number,
                messages_summarized: split as u64,
                compressed_context_handle: None,
                compression_count: (known_metadata(existing_metadata).compression_count + 1) as u64,
            }
        } else {
            known_metadata(existing_metadata)
        }),
{
    let known = known_metadata_exec(existing_metadata);
    let summary = match reply {
        Some(t) => if text::is_blank(t) {
            return unchanged(history, existing_metadata);
        } else {
            t
        },
        None => {
            return unchanged(history, existing_metadata);
        },
    };
    let mut new_history: Vec<Message> = Vec::new();
    append_by_role(&mut new_history, history.as_slice(), 0, true);
    let mut content = "[COMPRESSED CONTEXT - Turn ".to_owned();
    content.append(text::decimal_string(turn_number).as_str());
    content.append("]\n");
    content.append(summary);
    let ghost before = new_history@;
    let m = Message::user(content.as_str());
    new_history.push(m);
    proof {
        let s = llm::views(history@);
        assert(s.subrange(0, s.len() as int) =~= s);
        assert(llm::views(before) =~= systems(s));
        assert(llm::views(new_history@) =~= systems(s).push(m@));
    }
    append_by_role(&mut new_history, history.as_slice(), split, false);
    let metadata = CompressionMetadata {
        last_compression_turn: turn_number,
        messages_summarized: split as u64,
        compressed_context_handle: None,
        compression_count: known.compression_count + 1,
    };
    CompressionResult { history: new_history, original_history: history, metadata, compressed: true }
}

/// The outcome where nothing is compressed.
pub fn unchanged(
    history: Vec<Message>,
    existing_metadata: Option<&CompressionMetadata>,
) -> (r: CompressionResult)
    ensures
        r.original_history == history,
        !r.compressed,
        llm::views(r.history@) == llm::views(history@),
        r.metadata == known_metadata(existing_metadata),
{
    let copy = llm::clone_messages(history.as_slice());
    CompressionResult {
        history: copy,
        original_history: history,
        metadata: known_metadata_exec(existing_metadata),
        compressed: false,
    }
}

/// The name under which the history before a compression is archived.
pub open spec fn archive_name(turn: nat) -> Seq<char> {
    "compressed_context_turn_"@ + text::decimal(turn)
}

/// The name under which the history before a compression is archived.
pub fn compressed_context_name(turn: u64) -> (r: String)
    ensures
        r@ == archive_name(turn as nat),
{
    let mut s = "compressed_context_turn_".to_owned();
    s.append(text::decimal_string(turn).as_str());
    s
}

/// Archives the history before a compression, given as JSON, for the session
/// alone. Returns its handle.
pub fn persist_compressed_context(
    store: &mut ContentStore,
    session_id: &str,
    history_json: &str,
    metadata: &CompressionMetadata,
) -> (r: String)
    ensures
        r@ == content_store::handle_of(vstd::utf8::encode_utf8(history_json@)),
        exists|m: ContentStore|
            content_store::stored(*old(store), m, vstd::utf8::encode_utf8(history_json@))
                && #[trigger] content_store::registered_as(
                m,
                *final(store),
                session_id@,
                archive_name(metadata.last_compression_turn as nat),
                r,
                ContentVisibility::Private,
            ),
{
    let handle = store.write(history_json.as_bytes());
    let ghost mid = *store;
    let name = compressed_context_name(metadata.last_compression_turn);
    store.register_name_with_visibility(
        session_id,
        name.as_str(),
        &handle,
        ContentVisibility::Private,
    );
    assert(content_store::registered_as(
        mid,
        *store,
        session_id@,
        name@,
        handle,
        ContentVisibility::Private,
    ));
    handle
}

// ---------------------------------------------------------------------------
// Laws of summaries
// ---------------------------------------------------------------------------

proof fn lemma_transcript_concat(a: Seq<llm::MessageView>, b: Seq<llm::MessageView>)
    ensures
        transcript(a + b) == transcript(a) + transcript(b),
    decreases b.len(),
{
    if b.len() == 0 {
        assert(a + b =~= a);
        assert(transcript(a) + transcript(b) =~= transcript(a));
    } else {
        lemma_transcript_concat(a, b.drop_last());
        assert((a + b).drop_last() =~= a + b.drop_last());
        assert((a + b).last() == b.last());
        assert(transcript(a) + (transcript(b.drop_last()) + transcript_line(b.last())) =~= transcript(
            a,
        ) + transcript(b.drop_last()) + transcript_line(b.last()));
    }
}

proof fn lemma_transcript_of_one(m: llm::MessageView)
    ensures
        transcript(seq![m]) == transcript_line(m),
{
    let none = Seq::<llm::MessageView>::empty();
    reveal_with_fuel(transcript, 2);
    assert(seq![m].drop_last() =~= none);
    assert(Seq::<char>::empty() + transcript_line(m) =~= transcript_line(m));
}

/// What each message adds to the transcript of a conversation, by its role.
spec fn told(m: llm::MessageView) -> Seq<char> {
    match m.role {
        Role::User => "[User]: "@ + m.content + "\n"@,
        Role::Assistant => "[Assistant]: "@ + m.content + "\n"@,
        Role::Tool => "[Tool Result]: "@ + m.content + "\n"@,
        Role::System => Seq::empty(),
    }
}

/// The conversation of a prompt stands behind the request and before the end mark.
proof fn lemma_prompt_split(s: Seq<llm::MessageView>, n: nat, i: int, j: int)
    requires
        0 <= i < j < s.len(),
    ensures
        ({
            let a = transcript(s.subrange(0, i));
            let b = transcript(s.subrange(i + 1, j));
            let c = transcript(s.subrange(j + 1, s.len() as int));
            transcript(s) == a + transcript_line(s[i]) + b + transcript_line(s[j]) + c
        }),
{
    let a = s.subrange(0, i);
    let b = s.subrange(i + 1, j);
    let c = s.subrange(j + 1, s.len() as int);
    let x = seq![s[i]];
    let y = seq![s[j]];
    lemma_transcript_of_one(s[i]);
    lemma_transcript_of_one(s[j]);
    lemma_transcript_concat(a, x);
    lemma_transcript_concat(a + x, b);
    lemma_transcript_concat(a + x + b, y);
    lemma_transcript_concat(a + x + b + y, c);
    assert(a + x + b + y + c =~= s);
}

proof fn lemma_line_in_transcript(s: Seq<llm::MessageView>, i: int)
    requires
        0 <= i < s.len(),
    ensures
        text::has_text(transcript(s), transcript_line(s[i])),
{
    let a = s.subrange(0, i);
    let x = seq![s[i]];
    let b = s.subrange(i + 1, s.len() as int);
    lemma_transcript_of_one(s[i]);
    lemma_transcript_concat(a, x);
    lemma_transcript_concat(a + x, b);
    assert(a + x + b =~= s);
    text::lemma_has_text_around(transcript(a), transcript_line(s[i]), transcript(b));
}

/// Every message of a conversation reaches the model that summarizes it, whole and under
/// its speaker: what the user and the assistant said and what the tools found, but for
/// earlier summaries and system messages.
pub proof fn every_message_reaches_the_summary(s: Seq<llm::MessageView>, n: nat, i: int)
    requires
        0 <= i < s.len(),
        s[i].content.len() > 0,
        !text::begins_with(s[i].content, "[COMPRESSED CONTEXT"@),
    ensures
        s[i].role == Role::User ==> text::has_text(
            summary_prompt(s, n),
            "[User]: "@ + s[i].content + "\n"@,
        ),
        s[i].role == Role::Assistant ==> text::has_text(
            summary_prompt(s, n),
            "[Assistant]: "@ + s[i].content + "\n"@,
        ),
        s[i].role == Role::Tool ==> text::has_text(
            summary_prompt(s, n),
            "[Tool Result]: "@ + s[i].content + "\n"@,
        ),
        s[i].role != Role::System ==> text::has_text(summary_prompt(s, n), s[i].content),
{
    let line = transcript_line(s[i]);
    lemma_line_in_transcript(s, i);
    let head =
        "Summarize the following conversation history into a concise summary of at most "@
        + text::decimal(n)
        + " tokens. Focus on: goals discussed, decisions made, open items, key facts, and tool results. Output ONLY the summary text, no preamble.\n\n--- CONVERSATION ---\n"@;
    text::lemma_has_text_inside(transcript(s), line, head, "\n--- END ---"@);
    match s[i].role {
        Role::User => {
            text::lemma_has_text_around("[User]: "@, s[i].content, "\n"@);
            text::lemma_has_text_trans(summary_prompt(s, n), line, s[i].content);
        },
        Role::Assistant => {
            text::lemma_has_text_around("[Assistant]: "@, s[i].content, "\n"@);
            text::lemma_has_text_trans(summary_prompt(s, n), line, s[i].content);
        },
        Role::Tool => {
            text::lemma_has_text_around("[Tool Result]: "@, s[i].content, "\n"@);
            text::lemma_has_text_trans(summary_prompt(s, n), line, s[i].content);
        },
        Role::System => {},
    }
}

/// Messages stand in the prompt in the order in which they were sent.
#[verifier::spinoff_prover]
#[verifier::rlimit(80)]
pub proof fn messages_keep_their_order_in_the_prompt(
    s: Seq<llm::MessageView>,
    n: nat,
    i: int,
    j: int,
)
    requires
        0 <= i < j < s.len(),
        s[i].role != Role::System,
        s[j].role != Role::System,
        s[i].content.len() > 0,
        s[j].content.len() > 0,
        !text::begins_with(s[i].content, "[COMPRESSED CONTEXT"@),
        !text::begins_with(s[j].content, "[COMPRESSED CONTEXT"@),
    ensures
        exists|p: int, q: int| #[trigger]
            text::occurs_at(summary_prompt(s, n), s[i].content, p) && #[trigger] text::occurs_at(
                summary_prompt(s, n),
                s[j].content,
                q,
            ) && p + s[i].content.len() < q,
{
    let a = transcript(s.subrange(0, i));
    let b = transcript(s.subrange(i + 1, j));
    let c = transcript(s.subrange(j + 1, s.len() as int));
    let li = transcript_line(s[i]);
    let lj = transcript_line(s[j]);
    lemma_prompt_split(s, n, i, j);
    let head =
        "Summarize the following conversation history into a concise summary of at most "@
        + text::decimal(n)
        + " tokens. Focus on: goals discussed, decisions made, open items, key facts, and tool results. Output ONLY the summary text, no preamble.\n\n--- CONVERSATION ---\n"@;
    let all = summary_prompt(s, n);
    reveal_strlit("\n");
    lemma_told(s[i]);
    lemma_told(s[j]);
    let ki = li.len() - s[i].content.len() - 1;
    let kj = lj.len() - s[j].content.len() - 1;
    let p = head.len() + a.len() + ki;
    let q = head.len() + a.len() + li.len() + b.len() + kj;
    assert(all == head + (a + li + b + lj + c) + "\n--- END ---"@);
    assert(all.subrange(p, p + s[i].content.len()) =~= li.subrange(ki, ki + s[i].content.len()));
    assert(all.subrange(q, q + s[j].content.len()) =~= lj.subrange(kj, kj + s[j].content.len()));
    assert(text::occurs_at(all, s[i].content, p));
    assert(text::occurs_at(all, s[j].content, q));
}

proof fn lemma_told(m: llm::MessageView)
    requires
        m.role != Role::System,
        m.content.len() > 0,
        !text::begins_with(m.content, "[COMPRESSED CONTEXT"@),
    ensures
        transcript_line(m) == told(m),
        ({
            let line = transcript_line(m);
            let k = line.len() - m.content.len() - 1;
            k > 0 && line.subrange(k, k + m.content.len()) == m.content
        }),
{
    reveal_strlit("\n");
    reveal_strlit("[User]: ");
    reveal_strlit("[Assistant]: ");
    reveal_strlit("[Tool Result]: ");
    let line = transcript_line(m);
    let k = line.len() - m.content.len() - 1;
    assert(line.subrange(k, k + m.content.len()) =~= m.content);
}

/// Earlier summaries, system messages and empty tool results add nothing to the prompt.
pub proof fn earlier_summaries_are_not_summarized_again(
    a: Seq<llm::MessageView>,
    m: llm::MessageView,
    b: Seq<llm::MessageView>,
    n: nat,
)
    requires
        m.role == Role::System || text::begins_with(m.content, "[COMPRESSED CONTEXT"@) || (m.role
            == Role::Tool && m.content.len() == 0),
    ensures
        summary_prompt(a.push(m) + b, n) == summary_prompt(a + b, n),
{
    let none = Seq::<char>::empty();
    lemma_transcript_concat(a.push(m), b);
    lemma_transcript_concat(a, b);
    assert(a.push(m).drop_last() =~= a);
    assert(transcript_line(m) =~= none);
    assert(transcript(a) + none =~= transcript(a));
}

/// The prompt asks for at most as many tokens as the summary may have.
pub proof fn prompts_name_the_limit(s: Seq<llm::MessageView>, n: nat)
    ensures
        text::begins_with(
            summary_prompt(s, n),
            "Summarize the following conversation history into a concise summary of at most "@
                + text::decimal(n) + " tokens."@,
        ),
{
    reveal_strlit(" tokens.");
    reveal_strlit(
        " tokens. Focus on: goals discussed, decisions made, open items, key facts, and tool results. Output ONLY the summary text, no preamble.\n\n--- CONVERSATION ---\n",
    );
    let x = "Summarize the following conversation history into a concise summary of at most "@
        + text::decimal(n);
    let rest =
        " tokens. Focus on: goals discussed, decisions made, open items, key facts, and tool results. Output ONLY the summary text, no preamble.\n\n--- CONVERSATION ---\n"@;
    let all = summary_prompt(s, n);
    assert(all == x + rest + transcript(s) + "\n--- END ---"@);
    assert(rest.subrange(0, 8) =~= " tokens."@);
    assert(all.subrange(0, x.len() as int + 8) =~= x + " tokens."@);
}

// ---------------------------------------------------------------------------
// Laws of compressed histories
// ---------------------------------------------------------------------------

proof fn lemma_roles_filter(s: Seq<llm::MessageView>)
    ensures
        systems(s) == s.filter(|m: llm::MessageView| m.role == Role::System),
        non_systems(s) == s.filter(|m: llm::MessageView| m.role != Role::System),
        non_system_count(s) == s.filter(|m: llm::MessageView| m.role != Role::System).len(),
    decreases s.len(),
{
    reveal(Seq::filter);
    if s.len() > 0 {
        lemma_roles_filter(s.drop_last());
    } else {
        assert(s.filter(|m: llm::MessageView| m.role == Role::System) =~= Seq::empty());
        assert(s.filter(|m: llm::MessageView| m.role != Role::System) =~= Seq::empty());
    }
}

/// A compressed history holds every system message, then one message of the user's with
/// the turn and the whole summary, then every message from the split on that is no system
/// message; nothing else.
pub proof fn compression_keeps_systems_summary_and_recent(
    s: Seq<llm::MessageView>,
    split: int,
    turn: nat,
    summary: Seq<char>,
)
    requires
        0 <= split <= s.len(),
    ensures
        ({
            let h = compressed_history(s, split, turn, summary);
            let before = s.filter(|m: llm::MessageView| m.role == Role::System);
            let after = s.subrange(split, s.len() as int).filter(
                |m: llm::MessageView| m.role != Role::System,
            );
            &&& h.len() == before.len() + 1 + after.len()
            &&& h.subrange(0, before.len() as int) == before
            &&& h.subrange(before.len() as int + 1, h.len() as int) == after
            &&& h[before.len() as int].role == Role::User
            &&& h[before.len() as int].content == "[COMPRESSED CONTEXT - Turn "@ + text::decimal(
                turn,
            ) + "]\n"@ + summary
        }),
{
    lemma_roles_filter(s);
    lemma_roles_filter(s.subrange(split, s.len() as int));
    let h = compressed_history(s, split, turn, summary);
    let before = s.filter(|m: llm::MessageView| m.role == Role::System);
    let after = s.subrange(split, s.len() as int).filter(
        |m: llm::MessageView| m.role != Role::System,
    );
    assert(h.subrange(0, before.len() as int) =~= before);
    assert(h.subrange(before.len() as int + 1, h.len() as int) =~= after);
}

/// A split parts no tool result from the assistant's message that made the call.
pub proof fn splits_keep_tool_results_with_their_calls(
    s: Seq<llm::MessageView>,
    recent: nat,
    i: int,
    j: int,
    k: int,
)
    requires
        0 <= i < split_point(s, recent) <= j < s.len(),
        s[i].role == Role::Assistant,
        0 <= k < s[i].tool_calls.len(),
        s[j].role == Role::Tool,
    ensures
        s[j].tool_call_id != Some(s[i].tool_calls[k].id),
{
    split_never_parts_a_tool_group(s, recent);
    if s[j].tool_call_id == Some(s[i].tool_calls[k].id) {
        assert(llm::calls_tool(s[i], s[j].tool_call_id->0));
        assert(parted(s, split_point(s, recent), i, j));
    }
}

/// The part of a history that a split keeps holds at least twice as many messages that
/// are no system messages as recent turns are wanted, or all of the history's. A history
/// with no more than that is not split.
pub proof fn splits_keep_recent_turns(s: Seq<llm::MessageView>, recent: nat)
    ensures
        ({
            let k = split_point(s, recent);
            let all = s.filter(|m: llm::MessageView| m.role != Role::System);
            let kept = s.subrange(k, s.len() as int).filter(
                |m: llm::MessageView| m.role != Role::System,
            );
            &&& 0 <= k <= s.len()
            &&& kept.len() >= 2 * recent || kept.len() == all.len()
            &&& all.len() <= 2 * recent ==> k == 0
        }),
{
    split_never_parts_a_tool_group(s, recent);
    split_keeps_the_recent_turns(s, recent);
    lemma_roles_filter(s);
    lemma_roles_filter(s.subrange(split_point(s, recent), s.len() as int));
}

/// A split is the latest that may be: where more than the wanted messages stand from just
/// before a later split on, that split would part a tool result from its call.
pub proof fn later_splits_part_tool_groups(s: Seq<llm::MessageView>, recent: nat, m: int)
    requires
        split_point(s, recent) < m <= s.len(),
        s.subrange(m - 1, s.len() as int).filter(
            |x: llm::MessageView| x.role != Role::System,
        ).len() > 2 * recent,
    ensures
        exists|i: int, j: int, k: int|
            0 <= i < m <= j < s.len() && s[i].role == Role::Assistant && s[j].role == Role::Tool && 0
                <= k < s[i].tool_calls.len() && #[trigger] s[j].tool_call_id == Some(
                (#[trigger] s[i].tool_calls[k]).id,
            ),
{
    split_never_parts_a_tool_group(s, recent);
    let before = s.subrange(0, m - 1);
    let after = s.subrange(m - 1, s.len() as int);
    lemma_roles_filter(after);
    assert(before + after =~= s);
    lemma_count_concat(before, after);
    let n = (non_system_count(s) - 2 * recent) as nat;
    lemma_prefix_with(s, n);
    let p = prefix_with(s, n);
    if m > p {
        lemma_count_prefix(before, p);
        assert(before.subrange(0, p) =~= s.subrange(0, p));
    }
    split_is_the_latest_allowed(s, recent, m);
    let (i, j) = choose|i: int, j: int| #[trigger] parted(s, m, i, j);
    let id = s[j].tool_call_id->0;
    let k = choose|k: int| 0 <= k < s[i].tool_calls.len() && (#[trigger] s[i].tool_calls[k]).id == id;
    assert(s[j].tool_call_id == Some(s[i].tool_calls[k].id));
}

/// A history is compressed again only once as many turns have passed since the last time
/// as are to lie between.
pub proof fn compressions_keep_their_distance(
    cfg: ContextCompressionConfig,
    turn: u64,
    last: CompressionMetadata,
)
    ensures
        too_soon(cfg, turn, Some(&last)) <==> cfg.min_turns_between_compression > 0 && turn
            < last.last_compression_turn + cfg.min_turns_between_compression,
        !too_soon(cfg, turn, None),
{
}

/// The summarizing model is the one of the preset that the agent names, else of the one
/// that the gateway names: with its provider, its model and all that the preset sets. A
/// preset that is not there, or names no model, gives none.
pub proof fn presets_name_the_summarizing_model(
    gateway: ContextCompressionConfig,
    agent: Option<&CompressionConfig>,
    presets: Map<Seq<char>, LlmPreset>,
    name: String,
)
    requires
        match agent {
            Some(a) => a.llm_preset == Some(name) || (a.llm_preset is None && gateway.llm_preset
                == Some(name)),
            None => gateway.llm_preset == Some(name),
        },
    ensures
        ({
            let c = resolved_llm(gateway, agent, presets);
            let p = presets[name@];
            &&& c is Some <==> presets.dom().contains(name@) && p.provider is Some && p.model is Some
            &&& c matches Some(x) ==> {
                &&& Some(x.provider) == p.provider
                &&& Some(x.model) == p.model
                &&& p.temperature_bits is Some ==> Some(x.temperature_bits) == p.temperature_bits
                &&& x.fallback_provider == p.fallback_provider
                &&& x.fallback_model == p.fallback_model
                &&& x.chat_only <==> p.chat_only == Some(true)
                &&& x.context_window_tokens == p.context_window_tokens
                &&& x.base_url == p.base_url
                &&& x.api_key_env == p.api_key_env
                &&& x.thinking == p.thinking
            }
        }),
{
}

/// Where no preset is named, the summarizing model is the one that the gateway names
/// inline, by provider and model together.
pub proof fn inline_models_serve_without_a_preset(
    gateway: ContextCompressionConfig,
    agent: Option<&CompressionConfig>,
    presets: Map<Seq<char>, LlmPreset>,
)
    requires
        gateway.llm_preset is None,
        agent is Some ==> agent->Some_0.llm_preset is None,
    ensures
        resolved_llm(gateway, agent, presets) is Some <==> gateway.provider is Some
            && gateway.model is Some,
        resolved_llm(gateway, agent, presets) matches Some(x) ==> Some(x.provider)
            == gateway.provider && Some(x.model) == gateway.model && x.base_url is None,
{
}

/// What an agent sets for itself counts, and else what the gateway sets.
pub proof fn agents_override_the_gateway(agent: CompressionConfig, t: u64, n: usize)
    ensures
        agent.threshold_pct_bits matches Some(x) ==> overridden(own_threshold(Some(&agent)), t) == x,
        agent.threshold_pct_bits is None ==> overridden(own_threshold(Some(&agent)), t) == t,
        agent.recent_turns_to_keep matches Some(x) ==> overridden(own_recent(Some(&agent)), n) == x,
        agent.recent_turns_to_keep is None ==> overridden(own_recent(Some(&agent)), n) == n,
        overridden(own_threshold(None), t) == t,
        overridden(own_recent(None), n) == n,
{
}

/// A summary is asked of the summarizing model, in a request whose last message holds every
/// message that is to be replaced.
pub proof fn summaries_are_asked_of_the_model(
    r: CompletionRequest,
    llm_config: LlmConfig,
    s: Seq<llm::MessageView>,
    split: int,
    max_summary_tokens: usize,
    session_id: Seq<char>,
    turn: u64,
    conv_tokens: usize,
    i: int,
)
    requires
        is_summary_request(
            r,
            llm_config,
            s,
            split,
            max_summary_tokens,
            session_id,
            turn,
            conv_tokens,
        ),
        0 <= i < split <= s.len(),
        s[i].role != Role::System,
        s[i].content.len() > 0,
        !text::begins_with(s[i].content, "[COMPRESSED CONTEXT"@),
    ensures
        r.model == llm_config.model,
        r.max_tokens == Some(max_summary_tokens as u32),
        r.messages@.len() == 2,
        r.messages@[0]@.role == Role::System,
        r.messages@[1]@.role == Role::User,
        text::has_text(r.messages@[1]@.content, s[i].content),
{
    let part = s.subrange(0, split);
    let v = llm::views(r.messages@);
    assert(v.len() == r.messages@.len());
    assert(v[0] == r.messages@[0]@ && v[1] == r.messages@[1]@);
    assert(part[i] == s[i]);
    every_message_reaches_the_summary(part, max_summary_tokens as nat, i);
    let prompt = summary_prompt(part, max_summary_tokens as nat);
    let c = s[i].content;
    match s[i].role {
        Role::User => {
            text::lemma_has_text_around("[User]: "@, c, "\n"@);
            text::lemma_has_text_trans(prompt, "[User]: "@ + c + "\n"@, c);
        },
        Role::Assistant => {
            text::lemma_has_text_around("[Assistant]: "@, c, "\n"@);
            text::lemma_has_text_trans(prompt, "[Assistant]: "@ + c + "\n"@, c);
        },
        Role::Tool => {
            text::lemma_has_text_around("[Tool Result]: "@, c, "\n"@);
            text::lemma_has_text_trans(prompt, "[Tool Result]: "@ + c + "\n"@, c);
        },
        Role::System => {},
    }
}

/// The parent of a tool result is the last assistant message before it that makes the call.
pub proof fn parents_are_the_last_callers(
    s: Seq<llm::MessageView>,
    id: Seq<char>,
    up_to: int,
    i: int,
    k: int,
)
    requires
        0 <= i < up_to <= s.len(),
        s[i].role == Role::Assistant,
        0 <= k < s[i].tool_calls.len(),
        s[i].tool_calls[k].id == id,
        forall|j: int, m: int|
            i < j < up_to && s[j].role == Role::Assistant && 0 <= m < (
            #[trigger] s[j]).tool_calls.len() ==> (#[trigger] s[j].tool_calls[m]).id != id,
    ensures
        last_caller(s, id, up_to) == Some(i),
    decreases up_to,
{
    let p = s[up_to - 1];
    if i == up_to - 1 {
        assert(p.tool_calls[k].id == id);
        assert(llm::calls_tool(p, id));
    } else {
        if p.role == Role::Assistant && llm::calls_tool(p, id) {
            let m = choose|m: int| 0 <= m < p.tool_calls.len() && (#[trigger] p.tool_calls[m]).id == id;
            assert(s[up_to - 1].tool_calls[m].id != id);
        }
        parents_are_the_last_callers(s, id, up_to - 1, i, k);
    }
}

/// A request for a summary is marked with the session, the turn and the size that it is to
/// bring down.
pub proof fn summaries_are_marked(session_id: Seq<char>, turn: nat, original_tokens: nat)
    ensures
        ({
            let m = summary_metadata(session_id, turn, original_tokens);
            &&& json::field(m, "compression"@) is Some
            &&& json::field(m, "compression"@)->Some_0 is Object
            &&& ({
                let inner = json::field(m, "compression"@)->Some_0->Object_0;
                &&& inner.contains(json::entry("session_id"@, json::JsonView::Text(session_id)))
                &&& inner.contains(
                    json::entry("turn"@, json::JsonView::Number(text::decimal(turn))),
                )
                &&& inner.contains(
                    json::entry(
                        "original_tokens"@,
                        json::JsonView::Number(text::decimal(original_tokens)),
                    ),
                )
            })
        }),
{
    let m = summary_metadata(session_id, turn, original_tokens);
    json::fields_are_read_by_their_key(m->Object_0, 0, "compression"@);
    let inner = json::field(m, "compression"@)->Some_0->Object_0;
    assert(inner[0] == json::entry("session_id"@, json::JsonView::Text(session_id)));
    assert(inner[1] == json::entry("turn"@, json::JsonView::Number(text::decimal(turn))));
    assert(inner[2] == json::entry(
        "original_tokens"@,
        json::JsonView::Number(text::decimal(original_tokens)),
    ));
}

} // verus!
