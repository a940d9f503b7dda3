//! Session checkpoints: what a session needs to go on after it stopped.
//!
//! A checkpoint is written wherever a session yields, as a signed file named
//! after its turn. A resumed or forked session starts from the latest one.

use crate::capsule::StateCapsule;
use crate::compression::CompressionMetadata;
use crate::config::LlmConfig;
use crate::content_store;
use crate::content_store::ContentStore;
use crate::continuation::{ScheduledAction, ToolOutcome};
use crate::digest;
use crate::egress::EgressLabel;
use crate::egress_asks::EgressAskState;
use crate::json::{Json, JsonView};
use crate::llm;
use crate::llm::{Message, MessageView, Role, ToolCall};
use crate::order;
use crate::sealed;
use crate::sealed::{Opened, OpenedView};
use crate::text;
use crate::textmap::TextMap;
use vstd::prelude::*;

verus! {

// ---------------------------------------------------------------------------
// Types
// ---------------------------------------------------------------------------

/// Why a session stopped.
#[derive(Debug)]
pub enum YieldReason {
    /// The agent paused between turns.
    Hibernation,
    /// The agent finished and stays addressable until it has been idle for too long.
    Idle { since: String, ttl_secs: u64 },
    BudgetExhausted,
    ApprovalRequired { approval_request_id: String },
    UserInputRequired { interaction_id: String },
    WaitingForChild { workflow_id: String, task_id: Option<String> },
    /// An operator stopped it: it does not go on by itself.
    EmergencyStop { stop_id: String },
    MaxTurnsReached,
    ManualStop,
    Error(String),
    HumanEscalation { escalation_request_id: String },
    /// The session that started this one is gone.
    ParentTerminated { parent_session_id: String, reason: String },
}

/// Whether a session runs normally.
#[derive(Debug, Clone, Copy, PartialEq, Eq, Structural)]
pub enum SessionState {
    Normal,
    Degraded,
}

/// The model configuration that a session runs with.
#[derive(Debug)]
pub struct LlmConfigSnapshot {
    pub provider: String,
    pub model: String,
    pub temperature_bits: u64,
    pub fallback_provider: Option<String>,
    pub fallback_model: Option<String>,
    pub chat_only: bool,
    pub context_window_tokens: Option<u32>,
    pub preset_name: Option<String>,
    pub preset_source: Option<String>,
    pub session_override_preset: Option<String>,
}

/// A model configuration with where it came from.
#[derive(Debug)]
pub struct ResolvedInferenceProfile {
    pub llm_config: LlmConfig,
    pub preset_name: Option<String>,
    /// What names the source of the preset.
    pub preset_source: String,
    pub session_override_preset: Option<String>,
}

/// A snapshot has the settings of a configuration.
pub open spec fn same_settings(r: LlmConfigSnapshot, c: LlmConfig) -> bool {
    &&& r.provider@ == c.provider@
    &&& r.model@ == c.model@
    &&& r.temperature_bits == c.temperature_bits
    &&& r.fallback_provider.deep_view() == c.fallback_provider.deep_view()
    &&& r.fallback_model.deep_view() == c.fallback_model.deep_view()
    &&& r.chat_only == c.chat_only
    &&& r.context_window_tokens == c.context_window_tokens
}

impl LlmConfigSnapshot {
    /// The snapshot of a configuration.
    pub fn from_config(config: &LlmConfig) -> (r: LlmConfigSnapshot)
        ensures
            same_settings(r, *config),
            r.preset_name.deep_view() == config.routing_preset.deep_view(),
            r.preset_source is None,
            r.session_override_preset is None,
    {
        LlmConfigSnapshot {
            provider: config.provider.clone(),
            model: config.model.clone(),
            temperature_bits: config.temperature_bits,
            fallback_provider: text::clone_opt(&config.fallback_provider),
            fallback_model: text::clone_opt(&config.fallback_model),
            chat_only: config.chat_only,
            context_window_tokens: config.context_window_tokens,
            preset_name: text::clone_opt(&config.routing_preset),
            preset_source: None,
            session_override_preset: None,
        }
    }

    /// The snapshot of a configuration with where it came from.
    pub fn from_inference_profile(profile: &ResolvedInferenceProfile) -> (r: LlmConfigSnapshot)
        ensures
            same_settings(r, profile.llm_config),
            r.preset_name.deep_view() == profile.preset_name.deep_view(),
            r.preset_source.deep_view() == Some(profile.preset_source@),
            r.session_override_preset.deep_view() == profile.session_override_preset.deep_view(),
    {
        let mut snap = LlmConfigSnapshot::from_config(&profile.llm_config);
        snap.preset_name = text::clone_opt(&profile.preset_name);
        snap.preset_source = Some(profile.preset_source.clone());
        snap.session_override_preset = text::clone_opt(&profile.session_override_preset);
        snap
    }
}

/// A batch of tool calls that stopped in the middle.
#[derive(Debug)]
pub struct PendingToolState {
    /// The results before the call at which it stopped.
    pub completed_tool_results: Vec<ToolOutcome>,
    pub pending_tool_call: PendingToolCall,
    /// The calls after it, which were not made yet.
    pub remaining_tool_calls: Vec<ToolCall>,
}

/// A tool call that was not made yet.
#[derive(Debug)]
pub struct PendingToolCall {
    pub call_id: String,
    pub tool_name: String,
    pub arguments: String,
    pub approval_response: Option<String>,
}

/// What keeps an agent from going round in circles.
pub struct LoopGuard {
    pub max_loops_without_progress: u32,
    pub max_tool_failures: u32,
    pub max_consecutive_same_progress: u32,
    pub max_child_failures: u32,
    pub current_loops: u32,
    pub tool_failure_counts: TextMap<u32>,
    pub last_progress_fingerprint: Option<String>,
    pub consecutive_progress_count: u32,
    pub child_failure_count: u32,
    /// The session is repairing a response that was not valid.
    pub repair_mode: bool,
    pub repair_loops: u32,
    pub max_repair_loops: u32,
}

impl LoopGuard {
    /// Starts a repair: its rounds are counted apart.
    pub fn enter_repair_mode(&mut self, max_repair_loops: u32)
        ensures
            *final(self) == (LoopGuard {
                repair_mode: true,
                repair_loops: 0,
                max_repair_loops,
                ..*old(self)
            }),
    {
        self.repair_mode = true;
        self.repair_loops = 0;
        self.max_repair_loops = max_repair_loops;
    }

    /// Ends a repair that succeeded: the rounds before it are forgiven.
    pub fn reset_after_successful_repair(&mut self)
        ensures
            *final(self) == (LoopGuard { repair_mode: false, current_loops: 0, ..*old(self) }),
    {
        self.repair_mode = false;
        self.current_loops = 0;
    }

    /// Ends a repair that failed.
    pub fn exit_repair_mode(&mut self)
        ensures
            *final(self) == (LoopGuard { repair_mode: false, ..*old(self) }),
    {
        self.repair_mode = false;
    }
}

/// Feedback that was given to an agent, with the turn at which it was given.
#[derive(Debug)]
pub struct RecordedFeedback {
    pub turn: u64,
    pub event: Json,
}

/// A name and a handle of the content store.
#[derive(Debug)]
pub struct ContentRef {
    pub name: String,
    pub handle: String,
}

/// What a session needs to go on.
pub struct SessionCheckpoint {
    pub history: Vec<Message>,
    pub turn_counter: u64,
    pub loop_guard_state: LoopGuard,
    /// The egress labels of the session's messages.
    pub egress_labels: TextMap<EgressLabel>,
    /// A question about egress whose answer still decides about this turn.
    pub egress_ask: Option<EgressAskState>,
    pub session_state: SessionState,
    pub tool_tier_escalated: bool,
    pub discovered_tools: Vec<String>,
    pub blocked_state_event_emitted: bool,
    /// The extended instructions were loaded.
    pub extended_loaded: bool,
    pub agent_id: String,
    pub session_id: String,
    pub turn_id: String,
    pub workflow_id: Option<String>,
    pub task_id: Option<String>,
    pub runtime_lock_hash: Option<String>,
    pub constitution_version: Option<String>,
    pub constitution_digest: Option<String>,
    pub llm_config_snapshot: Option<LlmConfigSnapshot>,
    pub tool_registry_version: Option<String>,
    pub yield_reason: YieldReason,
    pub content_store_refs: Vec<ContentRef>,
    /// When the checkpoint was made (RFC 3339).
    pub created_at: String,
    pub pending_tool_state: Option<PendingToolState>,
    pub llm_rounds_consumed: u64,
    pub tool_invocations_consumed: u64,
    pub tokens_consumed: u64,
    /// Estimated cost in dollars, as `f64` bits.
    pub estimated_cost_bits: u64,
    pub compression_metadata: Option<CompressionMetadata>,
    pub capsule_state: Option<StateCapsule>,
    /// The message that asked for the suspended batch.
    pub assistant_message: Option<Message>,
    pub pending_action: Option<ScheduledAction>,
    pub suspended_at: Option<String>,
    pub suppress_until_turn: u64,
    pub trajectory_last_level: Option<String>,
    pub feedback_events: Vec<RecordedFeedback>,
}

/// The state of a running session that a checkpoint restores.
pub struct RuntimeState {
    pub guard: LoopGuard,
    pub egress_labels: TextMap<EgressLabel>,
    pub egress_ask_state: Option<EgressAskState>,
    pub session_state: SessionState,
    pub tool_tier_escalated: bool,
    pub discovered_tools: Vec<String>,
    pub extended_loaded: bool,
    pub session_started: bool,
    pub turn_counter: u64,
    pub blocked_state_event_emitted: bool,
    pub runtime_lock_hash: Option<String>,
    pub constitution_version: Option<String>,
    pub constitution_digest: Option<String>,
    pub compression_metadata: CompressionMetadata,
    pub capsule_state: Option<StateCapsule>,
    pub suppress_until_turn: u64,
    pub trajectory_last_level: Option<String>,
    pub trajectory_feedback: Vec<RecordedFeedback>,
}

/// The state that a checkpoint restores over `before`.
pub open spec fn restored(c: SessionCheckpoint, before: RuntimeState) -> RuntimeState {
    RuntimeState {
        guard: c.loop_guard_state,
        egress_labels: c.egress_labels,
        egress_ask_state: c.egress_ask,
        session_state: c.session_state,
        tool_tier_escalated: c.tool_tier_escalated,
        discovered_tools: c.discovered_tools,
        extended_loaded: c.extended_loaded,
        session_started: true,
        turn_counter: c.turn_counter,
        blocked_state_event_emitted: c.blocked_state_event_emitted,
        runtime_lock_hash: c.runtime_lock_hash,
        constitution_version: c.constitution_version,
        constitution_digest: c.constitution_digest,
        compression_metadata: match c.compression_metadata {
            Some(m) => m,
            None => before.compression_metadata,
        },
        capsule_state: c.capsule_state,
        suppress_until_turn: c.suppress_until_turn,
        trajectory_last_level: c.trajectory_last_level,
        trajectory_feedback: c.feedback_events,
    }
}

/// The text of the first message of a user, or none.
pub open spec fn first_user_text(h: Seq<MessageView>) -> Seq<char>
    decreases h.len(),
{
    if h.len() == 0 {
        Seq::empty()
    } else if h[0].role == Role::User {
        h[0].content
    } else {
        first_user_text(h.subrange(1, h.len() as int))
    }
}

impl SessionCheckpoint {
    /// Puts the state of the checkpoint into a running session. The metadata of
    /// compressions stay as they are where the checkpoint has none.
    pub fn restore_into(self, runtime: &mut RuntimeState)
        ensures
            *final(runtime) == restored(self, *old(runtime)),
    {
        runtime.guard = self.loop_guard_state;
        runtime.egress_labels = self.egress_labels;
        runtime.egress_ask_state = self.egress_ask;
        runtime.session_state = self.session_state;
        runtime.tool_tier_escalated = self.tool_tier_escalated;
        runtime.discovered_tools = self.discovered_tools;
        runtime.extended_loaded = self.extended_loaded;
        runtime.session_started = true;
        runtime.turn_counter = self.turn_counter;
        runtime.blocked_state_event_emitted = self.blocked_state_event_emitted;
        runtime.runtime_lock_hash = self.runtime_lock_hash;
        runtime.constitution_version = self.constitution_version;
        runtime.constitution_digest = self.constitution_digest;
        if let Some(m) = self.compression_metadata {
            runtime.compression_metadata = m;
        }
        runtime.capsule_state = self.capsule_state;
        runtime.suppress_until_turn = self.suppress_until_turn;
        runtime.trajectory_last_level = self.trajectory_last_level;
        runtime.trajectory_feedback = self.feedback_events;
    }

    /// The text of the first message of a user, or none.
    pub fn initial_user_message(&self) -> (r: String)
        ensures
            r@ == first_user_text(llm::views(self.history@)),
    {
        let ghost h = llm::views(self.history@);
        let mut i: usize = 0;
        assert(h.subrange(0, h.len() as int) =~= h);
        while i < self.history.len()
            invariant
                i <= self.history@.len(),
                h == llm::views(self.history@),
                first_user_text(h) == first_user_text(h.subrange(i as int, h.len() as int)),
            decreases self.history@.len() - i,
        {
            proof {
                let rest = h.subrange(i as int, h.len() as int);
                assert(rest[0] == self.history@[i as int]@);
                assert(rest.subrange(1, rest.len() as int) =~= h.subrange(i + 1, h.len() as int));
            }
            if self.history[i].role == Role::User {
                return self.history[i].content.clone();
            }
            i = i + 1;
        }
        proof {
            reveal_strlit("");
            assert(""@ =~= Seq::<char>::empty());
        }
        "".to_owned()
    }

    /// Adds feedback to the checkpoint, at its own turn.
    pub fn append_feedback(&mut self, events: &Vec<Json>)
        ensures
            *final(self) == (SessionCheckpoint {
                feedback_events: final(self).feedback_events,
                ..*old(self)
            }),
            feedback_views(final(self).feedback_events@) == feedback_views(
                old(self).feedback_events@,
            ) + events@.map_values(|e: Json| (old(self).turn_counter, e@)),
    {
        let ghost start = feedback_views(self.feedback_events@);
        let turn: u64 = self.turn_counter;
        let mut all: Vec<RecordedFeedback> = Vec::new();
        std::mem::swap(&mut all, &mut self.feedback_events);
        let mut i: usize = 0;
        assert(start + events@.subrange(0, 0).map_values(|e: Json| (turn, e@)) =~= start);
        while i < events.len()
            invariant
                i <= events@.len(),
                feedback_views(all@) == start + events@.subrange(0, i as int).map_values(
                    |e: Json| (turn, e@),
                ),
            decreases events@.len() - i,
        {
            let f = RecordedFeedback { turn, event: events[i].copy() };
            let ghost before = all@;
            all.push(f);
            i = i + 1;
            proof {
                assert(feedback_views(all@) =~= feedback_views(before).push((turn, f.event@)));
                assert(feedback_views(all@) =~= start + events@.subrange(0, i as int).map_values(
                    |e: Json| (turn, e@),
                ));
            }
        }
        assert(events@.subrange(0, i as int) =~= events@);
        self.feedback_events = all;
    }
}

/// The models of recorded feedback.
pub open spec fn feedback_views(v: Seq<RecordedFeedback>) -> Seq<(u64, JsonView)> {
    v.map_values(|f: RecordedFeedback| (f.turn, f.event@))
}

// ---------------------------------------------------------------------------
// Names
// ---------------------------------------------------------------------------

/// The key under which checkpoints are signed: the one that is configured, or one
/// made from the name of the node. The latter is no secret: it shows a file that
/// was damaged, not one that was forged.
pub fn checkpoint_hmac_key(continuation_key: &Option<String>, node_id: &str) -> (r: String)
    ensures
        r@ == sealed::key_or(continuation_key.deep_view(), "autonoetic-checkpoint-"@, node_id@),
{
    sealed::signing_key(continuation_key, "autonoetic-checkpoint-", node_id)
}

/// The id of a turn.
pub open spec fn turn_id(turn: u64) -> Seq<char> {
    "turn-"@ + text::zero_padded(text::decimal(turn as nat), 6)
}

/// The number of the turn that an id names.
pub open spec fn turn_number(id: Seq<char>) -> Option<u64> {
    if text::begins_with(id, "turn-"@) {
        text::parse_u64(id.subrange("turn-"@.len() as int, id.len() as int))
    } else {
        None
    }
}

/// The id of a turn: its number, with at least six digits.
pub fn turn_id_for(turn: u64) -> (r: String)
    ensures
        r@ == turn_id(turn),
{
    let mut s = "turn-".to_owned();
    s.append(text::padded_decimal(turn, 6).as_str());
    s
}

/// The number of the turn that an id names.
pub fn turn_number_from_id(turn_id: &str) -> (r: Option<u64>)
    ensures
        r == turn_number(turn_id@),
{
    match text::strip_prefix(turn_id, "turn-") {
        Some(n) => text::parsed_u64(n.as_str()),
        None => None,
    }
}

/// A character that a file name keeps.
pub open spec fn is_name_char(c: char) -> bool {
    ('a' <= c && c <= 'z') || ('A' <= c && c <= 'Z') || ('0' <= c && c <= '9') || c == '-' || c
        == '_' || c == '.'
}

/// `s` with every other character replaced by an underscore.
pub open spec fn sanitized(s: Seq<char>) -> Seq<char> {
    s.map_values(
        |c: char|
            if is_name_char(c) {
                c
            } else {
                '_'
            },
    )
}

/// A text as part of a path: letters, digits, `-`, `_` and `.` stay, everything
/// else becomes an underscore.
pub fn sanitize_path_component(s: &str) -> (r: String)
    ensures
        r@ == sanitized(s@),
{
    let v = text::chars_of(s);
    let mut out: Vec<char> = Vec::new();
    let mut i: usize = 0;
    while i < v.len()
        invariant
            i <= v@.len(),
            v@ == s@,
            out@ == sanitized(s@.subrange(0, i as int)),
        decreases v@.len() - i,
    {
        let c: char = v[i];
        if ('a' <= c && c <= 'z') || ('A' <= c && c <= 'Z') || ('0' <= c && c <= '9') || c == '-'
            || c == '_' || c == '.' {
            out.push(c);
        } else {
            out.push('_');
        }
        i = i + 1;
        assert(out@ =~= sanitized(s@.subrange(0, i as int)));
    }
    assert(s@.subrange(0, i as int) =~= s@);
    let n = out.len();
    let r = text::string_of(&out, 0, n);
    assert(out@.subrange(0, n as int) =~= out@);
    r
}

/// The directory and the file of a checkpoint, below that of all checkpoints.
pub fn checkpoint_path(session_id: &str, turn_id: &str) -> (r: (String, String))
    ensures
        r.0@ == sanitized(session_id@),
        r.1@ == sanitized(turn_id@) + ".checkpoint.json"@,
{
    let mut file = sanitize_path_component(turn_id);
    file.append(".checkpoint.json");
    (sanitize_path_component(session_id), file)
}

/// Whether a file of the directory is a checkpoint.
pub fn is_checkpoint_file(name: &str) -> (r: bool)
    ensures
        r == text::finishes_with(name@, ".checkpoint.json"@),
{
    text::ends_with(name, ".checkpoint.json")
}

/// The digest of the lock file of an agent, where there is one.
pub fn compute_runtime_lock_hash(content: Option<&[u8]>) -> (r: Option<String>)
    ensures
        match content {
            Some(c) => r.deep_view() == Some(digest::hex_text(digest::sha256(c@))),
            None => r is None,
        },
{
    match content {
        Some(c) => Some(digest::hex_of(digest::sha256_of(c).as_slice())),
        None => None,
    }
}

// ---------------------------------------------------------------------------
// Integrity
// ---------------------------------------------------------------------------

/// A checkpoint file whose signature does not fit.
#[derive(Debug)]
pub struct CheckpointIntegrityError {
    pub session_id: String,
    pub turn_id: String,
    pub message: String,
}

/// What is said of a checkpoint file whose signature does not fit.
pub open spec fn integrity_message(e: CheckpointIntegrityError) -> Seq<char> {
    "checkpoint integrity violation for session '"@ + e.session_id@ + "' turn '"@ + e.turn_id@
        + "': "@ + e.message@
}

impl CheckpointIntegrityError {
    /// The error in words.
    pub fn message(&self) -> (r: String)
        ensures
            r@ == integrity_message(*self),
    {
        let mut s = "checkpoint integrity violation for session '".to_owned();
        s.append(self.session_id.as_str());
        s.append("' turn '");
        s.append(self.turn_id.as_str());
        s.append("': ");
        s.append(self.message.as_str());
        s
    }
}

/// A checkpoint file: its directory below that of all checkpoints, its name and
/// what it holds.
#[derive(Debug)]
pub struct SealedFile {
    pub directory: String,
    pub name: String,
    pub content: String,
}

/// The file that keeps a checkpoint, given as JSON: its canonical form, signed.
/// Loaded under the same key, the file gives that form back. There is none where
/// the text is no JSON.
pub fn save_checkpoint(key: &str, session_id: &str, turn_id: &str, checkpoint_json: &str) -> (r:
    Option<SealedFile>)
    ensures
        match r {
            Some(f) => f.directory@ == sanitized(session_id@) && f.name@ == sanitized(turn_id@)
                + ".checkpoint.json"@ && sealed::canonical(checkpoint_json@) is Some
                && sealed::is_sealed(key@, sealed::canonical(checkpoint_json@)->Some_0, f.content@)
                && sealed::trusted_payload(key@, f.content@) == sealed::canonical(checkpoint_json@),
            None => sealed::canonical(checkpoint_json@) is None,
        },
{
    match sealed::seal(key, checkpoint_json) {
        Some(content) => {
            let (directory, name) = checkpoint_path(session_id, turn_id);
            Some(SealedFile { directory, name, content })
        },
        None => None,
    }
}

/// The payload of one checkpoint file. A file whose signature does not fit is an
/// error; a file without a signature is taken as it is.
pub fn load_checkpoint(key: &str, session_id: &str, turn_id: &str, file: &str) -> (r: Result<
    String,
    CheckpointIntegrityError,
>)
    ensures
        match r {
            Ok(p) => sealed::trusted_payload(key@, file@) == Some(p@),
            Err(e) => sealed::trusted_payload(key@, file@) is None && e.session_id@ == session_id@
                && e.turn_id@ == turn_id@ && e.message@ == "HMAC mismatch"@,
        },
{
    match sealed::open_file(key, file) {
        Opened::Payload(p) => Ok(p),
        Opened::Tampered => Err(
            CheckpointIntegrityError {
                session_id: session_id.to_owned(),
                turn_id: turn_id.to_owned(),
                message: "HMAC mismatch".to_owned(),
            },
        ),
        Opened::Unsigned => Ok(file.to_owned()),
    }
}

/// The payload of a checkpoint file that may be trusted; none where the signature
/// does not fit.
pub fn verified_payload(key: &str, file: &str) -> (r: Option<String>)
    ensures
        r.deep_view() == sealed::trusted_payload(key@, file@),
{
    match sealed::open_file(key, file) {
        Opened::Payload(p) => Some(p),
        Opened::Tampered => None,
        Opened::Unsigned => Some(file.to_owned()),
    }
}

// ---------------------------------------------------------------------------
// Selection
// ---------------------------------------------------------------------------

/// `i` is the first of the highest numbers in `turns`.
pub open spec fn is_latest(turns: Seq<Option<u64>>, i: int) -> bool {
    &&& 0 <= i < turns.len()
    &&& turns[i] is Some
    &&& forall|j: int|
        0 <= j < turns.len() && (#[trigger] turns[j]) is Some ==> turns[j]->Some_0
            <= turns[i]->Some_0 && (j < i ==> turns[j]->Some_0 < turns[i]->Some_0)
}

/// The position of the latest checkpoint: the highest turn, the first of several.
/// A file that holds no checkpoint that may be trusted has no turn.
pub fn load_latest_checkpoint(turns: &Vec<Option<u64>>) -> (r: Option<usize>)
    ensures
        match r {
            Some(i) => is_latest(turns@, i as int),
            None => forall|j: int| 0 <= j < turns@.len() ==> (#[trigger] turns@[j]) is None,
        },
{
    let mut best: Option<usize> = None;
    let mut i: usize = 0;
    while i < turns.len()
        invariant
            i <= turns@.len(),
            match best {
                Some(b) => b < i && is_latest(turns@.subrange(0, i as int), b as int),
                None => forall|j: int| 0 <= j < i ==> (#[trigger] turns@[j]) is None,
            },
        decreases turns@.len() - i,
    {
        let ghost before = turns@.subrange(0, i as int);
        let ghost now = turns@.subrange(0, i + 1);
        assert(forall|j: int| 0 <= j < i ==> #[trigger] now[j] == before[j]);
        assert(now[i as int] == turns@[i as int]);
        if let Some(t) = turns[i] {
            let better = match best {
                None => true,
                Some(b) => {
                    assert(before[b as int] == turns@[b as int]);
                    match turns[b] {
                        Some(p) => t > p,
                        None => true,
                    }
                },
            };
            if better {
                best = Some(i);
            }
        }
        proof {
            match best {
                Some(b) => {
                    assert forall|j: int| 0 <= j < now.len() && (#[trigger] now[j]) is Some implies now[j]->Some_0
                        <= now[b as int]->Some_0 && (j < b ==> now[j]->Some_0
                        < now[b as int]->Some_0) by {
                        if j < i {
                            assert(now[j] == before[j]);
                            assert(now[j] == turns@[j]);
                        }
                    }
                },
                None => {},
            }
        }
        i = i + 1;
    }
    assert(turns@.subrange(0, i as int) =~= turns@);
    best
}

/// A file of the directory of a session.
#[derive(Debug)]
pub struct CheckpointFile {
    pub name: String,
    /// What the file holds, where it could be read.
    pub content: Option<String>,
    /// The payload that may be trusted decodes as a checkpoint.
    pub decodes: bool,
}

/// The turn that a file is named after; zero where its name says none.
pub open spec fn named_turn(name: Seq<char>) -> u64 {
    if text::finishes_with(name, ".checkpoint.json"@) {
        match turn_number(name.subrange(0, name.len() - ".checkpoint.json"@.len())) {
            Some(t) => t,
            None => 0,
        }
    } else {
        0
    }
}

/// What the strict search makes of a file.
pub enum Verdict {
    /// It is passed over.
    Skip,
    /// It ends the search: its signature does not fit.
    Tampered,
    /// It ends the search: it is the checkpoint.
    Use,
}

/// What the strict search makes of a file.
pub open spec fn verdict(key: Seq<char>, f: CheckpointFile) -> Verdict {
    if !text::finishes_with(f.name@, ".checkpoint.json"@) {
        Verdict::Skip
    } else {
        match f.content {
            None => Verdict::Skip,
            Some(c) => match sealed::opened(key, c@) {
                OpenedView::Tampered => Verdict::Tampered,
                _ => if f.decodes {
                    Verdict::Use
                } else {
                    Verdict::Skip
                },
            },
        }
    }
}

/// Keys by which the latest turn comes first.
pub open spec fn latest_first(turns: Seq<u64>) -> Seq<(u64, Seq<char>)> {
    turns.map_values(|t: u64| ((u64::MAX - t) as u64, ""@))
}

/// Keys by which the earliest turn comes first.
pub open spec fn earliest_first(turns: Seq<u64>) -> Seq<(u64, Seq<char>)> {
    turns.map_values(|t: u64| (t, ""@))
}

/// The turns that files are named after.
pub open spec fn named_turns(files: Seq<CheckpointFile>) -> Seq<u64> {
    files.map_values(|f: CheckpointFile| named_turn(f.name@))
}

/// File `i` is the first, latest turn first, that the strict search does not
/// pass over.
pub open spec fn decides(key: Seq<char>, files: Seq<CheckpointFile>, i: int) -> bool {
    &&& 0 <= i < files.len()
    &&& !(verdict(key, files[i]) is Skip)
    &&& forall|j: int|
        0 <= j < files.len() && #[trigger] order::precedes(latest_first(named_turns(files)), j, i)
            ==> verdict(key, files[j]) is Skip
}

fn named_turn_of(name: &str) -> (r: u64)
    ensures
        r == named_turn(name@),
{
    match text::strip_suffix(name, ".checkpoint.json") {
        Some(stem) => match turn_number_from_id(stem.as_str()) {
            Some(t) => t,
            None => 0,
        },
        None => 0,
    }
}

fn latest_first_order(turns: &Vec<u64>) -> (r: Vec<usize>)
    ensures
        order::is_stable_order(latest_first(turns@), r@),
{
    let mut keys: Vec<(u64, String)> = Vec::new();
    let mut i: usize = 0;
    while i < turns.len()
        invariant
            i <= turns@.len(),
            keys.deep_view() == latest_first(turns@.subrange(0, i as int)),
        decreases turns@.len() - i,
    {
        let ghost before = keys.deep_view();
        let k: u64 = u64::MAX - turns[i];
        let e = "".to_owned();
        keys.push((k, e));
        i = i + 1;
        proof {
            assert(keys.deep_view() =~= before.push((k, ""@)));
            assert(latest_first(turns@.subrange(0, i as int)) =~= latest_first(
                turns@.subrange(0, i - 1),
            ).push((k, ""@)));
        }
    }
    assert(turns@.subrange(0, i as int) =~= turns@);
    order::stable_order(&keys)
}

/// Why the strict search gives no checkpoint.
#[derive(Debug)]
pub enum StrictSearchError {
    /// The signature of the checkpoint that decides does not fit.
    Tampered(CheckpointIntegrityError),
    /// The session has checkpoint files, and none of them can be read as one.
    Unusable { session_id: String },
}

/// What an error of the strict search says.
pub open spec fn strict_message(e: StrictSearchError) -> Seq<char> {
    match e {
        StrictSearchError::Tampered(i) => integrity_message(i),
        StrictSearchError::Unusable { session_id } => "no checkpoint file of session '"@
            + session_id@ + "' can be read"@,
    }
}

impl StrictSearchError {
    /// The error in words.
    pub fn message(&self) -> (r: String)
        ensures
            r@ == strict_message(*self),
    {
        match self {
            StrictSearchError::Tampered(i) => i.message(),
            StrictSearchError::Unusable { session_id } => {
                let mut s = "no checkpoint file of session '".to_owned();
                s.append(session_id.as_str());
                s.append("' can be read");
                s
            },
        }
    }
}

/// The checkpoint from which a session is resumed: the latest, by the turns that
/// the files are named after. There is none only where the session has no
/// checkpoint files. A file whose signature does not fit ends the search with an
/// error, and files of which none can be used are an error, so that a suspended
/// turn is not dropped in silence.
pub fn load_latest_checkpoint_strict(key: &str, session_id: &str, files: &Vec<CheckpointFile>) -> (r: Result<
    Option<usize>,
    StrictSearchError,
>)
    ensures
        match r {
            Ok(Some(i)) => decides(key@, files@, i as int) && verdict(key@, files@[i as int]) is Use,
            Ok(None) => forall|j: int|
                0 <= j < files@.len() ==> !text::finishes_with(
                    (#[trigger] files@[j]).name@,
                    ".checkpoint.json"@,
                ),
            Err(StrictSearchError::Tampered(e)) => exists|i: int| #[trigger]
                decides(key@, files@, i) && verdict(key@, files@[i]) is Tampered && e.session_id@
                    == session_id@ && e.turn_id@ == turn_id(named_turn(files@[i].name@))
                    && e.message@ == "HMAC mismatch on latest checkpoint"@,
            Err(StrictSearchError::Unusable { session_id: id }) => id@ == session_id@ && (exists|
                j: int,
            |
                0 <= j < files@.len() && text::finishes_with(
                    (#[trigger] files@[j]).name@,
                    ".checkpoint.json"@,
                )) && forall|j: int|
                0 <= j < files@.len() ==> verdict(key@, #[trigger] files@[j]) is Skip,
        },
{
    let mut turns: Vec<u64> = Vec::new();
    let mut i: usize = 0;
    while i < files.len()
        invariant
            i <= files@.len(),
            turns@ == named_turns(files@.subrange(0, i as int)),
        decreases files@.len() - i,
    {
        turns.push(named_turn_of(files[i].name.as_str()));
        i = i + 1;
        assert(turns@ =~= named_turns(files@.subrange(0, i as int)));
    }
    assert(files@.subrange(0, i as int) =~= files@);
    let ord = latest_first_order(&turns);
    let ghost keys = latest_first(named_turns(files@));
    let mut seen = false;
    let mut k: usize = 0;
    while k < ord.len()
        invariant
            k <= ord@.len(),
            seen == exists|l: int|
                0 <= l < k && text::finishes_with(
                    files@[#[trigger] ord@[l] as int].name@,
                    ".checkpoint.json"@,
                ),
            turns@ == named_turns(files@),
            keys == latest_first(named_turns(files@)),
            order::is_stable_order(keys, ord@),
            forall|l: int| 0 <= l < k ==> verdict(key@, files@[#[trigger] ord@[l] as int]) is Skip,
        decreases ord@.len() - k,
    {
        let p: usize = ord[k];
        let f = &files[p];
        assert(named_turns(files@)[p as int] == named_turn(f.name@));
        if is_checkpoint_file(f.name.as_str()) {
            seen = true;
            assert(text::finishes_with(files@[ord@[k as int] as int].name@, ".checkpoint.json"@));
            if let Some(c) = &f.content {
                let tampered = match sealed::open_file(key, c.as_str()) {
                    Opened::Tampered => true,
                    _ => false,
                };
                if tampered {
                    proof {
                        lemma_decides(key@, files@, ord@, k as int);
                    }
                    return Err(
                        StrictSearchError::Tampered(
                            CheckpointIntegrityError {
                                session_id: session_id.to_owned(),
                                turn_id: turn_id_for(turns[p]),
                                message: "HMAC mismatch on latest checkpoint".to_owned(),
                            },
                        ),
                    );
                }
                if f.decodes {
                    proof {
                        lemma_decides(key@, files@, ord@, k as int);
                    }
                    return Ok(Some(p));
                }
            }
        }
        k = k + 1;
    }
    proof {
        assert forall|j: int| 0 <= j < files@.len() implies verdict(
            key@,
            #[trigger] files@[j],
        ) is Skip by {
            order::lemma_stable_order_onto(keys, ord@, j);
            let l = choose|l: int| 0 <= l < ord@.len() && ord@[l] == j;
            assert(verdict(key@, files@[ord@[l] as int]) is Skip);
        }
    }
    if seen {
        return Err(StrictSearchError::Unusable { session_id: session_id.to_owned() });
    }
    proof {
        assert forall|j: int| 0 <= j < files@.len() implies !text::finishes_with(
            (#[trigger] files@[j]).name@,
            ".checkpoint.json"@,
        ) by {
            order::lemma_stable_order_onto(keys, ord@, j);
            let l = choose|l: int| 0 <= l < ord@.len() && ord@[l] == j;
            assert(!text::finishes_with(files@[ord@[l] as int].name@, ".checkpoint.json"@));
        }
    }
    Ok(None)
}

proof fn lemma_decides(key: Seq<char>, files: Seq<CheckpointFile>, ord: Seq<usize>, k: int)
    requires
        order::is_stable_order(latest_first(named_turns(files)), ord),
        0 <= k < ord.len(),
        !(verdict(key, files[ord[k] as int]) is Skip),
        forall|l: int| 0 <= l < k ==> verdict(key, files[#[trigger] ord[l] as int]) is Skip,
    ensures
        decides(key, files, ord[k] as int),
{
    let keys = latest_first(named_turns(files));
    let p = ord[k] as int;
    assert forall|j: int| 0 <= j < files.len() && #[trigger] order::precedes(keys, j, p) implies verdict(
        key,
        files[j],
    ) is Skip by {
        order::lemma_stable_order_onto(keys, ord, j);
        let l = choose|l: int| 0 <= l < ord.len() && ord[l] == j;
        if l > k {
            assert(order::precedes(keys, ord[k] as int, ord[l] as int));
            order::lemma_text_total(keys[p].1, keys[j].1);
        }
        order::lemma_text_total(keys[p].1, keys[p].1);
        assert(l != k);
        assert(verdict(key, files[ord[l] as int]) is Skip);
    }
}

/// The files to prune of those that hold the turns `turns`: all but the
/// `keep_last` latest.
pub fn prune_checkpoints(turns: &Vec<u64>, keep_last: usize) -> (r: Vec<usize>)
    ensures
        exists|ord: Seq<usize>| #[trigger]
            order::is_stable_order(latest_first(turns@), ord) && r@ == pruned(ord, keep_last as nat),
{
    let ord = latest_first_order(turns);
    let mut out: Vec<usize> = Vec::new();
    if keep_last >= ord.len() {
        assert(out@ =~= pruned(ord@, keep_last as nat));
        return out;
    }
    let mut i: usize = keep_last;
    while i < ord.len()
        invariant
            keep_last <= i <= ord@.len(),
            out@ == ord@.subrange(keep_last as int, i as int),
        decreases ord@.len() - i,
    {
        out.push(ord[i]);
        i = i + 1;
        assert(out@ =~= ord@.subrange(keep_last as int, i as int));
    }
    assert(out@ =~= pruned(ord@, keep_last as nat));
    out
}

/// What is left of an order behind its first `keep` items.
pub open spec fn pruned(ord: Seq<usize>, keep: nat) -> Seq<usize> {
    if keep >= ord.len() {
        Seq::empty()
    } else {
        ord.subrange(keep as int, ord.len() as int)
    }
}

/// The ids of checkpoints in the order of their turns.
pub fn list_checkpoints(turns: &Vec<u64>, ids: &Vec<String>) -> (r: Vec<String>)
    requires
        turns@.len() == ids@.len(),
    ensures
        exists|ord: Seq<usize>| #[trigger]
            order::is_stable_order(earliest_first(turns@), ord) && order::rearranged(
                ids.deep_view(),
                r.deep_view(),
                ord,
            ),
{
    let mut keys: Vec<(u64, String)> = Vec::new();
    let mut i: usize = 0;
    while i < turns.len()
        invariant
            i <= turns@.len(),
            keys.deep_view() == earliest_first(turns@.subrange(0, i as int)),
        decreases turns@.len() - i,
    {
        let ghost before = keys.deep_view();
        let e = "".to_owned();
        keys.push((turns[i], e));
        i = i + 1;
        proof {
            assert(keys.deep_view() =~= before.push((turns@[i - 1], ""@)));
            assert(earliest_first(turns@.subrange(0, i as int)) =~= earliest_first(
                turns@.subrange(0, i - 1),
            ).push((turns@[i - 1], ""@)));
        }
    }
    assert(turns@.subrange(0, i as int) =~= turns@);
    let ord = order::stable_order(&keys);
    let mut out: Vec<String> = Vec::new();
    let mut k: usize = 0;
    while k < ord.len()
        invariant
            k <= ord@.len(),
            turns@.len() == ids@.len(),
            order::is_stable_order(earliest_first(turns@), ord@),
            out@.len() == k,
            forall|l: int|
                0 <= l < k ==> (#[trigger] out@[l])@ == ids@[ord@[l] as int]@,
        decreases ord@.len() - k,
    {
        let p: usize = ord[k];
        out.push(ids[p].clone());
        k = k + 1;
    }
    proof {
        assert forall|i: int| 0 <= i < ord@.len() implies out.deep_view()[i]
            == ids.deep_view()[#[trigger] ord@[i] as int] by {
            assert(out.deep_view()[i] == out@[i]@);
        }
        order::lemma_stable_order_injective(earliest_first(turns@), ord@);
        assert(order::rearranged(ids.deep_view(), out.deep_view(), ord@));
    }
    out
}

/// The latest checkpoint of a session, as one that repairs a response: the rounds
/// of the repair do not count as rounds without progress.
pub fn enter_repair_mode_on_latest_checkpoint(
    latest: Option<SessionCheckpoint>,
    max_repair_loops: u32,
) -> (r: Option<SessionCheckpoint>)
    ensures
        match latest {
            Some(c) => r == Some(
                SessionCheckpoint {
                    loop_guard_state: LoopGuard {
                        repair_mode: true,
                        repair_loops: 0,
                        max_repair_loops,
                        ..c.loop_guard_state
                    },
                    ..c
                },
            ),
            None => r is None,
        },
{
    match latest {
        Some(c) => {
            let mut c = c;
            c.loop_guard_state.enter_repair_mode(max_repair_loops);
            Some(c)
        },
        None => None,
    }
}

/// The latest checkpoint of a session, after a repair that succeeded.
pub fn reset_after_successful_repair_on_latest_checkpoint(latest: Option<SessionCheckpoint>) -> (r:
    Option<SessionCheckpoint>)
    ensures
        match latest {
            Some(c) => r == Some(
                SessionCheckpoint {
                    loop_guard_state: LoopGuard {
                        repair_mode: false,
                        current_loops: 0,
                        ..c.loop_guard_state
                    },
                    ..c
                },
            ),
            None => r is None,
        },
{
    match latest {
        Some(c) => {
            let mut c = c;
            c.loop_guard_state.reset_after_successful_repair();
            Some(c)
        },
        None => None,
    }
}

/// The latest checkpoint of a session, after a repair that failed.
pub fn exit_repair_mode_on_latest_checkpoint(latest: Option<SessionCheckpoint>) -> (r: Option<
    SessionCheckpoint,
>)
    ensures
        match latest {
            Some(c) => r == Some(
                SessionCheckpoint {
                    loop_guard_state: LoopGuard { repair_mode: false, ..c.loop_guard_state },
                    ..c
                },
            ),
            None => r is None,
        },
{
    match latest {
        Some(c) => {
            let mut c = c;
            c.loop_guard_state.exit_repair_mode();
            Some(c)
        },
        None => None,
    }
}

/// The latest checkpoint of a session with feedback added to it, at its own turn.
/// Without feedback or without a checkpoint there is nothing to save.
pub fn append_feedback_to_latest_checkpoint(
    latest: Option<SessionCheckpoint>,
    events: &Vec<Json>,
) -> (r: Option<SessionCheckpoint>)
    ensures
        match latest {
            Some(c) => if events@.len() == 0 {
                r is None
            } else {
                r matches Some(f) && f == (SessionCheckpoint {
                    feedback_events: f.feedback_events,
                    ..c
                }) && feedback_views(f.feedback_events@) == feedback_views(c.feedback_events@)
                    + events@.map_values(|e: Json| (c.turn_counter, e@))
            },
            None => r is None,
        },
{
    if events.len() == 0 {
        return None;
    }
    match latest {
        Some(c) => {
            let mut c = c;
            c.append_feedback(events);
            Some(c)
        },
        None => None,
    }
}

/// A checkpoint waits for an approval.
pub open spec fn waits_for(reason: YieldReason, approval: Seq<char>) -> bool {
    reason matches YieldReason::ApprovalRequired { approval_request_id }
        && approval_request_id@ == approval
}

/// Whether a checkpoint is bound to an approval, and so goes with it.
pub fn is_bound_to_approval(reason: &YieldReason, approval_id: &str) -> (r: bool)
    ensures
        r == waits_for(*reason, approval_id@),
{
    match reason {
        YieldReason::ApprovalRequired { approval_request_id } => text::text_eq(
            approval_request_id.as_str(),
            approval_id,
        ),
        _ => false,
    }
}

/// The state of an approval.
#[derive(Debug, Clone, Copy, PartialEq, Eq, Structural)]
pub enum ApprovalStatus {
    Approved,
    Rejected,
    Cancelled,
}

/// What the store says of an approval.
#[derive(Debug)]
pub enum ApprovalRead {
    /// The approval, with its status where it was decided.
    Found(Option<ApprovalStatus>),
    Absent,
    Failed,
}

/// A checkpoint is an orphan: it waits for an approval that was rejected or
/// cancelled, or that is gone. Where the store cannot say, it is none.
pub open spec fn is_orphan(reason: YieldReason, approval: ApprovalRead) -> bool {
    reason is ApprovalRequired && match approval {
        ApprovalRead::Found(Some(s)) => s == ApprovalStatus::Rejected || s
            == ApprovalStatus::Cancelled,
        ApprovalRead::Found(None) => false,
        ApprovalRead::Absent => true,
        ApprovalRead::Failed => false,
    }
}

/// Whether a checkpoint is an orphan.
pub fn is_orphan_checkpoint(reason: &YieldReason, approval: &ApprovalRead) -> (r: bool)
    ensures
        r == is_orphan(*reason, *approval),
{
    match reason {
        YieldReason::ApprovalRequired { .. } => match approval {
            ApprovalRead::Found(Some(s)) => *s == ApprovalStatus::Rejected || *s
                == ApprovalStatus::Cancelled,
            ApprovalRead::Found(None) => false,
            ApprovalRead::Absent => true,
            ApprovalRead::Failed => false,
        },
        _ => false,
    }
}

/// `r` lists, in ascending order, the positions below `n` that are to go.
pub open spec fn lists_positions(r: Seq<usize>, n: nat, goes: spec_fn(int) -> bool) -> bool {
    &&& forall|i: int, j: int| 0 <= i < j < r.len() ==> #[trigger] r[i] < #[trigger] r[j]
    &&& forall|i: int| 0 <= i < r.len() ==> 0 <= #[trigger] r[i] < n && goes(r[i] as int)
    &&& forall|p: int| 0 <= p < n && #[trigger] goes(p) ==> r.contains(p as usize)
}

/// The files that go when an approval is rejected or cancelled: those of the
/// checkpoints that wait for it. A file that holds no checkpoint that may be
/// trusted has no reason, and stays.
pub fn delete_approval_bound_checkpoint(reasons: &Vec<Option<YieldReason>>, approval_id: &str) -> (r:
    Vec<usize>)
    ensures
        lists_positions(
            r@,
            reasons@.len(),
            |p: int| reasons@[p] is Some && waits_for(reasons@[p]->Some_0, approval_id@),
        ),
{
    let ghost goes = |p: int| reasons@[p] is Some && waits_for(reasons@[p]->Some_0, approval_id@);
    let mut out: Vec<usize> = Vec::new();
    let mut i: usize = 0;
    while i < reasons.len()
        invariant
            i <= reasons@.len(),
            goes == (|p: int|
                reasons@[p] is Some && waits_for(reasons@[p]->Some_0, approval_id@)),
            lists_positions(out@, i as nat, goes),
        decreases reasons@.len() - i,
    {
        let ghost before = out@;
        let bound = match &reasons[i] {
            Some(y) => is_bound_to_approval(y, approval_id),
            None => false,
        };
        assert(bound == goes(i as int));
        if bound {
            out.push(i);
        }
        proof {
            lemma_next_position(before, out@, i, goes);
        }
        i = i + 1;
    }
    out
}

proof fn lemma_next_position(
    before: Seq<usize>,
    after: Seq<usize>,
    i: usize,
    goes: spec_fn(int) -> bool,
)
    requires
        lists_positions(before, i as nat, goes),
        after == (if goes(i as int) {
            before.push(i)
        } else {
            before
        }),
    ensures
        lists_positions(after, (i + 1) as nat, goes),
{
    assert forall|p: int| 0 <= p < i + 1 && #[trigger] goes(p) implies after.contains(p as usize) by {
        if p < i {
            let k = choose|k: int| 0 <= k < before.len() && before[k] == p as usize;
            assert(after[k] == p as usize);
        } else {
            assert(after[before.len() as int] == i);
        }
    }
    assert forall|k: int| 0 <= k < after.len() implies 0 <= #[trigger] after[k] < i + 1 && goes(
        after[k] as int,
    ) by {
        if k < before.len() {
            assert(after[k] == before[k]);
        }
    }
    assert forall|a: int, b: int| 0 <= a < b < after.len() implies #[trigger] after[a]
        < #[trigger] after[b] by {
        assert(after[a] == before[a]);
        if b < before.len() {
            assert(after[b] == before[b]);
        }
    }
}

/// The files that go at startup: those of orphans. `approvals` says of each
/// checkpoint what the store says of its approval.
pub fn reap_orphan_checkpoints(
    reasons: &Vec<Option<YieldReason>>,
    approvals: &Vec<ApprovalRead>,
) -> (r: Vec<usize>)
    requires
        reasons@.len() == approvals@.len(),
    ensures
        lists_positions(
            r@,
            reasons@.len(),
            |p: int| reasons@[p] is Some && is_orphan(reasons@[p]->Some_0, approvals@[p]),
        ),
{
    let ghost goes = |p: int| reasons@[p] is Some && is_orphan(reasons@[p]->Some_0, approvals@[p]);
    let mut out: Vec<usize> = Vec::new();
    let mut i: usize = 0;
    while i < reasons.len()
        invariant
            i <= reasons@.len(),
            reasons@.len() == approvals@.len(),
            goes == (|p: int|
                reasons@[p] is Some && is_orphan(reasons@[p]->Some_0, approvals@[p])),
            lists_positions(out@, i as nat, goes),
        decreases reasons@.len() - i,
    {
        let ghost before = out@;
        let orphan = match &reasons[i] {
            Some(y) => is_orphan_checkpoint(y, &approvals[i]),
            None => false,
        };
        assert(orphan == goes(i as int));
        if orphan {
            out.push(i);
        }
        proof {
            lemma_next_position(before, out@, i, goes);
        }
        i = i + 1;
    }
    out
}

// ---------------------------------------------------------------------------
// Forks
// ---------------------------------------------------------------------------

/// A session that branches off another.
#[derive(Debug)]
pub struct SessionFork {
    pub new_session_id: String,
    pub source_session_id: String,
    pub fork_turn: u64,
    /// The history with which the branch starts.
    pub initial_history: Vec<Message>,
    /// The agent that ran the source.
    pub agent_id: String,
}

/// The history with which a branch starts: that of the source, and the branch's
/// own message where there is one.
pub open spec fn branch_history(h: Seq<MessageView>, message: Option<&str>) -> Seq<MessageView> {
    match message {
        Some(m) => h.push(llm::plain_message(Role::User, m@)),
        None => h,
    }
}

/// `f` is the checkpoint of a branch of `c`: it has its own history and session,
/// waits for nothing, and is `c` in everything else.
pub open spec fn is_fork_of(
    c: SessionCheckpoint,
    f: SessionCheckpoint,
    session: Seq<char>,
    message: Option<&str>,
) -> bool {
    &&& f == (SessionCheckpoint {
        history: f.history,
        session_id: f.session_id,
        yield_reason: YieldReason::Hibernation,
        pending_tool_state: None,
        assistant_message: None,
        pending_action: None,
        suspended_at: None,
        suppress_until_turn: 0,
        trajectory_last_level: None,
        feedback_events: f.feedback_events,
        ..c
    })
    &&& f.feedback_events@.len() == 0
    &&& f.session_id@ == session
    &&& llm::views(f.history@) == branch_history(llm::views(c.history@), message)
}

impl SessionFork {
    /// Branches a session off a checkpoint, under the given id or else under one
    /// that `unique` makes. Returns the branch and the checkpoint from which it runs.
    pub fn fork_from_checkpoint(
        checkpoint: SessionCheckpoint,
        new_session_id: Option<&str>,
        unique: &str,
        branch_message: Option<&str>,
    ) -> (r: (SessionFork, SessionCheckpoint))
        ensures
            ({
                let id = match new_session_id {
                    Some(s) => s@,
                    None => "fork-"@ + unique@,
                };
                &&& is_fork_of(checkpoint, r.1, id, branch_message)
                &&& r.0.new_session_id@ == id
                &&& r.0.source_session_id@ == checkpoint.session_id@
                &&& r.0.fork_turn == checkpoint.turn_counter
                &&& r.0.agent_id@ == checkpoint.agent_id@
                &&& llm::views(r.0.initial_history@) == branch_history(
                    llm::views(checkpoint.history@),
                    branch_message,
                )
            }),
    {
        let id: String = match new_session_id {
            Some(s) => s.to_owned(),
            None => {
                let mut s = "fork-".to_owned();
                s.append(unique);
                s
            },
        };
        let mut history = llm::clone_messages(checkpoint.history.as_slice());
        if let Some(m) = branch_message {
            let ghost before = history@;
            let u = Message::user(m);
            history.push(u);
            assert(llm::views(history@) =~= llm::views(before).push(u@));
        }
        let fork = SessionFork {
            new_session_id: id.clone(),
            source_session_id: checkpoint.session_id.clone(),
            fork_turn: checkpoint.turn_counter,
            initial_history: llm::clone_messages(history.as_slice()),
            agent_id: checkpoint.agent_id.clone(),
        };
        let forked = SessionCheckpoint {
            history,
            session_id: id,
            yield_reason: YieldReason::Hibernation,
            pending_tool_state: None,
            assistant_message: None,
            pending_action: None,
            suspended_at: None,
            suppress_until_turn: 0,
            trajectory_last_level: None,
            feedback_events: Vec::new(),
            ..checkpoint
        };
        (fork, forked)
    }

    /// Branches a session off its latest checkpoint. Without one there is
    /// nothing to branch off.
    pub fn fork(
        latest: Option<SessionCheckpoint>,
        source_session_id: &str,
        new_session_id: Option<&str>,
        unique: &str,
        branch_message: Option<&str>,
    ) -> (r: Result<(SessionFork, SessionCheckpoint), String>)
        ensures
            match latest {
                Some(c) => r matches Ok(p) && is_fork_of(
                    c,
                    p.1,
                    match new_session_id {
                        Some(s) => s@,
                        None => "fork-"@ + unique@,
                    },
                    branch_message,
                ) && p.0.new_session_id@ == p.1.session_id@ && p.0.source_session_id@
                    == c.session_id@ && p.0.fork_turn == c.turn_counter && p.0.agent_id@
                    == c.agent_id@ && llm::views(p.0.initial_history@) == llm::views(p.1.history@),
                None => r matches Err(e) && e@ == "No checkpoint found for session '"@
                    + source_session_id@ + "'. Cannot fork without a checkpoint."@,
            },
    {
        match latest {
            Some(c) => Ok(
                SessionFork::fork_from_checkpoint(c, new_session_id, unique, branch_message),
            ),
            None => {
                let mut s = "No checkpoint found for session '".to_owned();
                s.append(source_session_id);
                s.append("'. Cannot fork without a checkpoint.");
                Err(s)
            },
        }
    }

    /// The history with which the branch starts.
    pub fn initial_history(&self) -> (r: &[Message])
        ensures
            r@ == self.initial_history@,
    {
        self.initial_history.as_slice()
    }

    /// Keeps the history of the branch, as JSON, where the displays of histories
    /// look for it. Returns its handle.
    pub fn publish_history(&self, store: &mut ContentStore, history_json: &str) -> (r: String)
        ensures
            r@ == content_store::handle_of(vstd::utf8::encode_utf8(history_json@)),
            exists|m: ContentStore|
                content_store::stored(*old(store), m, vstd::utf8::encode_utf8(history_json@))
                    && #[trigger] content_store::registered(
                    m,
                    *final(store),
                    self.new_session_id@,
                    "session_history"@,
                    r,
                ),
    {
        let handle = store.write(history_json.as_bytes());
        let ghost mid = *store;
        store.register_name(self.new_session_id.as_str(), "session_history", &handle);
        assert(content_store::registered(
            mid,
            *store,
            self.new_session_id@,
            "session_history"@,
            handle,
        ));
        handle
    }
}

// ---------------------------------------------------------------------------
// Laws
// ---------------------------------------------------------------------------

/// The id of a turn names that turn.
pub proof fn turn_ids_name_their_turns(turn: u64)
    ensures
        turn_number(turn_id(turn)) == Some(turn),
{
    let n = text::zero_padded(text::decimal(turn as nat), 6);
    let id = turn_id(turn);
    let k = "turn-"@.len() as int;
    assert(id.subrange(0, k) =~= "turn-"@);
    assert(id.subrange(k, id.len() as int) =~= n);
    text::lemma_zero_padded_value(turn as nat, 6);
    assert(n[0] != '+') by {
        assert(text::is_digit(n[0]));
    }
}

/// Different turns have different ids, and so different files.
pub proof fn turn_ids_are_distinct(a: u64, b: u64)
    ensures
        turn_id(a) == turn_id(b) ==> a == b,
{
    turn_ids_name_their_turns(a);
    turn_ids_name_their_turns(b);
}

/// A sanitized text has the length of the text, holds no separator of paths, and
/// is left alone by sanitizing it again.
pub proof fn sanitized_names_hold_no_separator(s: Seq<char>)
    ensures
        sanitized(s).len() == s.len(),
        !sanitized(s).contains('/'),
        !sanitized(s).contains('\\'),
        sanitized(sanitized(s)) == sanitized(s),
{
    let r = sanitized(s);
    assert forall|i: int| 0 <= i < r.len() implies is_name_char(#[trigger] r[i]) by {}
    assert(sanitized(r) =~= r);
}

/// No egress label is lost: a resumed session has the labels of its checkpoint,
/// and so has a branch.
pub proof fn labels_survive_resuming_and_forking(
    c: SessionCheckpoint,
    before: RuntimeState,
    f: SessionCheckpoint,
    session: Seq<char>,
    message: Option<&str>,
)
    requires
        is_fork_of(c, f, session, message),
    ensures
        restored(c, before).egress_labels@ == c.egress_labels@,
        f.egress_labels@ == c.egress_labels@,
        restored(f, before).egress_labels@ == c.egress_labels@,
{
}

/// A branch waits for nothing and starts with the whole history of its source.
pub proof fn forks_run_from_the_branch_point(
    c: SessionCheckpoint,
    f: SessionCheckpoint,
    session: Seq<char>,
    message: Option<&str>,
)
    requires
        is_fork_of(c, f, session, message),
    ensures
        f.yield_reason is Hibernation,
        f.pending_tool_state is None,
        f.assistant_message is None,
        f.pending_action is None,
        f.turn_counter == c.turn_counter,
        llm::views(f.history@).subrange(0, c.history@.len() as int) == llm::views(c.history@),
        f.history@.len() == c.history@.len() + (if message is Some {
            1int
        } else {
            0
        }),
{
    let h = llm::views(f.history@);
    assert(h.subrange(0, c.history@.len() as int) =~= llm::views(c.history@));
    assert(h.len() == f.history@.len());
}

/// Pruning leaves the latest checkpoints: as many as asked for, or all, and none
/// of them of an earlier turn than one that was pruned.
pub proof fn pruning_keeps_the_latest(turns: Seq<u64>, ord: Seq<usize>, keep: nat)
    requires
        order::is_stable_order(latest_first(turns), ord),
    ensures
        pruned(ord, keep).len() == (if keep >= turns.len() {
            0
        } else {
            turns.len() - keep
        }),
        forall|i: int, k: int|
            0 <= i < keep && i < ord.len() && 0 <= k < pruned(ord, keep).len()
                ==> turns[#[trigger] ord[i] as int] >= turns[#[trigger] pruned(ord, keep)[k] as int],
{
    let keys = latest_first(turns);
    assert forall|i: int, k: int|
        0 <= i < keep && i < ord.len() && 0 <= k < pruned(ord, keep).len() implies turns[#[trigger] ord[i] as int]
        >= turns[#[trigger] pruned(ord, keep)[k] as int] by {
        assert(pruned(ord, keep)[k] == ord[keep + k]);
        assert(order::precedes(keys, ord[i] as int, ord[keep + k] as int));
    }
}

/// A resumed session has what its checkpoint holds: its turn, its labels and open question,
/// its state, its tools, what it is bound by, its capsule and its guards. Metadata of an
/// earlier compression stay where the checkpoint has none.
pub proof fn resuming_restores_everything(c: SessionCheckpoint, before: RuntimeState)
    ensures
        ({
            let r = restored(c, before);
            &&& r.turn_counter == c.turn_counter
            &&& r.guard == c.loop_guard_state
            &&& r.egress_labels == c.egress_labels
            &&& r.egress_ask_state == c.egress_ask
            &&& r.session_state == c.session_state
            &&& r.tool_tier_escalated == c.tool_tier_escalated
            &&& r.discovered_tools == c.discovered_tools
            &&& r.extended_loaded == c.extended_loaded
            &&& r.session_started
            &&& r.blocked_state_event_emitted == c.blocked_state_event_emitted
            &&& r.runtime_lock_hash == c.runtime_lock_hash
            &&& r.constitution_version == c.constitution_version
            &&& r.constitution_digest == c.constitution_digest
            &&& c.compression_metadata matches Some(m) ==> r.compression_metadata == m
            &&& c.compression_metadata is None ==> r.compression_metadata
                == before.compression_metadata
            &&& r.capsule_state == c.capsule_state
            &&& r.suppress_until_turn == c.suppress_until_turn
            &&& r.trajectory_last_level == c.trajectory_last_level
            &&& r.trajectory_feedback == c.feedback_events
        }),
{
}

/// A branch is its source in all but what it starts anew: it keeps the turn, the labels, the
/// state, the tools, what it is bound by, what was consumed, and the capsule, and it starts
/// with no feedback and no suppression. Its history is the source's, with one message of
/// the user's behind it where the branch brings one.
pub proof fn branches_keep_what_their_source_had(
    c: SessionCheckpoint,
    f: SessionCheckpoint,
    session: Seq<char>,
    message: Option<&str>,
)
    requires
        is_fork_of(c, f, session, message),
    ensures
        f.session_id@ == session,
        f.turn_counter == c.turn_counter,
        f.loop_guard_state == c.loop_guard_state,
        f.egress_labels == c.egress_labels,
        f.egress_ask == c.egress_ask,
        f.session_state == c.session_state,
        f.tool_tier_escalated == c.tool_tier_escalated,
        f.discovered_tools == c.discovered_tools,
        f.extended_loaded == c.extended_loaded,
        f.agent_id == c.agent_id,
        f.turn_id == c.turn_id,
        f.workflow_id == c.workflow_id,
        f.task_id == c.task_id,
        f.runtime_lock_hash == c.runtime_lock_hash,
        f.constitution_version == c.constitution_version,
        f.constitution_digest == c.constitution_digest,
        f.llm_config_snapshot == c.llm_config_snapshot,
        f.tool_registry_version == c.tool_registry_version,
        f.content_store_refs == c.content_store_refs,
        f.llm_rounds_consumed == c.llm_rounds_consumed,
        f.tool_invocations_consumed == c.tool_invocations_consumed,
        f.tokens_consumed == c.tokens_consumed,
        f.estimated_cost_bits == c.estimated_cost_bits,
        f.compression_metadata == c.compression_metadata,
        f.capsule_state == c.capsule_state,
        f.suspended_at is None,
        f.suppress_until_turn == 0,
        f.trajectory_last_level is None,
        f.feedback_events@.len() == 0,
        message is None ==> llm::views(f.history@) == llm::views(c.history@),
        message matches Some(m) ==> {
            let last = llm::views(f.history@)[c.history@.len() as int];
            last.role == Role::User && last.content == m@ && last.tool_calls.len() == 0
        },
{
}

/// The first message of a session is the content of its first message by a user, and empty
/// where there is none.
pub proof fn sessions_begin_with_the_first_user_message(h: Seq<MessageView>, i: int)
    requires
        0 <= i <= h.len(),
        forall|k: int| 0 <= k < i ==> (#[trigger] h[k]).role != Role::User,
        i < h.len() ==> h[i].role == Role::User,
    ensures
        i < h.len() ==> first_user_text(h) == h[i].content,
        i == h.len() ==> first_user_text(h).len() == 0,
    decreases h.len(),
{
    if i > 0 {
        assert(h[0].role != Role::User);
        let rest = h.subrange(1, h.len() as int);
        assert forall|k: int| 0 <= k < i - 1 implies (#[trigger] rest[k]).role != Role::User by {
            assert(rest[k] == h[k + 1]);
        }
        sessions_begin_with_the_first_user_message(rest, i - 1);
    }
}

/// The id of a turn is `turn-` and its number in at least six digits.
pub proof fn turn_ids_have_six_digits(turn: u64)
    ensures
        text::begins_with(turn_id(turn), "turn-"@),
        text::finishes_with(turn_id(turn), text::decimal(turn as nat)),
        turn_id(turn).len() >= 11,
{
    reveal_strlit("turn-");
    let d = text::decimal(turn as nat);
    let z = text::zero_padded(d, 6);
    let id = turn_id(turn);
    assert(id.subrange(0, 5) =~= "turn-"@);
    assert(id.subrange(id.len() - d.len(), id.len() as int) =~= d);
}

/// Sanitizing keeps letters, digits, dashes, underscores and dots, and writes an underscore
/// for anything else.
pub proof fn sanitizing_keeps_name_characters(s: Seq<char>, i: int)
    requires
        0 <= i < s.len(),
    ensures
        ({
            let c = s[i];
            let keep = ('a' <= c && c <= 'z') || ('A' <= c && c <= 'Z') || ('0' <= c && c <= '9') || c
                == '-' || c == '_' || c == '.';
            &&& keep ==> sanitized(s)[i] == c
            &&& !keep ==> sanitized(s)[i] == '_'
        }),
{
}

/// The strict search stops at a checkpoint file whose envelope does not fit its tag, uses
/// one that decodes, and passes over what is no checkpoint file, cannot be read or does not
/// decode.
pub proof fn tampered_checkpoints_end_the_search(key: Seq<char>, f: CheckpointFile)
    ensures
        verdict(key, f) is Tampered <==> text::finishes_with(f.name@, ".checkpoint.json"@)
            && f.content is Some && sealed::opened(key, f.content->Some_0@) is Tampered,
        verdict(key, f) is Use <==> text::finishes_with(f.name@, ".checkpoint.json"@)
            && f.content is Some && !(sealed::opened(key, f.content->Some_0@) is Tampered)
            && f.decodes,
{
}

/// The file that decides the strict search is of the latest turn of all files that it does
/// not pass over.
pub proof fn the_latest_usable_checkpoint_decides(
    key: Seq<char>,
    files: Seq<CheckpointFile>,
    i: int,
    j: int,
)
    requires
        decides(key, files, i),
        0 <= j < files.len(),
        !(verdict(key, files[j]) is Skip),
    ensures
        named_turn(files[j].name@) <= named_turn(files[i].name@),
{
    let turns = named_turns(files);
    let keys = latest_first(turns);
    assert(keys[i].0 == (u64::MAX - turns[i]) as u64);
    assert(keys[j].0 == (u64::MAX - turns[j]) as u64);
    if turns[j] > turns[i] {
        assert(order::precedes(keys, j, i));
    }
}

/// A checkpoint file is named after its turn.
pub proof fn checkpoint_files_name_their_turn(turn: u64)
    ensures
        named_turn(turn_id(turn) + ".checkpoint.json"@) == turn,
{
    let n = turn_id(turn) + ".checkpoint.json"@;
    let k = ".checkpoint.json"@.len() as int;
    assert(n.subrange(n.len() - k, n.len() as int) =~= ".checkpoint.json"@);
    assert(n.subrange(0, n.len() - k) =~= turn_id(turn));
    turn_ids_name_their_turns(turn);
}

/// A checkpoint is an orphan where it waits for an approval that was rejected, was
/// cancelled or is gone; not while the approval is pending or approved, nor where the
/// store cannot say.
pub proof fn orphans_wait_for_lost_approvals(reason: YieldReason)
    ensures
        reason is ApprovalRequired ==> {
            &&& is_orphan(reason, ApprovalRead::Absent)
            &&& is_orphan(reason, ApprovalRead::Found(Some(ApprovalStatus::Rejected)))
            &&& is_orphan(reason, ApprovalRead::Found(Some(ApprovalStatus::Cancelled)))
            &&& !is_orphan(reason, ApprovalRead::Found(None))
            &&& !is_orphan(reason, ApprovalRead::Failed)
            &&& forall|s: ApprovalStatus|
                s != ApprovalStatus::Rejected && s != ApprovalStatus::Cancelled ==> !#[trigger] is_orphan(
                    reason,
                    ApprovalRead::Found(Some(s)),
                )
        },
        !(reason is ApprovalRequired) ==> forall|a: ApprovalRead| !#[trigger] is_orphan(reason, a),
{
}

/// A checkpoint waits for exactly the approval that it names.
pub proof fn checkpoints_wait_for_the_approval_they_name(reason: YieldReason, id: Seq<char>)
    ensures
        reason matches YieldReason::ApprovalRequired { approval_request_id } ==> (waits_for(
            reason,
            id,
        ) <==> approval_request_id@ == id),
        !(reason is ApprovalRequired) ==> !waits_for(reason, id),
{
}

/// Checkpoints are listed by turn, the earliest first.
pub proof fn checkpoints_are_listed_by_turn(turns: Seq<u64>, ord: Seq<usize>, i: int, j: int)
    requires
        order::is_stable_order(earliest_first(turns), ord),
        0 <= i < j < ord.len(),
    ensures
        turns[ord[i] as int] <= turns[ord[j] as int],
{
    let keys = earliest_first(turns);
    assert(order::precedes(keys, ord[i] as int, ord[j] as int));
    assert(keys[ord[i] as int].0 == turns[ord[i] as int]);
    assert(keys[ord[j] as int].0 == turns[ord[j] as int]);
}

/// What is to go is listed, all of it and nothing else.
pub proof fn listed_positions_are_those_that_go(
    r: Seq<usize>,
    n: nat,
    goes: spec_fn(int) -> bool,
    p: usize,
)
    requires
        lists_positions(r, n, goes),
    ensures
        r.contains(p) <==> p < n && goes(p as int),
{
    if r.contains(p) {
        let i = choose|i: int| 0 <= i < r.len() && r[i] == p;
        assert(goes(r[i] as int));
    }
}

/// A snapshot of settings is the settings in every part.
pub proof fn snapshots_keep_the_settings(r: LlmConfigSnapshot, c: LlmConfig)
    requires
        same_settings(r, c),
    ensures
        r.provider@ == c.provider@,
        r.model@ == c.model@,
        r.temperature_bits == c.temperature_bits,
        r.fallback_provider.deep_view() == c.fallback_provider.deep_view(),
        r.fallback_model.deep_view() == c.fallback_model.deep_view(),
        r.chat_only == c.chat_only,
        r.context_window_tokens == c.context_window_tokens,
{
}

/// The latest checkpoint is one of the highest turn, and of those the first.
pub proof fn the_latest_has_the_highest_turn(turns: Seq<Option<u64>>, i: int, j: int, t: u64)
    requires
        is_latest(turns, i),
        0 <= j < turns.len(),
        turns[j] == Some(t),
    ensures
        turns[i] is Some,
        t <= turns[i]->Some_0,
        t == turns[i]->Some_0 ==> i <= j,
{
    assert(turns[j] is Some);
}

/// Feedback is told by its turn and its event, one for one.
pub proof fn feedback_is_kept_whole(v: Seq<RecordedFeedback>, i: int)
    requires
        0 <= i < v.len(),
    ensures
        feedback_views(v).len() == v.len(),
        feedback_views(v)[i].0 == v[i].turn,
        feedback_views(v)[i].1 == v[i].event@,
{
}

/// What is said of a checkpoint that was tampered with names its session, its turn and what
/// is wrong.
pub proof fn tampering_is_told(e: CheckpointIntegrityError)
    ensures
        text::has_text(integrity_message(e), e.session_id@),
        text::has_text(integrity_message(e), e.turn_id@),
        text::has_text(integrity_message(e), e.message@),
{
    let a = "checkpoint integrity violation for session '"@;
    let b = "' turn '"@;
    let c = "': "@;
    let none = Seq::<char>::empty();
    let x = b + e.turn_id@ + c + e.message@;
    let y = c + e.message@;
    let m = integrity_message(e);
    text::lemma_has_text_around(a, e.session_id@, x);
    assert(a + e.session_id@ + x =~= m);
    text::lemma_has_text_around(a + e.session_id@ + b, e.turn_id@, y);
    assert(a + e.session_id@ + b + e.turn_id@ + y =~= m);
    text::lemma_has_text_around(a + e.session_id@ + b + e.turn_id@ + c, e.message@, none);
    assert(m + none =~= m);
}

} // verus!
