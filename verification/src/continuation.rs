//! Turns that wait for an approval.
//!
//! When a tool call needs an operator's approval, the turn is written to a
//! signed file and let go. Once the approval is given, the approved action is
//! carried out, and the history of the turn is put together again with the real
//! result of the call.

use crate::json;
use crate::json::{Fields, Json, JsonView};
use crate::llm;
use crate::llm::{Message, MessageView, ToolCall};
use crate::sealed;
use crate::sealed::Opened;
use crate::text;
use vstd::prelude::*;

verus! {

// ---------------------------------------------------------------------------
// Types
// ---------------------------------------------------------------------------

/// A continuation file whose signature does not fit.
#[derive(Debug)]
pub struct ContinuationIntegrityError {
    pub task_id: String,
    pub message: String,
}

impl ContinuationIntegrityError {
    /// The error in words.
    pub fn message(&self) -> (r: String)
        ensures
            r@ == "continuation integrity violation for task '"@ + self.task_id@ + "': "@
                + self.message@,
    {
        let mut s = "continuation integrity violation for task '".to_owned();
        s.append(self.task_id.as_str());
        s.append("': ");
        s.append(self.message.as_str());
        s
    }
}

/// The result of one tool call of a batch.
#[derive(Debug)]
pub struct ToolOutcome {
    pub call_id: String,
    pub tool_name: String,
    /// The result as JSON.
    pub result: String,
}

/// The tool call that needed the approval.
#[derive(Debug)]
pub struct PendingApprovalToolCall {
    pub call_id: String,
    pub tool_name: String,
    /// The arguments as the model wrote them.
    pub arguments: String,
    /// What the tool answered when it asked for the approval.
    pub approval_response: String,
}

/// Packages that a sandboxed command needs.
#[derive(Debug)]
pub struct ExecDependencies {
    pub runtime: String,
    pub packages: Vec<String>,
}

/// An action that waits for an approval.
#[derive(Debug)]
pub enum ScheduledAction {
    SandboxExec { command: String, dependencies: Option<ExecDependencies> },
    AgentInstall { agent_id: String },
    SessionContinue { session_id: String, turn_counter: u64, max_turns: u64 },
    SessionEscalate,
    CredentialRequest {
        credential_id: String,
        url: String,
        method: Option<String>,
        headers: Option<Json>,
        body: Option<Json>,
        inject_secret_as: Option<Json>,
    },
    /// Any other action, under the name by which it is reported.
    Other { variant: String },
}

/// A turn that waits for an approval.
#[derive(Debug)]
pub struct TurnContinuation {
    /// The conversation before the suspended batch.
    pub history: Vec<Message>,
    /// The message that asked for the batch.
    pub assistant_message: Message,
    /// The results of the calls before the one that needed the approval.
    pub completed_tool_results: Vec<ToolOutcome>,
    pub pending_tool_call: PendingApprovalToolCall,
    /// The calls after it, which were not made yet.
    pub remaining_tool_calls: Vec<ToolCall>,
    pub approval_request_id: String,
    pub pending_action: Option<ScheduledAction>,
    pub workflow_id: Option<String>,
    pub task_id: Option<String>,
    pub session_id: String,
    pub turn_id: String,
    /// When the turn was suspended (RFC 3339).
    pub suspended_at: String,
    /// The state of the loop guard at that point.
    pub loop_guard_state: Json,
}

// ---------------------------------------------------------------------------
// Files
// ---------------------------------------------------------------------------

/// The key under which continuations are signed: the one that is configured, or
/// one made from the name of the node. The latter is no secret: it shows a file
/// that was damaged, not one that was forged.
pub fn continuation_hmac_key(continuation_key: &Option<String>, node_id: &str) -> (r: String)
    ensures
        r@ == sealed::key_or(continuation_key.deep_view(), "autonoetic-continuation-"@, node_id@),
{
    sealed::signing_key(continuation_key, "autonoetic-continuation-", node_id)
}

/// The name of the file of a task.
pub fn continuation_file_name(task_id: &str) -> (r: String)
    ensures
        r@ == task_id@ + ".json"@,
{
    let mut s = task_id.to_owned();
    s.append(".json");
    s
}

/// A continuation file: its name and what it holds.
#[derive(Debug)]
pub struct ContinuationFile {
    pub name: String,
    pub content: String,
}

/// The file that keeps a continuation, given as JSON: its canonical form, signed.
/// Loaded under the same key, the file gives that form back. There is none where
/// the text is no JSON.
pub fn save_continuation(key: &str, task_id: &str, continuation_json: &str) -> (r: Option<
    ContinuationFile,
>)
    ensures
        match r {
            Some(f) => f.name@ == task_id@ + ".json"@ && sealed::canonical(
                continuation_json@,
            ) is Some && sealed::is_sealed(
                key@,
                sealed::canonical(continuation_json@)->Some_0,
                f.content@,
            ) && sealed::trusted_payload(key@, f.content@) == sealed::canonical(
                continuation_json@,
            ),
            None => sealed::canonical(continuation_json@) is None,
        },
{
    match sealed::seal(key, continuation_json) {
        Some(content) => Some(ContinuationFile { name: continuation_file_name(task_id), content }),
        None => None,
    }
}

/// The payload of the file of a task. A file whose signature does not fit is an
/// error; a file without a signature is taken as it is.
pub fn load_continuation(key: &str, task_id: &str, file: &str) -> (r: Result<
    String,
    ContinuationIntegrityError,
>)
    ensures
        match r {
            Ok(p) => sealed::trusted_payload(key@, file@) == Some(p@),
            Err(e) => sealed::trusted_payload(key@, file@) is None && e.task_id@ == task_id@
                && e.message@ == "HMAC mismatch"@,
        },
{
    match sealed::open_file(key, file) {
        Opened::Payload(p) => Ok(p),
        Opened::Tampered => Err(
            ContinuationIntegrityError {
                task_id: task_id.to_owned(),
                message: "HMAC mismatch".to_owned(),
            },
        ),
        Opened::Unsigned => Ok(file.to_owned()),
    }
}

/// `s` without the suffix `p`, as often as it has it.
pub open spec fn without_suffixes(s: Seq<char>, p: Seq<char>) -> Seq<char>
    decreases s.len(),
{
    if p.len() > 0 && text::finishes_with(s, p) {
        without_suffixes(s.subrange(0, s.len() - p.len()), p)
    } else {
        s
    }
}

/// The task that a file of the directory belongs to, where its name ends as such
/// names do.
pub open spec fn task_of(name: Seq<char>) -> Option<Seq<char>> {
    if text::finishes_with(name, ".json"@) {
        Some(without_suffixes(name, ".json"@))
    } else {
        None
    }
}

/// The tasks of the files `names`.
pub open spec fn tasks_of(names: Seq<Seq<char>>) -> Seq<Seq<char>>
    decreases names.len(),
{
    if names.len() == 0 {
        Seq::empty()
    } else {
        match task_of(names.last()) {
            Some(t) => tasks_of(names.drop_last()).push(t),
            None => tasks_of(names.drop_last()),
        }
    }
}

fn task_of_name(name: &String) -> (r: Option<String>)
    ensures
        r.deep_view() == task_of(name@),
{
    proof {
        reveal_strlit(".json");
    }
    if !text::ends_with(name.as_str(), ".json") {
        return None;
    }
    let mut rest: String = name.clone();
    while text::ends_with(rest.as_str(), ".json")
        invariant
            ".json"@.len() == 5,
            without_suffixes(name@, ".json"@) == without_suffixes(rest@, ".json"@),
        decreases rest@.len(),
    {
        match text::strip_suffix(rest.as_str(), ".json") {
            Some(s) => {
                rest = s;
            },
            None => {},
        }
    }
    Some(rest)
}

/// The tasks that have a continuation, from the names of the files in their
/// directory.
pub fn list_suspended_task_ids(names: &Vec<String>) -> (r: Vec<String>)
    ensures
        r.deep_view() == tasks_of(names.deep_view()),
{
    let ghost all = names.deep_view();
    let mut out: Vec<String> = Vec::new();
    let mut i: usize = 0;
    assert(out.deep_view() =~= tasks_of(all.subrange(0, 0)));
    while i < names.len()
        invariant
            i <= names@.len(),
            all == names.deep_view(),
            out.deep_view() == tasks_of(all.subrange(0, i as int)),
        decreases names@.len() - i,
    {
        let ghost before = out.deep_view();
        proof {
            let t = all.subrange(0, i + 1);
            assert(t.drop_last() =~= all.subrange(0, i as int));
            assert(t.last() == names@[i as int]@);
        }
        if let Some(t) = task_of_name(&names[i]) {
            out.push(t);
            assert(out.deep_view() =~= before.push(t@));
        }
        i = i + 1;
    }
    assert(all.subrange(0, i as int) =~= all);
    out
}

/// A continuation has no approval to wait for: there is none, or it is no longer
/// pending.
pub open spec fn is_orphan(status: Option<Seq<char>>) -> bool {
    status != Some("pending"@)
}

/// The tasks whose approval is not pending.
pub open spec fn orphans(tasks: Seq<Seq<char>>, statuses: Seq<Option<Seq<char>>>) -> Seq<Seq<char>>
    decreases tasks.len(),
{
    if tasks.len() == 0 {
        Seq::empty()
    } else if is_orphan(statuses.last()) {
        orphans(tasks.drop_last(), statuses.drop_last()).push(tasks.last())
    } else {
        orphans(tasks.drop_last(), statuses.drop_last())
    }
}

/// The tasks whose continuation is to be removed, given the status of each task's
/// approval.
pub fn reap_orphaned_continuations(tasks: &Vec<String>, statuses: &Vec<Option<String>>) -> (r: Vec<
    String,
>)
    requires
        tasks@.len() == statuses@.len(),
    ensures
        r.deep_view() == orphans(tasks.deep_view(), statuses.deep_view()),
{
    let ghost all = tasks.deep_view();
    let ghost sts = statuses.deep_view();
    let mut out: Vec<String> = Vec::new();
    let mut i: usize = 0;
    assert(out.deep_view() =~= orphans(all.subrange(0, 0), sts.subrange(0, 0)));
    while i < tasks.len()
        invariant
            i <= tasks@.len(),
            tasks@.len() == statuses@.len(),
            all == tasks.deep_view(),
            sts == statuses.deep_view(),
            out.deep_view() == orphans(all.subrange(0, i as int), sts.subrange(0, i as int)),
        decreases tasks@.len() - i,
    {
        let ghost before = out.deep_view();
        proof {
            let t = all.subrange(0, i + 1);
            let u = sts.subrange(0, i + 1);
            assert(t.drop_last() =~= all.subrange(0, i as int));
            assert(u.drop_last() =~= sts.subrange(0, i as int));
            assert(t.last() == tasks@[i as int]@);
            assert(u.last() == statuses@[i as int].deep_view());
        }
        let orphan = match &statuses[i] {
            None => true,
            Some(s) => !text::text_eq(s.as_str(), "pending"),
        };
        if orphan {
            out.push(tasks[i].clone());
            assert(out.deep_view() =~= before.push(tasks@[i as int]@));
        }
        i = i + 1;
    }
    assert(all.subrange(0, i as int) =~= all);
    assert(sts.subrange(0, i as int) =~= sts);
    out
}

// ---------------------------------------------------------------------------
// Approved actions
// ---------------------------------------------------------------------------

/// What an approved action comes to.
#[derive(Debug)]
pub enum ApprovedStep {
    /// A tool is run with these arguments, and its result is the answer.
    RunTool { tool_name: &'static str, arguments: String },
    /// The answer is known already.
    Answer { result: String },
}

/// Why an approved action cannot be carried out.
#[derive(Debug)]
pub enum ApprovedActionError {
    /// Agents are no longer installed this way.
    LegacyInstall { agent_id: String },
    /// An escalation is answered by guidance, not by an action.
    Escalation,
    Unsupported { variant: String },
}

/// An error in words.
pub open spec fn action_error_text(e: ApprovedActionError) -> Seq<char> {
    match e {
        ApprovedActionError::LegacyInstall { agent_id } =>
            "Legacy approval action 'AgentInstall' for '"@ + agent_id@
            + "' cannot be executed: agent.install has been removed. Use revision create + promote workflows."@,
        ApprovedActionError::Escalation =>
            "SessionEscalate approval is handled by injecting operator guidance into the conversation; no action execution needed"@,
        ApprovedActionError::Unsupported { variant } =>
            "execute_approved_action: unsupported ScheduledAction variant "@ + variant@,
    }
}

impl ApprovedActionError {
    /// The error in words.
    pub fn message(&self) -> (r: String)
        ensures
            r@ == action_error_text(*self),
    {
        match self {
            ApprovedActionError::LegacyInstall { agent_id } => {
                let mut s = "Legacy approval action 'AgentInstall' for '".to_owned();
                s.append(agent_id.as_str());
                s.append(
                    "' cannot be executed: agent.install has been removed. Use revision create + promote workflows.",
                );
                s
            },
            ApprovedActionError::Escalation =>
                "SessionEscalate approval is handled by injecting operator guidance into the conversation; no action execution needed".to_owned(),
            ApprovedActionError::Unsupported { variant } => {
                let mut s =
                    "execute_approved_action: unsupported ScheduledAction variant ".to_owned();
                s.append(variant.as_str());
                s
            },
        }
    }
}

/// The packages that a command needs, as JSON.
pub open spec fn dependencies_json(d: ExecDependencies) -> JsonView {
    JsonView::Object(
        json::no_fields().push(json::entry("runtime"@, JsonView::Text(d.runtime@))).push(
            json::entry("packages"@, json::text_list(d.packages.deep_view())),
        ),
    )
}

/// The arguments of an approved command.
pub open spec fn exec_arguments(
    command: Seq<char>,
    dependencies: Option<ExecDependencies>,
    request_id: Seq<char>,
) -> JsonView {
    let start = json::no_fields().push(json::entry("command"@, JsonView::Text(command)));
    let with = match dependencies {
        Some(d) => start.push(json::entry("dependencies"@, dependencies_json(d))),
        None => start,
    };
    JsonView::Object(with.push(json::entry("approval_ref"@, JsonView::Text(request_id))))
}

/// What a session that may go on is answered.
pub open spec fn continue_answer(
    session_id: Seq<char>,
    turn_counter: u64,
    max_turns: u64,
    request_id: Seq<char>,
) -> JsonView {
    JsonView::Object(
        json::no_fields().push(json::entry("ok"@, JsonView::Bool(true))).push(
            json::entry("approval_required"@, JsonView::Bool(false)),
        ).push(json::entry("continued"@, JsonView::Bool(true))).push(
            json::entry("session_id"@, JsonView::Text(session_id)),
        ).push(json::entry("turn_counter"@, json::count(turn_counter as nat))).push(
            json::entry("max_turns"@, json::count(max_turns as nat)),
        ).push(json::entry("request_id"@, JsonView::Text(request_id))),
    )
}

/// `m` with one more field, where there is a value for it.
pub open spec fn with_opt(
    m: Seq<json::JsonFieldView>,
    key: Seq<char>,
    value: Option<JsonView>,
) -> Seq<json::JsonFieldView> {
    match value {
        Some(v) => m.push(json::entry(key, v)),
        None => m,
    }
}

/// The model of an optional tree.
pub open spec fn opt_tree(j: Option<Json>) -> Option<JsonView> {
    match j {
        Some(v) => Some(v@),
        None => None,
    }
}

/// The arguments of an approved request with a credential.
pub open spec fn credential_arguments(
    credential_id: Seq<char>,
    url: Seq<char>,
    method: Option<Seq<char>>,
    headers: Option<JsonView>,
    body: Option<JsonView>,
    inject_secret_as: Option<JsonView>,
    request_id: Seq<char>,
) -> JsonView {
    let start = json::no_fields().push(
        json::entry("credential_id"@, JsonView::Text(credential_id)),
    ).push(json::entry("url"@, JsonView::Text(url))).push(
        json::entry("approval_ref"@, JsonView::Text(request_id)),
    );
    let m = with_opt(
        start,
        "method"@,
        match method {
            Some(s) => Some(JsonView::Text(s)),
            None => None,
        },
    );
    let h = with_opt(m, "headers"@, headers);
    let b = with_opt(h, "body"@, body);
    JsonView::Object(with_opt(b, "inject_secret_as"@, inject_secret_as))
}

/// What an approved action comes to.
pub open spec fn approved_step(
    action: ScheduledAction,
    request_id: Seq<char>,
    r: Result<ApprovedStep, ApprovedActionError>,
) -> bool {
    match action {
        ScheduledAction::SandboxExec { command, dependencies } => (r matches Ok(step)
            && step matches ApprovedStep::RunTool { tool_name, arguments } && tool_name@
            == "sandbox_exec"@ && arguments@ == json::json_text(
            exec_arguments(command@, dependencies, request_id),
        )),
        ScheduledAction::AgentInstall { agent_id } => (r matches Err(e)
            && e matches ApprovedActionError::LegacyInstall { agent_id: a } && a@ == agent_id@),
        ScheduledAction::SessionContinue { session_id, turn_counter, max_turns } => (r matches Ok(
            step,
        ) && step matches ApprovedStep::Answer { result } && result@ == json::json_text(
            continue_answer(session_id@, turn_counter, max_turns, request_id),
        )),
        ScheduledAction::SessionEscalate => (r matches Err(e) && e is Escalation),
        ScheduledAction::CredentialRequest {
            credential_id,
            url,
            method,
            headers,
            body,
            inject_secret_as,
        } => (r matches Ok(step) && step matches ApprovedStep::RunTool { tool_name, arguments }
            && tool_name@ == "credential_request"@ && arguments@ == json::json_text(
            credential_arguments(
                credential_id@,
                url@,
                method.deep_view(),
                opt_tree(headers),
                opt_tree(body),
                opt_tree(inject_secret_as),
                request_id,
            ),
        )),
        ScheduledAction::Other { variant } => (r matches Err(e)
            && e matches ApprovedActionError::Unsupported { variant: v } && v@ == variant@),
    }
}

fn put_opt(f: &mut Fields, key: &str, value: &Option<Json>)
    ensures
        final(f)@ == with_opt(old(f)@, key@, opt_tree(*value)),
{
    if let Some(v) = value {
        f.put(key, v.copy());
    }
}

/// What an approved action comes to: a tool to run with its arguments, an answer
/// that is known already, or an error. The tool gets the id of the approval, by
/// which it knows that it was approved.
pub fn execute_approved_action(action: &ScheduledAction, request_id: &str) -> (r: Result<
    ApprovedStep,
    ApprovedActionError,
>)
    ensures
        approved_step(*action, request_id@, r),
{
    match action {
        ScheduledAction::SandboxExec { command, dependencies } => {
            let mut f = Fields::new();
            f.text("command", command.as_str());
            if let Some(d) = dependencies {
                let mut g = Fields::new();
                g.text("runtime", d.runtime.as_str());
                g.texts("packages", &d.packages);
                f.put("dependencies", g.object());
            }
            f.text("approval_ref", request_id);
            Ok(
                ApprovedStep::RunTool {
                    tool_name: "sandbox_exec",
                    arguments: json::render_json(&f.object()),
                },
            )
        },
        ScheduledAction::AgentInstall { agent_id } => Err(
            ApprovedActionError::LegacyInstall { agent_id: agent_id.clone() },
        ),
        ScheduledAction::SessionContinue { session_id, turn_counter, max_turns } => {
            let mut f = Fields::new();
            f.flag("ok", true);
            f.flag("approval_required", false);
            f.flag("continued", true);
            f.text("session_id", session_id.as_str());
            f.number("turn_counter", *turn_counter);
            f.number("max_turns", *max_turns);
            f.text("request_id", request_id);
            Ok(ApprovedStep::Answer { result: json::render_json(&f.object()) })
        },
        ScheduledAction::SessionEscalate => Err(ApprovedActionError::Escalation),
        ScheduledAction::CredentialRequest {
            credential_id,
            url,
            method,
            headers,
            body,
            inject_secret_as,
        } => {
            let mut f = Fields::new();
            f.text("credential_id", credential_id.as_str());
            f.text("url", url.as_str());
            f.text("approval_ref", request_id);
            if let Some(m) = method {
                f.text("method", m.as_str());
            }
            put_opt(&mut f, "headers", headers);
            put_opt(&mut f, "body", body);
            put_opt(&mut f, "inject_secret_as", inject_secret_as);
            Ok(
                ApprovedStep::RunTool {
                    tool_name: "credential_request",
                    arguments: json::render_json(&f.object()),
                },
            )
        },
        ScheduledAction::Other { variant } => Err(
            ApprovedActionError::Unsupported { variant: variant.clone() },
        ),
    }
}

// ---------------------------------------------------------------------------
// History
// ---------------------------------------------------------------------------

/// The messages that report tool results.
pub open spec fn outcome_messages(v: Seq<ToolOutcome>) -> Seq<MessageView> {
    v.map_values(|o: ToolOutcome| llm::tool_result_message(o.call_id@, o.result@))
}

/// The history of a turn that goes on: what was said before, the message that
/// asked for the batch, the results before the approval, the approved result, and
/// the results after it.
pub open spec fn resumed_history(
    cont: TurnContinuation,
    approved_result: Seq<char>,
    remaining: Seq<ToolOutcome>,
) -> Seq<MessageView> {
    llm::views(cont.history@).push(cont.assistant_message@) + outcome_messages(
        cont.completed_tool_results@,
    ) + seq![llm::tool_result_message(cont.pending_tool_call.call_id@, approved_result)]
        + outcome_messages(remaining)
}

fn push_outcomes(history: &mut Vec<Message>, v: &Vec<ToolOutcome>)
    ensures
        llm::views(final(history)@) == llm::views(old(history)@) + outcome_messages(v@),
{
    let ghost start = llm::views(history@);
    let mut i: usize = 0;
    assert(start + outcome_messages(v@.subrange(0, 0)) =~= start);
    while i < v.len()
        invariant
            i <= v@.len(),
            llm::views(history@) == start + outcome_messages(v@.subrange(0, i as int)),
        decreases v@.len() - i,
    {
        let m = Message::tool_result(
            v[i].call_id.as_str(),
            v[i].tool_name.as_str(),
            v[i].result.as_str(),
        );
        let ghost before = history@;
        history.push(m);
        i = i + 1;
        proof {
            assert(llm::views(history@) =~= llm::views(before).push(m@));
            assert(outcome_messages(v@.subrange(0, i as int)) =~= outcome_messages(
                v@.subrange(0, i - 1),
            ).push(m@));
            assert(llm::views(history@) =~= start + outcome_messages(v@.subrange(0, i as int)));
        }
    }
    assert(v@.subrange(0, i as int) =~= v@);
}

/// The history with which a suspended turn goes on.
pub fn reconstruct_history(
    cont: &TurnContinuation,
    approved_result: &str,
    remaining_results: &Vec<ToolOutcome>,
) -> (r: Vec<Message>)
    ensures
        llm::views(r@) == resumed_history(*cont, approved_result@, remaining_results@),
{
    let mut history = llm::clone_messages(cont.history.as_slice());
    let asked = cont.assistant_message.clone();
    let ghost h0 = history@;
    history.push(asked);
    assert(llm::views(history@) =~= llm::views(h0).push(asked@));
    push_outcomes(&mut history, &cont.completed_tool_results);
    let m = Message::tool_result(
        cont.pending_tool_call.call_id.as_str(),
        cont.pending_tool_call.tool_name.as_str(),
        approved_result,
    );
    let ghost h1 = history@;
    history.push(m);
    assert(llm::views(history@) =~= llm::views(h1) + seq![m@]);
    push_outcomes(&mut history, remaining_results);
    history
}

// ---------------------------------------------------------------------------
// Laws
// ---------------------------------------------------------------------------

/// A resumed history begins with the history of the suspended turn, and every
/// call of which a result is known has its result in it.
pub proof fn resuming_keeps_the_history(
    cont: TurnContinuation,
    approved_result: Seq<char>,
    remaining: Seq<ToolOutcome>,
)
    ensures
        ({
            let r = resumed_history(cont, approved_result, remaining);
            let n = cont.history@.len() as int;
            let k = cont.completed_tool_results@.len() as int;
            &&& r.len() == n + 2 + k + remaining.len()
            &&& r.subrange(0, n) == llm::views(cont.history@)
            &&& r[n] == cont.assistant_message@
            &&& forall|i: int|
                0 <= i < k ==> llm::answers_call(
                    #[trigger] r[n + 1 + i],
                    cont.completed_tool_results@[i].call_id@,
                )
            &&& r[n + 1 + k] == llm::tool_result_message(
                cont.pending_tool_call.call_id@,
                approved_result,
            )
            &&& forall|i: int|
                0 <= i < remaining.len() ==> llm::answers_call(
                    #[trigger] r[n + 2 + k + i],
                    remaining[i].call_id@,
                )
        }),
{
    let r = resumed_history(cont, approved_result, remaining);
    assert(r.subrange(0, cont.history@.len() as int) =~= llm::views(cont.history@));
}

/// The file of a task is listed under that task, unless the task's name itself
/// ends as such file names do.
pub proof fn suspended_tasks_are_listed(task: Seq<char>)
    requires
        !text::finishes_with(task, ".json"@),
    ensures
        task_of(task + ".json"@) == Some(task),
{
    reveal_strlit(".json");
    let name = task + ".json"@;
    assert(name.subrange(name.len() - 5, name.len() as int) =~= ".json"@);
    assert(name.subrange(0, name.len() - 5) =~= task);
    assert(without_suffixes(name, ".json"@) == without_suffixes(task, ".json"@));
}

/// A resumed history holds every result that is known, whole: those from before the
/// approval, the approved one and those after it, each as the answer to its call.
pub proof fn resuming_reports_every_result(
    cont: TurnContinuation,
    approved_result: Seq<char>,
    remaining: Seq<ToolOutcome>,
    i: int,
)
    ensures
        ({
            let r = resumed_history(cont, approved_result, remaining);
            let n = cont.history@.len() as int;
            let k = cont.completed_tool_results@.len() as int;
            &&& 0 <= i < k ==> r[n + 1 + i].role == llm::Role::Tool && r[n + 1 + i].tool_call_id == Some(
                cont.completed_tool_results@[i].call_id@,
            ) && r[n + 1 + i].content == cont.completed_tool_results@[i].result@
            &&& r[n + 1 + k].role == llm::Role::Tool && r[n + 1 + k].content == approved_result
                && r[n + 1 + k].tool_call_id == Some(cont.pending_tool_call.call_id@)
            &&& 0 <= i < remaining.len() ==> r[n + 2 + k + i].role == llm::Role::Tool && r[n + 2 + k
                + i].tool_call_id == Some(remaining[i].call_id@) && r[n + 2 + k + i].content
                == remaining[i].result@
        }),
{
    resuming_keeps_the_history(cont, approved_result, remaining);
    let r = resumed_history(cont, approved_result, remaining);
    let n = cont.history@.len() as int;
    let k = cont.completed_tool_results@.len() as int;
    if 0 <= i < k {
        assert(r[n + 1 + i] == outcome_messages(cont.completed_tool_results@)[i]);
    }
    if 0 <= i < remaining.len() {
        assert(r[n + 2 + k + i] == outcome_messages(remaining)[i]);
    }
}

/// An approved command is run as it was approved: with its command, its dependencies where
/// it has any, and the approval that it goes by.
pub proof fn approved_commands_run_as_approved(
    command: Seq<char>,
    dependencies: Option<ExecDependencies>,
    request_id: Seq<char>,
)
    ensures
        ({
            let m = exec_arguments(command, dependencies, request_id)->Object_0;
            &&& exec_arguments(command, dependencies, request_id) is Object
            &&& m.contains(json::entry("command"@, JsonView::Text(command)))
            &&& m.contains(json::entry("approval_ref"@, JsonView::Text(request_id)))
            &&& dependencies is Some <==> m.len() == 3
            &&& dependencies matches Some(d) ==> m.contains(
                json::entry("dependencies"@, dependencies_json(d)),
            )
        }),
{
    let m = exec_arguments(command, dependencies, request_id)->Object_0;
    assert(m[0] == json::entry("command"@, JsonView::Text(command)));
    assert(m[m.len() - 1] == json::entry("approval_ref"@, JsonView::Text(request_id)));
    if let Some(d) = dependencies {
        assert(m[1] == json::entry("dependencies"@, dependencies_json(d)));
    }
}

/// The dependencies of a command are its runtime and all of its packages.
pub proof fn dependencies_are_told_whole(d: ExecDependencies)
    ensures
        ({
            let m = dependencies_json(d)->Object_0;
            &&& m.contains(json::entry("runtime"@, JsonView::Text(d.runtime@)))
            &&& m.contains(json::entry("packages"@, json::text_list(d.packages.deep_view())))
        }),
{
    let m = dependencies_json(d)->Object_0;
    assert(m[0] == json::entry("runtime"@, JsonView::Text(d.runtime@)));
    assert(m[1] == json::entry("packages"@, json::text_list(d.packages.deep_view())));
}

proof fn lemma_with_opt(
    m: Seq<json::JsonFieldView>,
    key: Seq<char>,
    value: Option<JsonView>,
    f: json::JsonFieldView,
)
    ensures
        with_opt(m, key, value).contains(f) <==> m.contains(f) || (value is Some && f == json::entry(
            key,
            value->Some_0,
        )),
{
    if let Some(v) = value {
        let e = json::entry(key, v);
        let n = m.push(e);
        assert(n[m.len() as int] == e);
        if m.contains(f) {
            let i = choose|i: int| 0 <= i < m.len() && m[i] == f;
            assert(n[i] == f);
        }
        if n.contains(f) {
            let i = choose|i: int| 0 <= i < n.len() && n[i] == f;
            if i < m.len() {
                assert(m[i] == f);
            }
        }
    }
}

/// An approved request with a credential is sent as it was approved: to its address, with
/// its credential and the approval that it goes by, and with its method, headers, body and
/// way of passing the secret where it has them, and only then.
pub proof fn approved_requests_are_sent_as_approved(
    credential_id: Seq<char>,
    url: Seq<char>,
    method: Option<Seq<char>>,
    headers: Option<JsonView>,
    body: Option<JsonView>,
    inject: Option<JsonView>,
    request_id: Seq<char>,
    f: json::JsonFieldView,
)
    ensures
        credential_arguments(credential_id, url, method, headers, body, inject, request_id) is Object,
        credential_arguments(
            credential_id,
            url,
            method,
            headers,
            body,
            inject,
            request_id,
        )->Object_0.contains(f) <==> ({
            ||| f == json::entry("credential_id"@, JsonView::Text(credential_id))
            ||| f == json::entry("url"@, JsonView::Text(url))
            ||| f == json::entry("approval_ref"@, JsonView::Text(request_id))
            ||| method is Some && f == json::entry("method"@, JsonView::Text(method->Some_0))
            ||| headers is Some && f == json::entry("headers"@, headers->Some_0)
            ||| body is Some && f == json::entry("body"@, body->Some_0)
            ||| inject is Some && f == json::entry("inject_secret_as"@, inject->Some_0)
        }),
{
    let a = json::entry("credential_id"@, JsonView::Text(credential_id));
    let b = json::entry("url"@, JsonView::Text(url));
    let c = json::entry("approval_ref"@, JsonView::Text(request_id));
    let start = json::no_fields().push(a).push(b).push(c);
    assert(start[0] == a && start[1] == b && start[2] == c);
    assert(start.contains(f) <==> f == a || f == b || f == c);
    let mt = match method {
        Some(s) => Some(JsonView::Text(s)),
        None => None,
    };
    let m = with_opt(start, "method"@, mt);
    let h = with_opt(m, "headers"@, headers);
    let d = with_opt(h, "body"@, body);
    lemma_with_opt(start, "method"@, mt, f);
    lemma_with_opt(m, "headers"@, headers, f);
    lemma_with_opt(h, "body"@, body, f);
    lemma_with_opt(d, "inject_secret_as"@, inject, f);
}

/// A session that may go on is answered that it does, with its turns and the request.
pub proof fn continued_sessions_are_told(
    session_id: Seq<char>,
    turn_counter: u64,
    max_turns: u64,
    request_id: Seq<char>,
)
    ensures
        ({
            let m = continue_answer(session_id, turn_counter, max_turns, request_id)->Object_0;
            &&& m.contains(json::entry("ok"@, JsonView::Bool(true)))
            &&& m.contains(json::entry("approval_required"@, JsonView::Bool(false)))
            &&& m.contains(json::entry("continued"@, JsonView::Bool(true)))
            &&& m.contains(json::entry("session_id"@, JsonView::Text(session_id)))
            &&& m.contains(
                json::entry("turn_counter"@, JsonView::Number(text::decimal(turn_counter as nat))),
            )
            &&& m.contains(
                json::entry("max_turns"@, JsonView::Number(text::decimal(max_turns as nat))),
            )
            &&& m.contains(json::entry("request_id"@, JsonView::Text(request_id)))
        }),
{
    let m = continue_answer(session_id, turn_counter, max_turns, request_id)->Object_0;
    assert(m[0] == json::entry("ok"@, JsonView::Bool(true)));
    assert(m[1] == json::entry("approval_required"@, JsonView::Bool(false)));
    assert(m[2] == json::entry("continued"@, JsonView::Bool(true)));
    assert(m[3] == json::entry("session_id"@, JsonView::Text(session_id)));
    assert(m[4] == json::entry("turn_counter"@, JsonView::Number(text::decimal(turn_counter as nat))));
    assert(m[5] == json::entry("max_turns"@, JsonView::Number(text::decimal(max_turns as nat))));
    assert(m[6] == json::entry("request_id"@, JsonView::Text(request_id)));
}

/// What becomes of an approved action: commands and requests are run as tools, a session
/// goes on with an answer, and what cannot be executed is refused with its reason.
pub proof fn approved_actions_come_to_their_step(
    action: ScheduledAction,
    request_id: Seq<char>,
    r: Result<ApprovedStep, ApprovedActionError>,
)
    requires
        approved_step(action, request_id, r),
    ensures
        action is SandboxExec ==> (r matches Ok(step) && step matches ApprovedStep::RunTool {
            tool_name,
            arguments,
        } && tool_name@ == "sandbox_exec"@),
        action is CredentialRequest ==> (r matches Ok(step) && step matches ApprovedStep::RunTool {
            tool_name,
            arguments,
        } && tool_name@ == "credential_request"@),
        action is SessionContinue ==> (r matches Ok(step) && step is Answer),
        action is AgentInstall ==> (r matches Err(e) && e is LegacyInstall),
        action is SessionEscalate ==> (r matches Err(e) && e is Escalation),
        action is Other ==> (r matches Err(e) && e is Unsupported),
{
}

/// The tasks that are dropped are exactly those whose approval is not pending, in order.
pub proof fn tasks_without_a_pending_approval_are_orphans(
    tasks: Seq<Seq<char>>,
    statuses: Seq<Option<Seq<char>>>,
    i: int,
)
    requires
        tasks.len() == statuses.len(),
        0 <= i < tasks.len(),
    ensures
        statuses[i] != Some("pending"@) ==> orphans(tasks, statuses).contains(tasks[i]),
        tasks.no_duplicates() && statuses[i] == Some("pending"@) ==> !orphans(
            tasks,
            statuses,
        ).contains(tasks[i]),
    decreases tasks.len(),
{
    let d = tasks.drop_last();
    let e = statuses.drop_last();
    let now = orphans(tasks, statuses);
    let before = orphans(d, e);
    lemma_orphans_are_tasks(d, e);
    if i == tasks.len() - 1 {
        if statuses[i] != Some("pending"@) {
            assert(now[before.len() as int] == tasks[i]);
        } else if tasks.no_duplicates() {
            assert(now == before);
            if before.contains(tasks[i]) {
                assert(d.contains(tasks[i]));
                let k = choose|k: int| 0 <= k < d.len() && d[k] == tasks[i];
                assert(tasks[k] == tasks[i]);
            }
        }
    } else {
        assert(d[i] == tasks[i] && e[i] == statuses[i]);
        assert(tasks.no_duplicates() ==> d.no_duplicates());
        tasks_without_a_pending_approval_are_orphans(d, e, i);
        if statuses[i] != Some("pending"@) {
            let k = choose|k: int| 0 <= k < before.len() && before[k] == tasks[i];
            assert(now[k] == tasks[i]);
        } else if tasks.no_duplicates() && now.contains(tasks[i]) {
            let k = choose|k: int| 0 <= k < now.len() && now[k] == tasks[i];
            if k < before.len() {
                assert(before[k] == tasks[i]);
            } else {
                assert(tasks[tasks.len() - 1] == tasks[i]);
            }
        }
    }
}

proof fn lemma_orphans_are_tasks(tasks: Seq<Seq<char>>, statuses: Seq<Option<Seq<char>>>)
    requires
        tasks.len() == statuses.len(),
    ensures
        forall|k: int|
            0 <= k < orphans(tasks, statuses).len() ==> tasks.contains(
                #[trigger] orphans(tasks, statuses)[k],
            ),
    decreases tasks.len(),
{
    if tasks.len() > 0 {
        let d = tasks.drop_last();
        let e = statuses.drop_last();
        let now = orphans(tasks, statuses);
        let before = orphans(d, e);
        lemma_orphans_are_tasks(d, e);
        assert forall|k: int| 0 <= k < now.len() implies tasks.contains(#[trigger] now[k]) by {
            if k < before.len() {
                assert(now[k] == before[k]);
                let n = choose|n: int| 0 <= n < d.len() && d[n] == before[k];
                assert(tasks[n] == now[k]);
            } else {
                assert(tasks[tasks.len() - 1] == now[k]);
            }
        }
    }
}

/// The task of every saved file is listed, and only files of that kind are.
pub proof fn every_suspended_task_is_listed(names: Seq<Seq<char>>, i: int, task: Seq<char>)
    requires
        0 <= i < names.len(),
        names[i] == task + ".json"@,
        !text::finishes_with(task, ".json"@),
    ensures
        tasks_of(names).contains(task),
        tasks_of(names).len() == names.filter(
            |n: Seq<char>| text::finishes_with(n, ".json"@),
        ).len(),
    decreases names.len(),
{
    suspended_tasks_are_listed(task);
    lemma_tasks_counted(names);
    let d = names.drop_last();
    let before = tasks_of(d);
    let now = tasks_of(names);
    if i == names.len() - 1 {
        assert(now[before.len() as int] == task);
    } else {
        assert(d[i] == names[i]);
        every_suspended_task_is_listed(d, i, task);
        let k = choose|k: int| 0 <= k < before.len() && before[k] == task;
        assert(now[k] == task);
    }
}

proof fn lemma_tasks_counted(names: Seq<Seq<char>>)
    ensures
        tasks_of(names).len() == names.filter(
            |n: Seq<char>| text::finishes_with(n, ".json"@),
        ).len(),
    decreases names.len(),
{
    reveal(Seq::filter);
    if names.len() > 0 {
        lemma_tasks_counted(names.drop_last());
    }
}

} // verus!
