//! Conversation messages.

use crate::text;
use vstd::prelude::*;

verus! {

/// Who speaks in a message.
#[derive(Debug, Clone, Copy, PartialEq, Eq, Structural)]
pub enum Role {
    System,
    User,
    Assistant,
    Tool,
}

/// The wire name of a role.
pub open spec fn role_name(r: Role) -> Seq<char> {
    match r {
        Role::System => "system"@,
        Role::User => "user"@,
        Role::Assistant => "assistant"@,
        Role::Tool => "tool"@,
    }
}

impl Role {
    pub fn as_str(self) -> (r: &'static str)
        ensures
            r@ == role_name(self),
    {
        match self {
            Role::System => "system",
            Role::User => "user",
            Role::Assistant => "assistant",
            Role::Tool => "tool",
        }
    }
}

/// A tool invocation requested by the model.
#[derive(Debug)]
pub struct ToolCall {
    pub id: String,
    pub name: String,
    pub arguments: String,
}

/// The mathematical model of a [`ToolCall`].
pub struct ToolCallView {
    pub id: Seq<char>,
    pub name: Seq<char>,
    pub arguments: Seq<char>,
}

impl View for ToolCall {
    type V = ToolCallView;

    open spec fn view(&self) -> ToolCallView {
        ToolCallView { id: self.id@, name: self.name@, arguments: self.arguments@ }
    }
}

impl Clone for ToolCall {
    fn clone(&self) -> (r: ToolCall)
        ensures
            r@ == self@,
    {
        ToolCall { id: self.id.clone(), name: self.name.clone(), arguments: self.arguments.clone() }
    }
}

/// One message of a conversation.
#[derive(Debug)]
pub struct Message {
    /// Stable id of the message, where it has one.
    pub id: Option<String>,
    pub role: Role,
    pub content: String,
    pub tool_calls: Vec<ToolCall>,
    /// The call that a tool result answers.
    pub tool_call_id: Option<String>,
    pub reasoning_content: Option<String>,
    pub reasoning_details: Option<String>,
}

/// The mathematical model of a [`Message`].
pub struct MessageView {
    pub id: Option<Seq<char>>,
    pub role: Role,
    pub content: Seq<char>,
    pub tool_calls: Seq<ToolCallView>,
    pub tool_call_id: Option<Seq<char>>,
    pub reasoning_content: Option<Seq<char>>,
    pub reasoning_details: Option<Seq<char>>,
}

impl View for Message {
    type V = MessageView;

    open spec fn view(&self) -> MessageView {
        MessageView {
            id: self.id.deep_view(),
            role: self.role,
            content: self.content@,
            tool_calls: self.tool_calls@.map_values(|c: ToolCall| c@),
            tool_call_id: self.tool_call_id.deep_view(),
            reasoning_content: self.reasoning_content.deep_view(),
            reasoning_details: self.reasoning_details.deep_view(),
        }
    }
}

/// A message of `role` that holds only text.
pub open spec fn plain_message(role: Role, content: Seq<char>) -> MessageView {
    MessageView {
        id: None,
        role,
        content,
        tool_calls: Seq::empty(),
        tool_call_id: None,
        reasoning_content: None,
        reasoning_details: None,
    }
}

/// The result of a tool call, as a message.
pub open spec fn tool_result_message(call_id: Seq<char>, content: Seq<char>) -> MessageView {
    MessageView { tool_call_id: Some(call_id), ..plain_message(Role::Tool, content) }
}

/// The models of a list of messages.
pub open spec fn views(messages: Seq<Message>) -> Seq<MessageView> {
    messages.map_values(|m: Message| m@)
}

/// A message of `m` calls a tool under `id`.
pub open spec fn calls_tool(m: MessageView, id: Seq<char>) -> bool {
    exists|k: int| 0 <= k < m.tool_calls.len() && (#[trigger] m.tool_calls[k]).id == id
}

/// `m` is the result of the tool call `id`.
pub open spec fn answers_call(m: MessageView, id: Seq<char>) -> bool {
    m.role == Role::Tool && m.tool_call_id == Some(id)
}

fn clone_calls(v: &Vec<ToolCall>) -> (r: Vec<ToolCall>)
    ensures
        r@.map_values(|c: ToolCall| c@) == v@.map_values(|c: ToolCall| c@),
{
    let mut out: Vec<ToolCall> = Vec::new();
    let mut i: usize = 0;
    while i < v.len()
        invariant
            i <= v@.len(),
            out@.len() == i,
            forall|k: int| 0 <= k < i ==> (#[trigger] out@[k])@ == v@[k]@,
        decreases v@.len() - i,
    {
        out.push(v[i].clone());
        i = i + 1;
    }
    assert(out@.map_values(|c: ToolCall| c@) =~= v@.map_values(|c: ToolCall| c@));
    out
}

impl Clone for Message {
    fn clone(&self) -> (r: Message)
        ensures
            r@ == self@,
    {
        Message {
            id: text::clone_opt(&self.id),
            role: self.role,
            content: self.content.clone(),
            tool_calls: clone_calls(&self.tool_calls),
            tool_call_id: text::clone_opt(&self.tool_call_id),
            reasoning_content: text::clone_opt(&self.reasoning_content),
            reasoning_details: text::clone_opt(&self.reasoning_details),
        }
    }
}

impl Message {
    fn plain(role: Role, content: &str) -> (r: Message)
        ensures
            r@ == plain_message(role, content@),
    {
        let r = Message {
            id: None,
            role,
            content: content.to_owned(),
            tool_calls: Vec::new(),
            tool_call_id: None,
            reasoning_content: None,
            reasoning_details: None,
        };
        assert(r@.tool_calls =~= Seq::<ToolCallView>::empty());
        r
    }

    pub fn system(content: &str) -> (r: Message)
        ensures
            r@ == plain_message(Role::System, content@),
    {
        Message::plain(Role::System, content)
    }

    pub fn user(content: &str) -> (r: Message)
        ensures
            r@ == plain_message(Role::User, content@),
    {
        Message::plain(Role::User, content)
    }

    pub fn assistant(content: &str) -> (r: Message)
        ensures
            r@ == plain_message(Role::Assistant, content@),
    {
        Message::plain(Role::Assistant, content)
    }

    /// The result of the call `call_id`. The message does not carry the tool's name.
    pub fn tool_result(call_id: &str, _tool_name: &str, content: &str) -> (r: Message)
        ensures
            r@ == tool_result_message(call_id@, content@),
    {
        let mut r = Message::plain(Role::Tool, content);
        r.tool_call_id = Some(call_id.to_owned());
        r
    }

    /// Whether the message calls a tool under `id`.
    pub fn calls(&self, id: &str) -> (r: bool)
        ensures
            r == calls_tool(self@, id@),
    {
        let mut i: usize = 0;
        while i < self.tool_calls.len()
            invariant
                i <= self.tool_calls@.len(),
                forall|k: int| 0 <= k < i ==> (#[trigger] self.tool_calls@[k]).id@ != id@,
            decreases self.tool_calls@.len() - i,
        {
            if text::text_eq(self.tool_calls[i].id.as_str(), id) {
                assert(self@.tool_calls[i as int].id == id@);
                return true;
            }
            i = i + 1;
        }
        assert forall|k: int| 0 <= k < self@.tool_calls.len() implies (#[trigger] self@.tool_calls[k]).id
            != id@ by {
            assert(self@.tool_calls[k] == self.tool_calls@[k]@);
        }
        false
    }

    /// Whether the message is the result of the call `id`.
    pub fn answers(&self, id: &str) -> (r: bool)
        ensures
            r == answers_call(self@, id@),
    {
        if self.role != Role::Tool {
            return false;
        }
        match &self.tool_call_id {
            Some(t) => text::text_eq(t.as_str(), id),
            None => false,
        }
    }
}

/// Copies `messages[from..to]` to the end of `out`.
pub fn append_range(out: &mut Vec<Message>, messages: &[Message], from: usize, to: usize)
    requires
        from <= to <= messages@.len(),
    ensures
        views(final(out)@) == views(old(out)@) + views(
            messages@.subrange(from as int, to as int),
        ),
{
    let mut i: usize = from;
    let ghost start = out@;
    while i < to
        invariant
            from <= i <= to <= messages@.len(),
            views(out@) == views(start) + views(messages@.subrange(from as int, i as int)),
        decreases to - i,
    {
        let m = messages[i].clone();
        let ghost before = out@;
        out.push(m);
        i = i + 1;
        proof {
            let now = messages@.subrange(from as int, i as int);
            assert(views(out@) =~= views(before).push(m@));
            assert(views(now) =~= views(messages@.subrange(from as int, i - 1)).push(m@));
            assert(views(out@) =~= views(start) + views(now));
        }
    }
}

/// A copy of a list of messages.
pub fn clone_messages(messages: &[Message]) -> (r: Vec<Message>)
    ensures
        views(r@) == views(messages@),
{
    let mut out: Vec<Message> = Vec::new();
    append_range(&mut out, messages, 0, messages.len());
    assert(messages@.subrange(0, messages@.len() as int) =~= messages@);
    assert(views(out@) =~= views(messages@));
    out
}

/// Every role has its own name on the wire.
pub proof fn roles_have_their_names()
    ensures
        role_name(Role::System) == "system"@,
        role_name(Role::User) == "user"@,
        role_name(Role::Assistant) == "assistant"@,
        role_name(Role::Tool) == "tool"@,
{
}

/// A tool result is a tool's message that answers its call, with its content and no calls of
/// its own.
pub proof fn tool_results_answer_their_call(id: Seq<char>, content: Seq<char>)
    ensures
        tool_result_message(id, content).role == Role::Tool,
        tool_result_message(id, content).tool_call_id == Some(id),
        tool_result_message(id, content).content == content,
        tool_result_message(id, content).tool_calls.len() == 0,
        answers_call(tool_result_message(id, content), id),
        plain_message(Role::User, content).content == content,
        plain_message(Role::User, content).tool_call_id is None,
{
}

} // verus!
