//! Structural quality of compressed histories.
//!
//! A compressed history is well formed when its system messages stand first,
//! every tool result has the assistant message that called the tool, and no
//! result stands before its call. Golden sessions are replayed through
//! compression and the outcome is judged by these rules.

use crate::compression;
use crate::compression::CompressionResult;
use crate::config::ContextCompressionConfig;
use crate::llm;
use crate::llm::{Message, Role};
use crate::text;
use vstd::prelude::*;

verus! {

/// A tool call of a golden session.
#[derive(Debug)]
pub struct GoldenToolCall {
    pub id: String,
    pub name: String,
    pub arguments: String,
}

impl Clone for GoldenToolCall {
    fn clone(&self) -> (r: GoldenToolCall)
        ensures
            r == *self,
    {
        GoldenToolCall {
            id: self.id.clone(),
            name: self.name.clone(),
            arguments: self.arguments.clone(),
        }
    }
}

/// One exchange of a golden session.
#[derive(Debug)]
pub struct GoldenTurn {
    pub user_message: String,
    pub assistant_response: String,
    pub tool_calls: Vec<GoldenToolCall>,
    pub end_turn: bool,
}

/// Whether a turn ends where its record does not say.
pub fn default_end_turn() -> (r: bool)
    ensures
        r,
{
    true
}

/// A recorded session with its expected outcome.
#[derive(Debug)]
pub struct GoldenSession {
    pub id: String,
    pub description: String,
    pub system_prompt: String,
    pub turns: Vec<GoldenTurn>,
    pub expected_outcome: String,
    pub expected_tool_sequence: Vec<GoldenToolCall>,
}

/// The judgement on a compressed history.
#[derive(Debug)]
pub struct StructuralValidation {
    pub valid: bool,
    pub no_orphaned_tool_results: bool,
    pub system_messages_first: bool,
    pub summary_present: bool,
    pub messages_reduced: bool,
    pub tool_call_groups_intact: bool,
    pub original_count: usize,
    pub compressed_count: usize,
    pub issues: Vec<String>,
}

// ---------------------------------------------------------------------------
// The rules
// ---------------------------------------------------------------------------

/// No system message stands behind another message.
pub open spec fn systems_first(s: Seq<llm::MessageView>) -> bool {
    forall|i: int, j: int|
        0 <= i < j < s.len() && (#[trigger] s[j]).role == Role::System ==> (#[trigger] s[i]).role
            == Role::System
}

/// An assistant message of `s` calls the tool under `id`.
pub open spec fn has_caller(s: Seq<llm::MessageView>, id: Seq<char>) -> bool {
    exists|i: int|
        0 <= i < s.len() && (#[trigger] s[i]).role == Role::Assistant && llm::calls_tool(s[i], id)
}

/// `m` is a tool result whose call is nowhere in `s`.
pub open spec fn is_orphan(s: Seq<llm::MessageView>, m: llm::MessageView) -> bool {
    m.role == Role::Tool && m.tool_call_id is Some && !has_caller(s, m.tool_call_id->0)
}

/// Every tool result of `s` has its call in `s`.
pub open spec fn no_orphans(s: Seq<llm::MessageView>) -> bool {
    forall|j: int| 0 <= j < s.len() ==> !is_orphan(s, #[trigger] s[j])
}

/// What is reported of the orphans among `part`, messages of `s`.
pub open spec fn orphan_issues(s: Seq<llm::MessageView>, part: Seq<llm::MessageView>) -> Seq<Seq<char>>
    decreases part.len(),
{
    if part.len() == 0 {
        Seq::empty()
    } else {
        let before = orphan_issues(s, part.drop_last());
        if is_orphan(s, part.last()) {
            before.push("Orphaned tool result: "@ + part.last().tool_call_id->0)
        } else {
            before
        }
    }
}

/// A message of `s` is an earlier summary.
pub open spec fn has_summary(s: Seq<llm::MessageView>) -> bool {
    exists|i: int|
        0 <= i < s.len() && text::begins_with((#[trigger] s[i]).content, "[COMPRESSED CONTEXT"@)
}

/// The first position at or after `from` of a result of the call `id`.
pub open spec fn first_answer(s: Seq<llm::MessageView>, id: Seq<char>, from: int) -> Option<int>
    decreases s.len() - from,
{
    if from < 0 || from >= s.len() {
        None
    } else if llm::answers_call(s[from], id) {
        Some(from)
    } else {
        first_answer(s, id, from + 1)
    }
}

/// The first result of the call `id` does not stand behind message `i`.
pub open spec fn answered_early(s: Seq<llm::MessageView>, i: int, id: Seq<char>) -> bool {
    match first_answer(s, id, 0) {
        Some(j) => j <= i,
        None => false,
    }
}

/// No assistant message of `s` stands behind the first result of a call that it makes.
pub open spec fn groups_intact(s: Seq<llm::MessageView>) -> bool {
    forall|i: int, k: int|
        0 <= i < s.len() && 0 <= k < (#[trigger] s[i]).tool_calls.len() && s[i].role == Role::Assistant
            ==> !answered_early(s, i, (#[trigger] s[i].tool_calls[k]).id)
}

/// What is reported of the calls in `calls`, made in message `i`.
pub open spec fn call_issues(
    s: Seq<llm::MessageView>,
    i: int,
    calls: Seq<llm::ToolCallView>,
) -> Seq<Seq<char>>
    decreases calls.len(),
{
    if calls.len() == 0 {
        Seq::empty()
    } else {
        let before = call_issues(s, i, calls.drop_last());
        if answered_early(s, i, calls.last().id) {
            before.push("Tool result before assistant: "@ + calls.last().id)
        } else {
            before
        }
    }
}

/// What is reported of the calls in the first `n` messages.
pub open spec fn group_issues(s: Seq<llm::MessageView>, n: int) -> Seq<Seq<char>>
    decreases n,
{
    if n <= 0 {
        Seq::empty()
    } else if s[n - 1].role == Role::Assistant {
        group_issues(s, n - 1) + call_issues(s, n - 1, s[n - 1].tool_calls)
    } else {
        group_issues(s, n - 1)
    }
}

/// Everything that is reported of a compressed history, in order.
pub open spec fn structure_issues(s: Seq<llm::MessageView>) -> Seq<Seq<char>> {
    let first: Seq<Seq<char>> = if systems_first(s) {
        Seq::empty()
    } else {
        seq!["System messages are not all at the start"@]
    };
    first + orphan_issues(s, s) + group_issues(s, s.len() as int)
}

/// The history is well formed.
pub open spec fn well_structured(s: Seq<llm::MessageView>) -> bool {
    systems_first(s) && no_orphans(s) && groups_intact(s)
}

proof fn lemma_first_answer(s: Seq<llm::MessageView>, id: Seq<char>, from: int)
    requires
        0 <= from,
    ensures
        match first_answer(s, id, from) {
            Some(j) => from <= j < s.len() && llm::answers_call(s[j], id) && forall|k: int|
                from <= k < j ==> !llm::answers_call(#[trigger] s[k], id),
            None => forall|k: int| from <= k < s.len() ==> !llm::answers_call(#[trigger] s[k], id),
        },
    decreases s.len() - from,
{
    if from < s.len() && !llm::answers_call(s[from], id) {
        lemma_first_answer(s, id, from + 1);
    }
}

fn has_caller_exec(messages: &[Message], id: &str) -> (r: bool)
    ensures
        r == has_caller(llm::views(messages@), id@),
{
    let ghost s = llm::views(messages@);
    let mut i: usize = 0;
    while i < messages.len()
        invariant
            s == llm::views(messages@),
            i <= messages@.len(),
            forall|k: int|
                0 <= k < i ==> !((#[trigger] s[k]).role == Role::Assistant && llm::calls_tool(
                    s[k],
                    id@,
                )),
        decreases messages@.len() - i,
    {
        assert(s[i as int] == messages@[i as int]@);
        if messages[i].role == Role::Assistant && messages[i].calls(id) {
            return true;
        }
        i = i + 1;
    }
    false
}

fn first_answer_exec(messages: &[Message], id: &str) -> (r: Option<usize>)
    ensures
        match r {
            Some(j) => first_answer(llm::views(messages@), id@, 0) == Some(j as int),
            None => first_answer(llm::views(messages@), id@, 0) is None,
        },
{
    let ghost s = llm::views(messages@);
    let mut i: usize = 0;
    while i < messages.len()
        invariant
            s == llm::views(messages@),
            i <= messages@.len(),
            first_answer(s, id@, 0) == first_answer(s, id@, i as int),
        decreases messages@.len() - i,
    {
        assert(s[i as int] == messages@[i as int]@);
        if messages[i].answers(id) {
            return Some(i);
        }
        i = i + 1;
    }
    None
}

fn systems_first_exec(messages: &[Message]) -> (r: bool)
    ensures
        r == systems_first(llm::views(messages@)),
{
    let ghost s = llm::views(messages@);
    let mut i: usize = 0;
    while i < messages.len() && messages[i].role == Role::System
        invariant
            s == llm::views(messages@),
            i <= messages@.len(),
            forall|k: int| 0 <= k < i ==> (#[trigger] s[k]).role == Role::System,
        decreases messages@.len() - i,
    {
        i = i + 1;
    }
    let first = i;
    while i < messages.len()
        invariant
            s == llm::views(messages@),
            first <= i <= messages@.len(),
            first < messages@.len() ==> s[first as int].role != Role::System,
            forall|k: int| 0 <= k < first ==> (#[trigger] s[k]).role == Role::System,
            forall|k: int| first <= k < i ==> (#[trigger] s[k]).role != Role::System,
        decreases messages@.len() - i,
    {
        if messages[i].role == Role::System {
            assert(s[i as int].role == Role::System);
            assert(s[first as int].role != Role::System);
            return false;
        }
        i = i + 1;
    }
    true
}

fn has_summary_exec(messages: &[Message]) -> (r: bool)
    ensures
        r == has_summary(llm::views(messages@)),
{
    let ghost s = llm::views(messages@);
    let mut i: usize = 0;
    while i < messages.len()
        invariant
            s == llm::views(messages@),
            i <= messages@.len(),
            forall|k: int|
                0 <= k < i ==> !text::begins_with((#[trigger] s[k]).content, "[COMPRESSED CONTEXT"@),
        decreases messages@.len() - i,
    {
        if text::starts_with(messages[i].content.as_str(), "[COMPRESSED CONTEXT") {
            assert(text::begins_with(s[i as int].content, "[COMPRESSED CONTEXT"@));
            return true;
        }
        i = i + 1;
    }
    false
}

fn push_issue(issues: &mut Vec<String>, what: &str, id: &str)
    ensures
        final(issues).deep_view() == old(issues).deep_view().push(what@ + id@),
{
    let mut t = what.to_owned();
    t.append(id);
    issues.push(t);
    assert(issues.deep_view() =~= old(issues).deep_view().push(what@ + id@));
}

/// `v` judges the compressed history `s` of `original` messages.
pub open spec fn is_judgement(
    v: StructuralValidation,
    original: nat,
    s: Seq<llm::MessageView>,
) -> bool {
    &&& v.system_messages_first == systems_first(s)
    &&& v.no_orphaned_tool_results == no_orphans(s)
    &&& v.tool_call_groups_intact == groups_intact(s)
    &&& v.valid == well_structured(s)
    &&& v.summary_present == has_summary(s)
    &&& v.messages_reduced == (s.len() < original)
    &&& v.original_count == original
    &&& v.compressed_count == s.len()
    &&& v.issues.deep_view() == structure_issues(s)
}

/// Judges the structure of a compressed history.
pub fn validate_compressed_history(original: &[Message], compressed: &[Message]) -> (r:
    StructuralValidation)
    ensures
        is_judgement(r, original@.len(), llm::views(compressed@)),
{
    let ghost s = llm::views(compressed@);
    let mut issues: Vec<String> = Vec::new();
    assert(issues.deep_view() =~= Seq::<Seq<char>>::empty());
    let system_messages_first = systems_first_exec(compressed);
    if !system_messages_first {
        issues.push("System messages are not all at the start".to_owned());
    }
    let ghost first: Seq<Seq<char>> = if systems_first(s) {
        Seq::empty()
    } else {
        seq!["System messages are not all at the start"@]
    };
    assert(issues.deep_view() =~= first);
    let mut no_orphaned_tool_results = true;
    let mut i: usize = 0;
    assert(first + orphan_issues(s, s.subrange(0, 0)) =~= first);
    while i < compressed.len()
        invariant
            s == llm::views(compressed@),
            i <= compressed@.len(),
            no_orphaned_tool_results == (forall|j: int| 0 <= j < i ==> !is_orphan(s, #[trigger] s[j])),
            issues.deep_view() == first + orphan_issues(s, s.subrange(0, i as int)),
        decreases compressed@.len() - i,
    {
        let m = &compressed[i];
        let ghost before = issues.deep_view();
        proof {
            let t = s.subrange(0, i + 1);
            assert(t.drop_last() =~= s.subrange(0, i as int));
            assert(t.last() == m@);
            assert(s[i as int] == m@);
        }
        if m.role == Role::Tool {
            match &m.tool_call_id {
                Some(id) => {
                    if !has_caller_exec(compressed, id.as_str()) {
                        no_orphaned_tool_results = false;
                        push_issue(&mut issues, "Orphaned tool result: ", id.as_str());
                        assert(is_orphan(s, s[i as int]));
                    }
                },
                None => {},
            }
        }
        assert(issues.deep_view() =~= first + orphan_issues(s, s.subrange(0, i + 1)));
        i = i + 1;
    }
    assert(s.subrange(0, i as int) =~= s);
    let summary_present = has_summary_exec(compressed);
    let messages_reduced = compressed.len() < original.len();
    let mut tool_call_groups_intact = true;
    let ghost sofar = issues.deep_view();
    assert(sofar + group_issues(s, 0) =~= sofar);
    let mut i: usize = 0;
    while i < compressed.len()
        invariant
            s == llm::views(compressed@),
            i <= compressed@.len(),
            tool_call_groups_intact == (forall|j: int, k: int|
                0 <= j < i && 0 <= k < (#[trigger] s[j]).tool_calls.len() && s[j].role
                    == Role::Assistant ==> !answered_early(s, j, (#[trigger] s[j].tool_calls[k]).id)),
            issues.deep_view() == sofar + group_issues(s, i as int),
        decreases compressed@.len() - i,
    {
        let m = &compressed[i];
        assert(s[i as int] == m@);
        if m.role == Role::Assistant {
            let ghost calls = m@.tool_calls;
            let ghost so_intact = tool_call_groups_intact;
            let ghost done = issues.deep_view();
            let mut k: usize = 0;
            assert(done + call_issues(s, i as int, calls.subrange(0, 0)) =~= done);
            while k < m.tool_calls.len()
                invariant
                    s == llm::views(compressed@),
                    calls == m@.tool_calls,
                    k <= m.tool_calls@.len(),
                    tool_call_groups_intact == (so_intact && forall|l: int|
                        0 <= l < k ==> !answered_early(s, i as int, (#[trigger] calls[l]).id)),
                    issues.deep_view() == done + call_issues(
                        s,
                        i as int,
                        calls.subrange(0, k as int),
                    ),
                decreases m.tool_calls@.len() - k,
            {
                proof {
                    let t = calls.subrange(0, k + 1);
                    assert(t.drop_last() =~= calls.subrange(0, k as int));
                    assert(t.last() == m.tool_calls@[k as int]@);
                    assert(calls[k as int] == m.tool_calls@[k as int]@);
                }
                match first_answer_exec(compressed, m.tool_calls[k].id.as_str()) {
                    Some(tr) => {
                        if tr <= i {
                            tool_call_groups_intact = false;
                            push_issue(
                                &mut issues,
                                "Tool result before assistant: ",
                                m.tool_calls[k].id.as_str(),
                            );
                            assert(answered_early(s, i as int, calls[k as int].id));
                        }
                    },
                    None => {},
                }
                assert(issues.deep_view() =~= done + call_issues(
                    s,
                    i as int,
                    calls.subrange(0, k + 1),
                ));
                k = k + 1;
            }
            proof {
                assert(calls.subrange(0, k as int) =~= calls);
                assert(issues.deep_view() =~= sofar + group_issues(s, i + 1));
                assert(tool_call_groups_intact == (forall|j: int, k: int|
                    0 <= j < i + 1 && 0 <= k < (#[trigger] s[j]).tool_calls.len() && s[j].role
                        == Role::Assistant ==> !answered_early(
                        s,
                        j,
                        (#[trigger] s[j].tool_calls[k]).id,
                    ))) by {
                    if so_intact && !tool_call_groups_intact {
                        let l = choose|l: int|
                            0 <= l < k && answered_early(s, i as int, (#[trigger] calls[l]).id);
                        assert(answered_early(s, i as int, s[i as int].tool_calls[l].id));
                    }
                }
            }
        }
        i = i + 1;
    }
    let valid = no_orphaned_tool_results && system_messages_first && tool_call_groups_intact;
    StructuralValidation {
        valid,
        no_orphaned_tool_results,
        system_messages_first,
        summary_present,
        messages_reduced,
        tool_call_groups_intact,
        original_count: original.len(),
        compressed_count: compressed.len(),
        issues,
    }
}

// ---------------------------------------------------------------------------
// Compression keeps the structure
// ---------------------------------------------------------------------------

/// Position in `t` of its `b`-th message that is not a system message.
pub open spec fn kept_position(t: Seq<llm::MessageView>, b: int) -> int {
    compression::prefix_with(t, (b + 1) as nat) - 1
}

proof fn lemma_non_systems(t: Seq<llm::MessageView>)
    ensures
        compression::non_systems(t).len() == compression::non_system_count(t),
        forall|b: int|
            0 <= b < compression::non_systems(t).len() ==> {
                let p = #[trigger] kept_position(t, b);
                &&& 0 <= p < t.len()
                &&& t[p].role != Role::System
                &&& compression::non_systems(t)[b] == t[p]
            },
        forall|b: int, c: int|
            0 <= b < c < compression::non_systems(t).len() ==> #[trigger] kept_position(t, b)
                < #[trigger] kept_position(t, c),
        forall|p: int|
            0 <= p < t.len() && (#[trigger] t[p]).role != Role::System ==> exists|b: int|
                0 <= b < compression::non_systems(t).len() && #[trigger] kept_position(t, b) == p,
    decreases t.len(),
{
    if t.len() > 0 {
        let d = t.drop_last();
        lemma_non_systems(d);
        let n = compression::non_systems(d).len() as int;
        assert forall|b: int| 0 <= b < n implies #[trigger] kept_position(t, b) == kept_position(d, b) by {
        }
        if t.last().role != Role::System {
            assert(kept_position(t, n) == t.len() - 1);
        }
        assert forall|b: int| 0 <= b < compression::non_systems(t).len() implies {
            let p = #[trigger] kept_position(t, b);
            &&& 0 <= p < t.len()
            &&& t[p].role != Role::System
            &&& compression::non_systems(t)[b] == t[p]
        } by {
            if b < n {
                assert(kept_position(t, b) == kept_position(d, b));
                assert(d[kept_position(d, b)] == t[kept_position(t, b)]);
            }
        }
        assert forall|b: int, c: int| 0 <= b < c < compression::non_systems(t).len() implies #[trigger] kept_position(
            t,
            b,
        ) < #[trigger] kept_position(t, c) by {
            assert(kept_position(t, b) == kept_position(d, b));
            assert(0 <= kept_position(d, b) < d.len());
            if c < n {
                assert(kept_position(t, c) == kept_position(d, c));
            }
        }
        assert forall|p: int| 0 <= p < t.len() && (#[trigger] t[p]).role != Role::System implies exists|b: int|
            0 <= b < compression::non_systems(t).len() && #[trigger] kept_position(t, b) == p by {
            if p < d.len() {
                assert(d[p].role != Role::System);
                let b = choose|b: int|
                    0 <= b < compression::non_systems(d).len() && #[trigger] kept_position(d, b) == p;
                assert(kept_position(t, b) == p);
            } else {
                assert(kept_position(t, n) == p);
            }
        }
    }
}

proof fn lemma_systems(t: Seq<llm::MessageView>)
    ensures
        forall|i: int|
            0 <= i < compression::systems(t).len() ==> (#[trigger] compression::systems(t)[i]).role
                == Role::System,
    decreases t.len(),
{
    if t.len() > 0 {
        lemma_systems(t.drop_last());
    }
}

/// Compressing a history in which every tool result has its call, and stands
/// behind it, gives a well formed history that holds a summary.
pub proof fn compression_keeps_the_structure(
    s: Seq<llm::MessageView>,
    recent: nat,
    turn: nat,
    summary: Seq<char>,
)
    requires
        no_orphans(s),
        groups_intact(s),
    ensures
        ({
            let c = compression::compressed_history(
                s,
                compression::split_point(s, recent),
                turn,
                summary,
            );
            well_structured(c) && has_summary(c)
        }),
{
    let split = compression::split_point(s, recent);
    compression::split_never_parts_a_tool_group(s, recent);
    let kept = s.subrange(split, s.len() as int);
    let a = compression::systems(s);
    let m = compression::summary_message(turn, summary);
    let b = compression::non_systems(kept);
    let c = compression::compressed_history(s, split, turn, summary);
    let off = a.len() as int + 1;
    lemma_systems(s);
    lemma_non_systems(kept);
    assert forall|x: int| off <= x < c.len() implies {
        let p = #[trigger] kept_position(kept, x - off);
        c[x] == s[split + p] && split <= split + p < s.len() && c[x].role != Role::System
    } by {
        let p = kept_position(kept, x - off);
        assert(c[x] == b[x - off]);
        assert(b[x - off] == kept[p]);
        assert(kept[p] == s[split + p]);
    }
    assert forall|x: int| 0 <= x < a.len() implies (#[trigger] c[x]).role == Role::System by {
        assert(c[x] == a[x]);
    }
    assert(c[a.len() as int] == m);
    assert(systems_first(c)) by {
        assert forall|i: int, j: int|
            0 <= i < j < c.len() && (#[trigger] c[j]).role == Role::System implies (#[trigger] c[i]).role
            == Role::System by {
            if j >= off {
                let p = kept_position(kept, j - off);
                assert(c[j] == s[split + p]);
            }
        }
    }
    assert(no_orphans(c)) by {
        assert forall|j: int| 0 <= j < c.len() implies !is_orphan(c, #[trigger] c[j]) by {
            if c[j].role == Role::Tool && c[j].tool_call_id is Some {
                let q = split + kept_position(kept, j - off);
                assert(c[j] == s[q]);
                assert(!is_orphan(s, s[q]));
                let id = c[j].tool_call_id->0;
                let i = choose|i: int|
                    0 <= i < s.len() && (#[trigger] s[i]).role == Role::Assistant && llm::calls_tool(
                        s[i],
                        id,
                    );
                if i < split {
                    assert(compression::parted(s, split, i, q));
                }
                assert(kept[i - split] == s[i]);
                let k = choose|k: int|
                    0 <= k < b.len() && #[trigger] kept_position(kept, k) == i - split;
                let x = off + k;
                assert(kept_position(kept, x - off) == i - split);
                assert(c[x] == s[i]);
            }
        }
    }
    assert(groups_intact(c)) by {
        assert forall|x: int, k: int|
            0 <= x < c.len() && 0 <= k < (#[trigger] c[x]).tool_calls.len() && c[x].role
                == Role::Assistant implies !answered_early(c, x, (#[trigger] c[x].tool_calls[k]).id) by {
            let id = c[x].tool_calls[k].id;
            let i = split + kept_position(kept, x - off);
            assert(c[x] == s[i]);
            lemma_first_answer(c, id, 0);
            lemma_first_answer(s, id, 0);
            if answered_early(c, x, id) {
                let y = first_answer(c, id, 0)->0;
                let j = split + kept_position(kept, y - off);
                assert(c[y] == s[j]);
                if y < x {
                    assert(kept_position(kept, y - off) < kept_position(kept, x - off));
                }
                assert(llm::answers_call(s[j], id));
                assert(answered_early(s, i, s[i].tool_calls[k].id));
            }
        }
    }
    assert(has_summary(c)) by {
        let marker = "[COMPRESSED CONTEXT"@;
        reveal_strlit("[COMPRESSED CONTEXT");
        reveal_strlit("[COMPRESSED CONTEXT - Turn ");
        let x = a.len() as int;
        assert(c[x].content.subrange(0, marker.len() as int) =~= marker);
        assert(text::begins_with(c[x].content, marker));
    }
}

// ---------------------------------------------------------------------------
// Golden sessions
// ---------------------------------------------------------------------------

/// The messages that a golden turn's tool calls leave behind.
pub open spec fn golden_results(calls: Seq<GoldenToolCall>) -> Seq<llm::MessageView> {
    calls.map_values(|c: GoldenToolCall| llm::tool_result_message(c.id@, "result"@))
}

/// The messages of the golden turns, in order.
pub open spec fn golden_messages(turns: Seq<GoldenTurn>) -> Seq<llm::MessageView>
    decreases turns.len(),
{
    if turns.len() == 0 {
        Seq::empty()
    } else {
        let t = turns.last();
        golden_messages(turns.drop_last()).push(
            llm::plain_message(Role::User, t.user_message@),
        ).push(llm::plain_message(Role::Assistant, t.assistant_response@)) + golden_results(
            t.tool_calls@,
        )
    }
}

/// The tool calls of the golden turns, in order.
pub open spec fn golden_calls(turns: Seq<GoldenTurn>) -> Seq<GoldenToolCall>
    decreases turns.len(),
{
    if turns.len() == 0 {
        Seq::empty()
    } else {
        golden_calls(turns.drop_last()) + turns.last().tool_calls@
    }
}

/// Replays a golden session: its history and the tool calls it makes.
pub fn golden_history(session: &GoldenSession) -> (r: (Vec<Message>, Vec<GoldenToolCall>))
    ensures
        llm::views(r.0@) == seq![llm::plain_message(Role::System, session.system_prompt@)]
            + golden_messages(session.turns@),
        r.1@ == golden_calls(session.turns@),
{
    let mut history: Vec<Message> = Vec::new();
    let mut calls: Vec<GoldenToolCall> = Vec::new();
    let first = Message::system(session.system_prompt.as_str());
    history.push(first);
    let ghost head = seq![llm::plain_message(Role::System, session.system_prompt@)];
    assert(llm::views(history@) =~= head);
    assert(head + golden_messages(session.turns@.subrange(0, 0)) =~= head);
    let mut i: usize = 0;
    while i < session.turns.len()
        invariant
            i <= session.turns@.len(),
            llm::views(history@) == head + golden_messages(session.turns@.subrange(0, i as int)),
            calls@ == golden_calls(session.turns@.subrange(0, i as int)),
        decreases session.turns@.len() - i,
    {
        let turn = &session.turns[i];
        let ghost done = llm::views(history@);
        let ghost before = calls@;
        let u = Message::user(turn.user_message.as_str());
        let a = Message::assistant(turn.assistant_response.as_str());
        history.push(u);
        history.push(a);
        let ghost opened = done.push(u@).push(a@);
        assert(llm::views(history@) =~= opened);
        assert(opened + golden_results(turn.tool_calls@.subrange(0, 0)) =~= opened);
        let mut k: usize = 0;
        while k < turn.tool_calls.len()
            invariant
                k <= turn.tool_calls@.len(),
                llm::views(history@) == opened + golden_results(
                    turn.tool_calls@.subrange(0, k as int),
                ),
                calls@ == before + turn.tool_calls@.subrange(0, k as int),
            decreases turn.tool_calls@.len() - k,
        {
            let tc = &turn.tool_calls[k];
            let ghost now = history@;
            calls.push(tc.clone());
            let m = Message::tool_result(tc.id.as_str(), tc.name.as_str(), "result");
            history.push(m);
            k = k + 1;
            proof {
                let part = turn.tool_calls@.subrange(0, k as int);
                assert(part =~= turn.tool_calls@.subrange(0, k - 1).push(*tc));
                assert(llm::views(history@) =~= llm::views(now).push(m@));
                assert(golden_results(part) =~= golden_results(
                    turn.tool_calls@.subrange(0, k - 1),
                ).push(m@));
                assert(llm::views(history@) =~= opened + golden_results(part));
                assert(calls@ =~= before + part);
            }
        }
        proof {
            assert(turn.tool_calls@.subrange(0, k as int) =~= turn.tool_calls@);
            let t = session.turns@.subrange(0, i + 1);
            assert(t.drop_last() =~= session.turns@.subrange(0, i as int));
            assert(llm::views(history@) =~= head + golden_messages(t));
        }
        i = i + 1;
    }
    assert(session.turns@.subrange(0, i as int) =~= session.turns@);
    (history, calls)
}

/// Every call has a result in `s`.
pub open spec fn calls_answered(calls: Seq<GoldenToolCall>, s: Seq<llm::MessageView>) -> bool {
    forall|k: int|
        0 <= k < calls.len() ==> first_answer(s, (#[trigger] calls[k]).id@, 0) is Some
}

/// Whether every tool call of the original still has its result.
pub fn check_tool_sequence_preserved(original: &[GoldenToolCall], compressed: &[Message]) -> (r: bool)
    ensures
        r == calls_answered(original@, llm::views(compressed@)),
{
    let mut i: usize = 0;
    while i < original.len()
        invariant
            i <= original@.len(),
            forall|k: int|
                0 <= k < i ==> first_answer(
                    llm::views(compressed@),
                    (#[trigger] original@[k]).id@,
                    0,
                ) is Some,
        decreases original@.len() - i,
    {
        if first_answer_exec(compressed, original[i].id.as_str()).is_none() {
            return false;
        }
        i = i + 1;
    }
    true
}

/// The judgement on one golden session.
#[derive(Debug)]
pub struct QualityReport {
    pub session_id: String,
    pub compressed: bool,
    pub validation: Option<StructuralValidation>,
    /// Every tool call of the original still has its result.
    pub tool_sequence_preserved: bool,
    pub issues: Vec<String>,
}

/// What is reported of a compressed golden session.
pub open spec fn report_issues(
    calls: Seq<GoldenToolCall>,
    s: Seq<llm::MessageView>,
) -> Seq<Seq<char>> {
    let a = structure_issues(s);
    let b = if well_structured(s) {
        a
    } else {
        a.push("Structural validation failed"@)
    };
    if calls_answered(calls, s) {
        b
    } else {
        b.push("Tool call sequence not preserved in compressed history"@)
    }
}

fn push_text(v: &mut Vec<String>, t: &str)
    ensures
        final(v).deep_view() == old(v).deep_view().push(t@),
{
    v.push(t.to_owned());
    assert(v.deep_view() =~= old(v).deep_view().push(t@));
}

/// Reports on a golden session from the outcome of its compression, or from
/// the message of the error that compression ended in.
pub fn quality_report(
    session: &GoldenSession,
    history: &[Message],
    calls: &[GoldenToolCall],
    outcome: Result<&CompressionResult, &str>,
) -> (r: QualityReport)
    ensures
        r.session_id == session.id,
        match outcome {
            Err(e) => {
                &&& !r.compressed
                &&& r.validation is None
                &&& r.tool_sequence_preserved
                &&& r.issues.deep_view() == seq!["Compression failed: "@ + e@]
            },
            Ok(c) => if c.compressed {
                let s = llm::views(c.history@);
                &&& r.compressed
                &&& r.validation is Some
                &&& is_judgement(r.validation->0, history@.len(), s)
                &&& r.tool_sequence_preserved == calls_answered(calls@, s)
                &&& r.issues.deep_view() == report_issues(calls@, s)
            } else {
                &&& !r.compressed
                &&& r.validation is None
                &&& r.tool_sequence_preserved
                &&& r.issues.deep_view() == seq![
                    "Compression not triggered (threshold not exceeded or no LLM configured)"@,
                ]
            },
        },
{
    let mut issues: Vec<String> = Vec::new();
    assert(issues.deep_view() =~= Seq::<Seq<char>>::empty());
    match outcome {
        Err(e) => {
            push_issue(&mut issues, "Compression failed: ", e);
            QualityReport {
                session_id: session.id.clone(),
                compressed: false,
                validation: None,
                tool_sequence_preserved: true,
                issues,
            }
        },
        Ok(c) => {
            if !c.compressed {
                push_text(
                    &mut issues,
                    "Compression not triggered (threshold not exceeded or no LLM configured)",
                );
                return QualityReport {
                    session_id: session.id.clone(),
                    compressed: false,
                    validation: None,
                    tool_sequence_preserved: true,
                    issues,
                };
            }
            let validation = validate_compressed_history(history, c.history.as_slice());
            let preserved = check_tool_sequence_preserved(calls, c.history.as_slice());
            let mut all = text::clone_all(&validation.issues);
            if !validation.valid {
                push_text(&mut all, "Structural validation failed");
            }
            if !preserved {
                push_text(&mut all, "Tool call sequence not preserved in compressed history");
            }
            QualityReport {
                session_id: session.id.clone(),
                compressed: true,
                validation: Some(validation),
                tool_sequence_preserved: preserved,
                issues: all,
            }
        },
    }
}

/// Bit pattern of the `f64` value 50.0, the threshold of the test settings.
pub const TEST_THRESHOLD_BITS: u64 = 0x4049_0000_0000_0000;

/// The settings under which recorded sessions are compressed: the given threshold,
/// and the given number of turns between compressions.
pub open spec fn is_scan_config(
    c: ContextCompressionConfig,
    threshold_pct_bits: u64,
    min_turns: u64,
) -> bool {
    &&& c.enabled
    &&& c.llm_preset.deep_view() == Some("haiku"@)
    &&& c.provider is None
    &&& c.model is None
    &&& c.threshold_pct_bits == threshold_pct_bits
    &&& c.recent_turns_to_keep == 3
    &&& c.max_summary_tokens == 500
    &&& c.min_turns_between_compression == min_turns
    &&& c.max_capsule_decisions == 30
    &&& c.max_completed_tasks == 10
}

fn scan_settings(threshold_pct_bits: u64, min_turns: u64) -> (r: ContextCompressionConfig)
    ensures
        is_scan_config(r, threshold_pct_bits, min_turns),
{
    ContextCompressionConfig {
        enabled: true,
        llm_preset: Some("haiku".to_owned()),
        provider: None,
        model: None,
        threshold_pct_bits,
        recent_turns_to_keep: 3,
        max_summary_tokens: 500,
        min_turns_between_compression: min_turns,
        max_capsule_decisions: 30,
        max_completed_tasks: 10,
    }
}

/// The settings for one threshold of a scan: a session may be compressed at every
/// turn.
pub fn threshold_scan_config(threshold_pct_bits: u64) -> (r: ContextCompressionConfig)
    ensures
        is_scan_config(r, threshold_pct_bits, 0),
{
    scan_settings(threshold_pct_bits, 0)
}

/// The settings of tests.
pub fn default_test_compression_config() -> (r: ContextCompressionConfig)
    ensures
        is_scan_config(r, TEST_THRESHOLD_BITS, 3),
{
    scan_settings(TEST_THRESHOLD_BITS, 3)
}

// ---------------------------------------------------------------------------
// Laws of judgements
// ---------------------------------------------------------------------------

/// A tool result that no assistant message of the history calls for is reported by its call,
/// and the history is not well formed.
pub proof fn results_without_a_call_are_reported(s: Seq<llm::MessageView>, j: int, id: Seq<char>)
    requires
        0 <= j < s.len(),
        s[j].role == Role::Tool,
        s[j].tool_call_id == Some(id),
        forall|i: int, k: int|
            0 <= i < s.len() && s[i].role == Role::Assistant && 0 <= k < (
            #[trigger] s[i]).tool_calls.len() ==> (#[trigger] s[i].tool_calls[k]).id != id,
    ensures
        structure_issues(s).contains("Orphaned tool result: "@ + id),
        !well_structured(s),
{
    if has_caller(s, id) {
        let i = choose|i: int|
            0 <= i < s.len() && (#[trigger] s[i]).role == Role::Assistant && llm::calls_tool(
                s[i],
                id,
            );
        let m = s[i];
        let k = choose|k: int| 0 <= k < m.tool_calls.len() && (#[trigger] m.tool_calls[k]).id == id;
        assert(s[i].tool_calls[k].id != id);
    }
    assert(is_orphan(s, s[j]));
    lemma_orphan_reported(s, s, j);
    let v = orphan_issues(s, s);
    let k = choose|k: int| 0 <= k < v.len() && v[k] == "Orphaned tool result: "@ + id;
    let first: Seq<Seq<char>> = if systems_first(s) {
        Seq::empty()
    } else {
        seq!["System messages are not all at the start"@]
    };
    assert(structure_issues(s)[first.len() + k] == v[k]);
}

proof fn lemma_orphan_reported(s: Seq<llm::MessageView>, part: Seq<llm::MessageView>, j: int)
    requires
        0 <= j < part.len(),
        is_orphan(s, part[j]),
    ensures
        orphan_issues(s, part).contains("Orphaned tool result: "@ + part[j].tool_call_id->0),
    decreases part.len(),
{
    let d = part.drop_last();
    let before = orphan_issues(s, d);
    let now = orphan_issues(s, part);
    if j == part.len() - 1 {
        assert(now[before.len() as int] == "Orphaned tool result: "@ + part[j].tool_call_id->0);
    } else {
        assert(d[j] == part[j]);
        lemma_orphan_reported(s, d, j);
        let k = choose|k: int|
            0 <= k < before.len() && before[k] == "Orphaned tool result: "@ + d[j].tool_call_id->0;
        assert(now[k] == before[k]);
    }
}

/// A system message behind another message is reported.
pub proof fn late_system_messages_are_reported(s: Seq<llm::MessageView>, i: int, j: int)
    requires
        0 <= i < j < s.len(),
        s[i].role != Role::System,
        s[j].role == Role::System,
    ensures
        structure_issues(s).contains("System messages are not all at the start"@),
        !well_structured(s),
{
    assert(!systems_first(s));
    assert(structure_issues(s)[0] == "System messages are not all at the start"@);
}

/// A tool result that stands before every other result of its call, and before the assistant
/// message that makes the call, is reported by the call.
pub proof fn results_before_their_call_are_reported(
    s: Seq<llm::MessageView>,
    j: int,
    i: int,
    k: int,
)
    requires
        0 <= j < i < s.len(),
        s[i].role == Role::Assistant,
        0 <= k < s[i].tool_calls.len(),
        s[j].role == Role::Tool,
        s[j].tool_call_id == Some(s[i].tool_calls[k].id),
    ensures
        structure_issues(s).contains("Tool result before assistant: "@ + s[i].tool_calls[k].id),
        !well_structured(s),
{
    let id = s[i].tool_calls[k].id;
    lemma_answered_by(s, id, 0, j);
    assert(answered_early(s, i, id));
    lemma_call_reported(s, i, s[i].tool_calls, k);
    lemma_group_reported(s, s.len() as int, i, "Tool result before assistant: "@ + id);
    let v = group_issues(s, s.len() as int);
    let p = choose|p: int| 0 <= p < v.len() && v[p] == "Tool result before assistant: "@ + id;
    let first: Seq<Seq<char>> = if systems_first(s) {
        Seq::empty()
    } else {
        seq!["System messages are not all at the start"@]
    };
    assert(structure_issues(s)[first.len() + orphan_issues(s, s).len() + p] == v[p]);
    assert(!groups_intact(s)) by {
        assert(s[i].tool_calls[k].id == id);
    }
}

proof fn lemma_answered_by(s: Seq<llm::MessageView>, id: Seq<char>, from: int, j: int)
    requires
        0 <= from <= j < s.len(),
        llm::answers_call(s[j], id),
    ensures
        first_answer(s, id, from) is Some,
        first_answer(s, id, from)->Some_0 <= j,
    decreases j - from,
{
    if !llm::answers_call(s[from], id) {
        lemma_answered_by(s, id, from + 1, j);
    }
}

proof fn lemma_call_reported(
    s: Seq<llm::MessageView>,
    i: int,
    calls: Seq<llm::ToolCallView>,
    k: int,
)
    requires
        0 <= k < calls.len(),
        answered_early(s, i, calls[k].id),
    ensures
        call_issues(s, i, calls).contains("Tool result before assistant: "@ + calls[k].id),
    decreases calls.len(),
{
    let d = calls.drop_last();
    let before = call_issues(s, i, d);
    let now = call_issues(s, i, calls);
    if k == calls.len() - 1 {
        assert(now[before.len() as int] == "Tool result before assistant: "@ + calls[k].id);
    } else {
        assert(d[k] == calls[k]);
        lemma_call_reported(s, i, d, k);
        let p = choose|p: int|
            0 <= p < before.len() && before[p] == "Tool result before assistant: "@ + d[k].id;
        assert(now[p] == before[p]);
    }
}

proof fn lemma_group_reported(s: Seq<llm::MessageView>, n: int, i: int, t: Seq<char>)
    requires
        0 <= i < n <= s.len(),
        s[i].role == Role::Assistant,
        call_issues(s, i, s[i].tool_calls).contains(t),
    ensures
        group_issues(s, n).contains(t),
    decreases n,
{
    let before = group_issues(s, n - 1);
    let now = group_issues(s, n);
    if i == n - 1 {
        let v = call_issues(s, i, s[i].tool_calls);
        let p = choose|p: int| 0 <= p < v.len() && v[p] == t;
        assert(now[before.len() + p] == t);
    } else {
        lemma_group_reported(s, n - 1, i, t);
        let p = choose|p: int| 0 <= p < before.len() && before[p] == t;
        assert(now[p] == t);
    }
}

/// Nothing is reported of a well formed history.
pub proof fn well_formed_histories_have_no_issues(s: Seq<llm::MessageView>)
    requires
        well_structured(s),
    ensures
        structure_issues(s).len() == 0,
{
    lemma_no_orphan_issues(s, s.len() as int);
    assert(s.subrange(0, s.len() as int) =~= s);
    lemma_no_group_issues(s, s.len() as int);
}

proof fn lemma_no_orphan_issues(s: Seq<llm::MessageView>, n: int)
    requires
        no_orphans(s),
        0 <= n <= s.len(),
    ensures
        orphan_issues(s, s.subrange(0, n)).len() == 0,
    decreases n,
{
    if n > 0 {
        lemma_no_orphan_issues(s, n - 1);
        assert(s.subrange(0, n).drop_last() =~= s.subrange(0, n - 1));
        assert(s.subrange(0, n).last() == s[n - 1]);
    }
}

proof fn lemma_no_call_issues(s: Seq<llm::MessageView>, i: int, n: int)
    requires
        groups_intact(s),
        0 <= i < s.len(),
        s[i].role == Role::Assistant,
        0 <= n <= s[i].tool_calls.len(),
    ensures
        call_issues(s, i, s[i].tool_calls.subrange(0, n)).len() == 0,
    decreases n,
{
    if n > 0 {
        lemma_no_call_issues(s, i, n - 1);
        let calls = s[i].tool_calls;
        assert(calls.subrange(0, n).drop_last() =~= calls.subrange(0, n - 1));
        assert(calls.subrange(0, n).last() == s[i].tool_calls[n - 1]);
    }
}

proof fn lemma_no_group_issues(s: Seq<llm::MessageView>, n: int)
    requires
        groups_intact(s),
        0 <= n <= s.len(),
    ensures
        group_issues(s, n).len() == 0,
    decreases n,
{
    if n > 0 {
        lemma_no_group_issues(s, n - 1);
        if s[n - 1].role == Role::Assistant {
            let calls = s[n - 1].tool_calls;
            lemma_no_call_issues(s, n - 1, calls.len() as int);
            assert(calls.subrange(0, calls.len() as int) =~= calls);
        }
    }
}

/// A call of a recorded session that has no result in the compressed history is reported.
pub proof fn unanswered_calls_are_reported(
    calls: Seq<GoldenToolCall>,
    s: Seq<llm::MessageView>,
    k: int,
)
    requires
        0 <= k < calls.len(),
        forall|j: int|
            0 <= j < s.len() ==> (#[trigger] s[j]).role != Role::Tool || s[j].tool_call_id != Some(
                calls[k].id@,
            ),
    ensures
        report_issues(calls, s).contains(
            "Tool call sequence not preserved in compressed history"@,
        ),
{
    lemma_never_answered(s, calls[k].id@, 0);
    assert(!calls_answered(calls, s));
    let v = report_issues(calls, s);
    assert(v.last() == "Tool call sequence not preserved in compressed history"@);
    assert(v[v.len() - 1] == v.last());
}

proof fn lemma_never_answered(s: Seq<llm::MessageView>, id: Seq<char>, from: int)
    requires
        0 <= from,
        forall|j: int|
            0 <= j < s.len() ==> (#[trigger] s[j]).role != Role::Tool || s[j].tool_call_id != Some(
                id,
            ),
    ensures
        first_answer(s, id, from) is None,
    decreases s.len() - from,
{
    if from < s.len() {
        assert(!llm::answers_call(s[from], id));
        lemma_never_answered(s, id, from + 1);
    }
}

/// What is wrong with the structure of a compressed session is reported, and that it is.
pub proof fn reports_hold_the_structure_issues(
    calls: Seq<GoldenToolCall>,
    s: Seq<llm::MessageView>,
    k: int,
)
    ensures
        0 <= k < structure_issues(s).len() ==> report_issues(calls, s)[k] == structure_issues(s)[k],
        !well_structured(s) ==> report_issues(calls, s).contains("Structural validation failed"@),
        well_structured(s) && calls_answered(calls, s) ==> report_issues(calls, s).len() == 0,
{
    if well_structured(s) {
        well_formed_histories_have_no_issues(s);
    } else {
        assert(report_issues(calls, s)[structure_issues(s).len() as int]
            == "Structural validation failed"@);
    }
}

/// Every turn of a recorded session is told: what the user said, what the assistant answered,
/// and a result for each of its calls.
pub proof fn every_recorded_turn_is_told(turns: Seq<GoldenTurn>, i: int, k: int)
    requires
        0 <= i < turns.len(),
    ensures
        golden_messages(turns).contains(
            llm::plain_message(Role::User, turns[i].user_message@),
        ),
        golden_messages(turns).contains(
            llm::plain_message(Role::Assistant, turns[i].assistant_response@),
        ),
        0 <= k < turns[i].tool_calls@.len() ==> golden_messages(turns).contains(
            llm::tool_result_message(turns[i].tool_calls@[k].id@, "result"@),
        ) && golden_calls(turns).contains(turns[i].tool_calls@[k]),
    decreases turns.len(),
{
    let d = turns.drop_last();
    let before = golden_messages(d);
    let now = golden_messages(turns);
    let calls = golden_calls(d);
    let n = before.len() as int;
    if i == turns.len() - 1 {
        assert(now[n] == llm::plain_message(Role::User, turns[i].user_message@));
        assert(now[n + 1] == llm::plain_message(Role::Assistant, turns[i].assistant_response@));
        if 0 <= k < turns[i].tool_calls@.len() {
            assert(now[n + 2 + k] == llm::tool_result_message(
                turns[i].tool_calls@[k].id@,
                "result"@,
            ));
            assert(golden_calls(turns)[calls.len() + k] == turns[i].tool_calls@[k]);
        }
    } else {
        assert(d[i] == turns[i]);
        every_recorded_turn_is_told(d, i, k);
        assert(forall|p: int| 0 <= p < n ==> now[p] == #[trigger] before[p]);
        assert(forall|p: int| 0 <= p < calls.len() ==> golden_calls(turns)[p] == #[trigger] calls[p]);
        lemma_kept_by(before, now, llm::plain_message(Role::User, turns[i].user_message@));
        lemma_kept_by(before, now, llm::plain_message(Role::Assistant, turns[i].assistant_response@));
        if 0 <= k < turns[i].tool_calls@.len() {
            lemma_kept_by(
                before,
                now,
                llm::tool_result_message(turns[i].tool_calls@[k].id@, "result"@),
            );
            lemma_kept_by(calls, golden_calls(turns), turns[i].tool_calls@[k]);
        }
    }
}

proof fn lemma_kept_by<T>(a: Seq<T>, b: Seq<T>, x: T)
    requires
        a.contains(x),
        a.len() <= b.len(),
        forall|p: int| 0 <= p < a.len() ==> b[p] == #[trigger] a[p],
    ensures
        b.contains(x),
{
    let p = choose|p: int| 0 <= p < a.len() && a[p] == x;
    assert(b[p] == x);
}

/// A judgement tells what holds of the history: whether it is shorter, holds a summary, has
/// its system messages first, and its tool results with and behind their calls.
pub proof fn judgements_tell_what_holds(
    v: StructuralValidation,
    original: nat,
    s: Seq<llm::MessageView>,
)
    requires
        is_judgement(v, original, s),
    ensures
        v.valid <==> v.system_messages_first && v.no_orphaned_tool_results
            && v.tool_call_groups_intact,
        v.valid ==> v.issues@.len() == 0,
        v.messages_reduced <==> s.len() < original,
        v.compressed_count == s.len(),
        v.original_count == original,
        v.summary_present <==> exists|i: int|
            0 <= i < s.len() && text::begins_with((#[trigger] s[i]).content, "[COMPRESSED CONTEXT"@),
        v.issues.deep_view() == structure_issues(s),
{
    if v.valid {
        well_formed_histories_have_no_issues(s);
        assert(v.issues.deep_view().len() == v.issues@.len());
    }
}

/// Sessions are scanned with compression on, under the given threshold and distance, keeping
/// three turns and asking for at most 500 tokens.
pub proof fn scans_compress_under_the_threshold(
    c: ContextCompressionConfig,
    threshold_pct_bits: u64,
    min_turns: u64,
)
    requires
        is_scan_config(c, threshold_pct_bits, min_turns),
    ensures
        c.enabled,
        c.llm_preset is Some && c.llm_preset->Some_0@ == "haiku"@,
        c.provider is None && c.model is None,
        c.threshold_pct_bits == threshold_pct_bits,
        c.min_turns_between_compression == min_turns,
        c.recent_turns_to_keep == 3,
        c.max_summary_tokens == 500,
        c.max_capsule_decisions == 30,
        c.max_completed_tasks == 10,
{
}

} // verus!
