//! The decision journal of curating agents.
//!
//! An agent's structured reply may carry a journal of decisions. Each entry
//! that is complete becomes an event, so that it can be asked why something was
//! kept, dropped or promoted.

use crate::causal;
use crate::clock;
use crate::causal::CausalEventRecord;
use crate::egress;
use crate::json;
use crate::json::{Fields, Json};
use crate::text;
use vstd::prelude::*;

verus! {

// ---------------------------------------------------------------------------
// Entries
// ---------------------------------------------------------------------------

/// One decision.
#[derive(Debug)]
pub struct DecisionJournalEntry {
    pub target: String,
    pub action: String,
    pub reason_code: String,
    pub reason_detail: Option<String>,
    pub metric_values: Option<Json>,
    /// The confidence: a double, as it is written in JSON.
    pub confidence: Option<String>,
    /// The agent that a promoted instruction goes to.
    pub target_agent: Option<String>,
    /// The instruction that is promoted.
    pub proposed_instruction: Option<String>,
}

/// The mathematical model of a [`DecisionJournalEntry`].
pub struct EntryView {
    pub target: Seq<char>,
    pub action: Seq<char>,
    pub reason_code: Seq<char>,
    pub reason_detail: Option<Seq<char>>,
    pub metric_values: Option<json::JsonView>,
    pub confidence: Option<Seq<char>>,
    pub target_agent: Option<Seq<char>>,
    pub proposed_instruction: Option<Seq<char>>,
}

/// The model of an optional JSON value.
pub open spec fn tree_view(o: Option<Json>) -> Option<json::JsonView> {
    match o {
        Some(j) => Some(j@),
        None => None,
    }
}

impl View for DecisionJournalEntry {
    type V = EntryView;

    open spec fn view(&self) -> EntryView {
        EntryView {
            target: self.target@,
            action: self.action@,
            reason_code: self.reason_code@,
            reason_detail: self.reason_detail.deep_view(),
            metric_values: tree_view(self.metric_values),
            confidence: self.confidence.deep_view(),
            target_agent: self.target_agent.deep_view(),
            proposed_instruction: self.proposed_instruction.deep_view(),
        }
    }
}

/// The models of a list of entries.
pub open spec fn entry_views(v: Seq<DecisionJournalEntry>) -> Seq<EntryView> {
    v.map_values(|e: DecisionJournalEntry| e@)
}

/// A text is absent or blank.
pub open spec fn is_missing(o: Option<Seq<char>>) -> bool {
    match o {
        Some(s) => text::trim(s).len() == 0,
        None => true,
    }
}

/// An entry has what every entry needs.
pub open spec fn well_formed(e: EntryView) -> bool {
    text::trim(e.target).len() > 0 && text::trim(e.action).len() > 0 && text::trim(
        e.reason_code,
    ).len() > 0
}

/// An entry that promotes an instruction says where it goes and what it is.
pub open spec fn is_routed(e: EntryView) -> bool {
    e.action == "promote_to_skill"@ ==> !is_missing(e.target_agent) && !is_missing(
        e.proposed_instruction,
    )
}

/// The fields that a promotion lacks.
pub open spec fn missing_fields(e: EntryView) -> Seq<char> {
    if is_missing(e.target_agent) && is_missing(e.proposed_instruction) {
        "target_agent, proposed_instruction"@
    } else if is_missing(e.target_agent) {
        "target_agent"@
    } else {
        "proposed_instruction"@
    }
}

/// Why a promotion is refused.
pub open spec fn routing_message(e: EntryView) -> Seq<char> {
    "promote_to_skill entry for target '"@ + e.target
        + "' is missing required routing field(s): "@ + missing_fields(e)
        + ". Include both 'target_agent' (the agent receiving the instruction) and 'proposed_instruction' (the concrete instruction text to add to its SKILL.md)."@
}

fn is_missing_exec(o: &Option<String>) -> (r: bool)
    ensures
        r == is_missing(o.deep_view()),
{
    match o {
        Some(s) => text::is_blank(s.as_str()),
        None => true,
    }
}

impl DecisionJournalEntry {
    /// Whether the entry has what every entry needs.
    pub fn is_well_formed(&self) -> (r: bool)
        ensures
            r == well_formed(self@),
    {
        !text::is_blank(self.target.as_str()) && !text::is_blank(self.action.as_str())
            && !text::is_blank(self.reason_code.as_str())
    }

    /// Why the entry is refused, where it promotes an instruction without
    /// saying where it goes and what it is.
    pub fn routing_error(&self) -> (r: Option<String>)
        ensures
            match r {
                Some(m) => !is_routed(self@) && m@ == routing_message(self@),
                None => is_routed(self@),
            },
    {
        if !text::text_eq(self.action.as_str(), "promote_to_skill") {
            return None;
        }
        let no_agent = is_missing_exec(&self.target_agent);
        let no_instruction = is_missing_exec(&self.proposed_instruction);
        if !no_agent && !no_instruction {
            return None;
        }
        let missing = if no_agent && no_instruction {
            "target_agent, proposed_instruction"
        } else if no_agent {
            "target_agent"
        } else {
            "proposed_instruction"
        };
        let mut m = "promote_to_skill entry for target '".to_owned();
        m.append(self.target.as_str());
        m.append("' is missing required routing field(s): ");
        m.append(missing);
        m.append(
            ". Include both 'target_agent' (the agent receiving the instruction) and 'proposed_instruction' (the concrete instruction text to add to its SKILL.md).",
        );
        Some(m)
    }
}

// ---------------------------------------------------------------------------
// Reading a reply
// ---------------------------------------------------------------------------

/// The last position of `c` in `s`.
pub open spec fn last_position(s: Seq<char>, c: char) -> Option<int>
    decreases s.len(),
{
    if s.len() == 0 {
        None
    } else if s.last() == c {
        Some(s.len() - 1)
    } else {
        last_position(s.drop_last(), c)
    }
}

/// The rest of a text from `i` on.
pub open spec fn rest_of(s: Seq<char>, i: int) -> Seq<char> {
    s.subrange(i, s.len() as int)
}

/// What stands in the first code fence of a text; all of it without one.
pub open spec fn fenced(t: Seq<char>) -> Seq<char> {
    match text::find_text(t, "```"@, 0) {
        Some(p) => {
            let after = text::trim_start(rest_of(t, p + 3));
            let body = if text::begins_with(after, "json"@) {
                text::trim_start(rest_of(after, 4))
            } else {
                after
            };
            match text::find_text(body, "```"@, 0) {
                Some(e) => body.subrange(0, e),
                None => body,
            }
        },
        None => t,
    }
}

/// The JSON object in a text: from the first opening brace to the last closing
/// one, in the code fence where there is one.
pub open spec fn object_slice(s: Seq<char>) -> Option<Seq<char>> {
    let scan = fenced(text::trim(s));
    match (text::find_text(scan, "{"@, 0), last_position(scan, '}')) {
        (Some(a), Some(b)) => if a < b {
            Some(text::trim(scan.subrange(a, b + 1)))
        } else {
            None
        },
        _ => None,
    }
}

fn last_position_exec(v: &Vec<char>, c: char) -> (r: Option<usize>)
    ensures
        match r {
            Some(i) => last_position(v@, c) == Some(i as int) && i < v@.len(),
            None => last_position(v@, c) is None,
        },
{
    let mut n: usize = v.len();
    assert(v@.subrange(0, v@.len() as int) =~= v@);
    while n > 0
        invariant
            n <= v@.len(),
            last_position(v@, c) == last_position(v@.subrange(0, n as int), c),
        decreases n,
    {
        proof {
            let t = v@.subrange(0, n as int);
            assert(t.drop_last() =~= v@.subrange(0, n - 1));
            assert(t.last() == v@[n - 1]);
        }
        if v[n - 1] == c {
            return Some(n - 1);
        }
        n = n - 1;
    }
    None
}

fn fenced_exec(t: &str) -> (r: String)
    ensures
        r@ == fenced(t@),
{
    let fence = text::chars_of("```");
    let v = text::chars_of(t);
    proof {
        reveal_strlit("```");
        reveal_strlit("json");
    }
    match text::find_in(&v, &fence, 0) {
        Some(p) => {
            let after = text::trimmed_start(text::string_of(&v, p + 3, v.len()).as_str());
            let body = match text::strip_prefix(after.as_str(), "json") {
                Some(b) => text::trimmed_start(b.as_str()),
                None => after,
            };
            let w = text::chars_of(body.as_str());
            match text::find_in(&w, &fence, 0) {
                Some(e) => text::string_of(&w, 0, e),
                None => body,
            }
        },
        None => t.to_owned(),
    }
}

/// The JSON object in a reply that may wrap it in a code fence or in prose.
pub fn extract_json_object_slice(reply: &str) -> (r: Option<String>)
    ensures
        r.deep_view() == object_slice(reply@),
{
    let scan = fenced_exec(text::trimmed(reply).as_str());
    let v = text::chars_of(scan.as_str());
    let open = text::chars_of("{");
    proof {
        reveal_strlit("{");
    }
    let start = match text::find_in(&v, &open, 0) {
        Some(a) => a,
        None => {
            return None;
        },
    };
    let end = match last_position_exec(&v, '}') {
        Some(b) => b,
        None => {
            return None;
        },
    };
    if end <= start {
        return None;
    }
    Some(text::trimmed(text::string_of(&v, start, end + 1).as_str()))
}

/// A field of an entry: by its name in an object, by its place in a list.
pub open spec fn slot(j: json::JsonView, i: int, key: Seq<char>) -> Option<json::JsonView> {
    match j {
        json::JsonView::Object(_) => json::field(j, key),
        json::JsonView::List(items) => if 0 <= i < items.len() {
            Some(items[i])
        } else {
            None
        },
        _ => None,
    }
}

/// A field that must be a text.
pub open spec fn required_text(v: Option<json::JsonView>) -> Option<Seq<char>> {
    match v {
        Some(json::JsonView::Text(s)) => Some(s),
        _ => None,
    }
}

/// A field that may be absent or null: `None` where it is neither that nor a text.
pub open spec fn optional_text(v: Option<json::JsonView>) -> Option<Option<Seq<char>>> {
    match v {
        None => Some(None),
        Some(json::JsonView::Null) => Some(None),
        Some(json::JsonView::Text(s)) => Some(Some(s)),
        _ => None,
    }
}

/// A field that may be absent or null, and is read as a double: `None` where it
/// is neither that nor a number.
pub open spec fn optional_number(v: Option<json::JsonView>) -> Option<Option<Seq<char>>> {
    match v {
        None => Some(None),
        Some(json::JsonView::Null) => Some(None),
        Some(json::JsonView::Number(s)) => Some(Some(json::double_text(s))),
        _ => None,
    }
}

/// A field that may hold anything; null counts as absent.
pub open spec fn optional_tree(v: Option<json::JsonView>) -> Option<json::JsonView> {
    match v {
        None => None,
        Some(json::JsonView::Null) => None,
        Some(t) => Some(t),
    }
}

/// The entry that a JSON value stands for, where it stands for one: an object,
/// or a list of at most as many values as an entry has fields.
pub open spec fn entry_in(j: json::JsonView) -> Option<EntryView> {
    let shape = match j {
        json::JsonView::Object(_) => true,
        json::JsonView::List(items) => items.len() <= 8,
        _ => false,
    };
    match (
        required_text(slot(j, 0, "target"@)),
        required_text(slot(j, 1, "action"@)),
        required_text(slot(j, 2, "reason_code"@)),
        optional_text(slot(j, 3, "reason_detail"@)),
        optional_number(slot(j, 5, "confidence"@)),
        optional_text(slot(j, 6, "target_agent"@)),
        optional_text(slot(j, 7, "proposed_instruction"@)),
    ) {
        (
            Some(target),
            Some(action),
            Some(reason_code),
            Some(reason_detail),
            Some(confidence),
            Some(target_agent),
            Some(proposed_instruction),
        ) => if shape {
            Some(
                EntryView {
                    target,
                    action,
                    reason_code,
                    reason_detail,
                    metric_values: optional_tree(slot(j, 4, "metric_values"@)),
                    confidence,
                    target_agent,
                    proposed_instruction,
                },
            )
        } else {
            None
        },
        _ => None,
    }
}

fn slot_exec<'a>(j: &'a Json, i: usize, key: &str) -> (r: Option<&'a Json>)
    ensures
        (match r {
            Some(v) => Some(v@),
            None => None,
        }) == slot(j@, i as int, key@),
{
    match j {
        Json::Object(_) => j.get(key),
        Json::List(v) => {
            if i < v.len() {
                assert(j@->List_0[i as int] == v@[i as int]@);
                Some(&v[i])
            } else {
                None
            }
        },
        _ => None,
    }
}

fn required_text_exec(v: Option<&Json>) -> (r: Option<String>)
    ensures
        r.deep_view() == required_text(
            match v {
                Some(j) => Some(j@),
                None => None,
            },
        ),
{
    match v {
        Some(Json::Text(s)) => Some(s.clone()),
        _ => None,
    }
}

fn optional_text_exec(v: Option<&Json>) -> (r: Option<Option<String>>)
    ensures
        (match r {
            Some(o) => Some(o.deep_view()),
            None => None,
        }) == optional_text(
            match v {
                Some(j) => Some(j@),
                None => None,
            },
        ),
{
    match v {
        None => Some(None),
        Some(Json::Null) => Some(None),
        Some(Json::Text(s)) => Some(Some(s.clone())),
        _ => None,
    }
}

fn optional_number_exec(v: Option<&Json>) -> (r: Option<Option<String>>)
    ensures
        (match r {
            Some(o) => Some(o.deep_view()),
            None => None,
        }) == optional_number(
            match v {
                Some(j) => Some(j@),
                None => None,
            },
        ),
{
    match v {
        None => Some(None),
        Some(Json::Null) => Some(None),
        Some(Json::Number(s)) => Some(Some(json::as_double(s.as_str()))),
        _ => None,
    }
}

fn optional_tree_exec(v: Option<&Json>) -> (r: Option<Json>)
    ensures
        tree_view(r) == optional_tree(
            match v {
                Some(j) => Some(j@),
                None => None,
            },
        ),
{
    match v {
        None => None,
        Some(Json::Null) => None,
        Some(j) => Some(j.copy()),
    }
}

/// Reads an entry.
pub fn entry_from_json(j: &Json) -> (r: Option<DecisionJournalEntry>)
    ensures
        (match r {
            Some(e) => Some(e@),
            None => None,
        }) == entry_in(j@),
{
    let shape = match j {
        Json::Object(_) => true,
        Json::List(v) => v.len() <= 8,
        _ => false,
    };
    if !shape {
        return None;
    }
    match (
        required_text_exec(slot_exec(j, 0, "target")),
        required_text_exec(slot_exec(j, 1, "action")),
        required_text_exec(slot_exec(j, 2, "reason_code")),
        optional_text_exec(slot_exec(j, 3, "reason_detail")),
        optional_number_exec(slot_exec(j, 5, "confidence")),
        optional_text_exec(slot_exec(j, 6, "target_agent")),
        optional_text_exec(slot_exec(j, 7, "proposed_instruction")),
    ) {
        (
            Some(target),
            Some(action),
            Some(reason_code),
            Some(reason_detail),
            Some(confidence),
            Some(target_agent),
            Some(proposed_instruction),
        ) => Some(
            DecisionJournalEntry {
                target,
                action,
                reason_code,
                reason_detail,
                metric_values: optional_tree_exec(slot_exec(j, 4, "metric_values")),
                confidence,
                target_agent,
                proposed_instruction,
            },
        ),
        _ => None,
    }
}

/// An item of a journal is kept: it is an entry, complete and routed.
pub open spec fn is_kept(j: json::JsonView) -> bool {
    match entry_in(j) {
        Some(e) => well_formed(e) && is_routed(e),
        None => false,
    }
}

/// The entries of a journal that are kept, in order.
pub open spec fn kept_entries(items: Seq<json::JsonView>) -> Seq<EntryView>
    decreases items.len(),
{
    if items.len() == 0 {
        Seq::empty()
    } else if is_kept(items.last()) {
        kept_entries(items.drop_last()).push(entry_in(items.last())->Some_0)
    } else {
        kept_entries(items.drop_last())
    }
}

/// The journal in a reply's JSON, where it has one.
pub open spec fn journal_in(tree: json::JsonView) -> Option<Seq<EntryView>> {
    match json::field(tree, "decision_journal"@) {
        Some(json::JsonView::List(items)) => Some(kept_entries(items)),
        _ => None,
    }
}

/// The journal in a reply.
pub open spec fn journal_of(reply: Seq<char>) -> Option<Seq<EntryView>> {
    match object_slice(reply) {
        Some(s) => match json::parsed_json(s) {
            Some(tree) => journal_in(tree),
            None => None,
        },
        None => None,
    }
}

/// The entries of the journal in a reply's JSON. Items that are no entry, or
/// an incomplete one, are left out; without a journal there is no list.
pub fn entries_in_tree(tree: &Json) -> (r: Option<Vec<DecisionJournalEntry>>)
    ensures
        (match r {
            Some(v) => Some(entry_views(v@)),
            None => None,
        }) == journal_in(tree@),
{
    let journal = match tree.get("decision_journal") {
        Some(j) => j,
        None => {
            return None;
        },
    };
    match journal {
        Json::List(v) => {
            let ghost items = journal@->List_0;
            let mut out: Vec<DecisionJournalEntry> = Vec::new();
            let mut i: usize = 0;
            assert(entry_views(out@) =~= kept_entries(items.subrange(0, 0)));
            while i < v.len()
                invariant
                    i <= v@.len(),
                    *journal == Json::List(*v),
                    items == journal@->List_0,
                    items.len() == v@.len(),
                    entry_views(out@) == kept_entries(items.subrange(0, i as int)),
                decreases v@.len() - i,
            {
                let ghost before = out@;
                proof {
                    let t = items.subrange(0, i + 1);
                    assert(t.drop_last() =~= items.subrange(0, i as int));
                    assert(t.last() == v@[i as int]@);
                }
                if let Some(entry) = entry_from_json(&v[i]) {
                    if entry.is_well_formed() && entry.routing_error().is_none() {
                        out.push(entry);
                        assert(entry_views(out@) =~= entry_views(before).push(entry@));
                    }
                }
                i = i + 1;
            }
            assert(items.subrange(0, i as int) =~= items);
            Some(out)
        },
        _ => None,
    }
}

/// The entries of the journal in a reply. A reply without JSON, or without a
/// journal in it, has no list.
pub fn extract_decision_journal_entries(reply: &str) -> (r: Option<Vec<DecisionJournalEntry>>)
    ensures
        (match r {
            Some(v) => Some(entry_views(v@)),
            None => None,
        }) == journal_of(reply@),
{
    match extract_json_object_slice(reply) {
        Some(s) => match json::parse_json(s.as_str()) {
            Some(tree) => entries_in_tree(&tree),
            None => None,
        },
        None => None,
    }
}

/// Every entry that is kept is complete, and a promotion says where it goes.
pub proof fn kept_entries_are_complete(items: Seq<json::JsonView>, i: int)
    requires
        0 <= i < kept_entries(items).len(),
    ensures
        well_formed(kept_entries(items)[i]),
        is_routed(kept_entries(items)[i]),
    decreases items.len(),
{
    if items.len() > 0 {
        let before = kept_entries(items.drop_last());
        if i < before.len() {
            kept_entries_are_complete(items.drop_last(), i);
        }
    }
}

// ---------------------------------------------------------------------------
// What is recorded
// ---------------------------------------------------------------------------

/// A number as JSON, or null.
pub open spec fn opt_number(o: Option<Seq<char>>) -> json::JsonView {
    match o {
        Some(n) => json::JsonView::Number(n),
        None => json::JsonView::Null,
    }
}

/// A value, or null.
pub open spec fn opt_tree(o: Option<json::JsonView>) -> json::JsonView {
    match o {
        Some(t) => t,
        None => json::JsonView::Null,
    }
}

/// The payload of a decision.
pub open spec fn decision_payload(
    agent_id: Seq<char>,
    session_id: Seq<char>,
    revision_id: Option<Seq<char>>,
    e: EntryView,
) -> json::JsonView {
    json::JsonView::Object(
        json::no_fields().push(json::entry("agent_id"@, json::JsonView::Text(agent_id))).push(
            json::entry("session_id"@, json::JsonView::Text(session_id)),
        ).push(json::entry("revision_id"@, json::opt_text(revision_id))).push(
            json::entry("target"@, json::JsonView::Text(e.target)),
        ).push(json::entry("action"@, json::JsonView::Text(e.action))).push(
            json::entry("reason_code"@, json::JsonView::Text(e.reason_code)),
        ).push(json::entry("reason_detail"@, json::opt_text(e.reason_detail))).push(
            json::entry("metric_values"@, opt_tree(e.metric_values)),
        ).push(json::entry("confidence"@, opt_number(e.confidence))).push(
            json::entry("target_agent"@, json::opt_text(e.target_agent)),
        ).push(json::entry("proposed_instruction"@, json::opt_text(e.proposed_instruction))),
    )
}

/// The event of a decision.
pub open spec fn decision_event(
    category: Seq<char>,
    agent_id: Seq<char>,
    session_id: Seq<char>,
    revision_id: Option<Seq<char>>,
    e: EntryView,
    seq_no: u64,
    unique: Seq<char>,
    timestamp: Seq<char>,
) -> causal::EventView {
    causal::EventView {
        event_id: category + "-dec-"@ + unique,
        agent_id,
        session_id,
        turn_id: None,
        event_seq: seq_no,
        timestamp,
        category,
        action: "decision"@,
        status: "active"@,
        enforced_rules: Seq::empty(),
        target: Some(e.target),
        payload: Some(
            json::json_text(decision_payload(agent_id, session_id, revision_id, e)),
        ),
        payload_ref: None,
        evidence_ref: None,
        reason: e.reason_detail,
    }
}

/// The event that sums up a journal.
pub open spec fn journal_event(
    category: Seq<char>,
    agent_id: Seq<char>,
    session_id: Seq<char>,
    revision_id: Option<Seq<char>>,
    count: nat,
    unique: Seq<char>,
    timestamp: Seq<char>,
) -> causal::EventView {
    causal::EventView {
        event_id: category + "-jrn-"@ + unique,
        agent_id,
        session_id,
        turn_id: None,
        event_seq: count as u64,
        timestamp,
        category,
        action: "decision_journal_recorded"@,
        status: "active"@,
        enforced_rules: Seq::empty(),
        target: Some(session_id),
        payload: Some(
            json::json_text(
                json::JsonView::Object(
                    json::no_fields().push(
                        json::entry("agent_id"@, json::JsonView::Text(agent_id)),
                    ).push(json::entry("session_id"@, json::JsonView::Text(session_id))).push(
                        json::entry("revision_id"@, json::opt_text(revision_id)),
                    ).push(json::entry("entry_count"@, json::count(count))),
                ),
            ),
        ),
        payload_ref: None,
        evidence_ref: None,
        reason: None,
    }
}

fn no_rules() -> (r: Vec<String>)
    ensures
        r.deep_view() == Seq::<Seq<char>>::empty(),
{
    let r: Vec<String> = Vec::new();
    assert(r.deep_view() =~= Seq::<Seq<char>>::empty());
    r
}

fn as_opt_str(o: &Option<String>) -> (r: Option<&str>)
    ensures
        causal::opt_view(r) == o.deep_view(),
{
    match o {
        Some(s) => Some(s.as_str()),
        None => None,
    }
}

fn decision_event_exec(
    category: &str,
    agent_id: &str,
    session_id: &str,
    revision_id: Option<&str>,
    e: &DecisionJournalEntry,
    seq_no: u64,
    unique: &str,
    timestamp: &str,
) -> (r: CausalEventRecord)
    ensures
        r@ == decision_event(
            category@,
            agent_id@,
            session_id@,
            causal::opt_view(revision_id),
            e@,
            seq_no,
            unique@,
            timestamp@,
        ),
{
    let mut f = Fields::new();
    f.text("agent_id", agent_id);
    f.text("session_id", session_id);
    f.maybe("revision_id", revision_id);
    f.text("target", e.target.as_str());
    f.text("action", e.action.as_str());
    f.text("reason_code", e.reason_code.as_str());
    f.maybe("reason_detail", as_opt_str(&e.reason_detail));
    f.put(
        "metric_values",
        match &e.metric_values {
            Some(t) => t.copy(),
            None => Json::Null,
        },
    );
    f.put(
        "confidence",
        match &e.confidence {
            Some(n) => Json::Number(n.clone()),
            None => Json::Null,
        },
    );
    f.maybe("target_agent", as_opt_str(&e.target_agent));
    f.maybe("proposed_instruction", as_opt_str(&e.proposed_instruction));
    let payload = f.object();
    let mut event_id = category.to_owned();
    event_id.append("-dec-");
    event_id.append(unique);
    CausalEventRecord {
        event_id,
        agent_id: agent_id.to_owned(),
        session_id: session_id.to_owned(),
        turn_id: None,
        event_seq: seq_no,
        timestamp: timestamp.to_owned(),
        category: category.to_owned(),
        action: "decision".to_owned(),
        status: "active".to_owned(),
        enforced_rules: no_rules(),
        target: Some(e.target.clone()),
        payload: Some(json::render_json(&payload)),
        payload_ref: None,
        evidence_ref: None,
        reason: text::clone_opt(&e.reason_detail),
    }
}

/// `events` are those of a journal: one for each entry, numbered in order, and
/// one that sums up.
pub open spec fn are_journal_events(
    events: Seq<CausalEventRecord>,
    category: Seq<char>,
    agent_id: Seq<char>,
    session_id: Seq<char>,
    revision_id: Option<Seq<char>>,
    entries: Seq<EntryView>,
    unique: Seq<Seq<char>>,
    timestamp: Seq<char>,
) -> bool {
    &&& events.len() == entries.len() + 1
    &&& forall|i: int|
        0 <= i < entries.len() ==> (#[trigger] events[i])@ == decision_event(
            category,
            agent_id,
            session_id,
            revision_id,
            entries[i],
            i as u64,
            unique[i],
            timestamp,
        )
    &&& events.last()@ == journal_event(
        category,
        agent_id,
        session_id,
        revision_id,
        entries.len(),
        unique[entries.len() as int],
        timestamp,
    )
}

/// The events of a journal: one for each entry, numbered in order, and one
/// that sums up. `unique` holds an id suffix for each of them.
pub fn decision_journal_events_at(
    category: &str,
    agent_id: &str,
    session_id: &str,
    revision_id: Option<&str>,
    entries: &Vec<DecisionJournalEntry>,
    unique: &Vec<String>,
    timestamp: &str,
) -> (r: Vec<CausalEventRecord>)
    requires
        unique@.len() == entries@.len() + 1,
    ensures
        are_journal_events(
            r@,
            category@,
            agent_id@,
            session_id@,
            causal::opt_view(revision_id),
            entry_views(entries@),
            unique.deep_view(),
            timestamp@,
        ),
{
    let mut out: Vec<CausalEventRecord> = Vec::new();
    let mut i: usize = 0;
    while i < entries.len()
        invariant
            i <= entries@.len(),
            unique@.len() == entries@.len() + 1,
            out@.len() == i,
            forall|k: int|
                0 <= k < i ==> (#[trigger] out@[k])@ == decision_event(
                    category@,
                    agent_id@,
                    session_id@,
                    causal::opt_view(revision_id),
                    entries@[k]@,
                    k as u64,
                    unique@[k]@,
                    timestamp@,
                ),
        decreases entries@.len() - i,
    {
        out.push(
            decision_event_exec(
                category,
                agent_id,
                session_id,
                revision_id,
                &entries[i],
                i as u64,
                unique[i].as_str(),
                timestamp,
            ),
        );
        i = i + 1;
    }
    let mut f = Fields::new();
    f.text("agent_id", agent_id);
    f.text("session_id", session_id);
    f.maybe("revision_id", revision_id);
    f.number("entry_count", entries.len() as u64);
    let payload = f.object();
    let mut event_id = category.to_owned();
    event_id.append("-jrn-");
    event_id.append(unique[entries.len()].as_str());
    out.push(
        CausalEventRecord {
            event_id,
            agent_id: agent_id.to_owned(),
            session_id: session_id.to_owned(),
            turn_id: None,
            event_seq: entries.len() as u64,
            timestamp: timestamp.to_owned(),
            category: category.to_owned(),
            action: "decision_journal_recorded".to_owned(),
            status: "active".to_owned(),
            enforced_rules: no_rules(),
            target: Some(session_id.to_owned()),
            payload: Some(json::render_json(&payload)),
            payload_ref: None,
            evidence_ref: None,
            reason: None,
        },
    );
    out
}

/// [`decision_journal_events_at`] with fresh ids and the present time.
pub fn decision_journal_events(
    category: &str,
    agent_id: &str,
    session_id: &str,
    revision_id: Option<&str>,
    entries: &Vec<DecisionJournalEntry>,
) -> (r: Vec<CausalEventRecord>)
    ensures
        exists|unique: Seq<Seq<char>>, timestamp: Seq<char>|
            clock::is_utc_text(timestamp) && (forall|i: int|
                0 <= i < unique.len() ==> causal::is_uuid_text(#[trigger] unique[i]))
                && #[trigger] are_journal_events(
                r@,
                category@,
                agent_id@,
                session_id@,
                causal::opt_view(revision_id),
                entry_views(entries@),
                unique,
                timestamp,
            ),
{
    let mut unique: Vec<String> = Vec::new();
    let mut i: usize = 0;
    while i < entries.len()
        invariant
            i <= entries@.len(),
            unique@.len() == i,
            forall|k: int| 0 <= k < i ==> causal::is_uuid_text(#[trigger] unique@[k]@),
        decreases entries@.len() - i,
    {
        unique.push(causal::random_uuid());
        i = i + 1;
    }
    unique.push(causal::random_uuid());
    let timestamp = clock::now_rfc3339();
    decision_journal_events_at(
        category,
        agent_id,
        session_id,
        revision_id,
        entries,
        &unique,
        timestamp.as_str(),
    )
}

/// Knowledge that is to be stored, globally visible and written by an agent.
#[derive(Debug)]
pub struct MemoryDraft {
    pub id: String,
    pub scope: String,
    pub owner: String,
    pub writer: String,
    pub source_ref: String,
    pub content: String,
    pub tags: Vec<String>,
    /// The confidence: a double, as it is written in JSON.
    pub confidence: Option<String>,
}

/// The mathematical model of a [`MemoryDraft`].
pub struct MemoryView {
    pub id: Seq<char>,
    pub scope: Seq<char>,
    pub owner: Seq<char>,
    pub writer: Seq<char>,
    pub source_ref: Seq<char>,
    pub content: Seq<char>,
    pub tags: Seq<Seq<char>>,
    pub confidence: Option<Seq<char>>,
}

impl View for MemoryDraft {
    type V = MemoryView;

    open spec fn view(&self) -> MemoryView {
        MemoryView {
            id: self.id@,
            scope: self.scope@,
            owner: self.owner@,
            writer: self.writer@,
            source_ref: self.source_ref@,
            content: self.content@,
            tags: self.tags.deep_view(),
            confidence: self.confidence.deep_view(),
        }
    }
}

/// The models of a list of drafts.
pub open spec fn memory_views(v: Seq<MemoryDraft>) -> Seq<MemoryView> {
    v.map_values(|m: MemoryDraft| m@)
}

/// An entry promotes an instruction and says where it goes.
pub open spec fn graduates(e: EntryView) -> bool {
    e.action == "promote_to_skill"@ && e.target_agent is Some && e.proposed_instruction is Some
}

/// The knowledge that a promotion leaves for the orchestrator to find.
pub open spec fn graduation(agent_id: Seq<char>, session_id: Seq<char>, e: EntryView) -> MemoryView {
    let agent = e.target_agent->Some_0;
    MemoryView {
        id: "grad-"@ + agent + "-"@ + e.target,
        scope: "evolution/graduations"@,
        owner: agent_id,
        writer: agent_id,
        source_ref: "session:"@ + session_id + ":decision_journal"@,
        content: "promote_to_skill: agent="@ + agent + ", target="@ + e.target + ", instruction="@
            + e.proposed_instruction->Some_0,
        tags: seq!["source:memory_curator"@].push("type:promote_to_skill"@).push(
            "agent:"@ + agent,
        ).push("target:"@ + e.target),
        confidence: e.confidence,
    }
}

/// The knowledge that the promotions of a journal leave, in order.
pub open spec fn graduations(agent_id: Seq<char>, session_id: Seq<char>, es: Seq<EntryView>) -> Seq<
    MemoryView,
>
    decreases es.len(),
{
    if es.len() == 0 {
        Seq::empty()
    } else if graduates(es.last()) {
        graduations(agent_id, session_id, es.drop_last()).push(
            graduation(agent_id, session_id, es.last()),
        )
    } else {
        graduations(agent_id, session_id, es.drop_last())
    }
}

/// The knowledge that the promotions of a journal leave for the orchestrator.
pub fn graduation_memories(agent_id: &str, session_id: &str, entries: &Vec<DecisionJournalEntry>) -> (r:
    Vec<MemoryDraft>)
    ensures
        memory_views(r@) == graduations(agent_id@, session_id@, entry_views(entries@)),
{
    let ghost all = entry_views(entries@);
    let mut out: Vec<MemoryDraft> = Vec::new();
    let mut i: usize = 0;
    assert(memory_views(out@) =~= graduations(agent_id@, session_id@, all.subrange(0, 0)));
    while i < entries.len()
        invariant
            i <= entries@.len(),
            all == entry_views(entries@),
            memory_views(out@) == graduations(agent_id@, session_id@, all.subrange(0, i as int)),
        decreases entries@.len() - i,
    {
        let ghost before = out@;
        let e = &entries[i];
        proof {
            let t = all.subrange(0, i + 1);
            assert(t.drop_last() =~= all.subrange(0, i as int));
            assert(t.last() == e@);
        }
        i = i + 1;
        if !text::text_eq(e.action.as_str(), "promote_to_skill") {
            continue ;
        }
        match (&e.target_agent, &e.proposed_instruction) {
            (Some(agent), Some(instruction)) => {
                let mut id = "grad-".to_owned();
                id.append(agent.as_str());
                id.append("-");
                id.append(e.target.as_str());
                let mut source_ref = "session:".to_owned();
                source_ref.append(session_id);
                source_ref.append(":decision_journal");
                let mut content = "promote_to_skill: agent=".to_owned();
                content.append(agent.as_str());
                content.append(", target=");
                content.append(e.target.as_str());
                content.append(", instruction=");
                content.append(instruction.as_str());
                let mut agent_tag = "agent:".to_owned();
                agent_tag.append(agent.as_str());
                let mut target_tag = "target:".to_owned();
                target_tag.append(e.target.as_str());
                let mut tags: Vec<String> = Vec::new();
                assert(tags.deep_view() =~= Seq::<Seq<char>>::empty());
                egress::push_name(&mut tags, "source:memory_curator");
                egress::push_name(&mut tags, "type:promote_to_skill");
                egress::push_name(&mut tags, agent_tag.as_str());
                egress::push_name(&mut tags, target_tag.as_str());
                let m = MemoryDraft {
                    id,
                    scope: "evolution/graduations".to_owned(),
                    owner: agent_id.to_owned(),
                    writer: agent_id.to_owned(),
                    source_ref,
                    content,
                    tags,
                    confidence: text::clone_opt(&e.confidence),
                };
                assert(m@.tags =~= graduation(agent_id@, session_id@, e@).tags);
                assert(m@ == graduation(agent_id@, session_id@, e@));
                out.push(m);
                assert(memory_views(out@) =~= memory_views(before).push(m@));
            },
            _ => {},
        }
    }
    assert(all.subrange(0, i as int) =~= all);
    out
}

/// The id under which a curator's output is stored.
pub open spec fn output_id(session_id: Seq<char>) -> Seq<char> {
    "curator-output-"@ + text::replace_text(session_id, "/"@, "-"@)
}

/// The id under which a curator's output is stored: that of the session, with
/// slashes written as dashes.
pub fn curator_output_memory_id(session_id: &str) -> (r: String)
    ensures
        r@ == output_id(session_id@),
{
    proof {
        reveal_strlit("/");
    }
    let mut s = "curator-output-".to_owned();
    s.append(text::replaced(session_id, "/", "-").as_str());
    s
}

/// The knowledge that a curator's whole output is stored as.
pub open spec fn output_memory(agent_id: Seq<char>, session_id: Seq<char>, content: Seq<char>) -> MemoryView {
    MemoryView {
        id: output_id(session_id),
        scope: "evolution/curator_output"@,
        owner: agent_id,
        writer: agent_id,
        source_ref: "session:"@ + session_id + ":io.returns"@,
        content,
        tags: seq!["source:memory_curator"@].push("type:curator_output"@).push(
            "session:"@ + session_id,
        ),
        confidence: Some("1.0"@),
    }
}

/// The knowledge that a curator's whole output is stored as.
pub fn curator_output_memory(agent_id: &str, session_id: &str, content: &str) -> (r: MemoryDraft)
    ensures
        r@ == output_memory(agent_id@, session_id@, content@),
{
    let mut source_ref = "session:".to_owned();
    source_ref.append(session_id);
    source_ref.append(":io.returns");
    let mut session_tag = "session:".to_owned();
    session_tag.append(session_id);
    let mut tags: Vec<String> = Vec::new();
    assert(tags.deep_view() =~= Seq::<Seq<char>>::empty());
    egress::push_name(&mut tags, "source:memory_curator");
    egress::push_name(&mut tags, "type:curator_output");
    egress::push_name(&mut tags, session_tag.as_str());
    let r = MemoryDraft {
        id: curator_output_memory_id(session_id),
        scope: "evolution/curator_output".to_owned(),
        owner: agent_id.to_owned(),
        writer: agent_id.to_owned(),
        source_ref,
        content: content.to_owned(),
        tags,
        confidence: Some("1.0".to_owned()),
    };
    assert(r@.tags =~= output_memory(agent_id@, session_id@, content@).tags);
    r
}

/// Everything that a reply's journal leaves to be stored.
#[derive(Debug)]
pub struct JournalRecord {
    pub entries: Vec<DecisionJournalEntry>,
    /// The promotions.
    pub graduations: Vec<MemoryDraft>,
    /// The whole output.
    pub output: MemoryDraft,
}

/// What a reply's journal leaves to be stored: nothing without a journal, or
/// with one in which no entry is kept.
pub fn extract_journal_record(agent_id: &str, session_id: &str, reply: &str) -> (r: Option<
    JournalRecord,
>)
    ensures
        match r {
            Some(j) => journal_of(reply@) == Some(entry_views(j.entries@)) && j.entries@.len() > 0
                && memory_views(j.graduations@) == graduations(
                agent_id@,
                session_id@,
                entry_views(j.entries@),
            ) && j.output@ == output_memory(
                agent_id@,
                session_id@,
                object_slice(reply@)->Some_0,
            ),
            None => journal_of(reply@) is None || journal_of(reply@)->Some_0.len() == 0,
        },
{
    let slice = match extract_json_object_slice(reply) {
        Some(s) => s,
        None => {
            return None;
        },
    };
    let entries = match extract_decision_journal_entries(reply) {
        Some(v) => v,
        None => {
            return None;
        },
    };
    assert(entry_views(entries@).len() == entries@.len());
    if entries.len() == 0 {
        return None;
    }
    let graduations = graduation_memories(agent_id, session_id, &entries);
    let output = curator_output_memory(agent_id, session_id, slice.as_str());
    Some(JournalRecord { entries, graduations, output })
}

// ---------------------------------------------------------------------------
// Laws of journals
// ---------------------------------------------------------------------------

/// An item of a journal that names a target, an action and a reason code, none of them
/// blank, is kept as it is, with its agent and instruction; a promotion is where it names
/// both of these too, not blank.
pub proof fn every_complete_entry_is_kept(
    items: Seq<json::JsonView>,
    i: int,
    target: Seq<char>,
    action: Seq<char>,
    code: Seq<char>,
    agent: Option<Seq<char>>,
    instruction: Option<Seq<char>>,
)
    requires
        0 <= i < items.len(),
        items[i] is Object,
        json::field(items[i], "target"@) == Some(json::JsonView::Text(target)),
        json::field(items[i], "action"@) == Some(json::JsonView::Text(action)),
        json::field(items[i], "reason_code"@) == Some(json::JsonView::Text(code)),
        !text::all_white(target),
        !text::all_white(action),
        !text::all_white(code),
        json::field(items[i], "reason_detail"@) is None || json::field(
            items[i],
            "reason_detail"@,
        )->Some_0 is Text,
        json::field(items[i], "confidence"@) is None || json::field(
            items[i],
            "confidence"@,
        )->Some_0 is Number,
        json::field(items[i], "target_agent"@) == (match agent {
            Some(a) => Some(json::JsonView::Text(a)),
            None => None::<json::JsonView>,
        }),
        json::field(items[i], "proposed_instruction"@) == (match instruction {
            Some(a) => Some(json::JsonView::Text(a)),
            None => None::<json::JsonView>,
        }),
        action == "promote_to_skill"@ ==> agent is Some && !text::all_white(agent->Some_0)
            && instruction is Some && !text::all_white(instruction->Some_0),
    ensures
        exists|k: int|
            0 <= k < kept_entries(items).len() && ({
                let e = #[trigger] kept_entries(items)[k];
                e.target == target && e.action == action && e.reason_code == code
                    && e.target_agent == agent && e.proposed_instruction == instruction
            }),
{
    text::lemma_trim_blank(target);
    text::lemma_trim_blank(action);
    text::lemma_trim_blank(code);
    if agent is Some {
        text::lemma_trim_blank(agent->Some_0);
    }
    if instruction is Some {
        text::lemma_trim_blank(instruction->Some_0);
    }
    assert(is_kept(items[i]));
    lemma_kept(items, i);
    let e = entry_in(items[i])->Some_0;
    let k = choose|k: int| 0 <= k < kept_entries(items).len() && #[trigger] kept_entries(items)[k] == e;
    assert(kept_entries(items)[k].target == target);
}

proof fn lemma_kept(items: Seq<json::JsonView>, i: int)
    requires
        0 <= i < items.len(),
        is_kept(items[i]),
    ensures
        exists|k: int|
            0 <= k < kept_entries(items).len() && #[trigger] kept_entries(items)[k] == entry_in(
                items[i],
            )->Some_0,
    decreases items.len(),
{
    let now = kept_entries(items);
    let d = items.drop_last();
    let before = kept_entries(d);
    if i == items.len() - 1 {
        assert(now[before.len() as int] == entry_in(items[i])->Some_0);
    } else {
        assert(d[i] == items[i]);
        lemma_kept(d, i);
        let k = choose|k: int|
            0 <= k < before.len() && #[trigger] before[k] == entry_in(d[i])->Some_0;
        assert(now[k] == before[k]);
    }
}

/// Every entry that is kept comes from an item with these fields; none of its target, action
/// and reason code is blank, and a promotion names its agent and its instruction.
pub proof fn only_complete_entries_are_kept(items: Seq<json::JsonView>, k: int)
    requires
        0 <= k < kept_entries(items).len(),
    ensures
        ({
            let e = kept_entries(items)[k];
            &&& !text::all_white(e.target)
            &&& !text::all_white(e.action)
            &&& !text::all_white(e.reason_code)
            &&& e.action == "promote_to_skill"@ ==> e.target_agent is Some && !text::all_white(
                e.target_agent->Some_0,
            ) && e.proposed_instruction is Some && !text::all_white(e.proposed_instruction->Some_0)
        }),
{
    let e = kept_entries(items)[k];
    kept_entries_are_complete(items, k);
    text::lemma_trim_blank(e.target);
    text::lemma_trim_blank(e.action);
    text::lemma_trim_blank(e.reason_code);
    if e.target_agent is Some {
        text::lemma_trim_blank(e.target_agent->Some_0);
    }
    if e.proposed_instruction is Some {
        text::lemma_trim_blank(e.proposed_instruction->Some_0);
    }
}

/// The journal of a reply is what its field `decision_journal` lists.
pub proof fn journals_are_read_from_their_field(tree: json::JsonView, items: Seq<json::JsonView>)
    ensures
        json::field(tree, "decision_journal"@) == Some(json::JsonView::List(items)) ==> journal_in(
            tree,
        ) == Some(kept_entries(items)),
        json::field(tree, "decision_journal"@) is None ==> journal_in(tree) is None,
{
}

/// The object in a reply without a code fence is what stands from its first opening brace to
/// its last closing one.
pub proof fn objects_are_found_between_braces(s: Seq<char>, a: int, b: int)
    requires
        0 <= a < b < s.len(),
        s[a] == '{',
        forall|i: int| 0 <= i < a ==> s[i] != '{',
        s[b] == '}',
        forall|i: int| b < i < s.len() ==> s[i] != '}',
        text::is_trimmed(s),
        !text::has_text(s, "```"@),
    ensures
        object_slice(s) == Some(s.subrange(a, b + 1)),
{
    let none = Seq::<char>::empty();
    let o = s.subrange(a, b + 1);
    assert(text::trim(s) == s) by {
        text::lemma_trim_padded(none, s, none);
        assert(none + s + none =~= s);
    }
    assert(fenced(s) == s) by {
        text::lemma_find_text(s, "```"@, 0);
    }
    assert(text::find_text(s, "{"@, 0) == Some(a)) by {
        reveal_strlit("{");
        text::lemma_find_text(s, "{"@, 0);
        assert(s.subrange(a, a + 1) =~= "{"@);
        assert(text::occurs_at(s, "{"@, a));
        assert forall|i: int| 0 <= i < a implies !#[trigger] text::occurs_at(s, "{"@, i) by {
            if text::occurs_at(s, "{"@, i) {
                assert(s.subrange(i, i + 1)[0] == "{"@[0]);
            }
        }
    }
    lemma_last_position(s, '}', b);
    assert(o[0] == '{' && o.last() == '}');
    assert(text::trim(o) == o) by {
        text::lemma_trim_padded(none, o, none);
        assert(none + o + none =~= o);
    }
}

proof fn lemma_last_position(s: Seq<char>, c: char, b: int)
    requires
        0 <= b < s.len(),
        s[b] == c,
        forall|i: int| b < i < s.len() ==> s[i] != c,
    ensures
        last_position(s, c) == Some(b),
    decreases s.len(),
{
    if b < s.len() - 1 {
        assert(s[s.len() - 1] != c);
        lemma_last_position(s.drop_last(), c, b);
    }
}

/// The record of a decision tells all of the entry.
pub proof fn decisions_are_recorded_whole(
    agent_id: Seq<char>,
    session_id: Seq<char>,
    revision_id: Option<Seq<char>>,
    e: EntryView,
)
    ensures
        ({
            let m = decision_payload(agent_id, session_id, revision_id, e)->Object_0;
            &&& m.contains(json::entry("agent_id"@, json::JsonView::Text(agent_id)))
            &&& m.contains(json::entry("session_id"@, json::JsonView::Text(session_id)))
            &&& m.contains(json::entry("target"@, json::JsonView::Text(e.target)))
            &&& m.contains(json::entry("action"@, json::JsonView::Text(e.action)))
            &&& m.contains(json::entry("reason_code"@, json::JsonView::Text(e.reason_code)))
            &&& e.reason_detail matches Some(d) ==> m.contains(
                json::entry("reason_detail"@, json::JsonView::Text(d)),
            )
            &&& e.metric_values matches Some(d) ==> m.contains(json::entry("metric_values"@, d))
            &&& e.confidence matches Some(d) ==> m.contains(
                json::entry("confidence"@, json::JsonView::Number(d)),
            )
            &&& e.target_agent matches Some(d) ==> m.contains(
                json::entry("target_agent"@, json::JsonView::Text(d)),
            )
            &&& e.proposed_instruction matches Some(d) ==> m.contains(
                json::entry("proposed_instruction"@, json::JsonView::Text(d)),
            )
        }),
{
    let m = decision_payload(agent_id, session_id, revision_id, e)->Object_0;
    assert(m[0] == json::entry("agent_id"@, json::JsonView::Text(agent_id)));
    assert(m[1] == json::entry("session_id"@, json::JsonView::Text(session_id)));
    assert(m[3] == json::entry("target"@, json::JsonView::Text(e.target)));
    assert(m[4] == json::entry("action"@, json::JsonView::Text(e.action)));
    assert(m[5] == json::entry("reason_code"@, json::JsonView::Text(e.reason_code)));
    assert(m[6] == json::entry("reason_detail"@, json::opt_text(e.reason_detail)));
    assert(m[7] == json::entry("metric_values"@, opt_tree(e.metric_values)));
    assert(m[8] == json::entry("confidence"@, opt_number(e.confidence)));
    assert(m[9] == json::entry("target_agent"@, json::opt_text(e.target_agent)));
    assert(m[10] == json::entry("proposed_instruction"@, json::opt_text(e.proposed_instruction)));
}

/// Every entry of a journal has its event, in order and numbered, and one event counts them.
pub proof fn every_entry_has_its_event(
    events: Seq<CausalEventRecord>,
    category: Seq<char>,
    agent_id: Seq<char>,
    session_id: Seq<char>,
    revision_id: Option<Seq<char>>,
    entries: Seq<EntryView>,
    unique: Seq<Seq<char>>,
    timestamp: Seq<char>,
    i: int,
)
    requires
        are_journal_events(
            events,
            category,
            agent_id,
            session_id,
            revision_id,
            entries,
            unique,
            timestamp,
        ),
        0 <= i < entries.len(),
        entries.len() <= u64::MAX,
    ensures
        events.len() == entries.len() + 1,
        events[i]@.action == "decision"@,
        events[i]@.target == Some(entries[i].target),
        events[i]@.event_seq == i,
        events[i]@.session_id == session_id,
        events[i]@.agent_id == agent_id,
        events[i]@.category == category,
        events[i]@.reason == entries[i].reason_detail,
        events[i]@.payload == Some(
            json::json_text(decision_payload(agent_id, session_id, revision_id, entries[i])),
        ),
        events.last()@.action == "decision_journal_recorded"@,
        events.last()@.event_seq == entries.len(),
        events.last()@.session_id == session_id,
{
    assert(events[i]@.action == "decision"@);
}

/// Every promotion of a journal leaves knowledge of its agent, its target and its
/// instruction, under the agent's tag.
pub proof fn every_promotion_leaves_knowledge(
    agent_id: Seq<char>,
    session_id: Seq<char>,
    es: Seq<EntryView>,
    i: int,
    to: Seq<char>,
    instruction: Seq<char>,
)
    requires
        0 <= i < es.len(),
        es[i].action == "promote_to_skill"@,
        es[i].target_agent == Some(to),
        es[i].proposed_instruction == Some(instruction),
    ensures
        exists|k: int|
            0 <= k < graduations(agent_id, session_id, es).len() && ({
                let m = #[trigger] graduations(agent_id, session_id, es)[k];
                &&& m.id == "grad-"@ + to + "-"@ + es[i].target
                &&& m.scope == "evolution/graduations"@
                &&& m.writer == agent_id && m.owner == agent_id
                &&& m.content == "promote_to_skill: agent="@ + to + ", target="@ + es[i].target
                    + ", instruction="@ + instruction
                &&& m.tags.contains("agent:"@ + to)
                &&& m.tags.contains("target:"@ + es[i].target)
                &&& m.tags.contains("type:promote_to_skill"@)
                &&& m.confidence == es[i].confidence
            }),
    decreases es.len(),
{
    let now = graduations(agent_id, session_id, es);
    let d = es.drop_last();
    let before = graduations(agent_id, session_id, d);
    if i == es.len() - 1 {
        let m = graduation(agent_id, session_id, es[i]);
        assert(now[before.len() as int] == m);
        assert(m.tags[1] == "type:promote_to_skill"@);
        assert(m.tags[2] == "agent:"@ + to);
        assert(m.tags[3] == "target:"@ + es[i].target);
    } else {
        assert(d[i] == es[i]);
        every_promotion_leaves_knowledge(agent_id, session_id, d, i, to, instruction);
        let k = choose|k: int|
            0 <= k < before.len() && ({
                let m = #[trigger] before[k];
                &&& m.id == "grad-"@ + to + "-"@ + es[i].target
                &&& m.scope == "evolution/graduations"@
                &&& m.writer == agent_id && m.owner == agent_id
                &&& m.content == "promote_to_skill: agent="@ + to + ", target="@ + es[i].target
                    + ", instruction="@ + instruction
                &&& m.tags.contains("agent:"@ + to)
                &&& m.tags.contains("target:"@ + es[i].target)
                &&& m.tags.contains("type:promote_to_skill"@)
                &&& m.confidence == es[i].confidence
            });
        assert(now[k] == before[k]);
    }
}

/// Entries that promote nothing, or do not say where, leave no knowledge.
pub proof fn only_promotions_leave_knowledge(
    agent_id: Seq<char>,
    session_id: Seq<char>,
    es: Seq<EntryView>,
)
    ensures
        graduations(agent_id, session_id, es).len() == es.filter(
            |e: EntryView|
                e.action == "promote_to_skill"@ && e.target_agent is Some
                    && e.proposed_instruction is Some,
        ).len(),
    decreases es.len(),
{
    reveal(Seq::filter);
    if es.len() > 0 {
        only_promotions_leave_knowledge(agent_id, session_id, es.drop_last());
    }
}

/// A curator's whole output is kept as it is, under its session's tag.
pub proof fn outputs_are_kept_whole(agent_id: Seq<char>, session_id: Seq<char>, content: Seq<char>)
    ensures
        output_memory(agent_id, session_id, content).content == content,
        output_memory(agent_id, session_id, content).owner == agent_id,
        output_memory(agent_id, session_id, content).scope == "evolution/curator_output"@,
        output_memory(agent_id, session_id, content).tags.contains("session:"@ + session_id),
        output_memory(agent_id, session_id, content).tags.contains("type:curator_output"@),
{
    let m = output_memory(agent_id, session_id, content);
    assert(m.tags[1] == "type:curator_output"@);
    assert(m.tags[2] == "session:"@ + session_id);
}

/// What stands in a code fence is taken without the fence and without the word `json` that
/// opens it.
pub proof fn fences_are_left_out(body: Seq<char>, tail: Seq<char>)
    requires
        body.len() > 0,
        !text::is_white(body[0]),
        forall|i: int|
            0 <= i < body.len() ==> !#[trigger] text::occurs_at(body + "```"@ + tail, "```"@, i),
    ensures
        fenced("```json"@ + (body + "```"@ + tail)) == body,
{
    reveal_strlit("```");
    reveal_strlit("json");
    reveal_strlit("```json");
    let inner = body + "```"@ + tail;
    let t = "```json"@ + inner;
    let after = "json"@ + inner;
    assert(text::find_text(t, "```"@, 0) == Some(0int)) by {
        assert(t.subrange(0, 3) =~= "```"@);
        assert(text::occurs_at(t, "```"@, 0));
    }
    assert(rest_of(t, 3) =~= after);
    assert(text::trim_start(after) == after) by {
        assert(after[0] == 'j');
    }
    assert(text::begins_with(after, "json"@)) by {
        assert(after.subrange(0, 4) =~= "json"@);
    }
    assert(rest_of(after, 4) =~= inner);
    assert(text::trim_start(inner) == inner) by {
        assert(inner[0] == body[0]);
    }
    assert(text::find_text(inner, "```"@, 0) == Some(body.len() as int)) by {
        text::lemma_find_text(inner, "```"@, 0);
        let b = body.len() as int;
        assert(inner.subrange(b, b + 3) =~= "```"@);
        assert(text::occurs_at(inner, "```"@, b));
    }
    assert(inner.subrange(0, body.len() as int) =~= body);
}

/// What is said of a promotion that cannot be routed names its target and each field that it
/// lacks.
pub proof fn unrouted_promotions_are_told(e: EntryView)
    ensures
        text::has_text(routing_message(e), e.target),
        e.target_agent is None ==> text::has_text(routing_message(e), "target_agent"@),
        e.proposed_instruction is None ==> text::has_text(
            routing_message(e),
            "proposed_instruction"@,
        ),
{
    let a = "promote_to_skill entry for target '"@;
    let b = "' is missing required routing field(s): "@;
    let m = missing_fields(e);
    let c =
        ". Include both 'target_agent' (the agent receiving the instruction) and 'proposed_instruction' (the concrete instruction text to add to its SKILL.md)."@;
    let rest = b + m + c;
    let all = routing_message(e);
    let none = Seq::<char>::empty();
    text::lemma_has_text_around(a, e.target, rest);
    assert(a + e.target + rest =~= all);
    text::lemma_has_text_around(a + e.target + b, m, c);
    reveal_strlit("target_agent, proposed_instruction");
    reveal_strlit("target_agent");
    reveal_strlit("proposed_instruction");
    let both = "target_agent, proposed_instruction"@;
    assert(text::has_text(both, "target_agent"@)) by {
        assert(both.subrange(0, 12) =~= "target_agent"@);
        assert(text::occurs_at(both, "target_agent"@, 0));
    }
    assert(text::has_text(both, "proposed_instruction"@)) by {
        assert(both.subrange(14, 34) =~= "proposed_instruction"@);
        assert(text::occurs_at(both, "proposed_instruction"@, 14));
    }
    if e.target_agent is None {
        if m == "target_agent"@ {
        } else {
            text::lemma_has_text_trans(all, m, "target_agent"@);
        }
    }
    if e.proposed_instruction is None {
        if m == both {
            text::lemma_has_text_trans(all, m, "proposed_instruction"@);
        }
    }
}

/// The knowledge of a promotion tells the session and the journal that it comes from, and the
/// curator that wrote it.
pub proof fn promotions_tell_their_source(agent_id: Seq<char>, session_id: Seq<char>, e: EntryView)
    ensures
        graduation(agent_id, session_id, e).source_ref == "session:"@ + session_id
            + ":decision_journal"@,
        graduation(agent_id, session_id, e).owner == agent_id,
        graduation(agent_id, session_id, e).tags.contains("source:memory_curator"@),
        text::begins_with(output_id(session_id), "curator-output-"@),
{
    let m = graduation(agent_id, session_id, e);
    assert(m.tags[0] == "source:memory_curator"@);
    let o = output_id(session_id);
    assert(o.subrange(0, "curator-output-"@.len() as int) =~= "curator-output-"@);
}

} // verus!
