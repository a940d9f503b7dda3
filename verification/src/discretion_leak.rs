//! The register of the gateway's own judgment calls.
//!
//! Every time the gateway reshapes what an agent said, it leaves an event, so
//! that such calls can be counted.

use crate::causal;
use crate::causal::{CausalEventRecord, EventStamp};
use crate::json;
use crate::json::Fields;
use crate::text;
use vstd::prelude::*;

verus! {

/// Who was on stage when the gateway exercised judgment.
#[derive(Debug)]
pub struct LeakScope {
    pub agent_id: String,
    pub session_id: String,
    pub turn_id: Option<String>,
}

impl LeakScope {
    pub fn new(agent_id: &str, session_id: &str, turn_id: Option<String>) -> (r: LeakScope)
        ensures
            r.agent_id@ == agent_id@,
            r.session_id@ == session_id@,
            r.turn_id == turn_id,
    {
        LeakScope {
            agent_id: agent_id.to_owned(),
            session_id: session_id.to_owned(),
            turn_id,
        }
    }
}

/// The payload of a leak.
pub open spec fn leak_payload(kind: Seq<char>, detail: Seq<char>) -> json::JsonView {
    json::JsonView::Object(
        json::no_fields().push(json::entry("kind"@, json::JsonView::Text(kind))).push(
            json::entry("detail"@, json::JsonView::Text(detail)),
        ),
    )
}

/// The event that records a leak.
pub open spec fn leak_record(
    scope: LeakScope,
    stamp: EventStamp,
    kind: Seq<char>,
    detail: Seq<char>,
    rules: Seq<Seq<char>>,
) -> causal::EventView {
    causal::EventView {
        event_id: "leak-"@ + stamp.unique@,
        agent_id: scope.agent_id@,
        session_id: scope.session_id@,
        turn_id: scope.turn_id.deep_view(),
        event_seq: 0,
        timestamp: stamp.timestamp@,
        category: "discretion_leak"@,
        action: kind,
        status: "recorded"@,
        enforced_rules: rules,
        target: None,
        payload: Some(json::json_text(leak_payload(kind, detail))),
        payload_ref: None,
        evidence_ref: None,
        reason: Some(
            "gateway exercised judgment reserved to the agent or to pre-committed law (§5.4)"@,
        ),
    }
}

/// The event that records a leak in the innermost of the installed scopes.
/// Outside any scope there is no one to attribute it to, and no event.
pub fn record_discretion_leak_at(
    scopes: &Vec<LeakScope>,
    stamp: &EventStamp,
    kind: &str,
    detail: &str,
    enforced_rules: &Vec<String>,
) -> (r: Option<CausalEventRecord>)
    ensures
        match r {
            Some(e) => scopes@.len() > 0 && e@ == leak_record(
                scopes@.last(),
                *stamp,
                kind@,
                detail@,
                enforced_rules.deep_view(),
            ),
            None => scopes@.len() == 0,
        },
{
    if scopes.len() == 0 {
        return None;
    }
    let scope = &scopes[scopes.len() - 1];
    let mut f = Fields::new();
    f.text("kind", kind);
    f.text("detail", detail);
    let payload = f.object();
    let mut event_id = "leak-".to_owned();
    event_id.append(stamp.unique.as_str());
    Some(
        CausalEventRecord {
            event_id,
            agent_id: scope.agent_id.clone(),
            session_id: scope.session_id.clone(),
            turn_id: text::clone_opt(&scope.turn_id),
            event_seq: 0,
            timestamp: stamp.timestamp.clone(),
            category: "discretion_leak".to_owned(),
            action: kind.to_owned(),
            status: "recorded".to_owned(),
            enforced_rules: text::clone_all(enforced_rules),
            target: None,
            payload: Some(json::render_json(&payload)),
            payload_ref: None,
            evidence_ref: None,
            reason: Some(
                "gateway exercised judgment reserved to the agent or to pre-committed law (§5.4)".to_owned(),
            ),
        },
    )
}

/// [`record_discretion_leak_at`] with a fresh id and the present time.
pub fn record_discretion_leak(
    scopes: &Vec<LeakScope>,
    kind: &str,
    detail: &str,
    enforced_rules: &Vec<String>,
) -> (r: Option<CausalEventRecord>)
    ensures
        match r {
            Some(e) => scopes@.len() > 0 && exists|stamp: EventStamp|
                causal::is_fresh(stamp) && e@ == #[trigger] leak_record(
                    scopes@.last(),
                    stamp,
                    kind@,
                    detail@,
                    enforced_rules.deep_view(),
                ),
            None => scopes@.len() == 0,
        },
{
    let stamp = causal::fresh_stamp("");
    record_discretion_leak_at(scopes, &stamp, kind, detail, enforced_rules)
}

/// How often a kind of leak was recorded under a rule.
#[derive(Debug)]
pub struct DiscretionLeakTally {
    pub rule_id: String,
    pub kind: String,
    pub count: u64,
}

/// The record of a leak tells the kind and the detail, and stands under the scope's session
/// and agent.
pub proof fn leaks_are_told_whole(
    scope: LeakScope,
    stamp: EventStamp,
    kind: Seq<char>,
    detail: Seq<char>,
    rules: Seq<Seq<char>>,
)
    ensures
        leak_payload(kind, detail)->Object_0.contains(
            json::entry("kind"@, json::JsonView::Text(kind)),
        ),
        leak_payload(kind, detail)->Object_0.contains(
            json::entry("detail"@, json::JsonView::Text(detail)),
        ),
        ({
            let e = leak_record(scope, stamp, kind, detail, rules);
            &&& e.session_id == scope.session_id@
            &&& e.agent_id == scope.agent_id@
            &&& e.turn_id == scope.turn_id.deep_view()
            &&& e.category == "discretion_leak"@
            &&& e.action == kind
            &&& e.enforced_rules == rules
            &&& e.payload == Some(json::json_text(leak_payload(kind, detail)))
            &&& e.timestamp == stamp.timestamp@
            &&& e.event_id == "leak-"@ + stamp.unique@
        }),
{
    let m = leak_payload(kind, detail)->Object_0;
    assert(m[0] == json::entry("kind"@, json::JsonView::Text(kind)));
    assert(m[1] == json::entry("detail"@, json::JsonView::Text(detail)));
}

} // verus!
