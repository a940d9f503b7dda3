//! Causal events: the records by which decisions stay explainable.

use crate::clock;
use crate::text;
use vstd::prelude::*;

verus! {

/// One entry of the causal chain.
#[derive(Debug)]
pub struct CausalEventRecord {
    pub event_id: String,
    pub agent_id: String,
    pub session_id: String,
    pub turn_id: Option<String>,
    pub event_seq: u64,
    pub timestamp: String,
    pub category: String,
    pub action: String,
    pub status: String,
    pub enforced_rules: Vec<String>,
    pub target: Option<String>,
    pub payload: Option<String>,
    pub payload_ref: Option<String>,
    pub evidence_ref: Option<String>,
    pub reason: Option<String>,
}

/// The mathematical model of a [`CausalEventRecord`].
pub struct EventView {
    pub event_id: Seq<char>,
    pub agent_id: Seq<char>,
    pub session_id: Seq<char>,
    pub turn_id: Option<Seq<char>>,
    pub event_seq: u64,
    pub timestamp: Seq<char>,
    pub category: Seq<char>,
    pub action: Seq<char>,
    pub status: Seq<char>,
    pub enforced_rules: Seq<Seq<char>>,
    pub target: Option<Seq<char>>,
    pub payload: Option<Seq<char>>,
    pub payload_ref: Option<Seq<char>>,
    pub evidence_ref: Option<Seq<char>>,
    pub reason: Option<Seq<char>>,
}

impl View for CausalEventRecord {
    type V = EventView;

    open spec fn view(&self) -> EventView {
        EventView {
            event_id: self.event_id@,
            agent_id: self.agent_id@,
            session_id: self.session_id@,
            turn_id: self.turn_id.deep_view(),
            event_seq: self.event_seq,
            timestamp: self.timestamp@,
            category: self.category@,
            action: self.action@,
            status: self.status@,
            enforced_rules: self.enforced_rules.deep_view(),
            target: self.target.deep_view(),
            payload: self.payload.deep_view(),
            payload_ref: self.payload_ref.deep_view(),
            evidence_ref: self.evidence_ref.deep_view(),
            reason: self.reason.deep_view(),
        }
    }
}

/// What an event takes from its surroundings: a unique suffix for its id, the
/// time, and the rule under which every event is attributed.
#[derive(Debug)]
pub struct EventStamp {
    pub unique: String,
    pub timestamp: String,
    pub attribution_rule: String,
}

/// A text has the form of a UUID: 32 digits in lower-case hexadecimal, with four
/// hyphens among them.
pub open spec fn is_uuid_text(s: Seq<char>) -> bool {
    &&& s.len() == 36
    &&& forall|i: int|
        0 <= i < 36 ==> if i == 8 || i == 13 || i == 18 || i == 23 {
            #[trigger] s[i] == '-'
        } else {
            '0' <= s[i] <= '9' || 'a' <= s[i] <= 'f'
        }
}

/// `uuid::Uuid::new_v4` as text. The result is random; only its form is claimed.
#[verifier::external_body]
pub(crate) fn random_uuid() -> (r: String)
    ensures
        is_uuid_text(r@),
{
    uuid::Uuid::new_v4().to_string()
}

/// A stamp could have been made just now: its suffix has the form of a UUID and
/// its time that of the clock.
pub open spec fn is_fresh(s: EventStamp) -> bool {
    is_uuid_text(s.unique@) && clock::is_utc_text(s.timestamp@)
}

/// A stamp with a fresh suffix and the present time.
pub fn fresh_stamp(attribution_rule: &str) -> (r: EventStamp)
    ensures
        r.attribution_rule@ == attribution_rule@,
        is_fresh(r),
{
    EventStamp {
        unique: random_uuid(),
        timestamp: clock::now_rfc3339(),
        attribution_rule: attribution_rule.to_owned(),
    }
}

/// Who an event is about.
#[derive(Debug)]
pub struct EventSubject {
    pub session_id: String,
    pub agent_id: String,
    pub turn_id: Option<String>,
}

/// An owned copy of an optional text.
pub fn owned_opt(o: Option<&str>) -> (r: Option<String>)
    ensures
        r.deep_view() == opt_view(o),
{
    match o {
        Some(s) => Some(s.to_owned()),
        None => None,
    }
}

/// The model of an optional text.
pub open spec fn opt_view(o: Option<&str>) -> Option<Seq<char>> {
    match o {
        Some(s) => Some(s@),
        None => None,
    }
}

} // verus!
