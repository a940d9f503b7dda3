//! What is recorded of egress decisions.
//!
//! Every decision leaves a notice: metadata alone, never content. A notice
//! becomes a causal event once it is stamped with an id, a time and a subject.

use crate::causal;
use crate::causal::{CausalEventRecord, EventStamp};
use crate::egress;
use crate::egress::{EgressClass, EgressLabel, Provenance, Sink};
use crate::egress_labeler;
use crate::egress_labeler::{EgressLabeler, LabelOutcome, LabelRequest, Resolution};
use crate::egress_routing::EgressRoutingPlan;
use crate::json;
use crate::json::{Fields, Json};
use crate::text;
use vstd::prelude::*;

verus! {

/// A decision that is to be recorded.
#[derive(Debug)]
pub struct EgressNotice {
    pub action: String,
    pub target: String,
    pub payload: Json,
    pub reason: String,
}

/// The mathematical model of an [`EgressNotice`].
pub struct NoticeView {
    pub action: Seq<char>,
    pub target: Seq<char>,
    pub payload: json::JsonView,
    pub reason: Seq<char>,
}

impl View for EgressNotice {
    type V = NoticeView;

    open spec fn view(&self) -> NoticeView {
        NoticeView {
            action: self.action@,
            target: self.target@,
            payload: self.payload@,
            reason: self.reason@,
        }
    }
}

/// The models of a list of notices.
pub open spec fn notice_views(v: Seq<EgressNotice>) -> Seq<NoticeView> {
    v.map_values(|n: EgressNotice| n@)
}

/// The clause that governs an action.
pub open spec fn clause_of(action: Seq<char>) -> Seq<char> {
    if action == "egress.boundary_refused"@ {
        "P-15.2"@
    } else if action == "egress.declassified"@ || action == "egress.relabel"@ {
        "P-15.3"@
    } else {
        "P-15.1"@
    }
}

/// The part of a name behind its last dot; all of it where there is none.
pub open spec fn last_segment(s: Seq<char>) -> Seq<char>
    decreases s.len(),
{
    if s.len() == 0 || s.last() == '.' {
        Seq::empty()
    } else {
        last_segment(s.drop_last()).push(s.last())
    }
}

/// The event that a stamped notice is.
pub open spec fn stamped(
    n: NoticeView,
    stamp: EventStamp,
    session_id: Seq<char>,
    agent_id: Seq<char>,
    turn_id: Option<Seq<char>>,
) -> causal::EventView {
    causal::EventView {
        event_id: "egress-"@ + last_segment(n.action) + "-"@ + stamp.unique@,
        agent_id,
        session_id,
        turn_id,
        event_seq: 0,
        timestamp: stamp.timestamp@,
        category: "egress"@,
        action: n.action,
        status: "active"@,
        enforced_rules: seq![stamp.attribution_rule@].push(clause_of(n.action)),
        target: Some(n.target),
        payload: Some(json::json_text(n.payload)),
        payload_ref: None,
        evidence_ref: None,
        reason: Some(n.reason),
    }
}

fn clause_str(action: &str) -> (r: &'static str)
    ensures
        r@ == clause_of(action@),
{
    if text::text_eq(action, "egress.boundary_refused") {
        "P-15.2"
    } else if text::text_eq(action, "egress.declassified") || text::text_eq(
        action,
        "egress.relabel",
    ) {
        "P-15.3"
    } else {
        "P-15.1"
    }
}

fn last_segment_exec(s: &str) -> (r: String)
    ensures
        r@ == last_segment(s@),
{
    let v = text::chars_of(s);
    let mut i: usize = v.len();
    assert(v@.subrange(0, v@.len() as int) =~= v@);
    assert(last_segment(v@.subrange(0, i as int)) + v@.subrange(i as int, v@.len() as int)
        =~= last_segment(v@));
    while i > 0 && v[i - 1] != '.'
        invariant
            i <= v@.len(),
            last_segment(v@.subrange(0, i as int)) + v@.subrange(i as int, v@.len() as int)
                == last_segment(v@),
        decreases i,
    {
        proof {
            let p = v@.subrange(0, i as int);
            assert(p.drop_last() =~= v@.subrange(0, i - 1));
            assert(p.last() == v@[i - 1]);
            assert(last_segment(v@.subrange(0, i - 1)) + v@.subrange(i - 1, v@.len() as int)
                =~= last_segment(p) + v@.subrange(i as int, v@.len() as int));
        }
        i = i - 1;
    }
    proof {
        assert(last_segment(v@.subrange(0, i as int)) =~= Seq::<char>::empty());
        assert(v@.subrange(i as int, v@.len() as int) =~= last_segment(v@));
    }
    text::string_of(&v, i, v.len())
}

fn rules_of(stamp: &EventStamp, clause: &str) -> (r: Vec<String>)
    ensures
        r.deep_view() == seq![stamp.attribution_rule@].push(clause@),
{
    let mut v: Vec<String> = Vec::new();
    assert(v.deep_view() =~= Seq::<Seq<char>>::empty());
    egress::push_name(&mut v, stamp.attribution_rule.as_str());
    egress::push_name(&mut v, clause);
    v
}

/// Stamps a notice: the causal event that records it.
pub fn stamp_notice_at(
    notice: &EgressNotice,
    stamp: &EventStamp,
    session_id: &str,
    agent_id: &str,
    turn_id: Option<&str>,
) -> (r: CausalEventRecord)
    ensures
        r@ == stamped(notice@, *stamp, session_id@, agent_id@, causal::opt_view(turn_id)),
{
    let mut event_id = "egress-".to_owned();
    event_id.append(last_segment_exec(notice.action.as_str()).as_str());
    event_id.append("-");
    event_id.append(stamp.unique.as_str());
    CausalEventRecord {
        event_id,
        agent_id: agent_id.to_owned(),
        session_id: session_id.to_owned(),
        turn_id: causal::owned_opt(turn_id),
        event_seq: 0,
        timestamp: stamp.timestamp.clone(),
        category: "egress".to_owned(),
        action: notice.action.clone(),
        status: "active".to_owned(),
        enforced_rules: rules_of(stamp, clause_str(notice.action.as_str())),
        target: Some(notice.target.clone()),
        payload: Some(json::render_json(&notice.payload)),
        payload_ref: None,
        evidence_ref: None,
        reason: Some(notice.reason.clone()),
    }
}

/// Stamps a notice with a fresh id and the present time.
pub fn stamp_notice(
    notice: &EgressNotice,
    attribution_rule: &str,
    session_id: &str,
    agent_id: &str,
    turn_id: Option<&str>,
) -> (r: CausalEventRecord)
    ensures
        exists|stamp: EventStamp|
            stamp.attribution_rule@ == attribution_rule@ && causal::is_fresh(stamp) && r@
                == #[trigger] stamped(
                notice@,
                stamp,
                session_id@,
                agent_id@,
                causal::opt_view(turn_id),
            ),
{
    let stamp = causal::fresh_stamp(attribution_rule);
    stamp_notice_at(notice, &stamp, session_id, agent_id, turn_id)
}

// ---------------------------------------------------------------------------
// Labels
// ---------------------------------------------------------------------------

/// A label as JSON: the names of the sinks that it allows.
pub open spec fn label_json(l: EgressLabel) -> json::JsonView {
    json::text_list(egress::sink_names(l))
}

/// A label as JSON.
pub fn label_to_json(l: &EgressLabel) -> (r: Json)
    ensures
        r@ == label_json(*l),
{
    json::texts_json(&egress::label_sinks(l))
}

/// One matched rule with its scope, as JSON.
pub open spec fn matched_json(m: egress_labeler::MatchedRuleView) -> json::JsonView {
    json::JsonView::Object(
        json::no_fields().push(json::entry("rule"@, json::JsonView::Text(m.key))).push(
            json::entry("scope"@, json::JsonView::Text(egress_labeler::scope_name(m.scope))),
        ),
    )
}

/// The matched rules with their scopes, as JSON.
pub open spec fn matched_list(m: Seq<egress_labeler::MatchedRuleView>) -> json::JsonView {
    json::JsonView::List(m.map_values(|r: egress_labeler::MatchedRuleView| matched_json(r)))
}

fn matched_list_exec(r: &Resolution) -> (j: Json)
    ensures
        j@ == matched_list(r@.matched),
{
    let mut out: Vec<Json> = Vec::new();
    let mut i: usize = 0;
    while i < r.matched.len()
        invariant
            i <= r.matched@.len(),
            out@.len() == i,
            forall|k: int| 0 <= k < i ==> (#[trigger] out@[k])@ == matched_json(r.matched@[k]@),
        decreases r.matched@.len() - i,
    {
        let mut f = Fields::new();
        f.text("rule", r.matched[i].key.as_str());
        f.text("scope", r.matched[i].scope.as_str());
        out.push(f.object());
        i = i + 1;
    }
    let j = Json::List(out);
    assert(j@->List_0 =~= matched_list(r@.matched)->List_0);
    j
}

/// Everything that went into a label, as JSON.
pub open spec fn labeled_payload(
    labeler: EgressLabeler,
    envelope_id: Seq<char>,
    tool_call_id: Seq<char>,
    tool: Seq<char>,
    r: egress_labeler::ResolutionView,
    matched_rules: Seq<Seq<char>>,
    args_digest: Option<Seq<char>>,
    parents: Seq<Seq<char>>,
) -> json::JsonView {
    json::JsonView::Object(
        json::no_fields().push(
            json::entry("envelope_id"@, json::JsonView::Text(envelope_id)),
        ).push(json::entry("tool_call_id"@, json::JsonView::Text(tool_call_id))).push(
            json::entry("tool_name"@, json::JsonView::Text(tool)),
        ).push(json::entry("label"@, label_json(r.label))).push(
            json::entry("matched_rules"@, json::text_list(matched_rules)),
        ).push(json::entry("matched_rule_scopes"@, matched_list(r.matched))).push(
            json::entry("matched_paths"@, json::text_list(r.paths)),
        ).push(json::entry("args_digest"@, json::opt_text(args_digest))).push(
            json::entry("default_label"@, label_json(labeler.default_label)),
        ).push(json::entry("global_default_label"@, label_json(labeler.global_default))).push(
            json::entry(
                "session_default_applied"@,
                json::JsonView::Bool(labeler.session_default_applied),
            ),
        ).push(
            json::entry("bundle_floor_applied"@, json::JsonView::Bool(r.bundle_floor_applied)),
        ).push(json::entry("parent_envelope_ids"@, json::text_list(parents))).push(
            json::entry("taint_applied"@, json::JsonView::Bool(r.taint_applied)),
        ).push(
            json::entry("artifact_labels_applied"@, json::text_list(r.artifact_labels_applied)),
        ).push(
            json::entry("workspace_labels_applied"@, json::text_list(r.workspace_labels_applied)),
        ).push(
            json::entry(
                "resolution"@,
                json::JsonView::Text(egress_labeler::resolution_kind(r.matched)),
            ),
        ),
    )
}

fn opt_str(o: &Option<String>) -> (r: Option<&str>)
    ensures
        causal::opt_view(r) == o.deep_view(),
{
    match o {
        Some(s) => Some(s.as_str()),
        None => None,
    }
}

/// Everything that went into the label of a tool result.
pub fn labeled_payload_of(
    labeler: &EgressLabeler,
    req: &LabelRequest<'_>,
    outcome: &LabelOutcome,
) -> (r: Json)
    ensures
        r@ == labeled_payload(
            *labeler,
            outcome.envelope_id@,
            req.tool_call_id@,
            req.tool@,
            outcome.resolution@,
            outcome.provenance.matched_rules.deep_view(),
            outcome.provenance.args_digest.deep_view(),
            outcome.provenance.parent_envelope_ids.deep_view(),
        ),
{
    let res = &outcome.resolution;
    let mut f = Fields::new();
    f.text("envelope_id", outcome.envelope_id.as_str());
    f.text("tool_call_id", req.tool_call_id);
    f.text("tool_name", req.tool);
    f.put("label", label_to_json(&res.label));
    f.texts("matched_rules", &outcome.provenance.matched_rules);
    f.put("matched_rule_scopes", matched_list_exec(res));
    f.texts("matched_paths", &res.paths);
    f.maybe("args_digest", opt_str(&outcome.provenance.args_digest));
    f.put("default_label", label_to_json(&labeler.default_label));
    f.put("global_default_label", label_to_json(&labeler.global_default));
    f.flag("session_default_applied", labeler.session_default_applied);
    f.flag("bundle_floor_applied", res.bundle_floor_applied);
    f.texts("parent_envelope_ids", &outcome.provenance.parent_envelope_ids);
    f.flag("taint_applied", res.taint_applied);
    f.texts("artifact_labels_applied", &res.artifact_labels_applied);
    f.texts("workspace_labels_applied", &res.workspace_labels_applied);
    f.text("resolution", res.kind());
    f.object()
}

/// The event that records the label of a tool result.
pub open spec fn labeled_event(
    envelope_id: Seq<char>,
    payload: json::JsonView,
    stamp: EventStamp,
    session_id: Seq<char>,
    agent_id: Seq<char>,
    turn_id: Option<Seq<char>>,
) -> causal::EventView {
    causal::EventView {
        event_id: "egress-labeled-"@ + stamp.unique@,
        agent_id,
        session_id,
        turn_id,
        event_seq: 0,
        timestamp: stamp.timestamp@,
        category: "egress"@,
        action: "egress.envelope_labeled"@,
        status: "active"@,
        enforced_rules: seq![stamp.attribution_rule@].push("P-15.1"@),
        target: Some(envelope_id),
        payload: Some(json::json_text(payload)),
        payload_ref: None,
        evidence_ref: None,
        reason: Some("egress_label_resolved"@),
    }
}

/// The event that records the label of a tool result, with every input of its
/// resolution.
pub fn envelope_labeled_event_at(
    labeler: &EgressLabeler,
    req: &LabelRequest<'_>,
    outcome: &LabelOutcome,
    stamp: &EventStamp,
    session_id: &str,
    agent_id: &str,
    turn_id: Option<&str>,
) -> (r: CausalEventRecord)
    ensures
        r@ == labeled_event(
            outcome.envelope_id@,
            labeled_payload(
                *labeler,
                outcome.envelope_id@,
                req.tool_call_id@,
                req.tool@,
                outcome.resolution@,
                outcome.provenance.matched_rules.deep_view(),
                outcome.provenance.args_digest.deep_view(),
                outcome.provenance.parent_envelope_ids.deep_view(),
            ),
            *stamp,
            session_id@,
            agent_id@,
            causal::opt_view(turn_id),
        ),
{
    let payload = labeled_payload_of(labeler, req, outcome);
    let mut event_id = "egress-labeled-".to_owned();
    event_id.append(stamp.unique.as_str());
    CausalEventRecord {
        event_id,
        agent_id: agent_id.to_owned(),
        session_id: session_id.to_owned(),
        turn_id: causal::owned_opt(turn_id),
        event_seq: 0,
        timestamp: stamp.timestamp.clone(),
        category: "egress".to_owned(),
        action: "egress.envelope_labeled".to_owned(),
        status: "active".to_owned(),
        enforced_rules: rules_of(stamp, "P-15.1"),
        target: Some(outcome.envelope_id.clone()),
        payload: Some(json::render_json(&payload)),
        payload_ref: None,
        evidence_ref: None,
        reason: Some("egress_label_resolved".to_owned()),
    }
}

/// [`envelope_labeled_event_at`] with a fresh id and the present time.
pub fn envelope_labeled_event(
    labeler: &EgressLabeler,
    req: &LabelRequest<'_>,
    outcome: &LabelOutcome,
    attribution_rule: &str,
    session_id: &str,
    agent_id: &str,
    turn_id: Option<&str>,
) -> (r: CausalEventRecord)
    ensures
        exists|stamp: EventStamp|
            stamp.attribution_rule@ == attribution_rule@ && causal::is_fresh(stamp) && r@
                == #[trigger] labeled_event(
                outcome.envelope_id@,
                labeled_payload(
                    *labeler,
                    outcome.envelope_id@,
                    req.tool_call_id@,
                    req.tool@,
                    outcome.resolution@,
                    outcome.provenance.matched_rules.deep_view(),
                    outcome.provenance.args_digest.deep_view(),
                    outcome.provenance.parent_envelope_ids.deep_view(),
                ),
                stamp,
                session_id@,
                agent_id@,
                causal::opt_view(turn_id),
            ),
{
    let stamp = causal::fresh_stamp(attribution_rule);
    envelope_labeled_event_at(labeler, req, outcome, &stamp, session_id, agent_id, turn_id)
}

// ---------------------------------------------------------------------------
// The chokepoint before a model call
// ---------------------------------------------------------------------------

/// A message that was withheld from a model call.
#[derive(Debug)]
pub struct WithheldEntry {
    pub tool_call_id: String,
    pub label: EgressLabel,
    /// The text that took the content's place.
    pub indication: String,
}

/// Withheld content that was found in the request after all.
#[derive(Debug)]
pub struct AssertionViolation {
    pub tool_call_id: String,
    pub payload_digest: String,
    pub found_in_message_index: usize,
}

/// What the chokepoint did to one request.
#[derive(Debug)]
pub struct FilterReport {
    pub sink: Sink,
    pub withheld: Vec<WithheldEntry>,
    pub included: usize,
    pub violations: Vec<AssertionViolation>,
}

/// The notice of a withheld message.
pub open spec fn withheld_notice(sink: Sink, e: WithheldEntry) -> NoticeView {
    NoticeView {
        action: "egress.envelope_withheld"@,
        target: e.tool_call_id@,
        payload: json::JsonView::Object(
            json::no_fields().push(
                json::entry("tool_call_id"@, json::JsonView::Text(e.tool_call_id@)),
            ).push(
                json::entry("target_sink"@, json::JsonView::Text(egress::sink_name(sink))),
            ).push(json::entry("label"@, label_json(e.label))).push(
                json::entry("indication"@, json::JsonView::Text(e.indication@)),
            ),
        ),
        reason: "egress_envelope_withheld"@,
    }
}

/// The notice that sums up a filtered request.
pub open spec fn filtered_notice(r: FilterReport, preset: Seq<char>) -> NoticeView {
    NoticeView {
        action: "egress.request_filtered"@,
        target: preset,
        payload: json::JsonView::Object(
            json::no_fields().push(
                json::entry("target_sink"@, json::JsonView::Text(egress::sink_name(r.sink))),
            ).push(json::entry("preset"@, json::JsonView::Text(preset))).push(
                json::entry("withheld_count"@, json::count(r.withheld@.len())),
            ).push(json::entry("included_count"@, json::count(r.included as nat))).push(
                json::entry("violation_count"@, json::count(r.violations@.len())),
            ),
        ),
        reason: "egress_request_filtered"@,
    }
}

/// The notice of withheld content that was found in the request.
pub open spec fn violation_notice(sink: Sink, v: AssertionViolation) -> NoticeView {
    NoticeView {
        action: "egress.assertion_violation"@,
        target: v.tool_call_id@,
        payload: json::JsonView::Object(
            json::no_fields().push(
                json::entry("tool_call_id"@, json::JsonView::Text(v.tool_call_id@)),
            ).push(
                json::entry("target_sink"@, json::JsonView::Text(egress::sink_name(sink))),
            ).push(json::entry("payload_digest"@, json::JsonView::Text(v.payload_digest@))).push(
                json::entry("found_in_message_index"@, json::count(v.found_in_message_index as nat)),
            ),
        ),
        reason: "egress_assertion_violation"@,
    }
}

/// What is recorded of a request: one notice for each withheld message, one
/// that sums up, one for each violation; nothing where neither occurred.
pub open spec fn chokepoint_notices(r: FilterReport, preset: Seq<char>) -> Seq<NoticeView> {
    if r.withheld@.len() == 0 && r.violations@.len() == 0 {
        Seq::empty()
    } else {
        r.withheld@.map_values(|e: WithheldEntry| withheld_notice(r.sink, e)).push(
            filtered_notice(r, preset),
        ) + r.violations@.map_values(|v: AssertionViolation| violation_notice(r.sink, v))
    }
}

fn push_notice(out: &mut Vec<EgressNotice>, n: EgressNotice)
    ensures
        notice_views(final(out)@) == notice_views(old(out)@).push(n@),
{
    let ghost before = out@;
    out.push(n);
    assert(notice_views(out@) =~= notice_views(before).push(n@));
}

/// What is recorded of a request that went through the chokepoint.
pub fn chokepoint_events(report: &FilterReport, preset: &str) -> (r: Vec<EgressNotice>)
    ensures
        notice_views(r@) == chokepoint_notices(*report, preset@),
{
    let mut out: Vec<EgressNotice> = Vec::new();
    assert(notice_views(out@) =~= Seq::<NoticeView>::empty());
    if report.withheld.len() == 0 && report.violations.len() == 0 {
        return out;
    }
    let mut i: usize = 0;
    assert(notice_views(out@) =~= report.withheld@.subrange(0, 0).map_values(
        |e: WithheldEntry| withheld_notice(report.sink, e),
    ));
    while i < report.withheld.len()
        invariant
            i <= report.withheld@.len(),
            notice_views(out@) == report.withheld@.subrange(0, i as int).map_values(
                |e: WithheldEntry| withheld_notice(report.sink, e),
            ),
        decreases report.withheld@.len() - i,
    {
        let e = &report.withheld[i];
        let mut f = Fields::new();
        f.text("tool_call_id", e.tool_call_id.as_str());
        f.text("target_sink", egress::sink_str(report.sink));
        f.put("label", label_to_json(&e.label));
        f.text("indication", e.indication.as_str());
        let n = EgressNotice {
            action: "egress.envelope_withheld".to_owned(),
            target: e.tool_call_id.clone(),
            payload: f.object(),
            reason: "egress_envelope_withheld".to_owned(),
        };
        assert(n@ == withheld_notice(report.sink, *e));
        push_notice(&mut out, n);
        i = i + 1;
        assert(notice_views(out@) =~= report.withheld@.subrange(0, i as int).map_values(
            |e: WithheldEntry| withheld_notice(report.sink, e),
        ));
    }
    assert(report.withheld@.subrange(0, i as int) =~= report.withheld@);
    let mut f = Fields::new();
    f.text("target_sink", egress::sink_str(report.sink));
    f.text("preset", preset);
    f.number("withheld_count", report.withheld.len() as u64);
    f.number("included_count", report.included as u64);
    f.number("violation_count", report.violations.len() as u64);
    let n = EgressNotice {
        action: "egress.request_filtered".to_owned(),
        target: preset.to_owned(),
        payload: f.object(),
        reason: "egress_request_filtered".to_owned(),
    };
    push_notice(&mut out, n);
    let ghost head = notice_views(out@);
    assert(head =~= report.withheld@.map_values(
        |e: WithheldEntry| withheld_notice(report.sink, e),
    ).push(filtered_notice(*report, preset@)));
    let mut j: usize = 0;
    assert(head + report.violations@.subrange(0, 0).map_values(
        |v: AssertionViolation| violation_notice(report.sink, v),
    ) =~= head);
    while j < report.violations.len()
        invariant
            j <= report.violations@.len(),
            notice_views(out@) == head + report.violations@.subrange(0, j as int).map_values(
                |v: AssertionViolation| violation_notice(report.sink, v),
            ),
        decreases report.violations@.len() - j,
    {
        let v = &report.violations[j];
        let mut f = Fields::new();
        f.text("tool_call_id", v.tool_call_id.as_str());
        f.text("target_sink", egress::sink_str(report.sink));
        f.text("payload_digest", v.payload_digest.as_str());
        f.number("found_in_message_index", v.found_in_message_index as u64);
        let n = EgressNotice {
            action: "egress.assertion_violation".to_owned(),
            target: v.tool_call_id.clone(),
            payload: f.object(),
            reason: "egress_assertion_violation".to_owned(),
        };
        assert(n@ == violation_notice(report.sink, *v));
        push_notice(&mut out, n);
        j = j + 1;
        assert(notice_views(out@) =~= head + report.violations@.subrange(0, j as int).map_values(
            |v: AssertionViolation| violation_notice(report.sink, v),
        ));
    }
    assert(report.violations@.subrange(0, j as int) =~= report.violations@);
    out
}

// ---------------------------------------------------------------------------
// Other notices
// ---------------------------------------------------------------------------

/// How a class is written in payloads.
pub open spec fn class_wire_name(c: EgressClass) -> Seq<char> {
    match c {
        EgressClass::Local => "local"@,
        EgressClass::Remote => "remote"@,
    }
}

/// The notice that a band may not be summarized by a model of this class.
pub open spec fn band_refused(
    label: EgressLabel,
    class: EgressClass,
    source_ids: Seq<Seq<char>>,
    reason: Seq<char>,
) -> NoticeView {
    NoticeView {
        action: "egress.boundary_refused"@,
        target: egress::display_name(label),
        payload: json::JsonView::Object(
            json::no_fields().push(
                json::entry("surface"@, json::JsonView::Text("compression"@)),
            ).push(json::entry("band_label"@, label_json(label))).push(
                json::entry("band_label_name"@, json::JsonView::Text(egress::display_name(label))),
            ).push(
                json::entry("preset_class"@, json::JsonView::Text(class_wire_name(class))),
            ).push(json::entry("source_ids"@, json::text_list(source_ids))).push(
                json::entry("reason"@, json::JsonView::Text(reason)),
            ).push(
                json::entry("fallback"@, json::JsonView::Text("token_budget_truncation"@)),
            ),
        ),
        reason: "egress_boundary_refused"@,
    }
}

/// The notice that a band may not be summarized by a model of this class.
pub fn boundary_refused_notice(
    band_label: &EgressLabel,
    preset_class: EgressClass,
    source_ids: &Vec<String>,
    reason: &str,
) -> (r: EgressNotice)
    ensures
        r@ == band_refused(*band_label, preset_class, source_ids.deep_view(), reason@),
{
    let name = egress::label_display_name(band_label);
    let mut f = Fields::new();
    f.text("surface", "compression");
    f.put("band_label", label_to_json(band_label));
    f.text("band_label_name", name.as_str());
    f.text(
        "preset_class",
        match preset_class {
            EgressClass::Local => "local",
            EgressClass::Remote => "remote",
        },
    );
    f.texts("source_ids", source_ids);
    f.text("reason", reason);
    f.text("fallback", "token_budget_truncation");
    EgressNotice {
        action: "egress.boundary_refused".to_owned(),
        target: name,
        payload: f.object(),
        reason: "egress_boundary_refused".to_owned(),
    }
}

/// The notice that content may not leave through a surface.
pub open spec fn surface_refused(
    surface: Seq<char>,
    label: EgressLabel,
    envelope_ids: Seq<Seq<char>>,
    reason: Seq<char>,
) -> NoticeView {
    NoticeView {
        action: "egress.boundary_refused"@,
        target: egress::display_name(label),
        payload: json::JsonView::Object(
            json::no_fields().push(json::entry("surface"@, json::JsonView::Text(surface))).push(
                json::entry("label"@, label_json(label)),
            ).push(
                json::entry("label_name"@, json::JsonView::Text(egress::display_name(label))),
            ).push(json::entry("envelope_ids"@, json::text_list(envelope_ids))).push(
                json::entry("reason"@, json::JsonView::Text(reason)),
            ),
        ),
        reason: "egress_boundary_refused"@,
    }
}

/// The notice that content may not leave through a surface.
pub fn surface_boundary_refused_notice(
    surface: &str,
    label: &EgressLabel,
    envelope_ids: &Vec<String>,
    reason: &str,
) -> (r: EgressNotice)
    ensures
        r@ == surface_refused(surface@, *label, envelope_ids.deep_view(), reason@),
{
    let name = egress::label_display_name(label);
    let mut f = Fields::new();
    f.text("surface", surface);
    f.put("label", label_to_json(label));
    f.text("label_name", name.as_str());
    f.texts("envelope_ids", envelope_ids);
    f.text("reason", reason);
    EgressNotice {
        action: "egress.boundary_refused".to_owned(),
        target: name,
        payload: f.object(),
        reason: "egress_boundary_refused".to_owned(),
    }
}

/// A provenance as JSON.
pub open spec fn provenance_json(p: Provenance) -> json::JsonView {
    json::JsonView::Object(
        json::no_fields().push(json::entry("tool"@, json::opt_text(p.tool.deep_view()))).push(
            json::entry("args_digest"@, json::opt_text(p.args_digest.deep_view())),
        ).push(json::entry("matched_rules"@, json::text_list(p.matched_rules.deep_view()))).push(
            json::entry(
                "parent_envelope_ids"@,
                json::text_list(p.parent_envelope_ids.deep_view()),
            ),
        ),
    )
}

/// The notice of a summary's label.
pub open spec fn synthesized_labeled(
    envelope_id: Seq<char>,
    label: EgressLabel,
    p: Provenance,
) -> NoticeView {
    NoticeView {
        action: "egress.envelope_labeled"@,
        target: envelope_id,
        payload: json::JsonView::Object(
            json::no_fields().push(
                json::entry("envelope_id"@, json::JsonView::Text(envelope_id)),
            ).push(json::entry("label"@, label_json(label))).push(
                json::entry("label_name"@, json::JsonView::Text(egress::display_name(label))),
            ).push(json::entry("provenance"@, provenance_json(p))).push(
                json::entry("synthesized"@, json::JsonView::Bool(true)),
            ).push(json::entry("kind"@, json::JsonView::Text("compressed_context"@))),
        ),
        reason: "egress_envelope_labeled"@,
    }
}

/// The notice of a summary's label.
pub fn synthesized_envelope_notice(
    envelope_id: &str,
    label: &EgressLabel,
    provenance: &Provenance,
) -> (r: EgressNotice)
    ensures
        r@ == synthesized_labeled(envelope_id@, *label, *provenance),
{
    let mut p = Fields::new();
    p.maybe("tool", opt_str(&provenance.tool));
    p.maybe("args_digest", opt_str(&provenance.args_digest));
    p.texts("matched_rules", &provenance.matched_rules);
    p.texts("parent_envelope_ids", &provenance.parent_envelope_ids);
    let name = egress::label_display_name(label);
    let mut f = Fields::new();
    f.text("envelope_id", envelope_id);
    f.put("label", label_to_json(label));
    f.text("label_name", name.as_str());
    f.put("provenance", p.object());
    f.flag("synthesized", true);
    f.text("kind", "compressed_context");
    EgressNotice {
        action: "egress.envelope_labeled".to_owned(),
        target: envelope_id.to_owned(),
        payload: f.object(),
        reason: "egress_envelope_labeled".to_owned(),
    }
}

/// The notice that stored content was given another label.
pub open spec fn relabeled(
    kind: Seq<char>,
    count: u64,
    label: EgressLabel,
    memory_scope: Option<Seq<char>>,
    trace_session: Option<Seq<char>>,
) -> NoticeView {
    NoticeView {
        action: "egress.relabel"@,
        target: kind,
        payload: json::JsonView::Object(
            json::no_fields().push(json::entry("kind"@, json::JsonView::Text(kind))).push(
                json::entry("count"@, json::count(count as nat)),
            ).push(json::entry("new_label"@, label_json(label))).push(
                json::entry("new_label_name"@, json::JsonView::Text(egress::display_name(label))),
            ).push(json::entry("memory_scope"@, json::opt_text(memory_scope))).push(
                json::entry("trace_session"@, json::opt_text(trace_session)),
            ),
        ),
        reason: "operator or sweep reclassified stored content egress label"@,
    }
}

/// The notice that stored content was given another label.
pub fn relabel_notice(
    kind: &str,
    count: u64,
    new_label: &EgressLabel,
    memory_scope: Option<&str>,
    trace_session: Option<&str>,
) -> (r: EgressNotice)
    ensures
        r@ == relabeled(
            kind@,
            count,
            *new_label,
            causal::opt_view(memory_scope),
            causal::opt_view(trace_session),
        ),
{
    let name = egress::label_display_name(new_label);
    let mut f = Fields::new();
    f.text("kind", kind);
    f.number("count", count);
    f.put("new_label", label_to_json(new_label));
    f.text("new_label_name", name.as_str());
    f.maybe("memory_scope", memory_scope);
    f.maybe("trace_session", trace_session);
    EgressNotice {
        action: "egress.relabel".to_owned(),
        target: kind.to_owned(),
        payload: f.object(),
        reason: "operator or sweep reclassified stored content egress label".to_owned(),
    }
}

/// What is recorded of the provider that a completion ran on.
pub open spec fn provider_payload(
    plan: EgressRoutingPlan,
    chosen: Option<Seq<char>>,
    fallback_skipped: Seq<Seq<char>>,
    rerouted: bool,
    declassified_remote: bool,
    inline_ask: json::JsonView,
) -> json::JsonView {
    json::JsonView::Object(
        json::no_fields().push(json::entry("batch_label"@, label_json(plan.batch))).push(
            json::entry(
                "batch_label_name"@,
                json::JsonView::Text(egress::display_name(plan.batch)),
            ),
        ).push(
            json::entry(
                "provider_constraint"@,
                match plan.provider_constraint {
                    Some(_) => json::JsonView::Text("local_only"@),
                    None => json::JsonView::Null,
                },
            ),
        ).push(
            json::entry("primary_eligible"@, json::JsonView::Bool(plan.primary_eligible)),
        ).push(json::entry("eligible_presets"@, json::text_list(plan.eligible.deep_view()))).push(
            json::entry("chosen_preset"@, json::opt_text(chosen)),
        ).push(json::entry("rerouted"@, json::JsonView::Bool(rerouted))).push(
            json::entry("fallback_skipped"@, json::text_list(fallback_skipped)),
        ).push(json::entry("no_eligible_provider"@, json::JsonView::Bool(chosen is None))).push(
            json::entry("declassified_remote"@, json::JsonView::Bool(declassified_remote)),
        ).push(json::entry("inline_ask"@, inline_ask)),
    )
}

/// The notice of the provider that a completion ran on, or of its refusal.
pub fn provider_selected_notice(
    plan: &EgressRoutingPlan,
    chosen_preset: Option<&str>,
    fallback_skipped: &Vec<String>,
    rerouted: bool,
    declassified_remote: bool,
    inline_ask: Option<&Json>,
) -> (r: EgressNotice)
    ensures
        r@ == (NoticeView {
            action: "egress.provider_selected"@,
            target: match chosen_preset {
                Some(p) => p@,
                None => "none"@,
            },
            payload: provider_payload(
                *plan,
                causal::opt_view(chosen_preset),
                fallback_skipped.deep_view(),
                rerouted,
                declassified_remote,
                match inline_ask {
                    Some(j) => j@,
                    None => json::JsonView::Null,
                },
            ),
            reason: "egress_provider_selected"@,
        }),
{
    let name = egress::label_display_name(&plan.batch);
    let mut f = Fields::new();
    f.put("batch_label", label_to_json(&plan.batch));
    f.text("batch_label_name", name.as_str());
    match plan.provider_constraint {
        Some(c) => f.text("provider_constraint", c.as_str()),
        None => f.put("provider_constraint", Json::Null),
    }
    f.flag("primary_eligible", plan.primary_eligible);
    f.texts("eligible_presets", &plan.eligible);
    f.maybe("chosen_preset", chosen_preset);
    f.flag("rerouted", rerouted);
    f.texts("fallback_skipped", fallback_skipped);
    f.flag("no_eligible_provider", chosen_preset.is_none());
    f.flag("declassified_remote", declassified_remote);
    f.put(
        "inline_ask",
        match inline_ask {
            Some(j) => j.copy(),
            None => Json::Null,
        },
    );
    EgressNotice {
        action: "egress.provider_selected".to_owned(),
        target: match chosen_preset {
            Some(p) => p.to_owned(),
            None => "none".to_owned(),
        },
        payload: f.object(),
        reason: "egress_provider_selected".to_owned(),
    }
}

// ---------------------------------------------------------------------------
// Laws of notices
// ---------------------------------------------------------------------------

/// A request from which content was withheld, or in which withheld content was found, is
/// recorded: each withheld message by its call, each violation by its call, and one notice
/// that counts both and what was let through. A request of which nothing is to be said
/// leaves no notice.
pub proof fn every_withheld_message_is_recorded(r: FilterReport, preset: Seq<char>, i: int)
    ensures
        ({
            let v = chokepoint_notices(r, preset);
            let w = r.withheld@.len() as int;
            let x = r.violations@.len() as int;
            &&& w == 0 && x == 0 <==> v.len() == 0
            &&& w > 0 || x > 0 ==> {
                &&& v.len() == w + 1 + x
                &&& 0 <= i < w ==> v[i].action == "egress.envelope_withheld"@ && v[i].target
                    == r.withheld@[i].tool_call_id@ && v[i].payload->Object_0.contains(
                    json::entry("label"@, label_json(r.withheld@[i].label)),
                ) && v[i].payload->Object_0.contains(
                    json::entry("target_sink"@, json::JsonView::Text(egress::sink_name(r.sink))),
                )
                &&& v[w].action == "egress.request_filtered"@ && v[w].target == preset
                &&& v[w].payload->Object_0.contains(
                    json::entry("withheld_count"@, json::JsonView::Number(text::decimal(w as nat))),
                )
                &&& v[w].payload->Object_0.contains(
                    json::entry(
                        "included_count"@,
                        json::JsonView::Number(text::decimal(r.included as nat)),
                    ),
                )
                &&& v[w].payload->Object_0.contains(
                    json::entry("violation_count"@, json::JsonView::Number(text::decimal(x as nat))),
                )
                &&& 0 <= i < x ==> v[w + 1 + i].action == "egress.assertion_violation"@ && v[w + 1
                    + i].target == r.violations@[i].tool_call_id@
            }
        }),
{
    let v = chokepoint_notices(r, preset);
    let w = r.withheld@.len() as int;
    let x = r.violations@.len() as int;
    if w > 0 || x > 0 {
        if 0 <= i < w {
            assert(v[i] == withheld_notice(r.sink, r.withheld@[i]));
            let m = v[i].payload->Object_0;
            assert(m[1] == json::entry("target_sink"@, json::JsonView::Text(egress::sink_name(r.sink))));
            assert(m[2] == json::entry("label"@, label_json(r.withheld@[i].label)));
        }
        assert(v[w] == filtered_notice(r, preset));
        let m = v[w].payload->Object_0;
        assert(m[2] == json::entry(
            "withheld_count"@,
            json::JsonView::Number(text::decimal(w as nat)),
        ));
        assert(m[3] == json::entry(
            "included_count"@,
            json::JsonView::Number(text::decimal(r.included as nat)),
        ));
        assert(m[4] == json::entry(
            "violation_count"@,
            json::JsonView::Number(text::decimal(x as nat)),
        ));
        if 0 <= i < x {
            assert(v[w + 1 + i] == violation_notice(r.sink, r.violations@[i]));
        }
    }
}

/// Refusals at a boundary go by one clause, declassifications and new labels of stored
/// content by another, and everything else by the first.
pub proof fn actions_go_by_their_clause(action: Seq<char>)
    ensures
        clause_of("egress.boundary_refused"@) == "P-15.2"@,
        clause_of("egress.declassified"@) == "P-15.3"@,
        clause_of("egress.relabel"@) == "P-15.3"@,
        action != "egress.boundary_refused"@ && action != "egress.declassified"@ && action
            != "egress.relabel"@ ==> clause_of(action) == "P-15.1"@,
{
    reveal_strlit("egress.boundary_refused");
    reveal_strlit("egress.declassified");
    reveal_strlit("egress.relabel");
    assert("egress.boundary_refused"@.len() == 23 && "egress.declassified"@.len() == 19
        && "egress.relabel"@.len() == 14);
}

/// An event is filed under the session, agent and turn that it is stamped with, with its
/// notice's action, target and reason, and goes by the rule of the stamp and the clause of
/// the action.
pub proof fn events_carry_their_notice(
    n: NoticeView,
    stamp: EventStamp,
    session_id: Seq<char>,
    agent_id: Seq<char>,
    turn_id: Option<Seq<char>>,
)
    ensures
        ({
            let e = stamped(n, stamp, session_id, agent_id, turn_id);
            &&& e.session_id == session_id
            &&& e.agent_id == agent_id
            &&& e.turn_id == turn_id
            &&& e.category == "egress"@
            &&& e.action == n.action
            &&& e.target == Some(n.target)
            &&& e.reason == Some(n.reason)
            &&& e.payload == Some(json::json_text(n.payload))
            &&& e.timestamp == stamp.timestamp@
            &&& e.enforced_rules.contains(stamp.attribution_rule@)
            &&& e.enforced_rules.contains(clause_of(n.action))
            &&& text::begins_with(e.event_id, "egress-"@)
            &&& text::finishes_with(e.event_id, stamp.unique@)
        }),
{
    let e = stamped(n, stamp, session_id, agent_id, turn_id);
    assert(e.enforced_rules[0] == stamp.attribution_rule@);
    assert(e.enforced_rules[1] == clause_of(n.action));
    let k = "egress-"@.len() as int;
    assert(e.event_id.subrange(0, k) =~= "egress-"@);
    assert(e.event_id.subrange(
        e.event_id.len() - stamp.unique@.len(),
        e.event_id.len() as int,
    ) =~= stamp.unique@);
}

/// The record of a label tells all that went into it: the label, the rules with their
/// scopes, the paths, the defaults, the floor, what arguments, artifacts and the workspace
/// carried along.
pub proof fn label_records_tell_what_went_in(
    labeler: EgressLabeler,
    envelope_id: Seq<char>,
    tool_call_id: Seq<char>,
    tool: Seq<char>,
    r: egress_labeler::ResolutionView,
    rules: Seq<Seq<char>>,
    args_digest: Option<Seq<char>>,
    parents: Seq<Seq<char>>,
)
    ensures
        ({
            let m = labeled_payload(
                labeler,
                envelope_id,
                tool_call_id,
                tool,
                r,
                rules,
                args_digest,
                parents,
            )->Object_0;
            &&& m.contains(json::entry("envelope_id"@, json::JsonView::Text(envelope_id)))
            &&& m.contains(json::entry("tool_call_id"@, json::JsonView::Text(tool_call_id)))
            &&& m.contains(json::entry("tool_name"@, json::JsonView::Text(tool)))
            &&& m.contains(json::entry("label"@, label_json(r.label)))
            &&& m.contains(json::entry("matched_rules"@, json::text_list(rules)))
            &&& m.contains(json::entry("matched_paths"@, json::text_list(r.paths)))
            &&& m.contains(json::entry("default_label"@, label_json(labeler.default_label)))
            &&& m.contains(json::entry("global_default_label"@, label_json(labeler.global_default)))
            &&& m.contains(
                json::entry("bundle_floor_applied"@, json::JsonView::Bool(r.bundle_floor_applied)),
            )
            &&& m.contains(json::entry("parent_envelope_ids"@, json::text_list(parents)))
            &&& m.contains(json::entry("taint_applied"@, json::JsonView::Bool(r.taint_applied)))
            &&& m.contains(
                json::entry("artifact_labels_applied"@, json::text_list(r.artifact_labels_applied)),
            )
            &&& m.contains(
                json::entry("workspace_labels_applied"@, json::text_list(r.workspace_labels_applied)),
            )
        }),
{
    let m = labeled_payload(
        labeler,
        envelope_id,
        tool_call_id,
        tool,
        r,
        rules,
        args_digest,
        parents,
    )->Object_0;
    assert(m[0] == json::entry("envelope_id"@, json::JsonView::Text(envelope_id)));
    assert(m[1] == json::entry("tool_call_id"@, json::JsonView::Text(tool_call_id)));
    assert(m[2] == json::entry("tool_name"@, json::JsonView::Text(tool)));
    assert(m[3] == json::entry("label"@, label_json(r.label)));
    assert(m[4] == json::entry("matched_rules"@, json::text_list(rules)));
    assert(m[6] == json::entry("matched_paths"@, json::text_list(r.paths)));
    assert(m[8] == json::entry("default_label"@, label_json(labeler.default_label)));
    assert(m[9] == json::entry("global_default_label"@, label_json(labeler.global_default)));
    assert(m[11] == json::entry(
        "bundle_floor_applied"@,
        json::JsonView::Bool(r.bundle_floor_applied),
    ));
    assert(m[12] == json::entry("parent_envelope_ids"@, json::text_list(parents)));
    assert(m[13] == json::entry("taint_applied"@, json::JsonView::Bool(r.taint_applied)));
    assert(m[14] == json::entry(
        "artifact_labels_applied"@,
        json::text_list(r.artifact_labels_applied),
    ));
    assert(m[15] == json::entry(
        "workspace_labels_applied"@,
        json::text_list(r.workspace_labels_applied),
    ));
}

/// The record of a route tells what it went by and where it went: the batch, the presets
/// that were cleared, the one that was chosen, and whether none was.
pub proof fn route_records_tell_the_choice(
    plan: EgressRoutingPlan,
    chosen: Option<Seq<char>>,
    skipped: Seq<Seq<char>>,
    rerouted: bool,
    declassified: bool,
    ask: json::JsonView,
)
    ensures
        ({
            let m = provider_payload(plan, chosen, skipped, rerouted, declassified, ask)->Object_0;
            &&& m.contains(json::entry("batch_label"@, label_json(plan.batch)))
            &&& m.contains(
                json::entry("primary_eligible"@, json::JsonView::Bool(plan.primary_eligible)),
            )
            &&& m.contains(
                json::entry("eligible_presets"@, json::text_list(plan.eligible.deep_view())),
            )
            &&& chosen matches Some(c) ==> m.contains(
                json::entry("chosen_preset"@, json::JsonView::Text(c)),
            )
            &&& m.contains(json::entry("rerouted"@, json::JsonView::Bool(rerouted)))
            &&& m.contains(json::entry("fallback_skipped"@, json::text_list(skipped)))
            &&& m.contains(
                json::entry("no_eligible_provider"@, json::JsonView::Bool(chosen is None)),
            )
            &&& m.contains(
                json::entry("declassified_remote"@, json::JsonView::Bool(declassified)),
            )
            &&& m.contains(json::entry("inline_ask"@, ask))
        }),
{
    let m = provider_payload(plan, chosen, skipped, rerouted, declassified, ask)->Object_0;
    assert(m[0] == json::entry("batch_label"@, label_json(plan.batch)));
    assert(m[3] == json::entry("primary_eligible"@, json::JsonView::Bool(plan.primary_eligible)));
    assert(m[4] == json::entry("eligible_presets"@, json::text_list(plan.eligible.deep_view())));
    assert(m[5] == json::entry("chosen_preset"@, json::opt_text(chosen)));
    assert(m[6] == json::entry("rerouted"@, json::JsonView::Bool(rerouted)));
    assert(m[7] == json::entry("fallback_skipped"@, json::text_list(skipped)));
    assert(m[8] == json::entry("no_eligible_provider"@, json::JsonView::Bool(chosen is None)));
    assert(m[9] == json::entry("declassified_remote"@, json::JsonView::Bool(declassified)));
    assert(m[10] == json::entry("inline_ask"@, ask));
}

/// The record of a refused summary tells the label, the class of the preset, the sources and
/// the reason.
pub proof fn refused_bands_are_told(
    label: EgressLabel,
    class: EgressClass,
    source_ids: Seq<Seq<char>>,
    reason: Seq<char>,
)
    ensures
        ({
            let n = band_refused(label, class, source_ids, reason);
            let m = n.payload->Object_0;
            &&& n.action == "egress.boundary_refused"@
            &&& m.contains(json::entry("surface"@, json::JsonView::Text("compression"@)))
            &&& m.contains(json::entry("band_label"@, label_json(label)))
            &&& class is Local ==> m.contains(
                json::entry("preset_class"@, json::JsonView::Text("local"@)),
            )
            &&& class is Remote ==> m.contains(
                json::entry("preset_class"@, json::JsonView::Text("remote"@)),
            )
            &&& m.contains(json::entry("source_ids"@, json::text_list(source_ids)))
            &&& m.contains(json::entry("reason"@, json::JsonView::Text(reason)))
        }),
{
    let m = band_refused(label, class, source_ids, reason).payload->Object_0;
    assert(m[0] == json::entry("surface"@, json::JsonView::Text("compression"@)));
    assert(m[1] == json::entry("band_label"@, label_json(label)));
    assert(m[3] == json::entry("preset_class"@, json::JsonView::Text(class_wire_name(class))));
    assert(m[4] == json::entry("source_ids"@, json::text_list(source_ids)));
    assert(m[5] == json::entry("reason"@, json::JsonView::Text(reason)));
}

/// The record of a refusal at a surface tells the surface, the label, the envelopes and the
/// reason.
pub proof fn refused_surfaces_are_told(
    surface: Seq<char>,
    label: EgressLabel,
    envelope_ids: Seq<Seq<char>>,
    reason: Seq<char>,
)
    ensures
        ({
            let n = surface_refused(surface, label, envelope_ids, reason);
            let m = n.payload->Object_0;
            &&& n.action == "egress.boundary_refused"@
            &&& m.contains(json::entry("surface"@, json::JsonView::Text(surface)))
            &&& m.contains(json::entry("label"@, label_json(label)))
            &&& m.contains(json::entry("envelope_ids"@, json::text_list(envelope_ids)))
            &&& m.contains(json::entry("reason"@, json::JsonView::Text(reason)))
        }),
{
    let m = surface_refused(surface, label, envelope_ids, reason).payload->Object_0;
    assert(m[0] == json::entry("surface"@, json::JsonView::Text(surface)));
    assert(m[1] == json::entry("label"@, label_json(label)));
    assert(m[3] == json::entry("envelope_ids"@, json::text_list(envelope_ids)));
    assert(m[4] == json::entry("reason"@, json::JsonView::Text(reason)));
}

/// The record of a new label for stored content tells what kind of content, how much of it,
/// the label, and where it stands.
pub proof fn new_labels_are_told(
    kind: Seq<char>,
    count: u64,
    label: EgressLabel,
    memory_scope: Option<Seq<char>>,
    trace_session: Option<Seq<char>>,
)
    ensures
        ({
            let n = relabeled(kind, count, label, memory_scope, trace_session);
            let m = n.payload->Object_0;
            &&& n.action == "egress.relabel"@
            &&& n.target == kind
            &&& m.contains(json::entry("kind"@, json::JsonView::Text(kind)))
            &&& m.contains(
                json::entry("count"@, json::JsonView::Number(text::decimal(count as nat))),
            )
            &&& m.contains(json::entry("new_label"@, label_json(label)))
            &&& memory_scope matches Some(s) ==> m.contains(
                json::entry("memory_scope"@, json::JsonView::Text(s)),
            )
            &&& trace_session matches Some(s) ==> m.contains(
                json::entry("trace_session"@, json::JsonView::Text(s)),
            )
        }),
{
    let m = relabeled(kind, count, label, memory_scope, trace_session).payload->Object_0;
    assert(m[0] == json::entry("kind"@, json::JsonView::Text(kind)));
    assert(m[1] == json::entry("count"@, json::JsonView::Number(text::decimal(count as nat))));
    assert(m[2] == json::entry("new_label"@, label_json(label)));
    assert(m[4] == json::entry("memory_scope"@, json::opt_text(memory_scope)));
    assert(m[5] == json::entry("trace_session"@, json::opt_text(trace_session)));
}

/// The record of a summary's label tells the envelope, the label and where it comes from.
pub proof fn labels_of_summaries_are_told(envelope_id: Seq<char>, label: EgressLabel, p: Provenance)
    ensures
        ({
            let n = synthesized_labeled(envelope_id, label, p);
            let m = n.payload->Object_0;
            let from = provenance_json(p)->Object_0;
            &&& n.action == "egress.envelope_labeled"@
            &&& n.target == envelope_id
            &&& m.contains(json::entry("envelope_id"@, json::JsonView::Text(envelope_id)))
            &&& m.contains(json::entry("label"@, label_json(label)))
            &&& m.contains(json::entry("provenance"@, provenance_json(p)))
            &&& from.contains(
                json::entry(
                    "parent_envelope_ids"@,
                    json::text_list(p.parent_envelope_ids.deep_view()),
                ),
            )
            &&& from.contains(
                json::entry("matched_rules"@, json::text_list(p.matched_rules.deep_view())),
            )
        }),
{
    let m = synthesized_labeled(envelope_id, label, p).payload->Object_0;
    assert(m[0] == json::entry("envelope_id"@, json::JsonView::Text(envelope_id)));
    assert(m[1] == json::entry("label"@, label_json(label)));
    assert(m[3] == json::entry("provenance"@, provenance_json(p)));
    let from = provenance_json(p)->Object_0;
    assert(from[2] == json::entry("matched_rules"@, json::text_list(p.matched_rules.deep_view())));
    assert(from[3] == json::entry(
        "parent_envelope_ids"@,
        json::text_list(p.parent_envelope_ids.deep_view()),
    ));
}

/// The record of a route tells whether the session was bound to local models, and names the
/// batch's label.
pub proof fn route_records_tell_the_constraint(
    plan: EgressRoutingPlan,
    chosen: Option<Seq<char>>,
    skipped: Seq<Seq<char>>,
    rerouted: bool,
    declassified: bool,
    ask: json::JsonView,
)
    ensures
        ({
            let m = provider_payload(plan, chosen, skipped, rerouted, declassified, ask)->Object_0;
            &&& m.contains(
                json::entry(
                    "batch_label_name"@,
                    json::JsonView::Text(egress::display_name(plan.batch)),
                ),
            )
            &&& plan.provider_constraint is Some ==> m.contains(
                json::entry("provider_constraint"@, json::JsonView::Text("local_only"@)),
            )
            &&& plan.provider_constraint is None ==> m.contains(
                json::entry("provider_constraint"@, json::JsonView::Null),
            )
            &&& chosen is None ==> m.contains(json::entry("chosen_preset"@, json::JsonView::Null))
        }),
{
    let m = provider_payload(plan, chosen, skipped, rerouted, declassified, ask)->Object_0;
    assert(m[1] == json::entry(
        "batch_label_name"@,
        json::JsonView::Text(egress::display_name(plan.batch)),
    ));
    if plan.provider_constraint is Some {
        assert(m[2] == json::entry("provider_constraint"@, json::JsonView::Text("local_only"@)));
    } else {
        assert(m[2] == json::entry("provider_constraint"@, json::JsonView::Null));
    }
    assert(m[5] == json::entry("chosen_preset"@, json::opt_text(chosen)));
}

/// The record of a label tells how it came about, the scope of each rule, and the digest of
/// the arguments.
pub proof fn label_records_tell_how_it_came_about(
    labeler: EgressLabeler,
    envelope_id: Seq<char>,
    tool_call_id: Seq<char>,
    tool: Seq<char>,
    r: egress_labeler::ResolutionView,
    rules: Seq<Seq<char>>,
    args_digest: Option<Seq<char>>,
    parents: Seq<Seq<char>>,
)
    ensures
        ({
            let m = labeled_payload(
                labeler,
                envelope_id,
                tool_call_id,
                tool,
                r,
                rules,
                args_digest,
                parents,
            )->Object_0;
            &&& m.contains(json::entry("matched_rule_scopes"@, matched_list(r.matched)))
            &&& args_digest matches Some(d) ==> m.contains(
                json::entry("args_digest"@, json::JsonView::Text(d)),
            )
            &&& m.contains(
                json::entry(
                    "session_default_applied"@,
                    json::JsonView::Bool(labeler.session_default_applied),
                ),
            )
            &&& m.contains(
                json::entry(
                    "resolution"@,
                    json::JsonView::Text(egress_labeler::resolution_kind(r.matched)),
                ),
            )
        }),
{
    let m = labeled_payload(
        labeler,
        envelope_id,
        tool_call_id,
        tool,
        r,
        rules,
        args_digest,
        parents,
    )->Object_0;
    assert(m[5] == json::entry("matched_rule_scopes"@, matched_list(r.matched)));
    assert(m[7] == json::entry("args_digest"@, json::opt_text(args_digest)));
    assert(m[10] == json::entry(
        "session_default_applied"@,
        json::JsonView::Bool(labeler.session_default_applied),
    ));
    assert(m[16] == json::entry(
        "resolution"@,
        json::JsonView::Text(egress_labeler::resolution_kind(r.matched)),
    ));
}

/// The record of a rule tells its key and its scope.
pub proof fn rules_are_recorded_with_their_scope(m: egress_labeler::MatchedRuleView)
    ensures
        matched_json(m)->Object_0.contains(json::entry("rule"@, json::JsonView::Text(m.key))),
        m.scope is Global ==> matched_json(m)->Object_0.contains(
            json::entry("scope"@, json::JsonView::Text("global"@)),
        ),
        m.scope is Session ==> matched_json(m)->Object_0.contains(
            json::entry("scope"@, json::JsonView::Text("session"@)),
        ),
{
    let v = matched_json(m)->Object_0;
    assert(v[0] == json::entry("rule"@, json::JsonView::Text(m.key)));
    assert(v[1] == json::entry("scope"@, json::JsonView::Text(egress_labeler::scope_name(m.scope))));
}

/// The record of withheld content tells what stood in its place, that of a violation where it
/// was found and by which digest, and both the call and the sink.
pub proof fn filter_records_tell_what_was_found(
    sink: Sink,
    e: WithheldEntry,
    v: AssertionViolation,
    r: FilterReport,
    preset: Seq<char>,
)
    ensures
        ({
            let m = withheld_notice(sink, e).payload->Object_0;
            &&& m.contains(json::entry("tool_call_id"@, json::JsonView::Text(e.tool_call_id@)))
            &&& m.contains(json::entry("indication"@, json::JsonView::Text(e.indication@)))
        }),
        ({
            let m = violation_notice(sink, v).payload->Object_0;
            &&& m.contains(json::entry("tool_call_id"@, json::JsonView::Text(v.tool_call_id@)))
            &&& m.contains(
                json::entry("target_sink"@, json::JsonView::Text(egress::sink_name(sink))),
            )
            &&& m.contains(json::entry("payload_digest"@, json::JsonView::Text(v.payload_digest@)))
            &&& m.contains(
                json::entry(
                    "found_in_message_index"@,
                    json::JsonView::Number(text::decimal(v.found_in_message_index as nat)),
                ),
            )
        }),
        ({
            let m = filtered_notice(r, preset).payload->Object_0;
            &&& m.contains(
                json::entry("target_sink"@, json::JsonView::Text(egress::sink_name(r.sink))),
            )
            &&& m.contains(json::entry("preset"@, json::JsonView::Text(preset)))
        }),
{
    let a = withheld_notice(sink, e).payload->Object_0;
    assert(a[0] == json::entry("tool_call_id"@, json::JsonView::Text(e.tool_call_id@)));
    assert(a[3] == json::entry("indication"@, json::JsonView::Text(e.indication@)));
    let b = violation_notice(sink, v).payload->Object_0;
    assert(b[0] == json::entry("tool_call_id"@, json::JsonView::Text(v.tool_call_id@)));
    assert(b[1] == json::entry("target_sink"@, json::JsonView::Text(egress::sink_name(sink))));
    assert(b[2] == json::entry("payload_digest"@, json::JsonView::Text(v.payload_digest@)));
    assert(b[3] == json::entry(
        "found_in_message_index"@,
        json::JsonView::Number(text::decimal(v.found_in_message_index as nat)),
    ));
    let c = filtered_notice(r, preset).payload->Object_0;
    assert(c[0] == json::entry("target_sink"@, json::JsonView::Text(egress::sink_name(r.sink))));
    assert(c[1] == json::entry("preset"@, json::JsonView::Text(preset)));
}

} // verus!
