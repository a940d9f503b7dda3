//! Egress labeling of tool results.
//!
//! The label of a result is the intersection of every matching operator and
//! session rule, the configured default, the bundle's declared floor, and the
//! labels of whatever the call's arguments carry along: prior results,
//! artifacts, the agent's workspace. Nothing in this chain can widen a label.

use crate::digest;
use crate::egress;
use crate::egress::{EgressConfig, EgressLabel, EgressRule, EgressSessionPolicy, Provenance};
use crate::json;
use crate::json::Json;
use crate::order;
use crate::text;
use crate::textmap::TextMap;
use vstd::prelude::*;

verus! {

/// A tool result about to be labeled.
#[derive(Debug, Clone, Copy)]
pub struct LabelRequest<'a> {
    /// The canonical tool name.
    pub tool: &'a str,
    /// The call's arguments, as JSON.
    pub arguments_json: &'a str,
    /// The id of the call.
    pub tool_call_id: &'a str,
}

/// A labeled result of an earlier call.
#[derive(Debug)]
pub struct PriorLabeledResult {
    pub label: EgressLabel,
    /// A bounded piece of the result's content.
    pub content_snippet: Option<String>,
}

/// Where a rule came from.
#[derive(Debug, Clone, Copy, PartialEq, Eq, Structural)]
pub enum RuleScope {
    /// The operator's standing policy.
    Global,
    /// The root session's policy, which dies with the session.
    Session,
}

/// The wire name of a scope.
pub open spec fn scope_name(s: RuleScope) -> Seq<char> {
    match s {
        RuleScope::Global => "global"@,
        RuleScope::Session => "session"@,
    }
}

impl RuleScope {
    pub fn as_str(self) -> (r: &'static str)
        ensures
            r@ == scope_name(self),
    {
        match self {
            RuleScope::Global => "global",
            RuleScope::Session => "session",
        }
    }
}

/// One rule that contributed to a label.
#[derive(Debug)]
pub struct MatchedRule {
    /// `source`, or `source:path`.
    pub key: String,
    pub scope: RuleScope,
}

/// The mathematical model of a [`MatchedRule`].
pub struct MatchedRuleView {
    pub key: Seq<char>,
    pub scope: RuleScope,
}

impl View for MatchedRule {
    type V = MatchedRuleView;

    open spec fn view(&self) -> MatchedRuleView {
        MatchedRuleView { key: self.key@, scope: self.scope }
    }
}

/// A label and everything that went into it.
#[derive(Debug)]
pub struct Resolution {
    pub label: EgressLabel,
    pub matched: Vec<MatchedRule>,
    /// The configured path patterns that fired, never an observed path.
    pub paths: Vec<String>,
    pub bundle_floor_applied: bool,
    pub taint_applied: bool,
    /// Artifacts whose stored labels contributed.
    pub artifact_labels_applied: Vec<String>,
    /// Agents whose workspace labels contributed.
    pub workspace_labels_applied: Vec<String>,
}

/// The mathematical model of a [`Resolution`].
pub struct ResolutionView {
    pub label: EgressLabel,
    pub matched: Seq<MatchedRuleView>,
    pub paths: Seq<Seq<char>>,
    pub bundle_floor_applied: bool,
    pub taint_applied: bool,
    pub artifact_labels_applied: Seq<Seq<char>>,
    pub workspace_labels_applied: Seq<Seq<char>>,
}

/// The models of a list of matched rules.
pub open spec fn matched_views(v: Seq<MatchedRule>) -> Seq<MatchedRuleView> {
    v.map_values(|m: MatchedRule| m@)
}

impl View for Resolution {
    type V = ResolutionView;

    open spec fn view(&self) -> ResolutionView {
        ResolutionView {
            label: self.label,
            matched: matched_views(self.matched@),
            paths: self.paths.deep_view(),
            bundle_floor_applied: self.bundle_floor_applied,
            taint_applied: self.taint_applied,
            artifact_labels_applied: self.artifact_labels_applied.deep_view(),
            workspace_labels_applied: self.workspace_labels_applied.deep_view(),
        }
    }
}

/// Some matched rule is of this scope.
pub open spec fn has_scope(m: Seq<MatchedRuleView>, s: RuleScope) -> bool {
    exists|k: int| 0 <= k < m.len() && (#[trigger] m[k]).scope == s
}

/// The path by which a label was resolved.
pub open spec fn resolution_kind(m: Seq<MatchedRuleView>) -> Seq<char> {
    if has_scope(m, RuleScope::Global) {
        if has_scope(m, RuleScope::Session) {
            "operator_and_session_rule"@
        } else {
            "operator_rule"@
        }
    } else if has_scope(m, RuleScope::Session) {
        "session_rule"@
    } else {
        "default"@
    }
}

/// The keys of the matched rules.
pub open spec fn rule_keys_of(m: Seq<MatchedRuleView>) -> Seq<Seq<char>> {
    m.map_values(|r: MatchedRuleView| r.key)
}

impl Resolution {
    fn scoped(&self, s: RuleScope) -> (r: bool)
        ensures
            r == has_scope(self@.matched, s),
    {
        let mut i: usize = 0;
        while i < self.matched.len()
            invariant
                i <= self.matched@.len(),
                forall|k: int| 0 <= k < i ==> (#[trigger] self.matched@[k]).scope != s,
            decreases self.matched@.len() - i,
        {
            if self.matched[i].scope == s {
                assert(self@.matched[i as int].scope == s);
                return true;
            }
            i = i + 1;
        }
        assert forall|k: int| 0 <= k < self@.matched.len() implies (#[trigger] self@.matched[k]).scope
            != s by {
            assert(self@.matched[k] == self.matched@[k]@);
        }
        false
    }

    /// The path by which the label was resolved, as recorded in the causal chain.
    pub fn kind(&self) -> (r: &'static str)
        ensures
            r@ == resolution_kind(self@.matched),
    {
        let global = self.scoped(RuleScope::Global);
        let session = self.scoped(RuleScope::Session);
        if global {
            if session {
                "operator_and_session_rule"
            } else {
                "operator_rule"
            }
        } else if session {
            "session_rule"
        } else {
            "default"
        }
    }

    /// The keys of the rules that contributed.
    pub fn rule_keys(&self) -> (r: Vec<String>)
        ensures
            r.deep_view() == rule_keys_of(self@.matched),
    {
        let mut out: Vec<String> = Vec::new();
        let mut i: usize = 0;
        assert(out.deep_view() =~= rule_keys_of(self@.matched.subrange(0, 0)));
        while i < self.matched.len()
            invariant
                i <= self.matched@.len(),
                out.deep_view() == rule_keys_of(self@.matched.subrange(0, i as int)),
            decreases self.matched@.len() - i,
        {
            egress::push_name(&mut out, self.matched[i].key.as_str());
            i = i + 1;
            assert(out.deep_view() =~= rule_keys_of(self@.matched.subrange(0, i as int)));
        }
        assert(self@.matched.subrange(0, i as int) =~= self@.matched);
        out
    }
}

// ---------------------------------------------------------------------------
// Rules
// ---------------------------------------------------------------------------

/// A rule and where it came from.
#[derive(Debug)]
pub struct ScopedRule {
    pub rule: EgressRule,
    pub scope: RuleScope,
}

/// The mathematical model of a [`ScopedRule`].
pub struct ScopedRuleView {
    pub rule: egress::EgressRuleView,
    pub scope: RuleScope,
}

impl View for ScopedRule {
    type V = ScopedRuleView;

    open spec fn view(&self) -> ScopedRuleView {
        ScopedRuleView { rule: self.rule@, scope: self.scope }
    }
}

/// The models of a list of rules.
pub open spec fn rule_views(v: Seq<ScopedRule>) -> Seq<ScopedRuleView> {
    v.map_values(|r: ScopedRule| r@)
}

/// Rules of one scope.
pub open spec fn scoped_views(v: Seq<EgressRule>, scope: RuleScope) -> Seq<ScopedRuleView> {
    v.map_values(|r: EgressRule| ScopedRuleView { rule: r@, scope })
}

/// The rule is about this source.
pub open spec fn covers_source(rule: egress::EgressRuleView, source: Seq<char>) -> bool {
    egress::glob_matches(egress::normalized_source(rule.source), egress::normalized_source(source))
}

/// The rule applies to a result from this source and path. A rule without a
/// path applies to all of its source; one with a path needs a path to match.
pub open spec fn rule_applies(
    rule: egress::EgressRuleView,
    source: Seq<char>,
    path: Option<Seq<char>>,
) -> bool {
    covers_source(rule, source) && match (rule.path, path) {
        (None, _) => true,
        (Some(pattern), Some(actual)) => egress::glob_matches(pattern, actual),
        (Some(_), None) => false,
    }
}

/// The key by which a rule is recorded.
pub open spec fn rule_key(rule: egress::EgressRuleView) -> Seq<char> {
    match rule.path {
        Some(p) => rule.source + ":"@ + p,
        None => rule.source,
    }
}

/// The rules that apply, in order.
pub open spec fn applicable(
    rules: Seq<ScopedRuleView>,
    source: Seq<char>,
    path: Option<Seq<char>>,
) -> Seq<ScopedRuleView>
    decreases rules.len(),
{
    if rules.len() == 0 {
        Seq::empty()
    } else {
        let before = applicable(rules.drop_last(), source, path);
        if rule_applies(rules.last().rule, source, path) {
            before.push(rules.last())
        } else {
            before
        }
    }
}

/// The intersection of the rules' labels.
pub open spec fn rules_meet(rules: Seq<ScopedRuleView>) -> EgressLabel
    decreases rules.len(),
{
    if rules.len() == 0 {
        EgressLabel::top()
    } else {
        rules_meet(rules.drop_last()).meet(rules.last().rule.label)
    }
}

/// How rules are recorded.
pub open spec fn recorded(rules: Seq<ScopedRuleView>) -> Seq<MatchedRuleView> {
    rules.map_values(|r: ScopedRuleView| MatchedRuleView { key: rule_key(r.rule), scope: r.scope })
}

/// The path patterns of the rules, each once, in order.
pub open spec fn rule_paths(rules: Seq<ScopedRuleView>) -> Seq<Seq<char>>
    decreases rules.len(),
{
    if rules.len() == 0 {
        Seq::empty()
    } else {
        let before = rule_paths(rules.drop_last());
        match rules.last().rule.path {
            Some(p) => if before.contains(p) {
                before
            } else {
                before.push(p)
            },
            None => before,
        }
    }
}

/// Whether a rule applies to a result from this source and path.
pub fn rule_matches(rule: &EgressRule, source: &str, path: Option<&str>) -> (r: bool)
    ensures
        r == rule_applies(
            rule@,
            source@,
            match path {
                Some(p) => Some(p@),
                None => None,
            },
        ),
{
    if !egress::source_pattern_matches(rule.source.as_str(), source) {
        return false;
    }
    match &rule.path {
        None => true,
        Some(pattern) => match path {
            Some(actual) => egress::matches_simple_glob(pattern.as_str(), actual),
            None => false,
        },
    }
}

/// The key by which a rule is recorded.
pub fn rule_source_key(rule: &EgressRule) -> (r: String)
    ensures
        r@ == rule_key(rule@),
{
    match &rule.path {
        Some(p) => {
            let mut s = rule.source.clone();
            s.append(":");
            s.append(p.as_str());
            s
        },
        None => rule.source.clone(),
    }
}

// ---------------------------------------------------------------------------
// The labeler
// ---------------------------------------------------------------------------

/// The rules, the default and the floor by which results are labeled.
#[derive(Debug)]
pub struct EgressLabeler {
    pub rules: Vec<ScopedRule>,
    /// The default in force: the operator's, narrowed by the session's.
    pub default_label: EgressLabel,
    /// The operator's default.
    pub global_default: EgressLabel,
    /// Whether the session narrowed the default.
    pub session_default_applied: bool,
    /// The label that the agent's bundle declares for all of its outputs.
    pub bundle_floor: Option<EgressLabel>,
    /// Nothing here can restrict a result.
    pub inert: bool,
}

/// The floor, or no restriction where none is declared.
pub open spec fn floor_of(floor: Option<EgressLabel>) -> EgressLabel {
    match floor {
        Some(f) => f,
        None => EgressLabel::top(),
    }
}

impl EgressLabeler {
    /// A labeler that is marked inert has nothing that restricts.
    pub open spec fn well_formed(self) -> bool {
        self.inert ==> self.rules@.len() == 0 && self.default_label == EgressLabel::top()
            && self.bundle_floor is None
    }

    /// What results from the rules in `fired`: their labels, the default and the floor.
    pub open spec fn combined(self, fired: Seq<ScopedRuleView>) -> EgressLabel {
        rules_meet(fired).meet(self.default_label).meet(floor_of(self.bundle_floor))
    }

    /// The resolution for a source and path.
    pub open spec fn resolved(self, source: Seq<char>, path: Option<Seq<char>>) -> ResolutionView {
        let fired = applicable(rule_views(self.rules@), source, path);
        ResolutionView {
            label: self.combined(fired),
            matched: recorded(fired),
            paths: rule_paths(fired),
            bundle_floor_applied: self.bundle_floor is Some,
            taint_applied: false,
            artifact_labels_applied: Seq::empty(),
            workspace_labels_applied: Seq::empty(),
        }
    }

    /// A labeler of the operator's standing policy.
    pub fn from_config(config: &EgressConfig) -> (r: EgressLabeler)
        ensures
            r.well_formed(),
            rule_views(r.rules@) == scoped_views(config.rules@, RuleScope::Global),
            r.default_label == config.default_label.spec_label(),
            r.global_default == config.default_label.spec_label(),
            !r.session_default_applied,
            r.bundle_floor is None,
            r.inert == (config.rules@.len() == 0 && config.default_label.spec_label()
                == EgressLabel::top()),
    {
        let default_label = config.default_label.to_label();
        let mut rules: Vec<ScopedRule> = Vec::new();
        push_rules(&mut rules, &config.rules, RuleScope::Global);
        assert(rule_views(rules@) =~= scoped_views(config.rules@, RuleScope::Global));
        EgressLabeler {
            rules,
            default_label,
            global_default: default_label,
            session_default_applied: false,
            bundle_floor: None,
            inert: config.rules.len() == 0 && default_label.is_unrestricted(),
        }
    }

    /// The labeler with a floor that the agent's bundle declares. A floor ends
    /// inertness, so that it is applied though there are no rules.
    pub fn with_manifest_floor(self, floor: Option<EgressLabel>) -> (r: EgressLabeler)
        requires
            self.well_formed(),
        ensures
            r.well_formed(),
            r == (EgressLabeler {
                bundle_floor: floor,
                inert: self.inert && floor is None,
                ..self
            }),
    {
        let inert = self.inert && floor.is_none();
        EgressLabeler {
            rules: self.rules,
            default_label: self.default_label,
            global_default: self.global_default,
            session_default_applied: self.session_default_applied,
            bundle_floor: floor,
            inert,
        }
    }

    /// The labeler with the root session's policy merged in. The session adds
    /// rules and may narrow the default; it never widens it.
    pub fn with_session_policy(self, policy: &EgressSessionPolicy) -> (r: EgressLabeler)
        requires
            self.well_formed(),
        ensures
            r.well_formed(),
            rule_views(r.rules@) == rule_views(self.rules@) + scoped_views(
                policy.rules@,
                RuleScope::Session,
            ),
            r.default_label == (match policy.default_label {
                Some(d) => self.default_label.meet(d.spec_label()),
                None => self.default_label,
            }),
            r.global_default == self.global_default,
            r.session_default_applied == (self.session_default_applied || r.default_label
                != self.default_label),
            r.bundle_floor == self.bundle_floor,
            r.inert == (self.inert && policy.rules@.len() == 0 && r.default_label
                == EgressLabel::top()),
    {
        let mut rules = self.rules;
        let mut inert = self.inert;
        push_rules(&mut rules, &policy.rules, RuleScope::Session);
        if policy.rules.len() > 0 {
            inert = false;
        }
        let mut default_label = self.default_label;
        let mut applied = self.session_default_applied;
        match policy.default_label {
            Some(d) => {
                let narrowed = self.default_label.restrict(&d.to_label());
                if narrowed != self.default_label {
                    default_label = narrowed;
                    applied = true;
                    inert = inert && default_label.is_unrestricted();
                }
            },
            None => {},
        }
        EgressLabeler {
            rules,
            default_label,
            global_default: self.global_default,
            session_default_applied: applied,
            bundle_floor: self.bundle_floor,
            inert,
        }
    }

    /// The labeler with session rules merged in and the default kept.
    pub fn with_session_rules(self, session_rules: Vec<EgressRule>) -> (r: EgressLabeler)
        requires
            self.well_formed(),
        ensures
            r.well_formed(),
            rule_views(r.rules@) == rule_views(self.rules@) + scoped_views(
                session_rules@,
                RuleScope::Session,
            ),
            r.default_label == self.default_label,
            r.global_default == self.global_default,
            r.session_default_applied == self.session_default_applied,
            r.bundle_floor == self.bundle_floor,
            r.inert == (self.inert && session_rules@.len() == 0),
    {
        self.with_session_policy(
            &EgressSessionPolicy {
                rules: session_rules,
                default_label: None,
                provider_constraint: None,
            },
        )
    }

    /// Whether the labeler can never restrict a result by itself.
    pub fn is_inert(&self) -> (r: bool)
        ensures
            r == self.inert,
    {
        self.inert
    }

    /// Resolves the label of a result from `source` and `path`.
    pub fn resolve_label(&self, source: &str, path: Option<&str>) -> (r: Resolution)
        ensures
            r@ == self.resolved(
                source@,
                match path {
                    Some(p) => Some(p@),
                    None => None,
                },
            ),
    {
        let ghost all = rule_views(self.rules@);
        let ghost pv: Option<Seq<char>> = match path {
            Some(p) => Some(p@),
            None => None,
        };
        let mut label = EgressLabel::unrestricted();
        let mut matched: Vec<MatchedRule> = Vec::new();
        let mut paths: Vec<String> = Vec::new();
        let mut i: usize = 0;
        assert(matched_views(matched@) =~= recorded(Seq::empty()));
        assert(paths.deep_view() =~= Seq::<Seq<char>>::empty());
        while i < self.rules.len()
            invariant
                all == rule_views(self.rules@),
                pv == (match path {
                    Some(p) => Some(p@),
                    None => None,
                }),
                i <= self.rules@.len(),
                ({
                    let fired = applicable(all.subrange(0, i as int), source@, pv);
                    &&& label == rules_meet(fired)
                    &&& matched_views(matched@) == recorded(fired)
                    &&& paths.deep_view() == rule_paths(fired)
                }),
            decreases self.rules@.len() - i,
        {
            let scoped = &self.rules[i];
            let ghost before = applicable(all.subrange(0, i as int), source@, pv);
            let ghost fired = applicable(all.subrange(0, i + 1), source@, pv);
            proof {
                let t = all.subrange(0, i + 1);
                assert(t.drop_last() =~= all.subrange(0, i as int));
                assert(t.last() == scoped@);
            }
            if rule_matches(&scoped.rule, source, path) {
                proof {
                    assert(fired == before.push(scoped@));
                    assert(fired.drop_last() =~= before);
                }
                label = label.restrict(&scoped.rule.label);
                push_matched(&mut matched, scoped);
                assert(matched_views(matched@) =~= recorded(fired));
                match &scoped.rule.path {
                    Some(pattern) => {
                        if !text::list_has(&paths, pattern.as_str()) {
                            egress::push_name(&mut paths, pattern.as_str());
                        }
                    },
                    None => {},
                }
            }
            i = i + 1;
        }
        assert(all.subrange(0, i as int) =~= all);
        self.finish_resolution(label, matched, paths)
    }

    fn finish_resolution(
        &self,
        fired_label: EgressLabel,
        matched: Vec<MatchedRule>,
        paths: Vec<String>,
    ) -> (r: Resolution)
        ensures
            r@ == (ResolutionView {
                label: fired_label.meet(self.default_label).meet(floor_of(self.bundle_floor)),
                matched: matched_views(matched@),
                paths: paths.deep_view(),
                bundle_floor_applied: self.bundle_floor is Some,
                taint_applied: false,
                artifact_labels_applied: Seq::empty(),
                workspace_labels_applied: Seq::empty(),
            }),
    {
        let mut label = fired_label.restrict(&self.default_label);
        let mut bundle_floor_applied = false;
        match &self.bundle_floor {
            Some(f) => {
                label = label.restrict(f);
                bundle_floor_applied = true;
            },
            None => {
                proof {
                    egress::restriction_is_a_semilattice(label, label, label);
                }
            },
        }
        let r = Resolution {
            label,
            matched,
            paths,
            bundle_floor_applied,
            taint_applied: false,
            artifact_labels_applied: Vec::new(),
            workspace_labels_applied: Vec::new(),
        };
        assert(r@.artifact_labels_applied =~= Seq::<Seq<char>>::empty());
        assert(r@.workspace_labels_applied =~= Seq::<Seq<char>>::empty());
        r
    }
}

fn push_rules(out: &mut Vec<ScopedRule>, rules: &Vec<EgressRule>, scope: RuleScope)
    ensures
        rule_views(final(out)@) == rule_views(old(out)@) + scoped_views(rules@, scope),
        final(out)@.len() == old(out)@.len() + rules@.len(),
{
    let ghost start = rule_views(out@);
    let mut i: usize = 0;
    assert(start + scoped_views(rules@.subrange(0, 0), scope) =~= start);
    while i < rules.len()
        invariant
            i <= rules@.len(),
            out@.len() == start.len() + i,
            rule_views(out@) == start + scoped_views(rules@.subrange(0, i as int), scope),
        decreases rules@.len() - i,
    {
        let ghost before = out@;
        let r = ScopedRule { rule: rules[i].clone(), scope };
        out.push(r);
        i = i + 1;
        proof {
            assert(rule_views(out@) =~= rule_views(before).push(r@));
            let now = rules@.subrange(0, i as int);
            assert(now =~= rules@.subrange(0, i - 1).push(rules@[i - 1]));
            assert(rule_views(out@) =~= start + scoped_views(now, scope));
        }
    }
    assert(rules@.subrange(0, i as int) =~= rules@);
}

fn push_matched(out: &mut Vec<MatchedRule>, scoped: &ScopedRule)
    ensures
        matched_views(final(out)@) == matched_views(old(out)@).push(
            MatchedRuleView { key: rule_key(scoped@.rule), scope: scoped@.scope },
        ),
{
    let m = MatchedRule { key: rule_source_key(&scoped.rule), scope: scoped.scope };
    let ghost before = out@;
    out.push(m);
    assert(matched_views(out@) =~= matched_views(before).push(m@));
}

// ---------------------------------------------------------------------------
// Laws of resolution
// ---------------------------------------------------------------------------

/// The intersection of the rules' labels allows a sink exactly where every rule does.
pub proof fn lemma_rules_meet(rules: Seq<ScopedRuleView>, s: egress::Sink)
    ensures
        rules_meet(rules).permits(s) <==> forall|i: int|
            0 <= i < rules.len() ==> (#[trigger] rules[i]).rule.label.permits(s),
    decreases rules.len(),
{
    if rules.len() > 0 {
        let d = rules.drop_last();
        lemma_rules_meet(d, s);
        assert forall|i: int| 0 <= i < d.len() implies #[trigger] d[i] == rules[i] by {
        }
        if rules_meet(rules).permits(s) {
            assert forall|i: int| 0 <= i < rules.len() implies (#[trigger] rules[i]).rule.label.permits(
                s,
            ) by {
                if i < d.len() {
                    assert(d[i] == rules[i]);
                }
            }
        }
        if forall|i: int| 0 <= i < rules.len() ==> (#[trigger] rules[i]).rule.label.permits(s) {
            assert forall|i: int| 0 <= i < d.len() implies (#[trigger] d[i]).rule.label.permits(s) by {
                assert(rules[i].rule.label.permits(s));
            }
            assert(rules[rules.len() - 1].rule.label.permits(s));
        }
    }
}

/// A rule that applies is among the applicable ones, and nothing else is.
pub proof fn lemma_applicable(
    rules: Seq<ScopedRuleView>,
    source: Seq<char>,
    path: Option<Seq<char>>,
    r: ScopedRuleView,
)
    ensures
        applicable(rules, source, path).contains(r) <==> rules.contains(r) && rule_applies(
            r.rule,
            source,
            path,
        ),
    decreases rules.len(),
{
    if rules.len() > 0 {
        let d = rules.drop_last();
        lemma_applicable(d, source, path, r);
        let a = applicable(rules, source, path);
        let ad = applicable(d, source, path);
        assert(rules =~= d.push(rules.last()));
        if a.contains(r) {
            let i = choose|i: int| 0 <= i < a.len() && a[i] == r;
            if i < ad.len() {
                assert(ad[i] == r);
                assert(ad.contains(r));
                let k = choose|k: int| 0 <= k < d.len() && d[k] == r;
                assert(rules[k] == r);
            } else {
                assert(rules[rules.len() - 1] == r);
            }
        }
        if rules.contains(r) && rule_applies(r.rule, source, path) {
            let k = choose|k: int| 0 <= k < rules.len() && rules[k] == r;
            if k < d.len() {
                assert(d[k] == r);
                assert(d.contains(r));
                let i = choose|i: int| 0 <= i < ad.len() && ad[i] == r;
                assert(a[i] == r);
            } else {
                assert(a[a.len() - 1] == r);
            }
        }
    }
}

/// The label of a result allows a sink exactly where every applicable rule,
/// the default and the floor allow it: no input of the resolution can widen
/// what another restricts.
pub proof fn resolution_is_the_intersection(
    labeler: EgressLabeler,
    source: Seq<char>,
    path: Option<Seq<char>>,
    s: egress::Sink,
)
    ensures
        labeler.resolved(source, path).label.permits(s) <==> ({
            &&& labeler.default_label.permits(s)
            &&& floor_of(labeler.bundle_floor).permits(s)
            &&& forall|r: ScopedRuleView|
                rule_views(labeler.rules@).contains(r) && rule_applies(r.rule, source, path)
                    ==> #[trigger] r.rule.label.permits(s)
        }),
{
    let all = rule_views(labeler.rules@);
    let fired = applicable(all, source, path);
    lemma_rules_meet(fired, s);
    assert(rules_meet(fired).permits(s) <==> forall|r: ScopedRuleView|
        all.contains(r) && rule_applies(r.rule, source, path) ==> #[trigger] r.rule.label.permits(s))
        by {
        if rules_meet(fired).permits(s) {
            assert forall|r: ScopedRuleView|
                all.contains(r) && rule_applies(r.rule, source, path) implies #[trigger] r.rule.label.permits(
                s,
            ) by {
                lemma_applicable(all, source, path, r);
                let i = choose|i: int| 0 <= i < fired.len() && fired[i] == r;
                assert(fired[i].rule.label.permits(s));
            }
        }
        if forall|r: ScopedRuleView|
            all.contains(r) && rule_applies(r.rule, source, path) ==> #[trigger] r.rule.label.permits(
                s,
            ) {
            assert forall|i: int| 0 <= i < fired.len() implies (#[trigger] fired[i]).rule.label.permits(
                s,
            ) by {
                assert(fired.contains(fired[i]));
                lemma_applicable(all, source, path, fired[i]);
            }
        }
    }
}

/// The order in which operator and session rules were merged does not change a label.
pub proof fn rule_order_is_irrelevant(
    a: EgressLabeler,
    b: EgressLabeler,
    source: Seq<char>,
    path: Option<Seq<char>>,
)
    requires
        forall|r: ScopedRuleView|
            #[trigger] rule_views(a.rules@).contains(r) <==> rule_views(b.rules@).contains(r),
        a.default_label == b.default_label,
        a.bundle_floor == b.bundle_floor,
    ensures
        a.resolved(source, path).label == b.resolved(source, path).label,
{
    assert forall|s: egress::Sink| #[trigger] a.resolved(source, path).label.permits(s) == b.resolved(
        source,
        path,
    ).label.permits(s) by {
        resolution_is_the_intersection(a, source, path, s);
        resolution_is_the_intersection(b, source, path, s);
    }
    a.resolved(source, path).label.lemma_extensional(b.resolved(source, path).label);
}

/// An inert labeler restricts nothing, from any source and path.
pub proof fn inert_labelers_restrict_nothing(
    labeler: EgressLabeler,
    source: Seq<char>,
    path: Option<Seq<char>>,
)
    requires
        labeler.well_formed(),
        labeler.inert,
    ensures
        labeler.resolved(source, path).label == EgressLabel::top(),
        labeler.resolved(source, path).matched.len() == 0,
{
    assert(applicable(rule_views(labeler.rules@), source, path).len() == 0);
}

// ---------------------------------------------------------------------------
// What arguments carry along
// ---------------------------------------------------------------------------

/// A hexadecimal digit of either case.
pub open spec fn is_hex(c: char) -> bool {
    ||| '0' <= c <= '9'
    ||| 'a' <= c <= 'f'
    ||| 'A' <= c <= 'F'
}

/// An ASCII letter or digit.
pub open spec fn is_alnum(c: char) -> bool {
    ||| '0' <= c <= '9'
    ||| 'a' <= c <= 'z'
    ||| 'A' <= c <= 'Z'
}

fn is_hex_exec(c: char) -> (r: bool)
    ensures
        r == is_hex(c),
{
    ('0' <= c && c <= '9') || ('a' <= c && c <= 'f') || ('A' <= c && c <= 'F')
}

fn is_alnum_exec(c: char) -> (r: bool)
    ensures
        r == is_alnum(c),
{
    ('0' <= c && c <= '9') || ('a' <= c && c <= 'z') || ('A' <= c && c <= 'Z')
}

/// An artifact id stands in `s` at `i`: `art_` and eight hexadecimal digits
/// that no letter or digit follows.
pub open spec fn artifact_id_at(s: Seq<char>, i: int) -> bool {
    &&& text::occurs_at(s, "art_"@, i)
    &&& i + 12 <= s.len()
    &&& forall|k: int| i + 4 <= k < i + 12 ==> is_hex(#[trigger] s[k])
    &&& i + 12 < s.len() ==> !is_alnum(s[i + 12])
}

/// The artifact ids that stand in a text.
pub open spec fn artifact_ids(s: Seq<char>) -> Set<Seq<char>> {
    Set::new(
        |t: Seq<char>|
            exists|i: int| #[trigger] artifact_id_at(s, i) && t == s.subrange(i, i + 12),
    )
}

/// The artifact ids of a text are finitely many, and can be listed.
pub proof fn lemma_artifact_ids_listed(s: Seq<char>)
    ensures
        order::lists(order::listing(artifact_ids(s)), artifact_ids(s)),
{
    let places = vstd::set_lib::set_int_range(0, s.len() as int);
    let at = |i: int| s.subrange(i, i + 12);
    vstd::set_lib::lemma_int_range(0, s.len() as int);
    places.lemma_map_finite(at);
    let image = places.map(at);
    assert forall|t: Seq<char>| #[trigger] artifact_ids(s).contains(t) implies image.contains(t) by {
        let i = choose|i: int| #[trigger] artifact_id_at(s, i) && t == s.subrange(i, i + 12);
        assert(places.contains(i) && t == at(i));
    }
    vstd::set_lib::lemma_set_subset_finite(image, artifact_ids(s));
    order::lemma_finite_listing(artifact_ids(s));
}

fn artifact_id_at_exec(v: &Vec<char>, prefix: &Vec<char>, i: usize) -> (r: bool)
    requires
        prefix@ == "art_"@,
        i < v@.len(),
    ensures
        r == artifact_id_at(v@, i as int),
{
    proof {
        reveal_strlit("art_");
    }
    if v.len() < 12 || i > v.len() - 12 {
        return false;
    }
    if !text::occurs_at_exec(v, prefix, i) {
        return false;
    }
    let mut k: usize = i + 4;
    while k < i + 12
        invariant
            i + 4 <= k <= i + 12 <= v@.len(),
            i + 12 <= usize::MAX,
            forall|l: int| i + 4 <= l < k ==> is_hex(#[trigger] v@[l]),
        decreases i + 12 - k,
    {
        if !is_hex_exec(v[k]) {
            return false;
        }
        k = k + 1;
    }
    !(i + 12 < v.len() && is_alnum_exec(v[i + 12]))
}

/// The artifact ids that a call's arguments name, in ascending order.
pub fn artifact_ids_in_arguments(arguments_json: &str) -> (r: Vec<String>)
    ensures
        r.deep_view() == order::listing(artifact_ids(arguments_json@)),
        order::lists(r.deep_view(), artifact_ids(arguments_json@)),
{
    let v = text::chars_of(arguments_json);
    let prefix = text::chars_of("art_");
    let mut out: Vec<String> = Vec::new();
    let mut i: usize = 0;
    assert(out.deep_view() =~= Seq::<Seq<char>>::empty());
    while i < v.len()
        invariant
            prefix@ == "art_"@,
            i <= v@.len(),
            out.deep_view().no_duplicates(),
            forall|t: Seq<char>|
                #[trigger] out.deep_view().contains(t) <==> exists|k: int|
                    0 <= k < i && #[trigger] artifact_id_at(v@, k) && t == v@.subrange(k, k + 12),
        decreases v@.len() - i,
    {
        let ghost before = out.deep_view();
        if artifact_id_at_exec(&v, &prefix, i) {
            let id = text::string_of(&v, i, i + 12);
            if !text::list_has(&out, id.as_str()) {
                egress::push_name(&mut out, id.as_str());
            }
            proof {
                let now = out.deep_view();
                assert forall|t: Seq<char>| #[trigger] now.contains(t) <==> exists|k: int|
                    0 <= k < i + 1 && #[trigger] artifact_id_at(v@, k) && t == v@.subrange(k, k + 12) by {
                    if now.contains(t) {
                        let j = choose|j: int| 0 <= j < now.len() && now[j] == t;
                        if j < before.len() {
                            assert(before[j] == t);
                            assert(before.contains(t));
                        } else {
                            assert(artifact_id_at(v@, i as int) && t == v@.subrange(
                                i as int,
                                i + 12,
                            ));
                        }
                    }
                    if exists|k: int|
                        0 <= k < i + 1 && #[trigger] artifact_id_at(v@, k) && t == v@.subrange(
                            k,
                            k + 12,
                        ) {
                        let k = choose|k: int|
                            0 <= k < i + 1 && #[trigger] artifact_id_at(v@, k) && t == v@.subrange(
                                k,
                                k + 12,
                            );
                        if k < i {
                            assert(before.contains(t));
                            let j = choose|j: int| 0 <= j < before.len() && before[j] == t;
                            assert(now[j] == t);
                        } else {
                            assert(t == id@);
                            if before.contains(t) {
                                assert(now.contains(t));
                            } else {
                                assert(now[now.len() - 1] == t);
                            }
                        }
                    }
                }
            }
        }
        i = i + 1;
    }
    let r = order::sorted_listing(&out);
    proof {
        let set = artifact_ids(arguments_json@);
        assert forall|t: Seq<char>| #[trigger] r.deep_view().contains(t) <==> set.contains(t) by {
            assert(out.deep_view().to_set().contains(t) <==> out.deep_view().contains(t));
            if set.contains(t) {
                let k = choose|k: int| #[trigger] artifact_id_at(v@, k) && t == v@.subrange(k, k + 12);
                assert(0 <= k < v@.len());
                assert(out.deep_view().contains(t));
            }
        }
        order::lemma_listing(r.deep_view(), set);
    }
    r
}

/// The arguments refer to a prior result: they hold its id, or its snippet
/// where there is a snippet that is not empty.
pub open spec fn refers_to(args: Seq<char>, id: Seq<char>, prior: PriorLabeledResult) -> bool {
    text::has_text(args, id) || (prior.content_snippet is Some && prior.content_snippet->0@.len() > 0
        && text::has_text(args, prior.content_snippet->0@))
}

/// The prior results that the arguments refer to.
pub open spec fn referred(args: Seq<char>, prior: Map<Seq<char>, PriorLabeledResult>) -> Set<Seq<char>> {
    Set::new(|k: Seq<char>| prior.dom().contains(k) && refers_to(args, k, prior[k]))
}

/// The prior results that arguments refer to can be listed.
pub proof fn lemma_referred_listed(args: Seq<char>, prior: Map<Seq<char>, PriorLabeledResult>)
    requires
        prior.dom().finite(),
    ensures
        order::lists(order::listing(referred(args, prior)), referred(args, prior)),
{
    vstd::set_lib::lemma_set_subset_finite(prior.dom(), referred(args, prior));
    order::lemma_finite_listing(referred(args, prior));
}

/// Every prior result that the arguments refer to allows `s`.
pub open spec fn carried_allows(
    args: Seq<char>,
    prior: Map<Seq<char>, PriorLabeledResult>,
    s: egress::Sink,
) -> bool {
    forall|k: Seq<char>| #[trigger] referred(args, prior).contains(k) ==> prior[k].label.permits(s)
}

/// The label that the arguments carry along from prior results: it allows
/// what every prior result that they refer to allows.
pub open spec fn carried(args: Seq<char>, prior: Map<Seq<char>, PriorLabeledResult>) -> EgressLabel {
    EgressLabel::from_predicate(|s: egress::Sink| carried_allows(args, prior, s))
}

fn refers_to_exec(args: &str, id: &str, prior: &PriorLabeledResult) -> (r: bool)
    ensures
        r == refers_to(args@, id@, *prior),
{
    if text::contains(args, id) {
        return true;
    }
    match &prior.content_snippet {
        Some(s) => !s.as_str().is_empty() && text::contains(args, s.as_str()),
        None => false,
    }
}

/// The label that a call's arguments carry along from prior results, and the
/// ids of those results in ascending order.
pub fn argument_taint_from_prior(
    arguments_json: &str,
    prior_labels: &TextMap<PriorLabeledResult>,
) -> (r: (EgressLabel, Vec<String>))
    ensures
        r.0 == carried(arguments_json@, prior_labels@),
        r.1.deep_view() == order::listing(referred(arguments_json@, prior_labels@)),
        order::lists(r.1.deep_view(), referred(arguments_json@, prior_labels@)),
{
    let ghost args = arguments_json@;
    let ghost m = prior_labels@;
    let ghost keys = prior_labels.key_seq();
    let n = prior_labels.len();
    let mut label = EgressLabel::unrestricted();
    let mut ids: Vec<String> = Vec::new();
    let mut i: usize = 0;
    assert(ids.deep_view() =~= Seq::<Seq<char>>::empty());
    while i < n
        invariant
            args == arguments_json@,
            m == prior_labels@,
            keys == prior_labels.key_seq(),
            n == keys.len(),
            keys.no_duplicates(),
            forall|k: Seq<char>| keys.contains(k) <==> #[trigger] m.dom().contains(k),
            i <= n,
            ids.deep_view().no_duplicates(),
            forall|t: Seq<char>|
                #[trigger] ids.deep_view().contains(t) <==> exists|k: int|
                    0 <= k < i && keys[k] == t && #[trigger] refers_to(args, keys[k], m[keys[k]]),
            forall|s: egress::Sink|
                #[trigger] label.permits(s) <==> forall|k: int|
                    0 <= k < i && #[trigger] refers_to(args, keys[k], m[keys[k]]) ==> m[keys[k]].label.permits(
                        s,
                    ),
        decreases n - i,
    {
        let key = prior_labels.key_at(i);
        let prior = prior_labels.value_at(i);
        let ghost before = ids.deep_view();
        let ghost old_label = label;
        if refers_to_exec(arguments_json, key.as_str(), prior) {
            label = label.restrict(&prior.label);
            proof {
                if before.contains(keys[i as int]) {
                    let k = choose|k: int|
                        0 <= k < i && keys[k] == keys[i as int] && #[trigger] refers_to(
                            args,
                            keys[k],
                            m[keys[k]],
                        );
                    assert(keys[k] != keys[i as int]);
                }
            }
            egress::push_name(&mut ids, key.as_str());
            proof {
                let now = ids.deep_view();
                assert forall|x: int, y: int| 0 <= x < now.len() && 0 <= y < now.len() && x != y implies now[x]
                    != now[y] by {
                    if x < before.len() && y == before.len() {
                        assert(before.contains(before[x]));
                    }
                    if y < before.len() && x == before.len() {
                        assert(before.contains(before[y]));
                    }
                }
                assert forall|t: Seq<char>| #[trigger] now.contains(t) <==> exists|k: int|
                    0 <= k < i + 1 && keys[k] == t && #[trigger] refers_to(args, keys[k], m[keys[k]]) by {
                    if now.contains(t) {
                        let j = choose|j: int| 0 <= j < now.len() && now[j] == t;
                        if j < before.len() {
                            assert(before[j] == t);
                            assert(before.contains(t));
                        } else {
                            assert(keys[i as int] == t && refers_to(
                                args,
                                keys[i as int],
                                m[keys[i as int]],
                            ));
                        }
                    }
                    if exists|k: int|
                        0 <= k < i + 1 && keys[k] == t && #[trigger] refers_to(
                            args,
                            keys[k],
                            m[keys[k]],
                        ) {
                        let k = choose|k: int|
                            0 <= k < i + 1 && keys[k] == t && #[trigger] refers_to(
                                args,
                                keys[k],
                                m[keys[k]],
                            );
                        if k < i {
                            assert(before.contains(t));
                            let j = choose|j: int| 0 <= j < before.len() && before[j] == t;
                            assert(now[j] == t);
                        } else {
                            assert(now[now.len() - 1] == t);
                        }
                    }
                }
            }
        }
        proof {
            assert forall|s: egress::Sink| #[trigger] label.permits(s) <==> forall|k: int|
                0 <= k < i + 1 && #[trigger] refers_to(args, keys[k], m[keys[k]])
                    ==> m[keys[k]].label.permits(s) by {
                assert(old_label.permits(s) <==> forall|k: int|
                    0 <= k < i && #[trigger] refers_to(args, keys[k], m[keys[k]])
                        ==> m[keys[k]].label.permits(s));
                if label.permits(s) {
                    assert(old_label.permits(s));
                }
                if forall|k: int|
                    0 <= k < i + 1 && #[trigger] refers_to(args, keys[k], m[keys[k]])
                        ==> m[keys[k]].label.permits(s) {
                    assert(old_label.permits(s));
                    if refers_to(args, keys[i as int], m[keys[i as int]]) {
                        assert(m[keys[i as int]].label.permits(s));
                    }
                }
            }
        }
        i = i + 1;
    }
    let parents = order::sorted_listing(&ids);
    proof {
        let set = referred(args, m);
        assert forall|t: Seq<char>| #[trigger] ids.deep_view().contains(t) <==> set.contains(t) by {
            if set.contains(t) {
                assert(keys.contains(t));
                let k = choose|k: int| 0 <= k < keys.len() && keys[k] == t;
                assert(refers_to(args, keys[k], m[keys[k]]));
            }
            if ids.deep_view().contains(t) {
                let k = choose|k: int|
                    0 <= k < n && keys[k] == t && #[trigger] refers_to(args, keys[k], m[keys[k]]);
                assert(keys.contains(t));
                assert(m.dom().contains(t));
            }
        }
        assert forall|t: Seq<char>| #[trigger] parents.deep_view().contains(t) <==> set.contains(t) by {
            assert(ids.deep_view().to_set().contains(t) <==> ids.deep_view().contains(t));
        }
        order::lemma_listing(parents.deep_view(), set);
        assert forall|s: egress::Sink| #[trigger] label.permits(s) == carried(args, m).permits(s) by {
            assert(carried(args, m).permits(s) == carried_allows(args, m, s));
            if label.permits(s) {
                assert forall|k: Seq<char>| #[trigger] set.contains(k) implies m[k].label.permits(s) by {
                    assert(keys.contains(k));
                    let j = choose|j: int| 0 <= j < keys.len() && keys[j] == k;
                    assert(refers_to(args, keys[j], m[keys[j]]));
                }
            }
            if forall|k: Seq<char>| #[trigger] set.contains(k) ==> m[k].label.permits(s) {
                assert forall|k: int|
                    0 <= k < n && #[trigger] refers_to(args, keys[k], m[keys[k]]) implies m[keys[k]].label.permits(
                    s,
                ) by {
                    assert(keys.contains(keys[k]));
                    assert(m.dom().contains(keys[k]));
                    assert(set.contains(keys[k]));
                }
            }
        }
        label.lemma_extensional(carried(args, m));
    }
    (label, parents)
}

/// What the store knows of a durable object's label.
#[derive(Debug, Clone, Copy, PartialEq, Eq, Structural)]
pub enum StoredLabel {
    /// The object carries no label.
    Absent,
    Found(EgressLabel),
    /// The label could not be read.
    Failed,
}

/// What a stored label contributes. One that could not be read might have
/// been restrictive, so it counts as content that stays local.
pub open spec fn contribution(l: StoredLabel) -> EgressLabel {
    match l {
        StoredLabel::Absent => EgressLabel::top(),
        StoredLabel::Found(l) => l,
        StoredLabel::Failed => EgressLabel::stays_local(),
    }
}

/// What the store answered for an artifact.
pub open spec fn artifact_read(reads: Map<Seq<char>, StoredLabel>, id: Seq<char>) -> StoredLabel {
    if reads.dom().contains(id) {
        reads[id]
    } else {
        StoredLabel::Absent
    }
}

/// The intersection of what the artifacts contribute.
pub open spec fn artifacts_meet(ids: Seq<Seq<char>>, reads: Map<Seq<char>, StoredLabel>) -> EgressLabel
    decreases ids.len(),
{
    if ids.len() == 0 {
        EgressLabel::top()
    } else {
        artifacts_meet(ids.drop_last(), reads).meet(contribution(artifact_read(reads, ids.last())))
    }
}

/// The artifacts that contribute.
pub open spec fn artifacts_applied(
    ids: Seq<Seq<char>>,
    reads: Map<Seq<char>, StoredLabel>,
) -> Seq<Seq<char>>
    decreases ids.len(),
{
    if ids.len() == 0 {
        Seq::empty()
    } else {
        let before = artifacts_applied(ids.drop_last(), reads);
        if artifact_read(reads, ids.last()) == StoredLabel::Absent {
            before
        } else {
            before.push(ids.last())
        }
    }
}

/// Intersects the stored labels of the artifacts that the arguments name.
/// `reads` holds what the store answered for each of them.
pub fn artifact_taint_from_store(arguments_json: &str, reads: &TextMap<StoredLabel>) -> (r: (
    EgressLabel,
    Vec<String>,
))
    ensures
        order::lists(
            order::listing(artifact_ids(arguments_json@)),
            artifact_ids(arguments_json@),
        ),
        r.0 == artifacts_meet(order::listing(artifact_ids(arguments_json@)), reads@),
        r.1.deep_view() == artifacts_applied(
            order::listing(artifact_ids(arguments_json@)),
            reads@,
        ),
{
    let ids = artifact_ids_in_arguments(arguments_json);
    let ghost iv = ids.deep_view();
    let mut label = EgressLabel::unrestricted();
    let mut applied: Vec<String> = Vec::new();
    let mut i: usize = 0;
    assert(applied.deep_view() =~= Seq::<Seq<char>>::empty());
    while i < ids.len()
        invariant
            iv == ids.deep_view(),
            i <= ids@.len(),
            label == artifacts_meet(iv.subrange(0, i as int), reads@),
            applied.deep_view() == artifacts_applied(iv.subrange(0, i as int), reads@),
        decreases ids@.len() - i,
    {
        proof {
            let t = iv.subrange(0, i + 1);
            assert(t.drop_last() =~= iv.subrange(0, i as int));
            assert(t.last() == ids@[i as int]@);
            egress::restriction_is_a_semilattice(label, label, label);
        }
        match reads.get(ids[i].as_str()) {
            Some(StoredLabel::Found(l)) => {
                label = label.restrict(l);
                egress::push_name(&mut applied, ids[i].as_str());
            },
            Some(StoredLabel::Failed) => {
                label = label.restrict(&EgressLabel::local_only());
                egress::push_name(&mut applied, ids[i].as_str());
            },
            _ => {},
        }
        i = i + 1;
    }
    assert(iv.subrange(0, i as int) =~= iv);
    (label, applied)
}

/// The label of an agent's workspace, the agent where the workspace
/// contributes, and whether the read failed. A failed read restricts this
/// result alone: the caller must not write it back.
pub fn workspace_taint_from_store(agent_id: &str, read: StoredLabel) -> (r: (
    EgressLabel,
    Vec<String>,
    bool,
))
    ensures
        r.0 == contribution(read),
        r.1.deep_view() == (if read == StoredLabel::Absent {
            Seq::<Seq<char>>::empty()
        } else {
            seq![agent_id@]
        }),
        r.2 == (read == StoredLabel::Failed),
{
    let mut applied: Vec<String> = Vec::new();
    assert(applied.deep_view() =~= Seq::<Seq<char>>::empty());
    match read {
        StoredLabel::Found(l) => {
            egress::push_name(&mut applied, agent_id);
            (l, applied, false)
        },
        StoredLabel::Absent => (EgressLabel::unrestricted(), applied, false),
        StoredLabel::Failed => {
            egress::push_name(&mut applied, agent_id);
            (EgressLabel::local_only(), applied, true)
        },
    }
}

// ---------------------------------------------------------------------------
// Arguments
// ---------------------------------------------------------------------------

/// Tools whose results are labeled by what they run.
pub open spec fn exec_shaped(tool: Seq<char>) -> bool {
    egress::normalized_source(tool) == "sandbox_exec"@ || egress::normalized_source(tool)
        == "artifact_exec"@
}

/// Whether a tool's results are labeled by what it runs.
pub fn is_exec_shaped(tool: &str) -> (r: bool)
    ensures
        r == exec_shaped(tool@),
{
    let k = egress::normalize_source_key(tool);
    text::text_eq(k.as_str(), "sandbox_exec") || text::text_eq(k.as_str(), "artifact_exec")
}

/// The digest by which provenance refers to a call.
pub fn args_digest_of(arguments_json: &str) -> (r: String)
    ensures
        r@ == digest::short_digest(arguments_json@, 12),
{
    digest::hash_and_truncate(arguments_json, 12)
}

/// The command in the arguments of an exec-shaped call, and its inline script.
pub open spec fn sandbox_command(tree: Option<json::JsonView>) -> (Seq<char>, Option<Seq<char>>) {
    match tree {
        Some(j) => (
            match json::text_field(j, "command"@) {
                Some(c) => c,
                None => Seq::empty(),
            },
            match json::text_field(j, "code"@) {
                Some(c) => Some(c),
                None => json::text_field(j, "script"@),
            },
        ),
        None => (Seq::empty(), None),
    }
}

/// The command and the inline script in a tree of arguments.
pub fn sandbox_command_in(tree: &Json) -> (r: (String, Option<String>))
    ensures
        (r.0@, r.1.deep_view()) == sandbox_command(Some(tree@)),
{
    let cmd = match tree.get_text("command") {
        Some(c) => c.clone(),
        None => String::new(),
    };
    let script = match tree.get_text("code") {
        Some(c) => Some(c.clone()),
        None => match tree.get_text("script") {
            Some(c) => Some(c.clone()),
            None => None,
        },
    };
    (cmd, script)
}

/// The command and the inline script in the arguments of an exec-shaped call.
/// Arguments that are not JSON have neither.
pub fn extract_sandbox_command(arguments_json: &str) -> (r: (String, Option<String>))
    ensures
        (r.0@, r.1.deep_view()) == sandbox_command(json::parsed_json(arguments_json@)),
{
    match json::parse_json(arguments_json) {
        Some(tree) => sandbox_command_in(&tree),
        None => (String::new(), None),
    }
}

/// The first text that is not empty among the fields `path`, `file`,
/// `file_path` and `target`.
pub open spec fn structured_path(tree: Option<json::JsonView>) -> Option<Seq<char>> {
    match tree {
        Some(j) => {
            let f = |key: Seq<char>|
                match json::text_field(j, key) {
                    Some(s) => if s.len() > 0 {
                        Some(s)
                    } else {
                        None
                    },
                    None => None::<Seq<char>>,
                };
            match f("path"@) {
                Some(s) => Some(s),
                None => match f("file"@) {
                    Some(s) => Some(s),
                    None => match f("file_path"@) {
                        Some(s) => Some(s),
                        None => f("target"@),
                    },
                },
            }
        },
        None => None,
    }
}

fn filled_field(tree: &Json, key: &str) -> (r: Option<String>)
    ensures
        r.deep_view() == (match json::text_field(tree@, key@) {
            Some(s) => if s.len() > 0 {
                Some(s)
            } else {
                None
            },
            None => None::<Seq<char>>,
        }),
{
    match tree.get_text(key) {
        Some(s) => if s.as_str().is_empty() {
            None
        } else {
            Some(s.clone())
        },
        None => None,
    }
}

/// The path in a tree of arguments.
pub fn structured_path_in(tree: &Json) -> (r: Option<String>)
    ensures
        r.deep_view() == structured_path(Some(tree@)),
{
    match filled_field(tree, "path") {
        Some(s) => Some(s),
        None => match filled_field(tree, "file") {
            Some(s) => Some(s),
            None => match filled_field(tree, "file_path") {
                Some(s) => Some(s),
                None => filled_field(tree, "target"),
            },
        },
    }
}

/// The path in the arguments of a structured call, where there is one.
pub fn extract_structured_path(arguments_json: &str) -> (r: Option<String>)
    ensures
        r.deep_view() == structured_path(json::parsed_json(arguments_json@)),
{
    match json::parse_json(arguments_json) {
        Some(tree) => structured_path_in(&tree),
        None => None,
    }
}

// ---------------------------------------------------------------------------
// Labeling a result
// ---------------------------------------------------------------------------

/// The path patterns of the rules about `tool`, in order.
pub open spec fn exec_patterns(rules: Seq<ScopedRuleView>, tool: Seq<char>) -> Seq<Seq<char>>
    decreases rules.len(),
{
    if rules.len() == 0 {
        Seq::empty()
    } else {
        let before = exec_patterns(rules.drop_last(), tool);
        match rules.last().rule.path {
            Some(p) => if covers_source(rules.last().rule, tool) {
                before.push(p)
            } else {
                before
            },
            None => before,
        }
    }
}

/// The rules about `tool` that have no path or whose path pattern was found.
pub open spec fn exec_fired(
    rules: Seq<ScopedRuleView>,
    tool: Seq<char>,
    found: Seq<Seq<char>>,
) -> Seq<ScopedRuleView>
    decreases rules.len(),
{
    if rules.len() == 0 {
        Seq::empty()
    } else {
        let before = exec_fired(rules.drop_last(), tool, found);
        let r = rules.last().rule;
        if covers_source(r, tool) && (r.path is None || found.contains(r.path->0)) {
            before.push(rules.last())
        } else {
            before
        }
    }
}

/// What the store answered about the objects that a call touches.
pub struct StoreReads {
    /// The labels of the artifacts that the arguments name, by artifact id.
    pub artifacts: TextMap<StoredLabel>,
    /// The label of the agent's workspace.
    pub workspace: StoredLabel,
}

/// The outcome of labeling one tool result.
#[derive(Debug)]
pub struct LabelOutcome {
    pub envelope_id: String,
    pub label: EgressLabel,
    pub provenance: Provenance,
    /// How the label came about.
    pub resolution: Resolution,
    /// The agent's workspace takes on the label too.
    pub narrows_workspace: bool,
}

impl LabelOutcome {
    /// Whether the content is restricted at all.
    pub fn is_restricted(&self) -> (r: bool)
        ensures
            r == (self.label != EgressLabel::top()),
    {
        !self.label.is_unrestricted()
    }
}

impl EgressLabeler {
    /// The resolution of an exec-shaped call in whose sources the patterns
    /// `found` were found.
    pub open spec fn exec_resolved(self, tool: Seq<char>, found: Seq<Seq<char>>) -> ResolutionView {
        let all = rule_views(self.rules@);
        if exec_patterns(all, tool).len() == 0 || found.len() == 0 {
            self.resolved(tool, None)
        } else {
            let fired = exec_fired(all, tool, found);
            ResolutionView {
                label: self.combined(fired),
                matched: recorded(fired),
                paths: found,
                bundle_floor_applied: self.bundle_floor is Some,
                taint_applied: false,
                artifact_labels_applied: Seq::empty(),
                workspace_labels_applied: Seq::empty(),
            }
        }
    }

    /// The label that the rules give, before anything that the arguments carry along.
    pub open spec fn base(
        self,
        tool: Seq<char>,
        tree: Option<json::JsonView>,
        found: Seq<Seq<char>>,
    ) -> ResolutionView {
        if exec_shaped(tool) {
            self.exec_resolved(tool, found)
        } else {
            self.resolved(tool, structured_path(tree))
        }
    }

    /// The full resolution of a tool result.
    pub open spec fn labeled(
        self,
        tool: Seq<char>,
        args: Seq<char>,
        tree: Option<json::JsonView>,
        found: Seq<Seq<char>>,
        agent_id: Seq<char>,
        prior: Map<Seq<char>, PriorLabeledResult>,
        store: Option<StoreReads>,
    ) -> ResolutionView {
        let base = self.base(tool, tree, found);
        let parents = order::listing(referred(args, prior));
        let tainted = base.label.meet(carried(args, prior));
        match store {
            None => ResolutionView { label: tainted, taint_applied: parents.len() > 0, ..base },
            Some(reads) => {
                let ids = order::listing(artifact_ids(args));
                let shared = tainted.meet(artifacts_meet(ids, reads.artifacts@));
                ResolutionView {
                    label: if exec_shaped(tool) {
                        shared.meet(contribution(reads.workspace))
                    } else {
                        shared
                    },
                    taint_applied: parents.len() > 0,
                    artifact_labels_applied: artifacts_applied(ids, reads.artifacts@),
                    workspace_labels_applied: if exec_shaped(tool) && reads.workspace
                        != StoredLabel::Absent {
                        seq![agent_id]
                    } else {
                        Seq::empty()
                    },
                    ..base
                }
            },
        }
    }

    /// The path patterns that an exec-shaped call's sources are to be searched for.
    pub fn exec_path_patterns(&self, tool: &str) -> (r: Vec<String>)
        ensures
            r.deep_view() == exec_patterns(rule_views(self.rules@), tool@),
    {
        let ghost all = rule_views(self.rules@);
        let mut out: Vec<String> = Vec::new();
        let mut i: usize = 0;
        assert(out.deep_view() =~= Seq::<Seq<char>>::empty());
        while i < self.rules.len()
            invariant
                all == rule_views(self.rules@),
                i <= self.rules@.len(),
                out.deep_view() == exec_patterns(all.subrange(0, i as int), tool@),
            decreases self.rules@.len() - i,
        {
            let scoped = &self.rules[i];
            proof {
                let t = all.subrange(0, i + 1);
                assert(t.drop_last() =~= all.subrange(0, i as int));
                assert(t.last() == scoped@);
            }
            match &scoped.rule.path {
                Some(p) => {
                    if egress::source_pattern_matches(scoped.rule.source.as_str(), tool) {
                        egress::push_name(&mut out, p.as_str());
                    }
                },
                None => {},
            }
            i = i + 1;
        }
        assert(all.subrange(0, i as int) =~= all);
        out
    }

    /// Resolves an exec-shaped call from the path patterns that were found in
    /// the command and in the sources it runs. A rule about another tool never
    /// applies, though the command touched its path.
    pub fn resolve_exec_label(&self, tool: &str, found: &Vec<String>) -> (r: Resolution)
        ensures
            r@ == self.exec_resolved(tool@, found.deep_view()),
    {
        let patterns = self.exec_path_patterns(tool);
        if patterns.len() == 0 || found.len() == 0 {
            return self.resolve_label(tool, None);
        }
        let ghost all = rule_views(self.rules@);
        let ghost fv = found.deep_view();
        let mut label = EgressLabel::unrestricted();
        let mut matched: Vec<MatchedRule> = Vec::new();
        let mut i: usize = 0;
        assert(matched_views(matched@) =~= recorded(Seq::empty()));
        while i < self.rules.len()
            invariant
                all == rule_views(self.rules@),
                fv == found.deep_view(),
                i <= self.rules@.len(),
                label == rules_meet(exec_fired(all.subrange(0, i as int), tool@, fv)),
                matched_views(matched@) == recorded(
                    exec_fired(all.subrange(0, i as int), tool@, fv),
                ),
            decreases self.rules@.len() - i,
        {
            let scoped = &self.rules[i];
            let ghost before = exec_fired(all.subrange(0, i as int), tool@, fv);
            let ghost fired = exec_fired(all.subrange(0, i + 1), tool@, fv);
            proof {
                let t = all.subrange(0, i + 1);
                assert(t.drop_last() =~= all.subrange(0, i as int));
                assert(t.last() == scoped@);
            }
            let fires = match &scoped.rule.path {
                None => true,
                Some(p) => text::list_has(found, p.as_str()),
            };
            if egress::source_pattern_matches(scoped.rule.source.as_str(), tool) && fires {
                proof {
                    assert(fired == before.push(scoped@));
                    assert(fired.drop_last() =~= before);
                }
                label = label.restrict(&scoped.rule.label);
                push_matched(&mut matched, scoped);
                assert(matched_views(matched@) =~= recorded(fired));
            }
            i = i + 1;
        }
        assert(all.subrange(0, i as int) =~= all);
        self.finish_resolution(label, matched, text::clone_all(found))
    }

    /// Resolves the label of a tool result from everything that bears on it.
    ///
    /// `found` holds the path patterns that were found in an exec-shaped call's
    /// sources, `prior` the labeled results of this turn by call id, and
    /// `store` what the store answered, where there is a store.
    pub fn resolve_tool_result(
        &self,
        req: &LabelRequest<'_>,
        found: &Vec<String>,
        agent_id: &str,
        prior: &TextMap<PriorLabeledResult>,
        store: Option<&StoreReads>,
    ) -> (r: (Resolution, Vec<String>))
        ensures
            r.0@ == self.labeled(
                req.tool@,
                req.arguments_json@,
                json::parsed_json(req.arguments_json@),
                found.deep_view(),
                agent_id@,
                prior@,
                match store {
                    Some(s) => Some(*s),
                    None => None,
                },
            ),
            r.1.deep_view() == order::listing(referred(req.arguments_json@, prior@)),
            order::lists(r.1.deep_view(), referred(req.arguments_json@, prior@)),
    {
        let exec = is_exec_shaped(req.tool);
        let mut resolution = if exec {
            self.resolve_exec_label(req.tool, found)
        } else {
            let path = extract_structured_path(req.arguments_json);
            match &path {
                Some(p) => self.resolve_label(req.tool, Some(p.as_str())),
                None => self.resolve_label(req.tool, None),
            }
        };
        let ghost base = resolution@;
        let (taint, parents) = argument_taint_from_prior(req.arguments_json, prior);
        resolution.label = resolution.label.restrict(&taint);
        resolution.taint_applied = parents.len() > 0;
        assert(parents.deep_view().len() == parents@.len());
        assert(resolution@ == (ResolutionView {
            label: base.label.meet(taint),
            taint_applied: parents.deep_view().len() > 0,
            ..base
        }));
        match store {
            Some(reads) => {
                let (artifact_label, applied) = artifact_taint_from_store(
                    req.arguments_json,
                    &reads.artifacts,
                );
                resolution.label = resolution.label.restrict(&artifact_label);
                resolution.artifact_labels_applied = applied;
                if exec {
                    let (workspace_label, agents, _failed) = workspace_taint_from_store(
                        agent_id,
                        reads.workspace,
                    );
                    resolution.label = resolution.label.restrict(&workspace_label);
                    resolution.workspace_labels_applied = agents;
                }
            },
            None => {},
        }
        (resolution, parents)
    }

    /// Labels a tool result. There is no envelope where nothing restricts it,
    /// and an inert labeler labels none but exec-shaped calls, whose workspace
    /// may carry a label that no rule explains. `unique` makes the envelope's id.
    pub fn label_tool_result(
        &self,
        req: &LabelRequest<'_>,
        found: &Vec<String>,
        agent_id: &str,
        prior: &TextMap<PriorLabeledResult>,
        store: Option<&StoreReads>,
        unique: &str,
    ) -> (r: Option<LabelOutcome>)
        ensures
            ({
                let full = self.labeled(
                    req.tool@,
                    req.arguments_json@,
                    json::parsed_json(req.arguments_json@),
                    found.deep_view(),
                    agent_id@,
                    prior@,
                    match store {
                        Some(s) => Some(*s),
                        None => None,
                    },
                );
                match r {
                    None => (self.inert && !exec_shaped(req.tool@)) || full.label
                        == EgressLabel::top(),
                    Some(o) => {
                        &&& !(self.inert && !exec_shaped(req.tool@))
                        &&& full.label != EgressLabel::top()
                        &&& o.envelope_id@ == "env_"@ + unique@
                        &&& o.label == full.label
                        &&& o.resolution@ == full
                        &&& o.provenance.tool.deep_view() == Some(req.tool@)
                        &&& o.provenance.args_digest.deep_view() == Some(
                            digest::short_digest(req.arguments_json@, 12),
                        )
                        &&& o.provenance.matched_rules.deep_view() == rule_keys_of(full.matched)
                        &&& o.provenance.parent_envelope_ids.deep_view() == order::listing(
                            referred(req.arguments_json@, prior@),
                        )
                        &&& order::lists(
                            o.provenance.parent_envelope_ids.deep_view(),
                            referred(req.arguments_json@, prior@),
                        )
                        &&& o.narrows_workspace == (exec_shaped(req.tool@) && store is Some
                            && store->0.workspace != StoredLabel::Failed)
                    },
                }
            }),
    {
        let exec = is_exec_shaped(req.tool);
        if self.inert && !exec {
            return None;
        }
        let (resolution, parents) = self.resolve_tool_result(req, found, agent_id, prior, store);
        if resolution.label.is_unrestricted() {
            return None;
        }
        let narrows_workspace = exec && (match store {
            Some(reads) => match reads.workspace {
                StoredLabel::Failed => false,
                _ => true,
            },
            None => false,
        });
        let provenance = Provenance {
            tool: Some(req.tool.to_owned()),
            args_digest: Some(args_digest_of(req.arguments_json)),
            matched_rules: resolution.rule_keys(),
            parent_envelope_ids: parents,
        };
        let mut envelope_id = "env_".to_owned();
        envelope_id.append(unique);
        Some(
            LabelOutcome {
                envelope_id,
                label: resolution.label,
                provenance,
                resolution,
                narrows_workspace,
            },
        )
    }
}

/// Labeling a result never widens what any of its inputs restricts: the
/// rules, every prior result the arguments refer to, every artifact they
/// name, and for exec-shaped calls the workspace.
pub proof fn labeling_never_widens(
    labeler: EgressLabeler,
    tool: Seq<char>,
    args: Seq<char>,
    tree: Option<json::JsonView>,
    found: Seq<Seq<char>>,
    agent_id: Seq<char>,
    prior: Map<Seq<char>, PriorLabeledResult>,
    reads: StoreReads,
)
    ensures
        ({
            let l = labeler.labeled(tool, args, tree, found, agent_id, prior, Some(reads)).label;
            &&& l.within(labeler.base(tool, tree, found).label)
            &&& forall|k: Seq<char>|
                #[trigger] referred(args, prior).contains(k) ==> l.within(prior[k].label)
            &&& forall|id: Seq<char>| #[trigger]
                artifact_ids(args).contains(id) ==> l.within(
                    contribution(artifact_read(reads.artifacts@, id)),
                )
            &&& exec_shaped(tool) ==> l.within(contribution(reads.workspace))
        }),
{
    let l = labeler.labeled(tool, args, tree, found, agent_id, prior, Some(reads)).label;
    let c = carried(args, prior);
    let ids = order::listing(artifact_ids(args));
    let a = artifacts_meet(ids, reads.artifacts@);
    assert forall|s: egress::Sink| #[trigger] l.permits(s) implies labeler.base(
        tool,
        tree,
        found,
    ).label.permits(s) && c.permits(s) && a.permits(s) && (exec_shaped(tool) ==> contribution(
        reads.workspace,
    ).permits(s)) by {
    }
    assert forall|k: Seq<char>| #[trigger] referred(args, prior).contains(k) implies l.within(
        prior[k].label,
    ) by {
        assert forall|s: egress::Sink| #[trigger] l.permits(s) implies prior[k].label.permits(s) by {
            assert(c.permits(s) == carried_allows(args, prior, s));
        }
    }
    lemma_artifact_ids_listed(args);
    assert forall|id: Seq<char>| #[trigger] artifact_ids(args).contains(id) implies l.within(
        contribution(artifact_read(reads.artifacts@, id)),
    ) by {
        assert(ids.contains(id));
        let k = choose|k: int| 0 <= k < ids.len() && ids[k] == id;
        assert forall|s: egress::Sink| #[trigger] l.permits(s) implies contribution(
            artifact_read(reads.artifacts@, id),
        ).permits(s) by {
            lemma_artifacts_meet(ids, reads.artifacts@, k, s);
        }
    }
}

proof fn lemma_artifacts_meet(
    ids: Seq<Seq<char>>,
    reads: Map<Seq<char>, StoredLabel>,
    k: int,
    s: egress::Sink,
)
    requires
        0 <= k < ids.len(),
        artifacts_meet(ids, reads).permits(s),
    ensures
        contribution(artifact_read(reads, ids[k])).permits(s),
    decreases ids.len(),
{
    if k < ids.len() - 1 {
        assert(ids.drop_last()[k] == ids[k]);
        lemma_artifacts_meet(ids.drop_last(), reads, k, s);
    }
}

/// A result whose workspace label could not be read may not go to a remote
/// model or onto the network.
pub proof fn unreadable_workspaces_fail_closed(
    labeler: EgressLabeler,
    tool: Seq<char>,
    args: Seq<char>,
    tree: Option<json::JsonView>,
    found: Seq<Seq<char>>,
    agent_id: Seq<char>,
    prior: Map<Seq<char>, PriorLabeledResult>,
    reads: StoreReads,
)
    requires
        exec_shaped(tool),
        reads.workspace == StoredLabel::Failed,
    ensures
        ({
            let l = labeler.labeled(tool, args, tree, found, agent_id, prior, Some(reads)).label;
            !l.permits(egress::Sink::RemoteModel) && !l.permits(egress::Sink::Network)
        }),
{
}

/// The field holds a text that is not empty.
pub open spec fn is_filled(j: json::JsonView, key: Seq<char>) -> bool {
    json::text_field(j, key) is Some && json::text_field(j, key)->Some_0.len() > 0
}

/// The path of a structured call is the text of the first of `path`, `file`,
/// `file_path` and `target` that holds one that is not empty.
pub proof fn the_first_filled_field_is_the_path(
    j: json::JsonView,
    keys: Seq<Seq<char>>,
    k: int,
    s: Seq<char>,
)
    requires
        keys == seq!["path"@, "file"@, "file_path"@, "target"@],
        0 <= k < keys.len(),
        json::text_field(j, keys[k]) == Some(s),
        s.len() > 0,
        forall|i: int| 0 <= i < k ==> !is_filled(j, #[trigger] keys[i]),
    ensures
        structured_path(Some(j)) == Some(s),
{
    assert(k > 0 ==> !is_filled(j, keys[0]));
    assert(k > 1 ==> !is_filled(j, keys[1]));
    assert(k > 2 ==> !is_filled(j, keys[2]));
}

/// A structured call has a path exactly where one of `path`, `file`, `file_path` and
/// `target` holds a text that is not empty, and the path is the text of one of them.
pub proof fn paths_come_from_the_path_fields(j: json::JsonView)
    ensures
        structured_path(Some(j)) is Some <==> is_filled(j, "path"@) || is_filled(j, "file"@)
            || is_filled(j, "file_path"@) || is_filled(j, "target"@),
        structured_path(Some(j)) is Some ==> ({
            let p = structured_path(Some(j));
            p == json::text_field(j, "path"@) || p == json::text_field(j, "file"@) || p
                == json::text_field(j, "file_path"@) || p == json::text_field(j, "target"@)
        }),
        structured_path(None) is None,
{
}

/// A rule that covers a structured tool and whose pattern matches the call's path
/// bounds the label of the result: a sink that the rule denies is denied, whatever the
/// other rules, the default, the store and the arguments say.
pub proof fn path_rules_bound_the_label(
    labeler: EgressLabeler,
    tool: Seq<char>,
    args: Seq<char>,
    j: json::JsonView,
    found: Seq<Seq<char>>,
    agent_id: Seq<char>,
    prior: Map<Seq<char>, PriorLabeledResult>,
    store: Option<StoreReads>,
    keys: Seq<Seq<char>>,
    k: int,
    s: Seq<char>,
    i: int,
    pattern: Seq<char>,
    sink: egress::Sink,
)
    requires
        keys == seq!["path"@, "file"@, "file_path"@, "target"@],
        0 <= k < keys.len(),
        json::text_field(j, keys[k]) == Some(s),
        s.len() > 0,
        forall|n: int| 0 <= n < k ==> !is_filled(j, #[trigger] keys[n]),
        !exec_shaped(tool),
        0 <= i < labeler.rules@.len(),
        egress::glob_matches(
            egress::normalized_source(labeler.rules@[i].rule.source@),
            egress::normalized_source(tool),
        ),
        labeler.rules@[i].rule.path.deep_view() == Some(pattern),
        egress::glob_matches(pattern, s),
        !labeler.rules@[i].rule.label.permits(sink),
    ensures
        !labeler.labeled(tool, args, Some(j), found, agent_id, prior, store).label.permits(sink),
{
    the_first_filled_field_is_the_path(j, keys, k, s);
    let r = rule_views(labeler.rules@)[i];
    assert(r == labeler.rules@[i]@);
    assert(rule_views(labeler.rules@).contains(r));
    assert(rule_applies(r.rule, tool, Some(s)));
    assert(!r.rule.label.permits(sink));
    resolution_is_the_intersection(labeler, tool, Some(s), sink);
}

/// A rule without a path bounds the label of every result of the tools that it covers,
/// whether the call is structured or runs code.
pub proof fn source_rules_bound_the_label(
    labeler: EgressLabeler,
    tool: Seq<char>,
    args: Seq<char>,
    tree: Option<json::JsonView>,
    found: Seq<Seq<char>>,
    agent_id: Seq<char>,
    prior: Map<Seq<char>, PriorLabeledResult>,
    store: Option<StoreReads>,
    i: int,
    sink: egress::Sink,
)
    requires
        0 <= i < labeler.rules@.len(),
        egress::glob_matches(
            egress::normalized_source(labeler.rules@[i].rule.source@),
            egress::normalized_source(tool),
        ),
        labeler.rules@[i].rule.path is None,
        !labeler.rules@[i].rule.label.permits(sink),
    ensures
        !labeler.labeled(tool, args, tree, found, agent_id, prior, store).label.permits(sink),
{
    let r = rule_views(labeler.rules@)[i];
    assert(r == labeler.rules@[i]@);
    assert(rule_views(labeler.rules@).contains(r));
    assert(!r.rule.label.permits(sink));
    assert(rule_applies(r.rule, tool, structured_path(tree)));
    assert(rule_applies(r.rule, tool, None));
    resolution_is_the_intersection(labeler, tool, structured_path(tree), sink);
    resolution_is_the_intersection(labeler, tool, None, sink);
    lemma_exec_fired(rule_views(labeler.rules@), tool, found, i);
    let fired = exec_fired(rule_views(labeler.rules@), tool, found);
    lemma_rules_meet(fired, sink);
}

/// A rule whose pattern was found in the sources of a call that runs code bounds the
/// label of its result.
pub proof fn found_patterns_bound_the_label(
    labeler: EgressLabeler,
    tool: Seq<char>,
    args: Seq<char>,
    tree: Option<json::JsonView>,
    found: Seq<Seq<char>>,
    agent_id: Seq<char>,
    prior: Map<Seq<char>, PriorLabeledResult>,
    store: Option<StoreReads>,
    i: int,
    sink: egress::Sink,
)
    requires
        exec_shaped(tool),
        0 <= i < labeler.rules@.len(),
        egress::glob_matches(
            egress::normalized_source(labeler.rules@[i].rule.source@),
            egress::normalized_source(tool),
        ),
        labeler.rules@[i].rule.path is Some,
        found.contains(labeler.rules@[i].rule.path->Some_0@),
        !labeler.rules@[i].rule.label.permits(sink),
    ensures
        !labeler.labeled(tool, args, tree, found, agent_id, prior, store).label.permits(sink),
{
    let all = rule_views(labeler.rules@);
    assert(all[i] == labeler.rules@[i]@);
    lemma_exec_fired(all, tool, found, i);
    lemma_exec_patterns(all, tool, i);
    lemma_rules_meet(exec_fired(all, tool, found), sink);
}

proof fn lemma_exec_fired(
    rules: Seq<ScopedRuleView>,
    tool: Seq<char>,
    found: Seq<Seq<char>>,
    i: int,
)
    requires
        0 <= i < rules.len(),
        covers_source(rules[i].rule, tool),
        rules[i].rule.path is None || found.contains(rules[i].rule.path->0),
    ensures
        exists|k: int|
            0 <= k < exec_fired(rules, tool, found).len() && #[trigger] exec_fired(
                rules,
                tool,
                found,
            )[k] == rules[i],
    decreases rules.len(),
{
    let now = exec_fired(rules, tool, found);
    if i < rules.len() - 1 {
        let before = exec_fired(rules.drop_last(), tool, found);
        lemma_exec_fired(rules.drop_last(), tool, found, i);
        let k = choose|k: int| 0 <= k < before.len() && #[trigger] before[k] == rules.drop_last()[i];
        assert(now[k] == rules[i]);
    } else {
        assert(now[now.len() - 1] == rules[i]);
    }
}

proof fn lemma_exec_patterns(rules: Seq<ScopedRuleView>, tool: Seq<char>, i: int)
    requires
        0 <= i < rules.len(),
        covers_source(rules[i].rule, tool),
        rules[i].rule.path is Some,
    ensures
        exec_patterns(rules, tool).len() > 0,
    decreases rules.len(),
{
    if i < rules.len() - 1 {
        lemma_exec_patterns(rules.drop_last(), tool, i);
    }
}

/// The default and the agent's floor bound the label of every result.
pub proof fn the_default_and_the_floor_bound_the_label(
    labeler: EgressLabeler,
    tool: Seq<char>,
    args: Seq<char>,
    tree: Option<json::JsonView>,
    found: Seq<Seq<char>>,
    agent_id: Seq<char>,
    prior: Map<Seq<char>, PriorLabeledResult>,
    store: Option<StoreReads>,
    sink: egress::Sink,
)
    requires
        !labeler.default_label.permits(sink) || (labeler.bundle_floor is Some
            && !labeler.bundle_floor->Some_0.permits(sink)),
    ensures
        !labeler.labeled(tool, args, tree, found, agent_id, prior, store).label.permits(sink),
{
}

/// A prior result whose id, or whose snippet that is not empty, stands in the arguments
/// bounds the label of the result.
pub proof fn prior_results_bound_the_label(
    labeler: EgressLabeler,
    tool: Seq<char>,
    args: Seq<char>,
    tree: Option<json::JsonView>,
    found: Seq<Seq<char>>,
    agent_id: Seq<char>,
    prior: Map<Seq<char>, PriorLabeledResult>,
    store: Option<StoreReads>,
    k: Seq<char>,
    sink: egress::Sink,
)
    requires
        prior.dom().contains(k),
        text::has_text(args, k) || (prior[k].content_snippet is Some
            && prior[k].content_snippet->Some_0@.len() > 0 && text::has_text(
            args,
            prior[k].content_snippet->Some_0@,
        )),
        !prior[k].label.permits(sink),
    ensures
        !labeler.labeled(tool, args, tree, found, agent_id, prior, store).label.permits(sink),
{
    assert(referred(args, prior).contains(k));
    assert(!carried_allows(args, prior, sink));
    assert(!carried(args, prior).permits(sink));
}

/// The stored label of an artifact that the arguments name bounds the label of the
/// result. The name is `art_` and eight hexadecimal digits, with no letter or digit
/// behind them. A label that could not be read keeps the result on this machine.
pub proof fn artifacts_bound_the_label(
    labeler: EgressLabeler,
    tool: Seq<char>,
    args: Seq<char>,
    tree: Option<json::JsonView>,
    found: Seq<Seq<char>>,
    agent_id: Seq<char>,
    prior: Map<Seq<char>, PriorLabeledResult>,
    reads: StoreReads,
    i: int,
    id: Seq<char>,
    sink: egress::Sink,
)
    requires
        0 <= i,
        i + 12 <= args.len(),
        id == args.subrange(i, i + 12),
        id.subrange(0, 4) == "art_"@,
        forall|k: int|
            4 <= k < 12 ==> '0' <= #[trigger] id[k] <= '9' || 'a' <= id[k] <= 'f' || 'A' <= id[k]
                <= 'F',
        i + 12 < args.len() ==> !('0' <= args[i + 12] <= '9' || 'a' <= args[i + 12] <= 'z' || 'A'
            <= args[i + 12] <= 'Z'),
        reads.artifacts@.dom().contains(id),
        match reads.artifacts@[id] {
            StoredLabel::Found(l) => !l.permits(sink),
            StoredLabel::Failed => sink == egress::Sink::RemoteModel || sink
                == egress::Sink::FederatedAgent || sink == egress::Sink::Network,
            StoredLabel::Absent => false,
        },
    ensures
        !labeler.labeled(tool, args, tree, found, agent_id, prior, Some(reads)).label.permits(sink),
{
    reveal_strlit("art_");
    assert(args.subrange(i, i + 4) =~= id.subrange(0, 4));
    assert forall|k: int| i + 4 <= k < i + 12 implies is_hex(#[trigger] args[k]) by {
        assert(id[k - i] == args[k]);
    }
    assert(artifact_id_at(args, i));
    assert(artifact_ids(args).contains(id));
    labeling_never_widens(labeler, tool, args, tree, found, agent_id, prior, reads);
}

/// The label of the workspace bounds what calls that run code return: `sandbox.exec` and
/// `artifact.exec`, in either spelling. A label that could not be read keeps the result on
/// this machine.
pub proof fn the_workspace_bounds_what_runs_in_it(
    labeler: EgressLabeler,
    tool: Seq<char>,
    args: Seq<char>,
    tree: Option<json::JsonView>,
    found: Seq<Seq<char>>,
    agent_id: Seq<char>,
    prior: Map<Seq<char>, PriorLabeledResult>,
    reads: StoreReads,
    sink: egress::Sink,
)
    requires
        tool == "sandbox.exec"@ || tool == "sandbox_exec"@ || tool == "artifact.exec"@ || tool
            == "artifact_exec"@,
        match reads.workspace {
            StoredLabel::Found(l) => !l.permits(sink),
            StoredLabel::Failed => sink == egress::Sink::RemoteModel || sink
                == egress::Sink::FederatedAgent || sink == egress::Sink::Network,
            StoredLabel::Absent => false,
        },
    ensures
        exec_shaped(tool),
        !labeler.labeled(tool, args, tree, found, agent_id, prior, Some(reads)).label.permits(sink),
{
    calls_that_run_code_are_known(tool);
    labeling_never_widens(labeler, tool, args, tree, found, agent_id, prior, reads);
}

/// The tools that run code are `sandbox.exec` and `artifact.exec`, in either spelling.
pub proof fn calls_that_run_code_are_known(tool: Seq<char>)
    ensures
        tool == "sandbox.exec"@ || tool == "sandbox_exec"@ || tool == "artifact.exec"@ || tool
            == "artifact_exec"@ ==> exec_shaped(tool),
        exec_shaped(tool) ==> tool.len() == 12 || tool.len() == 13,
{
    reveal_strlit("sandbox.exec");
    reveal_strlit("sandbox_exec");
    reveal_strlit("artifact.exec");
    reveal_strlit("artifact_exec");
    assert(egress::normalized_source("sandbox.exec"@) =~= "sandbox_exec"@);
    assert(egress::normalized_source("sandbox_exec"@) =~= "sandbox_exec"@);
    assert(egress::normalized_source("artifact.exec"@) =~= "artifact_exec"@);
    assert(egress::normalized_source("artifact_exec"@) =~= "artifact_exec"@);
    assert(egress::normalized_source(tool).len() == tool.len());
}

/// Nothing else restricts a result: a sink that the default and the floor allow, and
/// every rule that covers the tool and has no path or a pattern that matches the call's
/// path, and every prior result that the arguments refer to, is allowed where there is no
/// store.
pub proof fn only_what_applies_restricts(
    labeler: EgressLabeler,
    tool: Seq<char>,
    args: Seq<char>,
    tree: Option<json::JsonView>,
    found: Seq<Seq<char>>,
    agent_id: Seq<char>,
    prior: Map<Seq<char>, PriorLabeledResult>,
    sink: egress::Sink,
)
    requires
        !exec_shaped(tool),
        labeler.default_label.permits(sink),
        labeler.bundle_floor is Some ==> labeler.bundle_floor->Some_0.permits(sink),
        forall|i: int|
            0 <= i < labeler.rules@.len() ==> ({
                let r = (#[trigger] labeler.rules@[i]).rule;
                ||| r.label.permits(sink)
                ||| !egress::glob_matches(
                    egress::normalized_source(r.source@),
                    egress::normalized_source(tool),
                )
                ||| r.path is Some && match structured_path(tree) {
                    Some(s) => !egress::glob_matches(r.path->Some_0@, s),
                    None => true,
                }
            }),
        forall|k: Seq<char>| #[trigger]
            prior.dom().contains(k) && !prior[k].label.permits(sink) ==> !text::has_text(args, k) && (
            prior[k].content_snippet is None || prior[k].content_snippet->Some_0@.len() == 0
                || !text::has_text(args, prior[k].content_snippet->Some_0@)),
    ensures
        labeler.labeled(tool, args, tree, found, agent_id, prior, None).label.permits(sink),
{
    let path = structured_path(tree);
    let all = rule_views(labeler.rules@);
    assert forall|r: ScopedRuleView|
        all.contains(r) && rule_applies(r.rule, tool, path) implies #[trigger] r.rule.label.permits(
        sink,
    ) by {
        let i = choose|i: int| 0 <= i < all.len() && all[i] == r;
        assert(labeler.rules@[i]@ == r);
    }
    resolution_is_the_intersection(labeler, tool, path, sink);
    assert forall|k: Seq<char>| #[trigger] referred(args, prior).contains(k) implies prior[k].label.permits(
        sink,
    ) by {
        assert(prior.dom().contains(k));
    }
    assert(carried_allows(args, prior, sink));
    assert(carried(args, prior).permits(sink));
}

/// A rule that applies to a structured call is recorded, by its source and its pattern.
pub proof fn rules_that_apply_are_recorded(
    labeler: EgressLabeler,
    tool: Seq<char>,
    path: Option<Seq<char>>,
    i: int,
)
    requires
        0 <= i < labeler.rules@.len(),
        egress::glob_matches(
            egress::normalized_source(labeler.rules@[i].rule.source@),
            egress::normalized_source(tool),
        ),
        labeler.rules@[i].rule.path is Some ==> path is Some && egress::glob_matches(
            labeler.rules@[i].rule.path->Some_0@,
            path->Some_0,
        ),
    ensures
        ({
            let m = labeler.resolved(tool, path).matched;
            exists|k: int|
                0 <= k < m.len() && (#[trigger] m[k]).scope == labeler.rules@[i].scope && m[k].key
                    == match labeler.rules@[i].rule.path {
                    Some(p) => labeler.rules@[i].rule.source@ + ":"@ + p@,
                    None => labeler.rules@[i].rule.source@,
                }
        }),
{
    let all = rule_views(labeler.rules@);
    let r = all[i];
    assert(r == labeler.rules@[i]@);
    let fired = applicable(all, tool, path);
    assert(all.contains(r));
    lemma_applicable(all, tool, path, r);
    let k = choose|k: int| 0 <= k < fired.len() && fired[k] == r;
    let m = labeler.resolved(tool, path).matched;
    assert(m[k] == recorded(fired)[k]);
    assert(m[k].key == rule_key(r.rule));
}

/// The command of a call that runs code is its field `command`, and the script is its
/// field `code`, or `script` where there is no `code`.
pub proof fn commands_come_from_their_fields(j: json::JsonView, c: Seq<char>)
    ensures
        json::text_field(j, "command"@) == Some(c) ==> sandbox_command(Some(j)).0 == c,
        json::text_field(j, "command"@) is None ==> sandbox_command(Some(j)).0.len() == 0,
        json::text_field(j, "code"@) == Some(c) ==> sandbox_command(Some(j)).1 == Some(c),
        json::text_field(j, "code"@) is None && json::text_field(j, "script"@) == Some(c)
            ==> sandbox_command(Some(j)).1 == Some(c),
        json::text_field(j, "code"@) is None && json::text_field(j, "script"@) is None
            ==> sandbox_command(Some(j)).1 is None,
{
}

/// How a label came about is told by whose rules applied: the operator's, the session's,
/// both, or none.
pub proof fn resolutions_tell_whose_rules_applied(m: Seq<MatchedRuleView>)
    ensures
        ({
            let global = exists|i: int| 0 <= i < m.len() && (#[trigger] m[i]).scope == RuleScope::Global;
            let session = exists|i: int|
                0 <= i < m.len() && (#[trigger] m[i]).scope == RuleScope::Session;
            &&& global && session ==> resolution_kind(m) == "operator_and_session_rule"@
            &&& global && !session ==> resolution_kind(m) == "operator_rule"@
            &&& !global && session ==> resolution_kind(m) == "session_rule"@
            &&& !global && !session ==> resolution_kind(m) == "default"@
        }),
        scope_name(RuleScope::Global) == "global"@,
        scope_name(RuleScope::Session) == "session"@,
{
}

/// The path pattern of every rule that applies is recorded, and each once.
pub proof fn paths_of_rules_that_apply_are_recorded(
    rules: Seq<ScopedRuleView>,
    i: int,
    p: Seq<char>,
)
    requires
        0 <= i < rules.len(),
        rules[i].rule.path == Some(p),
    ensures
        rule_paths(rules).contains(p),
        rule_paths(rules).no_duplicates(),
    decreases rules.len(),
{
    let d = rules.drop_last();
    let before = rule_paths(d);
    let now = rule_paths(rules);
    lemma_rule_paths_once(rules);
    if i == rules.len() - 1 {
        if !before.contains(p) {
            assert(now[before.len() as int] == p);
        }
    } else {
        assert(d[i] == rules[i]);
        paths_of_rules_that_apply_are_recorded(d, i, p);
        let k = choose|k: int| 0 <= k < before.len() && before[k] == p;
        assert(now[k] == p);
    }
}

proof fn lemma_rule_paths_once(rules: Seq<ScopedRuleView>)
    ensures
        rule_paths(rules).no_duplicates(),
    decreases rules.len(),
{
    if rules.len() > 0 {
        lemma_rule_paths_once(rules.drop_last());
    }
}

/// Every artifact of which a label is known, or cannot be read, is recorded as applied, and
/// no other is.
pub proof fn applied_artifacts_are_recorded(
    ids: Seq<Seq<char>>,
    reads: Map<Seq<char>, StoredLabel>,
)
    ensures
        artifacts_applied(ids, reads) == ids.filter(
            |id: Seq<char>| reads.dom().contains(id) && reads[id] != StoredLabel::Absent,
        ),
    decreases ids.len(),
{
    reveal(Seq::filter);
    if ids.len() > 0 {
        applied_artifacts_are_recorded(ids.drop_last(), reads);
    }
}

/// Every rule of a policy is kept, in order, under the policy's scope, and the record of what
/// matched lists each rule's key.
pub proof fn policies_are_kept_whole(
    v: Seq<EgressRule>,
    scope: RuleScope,
    m: Seq<MatchedRuleView>,
    i: int,
)
    ensures
        scoped_views(v, scope).len() == v.len(),
        0 <= i < v.len() ==> scoped_views(v, scope)[i].rule == v[i]@ && scoped_views(v, scope)[i].scope
            == scope,
        rule_keys_of(m).len() == m.len(),
        0 <= i < m.len() ==> rule_keys_of(m)[i] == m[i].key,
{
}

} // verus!
