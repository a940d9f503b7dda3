//! Egress labels: which sinks a piece of content may flow to.
//!
//! A label is the set of sinks that it allows. Labels combine by intersection
//! alone, so combining never lets content flow to a sink that one of the
//! combined labels excludes.

use crate::text;
use vstd::prelude::*;

verus! {

/// A place that content can flow to.
#[derive(Debug, Clone, Copy, PartialEq, Eq, Structural)]
pub enum Sink {
    LocalModel,
    RemoteModel,
    LocalAgent,
    FederatedAgent,
    Network,
    MemoryPersist,
    UserReply,
}

/// The wire name of a sink.
pub open spec fn sink_name(s: Sink) -> Seq<char> {
    match s {
        Sink::LocalModel => "local_model"@,
        Sink::RemoteModel => "remote_model"@,
        Sink::LocalAgent => "local_agent"@,
        Sink::FederatedAgent => "federated_agent"@,
        Sink::Network => "network"@,
        Sink::MemoryPersist => "memory_persist"@,
        Sink::UserReply => "user_reply"@,
    }
}

/// The wire name of a sink.
pub fn sink_str(s: Sink) -> (r: &'static str)
    ensures
        r@ == sink_name(s),
{
    match s {
        Sink::LocalModel => "local_model",
        Sink::RemoteModel => "remote_model",
        Sink::LocalAgent => "local_agent",
        Sink::FederatedAgent => "federated_agent",
        Sink::Network => "network",
        Sink::MemoryPersist => "memory_persist",
        Sink::UserReply => "user_reply",
    }
}

/// Whether a model runs on this machine or elsewhere.
#[derive(Debug, Clone, Copy, PartialEq, Eq, Structural)]
pub enum EgressClass {
    Local,
    Remote,
}

impl EgressClass {
    /// The sink that completions of this class land in.
    pub open spec fn spec_sink(self) -> Sink {
        match self {
            EgressClass::Local => Sink::LocalModel,
            EgressClass::Remote => Sink::RemoteModel,
        }
    }

    /// The sink that completions of this class land in.
    pub fn as_sink(self) -> (r: Sink)
        ensures
            r == self.spec_sink(),
    {
        match self {
            EgressClass::Local => Sink::LocalModel,
            EgressClass::Remote => Sink::RemoteModel,
        }
    }
}

/// The set of sinks that content may flow to.
#[derive(Debug, Clone, Copy, PartialEq, Eq, Structural)]
pub struct EgressLabel {
    pub local_model: bool,
    pub remote_model: bool,
    pub local_agent: bool,
    pub federated_agent: bool,
    pub network: bool,
    pub memory_persist: bool,
    pub user_reply: bool,
}

impl EgressLabel {
    /// The label allows content to flow to `s`.
    pub open spec fn permits(self, s: Sink) -> bool {
        match s {
            Sink::LocalModel => self.local_model,
            Sink::RemoteModel => self.remote_model,
            Sink::LocalAgent => self.local_agent,
            Sink::FederatedAgent => self.federated_agent,
            Sink::Network => self.network,
            Sink::MemoryPersist => self.memory_persist,
            Sink::UserReply => self.user_reply,
        }
    }

    /// The label whose allowed sinks are those allowed by both.
    pub open spec fn meet(self, other: EgressLabel) -> EgressLabel {
        EgressLabel {
            local_model: self.local_model && other.local_model,
            remote_model: self.remote_model && other.remote_model,
            local_agent: self.local_agent && other.local_agent,
            federated_agent: self.federated_agent && other.federated_agent,
            network: self.network && other.network,
            memory_persist: self.memory_persist && other.memory_persist,
            user_reply: self.user_reply && other.user_reply,
        }
    }

    /// Everything that `self` allows, `other` allows too.
    pub open spec fn within(self, other: EgressLabel) -> bool {
        forall|s: Sink| #[trigger] self.permits(s) ==> other.permits(s)
    }

    /// Every sink is allowed.
    pub open spec fn top() -> EgressLabel {
        EgressLabel {
            local_model: true,
            remote_model: true,
            local_agent: true,
            federated_agent: true,
            network: true,
            memory_persist: true,
            user_reply: true,
        }
    }

    /// No sink is allowed.
    pub open spec fn bottom() -> EgressLabel {
        EgressLabel {
            local_model: false,
            remote_model: false,
            local_agent: false,
            federated_agent: false,
            network: false,
            memory_persist: false,
            user_reply: false,
        }
    }

    /// Content stays on this machine: the local model, local agents, the
    /// memory and the operator's own reply.
    pub open spec fn stays_local() -> EgressLabel {
        EgressLabel { remote_model: false, federated_agent: false, network: false, ..EgressLabel::top() }
    }

    /// Content may go anywhere but to a remote model.
    pub open spec fn not_remote_model() -> EgressLabel {
        EgressLabel { remote_model: false, ..EgressLabel::top() }
    }

    /// The label that allows exactly the sinks of which `allowed` holds.
    pub open spec fn from_predicate(allowed: spec_fn(Sink) -> bool) -> EgressLabel {
        EgressLabel {
            local_model: allowed(Sink::LocalModel),
            remote_model: allowed(Sink::RemoteModel),
            local_agent: allowed(Sink::LocalAgent),
            federated_agent: allowed(Sink::FederatedAgent),
            network: allowed(Sink::Network),
            memory_persist: allowed(Sink::MemoryPersist),
            user_reply: allowed(Sink::UserReply),
        }
    }

    /// Two labels that allow the same sinks are the same label.
    pub proof fn lemma_extensional(self, other: EgressLabel)
        requires
            forall|s: Sink| #[trigger] self.permits(s) == other.permits(s),
        ensures
            self == other,
    {
        assert(self.permits(Sink::LocalModel) == other.permits(Sink::LocalModel));
        assert(self.permits(Sink::RemoteModel) == other.permits(Sink::RemoteModel));
        assert(self.permits(Sink::LocalAgent) == other.permits(Sink::LocalAgent));
        assert(self.permits(Sink::FederatedAgent) == other.permits(Sink::FederatedAgent));
        assert(self.permits(Sink::Network) == other.permits(Sink::Network));
        assert(self.permits(Sink::MemoryPersist) == other.permits(Sink::MemoryPersist));
        assert(self.permits(Sink::UserReply) == other.permits(Sink::UserReply));
    }

    pub fn unrestricted() -> (r: EgressLabel)
        ensures
            r == EgressLabel::top(),
    {
        EgressLabel {
            local_model: true,
            remote_model: true,
            local_agent: true,
            federated_agent: true,
            network: true,
            memory_persist: true,
            user_reply: true,
        }
    }

    pub fn empty() -> (r: EgressLabel)
        ensures
            r == EgressLabel::bottom(),
    {
        EgressLabel {
            local_model: false,
            remote_model: false,
            local_agent: false,
            federated_agent: false,
            network: false,
            memory_persist: false,
            user_reply: false,
        }
    }

    pub fn local_only() -> (r: EgressLabel)
        ensures
            r == EgressLabel::stays_local(),
    {
        let mut r = EgressLabel::unrestricted();
        r.remote_model = false;
        r.federated_agent = false;
        r.network = false;
        r
    }

    pub fn no_remote_model() -> (r: EgressLabel)
        ensures
            r == EgressLabel::not_remote_model(),
    {
        let mut r = EgressLabel::unrestricted();
        r.remote_model = false;
        r
    }

    /// The label that allows exactly the listed sinks.
    pub fn from_sinks(sinks: &[Sink]) -> (r: EgressLabel)
        ensures
            forall|s: Sink| #[trigger] r.permits(s) <==> sinks@.contains(s),
    {
        let mut r = EgressLabel::empty();
        let mut i: usize = 0;
        while i < sinks.len()
            invariant
                i <= sinks@.len(),
                forall|s: Sink|
                    #[trigger] r.permits(s) <==> exists|k: int| 0 <= k < i && sinks@[k] == s,
            decreases sinks@.len() - i,
        {
            let ghost before = r;
            match sinks[i] {
                Sink::LocalModel => r.local_model = true,
                Sink::RemoteModel => r.remote_model = true,
                Sink::LocalAgent => r.local_agent = true,
                Sink::FederatedAgent => r.federated_agent = true,
                Sink::Network => r.network = true,
                Sink::MemoryPersist => r.memory_persist = true,
                Sink::UserReply => r.user_reply = true,
            }
            proof {
                assert forall|s: Sink| #[trigger] r.permits(s) <==> exists|k: int|
                    0 <= k < i + 1 && sinks@[k] == s by {
                    assert(r.permits(s) == (before.permits(s) || s == sinks@[i as int]));
                    if before.permits(s) {
                        let k = choose|k: int| 0 <= k < i && sinks@[k] == s;
                        assert(0 <= k < i + 1 && sinks@[k] == s);
                    }
                }
            }
            i = i + 1;
        }
        r
    }

    /// Whether content may flow to `s`.
    pub fn allows(&self, s: Sink) -> (r: bool)
        ensures
            r == self.permits(s),
    {
        match s {
            Sink::LocalModel => self.local_model,
            Sink::RemoteModel => self.remote_model,
            Sink::LocalAgent => self.local_agent,
            Sink::FederatedAgent => self.federated_agent,
            Sink::Network => self.network,
            Sink::MemoryPersist => self.memory_persist,
            Sink::UserReply => self.user_reply,
        }
    }

    /// The intersection of two labels.
    pub fn restrict(self, other: &EgressLabel) -> (r: EgressLabel)
        ensures
            r == self.meet(*other),
    {
        EgressLabel {
            local_model: self.local_model && other.local_model,
            remote_model: self.remote_model && other.remote_model,
            local_agent: self.local_agent && other.local_agent,
            federated_agent: self.federated_agent && other.federated_agent,
            network: self.network && other.network,
            memory_persist: self.memory_persist && other.memory_persist,
            user_reply: self.user_reply && other.user_reply,
        }
    }

    pub fn is_unrestricted(&self) -> (r: bool)
        ensures
            r == (*self == EgressLabel::top()),
    {
        *self == EgressLabel::unrestricted()
    }

    pub fn is_empty(&self) -> (r: bool)
        ensures
            r == (*self == EgressLabel::bottom()),
    {
        *self == EgressLabel::empty()
    }
}

/// Restricting allows a sink exactly where both labels allow it.
pub proof fn restriction_is_intersection(a: EgressLabel, b: EgressLabel, s: Sink)
    ensures
        a.meet(b).permits(s) == (a.permits(s) && b.permits(s)),
{
}

/// Restricting never widens: the result allows nothing that either label excludes.
pub proof fn restriction_never_widens(a: EgressLabel, b: EgressLabel)
    ensures
        a.meet(b).within(a),
        a.meet(b).within(b),
{
    assert forall|s: Sink| #[trigger] a.meet(b).permits(s) implies a.permits(s) && b.permits(s) by {
    }
}

/// The order and the number of restrictions do not matter, and the
/// unrestricted label changes nothing.
pub proof fn restriction_is_a_semilattice(a: EgressLabel, b: EgressLabel, c: EgressLabel)
    ensures
        a.meet(b) == b.meet(a),
        a.meet(b).meet(c) == a.meet(b.meet(c)),
        a.meet(a) == a,
        a.meet(EgressLabel::top()) == a,
{
}

/// A label with a name that operators write in rules.
#[derive(Debug, Clone, Copy, PartialEq, Eq, Structural)]
pub enum NamedEgressLabel {
    Unrestricted,
    LocalOnly,
    NoRemoteModel,
}

impl NamedEgressLabel {
    /// The label that the name stands for.
    pub open spec fn spec_label(self) -> EgressLabel {
        match self {
            NamedEgressLabel::Unrestricted => EgressLabel::top(),
            NamedEgressLabel::LocalOnly => EgressLabel::stays_local(),
            NamedEgressLabel::NoRemoteModel => EgressLabel::not_remote_model(),
        }
    }

    pub fn to_label(self) -> (r: EgressLabel)
        ensures
            r == self.spec_label(),
    {
        match self {
            NamedEgressLabel::Unrestricted => EgressLabel::unrestricted(),
            NamedEgressLabel::LocalOnly => EgressLabel::local_only(),
            NamedEgressLabel::NoRemoteModel => EgressLabel::no_remote_model(),
        }
    }
}

/// The names of the sinks that a label allows, in declaration order.
pub open spec fn sink_names(l: EgressLabel) -> Seq<Seq<char>> {
    let a = if l.local_model { seq!["local_model"@] } else { Seq::empty() };
    let b = if l.remote_model { a.push("remote_model"@) } else { a };
    let c = if l.local_agent { b.push("local_agent"@) } else { b };
    let d = if l.federated_agent { c.push("federated_agent"@) } else { c };
    let e = if l.network { d.push("network"@) } else { d };
    let f = if l.memory_persist { e.push("memory_persist"@) } else { e };
    if l.user_reply { f.push("user_reply"@) } else { f }
}

/// How a label is shown: its name where it has one, else its sinks.
pub open spec fn display_name(l: EgressLabel) -> Seq<char> {
    if l == EgressLabel::top() {
        "unrestricted"@
    } else if l == EgressLabel::stays_local() {
        "local_only"@
    } else if l == EgressLabel::not_remote_model() {
        "no_remote_model"@
    } else {
        "{"@ + text::join(sink_names(l), ", "@) + "}"@
    }
}

/// The names of the sinks that a label allows.
pub fn label_sinks(l: &EgressLabel) -> (r: Vec<String>)
    ensures
        r.deep_view() == sink_names(*l),
{
    let mut out: Vec<String> = Vec::new();
    let ghost e: Seq<Seq<char>> = Seq::empty();
    assert(out.deep_view() =~= e);
    if l.local_model {
        push_name(&mut out, "local_model");
    }
    if l.remote_model {
        push_name(&mut out, "remote_model");
    }
    if l.local_agent {
        push_name(&mut out, "local_agent");
    }
    if l.federated_agent {
        push_name(&mut out, "federated_agent");
    }
    if l.network {
        push_name(&mut out, "network");
    }
    if l.memory_persist {
        push_name(&mut out, "memory_persist");
    }
    if l.user_reply {
        push_name(&mut out, "user_reply");
    }
    out
}

/// Adds a copy of `s` to the end of `v`.
pub fn push_name(v: &mut Vec<String>, s: &str)
    ensures
        final(v).deep_view() == old(v).deep_view().push(s@),
{
    v.push(s.to_owned());
    assert(v.deep_view() =~= old(v).deep_view().push(s@));
}

/// How a label is shown to the operator.
pub fn label_display_name(l: &EgressLabel) -> (r: String)
    ensures
        r@ == display_name(*l),
{
    if l.is_unrestricted() {
        "unrestricted".to_owned()
    } else if *l == EgressLabel::local_only() {
        "local_only".to_owned()
    } else if *l == EgressLabel::no_remote_model() {
        "no_remote_model".to_owned()
    } else {
        let names = label_sinks(l);
        let mut s = "{".to_owned();
        s.append(text::joined(&names, ", ").as_str());
        s.append("}");
        s
    }
}

// ---------------------------------------------------------------------------
// Rules
// ---------------------------------------------------------------------------

/// A source name with dots written as underscores.
pub open spec fn normalized_source(s: Seq<char>) -> Seq<char> {
    s.map_values(
        |c: char|
            if c == '.' {
                '_'
            } else {
                c
            },
    )
}

/// A source name with dots written as underscores, so that both spellings of a
/// tool's name are the same key.
pub fn normalize_source_key(s: &str) -> (r: String)
    ensures
        r@ == normalized_source(s@),
{
    let v = text::chars_of(s);
    let mut out = String::new();
    let mut i: usize = 0;
    while i < v.len()
        invariant
            i <= v@.len(),
            out@ == normalized_source(v@.subrange(0, i as int)),
        decreases v@.len() - i,
    {
        let c: char = v[i];
        out.push(
            if c == '.' {
                '_'
            } else {
                c
            },
        );
        i = i + 1;
        assert(out@ =~= normalized_source(v@.subrange(0, i as int)));
    }
    assert(v@.subrange(0, v@.len() as int) =~= v@);
    out
}

/// A pattern that ends in `*` matches what begins with the part before its
/// trailing asterisks; any other pattern matches itself.
pub open spec fn glob_matches(pattern: Seq<char>, actual: Seq<char>) -> bool {
    if pattern.len() > 0 && pattern.last() == '*' {
        text::begins_with(actual, text::trim_end_char(pattern, '*'))
    } else {
        pattern == actual
    }
}

/// Whether `actual` matches a pattern with optional trailing asterisks.
pub fn matches_simple_glob(pattern: &str, actual: &str) -> (r: bool)
    ensures
        r == glob_matches(pattern@, actual@),
{
    let v = text::chars_of(pattern);
    if v.len() > 0 && v[v.len() - 1] == '*' {
        let prefix = text::trimmed_end_char(pattern, '*');
        text::starts_with(actual, prefix.as_str())
    } else {
        text::text_eq(pattern, actual)
    }
}

/// Whether a rule's source pattern covers a tool, in either spelling.
pub fn source_pattern_matches(pattern: &str, source: &str) -> (r: bool)
    ensures
        r == glob_matches(normalized_source(pattern@), normalized_source(source@)),
{
    let p = normalize_source_key(pattern);
    let s = normalize_source_key(source);
    matches_simple_glob(p.as_str(), s.as_str())
}

/// Content from `source` (and `path`, where one is given) carries `label`.
#[derive(Debug)]
pub struct EgressRule {
    pub source: String,
    pub path: Option<String>,
    pub label: EgressLabel,
}

/// The mathematical model of an [`EgressRule`].
pub struct EgressRuleView {
    pub source: Seq<char>,
    pub path: Option<Seq<char>>,
    pub label: EgressLabel,
}

impl View for EgressRule {
    type V = EgressRuleView;

    open spec fn view(&self) -> EgressRuleView {
        EgressRuleView { source: self.source@, path: self.path.deep_view(), label: self.label }
    }
}

impl Clone for EgressRule {
    fn clone(&self) -> (r: EgressRule)
        ensures
            r@ == self@,
    {
        EgressRule {
            source: self.source.clone(),
            path: text::clone_opt(&self.path),
            label: self.label,
        }
    }
}

/// The operator's standing egress policy.
#[derive(Debug)]
pub struct EgressConfig {
    pub rules: Vec<EgressRule>,
    pub default_label: NamedEgressLabel,
}

impl Default for EgressConfig {
    fn default() -> (r: EgressConfig)
        ensures
            r.rules@.len() == 0,
            r.default_label == NamedEgressLabel::Unrestricted,
    {
        EgressConfig { rules: Vec::new(), default_label: NamedEgressLabel::Unrestricted }
    }
}

/// A session's constraint on which providers may serve it.
#[derive(Debug, Clone, Copy, PartialEq, Eq, Structural)]
pub enum ProviderConstraint {
    LocalOnly,
}

impl ProviderConstraint {
    pub fn as_str(self) -> (r: &'static str)
        ensures
            r@ == "local_only"@,
    {
        match self {
            ProviderConstraint::LocalOnly => "local_only",
        }
    }
}

/// The egress policy of one root session.
#[derive(Debug)]
pub struct EgressSessionPolicy {
    pub rules: Vec<EgressRule>,
    pub default_label: Option<NamedEgressLabel>,
    pub provider_constraint: Option<ProviderConstraint>,
}

impl Default for EgressSessionPolicy {
    fn default() -> (r: EgressSessionPolicy)
        ensures
            r.rules@.len() == 0,
            r.default_label is None,
            r.provider_constraint is None,
    {
        EgressSessionPolicy { rules: Vec::new(), default_label: None, provider_constraint: None }
    }
}

/// Where a labeled envelope came from.
#[derive(Debug)]
pub struct Provenance {
    pub tool: Option<String>,
    pub args_digest: Option<String>,
    pub matched_rules: Vec<String>,
    pub parent_envelope_ids: Vec<String>,
}

// ---------------------------------------------------------------------------
// Laws of names, globs and sources
// ---------------------------------------------------------------------------

/// What the named labels allow: everything, everything that stays on this machine, and
/// everything but a remote model. The empty label allows nothing.
pub proof fn named_labels_allow_what_they_say(s: Sink)
    ensures
        NamedEgressLabel::Unrestricted.spec_label().permits(s),
        NamedEgressLabel::LocalOnly.spec_label().permits(s) <==> s == Sink::LocalModel || s
            == Sink::LocalAgent || s == Sink::MemoryPersist || s == Sink::UserReply,
        NamedEgressLabel::NoRemoteModel.spec_label().permits(s) <==> s != Sink::RemoteModel,
        !EgressLabel::bottom().permits(s),
        EgressLabel::top().permits(s),
        EgressClass::Local.spec_sink() == Sink::LocalModel,
        EgressClass::Remote.spec_sink() == Sink::RemoteModel,
{
}

/// A label allows a sink exactly where its flag for that sink is set.
pub proof fn labels_allow_by_their_flags(l: EgressLabel)
    ensures
        l.permits(Sink::LocalModel) == l.local_model,
        l.permits(Sink::RemoteModel) == l.remote_model,
        l.permits(Sink::LocalAgent) == l.local_agent,
        l.permits(Sink::FederatedAgent) == l.federated_agent,
        l.permits(Sink::Network) == l.network,
        l.permits(Sink::MemoryPersist) == l.memory_persist,
        l.permits(Sink::UserReply) == l.user_reply,
{
}

/// The sinks that a label allows are all shown: by the label's own name where it has one,
/// and else by the name of each.
pub proof fn labels_are_shown_by_their_sinks(l: EgressLabel)
    ensures
        l.local_model ==> sink_names(l).contains("local_model"@),
        l.remote_model ==> sink_names(l).contains("remote_model"@),
        l.local_agent ==> sink_names(l).contains("local_agent"@),
        l.federated_agent ==> sink_names(l).contains("federated_agent"@),
        l.network ==> sink_names(l).contains("network"@),
        l.memory_persist ==> sink_names(l).contains("memory_persist"@),
        l.user_reply ==> sink_names(l).contains("user_reply"@),
        sink_names(l).len() == (if l.local_model { 1int } else { 0 }) + (if l.remote_model { 1int } else { 0 })
            + (if l.local_agent { 1int } else { 0 }) + (if l.federated_agent { 1int } else { 0 })
            + (if l.network { 1int } else { 0 }) + (if l.memory_persist { 1int } else { 0 })
            + (if l.user_reply { 1int } else { 0 }),
        l == EgressLabel::top() ==> display_name(l) == "unrestricted"@,
        l.local_model && l.local_agent && l.memory_persist && l.user_reply && !l.remote_model
            && !l.federated_agent && !l.network ==> display_name(l) == "local_only"@,
        !l.remote_model && l.local_model && l.local_agent && l.memory_persist && l.user_reply
            && l.federated_agent && l.network ==> display_name(l) == "no_remote_model"@,
        !(l.local_model && l.local_agent && l.memory_persist && l.user_reply) ==> display_name(l)
            == "{"@ + text::join(sink_names(l), ", "@) + "}"@,
{
    let none = Seq::<Seq<char>>::empty();
    let a = if l.local_model { seq!["local_model"@] } else { none };
    let b = if l.remote_model { a.push("remote_model"@) } else { a };
    let c = if l.local_agent { b.push("local_agent"@) } else { b };
    let d = if l.federated_agent { c.push("federated_agent"@) } else { c };
    let e = if l.network { d.push("network"@) } else { d };
    let f = if l.memory_persist { e.push("memory_persist"@) } else { e };
    let g = if l.user_reply { f.push("user_reply"@) } else { f };
    assert(g == sink_names(l));
    if l.local_model {
        assert(g[0] == "local_model"@);
    }
    if l.remote_model {
        assert(g[a.len() as int] == "remote_model"@);
    }
    if l.local_agent {
        assert(g[b.len() as int] == "local_agent"@);
    }
    if l.federated_agent {
        assert(g[c.len() as int] == "federated_agent"@);
    }
    if l.network {
        assert(g[d.len() as int] == "network"@);
    }
    if l.memory_persist {
        assert(g[e.len() as int] == "memory_persist"@);
    }
    if l.user_reply {
        assert(g[f.len() as int] == "user_reply"@);
    }
}

/// A pattern of a prefix and asterisks matches exactly the texts that begin with the
/// prefix, and a pattern that does not end in an asterisk matches itself alone.
pub proof fn globs_match_by_prefix(prefix: Seq<char>, stars: nat, actual: Seq<char>)
    requires
        prefix.len() > 0 ==> prefix.last() != '*',
    ensures
        stars > 0 ==> (glob_matches(prefix + Seq::new(stars, |i: int| '*'), actual)
            <==> text::begins_with(actual, prefix)),
        glob_matches(prefix, actual) <==> prefix == actual,
    decreases stars,
{
    if stars > 0 {
        let tail = Seq::new(stars, |i: int| '*');
        let pattern = prefix + tail;
        assert(pattern.last() == tail[stars - 1]);
        lemma_trim_stars(prefix, stars);
    }
}

proof fn lemma_trim_stars(prefix: Seq<char>, stars: nat)
    requires
        prefix.len() > 0 ==> prefix.last() != '*',
    ensures
        text::trim_end_char(prefix + Seq::new(stars, |i: int| '*'), '*') == prefix,
    decreases stars,
{
    let tail = Seq::new(stars, |i: int| '*');
    if stars == 0 {
        assert(prefix + tail =~= prefix);
    } else {
        let less = Seq::new((stars - 1) as nat, |i: int| '*');
        lemma_trim_stars(prefix, (stars - 1) as nat);
        assert((prefix + tail).drop_last() =~= prefix + less);
        assert((prefix + tail).last() == '*');
    }
}

/// A tool's name with dots and the same name with underscores are one source.
pub proof fn both_spellings_are_one_source(a: Seq<char>, b: Seq<char>)
    requires
        a.len() == b.len(),
        forall|i: int|
            0 <= i < a.len() ==> #[trigger] a[i] == b[i] || (a[i] == '.' && b[i] == '_') || (a[i] == '_'
                && b[i] == '.'),
    ensures
        normalized_source(a) == normalized_source(b),
        glob_matches(normalized_source(a), normalized_source(b)),
{
    assert(normalized_source(a) =~= normalized_source(b));
    let p = normalized_source(a);
    if p.len() > 0 && p.last() == '*' {
        lemma_trim_is_prefix(p);
    }
}

proof fn lemma_trim_is_prefix(p: Seq<char>)
    ensures
        text::begins_with(p, text::trim_end_char(p, '*')),
    decreases p.len(),
{
    let t = text::trim_end_char(p, '*');
    if p.len() > 0 && p.last() == '*' {
        lemma_trim_is_prefix(p.drop_last());
        assert(p.drop_last().subrange(0, t.len() as int) == t);
        assert(p.subrange(0, t.len() as int) =~= t);
    } else {
        assert(p.subrange(0, p.len() as int) =~= p);
    }
}

/// Sources that differ in anything but dots and underscores are different.
pub proof fn other_names_are_other_sources(a: Seq<char>, b: Seq<char>, i: int)
    requires
        0 <= i < a.len(),
        0 <= i < b.len(),
        a[i] != b[i],
        !(a[i] == '.' && b[i] == '_'),
        !(a[i] == '_' && b[i] == '.'),
    ensures
        normalized_source(a) != normalized_source(b),
{
    assert(normalized_source(a)[i] != normalized_source(b)[i]);
}

/// Every sink has its own name.
pub proof fn sinks_have_their_names()
    ensures
        sink_name(Sink::LocalModel) == "local_model"@,
        sink_name(Sink::RemoteModel) == "remote_model"@,
        sink_name(Sink::LocalAgent) == "local_agent"@,
        sink_name(Sink::FederatedAgent) == "federated_agent"@,
        sink_name(Sink::Network) == "network"@,
        sink_name(Sink::MemoryPersist) == "memory_persist"@,
        sink_name(Sink::UserReply) == "user_reply"@,
{
}

} // verus!
