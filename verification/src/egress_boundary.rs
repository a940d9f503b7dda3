//! The barriers at which content would leave the machine.
//!
//! A barrier is closed where the taint of a session cannot be established, and
//! where it excludes the barrier's sink and no operator grant widens it.

use crate::causal;
use crate::content_store;
use crate::egress;
use crate::egress::{EgressLabel, NamedEgressLabel, Sink};
use crate::egress_events;
use crate::egress_events::EgressNotice;
use crate::egress_labeler;
use crate::egress_labeler::PriorLabeledResult;
use crate::json;
use crate::json::{Fields, Json, JsonField};
use crate::order;
use crate::text;
use crate::textmap::TextMap;
use vstd::prelude::*;

verus! {

// ---------------------------------------------------------------------------
// The taint of a session
// ---------------------------------------------------------------------------

/// What a running tool knows of its session.
#[derive(Debug)]
pub struct BoundaryContext {
    pub egress_taint: Option<EgressLabel>,
    pub root_session_id: String,
}

/// What came of reading the durable taint of a session.
#[derive(Debug)]
pub enum TaintRead {
    /// There is no store to read from.
    NoStore,
    /// The row that was read, where the session has one.
    Row(Option<EgressLabel>),
    /// The read failed.
    Failed(String),
}

/// The taint that a running tool carries in memory.
pub open spec fn carried_taint(context: Option<&BoundaryContext>) -> Option<EgressLabel> {
    match context {
        Some(c) => c.egress_taint,
        None => None,
    }
}

fn carried_taint_exec(context: Option<&BoundaryContext>) -> (r: Option<EgressLabel>)
    ensures
        r == carried_taint(context),
{
    match context {
        Some(c) => c.egress_taint,
        None => None,
    }
}

/// A session is named: its id is present and not empty.
pub open spec fn is_named(session_id: Option<&str>) -> bool {
    match session_id {
        Some(s) => s@.len() > 0,
        None => false,
    }
}

fn is_named_exec(session_id: Option<&str>) -> (r: bool)
    ensures
        r == is_named(session_id),
{
    match session_id {
        Some(s) => text::chars_of(s).len() > 0,
        None => false,
    }
}

/// A result with the model of its error.
pub open spec fn outcome<T>(r: Result<T, String>) -> Result<T, Seq<char>> {
    match r {
        Ok(v) => Ok(v),
        Err(e) => Err(e@),
    }
}

/// The accumulated taint of a session: what the tool carries in memory, else
/// the durable row. `Ok(None)` says only that nothing was found.
pub fn resolve_session_egress_taint(
    context: Option<&BoundaryContext>,
    read: &TaintRead,
    session_id: Option<&str>,
) -> (r: Result<Option<EgressLabel>, String>)
    ensures
        outcome(r) == (match carried_taint(context) {
            Some(t) => Ok(Some(t)),
            None => if !is_named(session_id) {
                Ok(None)
            } else {
                match *read {
                    TaintRead::NoStore => Ok(None),
                    TaintRead::Row(row) => Ok(row),
                    TaintRead::Failed(e) => Err(e@),
                }
            },
        }),
{
    if let Some(t) = carried_taint_exec(context) {
        return Ok(Some(t));
    }
    if !is_named_exec(session_id) {
        return Ok(None);
    }
    match read {
        TaintRead::NoStore => Ok(None),
        TaintRead::Row(row) => Ok(*row),
        TaintRead::Failed(e) => Err(e.clone()),
    }
}

/// The taint that a barrier goes by, or why it cannot be established.
pub open spec fn boundary_taint(
    context: Option<&BoundaryContext>,
    read: TaintRead,
    session_id: Option<&str>,
) -> Result<EgressLabel, Seq<char>> {
    match carried_taint(context) {
        Some(t) => Ok(t),
        None => if !is_named(session_id) {
            Err("egress_boundary_unknown_taint: missing session_id"@)
        } else {
            match read {
                TaintRead::NoStore => Err(
                    "egress_boundary_unknown_taint: GatewayStore required to confirm session taint"@,
                ),
                TaintRead::Row(Some(t)) => Ok(t),
                TaintRead::Row(None) => Ok(EgressLabel::top()),
                TaintRead::Failed(e) => Err(e@),
            }
        },
    }
}

/// The taint that a barrier goes by. Whatever leaves it unknown is an error; only
/// a read that found no row means that the session is unrestricted.
pub fn require_boundary_session_taint(
    context: Option<&BoundaryContext>,
    read: &TaintRead,
    session_id: Option<&str>,
) -> (r: Result<EgressLabel, String>)
    ensures
        outcome(r) == boundary_taint(context, *read, session_id),
{
    if let Some(t) = carried_taint_exec(context) {
        return Ok(t);
    }
    if !is_named_exec(session_id) {
        return Err("egress_boundary_unknown_taint: missing session_id".to_owned());
    }
    match read {
        TaintRead::NoStore => Err(
            "egress_boundary_unknown_taint: GatewayStore required to confirm session taint".to_owned(),
        ),
        TaintRead::Row(Some(t)) => Ok(*t),
        TaintRead::Row(None) => Ok(EgressLabel::unrestricted()),
        TaintRead::Failed(e) => Err(e.clone()),
    }
}

/// The taint that is written down when an approval is filed, so that it
/// outlives the running turn: a known and restrictive one. A failed read is
/// an error where the read is needed.
pub fn snapshot_session_egress_taint_for_approval(
    context: Option<&BoundaryContext>,
    read: &TaintRead,
    session_id: &str,
) -> (r: Result<Option<EgressLabel>, String>)
    ensures
        outcome(r) == (if session_id@.len() == 0 {
            Ok(None)
        } else {
            match (carried_taint(context), *read) {
                (Some(t), _) => Ok(restrictive(t)),
                (None, TaintRead::Row(Some(t))) => Ok(restrictive(t)),
                (None, TaintRead::Failed(e)) => Err(e@),
                (None, _) => Ok(None),
            }
        }),
{
    if text::chars_of(session_id).len() == 0 {
        return Ok(None);
    }
    let taint = match carried_taint_exec(context) {
        Some(t) => t,
        None => match read {
            TaintRead::Row(Some(t)) => *t,
            TaintRead::Failed(e) => {
                return Err(e.clone());
            },
            _ => {
                return Ok(None);
            },
        },
    };
    if taint.is_unrestricted() {
        Ok(None)
    } else {
        Ok(Some(taint))
    }
}

/// A label that restricts something.
pub open spec fn restrictive(l: EgressLabel) -> Option<EgressLabel> {
    if l == EgressLabel::top() {
        None
    } else {
        Some(l)
    }
}

// ---------------------------------------------------------------------------
// Declassification targets
// ---------------------------------------------------------------------------

/// What an operator grant widens.
#[derive(Debug)]
pub enum EgressDeclassificationTarget {
    /// Content from sources that match a pattern.
    SourcePattern(String),
}

impl View for EgressDeclassificationTarget {
    type V = Seq<char>;

    open spec fn view(&self) -> Seq<char> {
        match self {
            EgressDeclassificationTarget::SourcePattern(s) => s@,
        }
    }
}

impl EgressDeclassificationTarget {
    pub fn value(&self) -> (r: &str)
        ensures
            r@ == self@,
    {
        match self {
            EgressDeclassificationTarget::SourcePattern(s) => s.as_str(),
        }
    }
}

/// The pattern that stands for everything of a root session.
pub open spec fn session_target(root: Seq<char>) -> Seq<char> {
    "session:"@ + root
}

/// The target of a grant for a whole root session, whatever the sink.
pub fn session_egress_declass_target(root_session_id: &str) -> (r: EgressDeclassificationTarget)
    ensures
        r@ == session_target(root_session_id@),
{
    let mut s = "session:".to_owned();
    s.append(root_session_id);
    EgressDeclassificationTarget::SourcePattern(s)
}

/// The target of a network grant for a whole root session.
pub fn session_network_declass_target(root_session_id: &str) -> (r: EgressDeclassificationTarget)
    ensures
        r@ == session_target(root_session_id@),
{
    session_egress_declass_target(root_session_id)
}

/// A host name as grants hold it: trimmed, without trailing dots, in lower case.
pub open spec fn normalized_host(host: Seq<char>) -> Seq<char> {
    text::lower_ascii(text::trim_end_char(text::trim(host), '.'))
}

/// The target of a network grant for one host.
pub fn session_host_network_declass_target(root_session_id: &str, host: &str) -> (r:
    EgressDeclassificationTarget)
    ensures
        r@ == session_target(root_session_id@) + ":host:"@ + normalized_host(host@),
{
    let trimmed = text::trimmed(host);
    let bare = text::trimmed_end_char(trimmed.as_str(), '.');
    let lowered = text::ascii_lowered(bare.as_str());
    let mut s = "session:".to_owned();
    s.append(root_session_id);
    s.append(":host:");
    s.append(lowered.as_str());
    EgressDeclassificationTarget::SourcePattern(s)
}

/// Whether active grants let a session reach all of `hosts`: one for the whole
/// session, or one for each of them. `hosts[i]` says whether the `i`-th host has
/// one. No hosts are never covered by host grants.
pub fn session_network_declassified_for_hosts(session_wide: bool, hosts: &[bool]) -> (r: bool)
    ensures
        r == (session_wide || (hosts@.len() > 0 && forall|i: int|
            0 <= i < hosts@.len() ==> #[trigger] hosts@[i])),
{
    if session_wide {
        return true;
    }
    if hosts.len() == 0 {
        return false;
    }
    let mut i: usize = 0;
    while i < hosts.len()
        invariant
            i <= hosts@.len(),
            !session_wide,
            forall|k: int| 0 <= k < i ==> #[trigger] hosts@[k],
        decreases hosts@.len() - i,
    {
        if !hosts[i] {
            assert(!hosts@[i as int]);
            return false;
        }
        i = i + 1;
    }
    true
}

// ---------------------------------------------------------------------------
// The network barrier
// ---------------------------------------------------------------------------

/// Why a barrier is closed: the body that the tool answers with, and what is
/// recorded, under which session.
#[derive(Debug)]
pub struct BoundaryRefusal {
    pub body: Json,
    pub notice: Option<EgressNotice>,
    pub session_id: String,
}

/// The mathematical model of a [`BoundaryRefusal`].
pub struct RefusalView {
    pub body: json::JsonView,
    pub notice: Option<egress_events::NoticeView>,
    pub session_id: Seq<char>,
}

impl View for BoundaryRefusal {
    type V = RefusalView;

    open spec fn view(&self) -> RefusalView {
        RefusalView {
            body: self.body@,
            notice: match self.notice {
                Some(n) => Some(n@),
                None => None,
            },
            session_id: self.session_id@,
        }
    }
}

/// The model of an optional refusal.
pub open spec fn refusal_view(r: Option<BoundaryRefusal>) -> Option<RefusalView> {
    match r {
        Some(x) => Some(x@),
        None => None,
    }
}

/// The first fields of every refusal.
pub open spec fn refusal_fields(surface: Seq<char>, tool: Seq<char>, message: Seq<char>) -> Seq<
    json::JsonFieldView,
> {
    json::no_fields().push(json::entry("ok"@, json::JsonView::Bool(false))).push(
        json::entry("error_type"@, json::JsonView::Text("egress_boundary_refused"@)),
    ).push(json::entry("surface"@, json::JsonView::Text(surface))).push(
        json::entry("tool"@, json::JsonView::Text(tool)),
    ).push(json::entry("message"@, json::JsonView::Text(message)))
}

/// The body of a refusal with a hint at its repair.
pub open spec fn refusal_body(
    surface: Seq<char>,
    tool: Seq<char>,
    message: Seq<char>,
    hint: Seq<char>,
) -> json::JsonView {
    json::JsonView::Object(
        refusal_fields(surface, tool, message).push(
            json::entry("repair_hint"@, json::JsonView::Text(hint)),
        ),
    )
}

fn refusal_body_exec(surface: &str, tool: &str, message: &str, hint: &str) -> (r: Json)
    ensures
        r@ == refusal_body(surface@, tool@, message@, hint@),
{
    let mut f = Fields::new();
    f.flag("ok", false);
    f.text("error_type", "egress_boundary_refused");
    f.text("surface", surface);
    f.text("tool", tool);
    f.text("message", message);
    f.text("repair_hint", hint);
    f.object()
}

/// The id of a session, or nothing.
pub open spec fn id_or_empty(session_id: Option<&str>) -> Seq<char> {
    match session_id {
        Some(s) => s@,
        None => Seq::empty(),
    }
}

fn id_or_empty_exec(session_id: Option<&str>) -> (r: String)
    ensures
        r@ == id_or_empty(session_id),
{
    match session_id {
        Some(s) => s.to_owned(),
        None => {
            let r = String::new();
            assert(r@ =~= Seq::<char>::empty());
            r
        },
    }
}

/// The hint for a session whose taint excludes the network.
pub open spec fn network_hint(tool: Seq<char>, host: Option<&str>) -> Seq<char> {
    match host {
        Some(h) => "Approve this "@ + tool
            + " request — approval declassifies Network egress to "@ + h@
            + " only (host-scoped grant). For session-wide Network, use an explicit EgressDeclassify approval."@,
        None =>
        "Approve egress declassification for Sink::Network on this session (explicit EgressDeclassify), or clear session taint."@,
    }
}

fn network_hint_exec(tool: &str, host: Option<&str>) -> (r: String)
    ensures
        r@ == network_hint(tool@, host),
{
    match host {
        Some(h) => {
            let mut s = "Approve this ".to_owned();
            s.append(tool);
            s.append(" request — approval declassifies Network egress to ");
            s.append(h);
            s.append(
                " only (host-scoped grant). For session-wide Network, use an explicit EgressDeclassify approval.",
            );
            s
        },
        None =>
        "Approve egress declassification for Sink::Network on this session (explicit EgressDeclassify), or clear session taint.".to_owned(),
    }
}

/// What the network barrier answers: nothing where it is open.
pub open spec fn network_gate(
    surface: Seq<char>,
    tool: Seq<char>,
    context: Option<&BoundaryContext>,
    read: TaintRead,
    session_id: Option<&str>,
    host: Option<&str>,
    declassified: bool,
) -> Option<RefusalView> {
    if read is NoStore {
        Some(
            RefusalView {
                body: refusal_body(
                    surface,
                    tool,
                    tool + " refused: GatewayStore required to confirm session egress taint"@,
                    "Ensure the tool runs with GatewayStore available."@,
                ),
                notice: None,
                session_id: id_or_empty(session_id),
            },
        )
    } else {
        match boundary_taint(context, read, session_id) {
            Err(e) => Some(
                RefusalView {
                    body: refusal_body(
                        surface,
                        tool,
                        tool + " refused: cannot establish session egress taint ("@ + e + ")"@,
                        "Ensure the tool runs with a session id and GatewayStore so taint can be confirmed."@,
                    ),
                    notice: Some(
                        egress_events::surface_refused(
                            surface,
                            EgressLabel::bottom(),
                            Seq::empty(),
                            "session egress taint unresolved: "@ + e,
                        ),
                    ),
                    session_id: id_or_empty(session_id),
                },
            ),
            Ok(taint) => if taint.permits(Sink::Network) {
                None
            } else if !is_named(session_id) {
                Some(
                    RefusalView {
                        body: refusal_body(
                            surface,
                            tool,
                            tool + " refused: session egress taint excludes Network"@,
                            "Operator-declassify Sink::Network for this session before network egress."@,
                        ),
                        notice: Some(
                            egress_events::surface_refused(
                                surface,
                                taint,
                                Seq::empty(),
                                "session egress taint excludes Network but session_id is missing"@,
                            ),
                        ),
                        session_id: Seq::empty(),
                    },
                )
            } else if declassified {
                None
            } else {
                Some(
                    RefusalView {
                        body: refusal_body(
                            surface,
                            tool,
                            tool
                                + " refused: session egress taint excludes Network; operator declassification required"@,
                            network_hint(tool, host),
                        ),
                        notice: Some(
                            egress_events::surface_refused(
                                surface,
                                taint,
                                Seq::empty(),
                                "session egress taint excludes Network ("@ + tool + ", RFC §7)"@,
                            ),
                        ),
                        session_id: id_or_empty(session_id),
                    },
                )
            },
        }
    }
}

/// The root session that grants are looked up under.
pub open spec fn grant_root(context: Option<&BoundaryContext>, session_id: Seq<char>) -> Seq<char> {
    match context {
        Some(c) => c.root_session_id@,
        None => text::before_char(session_id, '/'),
    }
}

/// The root session that grants are looked up under: the tool's own, else the
/// first part of the session id.
pub fn boundary_root(context: Option<&BoundaryContext>, session_id: &str) -> (r: String)
    ensures
        r@ == grant_root(context, session_id@),
{
    match context {
        Some(c) => c.root_session_id.clone(),
        None => content_store::root_session_id(session_id),
    }
}

fn no_ids() -> (r: Vec<String>)
    ensures
        r.deep_view() == Seq::<Seq<char>>::empty(),
{
    let r: Vec<String> = Vec::new();
    assert(r.deep_view() =~= Seq::<Seq<char>>::empty());
    r
}

/// The network barrier for a tool, by its canonical name. `declassified` says
/// whether active grants let the session reach `host`.
pub fn network_egress_boundary_refusal(
    surface: &str,
    tool_name: &str,
    context: Option<&BoundaryContext>,
    read: &TaintRead,
    session_id: Option<&str>,
    host: Option<&str>,
    declassified: bool,
) -> (r: Option<BoundaryRefusal>)
    ensures
        refusal_view(r) == network_gate(
            surface@,
            tool_name@,
            context,
            *read,
            session_id,
            host,
            declassified,
        ),
{
    if let TaintRead::NoStore = read {
        let mut message = tool_name.to_owned();
        message.append(" refused: GatewayStore required to confirm session egress taint");
        return Some(
            BoundaryRefusal {
                body: refusal_body_exec(
                    surface,
                    tool_name,
                    message.as_str(),
                    "Ensure the tool runs with GatewayStore available.",
                ),
                notice: None,
                session_id: id_or_empty_exec(session_id),
            },
        );
    }
    let taint = match require_boundary_session_taint(context, read, session_id) {
        Ok(t) => t,
        Err(e) => {
            let mut message = tool_name.to_owned();
            message.append(" refused: cannot establish session egress taint (");
            message.append(e.as_str());
            message.append(")");
            let mut reason = "session egress taint unresolved: ".to_owned();
            reason.append(e.as_str());
            return Some(
                BoundaryRefusal {
                    body: refusal_body_exec(
                        surface,
                        tool_name,
                        message.as_str(),
                        "Ensure the tool runs with a session id and GatewayStore so taint can be confirmed.",
                    ),
                    notice: Some(
                        egress_events::surface_boundary_refused_notice(
                            surface,
                            &EgressLabel::empty(),
                            &no_ids(),
                            reason.as_str(),
                        ),
                    ),
                    session_id: id_or_empty_exec(session_id),
                },
            );
        },
    };
    if taint.allows(Sink::Network) {
        return None;
    }
    if !is_named_exec(session_id) {
        let mut message = tool_name.to_owned();
        message.append(" refused: session egress taint excludes Network");
        return Some(
            BoundaryRefusal {
                body: refusal_body_exec(
                    surface,
                    tool_name,
                    message.as_str(),
                    "Operator-declassify Sink::Network for this session before network egress.",
                ),
                notice: Some(
                    egress_events::surface_boundary_refused_notice(
                        surface,
                        &taint,
                        &no_ids(),
                        "session egress taint excludes Network but session_id is missing",
                    ),
                ),
                session_id: id_or_empty_exec(None),
            },
        );
    }
    if declassified {
        return None;
    }
    let mut message = tool_name.to_owned();
    message.append(
        " refused: session egress taint excludes Network; operator declassification required",
    );
    let mut reason = "session egress taint excludes Network (".to_owned();
    reason.append(tool_name);
    reason.append(", RFC §7)");
    Some(
        BoundaryRefusal {
            body: refusal_body_exec(
                surface,
                tool_name,
                message.as_str(),
                network_hint_exec(tool_name, host).as_str(),
            ),
            notice: Some(
                egress_events::surface_boundary_refused_notice(
                    surface,
                    &taint,
                    &no_ids(),
                    reason.as_str(),
                ),
            ),
            session_id: id_or_empty_exec(session_id),
        },
    )
}

/// A refusal with its body as text.
#[derive(Debug)]
pub struct RefusalText {
    pub body: String,
    pub notice: Option<EgressNotice>,
    pub session_id: String,
}

/// The text that a tool answers with, where the barrier is closed.
pub open spec fn is_refusal_text(r: Option<RefusalText>, refusal: Option<RefusalView>) -> bool {
    match (r, refusal) {
        (None, None) => true,
        (Some(t), Some(v)) => t.body@ == json::json_text(v.body) && t.session_id@ == v.session_id
            && v.notice == (match t.notice {
            Some(n) => Some(n@),
            None => None,
        }),
        _ => false,
    }
}

fn as_text(r: Option<BoundaryRefusal>) -> (t: Option<RefusalText>)
    ensures
        is_refusal_text(t, refusal_view(r)),
{
    match r {
        Some(b) => Some(
            RefusalText {
                body: json::render_json(&b.body),
                notice: b.notice,
                session_id: b.session_id,
            },
        ),
        None => None,
    }
}

/// The network barrier, with the refusal as JSON text.
pub fn network_egress_boundary_refusal_json(
    surface: &str,
    tool_name: &str,
    context: Option<&BoundaryContext>,
    read: &TaintRead,
    session_id: Option<&str>,
    host: Option<&str>,
    declassified: bool,
) -> (r: Option<RefusalText>)
    ensures
        is_refusal_text(
            r,
            network_gate(surface@, tool_name@, context, *read, session_id, host, declassified),
        ),
{
    as_text(
        network_egress_boundary_refusal(
            surface,
            tool_name,
            context,
            read,
            session_id,
            host,
            declassified,
        ),
    )
}

/// What an MCP call to a remote server is answered, where it is refused.
pub open spec fn mcp_gate(
    tool: Seq<char>,
    arguments: Seq<char>,
    context: Option<&BoundaryContext>,
    read: TaintRead,
    session_id: Option<&str>,
    prior: Map<Seq<char>, PriorLabeledResult>,
    host: Option<&str>,
    declassified: bool,
) -> Option<RefusalView> {
    let taint = egress_labeler::carried(arguments, prior);
    let parents = order::listing(egress_labeler::referred(arguments, prior));
    match network_gate("mcp"@, tool, context, read, session_id, host, declassified) {
        Some(refusal) => Some(refusal),
        None => if taint.permits(Sink::Network) {
            None
        } else {
            Some(
                RefusalView {
                    body: json::JsonView::Object(
                        refusal_fields(
                            "mcp"@,
                            tool,
                            tool + " refused: argument egress labels exclude Network for remote MCP"@,
                        ).push(json::entry("parent_envelope_ids"@, json::text_list(parents))).push(
                            json::entry(
                                "repair_hint"@,
                                json::JsonView::Text(
                                    "Remove restricted content from arguments, or use a local MCP server."@,
                                ),
                            ),
                        ),
                    ),
                    notice: Some(
                        egress_events::surface_refused(
                            "mcp"@,
                            taint,
                            parents,
                            "MCP remote tools/call refused: argument egress labels exclude Network (RFC §7)"@,
                        ),
                    ),
                    session_id: id_or_empty(session_id),
                },
            )
        },
    }
}

/// The barrier for MCP calls to remote servers: after the network barrier, the labels
/// that the arguments carry along must allow the network.
pub fn mcp_remote_egress_refusal(
    tool_name: &str,
    arguments_json: &str,
    context: Option<&BoundaryContext>,
    read: &TaintRead,
    session_id: Option<&str>,
    prior_labels: &TextMap<PriorLabeledResult>,
    host: Option<&str>,
    declassified: bool,
) -> (r: Option<BoundaryRefusal>)
    ensures
        refusal_view(r) == mcp_gate(
            tool_name@,
            arguments_json@,
            context,
            *read,
            session_id,
            prior_labels@,
            host,
            declassified,
        ),
        order::lists(
            order::listing(egress_labeler::referred(arguments_json@, prior_labels@)),
            egress_labeler::referred(arguments_json@, prior_labels@),
        ),
{
    proof {
        prior_labels.lemma_finite();
        egress_labeler::lemma_referred_listed(arguments_json@, prior_labels@);
    }
    let refused = network_egress_boundary_refusal(
        "mcp",
        tool_name,
        context,
        read,
        session_id,
        host,
        declassified,
    );
    if refused.is_some() {
        return refused;
    }
    let (taint, parents) = egress_labeler::argument_taint_from_prior(arguments_json, prior_labels);
    if taint.allows(Sink::Network) {
        return None;
    }
    let mut message = tool_name.to_owned();
    message.append(" refused: argument egress labels exclude Network for remote MCP");
    let mut f = Fields::new();
    f.flag("ok", false);
    f.text("error_type", "egress_boundary_refused");
    f.text("surface", "mcp");
    f.text("tool", tool_name);
    f.text("message", message.as_str());
    f.texts("parent_envelope_ids", &parents);
    f.text(
        "repair_hint",
        "Remove restricted content from arguments, or use a local MCP server.",
    );
    Some(
        BoundaryRefusal {
            body: f.object(),
            notice: Some(
                egress_events::surface_boundary_refused_notice(
                    "mcp",
                    &taint,
                    &parents,
                    "MCP remote tools/call refused: argument egress labels exclude Network (RFC §7)",
                ),
            ),
            session_id: id_or_empty_exec(session_id),
        },
    )
}

/// The barrier for MCP calls to remote servers, with the refusal as JSON text.
pub fn mcp_remote_egress_refusal_json(
    tool_name: &str,
    arguments_json: &str,
    context: Option<&BoundaryContext>,
    read: &TaintRead,
    session_id: Option<&str>,
    prior_labels: &TextMap<PriorLabeledResult>,
    host: Option<&str>,
    declassified: bool,
) -> (r: Option<RefusalText>)
    ensures
        is_refusal_text(
            r,
            mcp_gate(
                tool_name@,
                arguments_json@,
                context,
                *read,
                session_id,
                prior_labels@,
                host,
                declassified,
            ),
        ),
        order::lists(
            order::listing(egress_labeler::referred(arguments_json@, prior_labels@)),
            egress_labeler::referred(arguments_json@, prior_labels@),
        ),
{
    as_text(
        mcp_remote_egress_refusal(
            tool_name,
            arguments_json,
            context,
            read,
            session_id,
            prior_labels,
            host,
            declassified,
        ),
    )
}

/// An open network barrier means that the taint of the session is known, and that
/// it allows the network or that a named session holds a grant.
pub proof fn network_gates_fail_closed(
    surface: Seq<char>,
    tool: Seq<char>,
    context: Option<&BoundaryContext>,
    read: TaintRead,
    session_id: Option<&str>,
    host: Option<&str>,
    declassified: bool,
)
    ensures
        network_gate(surface, tool, context, read, session_id, host, declassified) is None <==> !(
        read is NoStore) && (match boundary_taint(context, read, session_id) {
            Ok(taint) => taint.permits(Sink::Network) || (is_named(session_id) && declassified),
            Err(_) => false,
        }),
{
}

/// Whatever an MCP call carries along in its arguments must be allowed onto the
/// network, and no grant changes that.
pub proof fn mcp_arguments_never_leak(
    tool: Seq<char>,
    arguments: Seq<char>,
    context: Option<&BoundaryContext>,
    read: TaintRead,
    session_id: Option<&str>,
    prior: Map<Seq<char>, PriorLabeledResult>,
    host: Option<&str>,
    declassified: bool,
    id: Seq<char>,
)
    requires
        prior.dom().contains(id),
        egress_labeler::refers_to(arguments, id, prior[id]),
        !prior[id].label.permits(Sink::Network),
    ensures
        mcp_gate(tool, arguments, context, read, session_id, prior, host, declassified) is Some,
{
    assert(egress_labeler::referred(arguments, prior).contains(id));
}

// ---------------------------------------------------------------------------
// Labels on the wire
// ---------------------------------------------------------------------------

/// The sink with a wire name.
pub open spec fn sink_named(s: Seq<char>) -> Option<Sink> {
    if s == "local_model"@ {
        Some(Sink::LocalModel)
    } else if s == "remote_model"@ {
        Some(Sink::RemoteModel)
    } else if s == "local_agent"@ {
        Some(Sink::LocalAgent)
    } else if s == "federated_agent"@ {
        Some(Sink::FederatedAgent)
    } else if s == "network"@ {
        Some(Sink::Network)
    } else if s == "memory_persist"@ {
        Some(Sink::MemoryPersist)
    } else if s == "user_reply"@ {
        Some(Sink::UserReply)
    } else {
        None
    }
}

fn sink_from_name(s: &str) -> (r: Option<Sink>)
    ensures
        r == sink_named(s@),
{
    if text::text_eq(s, "local_model") {
        Some(Sink::LocalModel)
    } else if text::text_eq(s, "remote_model") {
        Some(Sink::RemoteModel)
    } else if text::text_eq(s, "local_agent") {
        Some(Sink::LocalAgent)
    } else if text::text_eq(s, "federated_agent") {
        Some(Sink::FederatedAgent)
    } else if text::text_eq(s, "network") {
        Some(Sink::Network)
    } else if text::text_eq(s, "memory_persist") {
        Some(Sink::MemoryPersist)
    } else if text::text_eq(s, "user_reply") {
        Some(Sink::UserReply)
    } else {
        None
    }
}

/// An item of a label names a sink.
pub open spec fn names_sink(j: json::JsonView) -> Option<Sink> {
    match j {
        json::JsonView::Text(s) => sink_named(s),
        _ => None,
    }
}

/// One of the items names `s`.
pub open spec fn lists_sink(items: Seq<json::JsonView>, s: Sink) -> bool {
    exists|i: int| 0 <= i < items.len() && names_sink(#[trigger] items[i]) == Some(s)
}

/// The label that a JSON value stands for: a list of sink names.
pub open spec fn label_in(j: json::JsonView) -> Option<EgressLabel> {
    match j {
        json::JsonView::List(items) => if forall|i: int|
            0 <= i < items.len() ==> names_sink(#[trigger] items[i]) is Some {
            Some(EgressLabel::from_predicate(|s: Sink| lists_sink(items, s)))
        } else {
            None
        },
        _ => None,
    }
}

/// The label that a JSON value stands for.
pub fn label_from_json(j: &Json) -> (r: Option<EgressLabel>)
    ensures
        r == label_in(j@),
{
    match j {
        Json::List(v) => {
            let ghost items = j@->List_0;
            let mut sinks: Vec<Sink> = Vec::new();
            let mut i: usize = 0;
            while i < v.len()
                invariant
                    i <= v@.len(),
                    *j == Json::List(*v),
                    items == j@->List_0,
                    items.len() == v@.len(),
                    sinks@.len() == i,
                    forall|k: int| 0 <= k < i ==> names_sink(#[trigger] items[k]) == Some(sinks@[k]),
                decreases v@.len() - i,
            {
                assert(items[i as int] == v@[i as int]@);
                match &v[i] {
                    Json::Text(s) => match sink_from_name(s.as_str()) {
                        Some(sink) => sinks.push(sink),
                        None => {
                            assert(names_sink(items[i as int]) is None);
                            return None;
                        },
                    },
                    _ => {
                        assert(names_sink(items[i as int]) is None);
                        return None;
                    },
                }
                i = i + 1;
            }
            let label = EgressLabel::from_sinks(sinks.as_slice());
            proof {
                let other = EgressLabel::from_predicate(|s: Sink| lists_sink(items, s));
                assert forall|s: Sink| #[trigger] label.permits(s) == other.permits(s) by {
                    if sinks@.contains(s) {
                        let k = choose|k: int| 0 <= k < sinks@.len() && sinks@[k] == s;
                        assert(names_sink(items[k]) == Some(s));
                    }
                    if lists_sink(items, s) {
                        let k = choose|k: int|
                            0 <= k < items.len() && names_sink(#[trigger] items[k]) == Some(s);
                        assert(sinks@[k] == s);
                    }
                }
                label.lemma_extensional(other);
            }
            Some(label)
        },
        _ => None,
    }
}

/// What is assumed of content from a peer that declares no usable label.
pub fn ofp_inbound_fail_closed_label() -> (r: EgressLabel)
    ensures
        r == EgressLabel::not_remote_model(),
{
    EgressLabel::no_remote_model()
}

/// The label of inbound content: the declared one where it can be read and
/// allows something, else a closed one.
pub open spec fn inbound_label(raw: Option<json::JsonView>) -> EgressLabel {
    match raw {
        Some(j) => match label_in(j) {
            Some(l) => if l == EgressLabel::bottom() {
                EgressLabel::not_remote_model()
            } else {
                l
            },
            None => EgressLabel::not_remote_model(),
        },
        None => EgressLabel::not_remote_model(),
    }
}

/// The model of an optional JSON value.
pub open spec fn opt_json(o: Option<&Json>) -> Option<json::JsonView> {
    match o {
        Some(j) => Some(j@),
        None => None,
    }
}

/// The label that a federation peer declares for inbound content.
pub fn parse_ofp_inbound_egress_label(raw: Option<&Json>) -> (r: EgressLabel)
    ensures
        r == inbound_label(opt_json(raw)),
{
    match raw {
        None => ofp_inbound_fail_closed_label(),
        Some(value) => match label_from_json(value) {
            Some(label) => if label.is_empty() {
                ofp_inbound_fail_closed_label()
            } else {
                label
            },
            None => ofp_inbound_fail_closed_label(),
        },
    }
}

/// A peer that declares nothing usable never makes its content unrestricted.
pub proof fn undeclared_inbound_content_is_restricted(raw: Option<json::JsonView>)
    requires
        raw is None || label_in(raw->Some_0) is None,
    ensures
        !inbound_label(raw).permits(Sink::RemoteModel),
{
}

/// Metadata key of an operator's mark on one message.
pub const OPERATOR_LABEL_METADATA_KEY: &'static str = "operator_egress_label";

/// Metadata key of a federation peer's label.
pub const OFP_INBOUND_LABEL_METADATA_KEY: &'static str = "ofp_inbound_egress_label";

/// Metadata key of a delegating parent's accumulated taint.
pub const PARENT_TAINT_METADATA_KEY: &'static str = "parent_egress_taint";

/// The metadata keys that declare a label for an incoming turn.
pub const INGEST_LABEL_METADATA_KEYS: [&'static str; 3] = [
    OPERATOR_LABEL_METADATA_KEY,
    OFP_INBOUND_LABEL_METADATA_KEY,
    PARENT_TAINT_METADATA_KEY,
];

/// A metadata key that declares a label for an incoming turn.
pub open spec fn is_ingest_key(key: Seq<char>) -> bool {
    key == OPERATOR_LABEL_METADATA_KEY@ || key == OFP_INBOUND_LABEL_METADATA_KEY@ || key
        == PARENT_TAINT_METADATA_KEY@
}

/// The fields that are not ingest declarations.
pub open spec fn without_ingest(m: Seq<json::JsonFieldView>) -> Seq<json::JsonFieldView>
    decreases m.len(),
{
    if m.len() == 0 {
        Seq::empty()
    } else if is_ingest_key(m.last().key) {
        without_ingest(m.drop_last())
    } else {
        without_ingest(m.drop_last()).push(m.last())
    }
}

/// The ingest keys that an object has, in their fixed order.
pub open spec fn ingest_keys_present(j: json::JsonView) -> Seq<Seq<char>> {
    let a: Seq<Seq<char>> = if json::field(j, OPERATOR_LABEL_METADATA_KEY@) is Some {
        seq![OPERATOR_LABEL_METADATA_KEY@]
    } else {
        Seq::empty()
    };
    let b = if json::field(j, OFP_INBOUND_LABEL_METADATA_KEY@) is Some {
        a.push(OFP_INBOUND_LABEL_METADATA_KEY@)
    } else {
        a
    };
    if json::field(j, PARENT_TAINT_METADATA_KEY@) is Some {
        b.push(PARENT_TAINT_METADATA_KEY@)
    } else {
        b
    }
}

/// A metadata value without its ingest declarations.
pub open spec fn stripped(j: json::JsonView) -> json::JsonView {
    match j {
        json::JsonView::Object(m) => json::JsonView::Object(without_ingest(m)),
        other => other,
    }
}

fn is_ingest_key_exec(key: &str) -> (r: bool)
    ensures
        r == is_ingest_key(key@),
{
    text::text_eq(key, OPERATOR_LABEL_METADATA_KEY) || text::text_eq(key, OFP_INBOUND_LABEL_METADATA_KEY)
        || text::text_eq(key, PARENT_TAINT_METADATA_KEY)
}

/// Removes every ingest declaration from metadata that an agent supplied, and
/// returns the keys that were there.
pub fn strip_ingest_label_keys(metadata: Json) -> (r: (Json, Vec<String>))
    ensures
        r.0@ == stripped(metadata@),
        r.1.deep_view() == ingest_keys_present(metadata@),
{
    let mut keys: Vec<String> = Vec::new();
    assert(keys.deep_view() =~= Seq::<Seq<char>>::empty());
    if metadata.get(OPERATOR_LABEL_METADATA_KEY).is_some() {
        egress::push_name(&mut keys, OPERATOR_LABEL_METADATA_KEY);
    }
    if metadata.get(OFP_INBOUND_LABEL_METADATA_KEY).is_some() {
        egress::push_name(&mut keys, OFP_INBOUND_LABEL_METADATA_KEY);
    }
    if metadata.get(PARENT_TAINT_METADATA_KEY).is_some() {
        egress::push_name(&mut keys, PARENT_TAINT_METADATA_KEY);
    }
    match metadata {
        Json::Object(v) => {
            let ghost views = v@.map_values(|e: JsonField| e@);
            proof {
                json::lemma_object_view(v);
            }
            let mut out: Vec<JsonField> = Vec::new();
            let mut i: usize = 0;
            assert(out@.map_values(|e: JsonField| e@) =~= without_ingest(views.subrange(0, 0)));
            while i < v.len()
                invariant
                    i <= v@.len(),
                    views == v@.map_values(|e: JsonField| e@),
                    out@.map_values(|e: JsonField| e@) == without_ingest(
                        views.subrange(0, i as int),
                    ),
                decreases v@.len() - i,
            {
                let ghost before = out@;
                proof {
                    let t = views.subrange(0, i + 1);
                    assert(t.drop_last() =~= views.subrange(0, i as int));
                    assert(t.last() == v@[i as int]@);
                }
                if !is_ingest_key_exec(v[i].key.as_str()) {
                    out.push(JsonField { key: v[i].key.clone(), value: v[i].value.copy() });
                    assert(out@.map_values(|e: JsonField| e@) =~= before.map_values(
                        |e: JsonField| e@,
                    ).push(v@[i as int]@));
                }
                i = i + 1;
            }
            assert(views.subrange(0, i as int) =~= views);
            proof {
                json::lemma_object_view(out);
            }
            (Json::Object(out), keys)
        },
        other => (other, keys),
    }
}

/// After stripping, no ingest declaration is left, and every other field is as
/// it was.
pub proof fn stripping_leaves_no_declaration(j: json::JsonView, key: Seq<char>)
    ensures
        is_ingest_key(key) ==> json::field(stripped(j), key) is None,
        !is_ingest_key(key) ==> json::field(stripped(j), key) == json::field(j, key),
{
    if let json::JsonView::Object(m) = j {
        lemma_stripped_field(m, key);
    }
}

proof fn lemma_stripped_field(m: Seq<json::JsonFieldView>, key: Seq<char>)
    ensures
        is_ingest_key(key) ==> json::first_field(without_ingest(m), key) is None,
        !is_ingest_key(key) ==> json::first_field(without_ingest(m), key) == json::first_field(
            m,
            key,
        ),
    decreases m.len(),
{
    if m.len() > 0 {
        lemma_stripped_field(m.drop_last(), key);
        lemma_first_field_push(m.drop_last(), m.last(), key);
        assert(m.drop_last().push(m.last()) =~= m);
        lemma_first_field_push(without_ingest(m.drop_last()), m.last(), key);
    }
}

proof fn lemma_first_field_push(
    m: Seq<json::JsonFieldView>,
    f: json::JsonFieldView,
    key: Seq<char>,
)
    ensures
        json::first_field(m.push(f), key) == (match json::first_field(m, key) {
            Some(v) => Some(v),
            None => if f.key == key {
                Some(f.value)
            } else {
                None
            },
        }),
    decreases m.len(),
{
    let p = m.push(f);
    if m.len() == 0 {
        assert(json::first_field(p.subrange(1, p.len() as int), key) is None);
    } else {
        let rest = m.subrange(1, m.len() as int);
        assert(p.subrange(1, p.len() as int) =~= rest.push(f));
        lemma_first_field_push(rest, f, key);
    }
}

/// What one metadata declaration contributes: nothing where it is absent, a
/// closed label where it cannot be read.
pub open spec fn declared_label(metadata: Option<json::JsonView>, key: Seq<char>) -> EgressLabel {
    match metadata {
        Some(m) => match json::field(m, key) {
            Some(v) => match label_in(v) {
                Some(l) => l,
                None => EgressLabel::stays_local(),
            },
            None => EgressLabel::top(),
        },
        None => EgressLabel::top(),
    }
}

fn declared_label_exec(metadata: Option<&Json>, key: &str) -> (r: EgressLabel)
    ensures
        r == declared_label(opt_json(metadata), key@),
{
    match metadata {
        Some(m) => match m.get(key) {
            Some(v) => match label_from_json(v) {
                Some(l) => l,
                None => EgressLabel::local_only(),
            },
            None => EgressLabel::unrestricted(),
        },
        None => EgressLabel::unrestricted(),
    }
}

/// The label of an incoming turn: the intersection of everything declared.
pub open spec fn ingest_label(
    policy_default: Option<NamedEgressLabel>,
    policy_read_failed: bool,
    metadata: Option<json::JsonView>,
) -> EgressLabel {
    let policy = if policy_read_failed {
        EgressLabel::stays_local()
    } else {
        EgressLabel::top()
    };
    let default = match policy_default {
        Some(n) => n.spec_label(),
        None => EgressLabel::top(),
    };
    policy.meet(default).meet(declared_label(metadata, OPERATOR_LABEL_METADATA_KEY@)).meet(
        declared_label(metadata, OFP_INBOUND_LABEL_METADATA_KEY@),
    ).meet(declared_label(metadata, PARENT_TAINT_METADATA_KEY@))
}

/// The label of an incoming turn, where anything restricts it. A policy that
/// cannot be read counts as a restrictive one.
pub fn resolve_ingest_turn_label(
    policy_default: Option<NamedEgressLabel>,
    policy_read_failed: bool,
    metadata: Option<&Json>,
) -> (r: Option<EgressLabel>)
    ensures
        r == restrictive(ingest_label(policy_default, policy_read_failed, opt_json(metadata))),
{
    let mut acc = EgressLabel::unrestricted();
    if policy_read_failed {
        acc = acc.restrict(&EgressLabel::local_only());
    }
    if let Some(named) = policy_default {
        acc = acc.restrict(&named.to_label());
    }
    acc = acc.restrict(&declared_label_exec(metadata, OPERATOR_LABEL_METADATA_KEY));
    acc = acc.restrict(&declared_label_exec(metadata, OFP_INBOUND_LABEL_METADATA_KEY));
    acc = acc.restrict(&declared_label_exec(metadata, PARENT_TAINT_METADATA_KEY));
    if acc.is_unrestricted() {
        None
    } else {
        Some(acc)
    }
}

/// No declaration widens what another one tightened.
pub proof fn ingest_declarations_only_narrow(
    policy_default: Option<NamedEgressLabel>,
    policy_read_failed: bool,
    metadata: Option<json::JsonView>,
    key: Seq<char>,
)
    requires
        is_ingest_key(key),
    ensures
        ingest_label(policy_default, policy_read_failed, metadata).within(
            declared_label(metadata, key),
        ),
        policy_read_failed ==> ingest_label(policy_default, policy_read_failed, metadata).within(
            EgressLabel::stays_local(),
        ),
        policy_default is Some ==> ingest_label(
            policy_default,
            policy_read_failed,
            metadata,
        ).within(policy_default->Some_0.spec_label()),
{
    let r = ingest_label(policy_default, policy_read_failed, metadata);
    let d = declared_label(metadata, key);
    assert forall|s: Sink| #[trigger] r.permits(s) implies d.permits(s) by {}
    if policy_read_failed {
        assert forall|s: Sink| #[trigger] r.permits(s) implies EgressLabel::stays_local().permits(
            s,
        ) by {}
    }
    if policy_default is Some {
        let n = policy_default->Some_0.spec_label();
        assert forall|s: Sink| #[trigger] r.permits(s) implies n.permits(s) by {}
    }
}

// ---------------------------------------------------------------------------
// The federation barrier
// ---------------------------------------------------------------------------

/// Whether a session with this taint may send to a federation peer.
pub fn ofp_outbound_allows_federation(session_taint: &EgressLabel) -> (r: bool)
    ensures
        r == session_taint.permits(Sink::FederatedAgent),
{
    session_taint.allows(Sink::FederatedAgent)
}

/// Why a message to a peer is refused, and what is recorded.
#[derive(Debug)]
pub struct FederationRefusal {
    pub message: String,
    pub notice: Option<EgressNotice>,
}

/// Why a message to a peer is refused, and what is recorded.
pub open spec fn federation_gate(read: TaintRead, session_id: Option<&str>) -> Option<
    (Seq<char>, Option<egress_events::NoticeView>),
> {
    if read is NoStore {
        Some(
            (
                "OFP agent_message refused: GatewayStore required to confirm session egress taint"@,
                None,
            ),
        )
    } else {
        match boundary_taint(None, read, session_id) {
            Err(e) => Some(
                (
                    "OFP agent_message refused: "@ + e,
                    Some(
                        egress_events::surface_refused(
                            "ofp"@,
                            EgressLabel::bottom(),
                            Seq::empty(),
                            "session egress taint unresolved: "@ + e,
                        ),
                    ),
                ),
            ),
            Ok(taint) => if taint.permits(Sink::FederatedAgent) {
                None
            } else {
                Some(
                    (
                        "OFP agent_message refused: session egress label excludes FederatedAgent"@,
                        Some(
                            egress_events::surface_refused(
                                "ofp"@,
                                taint,
                                Seq::empty(),
                                "OFP agent_message refused: session egress label excludes FederatedAgent (RFC §7)"@,
                            ),
                        ),
                    ),
                )
            },
        }
    }
}

/// The barrier before a message to a federation peer.
pub fn ofp_federated_egress_refusal(sender_session_id: Option<&str>, read: &TaintRead) -> (r: Option<
    FederationRefusal,
>)
    ensures
        (match r {
            Some(f) => Some(
                (
                    f.message@,
                    match f.notice {
                        Some(n) => Some(n@),
                        None => None,
                    },
                ),
            ),
            None => None,
        }) == federation_gate(*read, sender_session_id),
{
    if let TaintRead::NoStore = read {
        return Some(
            FederationRefusal {
                message:
                    "OFP agent_message refused: GatewayStore required to confirm session egress taint".to_owned(),
                notice: None,
            },
        );
    }
    let taint = match require_boundary_session_taint(None, read, sender_session_id) {
        Ok(t) => t,
        Err(e) => {
            let mut message = "OFP agent_message refused: ".to_owned();
            message.append(e.as_str());
            let mut reason = "session egress taint unresolved: ".to_owned();
            reason.append(e.as_str());
            return Some(
                FederationRefusal {
                    message,
                    notice: Some(
                        egress_events::surface_boundary_refused_notice(
                            "ofp",
                            &EgressLabel::empty(),
                            &no_ids(),
                            reason.as_str(),
                        ),
                    ),
                },
            );
        },
    };
    if ofp_outbound_allows_federation(&taint) {
        return None;
    }
    Some(
        FederationRefusal {
            message:
                "OFP agent_message refused: session egress label excludes FederatedAgent".to_owned(),
            notice: Some(
                egress_events::surface_boundary_refused_notice(
                    "ofp",
                    &taint,
                    &no_ids(),
                    "OFP agent_message refused: session egress label excludes FederatedAgent (RFC §7)",
                ),
            ),
        },
    )
}

/// What goes on the wire for an allowed message: its text, and its label where
/// that restricts anything.
pub fn ofp_outbound_wire_fields(message: &str, session_taint: &EgressLabel) -> (r: (
    String,
    Option<Json>,
    Option<String>,
))
    ensures
        r.0@ == message@,
        (match r.1 {
            Some(j) => Some(j@),
            None => None,
        }) == (if *session_taint == EgressLabel::top() {
            None
        } else {
            Some(egress_events::label_json(*session_taint))
        }),
        r.2 is None,
{
    let label = if session_taint.is_unrestricted() {
        None
    } else {
        Some(egress_events::label_to_json(session_taint))
    };
    (message.to_owned(), label, None)
}

/// A label that is sent is the label that is read: what a peer makes of the
/// wire form of a label is that label.
pub proof fn labels_survive_the_wire(l: EgressLabel)
    ensures
        label_in(egress_events::label_json(l)) == Some(l),
{
    let names = egress::sink_names(l);
    let items = egress_events::label_json(l)->List_0;
    lemma_sink_names(l);
    assert forall|i: int| 0 <= i < items.len() implies names_sink(#[trigger] items[i]) is Some by {
        assert(items[i] == json::JsonView::Text(names[i]));
    }
    let other = EgressLabel::from_predicate(|s: Sink| lists_sink(items, s));
    assert forall|s: Sink| #[trigger] l.permits(s) == other.permits(s) by {
        if l.permits(s) {
            let i = choose|i: int| 0 <= i < names.len() && sink_named(#[trigger] names[i]) == Some(s);
            assert(names_sink(items[i]) == Some(s));
        }
        if lists_sink(items, s) {
            let i = choose|i: int|
                0 <= i < items.len() && names_sink(#[trigger] items[i]) == Some(s);
            assert(items[i] == json::JsonView::Text(names[i]));
        }
    }
    l.lemma_extensional(other);
}

/// The names of a label's sinks name exactly the sinks that it allows.
proof fn lemma_sink_names(l: EgressLabel)
    ensures
        forall|i: int|
            0 <= i < egress::sink_names(l).len() ==> (match sink_named(
                #[trigger] egress::sink_names(l)[i],
            ) {
                Some(s) => l.permits(s),
                None => false,
            }),
        forall|s: Sink| #[trigger]
            l.permits(s) ==> exists|i: int|
                0 <= i < egress::sink_names(l).len() && sink_named(
                    #[trigger] egress::sink_names(l)[i],
                ) == Some(s),
{
    lemma_sink_names_read();
    let a: Seq<Seq<char>> = if l.local_model {
        seq!["local_model"@]
    } else {
        Seq::empty()
    };
    let b = if l.remote_model {
        a.push("remote_model"@)
    } else {
        a
    };
    let c = if l.local_agent {
        b.push("local_agent"@)
    } else {
        b
    };
    let d = if l.federated_agent {
        c.push("federated_agent"@)
    } else {
        c
    };
    let e = if l.network {
        d.push("network"@)
    } else {
        d
    };
    let f = if l.memory_persist {
        e.push("memory_persist"@)
    } else {
        e
    };
    let names = egress::sink_names(l);
    assert forall|s: Sink| #[trigger] l.permits(s) implies exists|i: int|
        0 <= i < names.len() && sink_named(#[trigger] names[i]) == Some(s) by {
        match s {
            Sink::LocalModel => {
                assert(names[0] == "local_model"@);
            },
            Sink::RemoteModel => {
                assert(names[a.len() as int] == "remote_model"@);
            },
            Sink::LocalAgent => {
                assert(names[b.len() as int] == "local_agent"@);
            },
            Sink::FederatedAgent => {
                assert(names[c.len() as int] == "federated_agent"@);
            },
            Sink::Network => {
                assert(names[d.len() as int] == "network"@);
            },
            Sink::MemoryPersist => {
                assert(names[e.len() as int] == "memory_persist"@);
            },
            Sink::UserReply => {
                assert(names[f.len() as int] == "user_reply"@);
            },
        }
    }
}

proof fn lemma_sink_names_read()
    ensures
        sink_named("local_model"@) == Some(Sink::LocalModel),
        sink_named("remote_model"@) == Some(Sink::RemoteModel),
        sink_named("local_agent"@) == Some(Sink::LocalAgent),
        sink_named("federated_agent"@) == Some(Sink::FederatedAgent),
        sink_named("network"@) == Some(Sink::Network),
        sink_named("memory_persist"@) == Some(Sink::MemoryPersist),
        sink_named("user_reply"@) == Some(Sink::UserReply),
{
    reveal_strlit("local_model");
    reveal_strlit("remote_model");
    reveal_strlit("local_agent");
    reveal_strlit("federated_agent");
    reveal_strlit("network");
    reveal_strlit("memory_persist");
    reveal_strlit("user_reply");
    assert("local_model"@[0] == 'l' && "local_model"@[6] == 'm');
    assert("remote_model"@[0] == 'r');
    assert("local_agent"@[0] == 'l' && "local_agent"@[6] == 'a');
    assert("federated_agent"@[0] == 'f');
    assert("network"@[0] == 'n');
    assert("memory_persist"@[0] == 'm');
    assert("user_reply"@[0] == 'u');
}

// ---------------------------------------------------------------------------
// Laws of what the barriers let through
// ---------------------------------------------------------------------------

/// The network is open to a tool exactly where there is a store, and the taint that the
/// tool carries, or else that of its named session as the store has it, allows the
/// network; a named session with a grant may pass where the taint is known and does not.
pub proof fn the_network_is_open_for_known_clean_taint(
    surface: Seq<char>,
    tool: Seq<char>,
    context: Option<&BoundaryContext>,
    read: TaintRead,
    session_id: Option<&str>,
    host: Option<&str>,
    declassified: bool,
)
    ensures
        ({
            let open = network_gate(surface, tool, context, read, session_id, host, declassified) is None;
            let named = session_id is Some && session_id->Some_0@.len() > 0;
            let taint = match context {
                Some(c) => c.egress_taint,
                None => None,
            };
            &&& read is NoStore ==> !open
            &&& !(read is NoStore) && taint is Some ==> (open <==> taint->Some_0.network || (named
                && declassified))
            &&& !(read is NoStore) && taint is None && !named ==> !open
            &&& taint is None && named ==> {
                &&& read is Failed ==> !open
                &&& read == TaintRead::Row(None) ==> open
                &&& read matches TaintRead::Row(Some(t)) ==> (open <==> t.network || declassified)
            }
        }),
{
}

/// Every refusal of the network tells the caller that the call failed at the barrier, on
/// which surface and for which tool, and hints at a repair; where the session has an id,
/// the refusal is filed under it.
pub proof fn refusals_explain_themselves(
    surface: Seq<char>,
    tool: Seq<char>,
    context: Option<&BoundaryContext>,
    read: TaintRead,
    session_id: Option<&str>,
    host: Option<&str>,
    declassified: bool,
)
    requires
        network_gate(surface, tool, context, read, session_id, host, declassified) is Some,
    ensures
        ({
            let r = network_gate(
                surface,
                tool,
                context,
                read,
                session_id,
                host,
                declassified,
            )->Some_0;
            let m = r.body->Object_0;
            &&& r.body is Object
            &&& m.contains(json::entry("ok"@, json::JsonView::Bool(false)))
            &&& m.contains(
                json::entry("error_type"@, json::JsonView::Text("egress_boundary_refused"@)),
            )
            &&& m.contains(json::entry("surface"@, json::JsonView::Text(surface)))
            &&& m.contains(json::entry("tool"@, json::JsonView::Text(tool)))
            &&& exists|i: int| 0 <= i < m.len() && (#[trigger] m[i]).key == "repair_hint"@
            &&& session_id is Some && session_id->Some_0@.len() > 0 ==> r.session_id
                == session_id->Some_0@
            &&& !(read is NoStore) ==> r.notice is Some && r.notice->Some_0.action
                == "egress.boundary_refused"@
        }),
{
    let r = network_gate(surface, tool, context, read, session_id, host, declassified)->Some_0;
    let m = r.body->Object_0;
    assert(m[0] == json::entry("ok"@, json::JsonView::Bool(false)));
    assert(m[1] == json::entry("error_type"@, json::JsonView::Text("egress_boundary_refused"@)));
    assert(m[2] == json::entry("surface"@, json::JsonView::Text(surface)));
    assert(m[3] == json::entry("tool"@, json::JsonView::Text(tool)));
    assert(m[5].key == "repair_hint"@);
}

/// A call to a remote MCP server passes exactly where the network is open to it and every
/// prior result that its arguments refer to, by id or by a snippet that is not empty, may
/// go onto the network.
pub proof fn mcp_calls_pass_with_clean_arguments(
    tool: Seq<char>,
    arguments: Seq<char>,
    context: Option<&BoundaryContext>,
    read: TaintRead,
    session_id: Option<&str>,
    prior: Map<Seq<char>, PriorLabeledResult>,
    host: Option<&str>,
    declassified: bool,
)
    ensures
        mcp_gate(tool, arguments, context, read, session_id, prior, host, declassified) is None <==> (
        network_gate("mcp"@, tool, context, read, session_id, host, declassified) is None && forall|
            k: Seq<char>,
        | #[trigger]
            prior.dom().contains(k) && (text::has_text(arguments, k) || (prior[k].content_snippet is Some
                && prior[k].content_snippet->Some_0@.len() > 0 && text::has_text(
                arguments,
                prior[k].content_snippet->Some_0@,
            ))) ==> prior[k].label.network),
{
    let taint = egress_labeler::carried(arguments, prior);
    assert(taint.permits(Sink::Network) == egress_labeler::carried_allows(
        arguments,
        prior,
        Sink::Network,
    ));
    if taint.permits(Sink::Network) {
        assert forall|k: Seq<char>| #[trigger]
            prior.dom().contains(k) && egress_labeler::refers_to(arguments, k, prior[k]) implies prior[k].label.network by {
            assert(egress_labeler::referred(arguments, prior).contains(k));
        }
    } else {
        let k = choose|k: Seq<char>|
            #[trigger] egress_labeler::referred(arguments, prior).contains(k)
                && !prior[k].label.permits(Sink::Network);
        assert(prior.dom().contains(k));
    }
}

/// A message to a peer passes exactly where the store knows the taint of the named session
/// and it allows federated agents.
pub proof fn peers_get_what_federated_agents_may(read: TaintRead, session_id: Option<&str>)
    ensures
        federation_gate(read, session_id) is None <==> session_id is Some && session_id->Some_0@.len()
            > 0 && (read == TaintRead::Row(None) || (read matches TaintRead::Row(Some(t))
            && t.federated_agent)),
{
}

/// The wire names of the sinks.
pub proof fn sinks_are_read_by_their_names(s: Seq<char>)
    ensures
        sink_named("local_model"@) == Some(Sink::LocalModel),
        sink_named("remote_model"@) == Some(Sink::RemoteModel),
        sink_named("local_agent"@) == Some(Sink::LocalAgent),
        sink_named("federated_agent"@) == Some(Sink::FederatedAgent),
        sink_named("network"@) == Some(Sink::Network),
        sink_named("memory_persist"@) == Some(Sink::MemoryPersist),
        sink_named("user_reply"@) == Some(Sink::UserReply),
        sink_named(s) is Some ==> s == "local_model"@ || s == "remote_model"@ || s
            == "local_agent"@ || s == "federated_agent"@ || s == "network"@ || s
            == "memory_persist"@ || s == "user_reply"@,
{
    reveal_strlit("local_model");
    reveal_strlit("remote_model");
    reveal_strlit("local_agent");
    reveal_strlit("federated_agent");
    reveal_strlit("network");
    reveal_strlit("memory_persist");
    reveal_strlit("user_reply");
    assert("local_model"@.len() == 11 && "remote_model"@.len() == 12 && "local_agent"@.len() == 11
        && "federated_agent"@.len() == 15 && "network"@.len() == 7 && "memory_persist"@.len() == 14
        && "user_reply"@.len() == 10);
    assert("local_model"@[6] == 'm');
    assert("local_agent"@[6] == 'a');
}

/// A declared label is a list of sink names; it allows a sink exactly where the list names
/// it. Anything else is no label.
pub proof fn declared_labels_list_their_sinks(items: Seq<json::JsonView>, s: Sink)
    ensures
        label_in(json::JsonView::List(items)) is Some <==> forall|i: int|
            0 <= i < items.len() ==> (#[trigger] items[i]) is Text && sink_named(
                items[i]->Text_0,
            ) is Some,
        label_in(json::JsonView::List(items)) matches Some(l) ==> (l.permits(s) <==> exists|i: int|
            0 <= i < items.len() && (#[trigger] items[i]) is Text && sink_named(items[i]->Text_0)
                == Some(s)),
        forall|j: json::JsonView| !(j is List) ==> (#[trigger] label_in(j)) is None,
{
    if label_in(json::JsonView::List(items)) is Some {
        assert forall|i: int| 0 <= i < items.len() implies (#[trigger] items[i]) is Text && sink_named(
            items[i]->Text_0,
        ) is Some by {
            assert(names_sink(items[i]) is Some);
        }
        let l = label_in(json::JsonView::List(items))->Some_0;
        assert(l.permits(s) == lists_sink(items, s));
        if lists_sink(items, s) {
            let i = choose|i: int| 0 <= i < items.len() && names_sink(#[trigger] items[i]) == Some(s);
            assert(items[i] is Text);
        }
        if exists|i: int|
            0 <= i < items.len() && (#[trigger] items[i]) is Text && sink_named(items[i]->Text_0)
                == Some(s) {
            let i = choose|i: int|
                0 <= i < items.len() && (#[trigger] items[i]) is Text && sink_named(items[i]->Text_0)
                    == Some(s);
            assert(names_sink(items[i]) == Some(s));
        }
    }
    if forall|i: int|
        0 <= i < items.len() ==> (#[trigger] items[i]) is Text && sink_named(items[i]->Text_0) is Some {
        assert forall|i: int| 0 <= i < items.len() implies names_sink(#[trigger] items[i]) is Some by {
            assert(items[i] is Text);
        }
    }
}

/// What a peer declares for its content counts as declared; where it declares nothing, or
/// nothing that can be read, or nothing at all may be done with it, the content may go
/// anywhere but to a remote model.
pub proof fn inbound_content_is_labeled_as_declared(j: json::JsonView, s: Sink)
    ensures
        label_in(j) matches Some(l) ==> l != EgressLabel::bottom() ==> inbound_label(Some(j)) == l,
        label_in(j) == Some(EgressLabel::bottom()) || label_in(j) is None ==> (inbound_label(
            Some(j),
        ).permits(s) <==> s != Sink::RemoteModel),
        inbound_label(None).permits(s) <==> s != Sink::RemoteModel,
{
}

/// The metadata fields that declare a label for an incoming turn.
pub proof fn ingest_fields_are_known(key: Seq<char>)
    ensures
        is_ingest_key(key) <==> key == "operator_egress_label"@ || key
            == "ofp_inbound_egress_label"@ || key == "parent_egress_taint"@,
{
}

/// Each declaration of an incoming turn bounds its label: the operator's, the peer's and
/// the parent's, where it can be read what it says and else what stays on this machine.
pub proof fn every_declaration_bounds_a_turn(
    policy_default: Option<NamedEgressLabel>,
    policy_read_failed: bool,
    m: json::JsonView,
    key: Seq<char>,
    v: json::JsonView,
    s: Sink,
)
    requires
        key == "operator_egress_label"@ || key == "ofp_inbound_egress_label"@ || key
            == "parent_egress_taint"@,
        json::field(m, key) == Some(v),
        match label_in(v) {
            Some(l) => !l.permits(s),
            None => s == Sink::RemoteModel || s == Sink::FederatedAgent || s == Sink::Network,
        },
    ensures
        !ingest_label(policy_default, policy_read_failed, Some(m)).permits(s),
{
}

/// Nothing else bounds the label of an incoming turn: a sink is allowed where the policy
/// could be read and its default allows it, and no declaration that is there excludes it.
pub proof fn only_declarations_bound_a_turn(
    policy_default: Option<NamedEgressLabel>,
    policy_read_failed: bool,
    m: Option<json::JsonView>,
    s: Sink,
)
    requires
        policy_read_failed ==> s == Sink::LocalModel || s == Sink::LocalAgent || s
            == Sink::MemoryPersist || s == Sink::UserReply,
        policy_default is Some ==> policy_default->Some_0.spec_label().permits(s),
        m matches Some(j) ==> forall|key: Seq<char>|
            (key == "operator_egress_label"@ || key == "ofp_inbound_egress_label"@ || key
                == "parent_egress_taint"@) ==> match #[trigger] json::field(j, key) {
                Some(v) => label_in(v) is Some && label_in(v)->Some_0.permits(s),
                None => true,
            },
    ensures
        ingest_label(policy_default, policy_read_failed, m).permits(s),
{
    if let Some(j) = m {
        let a = json::field(j, "operator_egress_label"@);
        let b = json::field(j, "ofp_inbound_egress_label"@);
        let c = json::field(j, "parent_egress_taint"@);
    }
}

/// A policy whose default excludes a sink, or that could not be read, bounds the label of
/// an incoming turn.
pub proof fn the_policy_bounds_a_turn(
    policy_default: Option<NamedEgressLabel>,
    policy_read_failed: bool,
    m: Option<json::JsonView>,
    s: Sink,
)
    requires
        (policy_default is Some && !policy_default->Some_0.spec_label().permits(s)) || (
        policy_read_failed && (s == Sink::RemoteModel || s == Sink::FederatedAgent || s
            == Sink::Network)),
    ensures
        !ingest_label(policy_default, policy_read_failed, m).permits(s),
{
}

/// Stripping a turn's metadata removes the three fields that declare a label, wherever
/// they stand, and keeps every other field with its value, in order.
pub proof fn stripping_keeps_the_other_fields(m: Seq<json::JsonFieldView>)
    ensures
        stripped(json::JsonView::Object(m)) == json::JsonView::Object(
            m.filter(
                |f: json::JsonFieldView|
                    f.key != "operator_egress_label"@ && f.key != "ofp_inbound_egress_label"@
                        && f.key != "parent_egress_taint"@,
            ),
        ),
    decreases m.len(),
{
    reveal(Seq::filter);
    if m.len() > 0 {
        stripping_keeps_the_other_fields(m.drop_last());
    } else {
        assert(m.filter(
            |f: json::JsonFieldView|
                f.key != "operator_egress_label"@ && f.key != "ofp_inbound_egress_label"@ && f.key
                    != "parent_egress_taint"@,
        ) =~= without_ingest(m));
    }
}

/// A host is granted whatever white space stands around its name, however many dots end it
/// and in whichever case it is written.
pub proof fn hosts_are_granted_in_any_spelling(
    left: Seq<char>,
    host: Seq<char>,
    right: Seq<char>,
)
    requires
        text::all_white(left),
        text::all_white(right),
        text::is_trimmed(host),
    ensures
        normalized_host(left + host + right) == normalized_host(host),
        host.len() > 0 && host.last() != '.' ==> normalized_host(host) == text::lower_ascii(host),
        host.len() > 0 && host.last() != '.' ==> normalized_host(host.push('.')) == text::lower_ascii(
            host,
        ),
{
    let none = Seq::<char>::empty();
    text::lemma_trim_padded(left, host, right);
    text::lemma_trim_padded(none, host, none);
    assert(none + host + none =~= host);
    let dotted = host.push('.');
    if host.len() > 0 && host.last() != '.' {
        assert(dotted[0] == host[0]);
        assert(!text::is_white('.'));
        text::lemma_trim_padded(none, dotted, none);
        assert(none + dotted + none =~= dotted);
        assert(dotted.drop_last() =~= host);
        reveal_with_fuel(text::trim_end_char, 3);
    }
}

/// The fields of a declaration that are present are listed, each where it is there.
pub proof fn declared_fields_are_listed(j: json::JsonView)
    ensures
        json::field(j, OPERATOR_LABEL_METADATA_KEY@) is Some ==> ingest_keys_present(j).contains(
            OPERATOR_LABEL_METADATA_KEY@,
        ),
        json::field(j, OFP_INBOUND_LABEL_METADATA_KEY@) is Some ==> ingest_keys_present(j).contains(
            OFP_INBOUND_LABEL_METADATA_KEY@,
        ),
        json::field(j, PARENT_TAINT_METADATA_KEY@) is Some ==> ingest_keys_present(j).contains(
            PARENT_TAINT_METADATA_KEY@,
        ),
{
    let v = ingest_keys_present(j);
    let a = json::field(j, OPERATOR_LABEL_METADATA_KEY@) is Some;
    let b = json::field(j, OFP_INBOUND_LABEL_METADATA_KEY@) is Some;
    if a {
        assert(v[0] == OPERATOR_LABEL_METADATA_KEY@);
    }
    if b {
        assert(v[if a {
            1int
        } else {
            0
        }] == OFP_INBOUND_LABEL_METADATA_KEY@);
    }
    if json::field(j, PARENT_TAINT_METADATA_KEY@) is Some {
        assert(v[v.len() - 1] == PARENT_TAINT_METADATA_KEY@);
    }
}

/// A grant for a session is for everything of its root, which is what stands before the first
/// slash of its id.
pub proof fn grants_are_for_the_root(root: Seq<char>, rest: Seq<char>)
    requires
        !root.contains('/'),
    ensures
        grant_root(None, root) == root,
        grant_root(None, root + seq!['/'] + rest) == root,
        session_target(root) == "session:"@ + root,
{
    text::heads_end_at_the_character(root, '/', rest);
}

/// The hint of a refusal names the tool and the host that an approval would open.
pub proof fn hints_name_tool_and_host(tool: Seq<char>, host: &str)
    ensures
        text::has_text(network_hint(tool, Some(host)), tool),
        text::has_text(network_hint(tool, Some(host)), host@),
{
    let a = "Approve this "@;
    let b = " request — approval declassifies Network egress to "@;
    let c =
        " only (host-scoped grant). For session-wide Network, use an explicit EgressDeclassify approval."@;
    let rest = b + host@ + c;
    text::lemma_has_text_around(a, tool, rest);
    assert(a + tool + rest =~= network_hint(tool, Some(host)));
    text::lemma_has_text_around(a + tool + b, host@, c);
}

/// A refusal for what the arguments carry tells the tool, the results that they come from and
/// their label.
pub proof fn refused_arguments_are_told(
    tool: Seq<char>,
    arguments: Seq<char>,
    context: Option<&BoundaryContext>,
    read: TaintRead,
    session_id: Option<&str>,
    prior: Map<Seq<char>, PriorLabeledResult>,
    host: Option<&str>,
    declassified: bool,
    parents: Seq<Seq<char>>,
)
    requires
        network_gate("mcp"@, tool, context, read, session_id, host, declassified) is None,
        mcp_gate(tool, arguments, context, read, session_id, prior, host, declassified) is Some,
        parents == order::listing(egress_labeler::referred(arguments, prior)),
    ensures
        ({
            let r = mcp_gate(
                tool,
                arguments,
                context,
                read,
                session_id,
                prior,
                host,
                declassified,
            )->Some_0;
            let m = r.body->Object_0;
            &&& m.contains(json::entry("ok"@, json::JsonView::Bool(false)))
            &&& m.contains(
                json::entry("error_type"@, json::JsonView::Text("egress_boundary_refused"@)),
            )
            &&& m.contains(json::entry("surface"@, json::JsonView::Text("mcp"@)))
            &&& m.contains(json::entry("tool"@, json::JsonView::Text(tool)))
            &&& m.contains(json::entry("parent_envelope_ids"@, json::text_list(parents)))
            &&& r.notice is Some
            &&& r.notice->Some_0.action == "egress.boundary_refused"@
            &&& r.notice->Some_0.payload->Object_0.contains(
                json::entry("surface"@, json::JsonView::Text("mcp"@)),
            )
            &&& r.notice->Some_0.payload->Object_0.contains(
                json::entry("envelope_ids"@, json::text_list(parents)),
            )
        }),
{
    let r = mcp_gate(
        tool,
        arguments,
        context,
        read,
        session_id,
        prior,
        host,
        declassified,
    )->Some_0;
    let m = r.body->Object_0;
    assert(m[0] == json::entry("ok"@, json::JsonView::Bool(false)));
    assert(m[1] == json::entry("error_type"@, json::JsonView::Text("egress_boundary_refused"@)));
    assert(m[2] == json::entry("surface"@, json::JsonView::Text("mcp"@)));
    assert(m[3] == json::entry("tool"@, json::JsonView::Text(tool)));
    assert(m[5] == json::entry("parent_envelope_ids"@, json::text_list(parents)));
    let n = r.notice->Some_0.payload->Object_0;
    assert(n[0] == json::entry("surface"@, json::JsonView::Text("mcp"@)));
    assert(n[3] == json::entry("envelope_ids"@, json::text_list(parents)));
}

} // verus!
