//! What the operator is asked where egress policy stands in a session's way.

use crate::causal;
use crate::clock;
use crate::content_store;
use crate::egress;
use crate::egress::{EgressLabel, Sink};
use crate::egress_boundary;
use crate::egress_boundary::EgressDeclassificationTarget;
use crate::egress_events;
use crate::egress_events::EgressNotice;
use crate::egress_routing::PresetCandidate;
use crate::json;
use crate::json::{Fields, Json};
use crate::text;
use vstd::prelude::*;

verus! {

// ---------------------------------------------------------------------------
// Offers to declassify
// ---------------------------------------------------------------------------

/// A pending request to declassify.
#[derive(Debug)]
pub struct PendingDeclassify {
    pub request_id: String,
    pub target: EgressDeclassificationTarget,
    pub allowed_sink: Sink,
}

/// A request to declassify that is to be filed.
#[derive(Debug)]
pub struct DeclassifyRequest {
    pub request_id: String,
    pub agent_id: String,
    pub session_id: String,
    pub root_session_id: String,
    pub target: EgressDeclassificationTarget,
    pub allowed_sink: Sink,
    pub reason: String,
    pub created_at: String,
}

/// Whether an offer is new.
#[derive(Debug)]
pub enum DeclassifyOffer {
    /// The same offer is pending already, under this id.
    Reuse(String),
    File(DeclassifyRequest),
}

/// A pending request offers remote models to a whole root session.
pub open spec fn offers_remote(p: PendingDeclassify, root: Seq<char>) -> bool {
    p.target@ == egress_boundary::session_target(root) && p.allowed_sink == Sink::RemoteModel
}

/// The first of the pending requests that offers remote models to the session.
pub open spec fn first_offer(pending: Seq<PendingDeclassify>, root: Seq<char>) -> Option<Seq<char>>
    decreases pending.len(),
{
    if pending.len() == 0 {
        None
    } else if offers_remote(pending[0], root) {
        Some(pending[0].request_id@)
    } else {
        first_offer(pending.subrange(1, pending.len() as int), root)
    }
}

/// Why the offer is made.
pub open spec fn offer_reason(batch: EgressLabel) -> Seq<char> {
    "turn refused (egress_no_eligible_provider): this turn's new data is labeled "@
        + egress::display_name(batch)
        + " and no configured preset is cleared for it. Approving declassifies this root session to RemoteModel (session-wide); reject to keep it local-only."@
}

/// Offers the operator a way out of a turn for which no preset is cleared: to
/// let the whole root session reach remote models. An offer that is pending
/// already is used again; `pending` is `None` where the pending requests could
/// not be read. `unique` makes the id of a new offer.
pub fn declassify_offer_at(
    pending: Option<&Vec<PendingDeclassify>>,
    unique: &str,
    session_id: &str,
    root_session_id: &str,
    agent_id: &str,
    batch: &EgressLabel,
    created_at: String,
) -> (r: DeclassifyOffer)
    ensures
        match (
            r,
            match pending {
                Some(p) => first_offer(p@, root_session_id@),
                None => None,
            },
        ) {
            (DeclassifyOffer::Reuse(id), Some(found)) => id@ == found,
            (DeclassifyOffer::File(d), None) => d.request_id@ == "apr-"@ + unique@ && d.agent_id@
                == agent_id@ && d.session_id@ == session_id@ && d.root_session_id@
                == root_session_id@ && d.target@ == egress_boundary::session_target(
                root_session_id@,
            ) && d.allowed_sink == Sink::RemoteModel && d.reason@ == offer_reason(*batch)
                && d.created_at == created_at,
            _ => false,
        },
{
    let target = egress_boundary::session_egress_declass_target(root_session_id);
    if let Some(p) = pending {
        let mut i: usize = 0;
        assert(p@.subrange(0, p@.len() as int) =~= p@);
        while i < p.len()
            invariant
                i <= p@.len(),
                pending == Some(p),
                target@ == egress_boundary::session_target(root_session_id@),
                first_offer(p@, root_session_id@) == first_offer(
                    p@.subrange(i as int, p@.len() as int),
                    root_session_id@,
                ),
            decreases p@.len() - i,
        {
            proof {
                let rest = p@.subrange(i as int, p@.len() as int);
                assert(rest.subrange(1, rest.len() as int) =~= p@.subrange(
                    i + 1,
                    p@.len() as int,
                ));
            }
            if text::text_eq(p[i].target.value(), target.value()) && p[i].allowed_sink
                == Sink::RemoteModel {
                return DeclassifyOffer::Reuse(p[i].request_id.clone());
            }
            i = i + 1;
        }
    }
    let mut reason =
        "turn refused (egress_no_eligible_provider): this turn's new data is labeled ".to_owned();
    reason.append(egress::label_display_name(batch).as_str());
    reason.append(
        " and no configured preset is cleared for it. Approving declassifies this root session to RemoteModel (session-wide); reject to keep it local-only.",
    );
    let mut request_id = "apr-".to_owned();
    request_id.append(unique);
    DeclassifyOffer::File(
        DeclassifyRequest {
            request_id,
            agent_id: agent_id.to_owned(),
            session_id: session_id.to_owned(),
            root_session_id: root_session_id.to_owned(),
            target,
            allowed_sink: Sink::RemoteModel,
            reason,
            created_at,
        },
    )
}

/// [`declassify_offer_at`] at the present time.
pub fn file_declassify_offer(
    pending: Option<&Vec<PendingDeclassify>>,
    unique: &str,
    session_id: &str,
    root_session_id: &str,
    agent_id: &str,
    batch: &EgressLabel,
) -> (r: DeclassifyOffer)
    ensures
        match (
            r,
            match pending {
                Some(p) => first_offer(p@, root_session_id@),
                None => None,
            },
        ) {
            (DeclassifyOffer::Reuse(id), Some(found)) => id@ == found,
            (DeclassifyOffer::File(d), None) => d.request_id@ == "apr-"@ + unique@ && d.agent_id@
                == agent_id@ && d.session_id@ == session_id@ && d.root_session_id@
                == root_session_id@ && d.target@ == egress_boundary::session_target(
                root_session_id@,
            ) && d.allowed_sink == Sink::RemoteModel && d.reason@ == offer_reason(*batch)
                && clock::is_utc_text(d.created_at@),
            _ => false,
        },
{
    declassify_offer_at(
        pending,
        unique,
        session_id,
        root_session_id,
        agent_id,
        batch,
        clock::now_rfc3339(),
    )
}

/// An offer that was filed is found again: while it is pending, no second one
/// is filed for the same root session.
pub proof fn a_pending_offer_is_reused(pending: Seq<PendingDeclassify>, i: int, root: Seq<char>)
    requires
        0 <= i < pending.len(),
        offers_remote(pending[i], root),
    ensures
        first_offer(pending, root) is Some,
    decreases pending.len(),
{
    if !offers_remote(pending[0], root) {
        let rest = pending.subrange(1, pending.len() as int);
        assert(rest[i - 1] == pending[i]);
        a_pending_offer_is_reused(rest, i - 1, root);
    }
}

// ---------------------------------------------------------------------------
// The ask of a pinned preset that is not cleared
// ---------------------------------------------------------------------------

/// Option of the ask: let the root session reach the remote model.
pub const DECLASSIFY: &'static str = "declassify";

/// Option of the ask: run this turn on the local preset.
pub const RUN_LOCAL: &'static str = "run_local";

/// Option of the ask: abort this turn.
pub const ABORT: &'static str = "abort";

/// The state of a filed ask, kept until the turn resumes on the answer.
#[derive(Debug)]
pub struct EgressAskState {
    pub interaction_id: String,
    pub turn_id: String,
    pub batch: EgressLabel,
    pub pinned_preset: String,
    /// The preset that "run local once" names, where one is cleared.
    pub local_preset: Option<PresetCandidate>,
}

/// Why a pinned preset is not cleared for a turn.
#[derive(Debug, Clone, Copy, PartialEq, Eq, Structural)]
pub enum PinAskBlocker {
    /// The labels of the batch exclude the preset's sink. A grant lifts that.
    BatchTaint,
    /// The session is constrained to other providers. No grant lifts that.
    ProviderConstraint,
}

/// How far an ask has come.
#[derive(Debug, Clone, Copy, PartialEq, Eq, Structural)]
pub enum UserInteractionStatus {
    Pending,
    Answered,
}

/// One option that the operator may pick.
#[derive(Debug)]
pub struct UserInteractionOption {
    pub id: String,
    pub label: String,
    pub value: String,
}

/// A decision that is put to the operator.
#[derive(Debug)]
pub struct UserInteraction {
    pub interaction_id: String,
    pub session_id: String,
    pub root_session_id: String,
    pub agent_id: String,
    pub turn_id: String,
    pub question: String,
    pub context: Option<String>,
    pub options: Vec<UserInteractionOption>,
    pub allow_freeform: bool,
    pub status: UserInteractionStatus,
    pub answer_option_id: Option<String>,
    pub answered_by: Option<String>,
    pub answered_at: Option<String>,
    pub created_at: String,
    pub checkpoint_turn_id: Option<String>,
}

/// The context of an interaction marks it as the ask of a pinned preset.
pub open spec fn is_ask_tree(context: Option<json::JsonView>) -> bool {
    match context {
        Some(j) => json::field(j, "egress_pin_ask"@) == Some(json::JsonView::Bool(true)),
        None => false,
    }
}

/// The context of an interaction, read as JSON.
pub open spec fn context_tree(context: Option<Seq<char>>) -> Option<json::JsonView> {
    match context {
        Some(c) => json::parsed_json(c),
        None => None,
    }
}

/// Whether a context marks an interaction as the ask of a pinned preset.
pub fn is_pin_ask_context(context: Option<&Json>) -> (r: bool)
    ensures
        r == is_ask_tree(egress_boundary::opt_json(context)),
{
    match context {
        Some(j) => match j.get("egress_pin_ask") {
            Some(Json::Bool(b)) => *b,
            _ => false,
        },
        None => false,
    }
}

/// Whether an interaction is the ask of a pinned preset.
pub fn is_egress_pin_ask(interaction: &UserInteraction) -> (r: bool)
    ensures
        r == is_ask_tree(context_tree(interaction.context.deep_view())),
{
    match &interaction.context {
        Some(c) => match json::parse_json(c.as_str()) {
            Some(j) => is_pin_ask_context(Some(&j)),
            None => false,
        },
        None => false,
    }
}

/// The options that an ask offers.
pub open spec fn offered(blocker: PinAskBlocker, has_local: bool) -> Seq<Seq<char>> {
    let a: Seq<Seq<char>> = if blocker == PinAskBlocker::BatchTaint {
        seq![DECLASSIFY@]
    } else {
        Seq::empty()
    };
    let b = if has_local {
        a.push(RUN_LOCAL@)
    } else {
        a
    };
    b.push(ABORT@)
}

/// The options that an ask offers: to declassify only where that helps, to run
/// locally only where a local preset is cleared, and always to abort.
pub fn egress_ask_options_payload(
    blocker: PinAskBlocker,
    local_preset: Option<&PresetCandidate>,
) -> (r: Vec<String>)
    ensures
        r.deep_view() == offered(blocker, local_preset is Some),
{
    let mut ids: Vec<String> = Vec::new();
    assert(ids.deep_view() =~= Seq::<Seq<char>>::empty());
    if blocker == PinAskBlocker::BatchTaint {
        egress::push_name(&mut ids, DECLASSIFY);
    }
    if local_preset.is_some() {
        egress::push_name(&mut ids, RUN_LOCAL);
    }
    egress::push_name(&mut ids, ABORT);
    ids
}

/// An ask is never a dead end, and declassification is offered exactly where it
/// lifts what blocks the preset.
pub proof fn asks_offer_what_helps(blocker: PinAskBlocker, has_local: bool)
    ensures
        offered(blocker, has_local).contains(ABORT@),
        offered(blocker, has_local).contains(DECLASSIFY@) <==> blocker == PinAskBlocker::BatchTaint,
        offered(blocker, has_local).contains(RUN_LOCAL@) <==> has_local,
{
    reveal_strlit("declassify");
    reveal_strlit("run_local");
    reveal_strlit("abort");
    let s = offered(blocker, has_local);
    assert(DECLASSIFY@.len() == 10 && RUN_LOCAL@.len() == 9 && ABORT@.len() == 5);
    assert(s.last() == ABORT@);
    if blocker == PinAskBlocker::BatchTaint {
        assert(s[0] == DECLASSIFY@);
    }
    if has_local {
        assert(s[s.len() - 2] == RUN_LOCAL@);
    }
}

/// The name of the local preset, where there is one.
pub open spec fn local_name(local: Option<&PresetCandidate>) -> Option<Seq<char>> {
    match local {
        Some(c) => Some(c.name@),
        None => None,
    }
}

/// What an option says to the operator.
pub open spec fn option_label(id: Seq<char>, local: Option<&PresetCandidate>) -> Seq<char> {
    if id == DECLASSIFY@ {
        "Declassify this root session to the remote model"@
    } else if id == RUN_LOCAL@ {
        "Run this turn on the local preset '"@ + (match local {
            Some(c) => c.name@,
            None => "local"@,
        }) + "'"@
    } else {
        "Abort this turn"@
    }
}

/// The wire name of a blocker.
pub open spec fn blocker_name(b: PinAskBlocker) -> Seq<char> {
    match b {
        PinAskBlocker::BatchTaint => "batch_taint"@,
        PinAskBlocker::ProviderConstraint => "provider_constraint"@,
    }
}

/// The context that marks an ask and says what it is about.
pub open spec fn ask_context(
    batch: EgressLabel,
    pinned: Seq<char>,
    local: Option<&PresetCandidate>,
    blocker: PinAskBlocker,
) -> json::JsonView {
    json::JsonView::Object(
        json::no_fields().push(
            json::entry("egress_pin_ask"@, json::JsonView::Bool(true)),
        ).push(json::entry("batch"@, egress_events::label_json(batch))).push(
            json::entry("pinned_preset"@, json::JsonView::Text(pinned)),
        ).push(json::entry("local_preset"@, json::opt_text(local_name(local)))).push(
            json::entry("blocker"@, json::JsonView::Text(blocker_name(blocker))),
        ),
    )
}

/// The choice of a local run, as the question words it.
pub open spec fn run_local_clause(local: Option<&PresetCandidate>) -> Seq<char> {
    match local {
        Some(c) => " run this turn on the local preset '"@ + c.name@ + "'"@,
        None => Seq::empty(),
    }
}

/// The question: it names only the choices that are offered.
pub open spec fn ask_question(
    batch: EgressLabel,
    pinned: Seq<char>,
    local: Option<&PresetCandidate>,
    blocker: PinAskBlocker,
) -> Seq<char> {
    match blocker {
        PinAskBlocker::BatchTaint => "The pinned preset '"@ + pinned
            + "' is not cleared for this turn's new data (labeled "@ + egress::display_name(batch)
            + "). The gateway will not silently run it on another model. Choose: declassify this root session to the remote model,"@
            + run_local_clause(local) + (if local is Some {
            ","@
        } else {
            Seq::empty()
        }) + " or abort this turn."@,
        PinAskBlocker::ProviderConstraint =>
        "This room is pinned local (session provider_constraint), so the pinned preset '"@ + pinned
            + "' cannot run this turn. The gateway will not silently run it on another model. Choose:"@
            + run_local_clause(local)
            + " or abort this turn. Declassification is not offered — the room pin outranks it; lift the pin itself (`/private`) to use '"@
            + pinned + "' again."@,
    }
}

/// An interaction is the new ask of a pinned preset.
pub open spec fn is_new_ask(
    it: UserInteraction,
    interaction_id: Seq<char>,
    session_id: Seq<char>,
    root_session_id: Seq<char>,
    agent_id: Seq<char>,
    turn_id: Seq<char>,
    batch: EgressLabel,
    pinned: Seq<char>,
    local: Option<&PresetCandidate>,
    blocker: PinAskBlocker,
) -> bool {
    let ids = offered(blocker, local is Some);
    &&& it.interaction_id@ == interaction_id
    &&& it.session_id@ == session_id
    &&& it.root_session_id@ == root_session_id
    &&& it.agent_id@ == agent_id
    &&& it.turn_id@ == turn_id
    &&& it.question@ == ask_question(batch, pinned, local, blocker)
    &&& it.context.deep_view() == Some(json::json_text(ask_context(batch, pinned, local, blocker)))
    &&& it.options@.len() == ids.len()
    &&& forall|i: int|
        0 <= i < ids.len() ==> (#[trigger] it.options@[i]).id@ == ids[i] && it.options@[i].value@
            == ids[i] && it.options@[i].label@ == option_label(ids[i], local)
    &&& !it.allow_freeform
    &&& it.status == UserInteractionStatus::Pending
    &&& it.answer_option_id is None
    &&& it.answered_by is None
    &&& it.answered_at is None
    &&& it.checkpoint_turn_id.deep_view() == Some(turn_id)
}

/// The first of the pending interactions that is the ask of a pinned preset.
pub open spec fn first_ask(pending: Seq<UserInteraction>) -> Option<Seq<char>>
    decreases pending.len(),
{
    if pending.len() == 0 {
        None
    } else if is_ask_tree(context_tree(pending[0].context.deep_view())) {
        Some(pending[0].interaction_id@)
    } else {
        first_ask(pending.subrange(1, pending.len() as int))
    }
}

/// Whether an ask is new.
#[derive(Debug)]
pub enum PinAsk {
    /// An ask is pending already, under this id.
    Reuse(String),
    File(UserInteraction),
}

fn option_label_exec(id: &str, local: Option<&PresetCandidate>) -> (r: String)
    ensures
        r@ == option_label(id@, local),
{
    if text::text_eq(id, DECLASSIFY) {
        "Declassify this root session to the remote model".to_owned()
    } else if text::text_eq(id, RUN_LOCAL) {
        let mut s = "Run this turn on the local preset '".to_owned();
        match local {
            Some(c) => s.append(c.name.as_str()),
            None => s.append("local"),
        }
        s.append("'");
        s
    } else {
        "Abort this turn".to_owned()
    }
}

fn ask_question_exec(
    batch: &EgressLabel,
    pinned: &str,
    local: Option<&PresetCandidate>,
    blocker: PinAskBlocker,
) -> (r: String)
    ensures
        r@ == ask_question(*batch, pinned@, local, blocker),
{
    let mut clause = String::new();
    let mut comma = String::new();
    assert(clause@ =~= Seq::<char>::empty());
    assert(comma@ =~= Seq::<char>::empty());
    if let Some(c) = local {
        clause.append(" run this turn on the local preset '");
        clause.append(c.name.as_str());
        clause.append("'");
        comma.append(",");
        assert(clause@ =~= run_local_clause(local));
        assert(comma@ =~= ","@);
    }
    match blocker {
        PinAskBlocker::BatchTaint => {
            let mut q = "The pinned preset '".to_owned();
            q.append(pinned);
            q.append("' is not cleared for this turn's new data (labeled ");
            q.append(egress::label_display_name(batch).as_str());
            q.append(
                "). The gateway will not silently run it on another model. Choose: declassify this root session to the remote model,",
            );
            q.append(clause.as_str());
            q.append(comma.as_str());
            q.append(" or abort this turn.");
            q
        },
        PinAskBlocker::ProviderConstraint => {
            let mut q =
                "This room is pinned local (session provider_constraint), so the pinned preset '".to_owned();
            q.append(pinned);
            q.append(
                "' cannot run this turn. The gateway will not silently run it on another model. Choose:",
            );
            q.append(clause.as_str());
            q.append(
                " or abort this turn. Declassification is not offered — the room pin outranks it; lift the pin itself (`/private`) to use '",
            );
            q.append(pinned);
            q.append("' again.");
            q
        },
    }
}

/// The context of an ask survives being written and read.
proof fn lemma_ask_context(
    batch: EgressLabel,
    pinned: Seq<char>,
    local: Option<&PresetCandidate>,
    blocker: PinAskBlocker,
)
    ensures
        json::rereadable(ask_context(batch, pinned, local, blocker), 100),
        json::field(ask_context(batch, pinned, local, blocker), "egress_pin_ask"@) == Some(
            json::JsonView::Bool(true),
        ),
{
    reveal_strlit("egress_pin_ask");
    reveal_strlit("batch");
    reveal_strlit("pinned_preset");
    reveal_strlit("local_preset");
    reveal_strlit("blocker");
    let m = ask_context(batch, pinned, local, blocker)->Object_0;
    assert("pinned_preset"@[0] == 'p');
    assert("local_preset"@[0] == 'l');
    assert(m[0].key.len() == 14 && m[1].key.len() == 5 && m[2].key.len() == 13 && m[3].key.len()
        == 12 && m[4].key.len() == 7);
    let items = egress_events::label_json(batch)->List_0;
    assert(json::rereadable(egress_events::label_json(batch), 99)) by {
        assert forall|i: int| 0 <= i < items.len() implies json::rereadable(
            #[trigger] items[i],
            98,
        ) by {
            assert(items[i] is Text);
        }
    }
    assert forall|i: int| 0 <= i < m.len() implies json::rereadable((#[trigger] m[i]).value, 99) by {
        if i == 1 {
            assert(m[i].value == egress_events::label_json(batch));
        }
    }
}

/// Puts a pinned preset that is not cleared before the operator: to declassify,
/// to run this turn locally, or to abort. An ask that is pending already is used
/// again; `pending` is `None` where the pending interactions could not be read.
/// `unique` makes the id of a new ask, which is recognized as such when it is read
/// again.
pub fn file_egress_pin_ask(
    pending: Option<&Vec<UserInteraction>>,
    unique: &str,
    session_id: &str,
    root_session_id: &str,
    agent_id: &str,
    turn_id: &str,
    batch: &EgressLabel,
    pinned_preset: &str,
    local_preset: Option<&PresetCandidate>,
    blocker: PinAskBlocker,
) -> (r: PinAsk)
    ensures
        match (
            r,
            match pending {
                Some(p) => first_ask(p@),
                None => None,
            },
        ) {
            (PinAsk::Reuse(id), Some(found)) => id@ == found,
            (PinAsk::File(it), None) => is_new_ask(
                it,
                "ui-"@ + unique@,
                session_id@,
                root_session_id@,
                agent_id@,
                turn_id@,
                *batch,
                pinned_preset@,
                local_preset,
                blocker,
            ) && is_ask_tree(context_tree(it.context.deep_view())) && clock::is_utc_text(
                it.created_at@,
            ),
            _ => false,
        },
{
    if let Some(p) = pending {
        let mut i: usize = 0;
        assert(p@.subrange(0, p@.len() as int) =~= p@);
        while i < p.len()
            invariant
                i <= p@.len(),
                pending == Some(p),
                first_ask(p@) == first_ask(p@.subrange(i as int, p@.len() as int)),
            decreases p@.len() - i,
        {
            proof {
                let rest = p@.subrange(i as int, p@.len() as int);
                assert(rest.subrange(1, rest.len() as int) =~= p@.subrange(
                    i + 1,
                    p@.len() as int,
                ));
            }
            if is_egress_pin_ask(&p[i]) {
                return PinAsk::Reuse(p[i].interaction_id.clone());
            }
            i = i + 1;
        }
    }
    let ids = egress_ask_options_payload(blocker, local_preset);
    let ghost offers = offered(blocker, local_preset is Some);
    let mut options: Vec<UserInteractionOption> = Vec::new();
    let mut i: usize = 0;
    while i < ids.len()
        invariant
            i <= ids@.len(),
            ids.deep_view() == offers,
            options@.len() == i,
            forall|k: int|
                0 <= k < i ==> (#[trigger] options@[k]).id@ == offers[k] && options@[k].value@
                    == offers[k] && options@[k].label@ == option_label(offers[k], local_preset),
        decreases ids@.len() - i,
    {
        assert(offers[i as int] == ids@[i as int]@);
        options.push(
            UserInteractionOption {
                id: ids[i].clone(),
                label: option_label_exec(ids[i].as_str(), local_preset),
                value: ids[i].clone(),
            },
        );
        i = i + 1;
    }
    assert(offers.len() == ids@.len());
    let mut f = Fields::new();
    f.flag("egress_pin_ask", true);
    f.put("batch", egress_events::label_to_json(batch));
    f.text("pinned_preset", pinned_preset);
    f.maybe(
        "local_preset",
        match local_preset {
            Some(c) => Some(c.name.as_str()),
            None => None,
        },
    );
    f.text(
        "blocker",
        match blocker {
            PinAskBlocker::BatchTaint => "batch_taint",
            PinAskBlocker::ProviderConstraint => "provider_constraint",
        },
    );
    let tree = f.object();
    let context = json::render_json(&tree);
    proof {
        let written = ask_context(*batch, pinned_preset@, local_preset, blocker);
        assert(tree@ == written);
        lemma_ask_context(*batch, pinned_preset@, local_preset, blocker);
        json::lemma_field_reads_back(
            written,
            json::parsed_json(context@)->Some_0,
            "egress_pin_ask"@,
        );
    }
    let mut interaction_id = "ui-".to_owned();
    interaction_id.append(unique);
    PinAsk::File(
        UserInteraction {
            interaction_id,
            session_id: session_id.to_owned(),
            root_session_id: root_session_id.to_owned(),
            agent_id: agent_id.to_owned(),
            turn_id: turn_id.to_owned(),
            question: ask_question_exec(batch, pinned_preset, local_preset, blocker),
            context: Some(context),
            options,
            allow_freeform: false,
            status: UserInteractionStatus::Pending,
            answer_option_id: None,
            answered_by: None,
            answered_at: None,
            created_at: clock::now_rfc3339(),
            checkpoint_turn_id: Some(turn_id.to_owned()),
        },
    )
}

/// While an ask of the root session is pending, no second one is filed.
pub proof fn a_pending_ask_is_reused(pending: Seq<UserInteraction>, i: int)
    requires
        0 <= i < pending.len(),
        is_ask_tree(context_tree(pending[i].context.deep_view())),
    ensures
        first_ask(pending) is Some,
    decreases pending.len(),
{
    if !is_ask_tree(context_tree(pending[0].context.deep_view())) {
        let rest = pending.subrange(1, pending.len() as int);
        assert(rest[i - 1] == pending[i]);
        a_pending_ask_is_reused(rest, i - 1);
    }
}

// ---------------------------------------------------------------------------
// Grants
// ---------------------------------------------------------------------------

/// A grant that lets a whole root session reach remote models.
#[derive(Debug)]
pub struct DeclassificationGrant {
    pub root_session_id: String,
    pub session_id: String,
    pub agent_id: String,
    pub target: EgressDeclassificationTarget,
    pub allowed_sink: Sink,
    pub granted_by: String,
    pub granted_at: String,
    pub source: String,
    /// What is recorded of the grant.
    pub notice: EgressNotice,
}

/// The notice of a grant that was materialized.
pub open spec fn declassified(
    target: Seq<char>,
    sink: Sink,
    scope: Seq<char>,
    approval: Option<Seq<char>>,
    reason: Seq<char>,
    expires_at: Option<Seq<char>>,
) -> egress_events::NoticeView {
    egress_events::NoticeView {
        action: "egress.declassified"@,
        target,
        payload: json::JsonView::Object(
            json::no_fields().push(
                json::entry(
                    "target"@,
                    json::JsonView::Object(
                        json::no_fields().push(
                            json::entry("source_pattern"@, json::JsonView::Text(target)),
                        ),
                    ),
                ),
            ).push(
                json::entry("allowed_sink"@, json::JsonView::Text(egress::sink_name(sink))),
            ).push(json::entry("scope"@, json::JsonView::Text(scope))).push(
                json::entry("source_approval_id"@, json::opt_text(approval)),
            ).push(json::entry("expires_at"@, json::opt_text(expires_at))).push(
                json::entry("reason"@, json::JsonView::Text(reason)),
            ),
        ),
        reason: "operator-approved egress declassification grant materialized"@,
    }
}

/// The notice of a grant that was materialized. It holds metadata alone.
pub fn declassified_notice(
    target: &EgressDeclassificationTarget,
    allowed_sink: Sink,
    scope: &str,
    source_approval_id: Option<&str>,
    reason: &str,
    expires_at: Option<&str>,
) -> (r: EgressNotice)
    ensures
        r@ == declassified(
            target@,
            allowed_sink,
            scope@,
            causal::opt_view(source_approval_id),
            reason@,
            causal::opt_view(expires_at),
        ),
{
    let mut t = Fields::new();
    t.text("source_pattern", target.value());
    let mut f = Fields::new();
    f.put("target", t.object());
    f.text("allowed_sink", egress::sink_str(allowed_sink));
    f.text("scope", scope);
    f.maybe("source_approval_id", source_approval_id);
    f.maybe("expires_at", expires_at);
    f.text("reason", reason);
    EgressNotice {
        action: "egress.declassified".to_owned(),
        target: target.value().to_owned(),
        payload: f.object(),
        reason: "operator-approved egress declassification grant materialized".to_owned(),
    }
}

/// An answered ask grants a declassification.
pub open spec fn grants(interaction: UserInteraction) -> bool {
    is_ask_tree(context_tree(interaction.context.deep_view()))
        && interaction.answer_option_id.deep_view() == Some(DECLASSIFY@)
}

/// The root session of an interaction.
pub open spec fn ask_root(interaction: UserInteraction) -> Seq<char> {
    if interaction.root_session_id@.len() == 0 {
        text::before_char(interaction.session_id@, '/')
    } else {
        interaction.root_session_id@
    }
}

/// The grant that an answered ask authorizes: only where the operator picked
/// to declassify, for the whole root session, with the interaction as its
/// source. Where the time of the answer is not recorded, it is the present time.
pub fn apply_egress_ask_declassification(interaction: &UserInteraction) -> (r: Option<
    DeclassificationGrant,
>)
    ensures
        r is Some <==> grants(*interaction),
        r matches Some(g) ==> {
            &&& g.root_session_id@ == ask_root(*interaction)
            &&& g.session_id@ == interaction.session_id@
            &&& g.agent_id@ == interaction.agent_id@
            &&& g.target@ == egress_boundary::session_target(ask_root(*interaction))
            &&& g.allowed_sink == Sink::RemoteModel
            &&& g.granted_by@ == (match interaction.answered_by {
                Some(s) => s@,
                None => "gateway"@,
            })
            &&& match interaction.answered_at {
                Some(t) => g.granted_at@ == t@,
                None => clock::is_utc_text(g.granted_at@),
            }
            &&& g.source@ == "interaction:"@ + interaction.interaction_id@
            &&& g.notice@ == declassified(
                g.target@,
                Sink::RemoteModel,
                "root_session"@,
                None,
                "operator answered egress pin×taint ask "@ + interaction.interaction_id@
                    + ": declassify to remote model"@,
                None,
            )
        },
{
    if !is_egress_pin_ask(interaction) {
        return None;
    }
    match &interaction.answer_option_id {
        Some(a) => {
            if !text::text_eq(a.as_str(), DECLASSIFY) {
                return None;
            }
        },
        None => {
            return None;
        },
    }
    let root = if text::chars_of(interaction.root_session_id.as_str()).len() == 0 {
        content_store::root_session_id(interaction.session_id.as_str())
    } else {
        interaction.root_session_id.clone()
    };
    let target = egress_boundary::session_egress_declass_target(root.as_str());
    let mut reason = "operator answered egress pin×taint ask ".to_owned();
    reason.append(interaction.interaction_id.as_str());
    reason.append(": declassify to remote model");
    let mut source = "interaction:".to_owned();
    source.append(interaction.interaction_id.as_str());
    let notice = declassified_notice(
        &target,
        Sink::RemoteModel,
        "root_session",
        None,
        reason.as_str(),
        None,
    );
    Some(
        DeclassificationGrant {
            root_session_id: root,
            session_id: interaction.session_id.clone(),
            agent_id: interaction.agent_id.clone(),
            target,
            allowed_sink: Sink::RemoteModel,
            granted_by: match &interaction.answered_by {
                Some(s) => s.clone(),
                None => "gateway".to_owned(),
            },
            granted_at: match &interaction.answered_at {
                Some(t) => t.clone(),
                None => clock::now_rfc3339(),
            },
            source,
            notice,
        },
    )
}

// ---------------------------------------------------------------------------
// Laws of offers and asks
// ---------------------------------------------------------------------------

/// The offer that is found again is the first pending one that offers remote models to
/// everything of the root session; one to another session or of another sink is none.
pub proof fn the_first_matching_offer_is_reused(
    pending: Seq<PendingDeclassify>,
    i: int,
    root: Seq<char>,
)
    requires
        0 <= i <= pending.len(),
        forall|k: int|
            0 <= k < i ==> (#[trigger] pending[k]).target@ != "session:"@ + root
                || pending[k].allowed_sink != Sink::RemoteModel,
        i < pending.len() ==> pending[i].target@ == "session:"@ + root && pending[i].allowed_sink
            == Sink::RemoteModel,
    ensures
        i < pending.len() ==> first_offer(pending, root) == Some(pending[i].request_id@),
        i == pending.len() ==> first_offer(pending, root) is None,
    decreases pending.len(),
{
    if i > 0 {
        assert(!offers_remote(pending[0], root));
        let rest = pending.subrange(1, pending.len() as int);
        assert forall|k: int| 0 <= k < i - 1 implies (#[trigger] rest[k]).target@ != "session:"@ + root
            || rest[k].allowed_sink != Sink::RemoteModel by {
            assert(rest[k] == pending[k + 1]);
        }
        the_first_matching_offer_is_reused(rest, i - 1, root);
    }
}

/// The ask that is found again is the first pending interaction whose context is marked as
/// one.
pub proof fn the_first_marked_ask_is_reused(pending: Seq<UserInteraction>, i: int)
    requires
        0 <= i <= pending.len(),
        forall|k: int| 0 <= k < i ==> !is_marked_ask(#[trigger] pending[k]),
        i < pending.len() ==> is_marked_ask(pending[i]),
    ensures
        i < pending.len() ==> first_ask(pending) == Some(pending[i].interaction_id@),
        i == pending.len() ==> first_ask(pending) is None,
    decreases pending.len(),
{
    if i > 0 {
        assert(!is_marked_ask(pending[0]));
        let rest = pending.subrange(1, pending.len() as int);
        assert forall|k: int| 0 <= k < i - 1 implies !is_marked_ask(#[trigger] rest[k]) by {
            assert(rest[k] == pending[k + 1]);
        }
        the_first_marked_ask_is_reused(rest, i - 1);
    }
}

/// The context of an interaction is JSON whose field `egress_pin_ask` is true.
pub open spec fn is_marked_ask(it: UserInteraction) -> bool {
    it.context is Some && json::parsed_json(it.context->Some_0@) is Some && json::field(
        json::parsed_json(it.context->Some_0@)->Some_0,
        "egress_pin_ask"@,
    ) == Some(json::JsonView::Bool(true))
}

/// An answer grants a declassification exactly where it answers such an ask with
/// `declassify`.
pub proof fn only_declassify_answers_grant(it: UserInteraction)
    ensures
        grants(it) <==> is_marked_ask(it) && it.answer_option_id is Some
            && it.answer_option_id->Some_0@ == "declassify"@,
{
}

/// A grant goes to the root session that the interaction names, or else to that of its
/// session.
pub proof fn grants_go_to_the_root(it: UserInteraction)
    ensures
        it.root_session_id@.len() > 0 ==> ask_root(it) == it.root_session_id@,
        it.root_session_id@.len() == 0 ==> ask_root(it) == text::before_char(it.session_id@, '/'),
{
}

/// The options of an ask are `declassify` where the data is what blocks the preset,
/// `run_local` where there is a local preset, and always `abort`, in this order.
pub proof fn options_are_offered_in_order(blocker: PinAskBlocker, has_local: bool)
    ensures
        offered(PinAskBlocker::BatchTaint, true) == seq!["declassify"@, "run_local"@, "abort"@],
        offered(PinAskBlocker::BatchTaint, false) == seq!["declassify"@, "abort"@],
        offered(PinAskBlocker::ProviderConstraint, true) == seq!["run_local"@, "abort"@],
        offered(PinAskBlocker::ProviderConstraint, false) == seq!["abort"@],
{
    assert(offered(PinAskBlocker::BatchTaint, true) =~= seq![
        "declassify"@,
        "run_local"@,
        "abort"@,
    ]);
    assert(offered(PinAskBlocker::BatchTaint, false) =~= seq!["declassify"@, "abort"@]);
    assert(offered(PinAskBlocker::ProviderConstraint, true) =~= seq!["run_local"@, "abort"@]);
    assert(offered(PinAskBlocker::ProviderConstraint, false) =~= seq!["abort"@]);
}

/// The context of an ask marks it and tells the label, the pinned preset, the local preset
/// and what blocks.
pub proof fn asks_tell_what_they_are_about(
    batch: EgressLabel,
    pinned: Seq<char>,
    local: Option<&PresetCandidate>,
    blocker: PinAskBlocker,
)
    ensures
        ({
            let m = ask_context(batch, pinned, local, blocker)->Object_0;
            &&& ask_context(batch, pinned, local, blocker) is Object
            &&& m.contains(json::entry("egress_pin_ask"@, json::JsonView::Bool(true)))
            &&& m.contains(json::entry("batch"@, egress_events::label_json(batch)))
            &&& m.contains(json::entry("pinned_preset"@, json::JsonView::Text(pinned)))
            &&& local matches Some(c) ==> m.contains(
                json::entry("local_preset"@, json::JsonView::Text(c.name@)),
            )
            &&& blocker == PinAskBlocker::BatchTaint ==> m.contains(
                json::entry("blocker"@, json::JsonView::Text("batch_taint"@)),
            )
            &&& blocker == PinAskBlocker::ProviderConstraint ==> m.contains(
                json::entry("blocker"@, json::JsonView::Text("provider_constraint"@)),
            )
        }),
{
    let m = ask_context(batch, pinned, local, blocker)->Object_0;
    assert(m[0] == json::entry("egress_pin_ask"@, json::JsonView::Bool(true)));
    assert(m[1] == json::entry("batch"@, egress_events::label_json(batch)));
    assert(m[2] == json::entry("pinned_preset"@, json::JsonView::Text(pinned)));
    assert(m[3] == json::entry("local_preset"@, json::opt_text(local_name(local))));
    assert(m[4] == json::entry("blocker"@, json::JsonView::Text(blocker_name(blocker))));
}

/// The question of an ask names the pinned preset, and the local preset where one is
/// offered; where the data blocks, it names the label.
pub proof fn questions_name_the_choices(
    batch: EgressLabel,
    pinned: Seq<char>,
    local: Option<&PresetCandidate>,
    blocker: PinAskBlocker,
)
    ensures
        text::has_text(ask_question(batch, pinned, local, blocker), pinned),
        blocker == PinAskBlocker::BatchTaint ==> text::has_text(
            ask_question(batch, pinned, local, blocker),
            egress::display_name(batch),
        ),
        local matches Some(c) ==> text::has_text(
            ask_question(batch, pinned, local, blocker),
            c.name@,
        ),
{
    let q = ask_question(batch, pinned, local, blocker);
    let clause = run_local_clause(local);
    if let Some(c) = local {
        text::lemma_has_text_around(" run this turn on the local preset '"@, c.name@, "'"@);
    }
    match blocker {
        PinAskBlocker::BatchTaint => {
            let a = "The pinned preset '"@;
            let b = "' is not cleared for this turn's new data (labeled "@;
            let n = egress::display_name(batch);
            let c =
                "). The gateway will not silently run it on another model. Choose: declassify this root session to the remote model,"@;
            let comma = if local is Some {
                ","@
            } else {
                Seq::empty()
            };
            let e = " or abort this turn."@;
            assert(q == a + pinned + b + n + c + clause + comma + e);
            lemma_five(a, pinned, b, n, c, clause, comma, e);
            if let Some(l) = local {
                text::lemma_has_text_trans(q, clause, l.name@);
            }
        },
        PinAskBlocker::ProviderConstraint => {
            let a = "This room is pinned local (session provider_constraint), so the pinned preset '"@;
            let b =
                "' cannot run this turn. The gateway will not silently run it on another model. Choose:"@;
            let c =
                " or abort this turn. Declassification is not offered — the room pin outranks it; lift the pin itself (`/private`) to use '"@;
            let d = "' again."@;
            assert(q == a + pinned + b + clause + c + pinned + d);
            let none = Seq::<char>::empty();
            lemma_five(a, pinned, b, clause, c, pinned, d, none);
            assert(a + pinned + b + clause + c + pinned + d + none =~= q);
            if let Some(l) = local {
                text::lemma_has_text_trans(q, clause, l.name@);
            }
        },
    }
}

proof fn lemma_five(
    a: Seq<char>,
    b: Seq<char>,
    c: Seq<char>,
    d: Seq<char>,
    e: Seq<char>,
    f: Seq<char>,
    g: Seq<char>,
    h: Seq<char>,
)
    ensures
        text::has_text(a + b + c + d + e + f + g + h, b),
        text::has_text(a + b + c + d + e + f + g + h, d),
        text::has_text(a + b + c + d + e + f + g + h, f),
{
    let all = a + b + c + d + e + f + g + h;
    let x = c + d + e + f + g + h;
    let y = e + f + g + h;
    text::lemma_has_text_around(a, b, x);
    assert(a + b + x =~= all);
    text::lemma_has_text_around(a + b + c, d, y);
    assert(a + b + c + d + y =~= all);
    text::lemma_has_text_around(a + b + c + d + e, f, g + h);
    assert(a + b + c + d + e + f + (g + h) =~= all);
}

/// The option to run locally names the local preset, and each option says what it does.
pub proof fn options_say_what_they_do(local: Option<&PresetCandidate>)
    ensures
        option_label("declassify"@, local) == "Declassify this root session to the remote model"@,
        local matches Some(c) ==> text::has_text(option_label("run_local"@, local), c.name@),
        option_label("abort"@, local) == "Abort this turn"@,
{
    reveal_strlit("declassify");
    reveal_strlit("run_local");
    reveal_strlit("abort");
    assert("declassify"@.len() == 10 && "run_local"@.len() == 9 && "abort"@.len() == 5);
    if let Some(c) = local {
        text::lemma_has_text_around("Run this turn on the local preset '"@, c.name@, "'"@);
    }
}

/// The record of a declassification tells its target, its sink, its scope and the approval.
pub proof fn declassifications_are_told(
    target: Seq<char>,
    sink: Sink,
    scope: Seq<char>,
    approval: Seq<char>,
    reason: Seq<char>,
    expires_at: Option<Seq<char>>,
)
    ensures
        ({
            let n = declassified(target, sink, scope, Some(approval), reason, expires_at);
            let m = n.payload->Object_0;
            &&& n.action == "egress.declassified"@
            &&& n.target == target
            &&& m.contains(
                json::entry("allowed_sink"@, json::JsonView::Text(egress::sink_name(sink))),
            )
            &&& m.contains(json::entry("scope"@, json::JsonView::Text(scope)))
            &&& m.contains(json::entry("source_approval_id"@, json::JsonView::Text(approval)))
            &&& m.contains(json::entry("reason"@, json::JsonView::Text(reason)))
            &&& expires_at matches Some(e) ==> m.contains(
                json::entry("expires_at"@, json::JsonView::Text(e)),
            )
        }),
{
    let m = declassified(
        target,
        sink,
        scope,
        Some(approval),
        reason,
        expires_at,
    ).payload->Object_0;
    assert(m[1] == json::entry("allowed_sink"@, json::JsonView::Text(egress::sink_name(sink))));
    assert(m[2] == json::entry("scope"@, json::JsonView::Text(scope)));
    assert(m[3] == json::entry("source_approval_id"@, json::JsonView::Text(approval)));
    assert(m[4] == json::entry("expires_at"@, json::opt_text(expires_at)));
    assert(m[5] == json::entry("reason"@, json::JsonView::Text(reason)));
}

/// A new ask waits for one of its options and for nothing else, under its session, agent and
/// turn.
pub proof fn new_asks_wait_for_an_answer(
    it: UserInteraction,
    interaction_id: Seq<char>,
    session_id: Seq<char>,
    root_session_id: Seq<char>,
    agent_id: Seq<char>,
    turn_id: Seq<char>,
    batch: EgressLabel,
    pinned: Seq<char>,
    local: Option<&PresetCandidate>,
    blocker: PinAskBlocker,
)
    requires
        is_new_ask(
            it,
            interaction_id,
            session_id,
            root_session_id,
            agent_id,
            turn_id,
            batch,
            pinned,
            local,
            blocker,
        ),
    ensures
        it.interaction_id@ == interaction_id,
        it.session_id@ == session_id,
        it.root_session_id@ == root_session_id,
        it.agent_id@ == agent_id,
        it.turn_id@ == turn_id,
        it.status == UserInteractionStatus::Pending,
        it.answer_option_id is None,
        it.answered_by is None,
        it.answered_at is None,
        !it.allow_freeform,
        it.checkpoint_turn_id is Some && it.checkpoint_turn_id->Some_0@ == turn_id,
        text::has_text(it.question@, pinned),
        blocker == PinAskBlocker::BatchTaint ==> it.options@.len() == (if local is Some {
            3int
        } else {
            2
        }) && it.options@[0].id@ == "declassify"@,
        it.options@.len() > 0 && it.options@.last().id@ == "abort"@,
        local is Some ==> it.options@.len() > 1 && it.options@[it.options@.len() - 2].id@
            == "run_local"@,
{
    questions_name_the_choices(batch, pinned, local, blocker);
    options_are_offered_in_order(blocker, local is Some);
    let ids = offered(blocker, local is Some);
    let n = ids.len() as int;
    assert(it.options@[0].id@ == ids[0]);
    assert(it.options@[n - 1].id@ == ids[n - 1]);
    if local is Some {
        assert(it.options@[n - 2].id@ == ids[n - 2]);
    }
}

/// The offer of a declassification names the label of the data that was refused.
pub proof fn offers_name_the_label(batch: EgressLabel)
    ensures
        text::has_text(offer_reason(batch), egress::display_name(batch)),
{
    text::lemma_has_text_around(
        "turn refused (egress_no_eligible_provider): this turn's new data is labeled "@,
        egress::display_name(batch),
        " and no configured preset is cleared for it. Approving declassifies this root session to RemoteModel (session-wide); reject to keep it local-only."@,
    );
}

/// The record of a declassification names the content that it is about.
pub proof fn declassifications_name_the_content(
    target: Seq<char>,
    sink: Sink,
    scope: Seq<char>,
    approval: Option<Seq<char>>,
    reason: Seq<char>,
    expires_at: Option<Seq<char>>,
)
    ensures
        ({
            let n = declassified(target, sink, scope, approval, reason, expires_at);
            let about = json::field(n.payload, "target"@);
            about is Some && about->Some_0 is Object && about->Some_0->Object_0.contains(
                json::entry("source_pattern"@, json::JsonView::Text(target)),
            )
        }),
{
    let n = declassified(target, sink, scope, approval, reason, expires_at);
    json::fields_are_read_by_their_key(n.payload->Object_0, 0, "target"@);
    let about = json::field(n.payload, "target"@)->Some_0->Object_0;
    assert(about[0] == json::entry("source_pattern"@, json::JsonView::Text(target)));
}

} // verus!
