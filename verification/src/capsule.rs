//! State capsules.
//!
//! A capsule is the structured memory that survives compression: the
//! objective, the decisions with their rationale, the identifiers in use and
//! the tasks. Each compression evolves it by a delta that a model extracts
//! from the turns about to be summarized.

use crate::clock;
use crate::content_store;
use crate::content_store::{ContentStore, ContentVisibility};
use crate::egress::push_name;
use crate::llm;
use crate::llm::{Message, Role};
use crate::text;
use vstd::prelude::*;

verus! {

// ---------------------------------------------------------------------------
// Data
// ---------------------------------------------------------------------------

/// A decision and why it was made.
#[derive(Debug)]
pub struct CapsuleDecision {
    pub turn: u64,
    pub summary: String,
    pub rationale: String,
    pub referenced_ids: Vec<String>,
}

/// The mathematical model of a [`CapsuleDecision`].
pub struct DecisionView {
    pub turn: u64,
    pub summary: Seq<char>,
    pub rationale: Seq<char>,
    pub referenced_ids: Seq<Seq<char>>,
}

impl View for CapsuleDecision {
    type V = DecisionView;

    open spec fn view(&self) -> DecisionView {
        DecisionView {
            turn: self.turn,
            summary: self.summary@,
            rationale: self.rationale@,
            referenced_ids: self.referenced_ids.deep_view(),
        }
    }
}

impl Clone for CapsuleDecision {
    fn clone(&self) -> (r: CapsuleDecision)
        ensures
            r@ == self@,
    {
        CapsuleDecision {
            turn: self.turn,
            summary: self.summary.clone(),
            rationale: self.rationale.clone(),
            referenced_ids: text::clone_all(&self.referenced_ids),
        }
    }
}

/// An identifier that later turns refer to.
#[derive(Debug)]
pub struct StableIdentifier {
    pub category: String,
    pub value: String,
    pub label: Option<String>,
    pub first_seen_turn: u64,
}

/// The mathematical model of a [`StableIdentifier`].
pub struct IdentifierView {
    pub category: Seq<char>,
    pub value: Seq<char>,
    pub label: Option<Seq<char>>,
    pub first_seen_turn: u64,
}

impl View for StableIdentifier {
    type V = IdentifierView;

    open spec fn view(&self) -> IdentifierView {
        IdentifierView {
            category: self.category@,
            value: self.value@,
            label: self.label.deep_view(),
            first_seen_turn: self.first_seen_turn,
        }
    }
}

impl Clone for StableIdentifier {
    fn clone(&self) -> (r: StableIdentifier)
        ensures
            r@ == self@,
    {
        StableIdentifier {
            category: self.category.clone(),
            value: self.value.clone(),
            label: text::clone_opt(&self.label),
            first_seen_turn: self.first_seen_turn,
        }
    }
}

/// A task, open or done.
#[derive(Debug)]
pub struct CapsuleTask {
    pub description: String,
    pub status: String,
    pub added_turn: u64,
    pub completed_turn: Option<u64>,
    pub blocker: Option<String>,
}

/// The mathematical model of a [`CapsuleTask`].
pub struct TaskView {
    pub description: Seq<char>,
    pub status: Seq<char>,
    pub added_turn: u64,
    pub completed_turn: Option<u64>,
    pub blocker: Option<Seq<char>>,
}

impl View for CapsuleTask {
    type V = TaskView;

    open spec fn view(&self) -> TaskView {
        TaskView {
            description: self.description@,
            status: self.status@,
            added_turn: self.added_turn,
            completed_turn: self.completed_turn,
            blocker: self.blocker.deep_view(),
        }
    }
}

impl Clone for CapsuleTask {
    fn clone(&self) -> (r: CapsuleTask)
        ensures
            r@ == self@,
    {
        CapsuleTask {
            description: self.description.clone(),
            status: self.status.clone(),
            added_turn: self.added_turn,
            completed_turn: self.completed_turn,
            blocker: text::clone_opt(&self.blocker),
        }
    }
}

/// The structured memory of a session.
#[derive(Debug)]
pub struct StateCapsule {
    pub version: u64,
    pub session_id: String,
    pub last_update_turn: u64,
    pub objective_and_criteria: String,
    pub decisions_and_rationale: Vec<CapsuleDecision>,
    pub stable_identifiers: Vec<StableIdentifier>,
    pub open_tasks: Vec<CapsuleTask>,
    /// The decisions that were last capped out, one per line.
    pub prior_decisions_summary: Option<String>,
    /// Content handle of the version that this one descends from.
    pub previous_version_handle: Option<String>,
    /// Content handle of this version.
    pub source_history_handle: Option<String>,
    pub updated_at: String,
}

/// The mathematical model of a [`StateCapsule`].
pub struct CapsuleView {
    pub version: u64,
    pub session_id: Seq<char>,
    pub last_update_turn: u64,
    pub objective_and_criteria: Seq<char>,
    pub decisions_and_rationale: Seq<DecisionView>,
    pub stable_identifiers: Seq<IdentifierView>,
    pub open_tasks: Seq<TaskView>,
    pub prior_decisions_summary: Option<Seq<char>>,
    pub previous_version_handle: Option<Seq<char>>,
    pub source_history_handle: Option<Seq<char>>,
    pub updated_at: Seq<char>,
}

/// The models of a list of decisions.
pub open spec fn decisions(v: Seq<CapsuleDecision>) -> Seq<DecisionView> {
    v.map_values(|d: CapsuleDecision| d@)
}

/// The models of a list of identifiers.
pub open spec fn identifiers(v: Seq<StableIdentifier>) -> Seq<IdentifierView> {
    v.map_values(|d: StableIdentifier| d@)
}

/// The models of a list of tasks.
pub open spec fn tasks(v: Seq<CapsuleTask>) -> Seq<TaskView> {
    v.map_values(|d: CapsuleTask| d@)
}

impl View for StateCapsule {
    type V = CapsuleView;

    open spec fn view(&self) -> CapsuleView {
        CapsuleView {
            version: self.version,
            session_id: self.session_id@,
            last_update_turn: self.last_update_turn,
            objective_and_criteria: self.objective_and_criteria@,
            decisions_and_rationale: decisions(self.decisions_and_rationale@),
            stable_identifiers: identifiers(self.stable_identifiers@),
            open_tasks: tasks(self.open_tasks@),
            prior_decisions_summary: self.prior_decisions_summary.deep_view(),
            previous_version_handle: self.previous_version_handle.deep_view(),
            source_history_handle: self.source_history_handle.deep_view(),
            updated_at: self.updated_at@,
        }
    }
}

fn clone_decisions(v: &Vec<CapsuleDecision>) -> (r: Vec<CapsuleDecision>)
    ensures
        decisions(r@) == decisions(v@),
{
    let r = v.clone();
    assert(decisions(r@) =~= decisions(v@));
    r
}

fn clone_identifiers(v: &Vec<StableIdentifier>) -> (r: Vec<StableIdentifier>)
    ensures
        identifiers(r@) == identifiers(v@),
{
    let r = v.clone();
    assert(identifiers(r@) =~= identifiers(v@));
    r
}

fn clone_tasks(v: &Vec<CapsuleTask>) -> (r: Vec<CapsuleTask>)
    ensures
        tasks(r@) == tasks(v@),
{
    let r = v.clone();
    assert(tasks(r@) =~= tasks(v@));
    r
}

impl Clone for StateCapsule {
    fn clone(&self) -> (r: StateCapsule)
        ensures
            r@ == self@,
    {
        StateCapsule {
            version: self.version,
            session_id: self.session_id.clone(),
            last_update_turn: self.last_update_turn,
            objective_and_criteria: self.objective_and_criteria.clone(),
            decisions_and_rationale: clone_decisions(&self.decisions_and_rationale),
            stable_identifiers: clone_identifiers(&self.stable_identifiers),
            open_tasks: clone_tasks(&self.open_tasks),
            prior_decisions_summary: text::clone_opt(&self.prior_decisions_summary),
            previous_version_handle: text::clone_opt(&self.previous_version_handle),
            source_history_handle: text::clone_opt(&self.source_history_handle),
            updated_at: self.updated_at.clone(),
        }
    }
}

/// A change to the tasks.
#[derive(Debug)]
pub enum CapsuleTaskUpdate {
    Add(CapsuleTask),
    Complete { description: String, turn: u64 },
    Block { description: String, blocker: String },
    Remove { description: String },
}

/// What the recent turns change in a capsule.
#[derive(Debug)]
pub struct CapsuleDelta {
    pub objective_update: Option<String>,
    pub new_decisions: Vec<CapsuleDecision>,
    pub new_identifiers: Vec<StableIdentifier>,
    pub task_updates: Vec<CapsuleTaskUpdate>,
}

/// Why a capsule could not be evolved.
#[derive(Debug)]
pub enum CapsuleError {
    /// A decision refers to an approval that the delta does not preserve.
    UnpreservedApproval { id: String },
}

/// The message of an error.
pub open spec fn error_message(e: CapsuleError) -> Seq<char> {
    match e {
        CapsuleError::UnpreservedApproval { id } => "Approval ID '"@ + id@
            + "' referenced in decision but not preserved in stable_identifiers"@,
    }
}

impl CapsuleError {
    pub fn message(&self) -> (r: String)
        ensures
            r@ == error_message(*self),
    {
        match self {
            CapsuleError::UnpreservedApproval { id } => {
                let mut s = "Approval ID '".to_owned();
                s.append(id.as_str());
                s.append("' referenced in decision but not preserved in stable_identifiers");
                s
            },
        }
    }
}

// ---------------------------------------------------------------------------
// Approvals
// ---------------------------------------------------------------------------

/// The identifiers hold one of this value.
pub open spec fn preserves(ids: Seq<IdentifierView>, value: Seq<char>) -> bool {
    exists|k: int| 0 <= k < ids.len() && (#[trigger] ids[k]).value == value
}

/// `id` names an approval that the identifiers do not hold.
pub open spec fn is_unpreserved(ids: Seq<IdentifierView>, id: Seq<char>) -> bool {
    text::begins_with(id, "appr_"@) && !preserves(ids, id)
}

/// The first of `refs` that is an approval not preserved in `ids`.
pub open spec fn unpreserved_ref(refs: Seq<Seq<char>>, ids: Seq<IdentifierView>) -> Option<Seq<char>>
    decreases refs.len(),
{
    if refs.len() == 0 {
        None
    } else if is_unpreserved(ids, refs[0]) {
        Some(refs[0])
    } else {
        unpreserved_ref(refs.subrange(1, refs.len() as int), ids)
    }
}

/// The first approval that the decisions refer to and `ids` does not preserve.
pub open spec fn unpreserved(ds: Seq<DecisionView>, ids: Seq<IdentifierView>) -> Option<Seq<char>>
    decreases ds.len(),
{
    if ds.len() == 0 {
        None
    } else {
        match unpreserved_ref(ds[0].referenced_ids, ids) {
            Some(id) => Some(id),
            None => unpreserved(ds.subrange(1, ds.len() as int), ids),
        }
    }
}

fn preserves_exec(ids: &Vec<StableIdentifier>, value: &str) -> (r: bool)
    ensures
        r == preserves(identifiers(ids@), value@),
{
    let ghost views = identifiers(ids@);
    let mut i: usize = 0;
    while i < ids.len()
        invariant
            views == identifiers(ids@),
            i <= ids@.len(),
            forall|k: int| 0 <= k < i ==> (#[trigger] views[k]).value != value@,
        decreases ids@.len() - i,
    {
        assert(views[i as int] == ids@[i as int]@);
        if text::text_eq(ids[i].value.as_str(), value) {
            return true;
        }
        i = i + 1;
    }
    false
}

fn unpreserved_ref_exec(refs: &Vec<String>, ids: &Vec<StableIdentifier>) -> (r: Option<String>)
    ensures
        r.deep_view() == unpreserved_ref(refs.deep_view(), identifiers(ids@)),
{
    let ghost views = refs.deep_view();
    let ghost iv = identifiers(ids@);
    let mut i: usize = 0;
    assert(views.subrange(0, views.len() as int) =~= views);
    while i < refs.len()
        invariant
            views == refs.deep_view(),
            iv == identifiers(ids@),
            i <= refs@.len(),
            unpreserved_ref(views, iv) == unpreserved_ref(
                views.subrange(i as int, views.len() as int),
                iv,
            ),
        decreases refs@.len() - i,
    {
        let ghost rest = views.subrange(i as int, views.len() as int);
        assert(rest[0] == refs@[i as int]@);
        assert(rest.subrange(1, rest.len() as int) =~= views.subrange(i + 1, views.len() as int));
        if text::starts_with(refs[i].as_str(), "appr_") && !preserves_exec(ids, refs[i].as_str()) {
            return Some(refs[i].clone());
        }
        i = i + 1;
    }
    None
}

/// Checks that the delta preserves every approval that its decisions refer to.
pub fn validate_delta_approvals(delta: &CapsuleDelta, _turn_number: u64) -> (r: Result<
    (),
    CapsuleError,
>)
    ensures
        match r {
            Ok(_) => unpreserved(
                decisions(delta.new_decisions@),
                identifiers(delta.new_identifiers@),
            ) is None,
            Err(CapsuleError::UnpreservedApproval { id }) => unpreserved(
                decisions(delta.new_decisions@),
                identifiers(delta.new_identifiers@),
            ) == Some(id@),
        },
{
    let ghost ds = decisions(delta.new_decisions@);
    let ghost iv = identifiers(delta.new_identifiers@);
    let mut i: usize = 0;
    assert(ds.subrange(0, ds.len() as int) =~= ds);
    while i < delta.new_decisions.len()
        invariant
            ds == decisions(delta.new_decisions@),
            iv == identifiers(delta.new_identifiers@),
            i <= delta.new_decisions@.len(),
            unpreserved(ds, iv) == unpreserved(ds.subrange(i as int, ds.len() as int), iv),
        decreases delta.new_decisions@.len() - i,
    {
        let ghost rest = ds.subrange(i as int, ds.len() as int);
        assert(rest[0] == delta.new_decisions@[i as int]@);
        assert(rest.subrange(1, rest.len() as int) =~= ds.subrange(i + 1, ds.len() as int));
        match unpreserved_ref_exec(&delta.new_decisions[i].referenced_ids, &delta.new_identifiers) {
            Some(id) => {
                return Err(CapsuleError::UnpreservedApproval { id });
            },
            None => {},
        }
        i = i + 1;
    }
    Ok(())
}

// ---------------------------------------------------------------------------
// Evolving a capsule
// ---------------------------------------------------------------------------

/// A decision of the same turn and summary is known.
pub open spec fn decision_known(ds: Seq<DecisionView>, d: DecisionView) -> bool {
    exists|k: int|
        0 <= k < ds.len() && (#[trigger] ds[k]).turn == d.turn && ds[k].summary == d.summary
}

/// The decisions of `new` that are not known in `ds`.
pub open spec fn unknown_decisions(ds: Seq<DecisionView>, new: Seq<DecisionView>) -> Seq<DecisionView>
    decreases new.len(),
{
    if new.len() == 0 {
        Seq::empty()
    } else {
        let before = unknown_decisions(ds, new.drop_last());
        if decision_known(ds, new.last()) {
            before
        } else {
            before.push(new.last())
        }
    }
}

/// An identifier of the same category and value is known.
pub open spec fn identifier_known(ids: Seq<IdentifierView>, d: IdentifierView) -> bool {
    exists|k: int|
        0 <= k < ids.len() && (#[trigger] ids[k]).category == d.category && ids[k].value == d.value
}

/// The identifiers of `new` that are not known in `ids`.
pub open spec fn unknown_identifiers(
    ids: Seq<IdentifierView>,
    new: Seq<IdentifierView>,
) -> Seq<IdentifierView>
    decreases new.len(),
{
    if new.len() == 0 {
        Seq::empty()
    } else {
        let before = unknown_identifiers(ids, new.drop_last());
        if identifier_known(ids, new.last()) {
            before
        } else {
            before.push(new.last())
        }
    }
}

/// The first position at or after `from` of a task of this description.
pub open spec fn task_position(ts: Seq<TaskView>, description: Seq<char>, from: int) -> Option<int>
    decreases ts.len() - from,
{
    if from < 0 || from >= ts.len() {
        None
    } else if ts[from].description == description {
        Some(from)
    } else {
        task_position(ts, description, from + 1)
    }
}

/// The tasks of another description.
pub open spec fn without_task(ts: Seq<TaskView>, description: Seq<char>) -> Seq<TaskView>
    decreases ts.len(),
{
    if ts.len() == 0 {
        Seq::empty()
    } else if ts.last().description == description {
        without_task(ts.drop_last(), description)
    } else {
        without_task(ts.drop_last(), description).push(ts.last())
    }
}

/// The tasks after one update. Completing and blocking change the first task
/// of the description, where there is one; removing removes all of them.
pub open spec fn task_updated(ts: Seq<TaskView>, u: CapsuleTaskUpdate) -> Seq<TaskView> {
    match u {
        CapsuleTaskUpdate::Add(t) => ts.push(t@),
        CapsuleTaskUpdate::Complete { description, turn } => match task_position(
            ts,
            description@,
            0,
        ) {
            Some(i) => ts.update(
                i,
                TaskView { status: "completed"@, completed_turn: Some(turn), ..ts[i] },
            ),
            None => ts,
        },
        CapsuleTaskUpdate::Block { description, blocker } => match task_position(
            ts,
            description@,
            0,
        ) {
            Some(i) => ts.update(i, TaskView { status: "blocked"@, blocker: Some(blocker@), ..ts[i] }),
            None => ts,
        },
        CapsuleTaskUpdate::Remove { description } => without_task(ts, description@),
    }
}

/// The tasks after the updates, taken in order.
pub open spec fn tasks_updated(ts: Seq<TaskView>, us: Seq<CapsuleTaskUpdate>) -> Seq<TaskView>
    decreases us.len(),
{
    if us.len() == 0 {
        ts
    } else {
        task_updated(tasks_updated(ts, us.drop_last()), us.last())
    }
}

/// The capsule that a delta leads to.
pub open spec fn evolved(c: CapsuleView, delta: CapsuleDelta, turn: u64, now: Seq<char>) -> CapsuleView {
    CapsuleView {
        version: (c.version + 1) as u64,
        last_update_turn: turn,
        objective_and_criteria: match delta.objective_update {
            Some(o) => if text::trim(o@).len() > 0 {
                o@
            } else {
                c.objective_and_criteria
            },
            None => c.objective_and_criteria,
        },
        decisions_and_rationale: c.decisions_and_rationale + unknown_decisions(
            c.decisions_and_rationale,
            decisions(delta.new_decisions@),
        ),
        stable_identifiers: c.stable_identifiers + unknown_identifiers(
            c.stable_identifiers,
            identifiers(delta.new_identifiers@),
        ),
        open_tasks: tasks_updated(c.open_tasks, delta.task_updates@),
        updated_at: now,
        ..c
    }
}

fn decision_known_exec(ds: &Vec<CapsuleDecision>, n: usize, d: &CapsuleDecision) -> (r: bool)
    requires
        n <= ds@.len(),
    ensures
        r == decision_known(decisions(ds@.subrange(0, n as int)), d@),
{
    let ghost views = decisions(ds@.subrange(0, n as int));
    let mut i: usize = 0;
    while i < n
        invariant
            n <= ds@.len(),
            views == decisions(ds@.subrange(0, n as int)),
            i <= n,
            forall|k: int|
                0 <= k < i ==> !((#[trigger] views[k]).turn == d@.turn && views[k].summary
                    == d@.summary),
        decreases n - i,
    {
        assert(views[i as int] == ds@[i as int]@);
        if ds[i].turn == d.turn && text::text_eq(ds[i].summary.as_str(), d.summary.as_str()) {
            return true;
        }
        i = i + 1;
    }
    false
}

fn identifier_known_exec(ids: &Vec<StableIdentifier>, n: usize, d: &StableIdentifier) -> (r: bool)
    requires
        n <= ids@.len(),
    ensures
        r == identifier_known(identifiers(ids@.subrange(0, n as int)), d@),
{
    let ghost views = identifiers(ids@.subrange(0, n as int));
    let mut i: usize = 0;
    while i < n
        invariant
            n <= ids@.len(),
            views == identifiers(ids@.subrange(0, n as int)),
            i <= n,
            forall|k: int|
                0 <= k < i ==> !((#[trigger] views[k]).category == d@.category && views[k].value
                    == d@.value),
        decreases n - i,
    {
        assert(views[i as int] == ids@[i as int]@);
        if text::text_eq(ids[i].category.as_str(), d.category.as_str()) && text::text_eq(
            ids[i].value.as_str(),
            d.value.as_str(),
        ) {
            return true;
        }
        i = i + 1;
    }
    false
}

fn add_decisions(ds: &mut Vec<CapsuleDecision>, new: &Vec<CapsuleDecision>)
    ensures
        decisions(final(ds)@) == decisions(old(ds)@) + unknown_decisions(
            decisions(old(ds)@),
            decisions(new@),
        ),
{
    let n = ds.len();
    let ghost start = ds@;
    let ghost nv = decisions(new@);
    let mut i: usize = 0;
    assert(ds@.subrange(0, n as int) =~= start);
    assert(decisions(start) + unknown_decisions(decisions(start), nv.subrange(0, 0)) =~= decisions(
        start,
    ));
    while i < new.len()
        invariant
            n == start.len(),
            n <= ds@.len(),
            ds@.subrange(0, n as int) == start,
            nv == decisions(new@),
            i <= new@.len(),
            decisions(ds@) == decisions(start) + unknown_decisions(
                decisions(start),
                nv.subrange(0, i as int),
            ),
        decreases new@.len() - i,
    {
        let ghost before = ds@;
        proof {
            let t = nv.subrange(0, i + 1);
            assert(t.drop_last() =~= nv.subrange(0, i as int));
            assert(t.last() == new@[i as int]@);
        }
        if !decision_known_exec(ds, n, &new[i]) {
            let d = new[i].clone();
            ds.push(d);
            assert(ds@.subrange(0, n as int) =~= before.subrange(0, n as int));
            assert(decisions(ds@) =~= decisions(before).push(d@));
            assert(decisions(ds@) =~= decisions(start) + unknown_decisions(
                decisions(start),
                nv.subrange(0, i + 1),
            ));
        }
        i = i + 1;
    }
    assert(nv.subrange(0, i as int) =~= nv);
}

fn add_identifiers(ids: &mut Vec<StableIdentifier>, new: &Vec<StableIdentifier>)
    ensures
        identifiers(final(ids)@) == identifiers(old(ids)@) + unknown_identifiers(
            identifiers(old(ids)@),
            identifiers(new@),
        ),
{
    let n = ids.len();
    let ghost start = ids@;
    let ghost nv = identifiers(new@);
    let mut i: usize = 0;
    assert(ids@.subrange(0, n as int) =~= start);
    assert(identifiers(start) + unknown_identifiers(identifiers(start), nv.subrange(0, 0))
        =~= identifiers(start));
    while i < new.len()
        invariant
            n == start.len(),
            n <= ids@.len(),
            ids@.subrange(0, n as int) == start,
            nv == identifiers(new@),
            i <= new@.len(),
            identifiers(ids@) == identifiers(start) + unknown_identifiers(
                identifiers(start),
                nv.subrange(0, i as int),
            ),
        decreases new@.len() - i,
    {
        let ghost before = ids@;
        proof {
            let t = nv.subrange(0, i + 1);
            assert(t.drop_last() =~= nv.subrange(0, i as int));
            assert(t.last() == new@[i as int]@);
        }
        if !identifier_known_exec(ids, n, &new[i]) {
            let d = new[i].clone();
            ids.push(d);
            assert(ids@.subrange(0, n as int) =~= before.subrange(0, n as int));
            assert(identifiers(ids@) =~= identifiers(before).push(d@));
            assert(identifiers(ids@) =~= identifiers(start) + unknown_identifiers(
                identifiers(start),
                nv.subrange(0, i + 1),
            ));
        }
        i = i + 1;
    }
    assert(nv.subrange(0, i as int) =~= nv);
}

fn find_task(ts: &Vec<CapsuleTask>, description: &str) -> (r: Option<usize>)
    ensures
        match r {
            Some(i) => task_position(tasks(ts@), description@, 0) == Some(i as int) && i < ts@.len(),
            None => task_position(tasks(ts@), description@, 0) is None,
        },
{
    let ghost views = tasks(ts@);
    let mut i: usize = 0;
    while i < ts.len()
        invariant
            views == tasks(ts@),
            i <= ts@.len(),
            task_position(views, description@, 0) == task_position(views, description@, i as int),
        decreases ts@.len() - i,
    {
        assert(views[i as int] == ts@[i as int]@);
        if text::text_eq(ts[i].description.as_str(), description) {
            return Some(i);
        }
        i = i + 1;
    }
    None
}

fn remove_tasks(ts: &Vec<CapsuleTask>, description: &str) -> (r: Vec<CapsuleTask>)
    ensures
        tasks(r@) == without_task(tasks(ts@), description@),
{
    let ghost views = tasks(ts@);
    let mut out: Vec<CapsuleTask> = Vec::new();
    let mut i: usize = 0;
    assert(tasks(out@) =~= Seq::<TaskView>::empty());
    while i < ts.len()
        invariant
            views == tasks(ts@),
            i <= ts@.len(),
            tasks(out@) == without_task(views.subrange(0, i as int), description@),
        decreases ts@.len() - i,
    {
        let ghost before = out@;
        proof {
            let t = views.subrange(0, i + 1);
            assert(t.drop_last() =~= views.subrange(0, i as int));
            assert(t.last() == ts@[i as int]@);
        }
        if !text::text_eq(ts[i].description.as_str(), description) {
            let c = ts[i].clone();
            out.push(c);
            assert(tasks(out@) =~= tasks(before).push(c@));
        }
        i = i + 1;
    }
    assert(views.subrange(0, i as int) =~= views);
    out
}

fn update_task(ts: &mut Vec<CapsuleTask>, u: &CapsuleTaskUpdate)
    ensures
        tasks(final(ts)@) == task_updated(tasks(old(ts)@), *u),
{
    let ghost start = ts@;
    match u {
        CapsuleTaskUpdate::Add(t) => {
            let c = t.clone();
            ts.push(c);
            assert(tasks(ts@) =~= tasks(start).push(c@));
        },
        CapsuleTaskUpdate::Complete { description, turn } => {
            match find_task(ts, description.as_str()) {
                Some(i) => {
                    let mut t = ts[i].clone();
                    t.status = "completed".to_owned();
                    t.completed_turn = Some(*turn);
                    ts.set(i, t);
                    assert(tasks(ts@) =~= tasks(start).update(i as int, t@));
                },
                None => {},
            }
        },
        CapsuleTaskUpdate::Block { description, blocker } => {
            match find_task(ts, description.as_str()) {
                Some(i) => {
                    let mut t = ts[i].clone();
                    t.status = "blocked".to_owned();
                    t.blocker = Some(blocker.clone());
                    ts.set(i, t);
                    assert(tasks(ts@) =~= tasks(start).update(i as int, t@));
                },
                None => {},
            }
        },
        CapsuleTaskUpdate::Remove { description } => {
            *ts = remove_tasks(ts, description.as_str());
        },
    }
}

fn update_tasks(ts: &mut Vec<CapsuleTask>, us: &Vec<CapsuleTaskUpdate>)
    ensures
        tasks(final(ts)@) == tasks_updated(tasks(old(ts)@), us@),
{
    let ghost start = tasks(ts@);
    let mut i: usize = 0;
    while i < us.len()
        invariant
            i <= us@.len(),
            tasks(ts@) == tasks_updated(start, us@.subrange(0, i as int)),
        decreases us@.len() - i,
    {
        proof {
            let t = us@.subrange(0, i + 1);
            assert(t.drop_last() =~= us@.subrange(0, i as int));
            assert(t.last() == us@[i as int]);
        }
        update_task(ts, &us[i]);
        i = i + 1;
    }
    assert(us@.subrange(0, i as int) =~= us@);
}

/// Applies a delta to a capsule, at the time `now`.
pub fn apply_delta_at(capsule: &mut StateCapsule, delta: &CapsuleDelta, turn_number: u64, now: &str)
    requires
        old(capsule).version < u64::MAX,
    ensures
        final(capsule)@ == evolved(old(capsule)@, *delta, turn_number, now@),
{
    match &delta.objective_update {
        Some(o) => {
            if !text::is_blank(o.as_str()) {
                capsule.objective_and_criteria = o.clone();
            }
        },
        None => {},
    }
    add_decisions(&mut capsule.decisions_and_rationale, &delta.new_decisions);
    add_identifiers(&mut capsule.stable_identifiers, &delta.new_identifiers);
    update_tasks(&mut capsule.open_tasks, &delta.task_updates);
    capsule.version = capsule.version + 1;
    capsule.last_update_turn = turn_number;
    capsule.updated_at = now.to_owned();
}

/// Applies a delta to a capsule, at the present time. Nothing that a delta
/// holds makes this fail.
pub fn apply_delta(capsule: &mut StateCapsule, delta: CapsuleDelta, turn_number: u64) -> (r: Result<
    (),
    CapsuleError,
>)
    requires
        old(capsule).version < u64::MAX,
    ensures
        r is Ok,
        exists|now: Seq<char>|
            clock::is_utc_text(now) && final(capsule)@ == #[trigger] evolved(old(capsule)@, delta, turn_number, now),
{
    let now = clock::now_rfc3339();
    apply_delta_at(capsule, &delta, turn_number, now.as_str());
    Ok(())
}

/// Evolving a capsule keeps every decision and identifier that it held, and
/// applying the same additions again adds nothing.
pub proof fn evolution_keeps_and_never_repeats(
    c: CapsuleView,
    delta: CapsuleDelta,
    turn: u64,
    now: Seq<char>,
)
    ensures
        ({
            let e = evolved(c, delta, turn, now);
            &&& c.decisions_and_rationale.is_prefix_of(e.decisions_and_rationale)
            &&& c.stable_identifiers.is_prefix_of(e.stable_identifiers)
            &&& unknown_decisions(e.decisions_and_rationale, decisions(delta.new_decisions@))
                == Seq::<DecisionView>::empty()
            &&& unknown_identifiers(e.stable_identifiers, identifiers(delta.new_identifiers@))
                == Seq::<IdentifierView>::empty()
        }),
{
    let e = evolved(c, delta, turn, now);
    let nd = decisions(delta.new_decisions@);
    let ni = identifiers(delta.new_identifiers@);
    assert(e.decisions_and_rationale.subrange(0, c.decisions_and_rationale.len() as int)
        =~= c.decisions_and_rationale);
    assert(e.stable_identifiers.subrange(0, c.stable_identifiers.len() as int)
        =~= c.stable_identifiers);
    lemma_decisions_known(c.decisions_and_rationale, nd, nd);
    lemma_identifiers_known(c.stable_identifiers, ni, ni);
}

proof fn lemma_decisions_known(ds: Seq<DecisionView>, new: Seq<DecisionView>, part: Seq<DecisionView>)
    requires
        part.is_prefix_of(new),
    ensures
        unknown_decisions(ds + unknown_decisions(ds, new), part) == Seq::<DecisionView>::empty(),
    decreases part.len(),
{
    if part.len() > 0 {
        let all = ds + unknown_decisions(ds, new);
        assert(part.drop_last() =~= new.subrange(0, part.len() - 1));
        lemma_decisions_known(ds, new, part.drop_last());
        let i = part.len() - 1;
        assert(part.last() == new[i]);
        if decision_known(ds, new[i]) {
            let k = choose|k: int|
                0 <= k < ds.len() && (#[trigger] ds[k]).turn == new[i].turn && ds[k].summary
                    == new[i].summary;
            assert(all[k] == ds[k]);
        } else {
            lemma_decision_added(ds, new, i);
            let u = unknown_decisions(ds, new);
            let k = choose|k: int| 0 <= k < u.len() && #[trigger] u[k] == new[i];
            assert(all[ds.len() + k] == new[i]);
        }
        assert(decision_known(all, part.last()));
    }
}

proof fn lemma_decision_added(ds: Seq<DecisionView>, new: Seq<DecisionView>, i: int)
    requires
        0 <= i < new.len(),
        !decision_known(ds, new[i]),
    ensures
        exists|k: int|
            0 <= k < unknown_decisions(ds, new).len() && #[trigger] unknown_decisions(ds, new)[k]
                == new[i],
    decreases new.len(),
{
    let u = unknown_decisions(ds, new);
    let d = new.drop_last();
    let ud = unknown_decisions(ds, d);
    if i == new.len() - 1 {
        assert(u[u.len() - 1] == new[i]);
    } else {
        assert(d[i] == new[i]);
        lemma_decision_added(ds, d, i);
        let k = choose|k: int| 0 <= k < ud.len() && #[trigger] ud[k] == d[i];
        assert(u[k] == new[i]);
    }
}

proof fn lemma_identifiers_known(
    ids: Seq<IdentifierView>,
    new: Seq<IdentifierView>,
    part: Seq<IdentifierView>,
)
    requires
        part.is_prefix_of(new),
    ensures
        unknown_identifiers(ids + unknown_identifiers(ids, new), part)
            == Seq::<IdentifierView>::empty(),
    decreases part.len(),
{
    if part.len() > 0 {
        let all = ids + unknown_identifiers(ids, new);
        assert(part.drop_last() =~= new.subrange(0, part.len() - 1));
        lemma_identifiers_known(ids, new, part.drop_last());
        let i = part.len() - 1;
        assert(part.last() == new[i]);
        if identifier_known(ids, new[i]) {
            let k = choose|k: int|
                0 <= k < ids.len() && (#[trigger] ids[k]).category == new[i].category && ids[k].value
                    == new[i].value;
            assert(all[k] == ids[k]);
        } else {
            lemma_identifier_added(ids, new, i);
            let u = unknown_identifiers(ids, new);
            let k = choose|k: int| 0 <= k < u.len() && #[trigger] u[k] == new[i];
            assert(all[ids.len() + k] == new[i]);
        }
        assert(identifier_known(all, part.last()));
    }
}

proof fn lemma_identifier_added(ids: Seq<IdentifierView>, new: Seq<IdentifierView>, i: int)
    requires
        0 <= i < new.len(),
        !identifier_known(ids, new[i]),
    ensures
        exists|k: int|
            0 <= k < unknown_identifiers(ids, new).len() && #[trigger] unknown_identifiers(
                ids,
                new,
            )[k] == new[i],
    decreases new.len(),
{
    let u = unknown_identifiers(ids, new);
    let d = new.drop_last();
    let ud = unknown_identifiers(ids, d);
    if i == new.len() - 1 {
        assert(u[u.len() - 1] == new[i]);
    } else {
        assert(d[i] == new[i]);
        lemma_identifier_added(ids, d, i);
        let k = choose|k: int| 0 <= k < ud.len() && #[trigger] ud[k] == d[i];
        assert(u[k] == new[i]);
    }
}

// ---------------------------------------------------------------------------
// Seeding
// ---------------------------------------------------------------------------

/// The first capsule of a session, with this objective.
pub open spec fn first_capsule(
    session_id: Seq<char>,
    turn: u64,
    objective: Seq<char>,
    now: Seq<char>,
) -> CapsuleView {
    CapsuleView {
        version: 1,
        session_id,
        last_update_turn: turn,
        objective_and_criteria: objective,
        decisions_and_rationale: Seq::empty(),
        stable_identifiers: Seq::empty(),
        open_tasks: Seq::empty(),
        prior_decisions_summary: None,
        previous_version_handle: None,
        source_history_handle: None,
        updated_at: now,
    }
}

/// The content of the first message that holds a compression marker.
pub open spec fn marked_content(s: Seq<llm::MessageView>) -> Option<Seq<char>>
    decreases s.len(),
{
    if s.len() == 0 {
        None
    } else if text::has_text(s[0].content, "[COMPRESSED CONTEXT"@) {
        Some(s[0].content)
    } else {
        marked_content(s.subrange(1, s.len() as int))
    }
}

/// The model of an optional capsule.
pub open spec fn prior_view(prior: Option<&StateCapsule>) -> Option<CapsuleView> {
    match prior {
        Some(p) => Some(p@),
        None => None,
    }
}

/// The working capsule of a compression: the prior one, else one made from an
/// earlier summary in the history, else an empty one.
pub open spec fn seeded(
    prior: Option<CapsuleView>,
    session_id: Seq<char>,
    s: Seq<llm::MessageView>,
    turn: u64,
    now: Seq<char>,
) -> CapsuleView {
    match prior {
        Some(p) => p,
        None => match marked_content(s) {
            Some(c) => first_capsule(session_id, turn, c, now),
            None => first_capsule(session_id, turn, Seq::empty(), now),
        },
    }
}

fn make_first(session_id: &str, turn_number: u64, objective: &str, now: &str) -> (r: StateCapsule)
    ensures
        r@ == first_capsule(session_id@, turn_number, objective@, now@),
{
    let r = StateCapsule {
        version: 1,
        session_id: session_id.to_owned(),
        last_update_turn: turn_number,
        objective_and_criteria: objective.to_owned(),
        decisions_and_rationale: Vec::new(),
        stable_identifiers: Vec::new(),
        open_tasks: Vec::new(),
        prior_decisions_summary: None,
        previous_version_handle: None,
        source_history_handle: None,
        updated_at: now.to_owned(),
    };
    assert(r@.decisions_and_rationale =~= Seq::<DecisionView>::empty());
    assert(r@.stable_identifiers =~= Seq::<IdentifierView>::empty());
    assert(r@.open_tasks =~= Seq::<TaskView>::empty());
    r
}

/// The capsule that an earlier summary in the history stands for, at the time `now`.
pub fn bootstrap_capsule_at(session_id: &str, history: &[Message], turn_number: u64, now: &str) -> (r:
    Option<StateCapsule>)
    ensures
        match r {
            Some(c) => marked_content(llm::views(history@)) is Some && c@ == first_capsule(
                session_id@,
                turn_number,
                marked_content(llm::views(history@))->0,
                now@,
            ),
            None => marked_content(llm::views(history@)) is None,
        },
{
    let ghost s = llm::views(history@);
    let mut i: usize = 0;
    assert(s.subrange(0, s.len() as int) =~= s);
    while i < history.len()
        invariant
            s == llm::views(history@),
            i <= history@.len(),
            marked_content(s) == marked_content(s.subrange(i as int, s.len() as int)),
        decreases history@.len() - i,
    {
        let ghost rest = s.subrange(i as int, s.len() as int);
        assert(rest[0] == history@[i as int]@);
        assert(rest.subrange(1, rest.len() as int) =~= s.subrange(i + 1, s.len() as int));
        if text::contains(history[i].content.as_str(), "[COMPRESSED CONTEXT") {
            return Some(make_first(session_id, turn_number, history[i].content.as_str(), now));
        }
        i = i + 1;
    }
    None
}

/// The capsule that an earlier summary in the history stands for, at the present time.
pub fn bootstrap_capsule_from_compressed_markers(
    session_id: &str,
    history: &[Message],
    turn_number: u64,
) -> (r: Option<StateCapsule>)
    ensures
        match r {
            Some(c) => marked_content(llm::views(history@)) is Some && exists|now: Seq<char>|
                clock::is_utc_text(now) && c@ == #[trigger] first_capsule(
                    session_id@,
                    turn_number,
                    marked_content(llm::views(history@))->0,
                    now,
                ),
            None => marked_content(llm::views(history@)) is None,
        },
{
    let now = clock::now_rfc3339();
    bootstrap_capsule_at(session_id, history, turn_number, now.as_str())
}

/// The working capsule of a compression at the time `now`, and whether it is
/// the prior one.
pub fn seed_capsule_at(
    prior: Option<&StateCapsule>,
    session_id: &str,
    history: &[Message],
    turn_number: u64,
    now: &str,
) -> (r: (StateCapsule, bool))
    ensures
        r.0@ == seeded(
            prior_view(prior),
            session_id@,
            llm::views(history@),
            turn_number,
            now@,
        ),
        r.1 == prior is Some,
{
    match prior {
        Some(p) => (p.clone(), true),
        None => match bootstrap_capsule_at(session_id, history, turn_number, now) {
            Some(c) => (c, false),
            None => (fresh_capsule_at(session_id, turn_number, now), false),
        },
    }
}

/// The working capsule of a compression at the present time, and whether it
/// is the prior one.
pub fn seed_capsule(
    prior: Option<&StateCapsule>,
    session_id: &str,
    history: &[Message],
    turn_number: u64,
) -> (r: (StateCapsule, bool))
    ensures
        exists|now: Seq<char>|
            clock::is_utc_text(now) && r.0@ == #[trigger] seeded(
                prior_view(prior),
                session_id@,
                llm::views(history@),
                turn_number,
                now,
            ),
        r.1 == prior is Some,
{
    let now = clock::now_rfc3339();
    seed_capsule_at(prior, session_id, history, turn_number, now.as_str())
}

/// An empty first capsule, at the time `now`.
pub fn fresh_capsule_at(session_id: &str, turn_number: u64, now: &str) -> (r: StateCapsule)
    ensures
        r@ == first_capsule(session_id@, turn_number, Seq::empty(), now@),
{
    let empty = String::new();
    make_first(session_id, turn_number, empty.as_str(), now)
}

// ---------------------------------------------------------------------------
// Capping
// ---------------------------------------------------------------------------

/// One decision on one line.
pub open spec fn decision_line(d: DecisionView) -> Seq<char> {
    "[Turn "@ + text::decimal(d.turn as nat) + "] "@ + d.summary + ": "@ + d.rationale
}

/// The capsule with at most `max` decisions. The oldest ones go, and the
/// summary of prior decisions then lists them.
pub open spec fn decisions_capped(c: CapsuleView, max: nat) -> CapsuleView {
    let ds = c.decisions_and_rationale;
    if ds.len() > max {
        CapsuleView {
            decisions_and_rationale: ds.subrange(ds.len() - max, ds.len() as int),
            prior_decisions_summary: Some(
                text::join(
                    ds.subrange(0, ds.len() - max).map_values(|d: DecisionView| decision_line(d)),
                    "\n"@,
                ),
            ),
            ..c
        }
    } else {
        c
    }
}

fn push_decision_line(out: &mut String, d: &CapsuleDecision)
    ensures
        final(out)@ == old(out)@ + decision_line(d@),
{
    out.append("[Turn ");
    out.append(text::decimal_string(d.turn).as_str());
    out.append("] ");
    out.append(d.summary.as_str());
    out.append(": ");
    out.append(d.rationale.as_str());
    assert(out@ =~= old(out)@ + decision_line(d@));
}

/// Keeps the `max_decisions` most recent decisions.
pub fn cap_decisions(capsule: &mut StateCapsule, max_decisions: usize)
    ensures
        final(capsule)@ == decisions_capped(old(capsule)@, max_decisions as nat),
{
    let n = capsule.decisions_and_rationale.len();
    if n > max_decisions {
        let k: usize = n - max_decisions;
        let ghost all = capsule.decisions_and_rationale@;
        let rest = capsule.decisions_and_rationale.split_off(k);
        let ghost head = decisions(all).subrange(0, k as int);
        let mut lines: Vec<String> = Vec::new();
        let mut i: usize = 0;
        assert(lines.deep_view() =~= head.subrange(0, 0).map_values(|d: DecisionView| decision_line(d)));
        while i < capsule.decisions_and_rationale.len()
            invariant
                i <= capsule.decisions_and_rationale@.len() == k,
                head == decisions(capsule.decisions_and_rationale@),
                lines.deep_view() == head.subrange(0, i as int).map_values(
                    |d: DecisionView| decision_line(d),
                ),
            decreases capsule.decisions_and_rationale@.len() - i,
        {
            let mut line = String::new();
            push_decision_line(&mut line, &capsule.decisions_and_rationale[i]);
            assert(line@ =~= decision_line(head[i as int]));
            let ghost before = lines.deep_view();
            lines.push(line);
            i = i + 1;
            assert(lines.deep_view() =~= before.push(line@));
            assert(lines.deep_view() =~= head.subrange(0, i as int).map_values(
                |d: DecisionView| decision_line(d),
            ));
        }
        assert(head.subrange(0, i as int) =~= head);
        capsule.prior_decisions_summary = Some(text::joined(&lines, "\n"));
        capsule.decisions_and_rationale = rest;
        assert(decisions(rest@) =~= decisions(all).subrange(k as int, n as int));
    }
}

/// Number of completed tasks.
pub open spec fn completed_count(ts: Seq<TaskView>) -> nat
    decreases ts.len(),
{
    if ts.len() == 0 {
        0
    } else {
        completed_count(ts.drop_last()) + (if ts.last().status == "completed"@ {
            1nat
        } else {
            0nat
        })
    }
}

/// The tasks without the first `k` completed ones.
pub open spec fn drop_completed(ts: Seq<TaskView>, k: nat) -> Seq<TaskView>
    decreases ts.len(),
{
    if ts.len() == 0 {
        Seq::empty()
    } else {
        let before = drop_completed(ts.drop_last(), k);
        if ts.last().status == "completed"@ && completed_count(ts.drop_last()) < k {
            before
        } else {
            before.push(ts.last())
        }
    }
}

/// The capsule with at most `max` completed tasks. The oldest ones go.
pub open spec fn completed_capped(c: CapsuleView, max: nat) -> CapsuleView {
    let n = completed_count(c.open_tasks);
    if n > max {
        CapsuleView { open_tasks: drop_completed(c.open_tasks, (n - max) as nat), ..c }
    } else {
        c
    }
}

fn count_completed(ts: &Vec<CapsuleTask>) -> (n: usize)
    ensures
        n == completed_count(tasks(ts@)),
{
    let ghost views = tasks(ts@);
    let mut n: usize = 0;
    let mut i: usize = 0;
    while i < ts.len()
        invariant
            views == tasks(ts@),
            n <= i <= ts@.len(),
            n == completed_count(views.subrange(0, i as int)),
        decreases ts@.len() - i,
    {
        proof {
            let t = views.subrange(0, i + 1);
            assert(t.drop_last() =~= views.subrange(0, i as int));
            assert(t.last() == ts@[i as int]@);
        }
        if text::text_eq(ts[i].status.as_str(), "completed") {
            n = n + 1;
        }
        i = i + 1;
    }
    assert(views.subrange(0, i as int) =~= views);
    n
}

/// Keeps the `max_completed` most recent completed tasks.
pub fn cap_completed_tasks(capsule: &mut StateCapsule, max_completed: usize)
    ensures
        final(capsule)@ == completed_capped(old(capsule)@, max_completed as nat),
{
    let n = count_completed(&capsule.open_tasks);
    if n > max_completed {
        let k: usize = n - max_completed;
        let ghost views = tasks(capsule.open_tasks@);
        let mut out: Vec<CapsuleTask> = Vec::new();
        let mut seen: usize = 0;
        let mut i: usize = 0;
        assert(tasks(out@) =~= Seq::<TaskView>::empty());
        while i < capsule.open_tasks.len()
            invariant
                views == tasks(capsule.open_tasks@),
                seen <= i <= capsule.open_tasks@.len(),
                seen == completed_count(views.subrange(0, i as int)),
                tasks(out@) == drop_completed(views.subrange(0, i as int), k as nat),
            decreases capsule.open_tasks@.len() - i,
        {
            let ghost before = out@;
            proof {
                let t = views.subrange(0, i + 1);
                assert(t.drop_last() =~= views.subrange(0, i as int));
                assert(t.last() == capsule.open_tasks@[i as int]@);
            }
            let done = text::text_eq(capsule.open_tasks[i].status.as_str(), "completed");
            if !(done && seen < k) {
                let c = capsule.open_tasks[i].clone();
                out.push(c);
                assert(tasks(out@) =~= tasks(before).push(c@));
            }
            if done {
                seen = seen + 1;
            }
            i = i + 1;
        }
        assert(views.subrange(0, i as int) =~= views);
        capsule.open_tasks = out;
    }
}

/// After capping, at most `max` decisions are left, and they are the last ones.
pub proof fn capping_bounds_the_decisions(c: CapsuleView, max: nat)
    ensures
        decisions_capped(c, max).decisions_and_rationale.len() <= max,
        decisions_capped(c, max).decisions_and_rationale.is_suffix_of(c.decisions_and_rationale),
{
    let ds = c.decisions_and_rationale;
    assert(ds.subrange(0, ds.len() as int) =~= ds);
}

/// After capping, at most `max` completed tasks are left, and every task that
/// is not completed is still there.
pub proof fn capping_bounds_the_completed_tasks(c: CapsuleView, max: nat)
    ensures
        completed_count(completed_capped(c, max).open_tasks) <= max,
        forall|t: TaskView|
            c.open_tasks.contains(t) && t.status != "completed"@
                ==> #[trigger] completed_capped(c, max).open_tasks.contains(t),
{
    let n = completed_count(c.open_tasks);
    if n > max {
        lemma_drop_completed(c.open_tasks, (n - max) as nat);
    }
}

proof fn lemma_drop_completed(ts: Seq<TaskView>, k: nat)
    ensures
        completed_count(drop_completed(ts, k)) == (if completed_count(ts) > k {
            completed_count(ts) - k
        } else {
            0
        }),
        forall|t: TaskView|
            ts.contains(t) && t.status != "completed"@ ==> #[trigger] drop_completed(ts, k).contains(t),
    decreases ts.len(),
{
    if ts.len() > 0 {
        let d = ts.drop_last();
        lemma_drop_completed(d, k);
        let r = drop_completed(ts, k);
        let rd = drop_completed(d, k);
        if r.len() > rd.len() {
            assert(r.drop_last() =~= rd);
        }
        assert forall|t: TaskView| ts.contains(t) && t.status != "completed"@ implies #[trigger] r.contains(
            t,
        ) by {
            let i = choose|i: int| 0 <= i < ts.len() && ts[i] == t;
            if i < d.len() {
                assert(d[i] == t);
                assert(d.contains(t));
                assert(rd.contains(t));
                let j = choose|j: int| 0 <= j < rd.len() && rd[j] == t;
                assert(r[j] == t);
            } else {
                assert(r[r.len() - 1] == t);
            }
        }
    }
}

// ---------------------------------------------------------------------------
// Rendering
// ---------------------------------------------------------------------------

/// The decisions, one list item each.
pub open spec fn decision_items(ds: Seq<DecisionView>) -> Seq<char>
    decreases ds.len(),
{
    if ds.len() == 0 {
        Seq::empty()
    } else {
        decision_items(ds.drop_last()) + ("- "@ + decision_line(ds.last()) + "\n"@)
    }
}

/// The identifiers, one list item each.
pub open spec fn identifier_items(ids: Seq<IdentifierView>) -> Seq<char>
    decreases ids.len(),
{
    if ids.len() == 0 {
        Seq::empty()
    } else {
        let d = ids.last();
        let label = match d.label {
            Some(l) => l,
            None => Seq::empty(),
        };
        identifier_items(ids.drop_last()) + ("- ["@ + d.category + "] "@ + d.value + " ("@ + label
            + ")\n"@)
    }
}

/// The tasks that are not completed, one list item each.
pub open spec fn open_items(ts: Seq<TaskView>) -> Seq<char>
    decreases ts.len(),
{
    if ts.len() == 0 {
        Seq::empty()
    } else if ts.last().status == "completed"@ {
        open_items(ts.drop_last())
    } else {
        open_items(ts.drop_last()) + ("- ["@ + ts.last().status + "] "@ + ts.last().description
            + "\n"@)
    }
}

/// The completed tasks whose turn is known, one list item each.
pub open spec fn completed_items(ts: Seq<TaskView>) -> Seq<char>
    decreases ts.len(),
{
    if ts.len() == 0 {
        Seq::empty()
    } else if ts.last().status == "completed"@ && ts.last().completed_turn is Some {
        completed_items(ts.drop_last()) + ("- [done@"@ + text::decimal(
            ts.last().completed_turn->0 as nat,
        ) + "] "@ + ts.last().description + "\n"@)
    } else {
        completed_items(ts.drop_last())
    }
}

/// A heading, the items below it and an empty line; nothing where `present` is false.
pub open spec fn section(present: bool, heading: Seq<char>, items: Seq<char>) -> Seq<char> {
    if present {
        heading + items + "\n"@
    } else {
        Seq::empty()
    }
}

/// The text by which a capsule is shown to the model.
pub open spec fn injection(c: CapsuleView) -> Seq<char> {
    "[SESSION STATE CAPSULE v"@ + text::decimal(c.version as nat) + " \u{2014} Turn "@
        + text::decimal(c.last_update_turn as nat) + "]\n\n## Objective\n"@
        + c.objective_and_criteria + "\n\n"@ + section(
        c.decisions_and_rationale.len() > 0,
        "## Key Decisions\n"@,
        decision_items(c.decisions_and_rationale),
    ) + (match c.prior_decisions_summary {
        Some(p) => "## Prior Decisions (Summarized)\n"@ + p + "\n\n"@,
        None => Seq::empty(),
    }) + section(
        c.stable_identifiers.len() > 0,
        "## Active Identifiers\n"@,
        identifier_items(c.stable_identifiers),
    ) + section(
        completed_count(c.open_tasks) < c.open_tasks.len(),
        "## Open Tasks\n"@,
        open_items(c.open_tasks),
    ) + section(
        completed_count(c.open_tasks) > 0,
        "## Completed Tasks (Recent)\n"@,
        completed_items(c.open_tasks),
    )
}

fn decision_items_exec(ds: &Vec<CapsuleDecision>) -> (r: String)
    ensures
        r@ == decision_items(decisions(ds@)),
{
    let ghost views = decisions(ds@);
    let mut out = String::new();
    let mut i: usize = 0;
    while i < ds.len()
        invariant
            views == decisions(ds@),
            i <= ds@.len(),
            out@ == decision_items(views.subrange(0, i as int)),
        decreases ds@.len() - i,
    {
        let ghost before = out@;
        proof {
            let t = views.subrange(0, i + 1);
            assert(t.drop_last() =~= views.subrange(0, i as int));
            assert(t.last() == ds@[i as int]@);
        }
        out.append("- ");
        push_decision_line(&mut out, &ds[i]);
        out.append("\n");
        assert(out@ =~= before + ("- "@ + decision_line(ds@[i as int]@) + "\n"@));
        i = i + 1;
    }
    assert(views.subrange(0, i as int) =~= views);
    out
}

fn identifier_items_exec(ids: &Vec<StableIdentifier>) -> (r: String)
    ensures
        r@ == identifier_items(identifiers(ids@)),
{
    let ghost views = identifiers(ids@);
    let mut out = String::new();
    let mut i: usize = 0;
    while i < ids.len()
        invariant
            views == identifiers(ids@),
            i <= ids@.len(),
            out@ == identifier_items(views.subrange(0, i as int)),
        decreases ids@.len() - i,
    {
        let ghost before = out@;
        let d = &ids[i];
        proof {
            let t = views.subrange(0, i + 1);
            assert(t.drop_last() =~= views.subrange(0, i as int));
            assert(t.last() == d@);
        }
        out.append("- [");
        out.append(d.category.as_str());
        out.append("] ");
        out.append(d.value.as_str());
        out.append(" (");
        match &d.label {
            Some(l) => out.append(l.as_str()),
            None => {},
        }
        out.append(")\n");
        assert(out@ =~= identifier_items(views.subrange(0, i + 1)));
        i = i + 1;
    }
    assert(views.subrange(0, i as int) =~= views);
    out
}

fn task_items_exec(ts: &Vec<CapsuleTask>, completed: bool) -> (r: String)
    ensures
        r@ == (if completed {
            completed_items(tasks(ts@))
        } else {
            open_items(tasks(ts@))
        }),
{
    let ghost views = tasks(ts@);
    let mut out = String::new();
    let mut i: usize = 0;
    while i < ts.len()
        invariant
            views == tasks(ts@),
            i <= ts@.len(),
            out@ == (if completed {
                completed_items(views.subrange(0, i as int))
            } else {
                open_items(views.subrange(0, i as int))
            }),
        decreases ts@.len() - i,
    {
        let ghost before = out@;
        let d = &ts[i];
        proof {
            let t = views.subrange(0, i + 1);
            assert(t.drop_last() =~= views.subrange(0, i as int));
            assert(t.last() == d@);
        }
        let done = text::text_eq(d.status.as_str(), "completed");
        if completed && done {
            match d.completed_turn {
                Some(ct) => {
                    out.append("- [done@");
                    out.append(text::decimal_string(ct).as_str());
                    out.append("] ");
                    out.append(d.description.as_str());
                    out.append("\n");
                    assert(out@ =~= completed_items(views.subrange(0, i + 1)));
                },
                None => {},
            }
        }
        if !completed && !done {
            out.append("- [");
            out.append(d.status.as_str());
            out.append("] ");
            out.append(d.description.as_str());
            out.append("\n");
            assert(out@ =~= open_items(views.subrange(0, i + 1)));
        }
        i = i + 1;
    }
    assert(views.subrange(0, i as int) =~= views);
    out
}

fn push_section(out: &mut String, present: bool, heading: &str, items: &str)
    ensures
        final(out)@ == old(out)@ + section(present, heading@, items@),
{
    if present {
        out.append(heading);
        out.append(items);
        out.append("\n");
        assert(out@ =~= old(out)@ + section(present, heading@, items@));
    } else {
        assert(out@ =~= old(out)@ + section(present, heading@, items@));
    }
}

/// Renders a capsule for the model.
pub fn compile_capsule_injection(capsule: &StateCapsule) -> (r: String)
    ensures
        r@ == injection(capsule@),
{
    let mut out = "[SESSION STATE CAPSULE v".to_owned();
    out.append(text::decimal_string(capsule.version).as_str());
    out.append(" \u{2014} Turn ");
    out.append(text::decimal_string(capsule.last_update_turn).as_str());
    out.append("]\n\n## Objective\n");
    out.append(capsule.objective_and_criteria.as_str());
    out.append("\n\n");
    let ds = decision_items_exec(&capsule.decisions_and_rationale);
    push_section(
        &mut out,
        capsule.decisions_and_rationale.len() > 0,
        "## Key Decisions\n",
        ds.as_str(),
    );
    let ghost before = out@;
    match &capsule.prior_decisions_summary {
        Some(p) => {
            out.append("## Prior Decisions (Summarized)\n");
            out.append(p.as_str());
            out.append("\n\n");
            assert(out@ =~= before + ("## Prior Decisions (Summarized)\n"@ + p@ + "\n\n"@));
        },
        None => {
            assert(out@ =~= before + Seq::<char>::empty());
        },
    }
    let ids = identifier_items_exec(&capsule.stable_identifiers);
    push_section(
        &mut out,
        capsule.stable_identifiers.len() > 0,
        "## Active Identifiers\n",
        ids.as_str(),
    );
    let n = count_completed(&capsule.open_tasks);
    let open = task_items_exec(&capsule.open_tasks, false);
    push_section(&mut out, n < capsule.open_tasks.len(), "## Open Tasks\n", open.as_str());
    let done = task_items_exec(&capsule.open_tasks, true);
    push_section(&mut out, n > 0, "## Completed Tasks (Recent)\n", done.as_str());
    out
}

// ---------------------------------------------------------------------------
// Asking for a delta
// ---------------------------------------------------------------------------

/// The plan that a session works on.
#[derive(Debug)]
pub struct PlanFrameSummary {
    pub plan_id: String,
    pub version: u64,
    /// Wire name of the plan's status.
    pub status: String,
    pub title: String,
    pub step_count: u64,
    pub operator_steps: Vec<String>,
    pub agent_steps: Vec<String>,
    pub required_validations: Vec<String>,
    pub advisory_validations: Vec<String>,
}

/// A list on one line behind `heading`; nothing where the list is empty.
pub open spec fn plan_list(heading: Seq<char>, items: Seq<Seq<char>>) -> Seq<char> {
    if items.len() == 0 {
        Seq::empty()
    } else {
        heading + text::join(items, ", "@) + "\n"@
    }
}

/// The block that shows the active plan.
pub open spec fn plan_block(p: PlanFrameSummary) -> Seq<char> {
    "Active Plan (use as a relevance lens \u{2014} prefer plan-advancing items):\n"@ + "- plan_id: "@
        + p.plan_id@ + " v"@ + text::decimal(p.version as nat) + " (status: "@ + p.status@ + ")\n"@
        + (if p.title@.len() == 0 {
        Seq::empty()
    } else {
        "- title: "@ + p.title@ + "\n"@
    }) + (if p.step_count == 0 {
        Seq::empty()
    } else {
        "- step_count: "@ + text::decimal(p.step_count as nat) + "\n"@
    }) + plan_list("- operator/shared steps: "@, p.operator_steps.deep_view()) + plan_list(
        "- agent steps: "@,
        p.agent_steps.deep_view(),
    ) + plan_list("- required validations: "@, p.required_validations.deep_view()) + plan_list(
        "- advisory validations: "@,
        p.advisory_validations.deep_view(),
    ) + "\n"@
}

fn push_plan_list(out: &mut String, heading: &str, items: &Vec<String>)
    ensures
        final(out)@ == old(out)@ + plan_list(heading@, items.deep_view()),
{
    if items.len() > 0 {
        out.append(heading);
        out.append(text::joined(items, ", ").as_str());
        out.append("\n");
    }
    assert(out@ =~= old(out)@ + plan_list(heading@, items.deep_view()));
}

/// Renders the block that shows the active plan.
pub fn render_plan_anchor_block(p: &PlanFrameSummary) -> (r: String)
    ensures
        r@ == plan_block(*p),
{
    let mut s =
        "Active Plan (use as a relevance lens \u{2014} prefer plan-advancing items):\n".to_owned();
    s.append("- plan_id: ");
    s.append(p.plan_id.as_str());
    s.append(" v");
    s.append(text::decimal_string(p.version).as_str());
    s.append(" (status: ");
    s.append(p.status.as_str());
    s.append(")\n");
    let ghost a = s@;
    if !p.title.as_str().is_empty() {
        s.append("- title: ");
        s.append(p.title.as_str());
        s.append("\n");
    }
    assert(s@ =~= a + (if p.title@.len() == 0 {
        Seq::empty()
    } else {
        "- title: "@ + p.title@ + "\n"@
    }));
    let ghost b = s@;
    if p.step_count > 0 {
        s.append("- step_count: ");
        s.append(text::decimal_string(p.step_count).as_str());
        s.append("\n");
    }
    assert(s@ =~= b + (if p.step_count == 0 {
        Seq::empty()
    } else {
        "- step_count: "@ + text::decimal(p.step_count as nat) + "\n"@
    }));
    push_plan_list(&mut s, "- operator/shared steps: ", &p.operator_steps);
    push_plan_list(&mut s, "- agent steps: ", &p.agent_steps);
    push_plan_list(&mut s, "- required validations: ", &p.required_validations);
    push_plan_list(&mut s, "- advisory validations: ", &p.advisory_validations);
    s.append("\n");
    s
}

/// The end of the prompt that asks for a delta: the form of the answer.
pub const DELTA_SCHEMA: &'static str = r#"
---
Respond ONLY with a JSON object matching this schema:
{
  "objective_update": string | null,
  "new_decisions": [
    {
      "turn": number,
      "summary": "short summary",
      "rationale": "why this decision was made",
      "referenced_ids": ["id1", "id2"]
    }
  ],
  "new_identifiers": [
    {
      "category": "artifact|approval|revision|content|session",
      "value": "the id value",
      "label": "human-readable label or null",
      "first_seen_turn": number
    }
  ],
  "task_updates": [
    {
      "type": "Add|Complete|Block|Remove",
      "description": "task description",
      "turn": number,
      "blocker": "reason if blocked or null",
      "status": "open|in_progress|blocked|completed",
      "added_turn": number,
      "completed_turn": number | null
    }
  ]
}"#;

/// One message of the recent turns, on a line.
pub open spec fn turn_line(m: llm::MessageView) -> Seq<char> {
    "["@ + llm::role_name(m.role) + "] "@ + m.content
}

/// The prompt that asks for a delta.
pub open spec fn delta_prompt(
    s: Seq<llm::MessageView>,
    capsule_json: Seq<char>,
    plan: Option<&PlanFrameSummary>,
) -> Seq<char> {
    "You are a state capsule update extractor. Given the current session state capsule and recent conversation turns, produce a structured delta describing what changed.\n\n"@
        + (match plan {
        Some(p) => plan_block(*p),
        None => Seq::empty(),
    }) + "Current State Capsule (JSON):\n"@ + capsule_json + "\n\nRecent Conversation Turns:\n"@
        + text::join(s.map_values(|m: llm::MessageView| turn_line(m)), "\n"@) + DELTA_SCHEMA@
}

/// Builds the prompt that asks for a delta.
pub fn build_delta_extraction_prompt(
    compressible_messages: &[Message],
    capsule_json: &str,
    plan_anchor: Option<&PlanFrameSummary>,
) -> (r: String)
    ensures
        r@ == delta_prompt(llm::views(compressible_messages@), capsule_json@, plan_anchor),
{
    let ghost s = llm::views(compressible_messages@);
    let mut lines: Vec<String> = Vec::new();
    let mut i: usize = 0;
    assert(lines.deep_view() =~= s.subrange(0, 0).map_values(|m: llm::MessageView| turn_line(m)));
    while i < compressible_messages.len()
        invariant
            s == llm::views(compressible_messages@),
            i <= compressible_messages@.len(),
            lines.deep_view() == s.subrange(0, i as int).map_values(
                |m: llm::MessageView| turn_line(m),
            ),
        decreases compressible_messages@.len() - i,
    {
        let m = &compressible_messages[i];
        let mut line = "[".to_owned();
        line.append(m.role.as_str());
        line.append("] ");
        line.append(m.content.as_str());
        let ghost before = lines.deep_view();
        push_name(&mut lines, line.as_str());
        i = i + 1;
        assert(lines.deep_view() =~= s.subrange(0, i as int).map_values(
            |m: llm::MessageView| turn_line(m),
        ));
    }
    assert(s.subrange(0, i as int) =~= s);
    let mut out =
        "You are a state capsule update extractor. Given the current session state capsule and recent conversation turns, produce a structured delta describing what changed.\n\n".to_owned();
    let ghost head = out@;
    match plan_anchor {
        Some(p) => out.append(render_plan_anchor_block(p).as_str()),
        None => {},
    }
    assert(out@ =~= head + (match plan_anchor {
        Some(p) => plan_block(*p),
        None => Seq::empty(),
    }));
    out.append("Current State Capsule (JSON):\n");
    out.append(capsule_json);
    out.append("\n\nRecent Conversation Turns:\n");
    out.append(text::joined(&lines, "\n").as_str());
    out.append(DELTA_SCHEMA);
    out
}

/// The JSON in a reply that may be wrapped in a code fence: the trimmed reply
/// without an opening fence and a closing one, where it has both.
pub open spec fn unfenced(reply: Seq<char>) -> Seq<char> {
    let t = text::trim(reply);
    let inner = if text::begins_with(t, "```json"@) {
        Some(t.subrange("```json"@.len() as int, t.len() as int))
    } else if text::begins_with(t, "```"@) {
        Some(t.subrange("```"@.len() as int, t.len() as int))
    } else {
        None
    };
    match inner {
        Some(i) => if text::finishes_with(i, "```"@) {
            i.subrange(0, i.len() - "```"@.len())
        } else {
            t
        },
        None => t,
    }
}

/// Takes the JSON out of the delta model's reply.
pub fn clean_delta_reply(reply: &str) -> (r: String)
    ensures
        r@ == unfenced(reply@),
{
    let t = text::trimmed(reply);
    let inner = match text::strip_prefix(t.as_str(), "```json") {
        Some(i) => Some(i),
        None => text::strip_prefix(t.as_str(), "```"),
    };
    match inner {
        Some(i) => match text::strip_suffix(i.as_str(), "```") {
            Some(x) => x,
            None => t,
        },
        None => t,
    }
}

/// The name under which a version of a capsule is archived.
pub open spec fn capsule_name(version: nat, turn: nat) -> Seq<char> {
    "capsule_v"@ + text::decimal(version) + "_turn_"@ + text::decimal(turn)
}

/// The name under which an evolved capsule is archived: the version that it
/// descends from and the turn.
pub fn capsule_archive_name(capsule: &StateCapsule, turn_number: u64) -> (r: String)
    requires
        capsule.version >= 1,
    ensures
        r@ == capsule_name((capsule.version - 1) as nat, turn_number as nat),
{
    let mut s = "capsule_v".to_owned();
    s.append(text::decimal_string(capsule.version - 1).as_str());
    s.append("_turn_");
    s.append(text::decimal_string(turn_number).as_str());
    s
}

/// Archives an evolved capsule, given as JSON, for its session alone, and marks it
/// with the handle: the next version names it as its predecessor.
pub fn persist_capsule(
    store: &mut ContentStore,
    session_id: &str,
    capsule: &mut StateCapsule,
    capsule_json: &str,
    turn_number: u64,
)
    requires
        old(capsule).version >= 1,
    ensures
        final(capsule)@ == (CapsuleView {
            source_history_handle: Some(
                content_store::handle_of(vstd::utf8::encode_utf8(capsule_json@)),
            ),
            ..old(capsule)@
        }),
        exists|m: ContentStore|
            content_store::stored(*old(store), m, vstd::utf8::encode_utf8(capsule_json@))
                && #[trigger] content_store::registered_as(
                m,
                *final(store),
                session_id@,
                capsule_name((old(capsule).version - 1) as nat, turn_number as nat),
                final(capsule).source_history_handle->Some_0,
                ContentVisibility::Private,
            ),
{
    let handle = store.write(capsule_json.as_bytes());
    let ghost mid = *store;
    let name = capsule_archive_name(capsule, turn_number);
    store.register_name_with_visibility(
        session_id,
        name.as_str(),
        &handle,
        ContentVisibility::Private,
    );
    assert(content_store::registered_as(
        mid,
        *store,
        session_id@,
        name@,
        handle,
        ContentVisibility::Private,
    ));
    capsule.source_history_handle = Some(handle);
}

// ---------------------------------------------------------------------------
// Laws of rendering
// ---------------------------------------------------------------------------

/// The part of a rendered capsule before its lists of tasks.
spec fn shown_before_tasks(c: CapsuleView) -> Seq<char> {
    "[SESSION STATE CAPSULE v"@ + text::decimal(c.version as nat) + " \u{2014} Turn "@
        + text::decimal(c.last_update_turn as nat) + "]\n\n## Objective\n"@
        + c.objective_and_criteria + "\n\n"@ + section(
        c.decisions_and_rationale.len() > 0,
        "## Key Decisions\n"@,
        decision_items(c.decisions_and_rationale),
    ) + (match c.prior_decisions_summary {
        Some(p) => "## Prior Decisions (Summarized)\n"@ + p + "\n\n"@,
        None => Seq::empty(),
    }) + section(
        c.stable_identifiers.len() > 0,
        "## Active Identifiers\n"@,
        identifier_items(c.stable_identifiers),
    )
}


proof fn lemma_open_items(ts: Seq<TaskView>)
    ensures
        open_items(ts) == text::join(
            ts.filter(|t: TaskView| t.status != "completed"@).map_values(
                |t: TaskView| "- ["@ + t.status + "] "@ + t.description + "\n"@,
            ),
            Seq::empty(),
        ),
        completed_count(ts) + ts.filter(|t: TaskView| t.status != "completed"@).len() == ts.len(),
        forall|i: int|
            0 <= i < ts.len() && (#[trigger] ts[i]).status != "completed"@ ==> ts.filter(
                |t: TaskView| t.status != "completed"@,
            ).contains(ts[i]),
    decreases ts.len(),
{
    reveal(Seq::filter);
    let open = |t: TaskView| t.status != "completed"@;
    let line = |t: TaskView| "- ["@ + t.status + "] "@ + t.description + "\n"@;
    if ts.len() == 0 {
        assert(ts.filter(open).map_values(line) =~= Seq::<Seq<char>>::empty());
    } else {
        let d = ts.drop_last();
        lemma_open_items(d);
        let f = d.filter(open);
        if open(ts.last()) {
            assert(ts.filter(open) == f.push(ts.last()));
            assert(ts.filter(open).map_values(line) =~= f.map_values(line).push(line(ts.last())));
            text::lemma_join_push(f.map_values(line), line(ts.last()));
        }
        assert forall|i: int| 0 <= i < ts.len() && (#[trigger] ts[i]).status != "completed"@ implies ts.filter(
            open,
        ).contains(ts[i]) by {
            if i < d.len() {
                assert(d[i] == ts[i]);
                assert(f.contains(d[i]));
                let k = choose|k: int| 0 <= k < f.len() && f[k] == d[i];
                assert(ts.filter(open)[k] == ts[i]);
            } else {
                assert(ts.filter(open)[f.len() as int] == ts[i]);
            }
        }
    }
}

/// The open tasks of a capsule, which are those that are not completed, are listed
/// under their heading: one line for each, in order, and no others.
pub proof fn open_tasks_are_listed(c: CapsuleView)
    ensures
        ({
            let open = c.open_tasks.filter(|t: TaskView| t.status != "completed"@);
            let lines = open.map_values(
                |t: TaskView| "- ["@ + t.status + "] "@ + t.description + "\n"@,
            );
            open.len() > 0 ==> text::has_text(
                injection(c),
                "## Open Tasks\n"@ + text::join(lines, Seq::empty()) + "\n"@,
            )
        }),
{
    lemma_open_items(c.open_tasks);
    let a = shown_before_tasks(c);
    let s = section(
        completed_count(c.open_tasks) < c.open_tasks.len(),
        "## Open Tasks\n"@,
        open_items(c.open_tasks),
    );
    let b = section(
        completed_count(c.open_tasks) > 0,
        "## Completed Tasks (Recent)\n"@,
        completed_items(c.open_tasks),
    );
    assert(injection(c) == a + s + b);
    text::lemma_has_text_around(a, s, b);
}

/// Every task that is not completed has its line in the text shown to the model.
pub proof fn every_open_task_is_shown(c: CapsuleView, i: int)
    requires
        0 <= i < c.open_tasks.len(),
        c.open_tasks[i].status != "completed"@,
    ensures
        text::has_text(
            injection(c),
            "- ["@ + c.open_tasks[i].status + "] "@ + c.open_tasks[i].description + "\n"@,
        ),
{
    let t = c.open_tasks[i];
    let open = |t: TaskView| t.status != "completed"@;
    let line = |t: TaskView| "- ["@ + t.status + "] "@ + t.description + "\n"@;
    let f = c.open_tasks.filter(open);
    let lines = f.map_values(line);
    lemma_open_items(c.open_tasks);
    let k = choose|k: int| 0 <= k < f.len() && f[k] == t;
    assert(lines[k] == line(t));
    text::lemma_join_has(lines, Seq::empty(), k);
    let a = shown_before_tasks(c);
    let items = open_items(c.open_tasks);
    let s = section(completed_count(c.open_tasks) < c.open_tasks.len(), "## Open Tasks\n"@, items);
    let b = section(
        completed_count(c.open_tasks) > 0,
        "## Completed Tasks (Recent)\n"@,
        completed_items(c.open_tasks),
    );
    text::lemma_has_text_inside(items, line(t), "## Open Tasks\n"@, "\n"@);
    assert(injection(c) == a + s + b);
    text::lemma_has_text_inside(s, line(t), a, b);
}

proof fn lemma_completed_items(ts: Seq<TaskView>, i: int)
    requires
        0 <= i < ts.len(),
        ts[i].status == "completed"@,
        ts[i].completed_turn is Some,
    ensures
        text::has_text(
            completed_items(ts),
            "- [done@"@ + text::decimal(ts[i].completed_turn->0 as nat) + "] "@ + ts[i].description
                + "\n"@,
        ),
        completed_count(ts) > 0,
    decreases ts.len(),
{
    let none = Seq::<char>::empty();
    let line = "- [done@"@ + text::decimal(ts[i].completed_turn->0 as nat) + "] "@
        + ts[i].description + "\n"@;
    let d = ts.drop_last();
    let before = completed_items(d);
    if i == ts.len() - 1 {
        text::lemma_has_text_around(before, line, none);
        assert(before + line + none =~= completed_items(ts));
    } else {
        lemma_completed_items(d, i);
        let rest = completed_items(ts).subrange(
            before.len() as int,
            completed_items(ts).len() as int,
        );
        text::lemma_has_text_inside(before, line, none, rest);
        assert(none + before + rest =~= completed_items(ts));
    }
}

/// Every task that was completed at a known turn has its line in the text shown to the
/// model, with that turn.
pub proof fn every_completed_task_is_shown(c: CapsuleView, i: int, turn: u64)
    requires
        0 <= i < c.open_tasks.len(),
        c.open_tasks[i].status == "completed"@,
        c.open_tasks[i].completed_turn == Some(turn),
    ensures
        text::has_text(
            injection(c),
            "- [done@"@ + text::decimal(turn as nat) + "] "@ + c.open_tasks[i].description + "\n"@,
        ),
{
    let none = Seq::<char>::empty();
    let line = "- [done@"@ + text::decimal(turn as nat) + "] "@ + c.open_tasks[i].description
        + "\n"@;
    lemma_completed_items(c.open_tasks, i);
    let a = shown_before_tasks(c) + section(
        completed_count(c.open_tasks) < c.open_tasks.len(),
        "## Open Tasks\n"@,
        open_items(c.open_tasks),
    );
    let items = completed_items(c.open_tasks);
    let s = section(completed_count(c.open_tasks) > 0, "## Completed Tasks (Recent)\n"@, items);
    text::lemma_has_text_inside(items, line, "## Completed Tasks (Recent)\n"@, "\n"@);
    text::lemma_has_text_inside(s, line, a, none);
    assert(a + s + none =~= injection(c));
}

proof fn lemma_decision_items(ds: Seq<DecisionView>, i: int)
    requires
        0 <= i < ds.len(),
    ensures
        text::has_text(decision_items(ds), "- "@ + decision_line(ds[i]) + "\n"@),
    decreases ds.len(),
{
    let none = Seq::<char>::empty();
    let line = "- "@ + decision_line(ds[i]) + "\n"@;
    let before = decision_items(ds.drop_last());
    let last = "- "@ + decision_line(ds.last()) + "\n"@;
    if i == ds.len() - 1 {
        text::lemma_has_text_around(before, line, none);
        assert(before + line + none =~= decision_items(ds));
    } else {
        lemma_decision_items(ds.drop_last(), i);
        text::lemma_has_text_inside(before, line, none, last);
        assert(none + before + last =~= decision_items(ds));
    }
}

proof fn lemma_identifier_items(ids: Seq<IdentifierView>, i: int)
    requires
        0 <= i < ids.len(),
    ensures
        text::has_text(
            identifier_items(ids),
            "- ["@ + ids[i].category + "] "@ + ids[i].value + " ("@ + (match ids[i].label {
                Some(l) => l,
                None => Seq::empty(),
            }) + ")\n"@,
        ),
    decreases ids.len(),
{
    let none = Seq::<char>::empty();
    let line = |d: IdentifierView|
        "- ["@ + d.category + "] "@ + d.value + " ("@ + (match d.label {
            Some(l) => l,
            None => Seq::empty(),
        }) + ")\n"@;
    let before = identifier_items(ids.drop_last());
    if i == ids.len() - 1 {
        text::lemma_has_text_around(before, line(ids[i]), none);
        assert(before + line(ids[i]) + none =~= identifier_items(ids));
    } else {
        lemma_identifier_items(ids.drop_last(), i);
        text::lemma_has_text_inside(before, line(ids[i]), none, line(ids.last()));
        assert(none + before + line(ids.last()) =~= identifier_items(ids));
    }
}

/// The sections of a rendered capsule: its head, decisions, summary of prior decisions,
/// identifiers and tasks.
spec fn shown_sections(c: CapsuleView) -> (Seq<char>, Seq<char>, Seq<char>, Seq<char>, Seq<char>) {
    (
        "[SESSION STATE CAPSULE v"@ + text::decimal(c.version as nat) + " \u{2014} Turn "@
            + text::decimal(c.last_update_turn as nat) + "]\n\n## Objective\n"@
            + c.objective_and_criteria + "\n\n"@,
        section(
            c.decisions_and_rationale.len() > 0,
            "## Key Decisions\n"@,
            decision_items(c.decisions_and_rationale),
        ),
        match c.prior_decisions_summary {
            Some(p) => "## Prior Decisions (Summarized)\n"@ + p + "\n\n"@,
            None => Seq::empty(),
        },
        section(
            c.stable_identifiers.len() > 0,
            "## Active Identifiers\n"@,
            identifier_items(c.stable_identifiers),
        ),
        section(
            completed_count(c.open_tasks) < c.open_tasks.len(),
            "## Open Tasks\n"@,
            open_items(c.open_tasks),
        ) + section(
            completed_count(c.open_tasks) > 0,
            "## Completed Tasks (Recent)\n"@,
            completed_items(c.open_tasks),
        ),
    )
}

proof fn lemma_shown_sections(c: CapsuleView)
    ensures
        ({
            let (a, b, p, d, e) = shown_sections(c);
            injection(c) == a + b + p + d + e
        }),
{
    let (a, b, p, d, e) = shown_sections(c);
    let open = section(
        completed_count(c.open_tasks) < c.open_tasks.len(),
        "## Open Tasks\n"@,
        open_items(c.open_tasks),
    );
    let done = section(
        completed_count(c.open_tasks) > 0,
        "## Completed Tasks (Recent)\n"@,
        completed_items(c.open_tasks),
    );
    let front = a + b + p + d;
    assert(injection(c) == front + open + done);
    assert(front + open + done =~= front + (open + done));
}

proof fn lemma_parts_stand_in_the_whole(
    a: Seq<char>,
    b: Seq<char>,
    p: Seq<char>,
    d: Seq<char>,
    e: Seq<char>,
    x: Seq<char>,
)
    requires
        text::has_text(b, x) || text::has_text(p, x) || text::has_text(d, x),
    ensures
        text::has_text(a + b + p + d + e, x),
{
    let all = a + b + p + d + e;
    if text::has_text(b, x) {
        text::lemma_has_text_inside(b, x, a, p + d + e);
        assert(a + b + (p + d + e) =~= all);
    } else if text::has_text(p, x) {
        text::lemma_has_text_inside(p, x, a + b, d + e);
        assert(a + b + p + (d + e) =~= all);
    } else {
        text::lemma_has_text_inside(d, x, a + b + p, e);
    }
}

/// The text shown to the model begins with the version and the turn of the capsule and
/// its objective, and holds the summary of prior decisions where there is one.
pub proof fn the_objective_is_shown_first(c: CapsuleView)
    ensures
        text::begins_with(
            injection(c),
            "[SESSION STATE CAPSULE v"@ + text::decimal(c.version as nat) + " \u{2014} Turn "@
                + text::decimal(c.last_update_turn as nat) + "]\n\n## Objective\n"@
                + c.objective_and_criteria + "\n\n"@,
        ),
        c.prior_decisions_summary matches Some(p) ==> text::has_text(
            injection(c),
            "## Prior Decisions (Summarized)\n"@ + p + "\n\n"@,
        ),
{
    let none = Seq::<char>::empty();
    let (a, b, p, d, e) = shown_sections(c);
    lemma_shown_sections(c);
    let all = a + b + p + d + e;
    assert(all.subrange(0, a.len() as int) =~= a);
    if c.prior_decisions_summary is Some {
        text::lemma_has_text_around(none, p, none);
        assert(none + p + none =~= p);
        lemma_parts_stand_in_the_whole(a, b, p, d, e, p);
    }
}

proof fn lemma_decision_item(x: DecisionView)
    ensures
        text::has_text(
            "- "@ + decision_line(x) + "\n"@,
            "[Turn "@ + text::decimal(x.turn as nat) + "] "@ + x.summary + ": "@ + x.rationale
                + "\n"@,
        ),
{
    text::lemma_has_ending("- "@, decision_line(x), "\n"@);
}

/// Every decision is shown to the model with its turn, its summary and its rationale.
pub proof fn every_decision_is_shown(c: CapsuleView, i: int)
    requires
        0 <= i < c.decisions_and_rationale.len(),
    ensures
        text::has_text(
            injection(c),
            "[Turn "@ + text::decimal(c.decisions_and_rationale[i].turn as nat) + "] "@
                + c.decisions_and_rationale[i].summary + ": "@
                + c.decisions_and_rationale[i].rationale + "\n"@,
        ),
{
    let (a, b, p, d, e) = shown_sections(c);
    let x = c.decisions_and_rationale[i];
    let line = "[Turn "@ + text::decimal(x.turn as nat) + "] "@ + x.summary + ": "@ + x.rationale
        + "\n"@;
    let items = decision_items(c.decisions_and_rationale);
    lemma_shown_sections(c);
    lemma_decision_items(c.decisions_and_rationale, i);
    lemma_decision_item(x);
    text::lemma_has_text_trans(items, "- "@ + decision_line(x) + "\n"@, line);
    text::lemma_has_text_inside(items, line, "## Key Decisions\n"@, "\n"@);
    lemma_parts_stand_in_the_whole(a, b, p, d, e, line);
}

/// Every identifier is shown to the model with its category, its value and its label.
pub proof fn every_identifier_is_shown(c: CapsuleView, i: int)
    requires
        0 <= i < c.stable_identifiers.len(),
    ensures
        text::has_text(
            injection(c),
            "- ["@ + c.stable_identifiers[i].category + "] "@ + c.stable_identifiers[i].value + " ("@
                + (match c.stable_identifiers[i].label {
                Some(l) => l,
                None => Seq::empty(),
            }) + ")\n"@,
        ),
{
    let (a, b, p, d, e) = shown_sections(c);
    let x = c.stable_identifiers[i];
    let line = "- ["@ + x.category + "] "@ + x.value + " ("@ + (match x.label {
        Some(l) => l,
        None => Seq::empty(),
    }) + ")\n"@;
    let items = identifier_items(c.stable_identifiers);
    lemma_shown_sections(c);
    lemma_identifier_items(c.stable_identifiers, i);
    text::lemma_has_text_inside(items, line, "## Active Identifiers\n"@, "\n"@);
    lemma_parts_stand_in_the_whole(a, b, p, d, e, line);
}

// ---------------------------------------------------------------------------
// Laws of evolution
// ---------------------------------------------------------------------------

/// Every decision of a delta is in the evolved capsule: where the capsule held none of
/// its turn and summary, with its rationale and references, and where it did, by that
/// one. Nothing else is added.
pub proof fn every_decision_of_a_delta_is_kept(
    c: CapsuleView,
    delta: CapsuleDelta,
    turn: u64,
    now: Seq<char>,
    i: int,
)
    requires
        0 <= i < delta.new_decisions@.len(),
    ensures
        ({
            let d = delta.new_decisions@[i]@;
            let e = evolved(c, delta, turn, now).decisions_and_rationale;
            e.contains(d) || exists|k: int|
                0 <= k < c.decisions_and_rationale.len() && (
                #[trigger] c.decisions_and_rationale[k]).turn == d.turn
                    && c.decisions_and_rationale[k].summary == d.summary
        }),
        forall|x: DecisionView| #[trigger]
            evolved(c, delta, turn, now).decisions_and_rationale.contains(x)
                ==> c.decisions_and_rationale.contains(x) || exists|k: int|
                0 <= k < delta.new_decisions@.len() && (#[trigger] delta.new_decisions@[k])@ == x,
{
    let new = decisions(delta.new_decisions@);
    let ds = c.decisions_and_rationale;
    let u = unknown_decisions(ds, new);
    let e = evolved(c, delta, turn, now).decisions_and_rationale;
    assert(new[i] == delta.new_decisions@[i]@);
    if !decision_known(ds, new[i]) {
        lemma_decision_added(ds, new, i);
        let k = choose|k: int| 0 <= k < u.len() && #[trigger] u[k] == new[i];
        assert(e[ds.len() + k] == new[i]);
    }
    lemma_unknown_decisions_are_new(ds, new);
    assert forall|x: DecisionView| #[trigger] e.contains(x) implies ds.contains(x) || exists|k: int|
        0 <= k < delta.new_decisions@.len() && (#[trigger] delta.new_decisions@[k])@ == x by {
        let n = choose|n: int| 0 <= n < e.len() && e[n] == x;
        if n < ds.len() {
            assert(ds[n] == x);
        } else {
            assert(u[n - ds.len()] == x);
            assert(new.contains(x));
            let k = choose|k: int| 0 <= k < new.len() && new[k] == x;
            assert(delta.new_decisions@[k]@ == x);
        }
    }
}

proof fn lemma_unknown_decisions_are_new(ds: Seq<DecisionView>, new: Seq<DecisionView>)
    ensures
        forall|k: int|
            0 <= k < unknown_decisions(ds, new).len() ==> new.contains(
                #[trigger] unknown_decisions(ds, new)[k],
            ),
    decreases new.len(),
{
    if new.len() > 0 {
        let d = new.drop_last();
        let u = unknown_decisions(ds, new);
        let ud = unknown_decisions(ds, d);
        lemma_unknown_decisions_are_new(ds, d);
        assert forall|k: int| 0 <= k < u.len() implies new.contains(#[trigger] u[k]) by {
            if k < ud.len() {
                assert(u[k] == ud[k]);
                let n = choose|n: int| 0 <= n < d.len() && d[n] == ud[k];
                assert(new[n] == u[k]);
            } else {
                assert(new[new.len() - 1] == u[k]);
            }
        }
    }
}

/// Every identifier of a delta is in the evolved capsule, by itself or by one of its
/// category and value that the capsule held. Nothing else is added.
pub proof fn every_identifier_of_a_delta_is_kept(
    c: CapsuleView,
    delta: CapsuleDelta,
    turn: u64,
    now: Seq<char>,
    i: int,
)
    requires
        0 <= i < delta.new_identifiers@.len(),
    ensures
        ({
            let d = delta.new_identifiers@[i]@;
            let e = evolved(c, delta, turn, now).stable_identifiers;
            e.contains(d) || exists|k: int|
                0 <= k < c.stable_identifiers.len() && (#[trigger] c.stable_identifiers[k]).category
                    == d.category && c.stable_identifiers[k].value == d.value
        }),
        forall|x: IdentifierView| #[trigger]
            evolved(c, delta, turn, now).stable_identifiers.contains(x)
                ==> c.stable_identifiers.contains(x) || exists|k: int|
                0 <= k < delta.new_identifiers@.len() && (#[trigger] delta.new_identifiers@[k])@
                    == x,
{
    let new = identifiers(delta.new_identifiers@);
    let ids = c.stable_identifiers;
    let u = unknown_identifiers(ids, new);
    let e = evolved(c, delta, turn, now).stable_identifiers;
    assert(new[i] == delta.new_identifiers@[i]@);
    if !identifier_known(ids, new[i]) {
        lemma_identifier_added(ids, new, i);
        let k = choose|k: int| 0 <= k < u.len() && #[trigger] u[k] == new[i];
        assert(e[ids.len() + k] == new[i]);
    }
    lemma_unknown_identifiers_are_new(ids, new);
    assert forall|x: IdentifierView| #[trigger] e.contains(x) implies ids.contains(x) || exists|
        k: int,
    |
        0 <= k < delta.new_identifiers@.len() && (#[trigger] delta.new_identifiers@[k])@ == x by {
        let n = choose|n: int| 0 <= n < e.len() && e[n] == x;
        if n < ids.len() {
            assert(ids[n] == x);
        } else {
            assert(u[n - ids.len()] == x);
            assert(new.contains(x));
            let k = choose|k: int| 0 <= k < new.len() && new[k] == x;
            assert(delta.new_identifiers@[k]@ == x);
        }
    }
}

proof fn lemma_unknown_identifiers_are_new(ids: Seq<IdentifierView>, new: Seq<IdentifierView>)
    ensures
        forall|k: int|
            0 <= k < unknown_identifiers(ids, new).len() ==> new.contains(
                #[trigger] unknown_identifiers(ids, new)[k],
            ),
    decreases new.len(),
{
    if new.len() > 0 {
        let d = new.drop_last();
        let u = unknown_identifiers(ids, new);
        let ud = unknown_identifiers(ids, d);
        lemma_unknown_identifiers_are_new(ids, d);
        assert forall|k: int| 0 <= k < u.len() implies new.contains(#[trigger] u[k]) by {
            if k < ud.len() {
                assert(u[k] == ud[k]);
                let n = choose|n: int| 0 <= n < d.len() && d[n] == ud[k];
                assert(new[n] == u[k]);
            } else {
                assert(new[new.len() - 1] == u[k]);
            }
        }
    }
}

/// Evolving a capsule counts its version up, notes the turn and the time, takes over an
/// objective that is not blank and keeps the old one else, and keeps the session, the
/// summary of prior decisions and the handles.
pub proof fn evolution_counts_and_keeps(c: CapsuleView, delta: CapsuleDelta, turn: u64, now: Seq<char>)
    requires
        c.version < u64::MAX,
    ensures
        ({
            let e = evolved(c, delta, turn, now);
            &&& e.version == c.version + 1
            &&& e.last_update_turn == turn
            &&& e.updated_at == now
            &&& e.session_id == c.session_id
            &&& e.prior_decisions_summary == c.prior_decisions_summary
            &&& e.previous_version_handle == c.previous_version_handle
            &&& e.source_history_handle == c.source_history_handle
            &&& delta.objective_update is None ==> e.objective_and_criteria
                == c.objective_and_criteria
            &&& delta.objective_update matches Some(o) ==> {
                &&& text::all_white(o@) ==> e.objective_and_criteria == c.objective_and_criteria
                &&& !text::all_white(o@) ==> e.objective_and_criteria == o@
            }
        }),
{
    if let Some(o) = delta.objective_update {
        text::lemma_trim_blank(o@);
    }
}

/// The position of a task is where the first task of its description stands.
proof fn lemma_task_position(ts: Seq<TaskView>, description: Seq<char>, from: int, i: int)
    requires
        0 <= from <= i < ts.len(),
        ts[i].description == description,
        forall|k: int| from <= k < i ==> (#[trigger] ts[k]).description != description,
    ensures
        task_position(ts, description, from) == Some(i),
    decreases i - from,
{
    if from < i {
        lemma_task_position(ts, description, from + 1, i);
    }
}

proof fn lemma_no_task_position(ts: Seq<TaskView>, description: Seq<char>, from: int)
    requires
        0 <= from,
        forall|k: int| from <= k < ts.len() ==> (#[trigger] ts[k]).description != description,
    ensures
        task_position(ts, description, from) is None,
    decreases ts.len() - from,
{
    if from < ts.len() {
        lemma_no_task_position(ts, description, from + 1);
    }
}

/// Completing or blocking a task changes the first task of that description, in its
/// status and its turn or blocker alone, and no other.
pub proof fn updates_change_the_first_task_alone(
    ts: Seq<TaskView>,
    description: String,
    turn: u64,
    blocker: String,
    i: int,
)
    requires
        0 <= i < ts.len(),
        ts[i].description == description@,
        forall|k: int| 0 <= k < i ==> (#[trigger] ts[k]).description != description@,
    ensures
        ({
            let done = task_updated(ts, CapsuleTaskUpdate::Complete { description, turn });
            let blocked = task_updated(ts, CapsuleTaskUpdate::Block { description, blocker });
            &&& done.len() == ts.len() && blocked.len() == ts.len()
            &&& done[i].status == "completed"@ && done[i].completed_turn == Some(turn)
            &&& done[i].description == ts[i].description && done[i].added_turn == ts[i].added_turn
                && done[i].blocker == ts[i].blocker
            &&& blocked[i].status == "blocked"@ && blocked[i].blocker == Some(blocker@)
            &&& blocked[i].description == ts[i].description && blocked[i].added_turn
                == ts[i].added_turn && blocked[i].completed_turn == ts[i].completed_turn
            &&& forall|k: int|
                0 <= k < ts.len() && k != i ==> done[k] == #[trigger] ts[k] && blocked[k] == ts[k]
        }),
{
    lemma_task_position(ts, description@, 0, i);
}

/// Completing or blocking a task of a description that no task has changes nothing.
pub proof fn updates_of_unknown_tasks_change_nothing(
    ts: Seq<TaskView>,
    description: String,
    turn: u64,
    blocker: String,
)
    requires
        forall|k: int| 0 <= k < ts.len() ==> (#[trigger] ts[k]).description != description@,
    ensures
        task_updated(ts, CapsuleTaskUpdate::Complete { description, turn }) == ts,
        task_updated(ts, CapsuleTaskUpdate::Block { description, blocker }) == ts,
        task_updated(ts, CapsuleTaskUpdate::Remove { description }) == ts,
{
    lemma_no_task_position(ts, description@, 0);
    lemma_without_task(ts, description@);
    lemma_without_no_task(ts, description@);
}

proof fn lemma_without_no_task(ts: Seq<TaskView>, description: Seq<char>)
    requires
        forall|k: int| 0 <= k < ts.len() ==> (#[trigger] ts[k]).description != description,
    ensures
        without_task(ts, description) == ts,
    decreases ts.len(),
{
    if ts.len() > 0 {
        let d = ts.drop_last();
        assert forall|k: int| 0 <= k < d.len() implies (#[trigger] d[k]).description != description by {
            assert(d[k] == ts[k]);
        }
        lemma_without_no_task(d, description);
        assert(ts[ts.len() - 1].description != description);
        assert(d.push(ts.last()) =~= ts);
    } else {
        assert(ts =~= Seq::empty());
    }
}

proof fn lemma_without_task(ts: Seq<TaskView>, description: Seq<char>)
    ensures
        without_task(ts, description) == ts.filter(|t: TaskView| t.description != description),
    decreases ts.len(),
{
    reveal(Seq::filter);
    if ts.len() > 0 {
        lemma_without_task(ts.drop_last(), description);
    } else {
        assert(ts =~= Seq::empty());
    }
}

/// Adding a task puts it at the end, and removing tasks of a description leaves exactly
/// the others, in order.
pub proof fn tasks_are_added_and_removed(ts: Seq<TaskView>, t: CapsuleTask, description: String)
    ensures
        task_updated(ts, CapsuleTaskUpdate::Add(t)) == ts.push(t@),
        task_updated(ts, CapsuleTaskUpdate::Remove { description }) == ts.filter(
            |t: TaskView| t.description != description@,
        ),
{
    lemma_without_task(ts, description@);
}

/// The updates of a delta are taken in order: a delta with one more update does that
/// update to what the delta before it left.
pub proof fn updates_are_taken_in_order(
    c: CapsuleView,
    before: CapsuleDelta,
    after: CapsuleDelta,
    u: CapsuleTaskUpdate,
    turn: u64,
    now: Seq<char>,
)
    requires
        after.task_updates@ == before.task_updates@.push(u),
    ensures
        evolved(c, after, turn, now).open_tasks == task_updated(
            evolved(c, before, turn, now).open_tasks,
            u,
        ),
        before.task_updates@.len() == 0 ==> evolved(c, before, turn, now).open_tasks == c.open_tasks,
{
    assert(after.task_updates@.drop_last() =~= before.task_updates@);
}

/// A delta is refused exactly where one of its decisions refers to an approval, an id
/// that begins with `appr_`, that is the value of none of its identifiers; the refusal
/// names such an approval.
pub proof fn approvals_must_be_preserved(ds: Seq<DecisionView>, ids: Seq<IdentifierView>)
    ensures
        unpreserved(ds, ids) is None <==> forall|i: int, k: int|
            0 <= i < ds.len() && 0 <= k < ds[i].referenced_ids.len() && text::begins_with(
                #[trigger] ds[i].referenced_ids[k],
                "appr_"@,
            ) ==> exists|n: int|
                0 <= n < ids.len() && (#[trigger] ids[n]).value == ds[i].referenced_ids[k],
        unpreserved(ds, ids) matches Some(id) ==> {
            &&& text::begins_with(id, "appr_"@)
            &&& exists|i: int| 0 <= i < ds.len() && (#[trigger] ds[i]).referenced_ids.contains(id)
            &&& forall|n: int| 0 <= n < ids.len() ==> (#[trigger] ids[n]).value != id
        },
    decreases ds.len(),
{
    if ds.len() > 0 {
        let rest = ds.subrange(1, ds.len() as int);
        approvals_must_be_preserved(rest, ids);
        lemma_unpreserved_ref(ds[0].referenced_ids, ids);
        match unpreserved_ref(ds[0].referenced_ids, ids) {
            Some(id) => {
                let k = choose|k: int|
                    0 <= k < ds[0].referenced_ids.len() && ds[0].referenced_ids[k] == id;
                assert(text::begins_with(ds[0].referenced_ids[k], "appr_"@));
            },
            None => {
                if let Some(id) = unpreserved(ds, ids) {
                    let i = choose|i: int|
                        0 <= i < rest.len() && (#[trigger] rest[i]).referenced_ids.contains(id);
                    assert(ds[i + 1].referenced_ids.contains(id));
                    let refs = ds[i + 1].referenced_ids;
                    let k = choose|k: int| 0 <= k < refs.len() && refs[k] == id;
                    assert(text::begins_with(ds[i + 1].referenced_ids[k], "appr_"@));
                } else {
                    assert forall|i: int, k: int|
                        0 <= i < ds.len() && 0 <= k < ds[i].referenced_ids.len()
                            && text::begins_with(#[trigger] ds[i].referenced_ids[k], "appr_"@) implies exists|
                        n: int,
                    |
                        0 <= n < ids.len() && (#[trigger] ids[n]).value == ds[i].referenced_ids[k] by {
                        if i == 0 {
                            assert(!is_unpreserved(ids, ds[0].referenced_ids[k]));
                        } else {
                            assert(rest[i - 1].referenced_ids[k] == ds[i].referenced_ids[k]);
                        }
                    }
                }
            },
        }
    }
}

proof fn lemma_unpreserved_ref(refs: Seq<Seq<char>>, ids: Seq<IdentifierView>)
    ensures
        unpreserved_ref(refs, ids) is None ==> forall|k: int|
            0 <= k < refs.len() ==> !is_unpreserved(ids, #[trigger] refs[k]),
        unpreserved_ref(refs, ids) matches Some(id) ==> refs.contains(id) && is_unpreserved(ids, id),
    decreases refs.len(),
{
    if refs.len() > 0 {
        let rest = refs.subrange(1, refs.len() as int);
        lemma_unpreserved_ref(rest, ids);
        if is_unpreserved(ids, refs[0]) {
            assert(refs.contains(refs[0]));
        } else {
            match unpreserved_ref(refs, ids) {
                Some(id) => {
                    let k = choose|k: int| 0 <= k < rest.len() && rest[k] == id;
                    assert(refs[k + 1] == id);
                },
                None => {
                    assert forall|k: int| 0 <= k < refs.len() implies !is_unpreserved(
                        ids,
                        #[trigger] refs[k],
                    ) by {
                        if k > 0 {
                            assert(rest[k - 1] == refs[k]);
                        }
                    }
                },
            }
        }
    }
}

/// Decisions that capping takes out are read in the summary of prior decisions; as many
/// decisions stay as the cap allows, and nothing else of the capsule changes.
pub proof fn capped_decisions_are_summarized(c: CapsuleView, max: nat, i: int)
    requires
        0 <= i < c.decisions_and_rationale.len() - max,
    ensures
        ({
            let d = c.decisions_and_rationale[i];
            let e = decisions_capped(c, max);
            &&& e.decisions_and_rationale.len() == max
            &&& e.prior_decisions_summary is Some
            &&& text::has_text(
                e.prior_decisions_summary->Some_0,
                "[Turn "@ + text::decimal(d.turn as nat) + "] "@ + d.summary + ": "@ + d.rationale,
            )
            &&& e.stable_identifiers == c.stable_identifiers
            &&& e.open_tasks == c.open_tasks
            &&& e.objective_and_criteria == c.objective_and_criteria
            &&& e.version == c.version
        }),
{
    let ds = c.decisions_and_rationale;
    let lines = ds.subrange(0, ds.len() - max).map_values(|d: DecisionView| decision_line(d));
    text::lemma_join_has(lines, "\n"@, i);
    assert(lines[i] == decision_line(ds[i]));
}

/// A capsule with no more decisions and completed tasks than the caps stays as it is.
pub proof fn small_capsules_are_not_capped(c: CapsuleView, max: nat)
    ensures
        c.decisions_and_rationale.len() <= max ==> decisions_capped(c, max) == c,
        c.open_tasks.filter(|t: TaskView| t.status == "completed"@).len() <= max
            ==> completed_capped(c, max) == c,
{
    lemma_completed_filter(c.open_tasks);
}

proof fn lemma_completed_filter(ts: Seq<TaskView>)
    ensures
        completed_count(ts) == ts.filter(|t: TaskView| t.status == "completed"@).len(),
    decreases ts.len(),
{
    reveal(Seq::filter);
    if ts.len() > 0 {
        lemma_completed_filter(ts.drop_last());
    }
}

/// Capping takes out the oldest completed tasks alone: the completed tasks that stay are
/// the last ones, as many as the cap allows, and the others all stay, in order.
pub proof fn capping_keeps_the_latest_completed_tasks(c: CapsuleView, max: nat)
    ensures
        ({
            let e = completed_capped(c, max).open_tasks;
            let done = c.open_tasks.filter(|t: TaskView| t.status == "completed"@);
            let left = e.filter(|t: TaskView| t.status == "completed"@);
            &&& e.filter(|t: TaskView| t.status != "completed"@) == c.open_tasks.filter(
                |t: TaskView| t.status != "completed"@,
            )
            &&& done.len() > max ==> left == done.subrange(done.len() - max, done.len() as int)
            &&& done.len() <= max ==> e == c.open_tasks
        }),
{
    let n = completed_count(c.open_tasks);
    lemma_completed_filter(c.open_tasks);
    if n > max {
        lemma_drop_filters(c.open_tasks, (n - max) as nat);
    }
}

proof fn lemma_drop_filters(ts: Seq<TaskView>, k: nat)
    ensures
        drop_completed(ts, k).filter(|t: TaskView| t.status != "completed"@) == ts.filter(
            |t: TaskView| t.status != "completed"@,
        ),
        ({
            let done = ts.filter(|t: TaskView| t.status == "completed"@);
            drop_completed(ts, k).filter(|t: TaskView| t.status == "completed"@) == (if k
                <= done.len() {
                done.subrange(k as int, done.len() as int)
            } else {
                Seq::empty()
            })
        }),
    decreases ts.len(),
{
    reveal(Seq::filter);
    let open = |t: TaskView| t.status != "completed"@;
    let is_done = |t: TaskView| t.status == "completed"@;
    if ts.len() > 0 {
        let d = ts.drop_last();
        let r = drop_completed(ts, k);
        let rd = drop_completed(d, k);
        let done = ts.filter(is_done);
        lemma_drop_filters(d, k);
        lemma_completed_filter(d);
        if r.len() > rd.len() {
            assert(r.drop_last() =~= rd);
        }
        if is_done(ts.last()) {
            let dd = d.filter(is_done);
            assert(done == dd.push(ts.last()));
            if dd.len() < k {
                assert(r == rd);
                if k <= done.len() {
                    assert(done.subrange(k as int, done.len() as int) =~= Seq::empty());
                }
            } else {
                assert(done.subrange(k as int, done.len() as int) =~= dd.subrange(
                    k as int,
                    dd.len() as int,
                ).push(ts.last()));
            }
        }
    } else {
        assert(ts.filter(is_done) =~= Seq::empty());
        assert(drop_completed(ts, k) =~= ts);
    }
}

// ---------------------------------------------------------------------------
// Laws of seeding and of asking for a delta
// ---------------------------------------------------------------------------

/// A compression goes on with the prior capsule as it is. Without one it starts a first
/// version, whose objective is the earlier summary that stands first in the history, or
/// empty where there is none.
pub proof fn capsules_go_on_or_start_from_a_summary(
    prior: CapsuleView,
    session_id: Seq<char>,
    s: Seq<llm::MessageView>,
    turn: u64,
    now: Seq<char>,
    i: int,
)
    requires
        0 <= i <= s.len(),
        forall|k: int|
            0 <= k < i ==> !text::has_text((#[trigger] s[k]).content, "[COMPRESSED CONTEXT"@),
        i < s.len() ==> text::has_text(s[i].content, "[COMPRESSED CONTEXT"@),
    ensures
        seeded(Some(prior), session_id, s, turn, now) == prior,
        ({
            let c = seeded(None, session_id, s, turn, now);
            &&& c.version == 1
            &&& c.session_id == session_id
            &&& c.last_update_turn == turn
            &&& i < s.len() ==> c.objective_and_criteria == s[i].content
            &&& i == s.len() ==> c.objective_and_criteria.len() == 0
            &&& c.decisions_and_rationale.len() == 0 && c.stable_identifiers.len() == 0
                && c.open_tasks.len() == 0
            &&& c.prior_decisions_summary is None && c.previous_version_handle is None
                && c.source_history_handle is None
        }),
{
    lemma_marked_content(s, i);
}

proof fn lemma_marked_content(s: Seq<llm::MessageView>, i: int)
    requires
        0 <= i <= s.len(),
        forall|k: int|
            0 <= k < i ==> !text::has_text((#[trigger] s[k]).content, "[COMPRESSED CONTEXT"@),
        i < s.len() ==> text::has_text(s[i].content, "[COMPRESSED CONTEXT"@),
    ensures
        marked_content(s) == (if i < s.len() {
            Some(s[i].content)
        } else {
            None
        }),
    decreases s.len(),
{
    if i > 0 {
        assert(!text::has_text(s[0].content, "[COMPRESSED CONTEXT"@));
        let rest = s.subrange(1, s.len() as int);
        assert forall|k: int| 0 <= k < i - 1 implies !text::has_text(
            (#[trigger] rest[k]).content,
            "[COMPRESSED CONTEXT"@,
        ) by {
            assert(rest[k] == s[k + 1]);
        }
        lemma_marked_content(rest, i - 1);
    }
}

/// The prompt that asks for a delta holds the capsule as it is and every message of the
/// recent turns, whole, with its role; where there is a plan, it holds the plan's block.
pub proof fn delta_prompts_hold_the_capsule_and_the_turns(
    s: Seq<llm::MessageView>,
    capsule_json: Seq<char>,
    plan: Option<&PlanFrameSummary>,
)
    ensures
        text::has_text(delta_prompt(s, capsule_json, plan), capsule_json),
        plan matches Some(p) ==> text::has_text(delta_prompt(s, capsule_json, plan), plan_block(*p)),
        forall|i: int|
            0 <= i < s.len() ==> text::has_text(
                delta_prompt(s, capsule_json, plan),
                "["@ + llm::role_name((#[trigger] s[i]).role) + "] "@ + s[i].content,
            ),
{
    let a =
        "You are a state capsule update extractor. Given the current session state capsule and recent conversation turns, produce a structured delta describing what changed.\n\n"@;
    let b = match plan {
        Some(p) => plan_block(*p),
        None => Seq::empty(),
    };
    let c = "Current State Capsule (JSON):\n"@;
    let d = "\n\nRecent Conversation Turns:\n"@;
    let lines = s.map_values(|m: llm::MessageView| turn_line(m));
    let e = text::join(lines, "\n"@);
    let f = DELTA_SCHEMA@;
    let all = delta_prompt(s, capsule_json, plan);
    assert(all == a + b + c + capsule_json + d + e + f);
    text::lemma_has_text_around(a + b + c, capsule_json, d + e + f);
    assert(a + b + c + capsule_json + (d + e + f) =~= all);
    text::lemma_has_text_around(a, b, c + capsule_json + d + e + f);
    assert(a + b + (c + capsule_json + d + e + f) =~= all);
    assert forall|i: int| 0 <= i < s.len() implies text::has_text(
        all,
        "["@ + llm::role_name((#[trigger] s[i]).role) + "] "@ + s[i].content,
    ) by {
        assert(lines[i] == turn_line(s[i]));
        text::lemma_join_has(lines, "\n"@, i);
        text::lemma_has_text_inside(e, lines[i], a + b + c + capsule_json + d, f);
    }
}

/// The block of a plan names the plan, its version and status, its title, and each of its
/// steps and validations.
pub proof fn plan_blocks_name_the_steps(p: PlanFrameSummary)
    ensures
        text::has_text(
            plan_block(p),
            "- plan_id: "@ + p.plan_id@ + " v"@ + text::decimal(p.version as nat) + " (status: "@
                + p.status@ + ")\n"@,
        ),
        p.title@.len() > 0 ==> text::has_text(plan_block(p), "- title: "@ + p.title@ + "\n"@),
        p.step_count > 0 ==> text::has_text(
            plan_block(p),
            "- step_count: "@ + text::decimal(p.step_count as nat) + "\n"@,
        ),
        p.operator_steps@.len() > 0 ==> text::has_text(
            plan_block(p),
            "- operator/shared steps: "@ + text::join(p.operator_steps.deep_view(), ", "@) + "\n"@,
        ),
        p.agent_steps@.len() > 0 ==> text::has_text(
            plan_block(p),
            "- agent steps: "@ + text::join(p.agent_steps.deep_view(), ", "@) + "\n"@,
        ),
        p.required_validations@.len() > 0 ==> text::has_text(
            plan_block(p),
            "- required validations: "@ + text::join(p.required_validations.deep_view(), ", "@)
                + "\n"@,
        ),
        p.advisory_validations@.len() > 0 ==> text::has_text(
            plan_block(p),
            "- advisory validations: "@ + text::join(p.advisory_validations.deep_view(), ", "@)
                + "\n"@,
        ),
{
    let h = "Active Plan (use as a relevance lens \u{2014} prefer plan-advancing items):\n"@;
    let id = "- plan_id: "@ + p.plan_id@ + " v"@ + text::decimal(p.version as nat) + " (status: "@
        + p.status@ + ")\n"@;
    let title = if p.title@.len() == 0 {
        Seq::empty()
    } else {
        "- title: "@ + p.title@ + "\n"@
    };
    let count = if p.step_count == 0 {
        Seq::empty()
    } else {
        "- step_count: "@ + text::decimal(p.step_count as nat) + "\n"@
    };
    let a = plan_list("- operator/shared steps: "@, p.operator_steps.deep_view());
    let b = plan_list("- agent steps: "@, p.agent_steps.deep_view());
    let c = plan_list("- required validations: "@, p.required_validations.deep_view());
    let d = plan_list("- advisory validations: "@, p.advisory_validations.deep_view());
    let n = "\n"@;
    let all = plan_block(p);
    lemma_plan_block(p, h, id, title, count, a, b, c, d);
    let parts = seq![h, id, title, count, a, b, c, d, n];
    text::lemma_join_has(parts, Seq::empty(), 1);
    text::lemma_join_has(parts, Seq::empty(), 2);
    text::lemma_join_has(parts, Seq::empty(), 3);
    text::lemma_join_has(parts, Seq::empty(), 4);
    text::lemma_join_has(parts, Seq::empty(), 5);
    text::lemma_join_has(parts, Seq::empty(), 6);
    text::lemma_join_has(parts, Seq::empty(), 7);
    assert(parts[1] == id && parts[2] == title && parts[3] == count && parts[4] == a && parts[5] == b
        && parts[6] == c && parts[7] == d);
    assert(p.operator_steps.deep_view().len() == p.operator_steps@.len());
    assert(p.agent_steps.deep_view().len() == p.agent_steps@.len());
    assert(p.required_validations.deep_view().len() == p.required_validations@.len());
    assert(p.advisory_validations.deep_view().len() == p.advisory_validations@.len());
}

proof fn lemma_plan_block(
    p: PlanFrameSummary,
    h: Seq<char>,
    id: Seq<char>,
    title: Seq<char>,
    count: Seq<char>,
    a: Seq<char>,
    b: Seq<char>,
    c: Seq<char>,
    d: Seq<char>,
)
    requires
        h == "Active Plan (use as a relevance lens \u{2014} prefer plan-advancing items):\n"@,
        id == "- plan_id: "@ + p.plan_id@ + " v"@ + text::decimal(p.version as nat) + " (status: "@
            + p.status@ + ")\n"@,
        title == (if p.title@.len() == 0 {
            Seq::empty()
        } else {
            "- title: "@ + p.title@ + "\n"@
        }),
        count == (if p.step_count == 0 {
            Seq::empty()
        } else {
            "- step_count: "@ + text::decimal(p.step_count as nat) + "\n"@
        }),
        a == plan_list("- operator/shared steps: "@, p.operator_steps.deep_view()),
        b == plan_list("- agent steps: "@, p.agent_steps.deep_view()),
        c == plan_list("- required validations: "@, p.required_validations.deep_view()),
        d == plan_list("- advisory validations: "@, p.advisory_validations.deep_view()),
    ensures
        plan_block(p) == text::join(seq![h, id, title, count, a, b, c, d, "\n"@], Seq::empty()),
{
    let none = Seq::<Seq<char>>::empty();
    let n = "\n"@;
    let head = h + "- plan_id: "@ + p.plan_id@ + " v"@ + text::decimal(p.version as nat)
        + " (status: "@ + p.status@ + ")\n"@;
    assert(head =~= h + id);
    assert(plan_block(p) == head + title + count + a + b + c + d + n);
    text::lemma_join_push(none, h);
    text::lemma_join_push(seq![h], id);
    text::lemma_join_push(seq![h, id], title);
    text::lemma_join_push(seq![h, id, title], count);
    text::lemma_join_push(seq![h, id, title, count], a);
    text::lemma_join_push(seq![h, id, title, count, a], b);
    text::lemma_join_push(seq![h, id, title, count, a, b], c);
    text::lemma_join_push(seq![h, id, title, count, a, b, c], d);
    text::lemma_join_push(seq![h, id, title, count, a, b, c, d], n);
    assert(none.push(h) =~= seq![h]);
    assert(seq![h].push(id) =~= seq![h, id]);
    assert(seq![h, id].push(title) =~= seq![h, id, title]);
    assert(seq![h, id, title].push(count) =~= seq![h, id, title, count]);
    assert(seq![h, id, title, count].push(a) =~= seq![h, id, title, count, a]);
    assert(seq![h, id, title, count, a].push(b) =~= seq![h, id, title, count, a, b]);
    assert(seq![h, id, title, count, a, b].push(c) =~= seq![h, id, title, count, a, b, c]);
    assert(seq![h, id, title, count, a, b, c].push(d) =~= seq![h, id, title, count, a, b, c, d]);
    assert(seq![h, id, title, count, a, b, c, d].push(n) =~= seq![
        h,
        id,
        title,
        count,
        a,
        b,
        c,
        d,
        n,
    ]);
    assert(text::join(none, Seq::empty()) + h =~= h);
}

/// A reply in a code fence, with white space around it, is read without the fence, and a
/// reply without one is read as it is.
pub proof fn fences_are_taken_off(
    left: Seq<char>,
    body: Seq<char>,
    right: Seq<char>,
)
    requires
        text::all_white(left),
        text::all_white(right),
    ensures
        unfenced(left + ("```json"@ + body + "```"@) + right) == body,
        text::is_trimmed(body) && !text::begins_with(body, "```"@) ==> unfenced(left + body + right)
            == body,
{
    reveal_strlit("```json");
    reveal_strlit("```");
    let t = "```json"@ + body + "```"@;
    assert(t[0] == '`' && t.last() == '`');
    text::lemma_trim_padded(left, t, right);
    assert(t.subrange(0, 7) =~= "```json"@);
    let i = t.subrange(7, t.len() as int);
    assert(i =~= body + "```"@);
    assert(i.subrange(i.len() - 3, i.len() as int) =~= "```"@);
    assert(i.subrange(0, i.len() - 3) =~= body);
    if text::is_trimmed(body) && !text::begins_with(body, "```"@) {
        text::lemma_trim_padded(left, body, right);
        if text::begins_with(body, "```json"@) {
            assert(body.subrange(0, 7) == "```json"@);
            assert(body.subrange(0, 3) =~= body.subrange(0, 7).subrange(0, 3));
            assert("```json"@.subrange(0, 3) =~= "```"@);
        }
    }
}

/// Versions and turns are archived under names that tell both.
pub proof fn archives_name_version_and_turn(version: nat, turn: nat)
    ensures
        text::begins_with(capsule_name(version, turn), "capsule_v"@ + text::decimal(version)),
        text::finishes_with(capsule_name(version, turn), "_turn_"@ + text::decimal(turn)),
{
    let a = "capsule_v"@ + text::decimal(version);
    let b = "_turn_"@ + text::decimal(turn);
    let all = capsule_name(version, turn);
    assert(all =~= a + b);
    assert(all.subrange(0, a.len() as int) =~= a);
    assert(all.subrange(all.len() - b.len(), all.len() as int) =~= b);
}

/// A first capsule holds its objective and nothing yet decided, named or to be done.
pub proof fn first_capsules_hold_the_objective(
    session_id: Seq<char>,
    turn: u64,
    objective: Seq<char>,
    now: Seq<char>,
)
    ensures
        ({
            let c = first_capsule(session_id, turn, objective, now);
            &&& c.version == 1
            &&& c.session_id == session_id
            &&& c.last_update_turn == turn
            &&& c.objective_and_criteria == objective
            &&& c.decisions_and_rationale.len() == 0
            &&& c.stable_identifiers.len() == 0
            &&& c.open_tasks.len() == 0
            &&& c.previous_version_handle is None
            &&& c.updated_at == now
        }),
{
}

} // verus!
