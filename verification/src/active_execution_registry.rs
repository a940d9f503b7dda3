//! What runs at the moment: the tasks of workflows and the processes of
//! sandboxes, by which an emergency stop finds them, and the requests to pause.

use crate::causal;
use crate::text;
use crate::textmap::TextMap;
use vstd::prelude::*;

verus! {

/// A process of a sandbox, and the root session that it runs for.
#[derive(Debug)]
pub struct SandboxChildRecord {
    pub root_session_id: String,
    pub pid: u32,
}

/// What runs at the moment. `H` is what stops a task.
pub struct ActiveExecutionRegistry<H> {
    /// Tasks of workflows, by their keys.
    pub workflow_tasks: TextMap<H>,
    /// Processes of sandboxes, by the ids of their registrations.
    pub sandbox_children: TextMap<SandboxChildRecord>,
    /// Reasons of requested pauses, by root session. A pause is gentle: the turn
    /// finishes its tool calls before it yields.
    pub pause_requests: TextMap<String>,
}

/// The key of a task.
pub open spec fn task_key(workflow: Seq<char>, task: Seq<char>) -> Seq<char> {
    workflow + ":"@ + task
}

/// The keys of tasks.
pub open spec fn task_keys(workflow: Seq<char>, tasks: Seq<Seq<char>>) -> Seq<Seq<char>> {
    tasks.map_values(|t: Seq<char>| task_key(workflow, t))
}

/// What is taken out of `m` by removing `keys` one after the other.
pub open spec fn taken<H>(m: Map<Seq<char>, H>, keys: Seq<Seq<char>>) -> Seq<H>
    decreases keys.len(),
{
    if keys.len() == 0 {
        Seq::empty()
    } else {
        let before = taken(m, keys.drop_last());
        let k = keys.last();
        if m.dom().contains(k) && !keys.drop_last().contains(k) {
            before.push(m[k])
        } else {
            before
        }
    }
}

/// The processes that run for a root session, in the order of `keys`.
pub open spec fn pids_for(
    m: Map<Seq<char>, SandboxChildRecord>,
    keys: Seq<Seq<char>>,
    root: Seq<char>,
) -> Seq<u32>
    decreases keys.len(),
{
    if keys.len() == 0 {
        Seq::empty()
    } else {
        let before = pids_for(m, keys.drop_last(), root);
        let k = keys.last();
        if m[k].root_session_id@ == root {
            before.push(m[k].pid)
        } else {
            before
        }
    }
}

/// The entries that run for a root session.
pub open spec fn runs_for(m: Map<Seq<char>, SandboxChildRecord>, root: Seq<char>) -> Set<Seq<char>> {
    Set::new(|k: Seq<char>| m.dom().contains(k) && m[k].root_session_id@ == root)
}

fn workflow_task_key(workflow_id: &str, task_id: &str) -> (r: String)
    ensures
        r@ == task_key(workflow_id@, task_id@),
{
    let mut s = workflow_id.to_owned();
    s.append(":");
    s.append(task_id);
    s
}

impl<H> ActiveExecutionRegistry<H> {
    /// A registry in which nothing runs.
    pub fn new() -> (r: ActiveExecutionRegistry<H>)
        ensures
            r.workflow_tasks@ == Map::<Seq<char>, H>::empty(),
            r.sandbox_children@ == Map::<Seq<char>, SandboxChildRecord>::empty(),
            r.pause_requests@ == Map::<Seq<char>, String>::empty(),
    {
        ActiveExecutionRegistry {
            workflow_tasks: TextMap::new(),
            sandbox_children: TextMap::new(),
            pause_requests: TextMap::new(),
        }
    }

    /// Asks a root session to pause. A later request replaces an earlier one.
    pub fn request_pause(&mut self, root_session_id: &str, reason: &str)
        ensures
            final(self).pause_requests@.dom() == old(self).pause_requests@.dom().insert(
                root_session_id@,
            ),
            final(self).pause_requests@[root_session_id@]@ == reason@,
            forall|k: Seq<char>|
                k != root_session_id@ && #[trigger] old(self).pause_requests@.dom().contains(k)
                    ==> final(self).pause_requests@[k] == old(self).pause_requests@[k],
            final(self).workflow_tasks == old(self).workflow_tasks,
            final(self).sandbox_children == old(self).sandbox_children,
    {
        self.pause_requests.insert(root_session_id, reason.to_owned());
        assert(self.pause_requests@.dom() =~= old(self).pause_requests@.dom().insert(
            root_session_id@,
        ));
    }

    /// Takes a request to pause back.
    pub fn clear_pause(&mut self, root_session_id: &str)
        ensures
            final(self).pause_requests@ == old(self).pause_requests@.remove(root_session_id@),
            final(self).workflow_tasks == old(self).workflow_tasks,
            final(self).sandbox_children == old(self).sandbox_children,
    {
        self.pause_requests.remove(root_session_id);
    }

    /// Whether a root session was asked to pause and has not yet.
    pub fn is_pause_pending(&self, root_session_id: &str) -> (r: bool)
        ensures
            r == self.pause_requests@.dom().contains(root_session_id@),
    {
        self.pause_requests.contains_key(root_session_id)
    }

    /// Takes the request to pause, with its reason: it is answered once.
    pub fn take_pause_request(&mut self, root_session_id: &str) -> (r: Option<String>)
        ensures
            match r {
                Some(s) => old(self).pause_requests@.dom().contains(root_session_id@) && s == old(self).pause_requests@[root_session_id@],
                None => !old(self).pause_requests@.dom().contains(root_session_id@),
            },
            final(self).pause_requests@ == old(self).pause_requests@.remove(root_session_id@),
            final(self).workflow_tasks == old(self).workflow_tasks,
            final(self).sandbox_children == old(self).sandbox_children,
    {
        self.pause_requests.remove(root_session_id)
    }

    /// Registers what stops a task.
    pub fn register_workflow_task(&mut self, workflow_id: &str, task_id: &str, handle: H)
        ensures
            final(self).workflow_tasks@ == old(self).workflow_tasks@.insert(
                task_key(workflow_id@, task_id@),
                handle,
            ),
            final(self).sandbox_children == old(self).sandbox_children,
            final(self).pause_requests == old(self).pause_requests,
    {
        let key = workflow_task_key(workflow_id, task_id);
        self.workflow_tasks.insert(key.as_str(), handle);
    }

    /// Forgets a task that is done.
    pub fn unregister_workflow_task(&mut self, workflow_id: &str, task_id: &str)
        ensures
            final(self).workflow_tasks@ == old(self).workflow_tasks@.remove(
                task_key(workflow_id@, task_id@),
            ),
            final(self).sandbox_children == old(self).sandbox_children,
            final(self).pause_requests == old(self).pause_requests,
    {
        let key = workflow_task_key(workflow_id, task_id);
        self.workflow_tasks.remove(key.as_str());
    }

    /// Takes out what stops the given tasks of a workflow. Their number is the
    /// number of tasks that were running.
    pub fn abort_workflow_tasks(&mut self, workflow_id: &str, task_ids: &Vec<String>) -> (r: Vec<H>)
        ensures
            r@ == taken(
                old(self).workflow_tasks@,
                task_keys(workflow_id@, task_ids.deep_view()),
            ),
            final(self).workflow_tasks@ == old(self).workflow_tasks@.remove_keys(
                task_keys(workflow_id@, task_ids.deep_view()).to_set(),
            ),
            final(self).sandbox_children == old(self).sandbox_children,
            final(self).pause_requests == old(self).pause_requests,
    {
        let ghost m = self.workflow_tasks@;
        let ghost all = task_keys(workflow_id@, task_ids.deep_view());
        let mut out: Vec<H> = Vec::new();
        let mut i: usize = 0;
        assert(m.remove_keys(all.subrange(0, 0).to_set()) =~= m);
        while i < task_ids.len()
            invariant
                i <= task_ids@.len(),
                all == task_keys(workflow_id@, task_ids.deep_view()),
                out@ == taken(m, all.subrange(0, i as int)),
                self.workflow_tasks@ == m.remove_keys(all.subrange(0, i as int).to_set()),
                self.sandbox_children == old(self).sandbox_children,
                self.pause_requests == old(self).pause_requests,
            decreases task_ids@.len() - i,
        {
            let key = workflow_task_key(workflow_id, task_ids[i].as_str());
            let ghost before = self.workflow_tasks@;
            let ghost done = all.subrange(0, i as int);
            let ghost now = all.subrange(0, i + 1);
            proof {
                assert(now.drop_last() =~= done);
                assert(now.last() == key@);
                assert(done.to_set().contains(key@) <==> done.contains(key@));
            }
            if let Some(h) = self.workflow_tasks.remove(key.as_str()) {
                out.push(h);
            }
            proof {
                assert forall|k: Seq<char>| now.to_set().contains(k) <==> done.to_set().contains(k)
                    || k == key@ by {
                    assert(now =~= done.push(key@));
                    if done.contains(k) {
                        let x = choose|x: int| 0 <= x < done.len() && done[x] == k;
                        assert(now[x] == k);
                    }
                    if k == key@ {
                        assert(now[i as int] == k);
                    }
                    if now.contains(k) {
                        let x = choose|x: int| 0 <= x < now.len() && now[x] == k;
                        if x < i {
                            assert(done[x] == k);
                        }
                    }
                }
                assert(self.workflow_tasks@ =~= m.remove_keys(now.to_set()));
            }
            i = i + 1;
        }
        assert(all.subrange(0, i as int) =~= all);
        out
    }

    /// Registers a process of a sandbox under an id that holds `unique`.
    pub fn register_sandbox_child_pid_as(
        &mut self,
        unique: &str,
        root_session_id: &str,
        pid: u32,
    ) -> (r: String)
        ensures
            r@ == "sb-"@ + unique@,
            final(self).sandbox_children@.dom() == old(self).sandbox_children@.dom().insert(r@),
            final(self).sandbox_children@[r@].root_session_id@ == root_session_id@,
            final(self).sandbox_children@[r@].pid == pid,
            forall|k: Seq<char>|
                k != r@ && #[trigger] old(self).sandbox_children@.dom().contains(k) ==> final(self).sandbox_children@[k] == old(self).sandbox_children@[k],
            final(self).workflow_tasks == old(self).workflow_tasks,
            final(self).pause_requests == old(self).pause_requests,
    {
        let mut id = "sb-".to_owned();
        id.append(unique);
        self.sandbox_children.insert(
            id.as_str(),
            SandboxChildRecord { root_session_id: root_session_id.to_owned(), pid },
        );
        assert(self.sandbox_children@.dom() =~= old(self).sandbox_children@.dom().insert(id@));
        id
    }

    /// Registers a process of a sandbox under a fresh id.
    pub fn register_sandbox_child_pid(&mut self, root_session_id: &str, pid: u32) -> (r: String)
        ensures
            exists|u: Seq<char>| causal::is_uuid_text(u) && r@ == #[trigger] ("sb-"@ + u),
            final(self).sandbox_children@.dom() == old(self).sandbox_children@.dom().insert(r@),
            final(self).sandbox_children@[r@].root_session_id@ == root_session_id@,
            final(self).sandbox_children@[r@].pid == pid,
            forall|k: Seq<char>|
                k != r@ && #[trigger] old(self).sandbox_children@.dom().contains(k) ==> final(self).sandbox_children@[k] == old(self).sandbox_children@[k],
            final(self).workflow_tasks == old(self).workflow_tasks,
            final(self).pause_requests == old(self).pause_requests,
    {
        let unique = causal::random_uuid();
        self.register_sandbox_child_pid_as(unique.as_str(), root_session_id, pid)
    }

    /// Forgets a process that is gone.
    pub fn unregister_sandbox_pid(&mut self, reg_id: &str)
        ensures
            final(self).sandbox_children@ == old(self).sandbox_children@.remove(reg_id@),
            final(self).workflow_tasks == old(self).workflow_tasks,
            final(self).pause_requests == old(self).pause_requests,
    {
        self.sandbox_children.remove(reg_id);
    }

    /// Takes out the processes that run for a root session, to be killed.
    pub fn kill_sandbox_children_for_root(&mut self, root_session_id: &str) -> (r: Vec<u32>)
        ensures
            r@ == pids_for(
                old(self).sandbox_children@,
                old(self).sandbox_children.key_seq(),
                root_session_id@,
            ),
            final(self).sandbox_children@ == old(self).sandbox_children@.remove_keys(
                runs_for(old(self).sandbox_children@, root_session_id@),
            ),
            final(self).workflow_tasks == old(self).workflow_tasks,
            final(self).pause_requests == old(self).pause_requests,
    {
        let ghost m = self.sandbox_children@;
        let ghost keys = self.sandbox_children.key_seq();
        let n = self.sandbox_children.len();
        let mut pids: Vec<u32> = Vec::new();
        let mut doomed: Vec<String> = Vec::new();
        let mut i: usize = 0;
        assert(doomed.deep_view() =~= Seq::<Seq<char>>::empty());
        while i < n
            invariant
                i <= n,
                n == keys.len(),
                keys == self.sandbox_children.key_seq(),
                m == self.sandbox_children@,
                *self == *old(self),
                pids@ == pids_for(m, keys.subrange(0, i as int), root_session_id@),
                forall|k: Seq<char>| #[trigger]
                    doomed.deep_view().contains(k) <==> m[k].root_session_id@ == root_session_id@
                        && exists|x: int| 0 <= x < i && #[trigger] keys[x] == k,
            decreases n - i,
        {
            let ghost before = doomed.deep_view();
            proof {
                let t = keys.subrange(0, i + 1);
                assert(t.drop_last() =~= keys.subrange(0, i as int));
                assert(t.last() == keys[i as int]);
            }
            let rec = self.sandbox_children.value_at(i);
            if text::text_eq(rec.root_session_id.as_str(), root_session_id) {
                pids.push(rec.pid);
                let key = self.sandbox_children.key_at(i).clone();
                doomed.push(key);
                proof {
                    assert(doomed.deep_view() =~= before.push(key@));
                    assert forall|k: Seq<char>| #[trigger] doomed.deep_view().contains(k)
                        <==> m[k].root_session_id@ == root_session_id@ && exists|x: int|
                        0 <= x < i + 1 && #[trigger] keys[x] == k by {
                        text::lemma_push_contains(before, key@, k);
                        if k == key@ {
                            assert(keys[i as int] == k);
                        }
                    }
                }
            } else {
                proof {
                    assert forall|k: Seq<char>| #[trigger] doomed.deep_view().contains(k)
                        <==> m[k].root_session_id@ == root_session_id@ && exists|x: int|
                        0 <= x < i + 1 && #[trigger] keys[x] == k by {
                        if m[k].root_session_id@ == root_session_id@ && exists|x: int|
                            0 <= x < i + 1 && #[trigger] keys[x] == k {
                            let x = choose|x: int| 0 <= x < i + 1 && #[trigger] keys[x] == k;
                            assert(x != i);
                        }
                    }
                }
            }
            i = i + 1;
        }
        assert(keys.subrange(0, i as int) =~= keys);
        let ghost all = doomed.deep_view();
        let mut j: usize = 0;
        assert(m.remove_keys(all.subrange(0, 0).to_set()) =~= m);
        while j < doomed.len()
            invariant
                j <= doomed@.len(),
                all == doomed.deep_view(),
                self.sandbox_children@ == m.remove_keys(all.subrange(0, j as int).to_set()),
                self.workflow_tasks == old(self).workflow_tasks,
                self.pause_requests == old(self).pause_requests,
            decreases doomed@.len() - j,
        {
            let ghost done = all.subrange(0, j as int);
            let ghost now = all.subrange(0, j + 1);
            self.sandbox_children.remove(doomed[j].as_str());
            proof {
                let key = doomed@[j as int]@;
                assert(now =~= done.push(key));
                assert forall|k: Seq<char>| now.to_set().contains(k) <==> done.to_set().contains(k)
                    || k == key by {
                    text::lemma_push_contains(done, key, k);
                }
                assert(self.sandbox_children@ =~= m.remove_keys(now.to_set()));
            }
            j = j + 1;
        }
        proof {
            assert(all.subrange(0, j as int) =~= all);
            assert(m.remove_keys(all.to_set()) =~= m.remove_keys(runs_for(m, root_session_id@))) by {
                assert forall|k: Seq<char>| m.dom().contains(k) implies (all.to_set().contains(k)
                    <==> runs_for(m, root_session_id@).contains(k)) by {
                    assert(keys.contains(k));
                    let x = choose|x: int| 0 <= x < keys.len() && keys[x] == k;
                    assert(0 <= x < n && keys[x] == k);
                }
            }
        }
        pids
    }
}

// ---------------------------------------------------------------------------
// Laws
// ---------------------------------------------------------------------------

/// A stop of one root session leaves the processes of the others registered.
pub proof fn stops_spare_other_sessions(
    before: Map<Seq<char>, SandboxChildRecord>,
    root: Seq<char>,
    key: Seq<char>,
)
    ensures
        before.remove_keys(runs_for(before, root)).dom().contains(key) <==> before.dom().contains(
            key,
        ) && before[key].root_session_id@ != root,
        before.remove_keys(runs_for(before, root)).dom().contains(key) ==> before.remove_keys(
            runs_for(before, root),
        )[key] == before[key],
{
}

/// No task is stopped twice: as many are taken out as the registry is left with
/// fewer.
pub proof fn tasks_are_stopped_once<H>(m: Map<Seq<char>, H>, keys: Seq<Seq<char>>)
    requires
        m.dom().finite(),
    ensures
        taken(m, keys).len() + m.remove_keys(keys.to_set()).dom().len() == m.dom().len(),
    decreases keys.len(),
{
    if keys.len() == 0 {
        assert(m.remove_keys(keys.to_set()) =~= m);
    } else {
        let d = keys.drop_last();
        let k = keys.last();
        tasks_are_stopped_once(m, d);
        assert(keys =~= d.push(k));
        let a = m.remove_keys(d.to_set()).dom();
        let b = m.remove_keys(keys.to_set()).dom();
        assert(a =~= m.dom().difference(d.to_set()));
        assert forall|x: Seq<char>| b.contains(x) <==> a.contains(x) && x != k by {
            text::lemma_push_contains(d, k, x);
            assert(keys.to_set().contains(x) <==> keys.contains(x));
            assert(d.to_set().contains(x) <==> d.contains(x));
        }
        assert(b =~= a.remove(k));
        assert(a.contains(k) <==> m.dom().contains(k) && !d.contains(k)) by {
            assert(d.to_set().contains(k) <==> d.contains(k));
        }
        assert(a.finite());
    }
}

/// A stop of a root session takes out the process of every entry that runs for it, and
/// of no other entry.
pub proof fn stops_reach_every_process_of_the_session(
    m: Map<Seq<char>, SandboxChildRecord>,
    keys: Seq<Seq<char>>,
    root: Seq<char>,
)
    ensures
        pids_for(m, keys, root) == keys.filter(
            |k: Seq<char>| m[k].root_session_id@ == root,
        ).map_values(|k: Seq<char>| m[k].pid),
        forall|i: int|
            0 <= i < keys.len() && m[#[trigger] keys[i]].root_session_id@ == root ==> pids_for(
                m,
                keys,
                root,
            ).contains(m[keys[i]].pid),
    decreases keys.len(),
{
    reveal(Seq::filter);
    let mine = |k: Seq<char>| m[k].root_session_id@ == root;
    let pid = |k: Seq<char>| m[k].pid;
    if keys.len() > 0 {
        let d = keys.drop_last();
        stops_reach_every_process_of_the_session(m, d, root);
        let before = pids_for(m, d, root);
        let now = pids_for(m, keys, root);
        assert(now =~= keys.filter(mine).map_values(pid));
        assert forall|i: int|
            0 <= i < keys.len() && m[#[trigger] keys[i]].root_session_id@ == root implies now.contains(
            m[keys[i]].pid,
        ) by {
            if i < d.len() {
                assert(d[i] == keys[i]);
                assert(before.contains(m[d[i]].pid));
                let k = choose|k: int| 0 <= k < before.len() && before[k] == m[d[i]].pid;
                assert(now[k] == before[k]);
            } else {
                assert(now[before.len() as int] == m[keys[i]].pid);
            }
        }
    } else {
        assert(keys.filter(mine).map_values(pid) =~= pids_for(m, keys, root));
    }
}

/// Every task that is to be stopped and is registered is taken out.
pub proof fn every_listed_task_is_stopped<H>(m: Map<Seq<char>, H>, keys: Seq<Seq<char>>, i: int)
    requires
        0 <= i < keys.len(),
        m.dom().contains(keys[i]),
    ensures
        taken(m, keys).contains(m[keys[i]]),
    decreases keys.len(),
{
    let d = keys.drop_last();
    let now = taken(m, keys);
    let before = taken(m, d);
    if i == keys.len() - 1 && !d.contains(keys[i]) {
        assert(now[now.len() - 1] == m[keys[i]]);
    } else {
        let p = if i < d.len() {
            i
        } else {
            choose|p: int| 0 <= p < d.len() && d[p] == keys[i]
        };
        assert(d[p] == keys[i]);
        every_listed_task_is_stopped(m, d, p);
        let k = choose|k: int| 0 <= k < before.len() && before[k] == m[keys[i]];
        assert(now[k] == before[k]);
    }
}

/// Tasks of one workflow are filed under keys that differ, each with the workflow and the
/// task in it.
pub proof fn task_keys_tell_tasks_apart(workflow: Seq<char>, a: Seq<char>, b: Seq<char>)
    requires
        a != b,
    ensures
        task_key(workflow, a) != task_key(workflow, b),
        text::begins_with(task_key(workflow, a), workflow + ":"@),
        text::finishes_with(task_key(workflow, a), a),
{
    let x = task_key(workflow, a);
    let y = task_key(workflow, b);
    let n = (workflow + ":"@).len() as int;
    assert(x.subrange(n, x.len() as int) =~= a);
    assert(y.subrange(n, y.len() as int) =~= b);
    assert(x.subrange(0, n) =~= workflow + ":"@);
}

} // verus!
