//! The master's scheduling state and the decisions taken on it: which tasks are due,
//! which worker runs what, and how a configuration reload changes the task set.
use vstd::prelude::*;
use crate::task::{BootstrapInfo, ScheduledTask, TaskStatus, TaskView, WorkerInfo, cron_next_after, not_after, opt_view};
use crate::text::{contains_string, retain_not_equal, str_eq, without_string};
use crate::tokens::{TaskTexts, text_of};

verus! {

/// Scheduling state of the master node; `M` is the type of worker metrics.
pub struct Scheduler<M> {
    /// The scheduled tasks, no id twice.
    pub tasks: Vec<ScheduledTask>,
    /// Ids of the tasks that have a runnable handler, no id twice.
    pub handler_ids: Vec<u128>,
    /// Names under which native handlers are available.
    pub native_handlers: Vec<String>,
    pub running: bool,
    pub num_workers: usize,
    /// Paths of the WASM binaries kept for bootstrapping workers, no path twice.
    pub wasm_paths: Vec<String>,
    pub config_toml: Option<String>,
    pub api_key: Option<String>,
    /// Connected workers, no id twice.
    pub workers: Vec<WorkerInfo<M>>,
    /// Which worker host currently runs which task, no task twice.
    pub task_to_worker: Vec<(u128, String)>,
    /// The name under which each running task was reported started.
    pub started_names: TaskTexts,
}

/// The views of a list of tasks.
pub open spec fn task_views(ts: Seq<ScheduledTask>) -> Seq<TaskView> {
    ts.map_values(|t: ScheduledTask| t@)
}

/// Position of the first task with the given id, or -1.
pub open spec fn id_pos(ts: Seq<TaskView>, id: u128) -> int {
    if exists|i: int| 0 <= i < ts.len() && ts[i].id == id {
        choose|i: int| 0 <= i < ts.len() && ts[i].id == id && forall|k: int| 0 <= k < i ==> ts[k].id != id
    } else {
        -1
    }
}

/// The name under which a finished task is taken off its worker's running list: the
/// listed task's name, or the empty name for a task no longer listed.
pub open spec fn finished_name(ts: Seq<TaskView>, id: u128) -> Seq<char> {
    if id_pos(ts, id) >= 0 {
        ts[id_pos(ts, id)].name
    } else {
        Seq::empty()
    }
}

/// `ts` with `t` put in place of the task with the same id, or appended when there is none.
pub open spec fn upsert_view(ts: Seq<TaskView>, t: TaskView) -> Seq<TaskView> {
    if id_pos(ts, t.id) >= 0 {
        ts.update(id_pos(ts, t.id), t)
    } else {
        ts.push(t)
    }
}

/// The host recorded as running task `id`.
pub open spec fn host_of(tw: Seq<(u128, String)>, id: u128) -> Option<Seq<char>> {
    if exists|i: int| 0 <= i < tw.len() && tw[i].0 == id {
        Some(tw[choose|i: int| 0 <= i < tw.len() && tw[i].0 == id].1@)
    } else {
        None
    }
}

proof fn lemma_first_pos(ts: Seq<TaskView>, id: u128, i: int)
    requires
        0 <= i < ts.len(),
        ts[i].id == id,
        forall|k: int| 0 <= k < i ==> ts[k].id != id,
    ensures
        id_pos(ts, id) == i,
{
    let j = id_pos(ts, id);
    assert(0 <= j < ts.len() && ts[j].id == id && forall|k: int| 0 <= k < j ==> ts[k].id != id);
    if j < i {
        assert(ts[j].id != id);
    }
    if i < j {
        assert(ts[i].id != id);
    }
}

/// Entries of `tw` whose host differs from `host`, in order.
pub open spec fn without_host(tw: Seq<(u128, String)>, host: Seq<char>) -> Seq<(u128, String)>
    decreases tw.len(),
{
    if tw.len() == 0 {
        tw
    } else if tw.last().1@ == host {
        without_host(tw.drop_last(), host)
    } else {
        without_host(tw.drop_last(), host).push(tw.last())
    }
}

/// No task twice in a task-to-host list.
pub open spec fn unique_keys(tw: Seq<(u128, String)>) -> bool {
    forall|i: int, j: int| 0 <= i < j < tw.len() ==> tw[i].0 != tw[j].0
}

proof fn lemma_host_of_at(tw: Seq<(u128, String)>, i: int)
    requires
        unique_keys(tw),
        0 <= i < tw.len(),
    ensures
        host_of(tw, tw[i].0) == Some(tw[i].1@),
{
    let j = choose|j: int| 0 <= j < tw.len() && tw[j].0 == tw[i].0;
    if i < j {
        assert(tw[i].0 != tw[j].0);
    } else if j < i {
        assert(tw[j].0 != tw[i].0);
    }
}

proof fn lemma_host_of_absent(tw: Seq<(u128, String)>, id: u128)
    requires
        forall|i: int| 0 <= i < tw.len() ==> tw[i].0 != id,
    ensures
        host_of(tw, id) is None,
{
}

/// A worker that leaves takes its tasks with it: once the records of its host are
/// dropped, no task is recorded as running there, every other task keeps its host, and
/// no task is recorded twice.
pub proof fn lemma_without_host(tw: Seq<(u128, String)>, host: Seq<char>)
    requires
        unique_keys(tw),
    ensures
        unique_keys(without_host(tw, host)),
        forall|id: u128| #[trigger] host_of(without_host(tw, host), id) == (
            if host_of(tw, id) == Some(host) { None } else { host_of(tw, id) }),
        forall|i: int| #![trigger without_host(tw, host)[i]] 0 <= i < without_host(tw, host).len() ==>
            without_host(tw, host)[i].1@ != host && tw.contains(without_host(tw, host)[i]),
    decreases tw.len(),
{
    if tw.len() > 0 {
        let p = tw.drop_last();
        let r = without_host(p, host);
        lemma_without_host(p, host);
        let last = tw.last();
        assert forall|i: int| 0 <= i < r.len() implies r[i].0 != last.0 by {
            assert(p.contains(r[i]));
            let k = choose|k: int| 0 <= k < p.len() && p[k] == r[i];
            assert(tw[k] == p[k]);
            assert(tw[k].0 != tw[tw.len() - 1].0);
        }
        assert forall|id: u128| #[trigger] host_of(without_host(tw, host), id) == (
            if host_of(tw, id) == Some(host) { None } else { host_of(tw, id) }) by {
            if id == last.0 {
                lemma_host_of_at(tw, tw.len() - 1);
                assert(forall|k: int| 0 <= k < p.len() ==> p[k].0 != id) by {
                    assert forall|k: int| 0 <= k < p.len() implies p[k].0 != id by {
                        assert(tw[k] == p[k]);
                    }
                }
                lemma_host_of_absent(p, id);
                if last.1@ == host {
                    lemma_host_of_absent(r, id);
                } else {
                    let w = r.push(last);
                    lemma_host_of_at(w, w.len() - 1);
                }
            } else {
                assert forall|k: int| 0 <= k < p.len() && p[k].0 == id implies host_of(tw, id) == Some(p[k].1@) by {
                    assert(tw[k] == p[k]);
                    lemma_host_of_at(tw, k);
                }
                if exists|k: int| 0 <= k < p.len() && p[k].0 == id {
                    let k = choose|k: int| 0 <= k < p.len() && p[k].0 == id;
                    lemma_host_of_at(p, k);
                } else {
                    lemma_host_of_absent(p, id);
                    assert forall|k: int| 0 <= k < tw.len() implies tw[k].0 != id by {
                        if k < tw.len() - 1 {
                            assert(tw[k] == p[k]);
                        }
                    }
                    lemma_host_of_absent(tw, id);
                }
                if last.1@ != host {
                    let w = r.push(last);
                    if exists|k: int| 0 <= k < r.len() && r[k].0 == id {
                        let k = choose|k: int| 0 <= k < r.len() && r[k].0 == id;
                        lemma_host_of_at(r, k);
                        assert(w[k] == r[k]);
                        lemma_host_of_at(w, k);
                    } else {
                        lemma_host_of_absent(r, id);
                        assert forall|k: int| 0 <= k < w.len() implies w[k].0 != id by {
                            if k < r.len() {
                                assert(w[k] == r[k]);
                            }
                        }
                        lemma_host_of_absent(w, id);
                    }
                }
            }
        }
        if last.1@ != host {
            let w = r.push(last);
            assert forall|i: int| #![trigger w[i]] 0 <= i < w.len() implies w[i].1@ != host && tw.contains(w[i]) by {
                if i < r.len() {
                    assert(w[i] == r[i]);
                    assert(p.contains(r[i]));
                    let k = choose|k: int| 0 <= k < p.len() && p[k] == r[i];
                    assert(tw[k] == p[k]);
                } else {
                    assert(tw[tw.len() - 1] == last);
                }
            }
        } else {
            assert forall|i: int| #![trigger r[i]] 0 <= i < r.len() implies r[i].1@ != host && tw.contains(r[i]) by {
                assert(p.contains(r[i]));
                let k = choose|k: int| 0 <= k < p.len() && p[k] == r[i];
                assert(tw[k] == p[k]);
            }
        }
    }
}

/// Names the RFC 3339 text of an instant given as (Unix seconds, nanoseconds).
pub uninterp spec fn rfc3339_of(t: (i64, u32)) -> Option<Seq<char>>;

/// Formats the instant `t` with `chrono`'s `DateTime::to_rfc3339`, after
/// `DateTime::from_timestamp`; `None` when chrono cannot represent the instant.
/// Claims only that the result is the named `rfc3339_of` of `t`.
#[verifier::external_body]
fn format_rfc3339(t: (i64, u32)) -> (text: Option<String>)
    ensures
        opt_view(text) == rfc3339_of(t),
{
    chrono::DateTime::from_timestamp(t.0, t.1).map(|d| d.to_rfc3339())
}

/// A uniformly random index below `n` (`rand::Rng::random_range`); below `n` as rand documents.
#[verifier::external_body]
fn random_below(n: usize) -> (i: usize)
    requires
        n > 0,
    ensures
        i < n,
{
    rand::Rng::random_range(&mut rand::rng(), 0..n)
}

/// The dashboard status of task `t`, `host` being the host it currently runs on.
pub open spec fn status_of(s: TaskStatus, t: TaskView, host: Option<Seq<char>>) -> bool {
    &&& s.id == t.id
    &&& s.name@ == t.name
    &&& s.cron@ == t.cron_expr
    &&& s.timezone@ == t.timezone
    &&& s.task_type@ == t.task_type
    &&& opt_view(s.last_run) == match t.last_run {
        Some(t) => rfc3339_of(t),
        None => None,
    }
    &&& s.last_duration_ms == t.last_duration
    &&& s.last_failed == t.last_failed
    &&& s.enabled == t.enabled
    &&& s.last_log_id == t.last_log_id
    &&& opt_view(s.host) == host
    &&& opt_view(s.last_host) == t.last_host
}

/// The tasks after a tick at `now`: each task due then records `now` as its last run.
pub open spec fn ticked(ts: Seq<TaskView>, now: (i64, u32)) -> Seq<TaskView> {
    Seq::new(ts.len(), |i: int| if ts[i].is_due_at(now) { TaskView { last_run: Some(now), ..ts[i] } } else { ts[i] })
}

/// No two tasks of `ts` share an id.
pub open spec fn ids_unique(ts: Seq<TaskView>) -> bool {
    forall|i: int, j: int| 0 <= i < j < ts.len() ==> ts[i].id != ts[j].id
}

/// Ids and names of the tasks of `ts` that are due at `now`, in order.
pub open spec fn due_list(ts: Seq<TaskView>, now: (i64, u32)) -> Seq<(u128, Seq<char>)>
    decreases ts.len(),
{
    if ts.len() == 0 {
        Seq::empty()
    } else if ts.last().is_due_at(now) {
        due_list(ts.drop_last(), now).push((ts.last().id, ts.last().name))
    } else {
        due_list(ts.drop_last(), now)
    }
}

/// Why a task cannot be run on request.
pub open spec fn run_refusal(found: bool, enabled: bool, has_handler: bool) -> Option<Seq<char>> {
    if !found {
        Some("Task not found"@)
    } else if !enabled {
        Some("Cannot run a disabled task"@)
    } else if !has_handler {
        Some("Handler not found"@)
    } else {
        None
    }
}

/// Position of the first task with id `id` in `ts`.
pub fn find_task_in(ts: &Vec<ScheduledTask>, id: u128) -> (pos: Option<usize>)
    ensures
        match pos {
            Some(i) => i < ts@.len() && ts@[i as int].id == id && id_pos(task_views(ts@), id) == i,
            None => (forall|k: int| 0 <= k < ts@.len() ==> ts@[k].id != id) && id_pos(task_views(ts@), id) == -1,
        },
{
    let mut i: usize = 0;
    while i < ts.len()
        invariant
            i <= ts@.len(),
            forall|k: int| 0 <= k < i ==> ts@[k].id != id,
        decreases ts@.len() - i,
    {
        if ts[i].id == id {
            proof {
                lemma_first_pos(task_views(ts@), id, i as int);
            }
            return Some(i);
        }
        i = i + 1;
    }
    assert(!(exists|k: int| 0 <= k < task_views(ts@).len() && task_views(ts@)[k].id == id));
    None
}

/// Puts `t` in place of the first task of `ts` with the same id, or appends it.
pub fn upsert_in(ts: &mut Vec<ScheduledTask>, t: ScheduledTask)
    ensures
        task_views(final(ts)@) == upsert_view(task_views(old(ts)@), t@),
        final(ts)@.len() == upsert_view(task_views(old(ts)@), t@).len(),
{
    let ghost tv = t@;
    match find_task_in(ts, t.id) {
        Some(i) => {
            ts.set(i, t);
            assert(task_views(ts@) =~= upsert_view(task_views(old(ts)@), tv));
        },
        None => {
            ts.push(t);
            assert(task_views(ts@) =~= upsert_view(task_views(old(ts)@), tv));
        },
    }
}

impl<M> Scheduler<M> {
    /// No id twice among tasks, handlers, workers and task hosts.
    pub open spec fn wf(&self) -> bool {
        &&& forall|i: int, j: int| 0 <= i < j < self.tasks@.len() ==> self.tasks@[i].id != self.tasks@[j].id
        &&& forall|i: int, j: int| 0 <= i < j < self.handler_ids@.len() ==> self.handler_ids@[i] != self.handler_ids@[j]
        &&& forall|i: int, j: int| 0 <= i < j < self.workers@.len() ==> self.workers@[i].id != self.workers@[j].id
        &&& forall|i: int, j: int| 0 <= i < j < self.task_to_worker@.len() ==> self.task_to_worker@[i].0 != self.task_to_worker@[j].0
    }

    /// The tasks, by value.
    pub open spec fn task_list(&self) -> Seq<TaskView> {
        task_views(self.tasks@)
    }

    /// Whether a task with this id is scheduled.
    pub open spec fn has_task(&self, id: u128) -> bool {
        exists|i: int| 0 <= i < self.tasks@.len() && self.tasks@[i].id == id
    }

    /// Whether a worker with this id is connected.
    pub open spec fn has_worker(&self, id: u128) -> bool {
        exists|i: int| 0 <= i < self.workers@.len() && self.workers@[i].id == id
    }

    /// A scheduler with no tasks, handlers or workers, not running.
    pub fn new(api_key: Option<String>) -> (s: Self)
        ensures
            s.wf(),
            s.tasks@.len() == 0,
            s.handler_ids@.len() == 0,
            s.native_handlers@.len() == 0,
            !s.running,
            s.num_workers == 0,
            s.wasm_paths@.len() == 0,
            s.config_toml is None,
            s.api_key == api_key,
            s.workers@.len() == 0,
            s.task_to_worker@.len() == 0,
    {
        Scheduler {
            tasks: Vec::new(),
            handler_ids: Vec::new(),
            native_handlers: Vec::new(),
            running: false,
            num_workers: 0,
            wasm_paths: Vec::new(),
            config_toml: None,
            api_key,
            workers: Vec::new(),
            task_to_worker: Vec::new(),
            started_names: TaskTexts::new(),
        }
    }

    /// Whether `key` is accepted: it equals the configured key, or no key is configured.
    pub fn verify_api_key(&self, key: &str) -> (ok: bool)
        ensures
            ok == match self.api_key {
                Some(expected) => expected@ == key@,
                None => true,
            },
    {
        match &self.api_key {
            Some(expected) => str_eq(expected.as_str(), key),
            None => true,
        }
    }

    /// The worker counter.
    pub fn num_workers(&self) -> (n: usize)
        ensures
            n == self.num_workers,
    {
        self.num_workers
    }

    /// Sets the worker counter.
    pub fn set_num_workers(&mut self, n: usize)
        ensures
            final(self).num_workers == n,
            final(self).tasks == old(self).tasks,
            final(self).workers == old(self).workers,
            final(self).task_to_worker == old(self).task_to_worker,
            final(self).handler_ids == old(self).handler_ids,
    {
        self.num_workers = n;
    }

    /// Position of the task with this id.
    pub fn find_task(&self, id: u128) -> (pos: Option<usize>)
        ensures
            match pos {
                Some(i) => i < self.tasks@.len() && self.tasks@[i as int].id == id && id_pos(self.task_list(), id) == i,
                None => !self.has_task(id) && id_pos(self.task_list(), id) == -1,
            },
    {
        find_task_in(&self.tasks, id)
    }

    /// Puts `task` in place of the task with the same id, or adds it.
    pub fn upsert_task(&mut self, task: ScheduledTask)
        requires
            old(self).wf(),
        ensures
            final(self).wf(),
            final(self).task_list() == upsert_view(old(self).task_list(), task@),
            final(self).handler_ids == old(self).handler_ids,
            final(self).workers == old(self).workers,
            final(self).task_to_worker == old(self).task_to_worker,
            final(self).native_handlers == old(self).native_handlers,
            final(self).running == old(self).running,
    {
        let ghost t = task;
        upsert_in(&mut self.tasks, task);
        proof {
            let ot = old(self).tasks@;
            let nt = self.tasks@;
            assert forall|a: int, b: int| 0 <= a < b < nt.len() implies nt[a].id != nt[b].id by {
                assert(task_views(nt)[a].id == nt[a].id);
                assert(task_views(nt)[b].id == nt[b].id);
                let p = id_pos(task_views(ot), t.id);
                if p >= 0 {
                    assert(task_views(nt) == task_views(ot).update(p, t@));
                    if a != p {
                        assert(task_views(ot)[a].id == ot[a].id);
                    }
                    if b != p {
                        assert(task_views(ot)[b].id == ot[b].id);
                    }
                    if a == p {
                        assert(task_views(ot)[b].id == ot[b].id);
                    }
                    if b == p {
                        assert(task_views(ot)[a].id == ot[a].id);
                    }
                } else {
                    assert(task_views(nt) == task_views(ot).push(t@));
                    if b < ot.len() {
                        assert(task_views(ot)[a].id == ot[a].id);
                        assert(task_views(ot)[b].id == ot[b].id);
                    } else {
                        assert(task_views(ot)[a].id == ot[a].id);
                    }
                }
            }
        }
    }

    /// Removes the task and its handler; tells whether the task was there.
    pub fn remove_task(&mut self, id: u128) -> (removed: bool)
        requires
            old(self).wf(),
        ensures
            final(self).wf(),
            removed == old(self).has_task(id),
            !final(self).has_task(id),
            removed ==> final(self).task_list() == old(self).task_list().remove(id_pos(old(self).task_list(), id)),
            !removed ==> final(self).tasks == old(self).tasks,
            forall|h: u128| final(self).handler_ids@.contains(h) <==> old(self).handler_ids@.contains(h) && h != id,
            final(self).workers == old(self).workers,
            final(self).task_to_worker == old(self).task_to_worker,
            final(self).started_names == old(self).started_names,
    {
        self.remove_handler(id);
        match self.find_task(id) {
            Some(i) => {
                self.tasks.remove(i);
                assert(self.task_list() =~= old(self).task_list().remove(i as int));
                assert forall|k: int| 0 <= k < self.tasks@.len() implies self.tasks@[k].id != id by {
                    if k < i {
                        assert(self.tasks@[k] == old(self).tasks@[k]);
                    } else {
                        assert(self.tasks@[k] == old(self).tasks@[k + 1]);
                    }
                }
                true
            },
            None => false,
        }
    }

    fn remove_handler(&mut self, id: u128)
        requires
            old(self).wf(),
        ensures
            final(self).wf(),
            forall|h: u128| final(self).handler_ids@.contains(h) <==> old(self).handler_ids@.contains(h) && h != id,
            final(self).tasks == old(self).tasks,
            final(self).workers == old(self).workers,
            final(self).task_to_worker == old(self).task_to_worker,
            final(self).started_names == old(self).started_names,
    {
        let mut i: usize = 0;
        while i < self.handler_ids.len()
            invariant
                i <= self.handler_ids@.len(),
                *self == *old(self),
                old(self).wf(),
                forall|k: int| 0 <= k < i ==> self.handler_ids@[k] != id,
            decreases self.handler_ids@.len() - i,
        {
            if self.handler_ids[i] == id {
                self.handler_ids.remove(i);
                assert forall|a: int, b: int| 0 <= a < b < self.handler_ids@.len() implies self.handler_ids@[a] != self.handler_ids@[b] by {
                    let oa = if a < i { a } else { a + 1 };
                    let ob = if b < i { b } else { b + 1 };
                    assert(self.handler_ids@[a] == old(self).handler_ids@[oa]);
                    assert(self.handler_ids@[b] == old(self).handler_ids@[ob]);
                }
                assert forall|h: u128| self.handler_ids@.contains(h) <==> old(self).handler_ids@.contains(h) && h != id by {
                    if old(self).handler_ids@.contains(h) && h != id {
                        let k = choose|k: int| 0 <= k < old(self).handler_ids@.len() && old(self).handler_ids@[k] == h;
                        if k < i as int {
                            assert(self.handler_ids@[k] == h);
                        } else {
                            assert(k != i);
                            assert(self.handler_ids@[k - 1] == h);
                        }
                    }
                    if self.handler_ids@.contains(h) {
                        let k = choose|k: int| 0 <= k < self.handler_ids@.len() && self.handler_ids@[k] == h;
                        if k < i {
                            assert(old(self).handler_ids@[k] == h);
                        } else {
                            assert(old(self).handler_ids@[k + 1] == h);
                        }
                    }
                }
                return;
            }
            i = i + 1;
        }
    }

    /// Whether task `id` has a handler.
    pub fn has_handler(&self, id: u128) -> (res: bool)
        ensures
            res == self.handler_ids@.contains(id),
    {
        let mut i: usize = 0;
        while i < self.handler_ids.len()
            invariant
                i <= self.handler_ids@.len(),
                forall|k: int| 0 <= k < i ==> self.handler_ids@[k] != id,
            decreases self.handler_ids@.len() - i,
        {
            if self.handler_ids[i] == id {
                return true;
            }
            i = i + 1;
        }
        false
    }

    /// Records that task `id` now has a handler.
    pub fn register_handler(&mut self, id: u128)
        requires
            old(self).wf(),
        ensures
            final(self).wf(),
            forall|h: u128| final(self).handler_ids@.contains(h) <==> old(self).handler_ids@.contains(h) || h == id,
            final(self).tasks == old(self).tasks,
            final(self).workers == old(self).workers,
            final(self).task_to_worker == old(self).task_to_worker,
            final(self).native_handlers == old(self).native_handlers,
            final(self).running == old(self).running,
    {
        if !self.has_handler(id) {
            self.handler_ids.push(id);
            assert forall|h: u128| self.handler_ids@.contains(h) <==> old(self).handler_ids@.contains(h) || h == id by {
                if old(self).handler_ids@.contains(h) {
                    let k = choose|k: int| 0 <= k < old(self).handler_ids@.len() && old(self).handler_ids@[k] == h;
                    assert(self.handler_ids@[k] == h);
                }
                if h == id {
                    assert(self.handler_ids@[self.handler_ids@.len() - 1] == h);
                }
                if self.handler_ids@.contains(h) && h != id {
                    let k = choose|k: int| 0 <= k < self.handler_ids@.len() && self.handler_ids@[k] == h;
                    assert(old(self).handler_ids@[k] == h);
                }
            }
        }
    }

    /// Schedules a newly made task (once it is stored) and gives it a handler; returns its id.
    pub fn add_task(&mut self, task: ScheduledTask) -> (id: u128)
        requires
            old(self).wf(),
        ensures
            id == task.id,
            final(self).wf(),
            final(self).task_list() == upsert_view(old(self).task_list(), task@),
            forall|h: u128| final(self).handler_ids@.contains(h) <==> old(self).handler_ids@.contains(h) || h == id,
            final(self).workers == old(self).workers,
            final(self).task_to_worker == old(self).task_to_worker,
            final(self).native_handlers == old(self).native_handlers,
            final(self).running == old(self).running,
    {
        let id = task.id;
        self.upsert_task(task);
        self.register_handler(id);
        id
    }

    /// Lets the scheduling loop run.
    pub fn start(&mut self)
        ensures
            final(self).running,
            final(self).tasks == old(self).tasks,
            final(self).handler_ids == old(self).handler_ids,
            final(self).workers == old(self).workers,
            final(self).task_to_worker == old(self).task_to_worker,
            final(self).native_handlers == old(self).native_handlers,
    {
        self.running = true;
    }

    /// Ends the scheduling loop after its current round.
    pub fn stop(&mut self)
        ensures
            !final(self).running,
            final(self).tasks == old(self).tasks,
            final(self).handler_ids == old(self).handler_ids,
            final(self).workers == old(self).workers,
            final(self).task_to_worker == old(self).task_to_worker,
            final(self).native_handlers == old(self).native_handlers,
    {
        self.running = false;
    }

    /// Makes a native handler available under `name`.
    pub fn add_native_handler(&mut self, name: &str)
        ensures
            final(self).native_handlers@ == old(self).native_handlers@.push(final(self).native_handlers@.last()),
            final(self).native_handlers@.last()@ == name@,
            final(self).tasks == old(self).tasks,
            final(self).handler_ids == old(self).handler_ids,
            final(self).workers == old(self).workers,
            final(self).task_to_worker == old(self).task_to_worker,
    {
        self.native_handlers.push(String::from_str(name));
    }

    /// Whether a native handler is available under `name`.
    pub fn has_native_handler(&self, name: &str) -> (res: bool)
        ensures
            res == (exists|i: int| 0 <= i < self.native_handlers@.len() && self.native_handlers@[i]@ == name@),
    {
        contains_string(&self.native_handlers, name)
    }

    /// The connected workers.
    pub fn get_workers(&self) -> (ws: &Vec<WorkerInfo<M>>)
        ensures
            ws == &self.workers,
    {
        &self.workers
    }

    /// Position of the worker with this id.
    pub fn find_worker(&self, id: u128) -> (pos: Option<usize>)
        ensures
            match pos {
                Some(i) => i < self.workers@.len() && self.workers@[i as int].id == id,
                None => !self.has_worker(id),
            },
    {
        let mut i: usize = 0;
        while i < self.workers.len()
            invariant
                i <= self.workers@.len(),
                forall|k: int| 0 <= k < i ==> self.workers@[k].id != id,
            decreases self.workers@.len() - i,
        {
            if self.workers[i].id == id {
                return Some(i);
            }
            i = i + 1;
        }
        None
    }

    /// The host name of worker `id`.
    pub fn get_worker_hostname(&self, id: u128) -> (h: Option<String>)
        requires
            self.wf(),
        ensures
            match h {
                Some(name) => exists|i: int| 0 <= i < self.workers@.len() && self.workers@[i].id == id
                    && self.workers@[i].hostname == name,
                None => !self.has_worker(id),
            },
    {
        match self.find_worker(id) {
            Some(i) => Some(self.workers[i].hostname.clone()),
            None => None,
        }
    }

    /// Adds a connected worker (replacing one with the same id) and counts it.
    pub fn add_worker(&mut self, info: WorkerInfo<M>)
        requires
            old(self).wf(),
        ensures
            final(self).wf(),
            old(self).has_worker(info.id) ==> exists|i: int| 0 <= i < old(self).workers@.len()
                && old(self).workers@[i].id == info.id && final(self).workers@ == old(self).workers@.update(i, info),
            !old(self).has_worker(info.id) ==> final(self).workers@ == old(self).workers@.push(info),
            final(self).num_workers == old(self).num_workers.wrapping_add(1),
            final(self).tasks == old(self).tasks,
            final(self).task_to_worker == old(self).task_to_worker,
            final(self).handler_ids == old(self).handler_ids,
    {
        self.num_workers = self.num_workers.wrapping_add(1);
        match self.find_worker(info.id) {
            Some(i) => {
                self.workers.set(i, info);
                assert forall|a: int, b: int| 0 <= a < b < self.workers@.len() implies self.workers@[a].id != self.workers@[b].id by {
                    assert(self.workers@[a].id == old(self).workers@[a].id);
                    assert(self.workers@[b].id == old(self).workers@[b].id);
                }
            },
            None => {
                self.workers.push(info);
            },
        }
    }

    /// Whether task `id` is recorded on some host, and which.
    pub fn task_host(&self, id: u128) -> (h: Option<String>)
        requires
            self.wf(),
        ensures
            opt_view(h) == host_of(self.task_to_worker@, id),
    {
        let mut i: usize = 0;
        while i < self.task_to_worker.len()
            invariant
                i <= self.task_to_worker@.len(),
                self.wf(),
                forall|k: int| 0 <= k < i ==> self.task_to_worker@[k].0 != id,
            decreases self.task_to_worker@.len() - i,
        {
            if self.task_to_worker[i].0 == id {
                proof { lemma_host_of_at(self.task_to_worker@, i as int); }
                return Some(self.task_to_worker[i].1.clone());
            }
            i = i + 1;
        }
        None
    }

    /// Disconnects worker `id`: forgets it, uncounts it, and clears every task that was
    /// recorded on its host. Tells whether the worker was connected.
    pub fn remove_worker(&mut self, id: u128) -> (changed: bool)
        requires
            old(self).wf(),
        ensures
            final(self).wf(),
            changed == old(self).has_worker(id),
            !changed ==> *final(self) == *old(self),
            changed ==> {
                &&& !final(self).has_worker(id)
                &&& exists|i: int| 0 <= i < old(self).workers@.len() && old(self).workers@[i].id == id
                    && final(self).workers@ == old(self).workers@.remove(i)
                    && final(self).task_to_worker@ == without_host(old(self).task_to_worker@, old(self).workers@[i].hostname@)
                &&& final(self).num_workers == old(self).num_workers.wrapping_sub(1)
            },
            final(self).tasks == old(self).tasks,
            final(self).handler_ids == old(self).handler_ids,
    {
        match self.find_worker(id) {
            None => false,
            Some(i) => {
                let w = self.workers.remove(i);
                let host = w.hostname;
                assert forall|k: int| 0 <= k < self.workers@.len() implies self.workers@[k].id != id by {
                    if k < i {
                        assert(self.workers@[k] == old(self).workers@[k]);
                    } else {
                        assert(self.workers@[k] == old(self).workers@[k + 1]);
                    }
                }
                assert forall|a: int, b: int| 0 <= a < b < self.workers@.len() implies self.workers@[a].id != self.workers@[b].id by {
                    let oa = if a < i { a } else { a + 1 };
                    let ob = if b < i { b } else { b + 1 };
                    assert(self.workers@[a] == old(self).workers@[oa]);
                    assert(self.workers@[b] == old(self).workers@[ob]);
                }
                self.num_workers = self.num_workers.wrapping_sub(1);
                self.retain_tasks_not_on(host.as_str());
                true
            },
        }
    }

    fn retain_tasks_not_on(&mut self, host: &str)
        requires
            old(self).wf(),
        ensures
            final(self).wf(),
            final(self).task_to_worker@ == without_host(old(self).task_to_worker@, host@),
            final(self).tasks == old(self).tasks,
            final(self).workers == old(self).workers,
            final(self).handler_ids == old(self).handler_ids,
            final(self).num_workers == old(self).num_workers,
    {
        let mut r: Vec<(u128, String)> = Vec::new();
        let mut i: usize = 0;
        while i < self.task_to_worker.len()
            invariant
                i <= self.task_to_worker@.len(),
                *self == *old(self),
                r@ == without_host(self.task_to_worker@.take(i as int), host@),
            decreases self.task_to_worker@.len() - i,
        {
            assert(self.task_to_worker@.take(i + 1).drop_last() =~= self.task_to_worker@.take(i as int));
            if !str_eq(self.task_to_worker[i].1.as_str(), host) {
                r.push((self.task_to_worker[i].0, self.task_to_worker[i].1.clone()));
            }
            i = i + 1;
        }
        assert(self.task_to_worker@.take(i as int) =~= self.task_to_worker@);
        proof { lemma_without_host(old(self).task_to_worker@, host@); }
        self.task_to_worker = r;
    }

    fn set_task_host(&mut self, task_id: u128, host: String)
        requires
            old(self).wf(),
        ensures
            final(self).wf(),
            forall|id: u128| #[trigger] host_of(final(self).task_to_worker@, id) == (
                if id == task_id { Some(host@) } else { host_of(old(self).task_to_worker@, id) }),
            final(self).tasks == old(self).tasks,
            final(self).workers == old(self).workers,
            final(self).handler_ids == old(self).handler_ids,
            final(self).num_workers == old(self).num_workers,
            final(self).started_names == old(self).started_names,
    {
        let ghost h = host@;
        let mut i: usize = 0;
        while i < self.task_to_worker.len()
            invariant
                i <= self.task_to_worker@.len(),
                *self == *old(self),
                old(self).wf(),
                h == host@,
                forall|k: int| 0 <= k < i ==> self.task_to_worker@[k].0 != task_id,
            decreases self.task_to_worker@.len() - i,
        {
            if self.task_to_worker[i].0 == task_id {
                self.task_to_worker.set(i, (task_id, host));
                let ghost tw = self.task_to_worker@;
                let ghost otw = old(self).task_to_worker@;
                assert(unique_keys(tw)) by {
                    assert forall|a: int, b: int| 0 <= a < b < tw.len() implies tw[a].0 != tw[b].0 by {
                        assert(tw[a].0 == otw[a].0);
                        assert(tw[b].0 == otw[b].0);
                    }
                }
                assert forall|id: u128| #[trigger] host_of(tw, id) == (
                    if id == task_id { Some(h) } else { host_of(otw, id) }) by {
                    if id == task_id {
                        assert(tw[i as int].0 == task_id);
                        assert(tw[i as int].1@ == h);
                        lemma_host_of_at(tw, i as int);
                        assert(host_of(tw, id) == Some(h));
                    } else if exists|k: int| 0 <= k < otw.len() && otw[k].0 == id {
                        let k = choose|k: int| 0 <= k < otw.len() && otw[k].0 == id;
                        lemma_host_of_at(otw, k);
                        assert(k != i);
                        assert(tw[k] == otw[k]);
                        lemma_host_of_at(tw, k);
                    } else {
                        lemma_host_of_absent(otw, id);
                        assert forall|k: int| 0 <= k < tw.len() implies tw[k].0 != id by {
                            if k != i {
                                assert(tw[k] == otw[k]);
                            }
                        }
                        lemma_host_of_absent(tw, id);
                    }
                }
                return;
            }
            i = i + 1;
        }
        self.task_to_worker.push((task_id, host));
        let ghost tw = self.task_to_worker@;
        let ghost otw = old(self).task_to_worker@;
        assert forall|id: u128| #[trigger] host_of(tw, id) == (
            if id == task_id { Some(h) } else { host_of(otw, id) }) by {
            if id == task_id {
                lemma_host_of_at(tw, tw.len() - 1);
            } else if exists|k: int| 0 <= k < otw.len() && otw[k].0 == id {
                let k = choose|k: int| 0 <= k < otw.len() && otw[k].0 == id;
                lemma_host_of_at(otw, k);
                assert(tw[k] == otw[k]);
                lemma_host_of_at(tw, k);
            } else {
                lemma_host_of_absent(otw, id);
                assert forall|k: int| 0 <= k < tw.len() implies tw[k].0 != id by {
                    if k < otw.len() {
                        assert(tw[k] == otw[k]);
                    }
                }
                lemma_host_of_absent(tw, id);
            }
        }
    }

    fn clear_task_host(&mut self, task_id: u128)
        requires
            old(self).wf(),
        ensures
            final(self).wf(),
            forall|id: u128| #[trigger] host_of(final(self).task_to_worker@, id) == (
                if id == task_id { None } else { host_of(old(self).task_to_worker@, id) }),
            final(self).tasks == old(self).tasks,
            final(self).workers == old(self).workers,
            final(self).handler_ids == old(self).handler_ids,
            final(self).num_workers == old(self).num_workers,
            final(self).started_names == old(self).started_names,
    {
        let mut i: usize = 0;
        while i < self.task_to_worker.len()
            invariant
                i <= self.task_to_worker@.len(),
                *self == *old(self),
                old(self).wf(),
                forall|k: int| 0 <= k < i ==> self.task_to_worker@[k].0 != task_id,
            decreases self.task_to_worker@.len() - i,
        {
            if self.task_to_worker[i].0 == task_id {
                self.task_to_worker.remove(i);
                let ghost tw = self.task_to_worker@;
                let ghost otw = old(self).task_to_worker@;
                assert forall|a: int, b: int| 0 <= a < b < tw.len() implies tw[a].0 != tw[b].0 by {
                    let oa = if a < i { a } else { a + 1 };
                    let ob = if b < i { b } else { b + 1 };
                    assert(tw[a] == otw[oa]);
                    assert(tw[b] == otw[ob]);
                }
                assert forall|id: u128| #[trigger] host_of(tw, id) == (
                    if id == task_id { None } else { host_of(otw, id) }) by {
                    if id == task_id {
                        assert forall|k: int| 0 <= k < tw.len() implies tw[k].0 != id by {
                            let ok = if k < i { k } else { k + 1 };
                            assert(tw[k] == otw[ok]);
                            assert(otw[i as int].0 == id);
                        }
                        lemma_host_of_absent(tw, id);
                    } else if exists|k: int| 0 <= k < otw.len() && otw[k].0 == id {
                        let k = choose|k: int| 0 <= k < otw.len() && otw[k].0 == id;
                        lemma_host_of_at(otw, k);
                        let nk = if k < i { k } else { k - 1 };
                        assert(k != i);
                        assert(tw[nk] == otw[k]);
                        lemma_host_of_at(tw, nk);
                    } else {
                        lemma_host_of_absent(otw, id);
                        assert forall|k: int| 0 <= k < tw.len() implies tw[k].0 != id by {
                            let ok = if k < i { k } else { k + 1 };
                            assert(tw[k] == otw[ok]);
                        }
                        lemma_host_of_absent(tw, id);
                    }
                }
                return;
            }
            i = i + 1;
        }
        proof { lemma_host_of_absent(old(self).task_to_worker@, task_id); }
    }

    /// Stores the latest metrics of worker `id`; tells whether the worker is connected.
    pub fn update_worker_metrics(&mut self, id: u128, metrics: M) -> (changed: bool)
        requires
            old(self).wf(),
        ensures
            final(self).wf(),
            changed == old(self).has_worker(id),
            !changed ==> final(self).workers == old(self).workers,
            changed ==> exists|i: int| 0 <= i < old(self).workers@.len() && old(self).workers@[i].id == id
                && final(self).workers@ == old(self).workers@.update(i, WorkerInfo { metrics: Some(metrics), ..old(self).workers@[i] }),
            final(self).tasks == old(self).tasks,
            final(self).task_to_worker == old(self).task_to_worker,
            final(self).handler_ids == old(self).handler_ids,
            final(self).num_workers == old(self).num_workers,
    {
        match self.find_worker(id) {
            None => false,
            Some(i) => {
                let mut w = self.workers.remove(i);
                w.metrics = Some(metrics);
                self.workers.insert(i, w);
                assert(self.workers@ =~= old(self).workers@.update(i as int, WorkerInfo { metrics: Some(metrics), ..old(self).workers@[i as int] }));
                assert forall|a: int, b: int| 0 <= a < b < self.workers@.len() implies self.workers@[a].id != self.workers@[b].id by {
                    assert(self.workers@[a].id == old(self).workers@[a].id);
                    assert(self.workers@[b].id == old(self).workers@[b].id);
                }
                true
            },
        }
    }

    fn set_last_host(&mut self, id: u128, host: String)
        requires
            old(self).wf(),
        ensures
            final(self).wf(),
            final(self).task_list().len() == old(self).task_list().len(),
            forall|i: int| 0 <= i < old(self).task_list().len() ==> #[trigger] final(self).task_list()[i] == (
                if old(self).task_list()[i].id == id {
                    TaskView { last_host: Some(host@), ..old(self).task_list()[i] }
                } else {
                    old(self).task_list()[i]
                }),
            final(self).handler_ids == old(self).handler_ids,
            final(self).workers == old(self).workers,
            final(self).task_to_worker == old(self).task_to_worker,
            final(self).num_workers == old(self).num_workers,
            final(self).started_names == old(self).started_names,
    {
        let ghost h = host@;
        match self.find_task(id) {
            Some(i) => {
                let mut t = self.tasks[i].clone();
                t.last_host = Some(host);
                self.tasks.set(i, t);
                assert forall|k: int| 0 <= k < old(self).task_list().len() implies #[trigger] self.task_list()[k] == (
                    if old(self).task_list()[k].id == id {
                        TaskView { last_host: Some(h), ..old(self).task_list()[k] }
                    } else {
                        old(self).task_list()[k]
                    }) by {
                    if k != i {
                        assert(old(self).task_list()[k].id != id);
                    }
                }
            },
            None => {},
        }
    }

    /// Records that worker `worker_id` started (or finished) task `task_id` named
    /// `task_name`. On start the name joins the worker's running list once, the task is
    /// recorded on the worker's host, and the task's last host becomes that host; on finish
    /// the name leaves the list and the task's host record is cleared. Tells whether the
    /// worker is connected; nothing changes when it is not.
    pub fn update_worker_task(&mut self, worker_id: u128, task_id: u128, task_name: String, started: bool) -> (changed: bool)
        requires
            old(self).wf(),
        ensures
            final(self).wf(),
            changed == old(self).has_worker(worker_id),
            !changed ==> *final(self) == *old(self),
            changed ==> exists|i: int| 0 <= i < old(self).workers@.len() && old(self).workers@[i].id == worker_id && {
                let w = old(self).workers@[i];
                let nw = final(self).workers@[i];
                &&& final(self).workers@.len() == old(self).workers@.len()
                &&& forall|k: int| 0 <= k < old(self).workers@.len() && k != i ==> final(self).workers@[k] == old(self).workers@[k]
                &&& nw.id == w.id && nw.addr == w.addr && nw.hostname == w.hostname && nw.metrics == w.metrics
                &&& nw.running_tasks@ == if started {
                        if exists|k: int| 0 <= k < w.running_tasks@.len() && w.running_tasks@[k]@ == task_name@ {
                            w.running_tasks@
                        } else {
                            w.running_tasks@.push(task_name)
                        }
                    } else {
                        without_string(w.running_tasks@, task_name@)
                    }
                &&& forall|id: u128| #[trigger] host_of(final(self).task_to_worker@, id) == (
                    if id == task_id {
                        if started { Some(w.hostname@) } else { None }
                    } else {
                        host_of(old(self).task_to_worker@, id)
                    })
                &&& final(self).task_list().len() == old(self).task_list().len()
                &&& forall|k: int| 0 <= k < old(self).task_list().len() ==> #[trigger] final(self).task_list()[k] == (
                    if started && old(self).task_list()[k].id == task_id {
                        TaskView { last_host: Some(w.hostname@), ..old(self).task_list()[k] }
                    } else {
                        old(self).task_list()[k]
                    })
            },
            changed && started ==> text_of(final(self).started_names.entries@, task_id) == Some(task_name@),
            changed && !started ==> text_of(final(self).started_names.entries@, task_id) is None,
            forall|other: u128| other != task_id ==> text_of(final(self).started_names.entries@, other)
                == text_of(old(self).started_names.entries@, other),
            final(self).handler_ids == old(self).handler_ids,
            final(self).num_workers == old(self).num_workers,
    {
        match self.find_worker(worker_id) {
            None => false,
            Some(i) => {
                let kept = task_name.clone();
                if started {
                    self.started_names.issue(task_id, kept);
                } else {
                    self.started_names.revoke(task_id);
                }
                let ghost ow = self.workers@[i as int];
                let mut w = self.workers.remove(i);
                let host = w.hostname.clone();
                if started {
                    if !contains_string(&w.running_tasks, task_name.as_str()) {
                        w.running_tasks.push(task_name);
                    }
                } else {
                    retain_not_equal(&mut w.running_tasks, task_name.as_str());
                }
                self.workers.insert(i, w);
                assert forall|a: int, b: int| 0 <= a < b < self.workers@.len() implies self.workers@[a].id != self.workers@[b].id by {
                    assert(self.workers@[a].id == old(self).workers@[a].id);
                    assert(self.workers@[b].id == old(self).workers@[b].id);
                }
                assert(self.workers@[i as int].hostname == ow.hostname);
                if started {
                    self.set_task_host(task_id, host.clone());
                    self.set_last_host(task_id, host);
                } else {
                    self.clear_task_host(task_id);
                    assert forall|k: int| 0 <= k < old(self).task_list().len() implies #[trigger] self.task_list()[k] == old(self).task_list()[k] by {}
                }
                true
            },
        }
    }

    /// The name under which a finished task leaves its worker's running list: the name it
    /// was reported started under; failing that, its name in the task list; failing that,
    /// the empty name.
    pub open spec fn finish_name(&self, id: u128) -> Seq<char> {
        match text_of(self.started_names.entries@, id) {
            Some(n) => n,
            None => finished_name(self.task_list(), id),
        }
    }

    /// A worker reports that task `task_id` finished: the name it was started under (see
    /// `finish_name`) leaves the worker's running list, even when the task was removed
    /// meanwhile, and the task's host record is cleared. Tells whether the worker is
    /// connected.
    pub fn worker_task_finished(&mut self, worker_id: u128, task_id: u128) -> (changed: bool)
        requires
            old(self).wf(),
        ensures
            final(self).wf(),
            changed == old(self).has_worker(worker_id),
            !changed ==> *final(self) == *old(self),
            changed ==> exists|i: int| 0 <= i < old(self).workers@.len() && old(self).workers@[i].id == worker_id && {
                let w = old(self).workers@[i];
                let nw = final(self).workers@[i];
                &&& final(self).workers@.len() == old(self).workers@.len()
                &&& forall|k: int| 0 <= k < old(self).workers@.len() && k != i ==> final(self).workers@[k] == old(self).workers@[k]
                &&& nw.id == w.id && nw.addr == w.addr && nw.hostname == w.hostname && nw.metrics == w.metrics
                &&& nw.running_tasks@ == without_string(w.running_tasks@, old(self).finish_name(task_id))
                &&& forall|id: u128| #[trigger] host_of(final(self).task_to_worker@, id) == (
                    if id == task_id { None } else { host_of(old(self).task_to_worker@, id) })
                &&& final(self).task_list() == old(self).task_list()
                &&& text_of(final(self).started_names.entries@, task_id) is None
            },
            final(self).handler_ids == old(self).handler_ids,
            final(self).num_workers == old(self).num_workers,
    {
        let recorded = self.started_names.get(task_id);
        let name = match recorded {
            Some(n) => n,
            None => match self.find_task(task_id) {
                Some(i) => {
                    proof {
                        assert(self.task_list()[i as int] == self.tasks@[i as int]@);
                    }
                    self.tasks[i].name.clone()
                },
                None => String::new(),
            },
        };
        proof {
            lemma_id_pos(self.task_list(), task_id);
        }
        assert(name@ == old(self).finish_name(task_id));
        let changed = self.update_worker_task(worker_id, task_id, name, false);
        proof {
            if changed {
                let i = choose|i: int| 0 <= i < old(self).workers@.len() && old(self).workers@[i].id == worker_id && {
                    let w = old(self).workers@[i];
                    let nw = self.workers@[i];
                    &&& self.workers@.len() == old(self).workers@.len()
                    &&& forall|k: int| 0 <= k < old(self).workers@.len() && k != i ==> self.workers@[k] == old(self).workers@[k]
                    &&& nw.id == w.id && nw.addr == w.addr && nw.hostname == w.hostname && nw.metrics == w.metrics
                    &&& nw.running_tasks@ == without_string(w.running_tasks@, name@)
                    &&& forall|id: u128| #[trigger] host_of(self.task_to_worker@, id) == (
                        if id == task_id { None } else { host_of(old(self).task_to_worker@, id) })
                    &&& self.task_list().len() == old(self).task_list().len()
                    &&& forall|k: int| 0 <= k < old(self).task_list().len() ==> #[trigger] self.task_list()[k] == old(self).task_list()[k]
                };
                assert(self.task_list() =~= old(self).task_list());
            }
        }
        changed
    }

    /// The dashboard status of every task, in task order.
    pub fn get_tasks_status(&self) -> (st: Vec<TaskStatus>)
        requires
            self.wf(),
        ensures
            st@.len() == self.tasks@.len(),
            forall|i: int| 0 <= i < st@.len() ==> status_of(#[trigger] st@[i], self.task_list()[i],
                host_of(self.task_to_worker@, self.tasks@[i].id)),
    {
        let mut st: Vec<TaskStatus> = Vec::new();
        let mut i: usize = 0;
        while i < self.tasks.len()
            invariant
                i <= self.tasks@.len(),
                self.wf(),
                st@.len() == i,
                forall|k: int| 0 <= k < i ==> status_of(#[trigger] st@[k], self.task_list()[k],
                    host_of(self.task_to_worker@, self.tasks@[k].id)),
            decreases self.tasks@.len() - i,
        {
            let t = &self.tasks[i];
            let last_run = match t.last_run {
                Some(t) => format_rfc3339(t),
                None => None,
            };
            let s = TaskStatus {
                id: t.id,
                name: t.name.clone(),
                cron: t.cron_expr.clone(),
                timezone: t.timezone.clone(),
                task_type: t.task_type.clone(),
                last_run,
                last_duration_ms: t.last_duration,
                last_failed: t.last_failed,
                enabled: t.enabled,
                last_log_id: t.last_log_id,
                host: self.task_host(t.id),
                last_host: match &t.last_host {
                    Some(h) => Some(h.clone()),
                    None => None,
                },
            };
            st.push(s);
            i = i + 1;
        }
        st
    }

    /// Marks every task due at `now` as run at `now` and returns their ids and names,
    /// in task order.
    pub fn tick(&mut self, now: (i64, u32)) -> (due: Vec<(u128, String)>)
        requires
            old(self).wf(),
            forall|k: int| 0 <= k < old(self).task_list().len() ==> #[trigger] old(self).task_list()[k].fire_query_ok(),
        ensures
            final(self).wf(),
            final(self).task_list().len() == old(self).task_list().len(),
            forall|i: int| 0 <= i < old(self).task_list().len() ==> #[trigger] final(self).task_list()[i] == (
                if old(self).task_list()[i].is_due_at(now) {
                    TaskView { last_run: Some(now), ..old(self).task_list()[i] }
                } else {
                    old(self).task_list()[i]
                }),
            final(self).task_list() == ticked(old(self).task_list(), now),
            due@.map_values(|p: (u128, String)| (p.0, p.1@)) == due_list(old(self).task_list(), now),
            final(self).handler_ids == old(self).handler_ids,
            final(self).workers == old(self).workers,
            final(self).task_to_worker == old(self).task_to_worker,
    {
        let mut due: Vec<(u128, String)> = Vec::new();
        let mut i: usize = 0;
        while i < self.tasks.len()
            invariant
                i <= self.tasks@.len(),
                self.tasks@.len() == old(self).tasks@.len(),
                self.handler_ids == old(self).handler_ids,
                self.workers == old(self).workers,
                self.task_to_worker == old(self).task_to_worker,
                forall|k: int| 0 <= k < self.tasks@.len() ==> self.tasks@[k].id == old(self).tasks@[k].id,
                forall|k: int| 0 <= k < i ==> #[trigger] self.task_list()[k] == (
                    if old(self).task_list()[k].is_due_at(now) {
                        TaskView { last_run: Some(now), ..old(self).task_list()[k] }
                    } else {
                        old(self).task_list()[k]
                    }),
                forall|k: int| i <= k < self.tasks@.len() ==> self.tasks@[k] == old(self).tasks@[k],
                due@.map_values(|p: (u128, String)| (p.0, p.1@)) == due_list(old(self).task_list().take(i as int), now),
                old(self).wf(),
                forall|k: int| 0 <= k < old(self).task_list().len() ==> #[trigger] old(self).task_list()[k].fire_query_ok(),
            decreases self.tasks@.len() - i,
        {
            assert(old(self).task_list().take(i + 1).drop_last() =~= old(self).task_list().take(i as int));
            assert(self.tasks@[i as int] == old(self).tasks@[i as int]);
            let ghost ot = old(self).task_list()[i as int];
            assert(self.tasks@[i as int]@ == ot);
            let ghost before = self.task_list();
            assert(old(self).task_list()[i as int].fire_query_ok());
            if self.tasks[i].should_run_at(now) {
                let mut t = self.tasks[i].clone();
                t.last_run = Some(now);
                due.push((t.id, t.name.clone()));
                self.tasks.set(i, t);
            }
            assert(self.task_list()[i as int] == (if ot.is_due_at(now) { TaskView { last_run: Some(now), ..ot } } else { ot }));
            assert forall|k: int| 0 <= k < i implies #[trigger] self.task_list()[k] == (
                if old(self).task_list()[k].is_due_at(now) {
                    TaskView { last_run: Some(now), ..old(self).task_list()[k] }
                } else {
                    old(self).task_list()[k]
                }) by {
                assert(self.task_list()[k] == before[k]);
            }
            i = i + 1;
            assert(due@.map_values(|p: (u128, String)| (p.0, p.1@)) =~= due_list(old(self).task_list().take(i as int), now));
        }
        assert(old(self).task_list().take(i as int) =~= old(self).task_list());
        assert(self.task_list() =~= ticked(old(self).task_list(), now));
        assert(self.wf()) by {
            assert forall|a: int, b: int| 0 <= a < b < self.tasks@.len() implies self.tasks@[a].id != self.tasks@[b].id by {
                assert(self.tasks@[a].id == old(self).tasks@[a].id);
                assert(self.tasks@[b].id == old(self).tasks@[b].id);
            }
        }
        due
    }

    /// `tick` where it can be made: `None`, with nothing changed, when an enabled task
    /// with a parsing cron expression last ran within chrono's last second, where the
    /// schedule's clock would overflow.
    pub fn tick_checked(&mut self, now: (i64, u32)) -> (due: Option<Vec<(u128, String)>>)
        requires
            old(self).wf(),
        ensures
            final(self).wf(),
            due is None <==> exists|k: int| 0 <= k < old(self).task_list().len() && !#[trigger] old(self).task_list()[k].fire_query_ok(),
            due is None ==> *final(self) == *old(self),
            due matches Some(d) ==> {
                &&& final(self).task_list() == ticked(old(self).task_list(), now)
                &&& d@.map_values(|p: (u128, String)| (p.0, p.1@)) == due_list(old(self).task_list(), now)
                &&& final(self).handler_ids == old(self).handler_ids
                &&& final(self).workers == old(self).workers
                &&& final(self).task_to_worker == old(self).task_to_worker
            },
    {
        let mut i: usize = 0;
        while i < self.tasks.len()
            invariant
                i <= self.tasks@.len(),
                *self == *old(self),
                old(self).wf(),
                forall|k: int| 0 <= k < i ==> #[trigger] self.task_list()[k].fire_query_ok(),
            decreases self.tasks@.len() - i,
        {
            assert(self.task_list()[i as int] == self.tasks@[i as int]@);
            if !self.tasks[i].fire_query_ok() {
                return None;
            }
            i = i + 1;
        }
        Some(self.tick(now))
    }

    /// Decides whether task `id` can be run on request; on success gives its name.
    pub fn run_task_immediately(&self, id: u128) -> (res: Result<String, String>)
        requires
            self.wf(),
        ensures
            match res {
                Ok(name) => run_refusal(true, self.task_list()[id_pos(self.task_list(), id)].enabled,
                    self.handler_ids@.contains(id)) is None && self.has_task(id)
                    && name@ == self.task_list()[id_pos(self.task_list(), id)].name,
                Err(e) => Some(e@) == run_refusal(self.has_task(id),
                    self.has_task(id) && self.task_list()[id_pos(self.task_list(), id)].enabled,
                    self.handler_ids@.contains(id)),
            },
    {
        match self.find_task(id) {
            None => Err(String::from_str("Task not found")),
            Some(i) => {
                if !self.tasks[i].enabled {
                    Err(String::from_str("Cannot run a disabled task"))
                } else if !self.has_handler(id) {
                    Err(String::from_str("Handler not found"))
                } else {
                    Ok(self.tasks[i].name.clone())
                }
            },
        }
    }

    /// Records how a run of task `id` ended. The host becomes `master` for a run on
    /// request, and for a scheduled run of a native task; a scheduled WASM run keeps the
    /// host its worker reported.
    pub fn finish_run(&mut self, id: u128, duration_ms: u64, failed: bool, log_id: u128, manual: bool)
        requires
            old(self).wf(),
        ensures
            final(self).wf(),
            final(self).task_list().len() == old(self).task_list().len(),
            forall|i: int| 0 <= i < old(self).task_list().len() ==> #[trigger] final(self).task_list()[i] == {
                let t = old(self).task_list()[i];
                if t.id == id {
                    TaskView {
                        last_duration: Some(duration_ms),
                        last_failed: failed,
                        last_log_id: Some(log_id),
                        last_host: if manual || t.task_type == "native"@ { Some("master"@) } else { t.last_host },
                        ..t
                    }
                } else {
                    t
                }
            },
            final(self).handler_ids == old(self).handler_ids,
            final(self).workers == old(self).workers,
            final(self).task_to_worker == old(self).task_to_worker,
    {
        match self.find_task(id) {
            Some(i) => {
                let mut t = self.tasks[i].clone();
                t.last_duration = Some(duration_ms);
                t.last_failed = failed;
                t.last_log_id = Some(log_id);
                if manual || str_eq(t.task_type.as_str(), "native") {
                    t.last_host = Some(String::from_str("master"));
                }
                self.tasks.set(i, t);
                assert forall|k: int| 0 <= k < old(self).task_list().len() implies #[trigger] self.task_list()[k] == {
                    let t = old(self).task_list()[k];
                    if t.id == id {
                        TaskView {
                            last_duration: Some(duration_ms),
                            last_failed: failed,
                            last_log_id: Some(log_id),
                            last_host: if manual || t.task_type == "native"@ { Some("master"@) } else { t.last_host },
                            ..t
                        }
                    } else {
                        t
                    }
                } by {
                    if k != i {
                        assert(old(self).task_list()[k].id != id);
                    }
                }
            },
            None => {},
        }
    }

    /// Keeps `path` among the cached WASM binaries announced to workers.
    pub fn cache_wasm_path(&mut self, path: &str)
        ensures
            (exists|i: int| 0 <= i < old(self).wasm_paths@.len() && old(self).wasm_paths@[i]@ == path@) ==>
                final(self).wasm_paths == old(self).wasm_paths,
            !(exists|i: int| 0 <= i < old(self).wasm_paths@.len() && old(self).wasm_paths@[i]@ == path@) ==>
                final(self).wasm_paths@.len() == old(self).wasm_paths@.len() + 1
                && final(self).wasm_paths@.drop_last() == old(self).wasm_paths@
                && final(self).wasm_paths@.last()@ == path@,
            final(self).tasks == old(self).tasks,
            final(self).handler_ids == old(self).handler_ids,
            final(self).workers == old(self).workers,
            final(self).task_to_worker == old(self).task_to_worker,
    {
        if !contains_string(&self.wasm_paths, path) {
            self.wasm_paths.push(String::from_str(path));
            assert(self.wasm_paths@.drop_last() =~= old(self).wasm_paths@);
        }
    }

    /// What a newly connected worker is sent: the configuration text (empty when none
    /// was loaded) and the paths of the cached WASM binaries.
    pub fn get_bootstrap_info(&self) -> (b: BootstrapInfo)
        ensures
            b.config_toml@ == match self.config_toml {
                Some(t) => t@,
                None => Seq::<char>::empty(),
            },
            b.wasm_paths@ == self.wasm_paths@,
    {
        let config_toml = match &self.config_toml {
            Some(t) => t.clone(),
            None => String::new(),
        };
        let wasm_paths = self.wasm_paths.clone();
        assert(wasm_paths@ =~= self.wasm_paths@);
        BootstrapInfo { config_toml, wasm_paths }
    }

    /// Picks a random connected worker to hand a task to.
    pub fn send_to_random_worker(&self) -> (res: Result<u128, String>)
        ensures
            res is Err <==> self.workers@.len() == 0,
            res matches Err(e) ==> e@ == "No workers available"@,
            res matches Ok(id) ==> self.has_worker(id),
    {
        if self.workers.len() == 0 {
            return Err(String::from_str("No workers available"));
        }
        let i = random_below(self.workers.len());
        Ok(self.workers[i].id)
    }

    /// Enables or disables task `id`, if it is scheduled.
    pub fn set_task_enabled(&mut self, id: u128, enabled: bool)
        requires
            old(self).wf(),
        ensures
            final(self).wf(),
            final(self).task_list().len() == old(self).task_list().len(),
            forall|i: int| 0 <= i < old(self).task_list().len() ==> #[trigger] final(self).task_list()[i] == (
                if old(self).task_list()[i].id == id {
                    TaskView { enabled, ..old(self).task_list()[i] }
                } else {
                    old(self).task_list()[i]
                }),
            final(self).handler_ids == old(self).handler_ids,
            final(self).workers == old(self).workers,
            final(self).task_to_worker == old(self).task_to_worker,
    {
        match self.find_task(id) {
            Some(i) => {
                let mut t = self.tasks[i].clone();
                t.enabled = enabled;
                self.tasks.set(i, t);
                assert forall|k: int| 0 <= k < old(self).task_list().len() implies #[trigger] self.task_list()[k] == (
                    if old(self).task_list()[k].id == id {
                        TaskView { enabled, ..old(self).task_list()[k] }
                    } else {
                        old(self).task_list()[k]
                    }) by {
                    if k != i {
                        assert(old(self).task_list()[k].id != id);
                    }
                }
            },
            None => {},
        }
    }
}

/// A tick fires each task at most once per instant: after a tick at `now`, a second tick
/// at the same instant finds nothing due, as long as every task that fired has its next
/// fire time after `now` (or none).
pub proof fn lemma_tick_fires_once(ts: Seq<TaskView>, now: (i64, u32))
    requires
        forall|i: int| 0 <= i < ts.len() && #[trigger] ts[i].is_due_at(now) ==> match cron_next_after(ts[i].cron_expr, ts[i].timezone, now) {
            Some(n) => !not_after(n, now),
            None => true,
        },
    ensures
        due_list(ticked(ts, now), now) == Seq::<(u128, Seq<char>)>::empty(),
{
    let after = ticked(ts, now);
    assert forall|i: int| 0 <= i < after.len() implies !#[trigger] after[i].is_due_at(now) by {
        if ts[i].is_due_at(now) {
            assert(after[i].last_run == Some(now));
        } else {
            assert(after[i] == ts[i]);
        }
    }
    lemma_due_list_empty(after, now);
}

proof fn lemma_due_list_empty(ts: Seq<TaskView>, now: (i64, u32))
    requires
        forall|i: int| 0 <= i < ts.len() ==> !#[trigger] ts[i].is_due_at(now),
    ensures
        due_list(ts, now) == Seq::<(u128, Seq<char>)>::empty(),
    decreases ts.len(),
{
    if ts.len() > 0 {
        assert forall|i: int| 0 <= i < ts.drop_last().len() implies !#[trigger] ts.drop_last()[i].is_due_at(now) by {
            assert(ts.drop_last()[i] == ts[i]);
        }
        lemma_due_list_empty(ts.drop_last(), now);
        assert(!ts[ts.len() - 1].is_due_at(now));
    }
}

/// Whether an enabled task of `ts` has this id.
spec fn has_enabled(ts: Seq<TaskView>, id: u128) -> bool {
    exists|i: int| 0 <= i < ts.len() && ts[i].id == id && ts[i].enabled
}

/// Every task a tick fires is an enabled task of the list.
proof fn lemma_due_are_enabled(ts: Seq<TaskView>, now: (i64, u32))
    ensures
        forall|k: int| 0 <= k < due_list(ts, now).len() ==> has_enabled(ts, #[trigger] due_list(ts, now)[k].0),
    decreases ts.len(),
{
    if ts.len() > 0 {
        let init = ts.drop_last();
        lemma_due_are_enabled(init, now);
        if ts.last().is_due_at(now) {
            assert(due_list(ts, now) == due_list(init, now).push((ts.last().id, ts.last().name)));
        } else {
            assert(due_list(ts, now) == due_list(init, now));
        }
        assert forall|k: int| 0 <= k < due_list(ts, now).len() implies has_enabled(ts, #[trigger] due_list(ts, now)[k].0) by {
            if k < due_list(init, now).len() {
                assert(due_list(ts, now)[k] == due_list(init, now)[k]);
                assert(has_enabled(init, due_list(init, now)[k].0));
                let i = choose|i: int| 0 <= i < init.len() && init[i].id == due_list(init, now)[k].0 && init[i].enabled;
                assert(ts[i] == init[i]);
            } else {
                let i = ts.len() - 1;
                assert(ts[i] == ts.last());
                assert(ts[i].id == due_list(ts, now)[k].0 && ts[i].enabled);
            }
        }
    }
}

/// A disabled task never fires: no id that a tick returns is that of a disabled task,
/// and the tick leaves disabled tasks as they were.
pub proof fn lemma_disabled_never_fires(ts: Seq<TaskView>, now: (i64, u32))
    requires
        ids_unique(ts),
    ensures
        forall|i: int, k: int| 0 <= i < ts.len() && !ts[i].enabled && 0 <= k < due_list(ts, now).len()
            ==> #[trigger] due_list(ts, now)[k].0 != #[trigger] ts[i].id,
        forall|i: int| 0 <= i < ts.len() && !ts[i].enabled ==> #[trigger] ticked(ts, now)[i] == ts[i],
{
    lemma_due_are_enabled(ts, now);
    assert forall|i: int, k: int| 0 <= i < ts.len() && !ts[i].enabled && 0 <= k < due_list(ts, now).len()
        implies #[trigger] due_list(ts, now)[k].0 != #[trigger] ts[i].id by {
        assert(has_enabled(ts, due_list(ts, now)[k].0));
        let j = choose|j: int| 0 <= j < ts.len() && ts[j].id == due_list(ts, now)[k].0 && ts[j].enabled;
        if i < j {
            assert(ts[i].id != ts[j].id);
        } else if j < i {
            assert(ts[j].id != ts[i].id);
        }
    }
}

/// A finished task leaves its worker's running list: once its name is taken off, no entry
/// of the list carries that name, and every entry with another name is still there.
pub proof fn lemma_finished_name_gone(v: Seq<String>, name: Seq<char>)
    ensures
        forall|k: int| 0 <= k < without_string(v, name).len() ==> (#[trigger] without_string(v, name)[k])@ != name,
        forall|k: int| 0 <= k < v.len() && (#[trigger] v[k])@ != name ==> without_string(v, name).contains(v[k]),
    decreases v.len(),
{
    if v.len() > 0 {
        let init = v.drop_last();
        lemma_finished_name_gone(init, name);
        let w = without_string(init, name);
        assert forall|k: int| 0 <= k < v.len() && (#[trigger] v[k])@ != name implies without_string(v, name).contains(v[k]) by {
            if k < v.len() - 1 {
                assert(init[k] == v[k]);
                assert(w.contains(v[k]));
                let j = choose|j: int| 0 <= j < w.len() && w[j] == v[k];
                if v.last()@ == name {
                    assert(without_string(v, name) == w);
                } else {
                    assert(without_string(v, name) == w.push(v.last()));
                    assert(without_string(v, name)[j] == v[k]);
                }
            } else {
                assert(v[k] == v.last());
                assert(without_string(v, name) == w.push(v.last()));
                assert(without_string(v, name)[w.len() as int] == v[k]);
            }
        }
    }
}

/// A started task leaves its worker's running list when it finishes, even when it was
/// removed from the task list meanwhile: once a worker reported task `t` started under
/// `name` (and it has not finished since), its finish takes exactly `name` off the list,
/// keeping every entry with another name.
pub proof fn lemma_started_task_finishes<M>(s: Scheduler<M>, t: u128, name: Seq<char>, list: Seq<String>)
    requires
        text_of(s.started_names.entries@, t) == Some(name),
    ensures
        s.finish_name(t) == name,
        forall|k: int| 0 <= k < without_string(list, s.finish_name(t)).len()
            ==> (#[trigger] without_string(list, s.finish_name(t))[k])@ != name,
        forall|k: int| 0 <= k < list.len() && (#[trigger] list[k])@ != name
            ==> without_string(list, s.finish_name(t)).contains(list[k]),
{
    lemma_finished_name_gone(list, name);
}

/// What is written is read back: after `t` is put into a task list without repeated ids,
/// looking up its id gives `t`, every other task is found unchanged, and ids stay unique.
pub proof fn lemma_upsert_then_lookup(ts: Seq<TaskView>, t: TaskView)
    requires
        ids_unique(ts),
    ensures
        ids_unique(upsert_view(ts, t)),
        id_pos(upsert_view(ts, t), t.id) >= 0,
        upsert_view(ts, t)[id_pos(upsert_view(ts, t), t.id)] == t,
        forall|id: u128| id != t.id ==> (#[trigger] id_pos(upsert_view(ts, t), id) >= 0) == (id_pos(ts, id) >= 0),
        forall|id: u128| id != t.id && id_pos(ts, id) >= 0 ==> upsert_view(ts, t)[#[trigger] id_pos(upsert_view(ts, t), id)]
            == ts[id_pos(ts, id)],
{
    let u = upsert_view(ts, t);
    let p = id_pos(ts, t.id);
    lemma_id_pos(ts, t.id);
    if p >= 0 {
        assert(u == ts.update(p, t));
    } else {
        assert(u == ts.push(t));
    }
    assert(ids_unique(u)) by {
        assert forall|i: int, j: int| 0 <= i < j < u.len() implies u[i].id != u[j].id by {
            if p >= 0 {
                if i == p {
                    assert(ts[j].id != ts[p].id);
                } else if j == p {
                    assert(ts[i].id != ts[p].id);
                }
            } else {
                if j == ts.len() {
                    assert(ts[i].id != t.id);
                }
            }
        }
    }
    let q = if p >= 0 { p } else { ts.len() as int };
    assert(u[q] == t);
    lemma_unique_pos(u, q);
    assert forall|id: u128| id != t.id implies (#[trigger] id_pos(u, id) >= 0) == (id_pos(ts, id) >= 0) by {
        lemma_id_pos(ts, id);
        lemma_id_pos(u, id);
        if id_pos(ts, id) >= 0 {
            let k = id_pos(ts, id);
            assert(u[k] == ts[k]);
        }
        if id_pos(u, id) >= 0 {
            let k = id_pos(u, id);
            assert(k != q);
            assert(u[k] == ts[k]);
        }
    }
    assert forall|id: u128| id != t.id && id_pos(ts, id) >= 0 implies u[#[trigger] id_pos(u, id)] == ts[id_pos(ts, id)] by {
        lemma_id_pos(ts, id);
        let k = id_pos(ts, id);
        assert(u[k] == ts[k]);
        lemma_unique_pos(u, k);
    }
}

proof fn lemma_id_pos(ts: Seq<TaskView>, id: u128)
    ensures
        id_pos(ts, id) >= 0 <==> exists|i: int| 0 <= i < ts.len() && ts[i].id == id,
        id_pos(ts, id) >= 0 ==> id_pos(ts, id) < ts.len() && ts[id_pos(ts, id)].id == id,
{
    if exists|i: int| 0 <= i < ts.len() && ts[i].id == id {
        let w = choose|i: int| 0 <= i < ts.len() && ts[i].id == id;
        lemma_least_id(ts, id, w);
    }
}

proof fn lemma_least_id(ts: Seq<TaskView>, id: u128, w: int)
    requires
        0 <= w < ts.len(),
        ts[w].id == id,
    ensures
        exists|i: int| 0 <= i < ts.len() && ts[i].id == id && forall|k: int| 0 <= k < i ==> ts[k].id != id,
    decreases w,
{
    if exists|k: int| 0 <= k < w && ts[k].id == id {
        let k = choose|k: int| 0 <= k < w && ts[k].id == id;
        lemma_least_id(ts, id, k);
    } else {
        assert(forall|k: int| 0 <= k < w ==> ts[k].id != id);
    }
}

pub(crate) proof fn lemma_unique_pos(ts: Seq<TaskView>, i: int)
    requires
        ids_unique(ts),
        0 <= i < ts.len(),
    ensures
        id_pos(ts, ts[i].id) == i,
{
    assert forall|k: int| 0 <= k < i implies ts[k].id != ts[i].id by {}
    lemma_first_pos(ts, ts[i].id, i);
}

} // verus!
