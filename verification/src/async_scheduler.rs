//! A lighter scheduler for in-process asynchronous jobs: tasks with a handler each,
//! keyed by task id.
use vstd::prelude::*;
use crate::scheduler::{task_views, upsert_in, upsert_view};
use crate::task::{ScheduledTask, TaskView, invalid_timezone_message, timezone_valid};

verus! {

/// Scheduled tasks and the ids of the tasks that have a handler.
pub struct AsyncScheduler {
    pub tasks: Vec<ScheduledTask>,
    pub handler_ids: Vec<u128>,
    pub running: bool,
}

/// A native task named `name` with the schedule given, just made.
pub open spec fn fresh_native_task(t: TaskView, name: Seq<char>, cron_expr: Seq<char>, timezone: Seq<char>) -> bool {
    &&& t.name == name
    &&& t.cron_expr == cron_expr
    &&& t.timezone == timezone
    &&& t.task_type == "native"@
    &&& t.payload is None
    &&& t.args is None
    &&& t.env is None
    &&& t.sha256 is None
    &&& t.last_run is None
    &&& t.last_duration is None
    &&& !t.last_failed
    &&& t.enabled
    &&& t.last_log_id is None
    &&& t.last_host is None
}

impl AsyncScheduler {
    /// An empty scheduler, not running.
    pub fn new() -> (s: Self)
        ensures
            s.tasks@.len() == 0,
            s.handler_ids@.len() == 0,
            !s.running,
    {
        AsyncScheduler { tasks: Vec::new(), handler_ids: Vec::new(), running: false }
    }

    /// Adds a job named `name` on the schedule `cron_expr` in `timezone`, with a handler,
    /// under a fresh id, which it returns; a time zone the database does not know is
    /// refused and nothing changes.
    pub fn add_async_task(&mut self, name: &str, cron_expr: &str, timezone: &str) -> (r: Result<u128, String>)
        ensures
            r is Ok <==> timezone_valid(timezone@),
            r matches Err(e) ==> e@ == invalid_timezone_message(timezone@) && final(self).tasks == old(self).tasks
                && final(self).handler_ids == old(self).handler_ids,
            r matches Ok(id) ==> exists|t: TaskView| #![trigger fresh_native_task(t, name@, cron_expr@, timezone@)]
                fresh_native_task(t, name@, cron_expr@, timezone@) && t.id == id
                && task_views(final(self).tasks@) == upsert_view(task_views(old(self).tasks@), t)
                && final(self).handler_ids@ == if old(self).handler_ids@.contains(id) {
                    old(self).handler_ids@
                } else {
                    old(self).handler_ids@.push(id)
                },
            final(self).running == old(self).running,
    {
        match ScheduledTask::new(name, cron_expr, timezone) {
            Err(e) => Err(e),
            Ok(task) => {
                let id = task.id;
                let ghost tv = task@;
                assert(fresh_native_task(tv, name@, cron_expr@, timezone@));
                upsert_in(&mut self.tasks, task);
                if !self.has_handler(id) {
                    self.handler_ids.push(id);
                }
                Ok(id)
            },
        }
    }

    /// Whether task `id` has a handler.
    pub fn has_handler(&self, id: u128) -> (res: bool)
        ensures
            res == self.handler_ids@.contains(id),
    {
        let mut i: usize = 0;
        while i < self.handler_ids.len()
            invariant
                i <= self.handler_ids@.len(),
                forall|k: int| 0 <= k < i ==> self.handler_ids@[k] != id,
            decreases self.handler_ids@.len() - i,
        {
            if self.handler_ids[i] == id {
                return true;
            }
            i = i + 1;
        }
        false
    }

    /// Whether running task `id` starts a job: only when it has a handler.
    pub fn run_task(&self, id: u128) -> (starts: bool)
        ensures
            starts == self.handler_ids@.contains(id),
    {
        self.has_handler(id)
    }
}

} // verus!
