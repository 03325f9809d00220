//! The tasks the master runs itself (a heartbeat that counts its beats, an hourly report
//! and a cache cleanup, each logging one line), and the lines the master logs around a run.
use vstd::prelude::*;
use crate::scheduler::Scheduler;
use crate::task::LogMessage;
use crate::text::{decimal, push_decimal, views};
use crate::wasm_handlers::prefixed_line;

verus! {

/// The master's own tasks.
#[derive(Debug)]
pub enum NativeTask {
    Heartbeat,
    HourlyReport,
    CacheCleanup,
}

/// The name under which a native task is registered and logs.
pub open spec fn native_name(t: NativeTask) -> Seq<char> {
    match t {
        NativeTask::Heartbeat => "heartbeat"@,
        NativeTask::HourlyReport => "hourly-report"@,
        NativeTask::CacheCleanup => "cache-cleanup"@,
    }
}

/// The name under which a native task is registered and logs.
pub fn native_task_name(t: &NativeTask) -> (n: String)
    ensures
        n@ == native_name(*t),
{
    match t {
        NativeTask::Heartbeat => String::from_str("heartbeat"),
        NativeTask::HourlyReport => String::from_str("hourly-report"),
        NativeTask::CacheCleanup => String::from_str("cache-cleanup"),
    }
}

impl<M> Scheduler<M> {
    /// Registers the three native tasks' handlers: heartbeat, hourly report, cache cleanup.
    pub fn register_all(&mut self)
        ensures
            views(final(self).native_handlers@) == views(old(self).native_handlers@)
                + seq!["heartbeat"@, "hourly-report"@, "cache-cleanup"@],
            final(self).tasks == old(self).tasks,
            final(self).handler_ids == old(self).handler_ids,
            final(self).workers == old(self).workers,
            final(self).task_to_worker == old(self).task_to_worker,
    {
        let ghost before = views(self.native_handlers@);
        self.add_native_handler("heartbeat");
        let ghost one = views(self.native_handlers@);
        assert(one =~= before.push("heartbeat"@));
        self.add_native_handler("hourly-report");
        let ghost two = views(self.native_handlers@);
        assert(two =~= one.push("hourly-report"@));
        self.add_native_handler("cache-cleanup");
        assert(views(self.native_handlers@) =~= two.push("cache-cleanup"@));
        assert(views(self.native_handlers@) =~= before + seq!["heartbeat"@, "hourly-report"@, "cache-cleanup"@]);
    }
}

/// The line a native task logs on its run; the heartbeat numbers its beats from 1, `beats`
/// being how many it made before.
pub open spec fn native_line(t: NativeTask, beats: u32) -> Seq<char> {
    match t {
        NativeTask::Heartbeat => "Heartbeat #"@ + decimal(beats as nat + 1),
        NativeTask::HourlyReport => "Generating hourly report..."@,
        NativeTask::CacheCleanup => "Cleaning up cache..."@,
    }
}

/// The line a native task logs on its run.
pub fn native_run_line(t: &NativeTask, beats: u32) -> (line: String)
    requires
        beats < u32::MAX,
    ensures
        line@ == native_line(*t, beats),
{
    match t {
        NativeTask::Heartbeat => {
            let mut s = String::from_str("Heartbeat #");
            push_decimal(&mut s, beats as u64 + 1);
            s
        },
        NativeTask::HourlyReport => String::from_str("Generating hourly report..."),
        NativeTask::CacheCleanup => String::from_str("Cleaning up cache..."),
    }
}

/// The dashboard message for a line `line` logged on the master by the run `log_id` of
/// task `task_id`, under the prefix `prefix`: the line shown as `[prefix] line`.
pub fn master_log_message(task_id: u128, log_id: u128, prefix: &str, line: &str) -> (m: LogMessage)
    ensures
        m.task_id == task_id,
        m.log_id == Some(log_id),
        m.prefix matches Some(p) && p@ == prefix@,
        m.hostname matches Some(h) && h@ == "master"@,
        m.text@ == "["@ + prefix@ + "] "@ + line@,
{
    LogMessage {
        task_id,
        log_id: Some(log_id),
        prefix: Some(String::from_str(prefix)),
        hostname: Some(String::from_str("master")),
        text: prefixed_line(prefix, line),
    }
}

/// A stage of a scheduled run, as the master logs it.
pub enum RunStage {
    Starting,
    Failed(String),
    Finished(u64),
}

/// The line the master logs for a stage of a run: its start, its failure with the error,
/// and its end with the time it took in milliseconds.
pub open spec fn run_stage_text(stage: RunStage) -> Seq<char> {
    match stage {
        RunStage::Starting => "Starting task..."@,
        RunStage::Failed(e) => "Task failed: "@ + e@,
        RunStage::Finished(ms) => "Task finished in "@ + decimal(ms as nat) + "ms"@,
    }
}

/// The line the master logs for a stage of a run.
pub fn run_stage_line(stage: &RunStage) -> (line: String)
    ensures
        line@ == run_stage_text(*stage),
{
    match stage {
        RunStage::Starting => String::from_str("Starting task..."),
        RunStage::Failed(e) => {
            let mut s = String::from_str("Task failed: ");
            s.append(e.as_str());
            s
        },
        RunStage::Finished(ms) => {
            let mut s = String::from_str("Task finished in ");
            push_decimal(&mut s, *ms);
            s.append("ms");
            s
        },
    }
}

} // verus!
