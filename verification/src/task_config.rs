//! Retrying a failing task with exponential backoff.
use vstd::prelude::*;
use crate::text::{decimal, push_decimal};

verus! {

/// How often and how patiently a task is retried.
pub struct TaskConfig {
    pub max_retries: u32,
    pub retry_delay_ms: u64,
    pub timeout_ms: u64,
}

impl Default for TaskConfig {
    /// Three attempts, one second apart at first, each given thirty seconds.
    fn default() -> (c: Self)
        ensures
            c.max_retries == 3,
            c.retry_delay_ms == 1000,
            c.timeout_ms == 30000,
    {
        TaskConfig { max_retries: 3, retry_delay_ms: 1000, timeout_ms: 30000 }
    }
}

/// Progress of the retries of one task: attempts made so far, and the wait before the next.
pub struct RetryState {
    pub attempts: u32,
    pub delay_ms: u64,
}

/// What follows an attempt.
pub enum RetryStep {
    /// The attempt succeeded.
    Done,
    /// Wait `delay_ms`, then attempt again.
    Retry { delay_ms: u64 },
    /// The task has failed for good, with this message.
    GiveUp { message: String },
}

/// The message of a task that failed `attempts` times.
pub open spec fn give_up_message(task_name: Seq<char>, attempts: nat) -> Seq<char> {
    "Task '"@ + task_name + "' failed after "@ + decimal(attempts) + " attempts"@
}

/// No attempt made yet; the first wait is the configured delay.
pub fn start_retries(config: &TaskConfig) -> (s: RetryState)
    ensures
        s.attempts == 0,
        s.delay_ms == config.retry_delay_ms,
{
    RetryState { attempts: 0, delay_ms: config.retry_delay_ms }
}

/// Decides what follows an attempt that `succeeded` or not. A failed attempt that leaves
/// fewer than `max_retries` attempts made is retried after the current wait, which then
/// doubles; otherwise the task gives up.
pub fn after_attempt(task_name: &str, config: &TaskConfig, state: RetryState, succeeded: bool) -> (res: (RetryState, RetryStep))
    requires
        state.attempts < u32::MAX,
        !succeeded && state.attempts + 1 < config.max_retries ==> state.delay_ms * 2 <= u64::MAX,
    ensures
        res.0.attempts == state.attempts + 1,
        succeeded ==> res.1 is Done && res.0.delay_ms == state.delay_ms,
        !succeeded && state.attempts + 1 >= config.max_retries ==> res.0.delay_ms == state.delay_ms
            && (res.1 matches RetryStep::GiveUp { message } && message@ == give_up_message(task_name@, (state.attempts + 1) as nat)),
        !succeeded && state.attempts + 1 < config.max_retries ==> res.0.delay_ms == state.delay_ms * 2
            && res.1 == (RetryStep::Retry { delay_ms: state.delay_ms }),
{
    let attempts = state.attempts + 1;
    if succeeded {
        return (RetryState { attempts, delay_ms: state.delay_ms }, RetryStep::Done);
    }
    if attempts >= config.max_retries {
        let mut message = String::from_str("Task '");
        message.append(task_name);
        message.append("' failed after ");
        push_decimal(&mut message, attempts as u64);
        message.append(" attempts");
        return (RetryState { attempts, delay_ms: state.delay_ms }, RetryStep::GiveUp { message });
    }
    (RetryState { attempts, delay_ms: state.delay_ms * 2 }, RetryStep::Retry { delay_ms: state.delay_ms })
}

} // verus!
