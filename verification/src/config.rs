//! The task configuration file (`cron.toml`): one `[[task]]` table per task.
use vstd::prelude::*;
use crate::task::{opt_env_view, opt_view, opt_views};

verus! {

/// The whole configuration file.
pub struct AppConfig {
    pub tasks: Vec<TaskConfig>,
}

/// One configured task.
pub struct TaskConfig {
    pub name: String,
    pub cron: String,
    pub timezone: String,
    pub task_type: String,
    pub payload: Option<String>,
    pub args: Option<Vec<String>>,
    pub env: Option<Vec<(String, String)>>,
    pub sha256: Option<String>,
}

/// A configured task, by the values of its fields.
pub struct TaskConfigView {
    pub name: Seq<char>,
    pub cron: Seq<char>,
    pub timezone: Seq<char>,
    pub task_type: Seq<char>,
    pub payload: Option<Seq<char>>,
    pub args: Option<Seq<Seq<char>>>,
    pub env: Option<Map<Seq<char>, Seq<char>>>,
    pub sha256: Option<Seq<char>>,
}

impl View for TaskConfig {
    type V = TaskConfigView;

    open spec fn view(&self) -> TaskConfigView {
        TaskConfigView {
            name: self.name@,
            cron: self.cron@,
            timezone: self.timezone@,
            task_type: self.task_type@,
            payload: opt_view(self.payload),
            args: opt_views(self.args),
            env: opt_env_view(self.env),
            sha256: opt_view(self.sha256),
        }
    }
}

/// The time zone of a task whose configuration names none.
pub fn default_timezone() -> (tz: String)
    ensures
        tz@ == "UTC"@,
{
    String::from_str("UTC")
}

} // verus!
