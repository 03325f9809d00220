//! Tasks, their schedules, and the messages that travel between master and workers.
use vstd::prelude::*;
use crate::text::{copy_strings, env_eq, env_view, str_eq, strings_eq, views};

verus! {

/// Snapshot of one task as shown on the dashboard.
pub struct TaskStatus {
    pub id: u128,
    pub name: String,
    pub cron: String,
    pub timezone: String,
    pub task_type: String,
    pub last_run: Option<String>,
    pub last_duration_ms: Option<u64>,
    pub last_failed: bool,
    pub enabled: bool,
    pub last_log_id: Option<u128>,
    pub host: Option<String>,
    pub last_host: Option<String>,
}

/// A connected worker; `M` is the type of the resource metrics it reports.
pub struct WorkerInfo<M> {
    pub id: u128,
    pub addr: String,
    pub hostname: String,
    pub running_tasks: Vec<String>,
    pub metrics: Option<M>,
}

/// One line of task output, routed to the dashboard.
pub struct LogMessage {
    pub task_id: u128,
    pub log_id: Option<u128>,
    pub prefix: Option<String>,
    pub hostname: Option<String>,
    pub text: String,
}

/// What the master asks a worker to run.
pub struct RunRequest {
    pub wasm_path: String,
    pub expected_sha256: Option<String>,
    pub task_name: String,
    pub args: Option<Vec<String>>,
    pub env: Option<Vec<(String, String)>>,
    pub log_id: u128,
    pub task_id: u128,
}

/// One entry of the cluster audit log.
pub struct TaskLogEntry {
    pub id: i64,
    pub worker_id: Option<String>,
    pub worker_hostname: Option<String>,
    pub direction: String,
    pub method: String,
    pub payload: String,
    pub created_at: String,
}

/// What a freshly connected worker receives.
pub struct BootstrapInfo {
    pub config_toml: String,
    pub wasm_paths: Vec<String>,
}

/// Messages from the master to a worker.
pub enum MasterMessage {
    Bootstrap(BootstrapInfo),
    WasmBegin { path: String, total_size: usize },
    WasmChunk { path: String, chunk: String, offset: usize },
    WasmEnd { path: String },
    RunTask(RunRequest),
}

/// Messages from a worker to the master; `M` is the metrics type.
pub enum WorkerMessage<M> {
    Log(LogMessage),
    GetWasm { path: String },
    Metrics(M),
    TaskStarted { task_id: u128, task_name: String },
    TaskResult { task_id: u128, log_id: u128, success: bool, error: Option<String> },
}

/// Names the time zones that the time zone database knows.
pub uninterp spec fn timezone_valid(name: Seq<char>) -> bool;

/// Names the cron expressions that the cron parser accepts.
pub uninterp spec fn cron_valid(expr: Seq<char>) -> bool;

/// The first instant strictly after `after` at which the cron expression fires, read in
/// the given time zone; `None` when there is none. Instants are (Unix seconds,
/// nanoseconds) pairs, as chrono's `timestamp` and `timestamp_subsec_nanos` give them.
pub uninterp spec fn cron_next_after(expr: Seq<char>, timezone: Seq<char>, after: (i64, u32)) -> Option<(i64, u32)>;

/// Looks `name` up in `chrono_tz`'s table of zone names (`Tz::from_str`).
/// Claims: it succeeds exactly on the names the table holds, and its error prints
/// as `failed to parse timezone`, as the crate's `Display` impl writes.
#[verifier::external_body]
fn parse_timezone(name: &str) -> (res: Result<(), String>)
    ensures
        res is Ok <==> timezone_valid(name@),
        res matches Err(e) ==> e@ == "failed to parse timezone"@,
{
    match name.parse::<chrono_tz::Tz>() {
        Ok(_) => Ok(()),
        Err(e) => Err(e.to_string()),
    }
}

/// Parses a cron expression with `cron::Schedule::from_str`.
/// Claims only that the answer is the named predicate `cron_valid` of the text.
#[verifier::external_body]
fn cron_parses(expr: &str) -> (ok: bool)
    ensures
        ok == cron_valid(expr@),
{
    <cron::Schedule as std::str::FromStr>::from_str(expr).is_ok()
}

/// The Unix second of chrono's last instant, the end of the year 262142.
pub const LAST_INSTANT_SECS: i64 = 8210266876799;

/// Whether the next fire of a cron schedule can be asked from `start`: the schedule first
/// adds one second to its start, which overflows from within chrono's last second (a
/// start chrono cannot represent, with 2 000 000 000 nanoseconds or more, gives no fire).
pub open spec fn fire_start_ok(start: (i64, u32)) -> bool {
    start.0 != LAST_INSTANT_SECS || start.1 >= 2_000_000_000
}

/// Whether instant `a` comes no later than instant `b`.
pub open spec fn not_after(a: (i64, u32), b: (i64, u32)) -> bool {
    a.0 < b.0 || (a.0 == b.0 && a.1 <= b.1)
}

/// `cron::Schedule::after(..).next()` for the schedule `expr`, started at the instant
/// `after` (`DateTime::from_timestamp`) in the zone `timezone`; the result is given as
/// its `timestamp` and `timestamp_subsec_nanos`. The schedule adds one second to its
/// start, which panics past chrono's last instant, hence the `requires`. Claims that the
/// result is the named `cron_next_after` of the arguments, and that it is `None` when the
/// expression or the zone does not parse (the body returns early there).
#[verifier::external_body]
fn cron_next_fire(expr: &str, timezone: &str, after: (i64, u32)) -> (next: Option<(i64, u32)>)
    requires
        fire_start_ok(after),
    ensures
        next == cron_next_after(expr@, timezone@, after),
        !cron_valid(expr@) ==> next is None,
        !timezone_valid(timezone@) ==> next is None,
{
    let schedule = <cron::Schedule as std::str::FromStr>::from_str(expr).ok()?;
    let tz = timezone.parse::<chrono_tz::Tz>().ok()?;
    let start = chrono::DateTime::from_timestamp(after.0, after.1)?.with_timezone(&tz);
    schedule.after(&start).next().map(|t| (t.timestamp(), t.timestamp_subsec_nanos()))
}

/// The current instant (`chrono::Utc::now`) as its `timestamp` and
/// `timestamp_subsec_nanos`. Nothing is claimed of it.
#[verifier::external_body]
pub(crate) fn now_instant() -> (i64, u32) {
    let now = chrono::Utc::now();
    (now.timestamp(), now.timestamp_subsec_nanos())
}

/// Names what `chrono::DateTime::parse_from_rfc3339` makes of a text, if it parses: the
/// instant as (Unix seconds, nanoseconds), and the local date and time written
/// `%Y-%m-%d %H:%M`.
pub uninterp spec fn rfc3339_parsed(text: Seq<char>) -> Option<((i64, u32), Seq<char>)>;

/// Parses `text` with `chrono::DateTime::parse_from_rfc3339` and gives the instant as its
/// `timestamp` and `timestamp_subsec_nanos` with the local date and time formatted by
/// `format("%Y-%m-%d %H:%M")`. Claims only that the result is the named `rfc3339_parsed`.
#[verifier::external_body]
pub(crate) fn parse_rfc3339_local(text: &str) -> (r: Option<((i64, u32), String)>)
    ensures
        match r {
            Some((t, local)) => rfc3339_parsed(text@) == Some((t, local@)),
            None => rfc3339_parsed(text@) is None,
        },
{
    chrono::DateTime::parse_from_rfc3339(text)
        .ok()
        .map(|d| ((d.timestamp(), d.timestamp_subsec_nanos()), d.format("%Y-%m-%d %H:%M").to_string()))
}

/// A fresh random identifier (`uuid::Uuid::new_v4`), as a 128-bit integer.
/// Nothing is claimed of its value.
#[verifier::external_body]
pub(crate) fn fresh_id() -> u128 {
    uuid::Uuid::new_v4().as_u128()
}

/// Optional string, by its characters.
pub open spec fn opt_view(o: Option<String>) -> Option<Seq<char>> {
    match o {
        Some(s) => Some(s@),
        None => None,
    }
}

/// Optional string slice, by its characters.
pub open spec fn opt_str_view(o: Option<&str>) -> Option<Seq<char>> {
    match o {
        Some(s) => Some(s@),
        None => None,
    }
}

/// Optional list of strings, by their characters.
pub open spec fn opt_views(o: Option<Vec<String>>) -> Option<Seq<Seq<char>>> {
    match o {
        Some(v) => Some(views(v@)),
        None => None,
    }
}

/// Optional slice of strings, by their characters.
pub open spec fn opt_slice_views(o: Option<&[String]>) -> Option<Seq<Seq<char>>> {
    match o {
        Some(v) => Some(views(v@)),
        None => None,
    }
}

/// Optional environment, by the map it stands for.
pub open spec fn opt_env_view(o: Option<Vec<(String, String)>>) -> Option<Map<Seq<char>, Seq<char>>> {
    match o {
        Some(v) => Some(env_view(v@)),
        None => None,
    }
}

/// Optional environment reference, by the map it stands for.
pub open spec fn opt_env_ref_view(o: Option<&Vec<(String, String)>>) -> Option<Map<Seq<char>, Seq<char>>> {
    match o {
        Some(v) => Some(env_view(v@)),
        None => None,
    }
}

/// The message of a failed time zone lookup.
pub open spec fn invalid_timezone_message(timezone: Seq<char>) -> Seq<char> {
    "Invalid timezone "@ + timezone + ": "@ + "failed to parse timezone"@
}

/// Whether a task is due at `now`: it is enabled, its cron expression parses, and it
/// has never run or its next fire time after the last run has come.
pub open spec fn due_at(enabled: bool, cron_ok: bool, last_run: Option<(i64, u32)>, next_fire: Option<(i64, u32)>, now: (i64, u32)) -> bool {
    enabled && cron_ok && match last_run {
        None => true,
        Some(_) => next_fire matches Some(n) && not_after(n, now),
    }
}

/// A scheduled task, by the values of its fields.
pub struct TaskView {
    pub id: u128,
    pub name: Seq<char>,
    pub cron_expr: Seq<char>,
    pub timezone: Seq<char>,
    pub task_type: Seq<char>,
    pub payload: Option<Seq<char>>,
    pub args: Option<Seq<Seq<char>>>,
    pub env: Option<Map<Seq<char>, Seq<char>>>,
    pub sha256: Option<Seq<char>>,
    pub last_run: Option<(i64, u32)>,
    pub last_duration: Option<u64>,
    pub last_failed: bool,
    pub enabled: bool,
    pub last_log_id: Option<u128>,
    pub last_host: Option<Seq<char>>,
}

impl TaskView {
    /// Whether asking whether the task is due cannot overflow the clock: a task that is
    /// enabled, with a cron expression that parses, did not last run within chrono's last
    /// second.
    pub open spec fn fire_query_ok(self) -> bool {
        self.enabled && cron_valid(self.cron_expr) ==> match self.last_run {
            Some(t) => fire_start_ok(t),
            None => true,
        }
    }

    /// The next fire time after the last run, if the task has run.
    pub open spec fn next_fire(self) -> Option<(i64, u32)> {
        match self.last_run {
            Some(t) => cron_next_after(self.cron_expr, self.timezone, t),
            None => None,
        }
    }

    /// Whether the task is due at the instant `now`.
    pub open spec fn is_due_at(self, now: (i64, u32)) -> bool {
        due_at(self.enabled, cron_valid(self.cron_expr), self.last_run, self.next_fire(), now)
    }
}

/// A task that the scheduler runs on a cron schedule.
pub struct ScheduledTask {
    pub id: u128,
    pub name: String,
    pub cron_expr: String,
    /// Name of the time zone in which the cron expression is read.
    pub timezone: String,
    pub task_type: String,
    pub payload: Option<String>,
    pub args: Option<Vec<String>>,
    pub env: Option<Vec<(String, String)>>,
    pub sha256: Option<String>,
    /// Start of the last run, as (Unix seconds, nanoseconds).
    pub last_run: Option<(i64, u32)>,
    pub last_duration: Option<u64>,
    pub last_failed: bool,
    pub enabled: bool,
    pub last_log_id: Option<u128>,
    pub last_host: Option<String>,
}

pub fn copy_opt_string(o: &Option<String>) -> (r: Option<String>)
    ensures
        r == *o,
{
    match o {
        Some(s) => Some(s.clone()),
        None => None,
    }
}

/// Two optional vectors hold the same elements.
pub open spec fn same_opt_vec<T>(a: Option<Vec<T>>, b: Option<Vec<T>>) -> bool {
    match (a, b) {
        (Some(x), Some(y)) => x@ == y@,
        (None, None) => true,
        _ => false,
    }
}

pub fn copy_opt_strings(o: &Option<Vec<String>>) -> (r: Option<Vec<String>>)
    ensures
        same_opt_vec(r, *o),
{
    match o {
        Some(v) => Some(copy_strings(v)),
        None => None,
    }
}

/// Copies an environment list.
pub fn copy_env(v: &Vec<(String, String)>) -> (r: Vec<(String, String)>)
    ensures
        r@ == v@,
{
    let mut r: Vec<(String, String)> = Vec::new();
    let mut i: usize = 0;
    while i < v.len()
        invariant
            i <= v@.len(),
            r@ == v@.take(i as int),
        decreases v@.len() - i,
    {
        r.push((v[i].0.clone(), v[i].1.clone()));
        i = i + 1;
        assert(r@ =~= v@.take(i as int));
    }
    assert(v@.take(i as int) =~= v@);
    r
}

pub fn copy_opt_env(o: &Option<Vec<(String, String)>>) -> (r: Option<Vec<(String, String)>>)
    ensures
        same_opt_vec(r, *o),
{
    match o {
        Some(v) => Some(copy_env(v)),
        None => None,
    }
}

fn opt_eq(a: &Option<String>, b: Option<&str>) -> (res: bool)
    ensures
        res == (opt_view(*a) == opt_str_view(b)),
{
    match (a, b) {
        (Some(x), Some(y)) => str_eq(x.as_str(), y),
        (None, None) => true,
        _ => false,
    }
}

fn opt_strings_eq(a: &Option<Vec<String>>, b: Option<&[String]>) -> (res: bool)
    ensures
        res == (opt_views(*a) == opt_slice_views(b)),
{
    match (a, b) {
        (Some(x), Some(y)) => strings_eq(x.as_slice(), y),
        (None, None) => true,
        _ => false,
    }
}

fn opt_env_eq(a: &Option<Vec<(String, String)>>, b: Option<&Vec<(String, String)>>) -> (res: bool)
    ensures
        res == (opt_env_view(*a) == opt_env_ref_view(b)),
{
    match (a, b) {
        (Some(x), Some(y)) => env_eq(x, y),
        (None, None) => true,
        _ => false,
    }
}

fn invalid_timezone(timezone: &str, err: String) -> (m: String)
    requires
        err@ == "failed to parse timezone"@,
    ensures
        m@ == invalid_timezone_message(timezone@),
{
    let mut m = String::from_str("Invalid timezone ");
    m.append(timezone);
    m.append(": ");
    m.append(err.as_str());
    m
}

impl View for ScheduledTask {
    type V = TaskView;

    open spec fn view(&self) -> TaskView {
        TaskView {
            id: self.id,
            name: self.name@,
            cron_expr: self.cron_expr@,
            timezone: self.timezone@,
            task_type: self.task_type@,
            payload: opt_view(self.payload),
            args: opt_views(self.args),
            env: opt_env_view(self.env),
            sha256: opt_view(self.sha256),
            last_run: self.last_run,
            last_duration: self.last_duration,
            last_failed: self.last_failed,
            enabled: self.enabled,
            last_log_id: self.last_log_id,
            last_host: opt_view(self.last_host),
        }
    }
}

impl Clone for ScheduledTask {
    fn clone(&self) -> (r: Self)
        ensures
            r.same_as(*self),
            r@ == self@,
    {
        ScheduledTask {
            id: self.id,
            name: self.name.clone(),
            cron_expr: self.cron_expr.clone(),
            timezone: self.timezone.clone(),
            task_type: self.task_type.clone(),
            payload: copy_opt_string(&self.payload),
            args: copy_opt_strings(&self.args),
            env: copy_opt_env(&self.env),
            sha256: copy_opt_string(&self.sha256),
            last_run: self.last_run,
            last_duration: self.last_duration,
            last_failed: self.last_failed,
            enabled: self.enabled,
            last_log_id: self.last_log_id,
            last_host: copy_opt_string(&self.last_host),
        }
    }
}

impl ScheduledTask {
    /// Field-by-field equality, lists compared by their contents.
    pub open spec fn same_as(&self, other: Self) -> bool {
        &&& self.id == other.id
        &&& self.name == other.name
        &&& self.cron_expr == other.cron_expr
        &&& self.timezone == other.timezone
        &&& self.task_type == other.task_type
        &&& self.payload == other.payload
        &&& same_opt_vec(self.args, other.args)
        &&& same_opt_vec(self.env, other.env)
        &&& self.sha256 == other.sha256
        &&& self.last_run == other.last_run
        &&& self.last_duration == other.last_duration
        &&& self.last_failed == other.last_failed
        &&& self.enabled == other.enabled
        &&& self.last_log_id == other.last_log_id
        &&& self.last_host == other.last_host
    }

    /// The fields a task has right after it is made: never run, no failure, enabled,
    /// no log, no host.
    pub open spec fn is_fresh(&self) -> bool {
        &&& self.last_run is None
        &&& self.last_duration is None
        &&& !self.last_failed
        &&& self.enabled
        &&& self.last_log_id is None
        &&& self.last_host is None
    }

    /// A native task named `name`, fired by `cron_expr` in `timezone`, with a fresh random id.
    pub fn new(name: &str, cron_expr: &str, timezone: &str) -> (res: Result<Self, String>)
        ensures
            res is Ok <==> timezone_valid(timezone@),
            res matches Err(e) ==> e@ == invalid_timezone_message(timezone@),
            res matches Ok(t) ==> {
                &&& t.name@ == name@
                &&& t.cron_expr@ == cron_expr@
                &&& t.timezone@ == timezone@
                &&& t.task_type@ == "native"@
                &&& t.payload is None
                &&& t.args is None
                &&& t.env is None
                &&& t.sha256 is None
                &&& t.is_fresh()
            },
    {
        match parse_timezone(timezone) {
            Err(e) => Err(invalid_timezone(timezone, e)),
            Ok(()) => Ok(ScheduledTask {
                id: fresh_id(),
                name: String::from_str(name),
                cron_expr: String::from_str(cron_expr),
                timezone: String::from_str(timezone),
                task_type: String::from_str("native"),
                payload: None,
                args: None,
                env: None,
                sha256: None,
                last_run: None,
                last_duration: None,
                last_failed: false,
                enabled: true,
                last_log_id: None,
                last_host: None,
            }),
        }
    }

    /// A WASM task running the module at `wasm_path`, with a fresh random id.
    pub fn new_wasm(
        name: &str,
        cron_expr: &str,
        timezone: &str,
        wasm_path: &str,
        args: Option<Vec<String>>,
        env: Option<Vec<(String, String)>>,
        sha256: Option<String>,
    ) -> (res: Result<Self, String>)
        ensures
            res is Ok <==> timezone_valid(timezone@),
            res matches Err(e) ==> e@ == invalid_timezone_message(timezone@),
            res matches Ok(t) ==> {
                &&& t.name@ == name@
                &&& t.cron_expr@ == cron_expr@
                &&& t.timezone@ == timezone@
                &&& t.task_type@ == "wasm"@
                &&& t.payload == Some(t.payload.unwrap()) && t.payload.unwrap()@ == wasm_path@
                &&& t.args == args
                &&& t.env == env
                &&& t.sha256 == sha256
                &&& t.is_fresh()
            },
    {
        match parse_timezone(timezone) {
            Err(e) => Err(invalid_timezone(timezone, e)),
            Ok(()) => Ok(ScheduledTask {
                id: fresh_id(),
                name: String::from_str(name),
                cron_expr: String::from_str(cron_expr),
                timezone: String::from_str(timezone),
                task_type: String::from_str("wasm"),
                payload: Some(String::from_str(wasm_path)),
                args,
                env,
                sha256,
                last_run: None,
                last_duration: None,
                last_failed: false,
                enabled: true,
                last_log_id: None,
                last_host: None,
            }),
        }
    }

    /// A task as stored in the database, with the stored id and enabled flag.
    pub fn from_db(
        id: u128,
        name: String,
        cron_expr: String,
        timezone: String,
        task_type: String,
        payload: Option<String>,
        args: Option<Vec<String>>,
        env: Option<Vec<(String, String)>>,
        sha256: Option<String>,
        enabled: bool,
    ) -> (res: Result<Self, String>)
        ensures
            res is Ok <==> timezone_valid(timezone@),
            res matches Err(e) ==> e@ == invalid_timezone_message(timezone@),
            res matches Ok(t) ==> {
                &&& t.id == id
                &&& t.name == name
                &&& t.cron_expr == cron_expr
                &&& t.timezone == timezone
                &&& t.task_type == task_type
                &&& t.payload == payload
                &&& t.args == args
                &&& t.env == env
                &&& t.sha256 == sha256
                &&& t.enabled == enabled
                &&& t.last_run is None
                &&& t.last_duration is None
                &&& !t.last_failed
                &&& t.last_log_id is None
                &&& t.last_host is None
            },
    {
        match parse_timezone(timezone.as_str()) {
            Err(e) => Err(invalid_timezone(timezone.as_str(), e)),
            Ok(()) => Ok(ScheduledTask {
                id,
                name,
                cron_expr,
                timezone,
                task_type,
                payload,
                args,
                env,
                sha256,
                last_run: None,
                last_duration: None,
                last_failed: false,
                enabled,
                last_log_id: None,
                last_host: None,
            }),
        }
    }

    /// Whether the task's configuration equals the given one, field by field
    /// (the environment compared as a map).
    pub open spec fn config_matches(
        &self,
        cron_expr: Seq<char>,
        timezone: Seq<char>,
        task_type: Seq<char>,
        payload: Option<Seq<char>>,
        args: Option<Seq<Seq<char>>>,
        env: Option<Map<Seq<char>, Seq<char>>>,
        sha256: Option<Seq<char>>,
    ) -> bool {
        &&& self.cron_expr@ == cron_expr
        &&& self.timezone@ == timezone
        &&& self.task_type@ == task_type
        &&& opt_view(self.payload) == payload
        &&& opt_views(self.args) == args
        &&& opt_env_view(self.env) == env
        &&& opt_view(self.sha256) == sha256
    }

    /// Compares the task's configuration with the given one.
    pub fn config_equals(
        &self,
        cron_expr: &str,
        timezone: &str,
        task_type: &str,
        payload: Option<&str>,
        args: Option<&[String]>,
        env: Option<&Vec<(String, String)>>,
        sha256: Option<&str>,
    ) -> (res: bool)
        ensures
            res == self.config_matches(
                cron_expr@,
                timezone@,
                task_type@,
                opt_str_view(payload),
                opt_slice_views(args),
                opt_env_ref_view(env),
                opt_str_view(sha256),
            ),
    {
        str_eq(self.cron_expr.as_str(), cron_expr)
            && str_eq(self.timezone.as_str(), timezone)
            && str_eq(self.task_type.as_str(), task_type)
            && opt_eq(&self.payload, payload)
            && opt_strings_eq(&self.args, args)
            && opt_env_eq(&self.env, env)
            && opt_eq(&self.sha256, sha256)
    }

    /// Whether the task is due at the given instant.
    pub fn should_run_at(&self, now: (i64, u32)) -> (res: bool)
        requires
            self@.fire_query_ok(),
        ensures
            res == self@.is_due_at(now),
    {
        if !self.enabled {
            return false;
        }
        if !cron_parses(self.cron_expr.as_str()) {
            return false;
        }
        match self.last_run {
            None => true,
            Some(last) => match cron_next_fire(self.cron_expr.as_str(), self.timezone.as_str(), last) {
                Some(next) => next.0 < now.0 || (next.0 == now.0 && next.1 <= now.1),
                None => false,
            },
        }
    }

    /// Whether the task is due now. Whatever the clock reads, a due task is enabled with a
    /// parsing cron expression, and an enabled task with a parsing expression that never
    /// ran is due.
    pub fn should_run(&self) -> (res: bool)
        requires
            self@.fire_query_ok(),
        ensures
            res ==> self.enabled && cron_valid(self.cron_expr@),
            res && self.last_run is Some ==> self@.next_fire() is Some,
            self.enabled && cron_valid(self.cron_expr@) && self.last_run is None ==> res,
            exists|now: (i64, u32)| res == #[trigger] self@.is_due_at(now),
    {
        let now = now_instant();
        self.should_run_at(now)
    }

    /// Whether the query of `should_run` can be made: false only for an enabled task with
    /// a parsing cron expression whose last run lies within chrono's last second.
    pub fn fire_query_ok(&self) -> (ok: bool)
        ensures
            ok == self@.fire_query_ok(),
    {
        match self.last_run {
            Some(t) => t.0 != LAST_INSTANT_SECS || t.1 >= 2_000_000_000 || !self.enabled || !cron_parses(self.cron_expr.as_str()),
            None => true,
        }
    }

    /// `should_run` where its query can be made; `None` for a task whose last run lies
    /// within chrono's last second, where the schedule's clock would overflow.
    pub fn should_run_checked(&self) -> (res: Option<bool>)
        ensures
            res is None <==> !self@.fire_query_ok(),
            res matches Some(b) ==> (exists|now: (i64, u32)| b == #[trigger] self@.is_due_at(now)),
    {
        if self.fire_query_ok() {
            Some(self.should_run())
        } else {
            None
        }
    }
}

} // verus!
