//! Reloading the task configuration: what a reload changes in memory and in the
//! database, decided from the current tasks and the new configuration.
use vstd::prelude::*;
use crate::config::{AppConfig, TaskConfig, TaskConfigView};
use crate::scheduler::{Scheduler, find_task_in, id_pos, ids_unique, lemma_upsert_then_lookup, task_views, upsert_in, upsert_view};
use crate::task::{
    ScheduledTask, TaskView, copy_opt_env, copy_opt_string, copy_opt_strings, fresh_id,
    invalid_timezone_message, opt_env_ref_view, opt_env_view, opt_slice_views, opt_str_view, opt_view,
    opt_views, parse_rfc3339_local, rfc3339_parsed, timezone_valid,
};
use crate::text::{str_eq, views};

verus! {

/// A handler the application has to install after a reload.
pub enum Registration {
    Native { id: u128, name: String },
    Wasm {
        id: u128,
        name: String,
        path: String,
        args: Option<Vec<String>>,
        env: Option<Vec<(String, String)>>,
        sha256: Option<String>,
    },
}

/// A registration, by value.
pub enum RegistrationView {
    Native { id: u128, name: Seq<char> },
    Wasm {
        id: u128,
        name: Seq<char>,
        path: Seq<char>,
        args: Option<Seq<Seq<char>>>,
        env: Option<Map<Seq<char>, Seq<char>>>,
        sha256: Option<Seq<char>>,
    },
}

impl View for Registration {
    type V = RegistrationView;

    open spec fn view(&self) -> RegistrationView {
        match self {
            Registration::Native { id, name } => RegistrationView::Native { id: *id, name: name@ },
            Registration::Wasm { id, name, path, args, env, sha256 } => RegistrationView::Wasm {
                id: *id,
                name: name@,
                path: path@,
                args: opt_views(*args),
                env: opt_env_view(*env),
                sha256: opt_view(*sha256),
            },
        }
    }
}

/// What a configuration reload does, in order: each task of `upserts` is saved to the
/// database and then put in memory (replacing the task with its id); when `error` is set
/// the reload stops there and fails with it; otherwise the `registrations` are installed
/// and the tasks of `removals` are removed.
pub struct SyncPlan {
    pub upserts: Vec<ScheduledTask>,
    pub registrations: Vec<Registration>,
    pub removals: Vec<u128>,
    pub error: Option<String>,
}

/// The state of a reload after some configured tasks have been looked at.
pub struct SyncAcc {
    pub work: Seq<TaskView>,
    pub upserts: Seq<TaskView>,
    pub regs: Seq<RegistrationView>,
    pub error: Option<Seq<char>>,
}

/// Position of the first task named `name`, or -1.
pub open spec fn name_pos(ts: Seq<TaskView>, name: Seq<char>) -> int {
    if exists|i: int| 0 <= i < ts.len() && ts[i].name == name {
        choose|i: int| 0 <= i < ts.len() && ts[i].name == name && forall|k: int| 0 <= k < i ==> ts[k].name != name
    } else {
        -1
    }
}

/// Id of the task that a configured name refers to: the first task with that name.
pub open spec fn existing_id(ts: Seq<TaskView>, name: Seq<char>) -> Option<u128> {
    if name_pos(ts, name) >= 0 {
        Some(ts[name_pos(ts, name)].id)
    } else {
        None
    }
}

/// The task with id `id` in `ts`, if any.
pub open spec fn task_with_id(ts: Seq<TaskView>, id: u128) -> Option<TaskView> {
    if id_pos(ts, id) >= 0 {
        Some(ts[id_pos(ts, id)])
    } else {
        None
    }
}

/// Whether the task already has exactly the configured settings.
pub open spec fn matches_config(t: TaskView, c: TaskConfigView) -> bool {
    &&& t.cron_expr == c.cron
    &&& t.timezone == c.timezone
    &&& t.task_type == c.task_type
    &&& t.payload == c.payload
    &&& t.args == c.args
    &&& t.env == c.env
    &&& t.sha256 == c.sha256
}

/// The task made from configuration `c` under id `id`. A native task keeps no payload,
/// arguments, environment or checksum. The run history and the enabled flag of `prev`
/// carry over; the last log and host do not.
pub open spec fn configured_task(id: u128, c: TaskConfigView, native: bool, prev: Option<TaskView>) -> TaskView {
    TaskView {
        id,
        name: c.name,
        cron_expr: c.cron,
        timezone: c.timezone,
        task_type: if native { "native"@ } else { "wasm"@ },
        payload: if native { None } else { c.payload },
        args: if native { None } else { c.args },
        env: if native { None } else { c.env },
        sha256: if native { None } else { c.sha256 },
        last_run: match prev { Some(p) => p.last_run, None => None },
        last_duration: match prev { Some(p) => p.last_duration, None => None },
        last_failed: match prev { Some(p) => p.last_failed, None => false },
        enabled: match prev { Some(p) => p.enabled, None => true },
        last_log_id: None,
        last_host: None,
    }
}

/// One configured task applied to the reload state. `snapshot` holds the tasks before the
/// reload, `handlers` the names with a native handler, `fresh` the id a new task gets.
pub open spec fn sync_step(
    snapshot: Seq<TaskView>,
    handlers: Seq<Seq<char>>,
    acc: SyncAcc,
    c: TaskConfigView,
    fresh: u128,
) -> SyncAcc {
    if acc.error is Some {
        acc
    } else {
        let eid = existing_id(snapshot, c.name);
        let cur = match eid {
            Some(id) => task_with_id(acc.work, id),
            None => None,
        };
        if cur matches Some(t) && matches_config(t, c) {
            if c.task_type == "native"@ && handlers.contains(c.name) {
                SyncAcc { regs: acc.regs.push(RegistrationView::Native { id: eid.unwrap(), name: c.name }), ..acc }
            } else {
                acc
            }
        } else {
            let id = match eid {
                Some(x) => x,
                None => fresh,
            };
            sync_update_spec(acc, c, id, cur, handlers.contains(c.name))
        }
    }
}

/// The reload state after the configured tasks `cfgs`, in order, the i-th new task
/// getting id `fresh[i]`.
pub open spec fn sync_fold(
    snapshot: Seq<TaskView>,
    handlers: Seq<Seq<char>>,
    cfgs: Seq<TaskConfigView>,
    fresh: Seq<u128>,
) -> SyncAcc
    decreases cfgs.len(),
{
    if cfgs.len() == 0 {
        SyncAcc { work: snapshot, upserts: Seq::empty(), regs: Seq::empty(), error: None }
    } else {
        sync_step(
            snapshot,
            handlers,
            sync_fold(snapshot, handlers, cfgs.drop_last(), fresh.take(cfgs.len() - 1)),
            cfgs.last(),
            fresh[cfgs.len() - 1],
        )
    }
}

/// Whether `a` has the enabled flag and the run history of `b`.
pub open spec fn keeps_run_state(a: TaskView, b: TaskView) -> bool {
    &&& a.enabled == b.enabled
    &&& a.last_run == b.last_run
    &&& a.last_duration == b.last_duration
    &&& a.last_failed == b.last_failed
}

/// The reload state keeps, for every task it found, its run state: ids stay distinct, each
/// found task is still there with its run state, and each task put in under a found id
/// carries that task's run state.
pub open spec fn run_state_kept(snapshot: Seq<TaskView>, acc: SyncAcc) -> bool {
    &&& ids_unique(acc.work)
    &&& forall|j: int| 0 <= j < snapshot.len() ==> id_pos(acc.work, #[trigger] snapshot[j].id) >= 0
        && keeps_run_state(acc.work[id_pos(acc.work, snapshot[j].id)], snapshot[j])
    &&& forall|k: int, j: int| 0 <= k < acc.upserts.len() && 0 <= j < snapshot.len()
        && #[trigger] acc.upserts[k].id == #[trigger] snapshot[j].id ==> keeps_run_state(acc.upserts[k], snapshot[j])
}

/// The task a reload step would put in for configuration `c` (with `f` as a new id).
spec fn step_task(snapshot: Seq<TaskView>, acc: SyncAcc, c: TaskConfigView, f: u128) -> TaskView {
    let eid = existing_id(snapshot, c.name);
    let cur = match eid {
        Some(id) => task_with_id(acc.work, id),
        None => None,
    };
    let id = match eid {
        Some(x) => x,
        None => f,
    };
    configured_task(id, c, c.task_type == "native"@, cur)
}

proof fn lemma_sync_step_shape(snapshot: Seq<TaskView>, handlers: Seq<Seq<char>>, acc: SyncAcc, c: TaskConfigView, f: u128)
    ensures
        ({
            let next = sync_step(snapshot, handlers, acc, c, f);
            ||| (next.work == acc.work && next.upserts == acc.upserts)
            ||| (next.work == upsert_view(acc.work, step_task(snapshot, acc, c, f))
                && next.upserts == acc.upserts.push(step_task(snapshot, acc, c, f)))
        }),
{
}

proof fn lemma_put_keeps(snapshot: Seq<TaskView>, acc: SyncAcc, t: TaskView, next: SyncAcc)
    requires
        ids_unique(snapshot),
        run_state_kept(snapshot, acc),
        next.work == upsert_view(acc.work, t),
        next.upserts == acc.upserts.push(t),
        forall|j: int| 0 <= j < snapshot.len() && #[trigger] snapshot[j].id == t.id ==> keeps_run_state(t, snapshot[j]),
    ensures
        run_state_kept(snapshot, next),
{
    lemma_upsert_then_lookup(acc.work, t);
    assert forall|j: int| 0 <= j < snapshot.len() implies id_pos(next.work, #[trigger] snapshot[j].id) >= 0
        && keeps_run_state(next.work[id_pos(next.work, snapshot[j].id)], snapshot[j]) by {
        if snapshot[j].id != t.id {
            assert(id_pos(acc.work, snapshot[j].id) >= 0);
        }
    }
    assert forall|k: int, j: int| 0 <= k < next.upserts.len() && 0 <= j < snapshot.len()
        && #[trigger] next.upserts[k].id == #[trigger] snapshot[j].id implies keeps_run_state(next.upserts[k], snapshot[j]) by {
        if k < acc.upserts.len() {
            assert(next.upserts[k] == acc.upserts[k]);
        } else {
            assert(next.upserts[k] == t);
        }
    }
}

proof fn lemma_least_name(ts: Seq<TaskView>, name: Seq<char>, i: int)
    requires
        0 <= i < ts.len(),
        ts[i].name == name,
    ensures
        exists|j: int| 0 <= j < ts.len() && ts[j].name == name && forall|k: int| 0 <= k < j ==> ts[k].name != name,
    decreases i,
{
    if exists|k: int| 0 <= k < i && ts[k].name == name {
        let k = choose|k: int| 0 <= k < i && ts[k].name == name;
        lemma_least_name(ts, name, k);
    }
}

proof fn lemma_name_pos_in(ts: Seq<TaskView>, name: Seq<char>)
    requires
        name_pos(ts, name) >= 0,
    ensures
        name_pos(ts, name) < ts.len(),
        ts[name_pos(ts, name)].name == name,
{
    let i = choose|i: int| 0 <= i < ts.len() && ts[i].name == name;
    lemma_least_name(ts, name, i);
}

proof fn lemma_step_task_state(snapshot: Seq<TaskView>, acc: SyncAcc, c: TaskConfigView, f: u128)
    requires
        ids_unique(snapshot),
        run_state_kept(snapshot, acc),
        forall|k: int| 0 <= k < snapshot.len() ==> f != #[trigger] snapshot[k].id,
    ensures
        forall|j: int| 0 <= j < snapshot.len() && #[trigger] snapshot[j].id == step_task(snapshot, acc, c, f).id
            ==> keeps_run_state(step_task(snapshot, acc, c, f), snapshot[j]),
{
    let t = step_task(snapshot, acc, c, f);
    let q = name_pos(snapshot, c.name);
    if q >= 0 {
        lemma_name_pos_in(snapshot, c.name);
        let id = snapshot[q].id;
        assert(existing_id(snapshot, c.name) == Some(id));
        assert(id_pos(acc.work, id) >= 0 && keeps_run_state(acc.work[id_pos(acc.work, id)], snapshot[q]));
        assert(task_with_id(acc.work, id) == Some(acc.work[id_pos(acc.work, id)]));
        assert(t.id == id);
        assert(keeps_run_state(t, snapshot[q]));
        assert forall|j: int| 0 <= j < snapshot.len() && #[trigger] snapshot[j].id == t.id implies keeps_run_state(t, snapshot[j]) by {
            if j != q {
                if j < q {
                    assert(snapshot[j].id != snapshot[q].id);
                } else {
                    assert(snapshot[q].id != snapshot[j].id);
                }
            }
        }
    } else {
        assert(existing_id(snapshot, c.name) is None);
        assert(t.id == f);
    }
}

proof fn lemma_sync_step_keeps(snapshot: Seq<TaskView>, handlers: Seq<Seq<char>>, acc: SyncAcc, c: TaskConfigView, f: u128)
    requires
        ids_unique(snapshot),
        run_state_kept(snapshot, acc),
        forall|k: int| 0 <= k < snapshot.len() ==> f != #[trigger] snapshot[k].id,
    ensures
        run_state_kept(snapshot, sync_step(snapshot, handlers, acc, c, f)),
{
    lemma_sync_step_shape(snapshot, handlers, acc, c, f);
    lemma_step_task_state(snapshot, acc, c, f);
    let next = sync_step(snapshot, handlers, acc, c, f);
    if !(next.work == acc.work && next.upserts == acc.upserts) {
        lemma_put_keeps(snapshot, acc, step_task(snapshot, acc, c, f), next);
    }
}

proof fn lemma_sync_state_inv(snapshot: Seq<TaskView>, handlers: Seq<Seq<char>>, cfgs: Seq<TaskConfigView>, fresh: Seq<u128>)
    requires
        ids_unique(snapshot),
        fresh.len() == cfgs.len(),
        forall|i: int, k: int| 0 <= i < fresh.len() && 0 <= k < snapshot.len() ==> fresh[i] != snapshot[k].id,
    ensures
        run_state_kept(snapshot, sync_fold(snapshot, handlers, cfgs, fresh)),
    decreases cfgs.len(),
{
    if cfgs.len() == 0 {
        assert forall|j: int| 0 <= j < snapshot.len() implies id_pos(snapshot, #[trigger] snapshot[j].id) >= 0
            && keeps_run_state(snapshot[id_pos(snapshot, snapshot[j].id)], snapshot[j]) by {
            lemma_upsert_then_lookup(snapshot, snapshot[j]);
            let p = id_pos(snapshot, snapshot[j].id);
            if p != j {
                if p < j {
                    assert(snapshot[p].id != snapshot[j].id);
                } else {
                    assert(snapshot[j].id != snapshot[p].id);
                }
            }
        }
    } else {
        let n = cfgs.len() - 1;
        let fr = fresh.take(n);
        assert forall|i: int, k: int| 0 <= i < fr.len() && 0 <= k < snapshot.len() implies fr[i] != snapshot[k].id by {
            assert(fr[i] == fresh[i]);
        }
        lemma_sync_state_inv(snapshot, handlers, cfgs.drop_last(), fr);
        assert forall|k: int| 0 <= k < snapshot.len() implies fresh[n] != #[trigger] snapshot[k].id by {}
        lemma_sync_step_keeps(snapshot, handlers, sync_fold(snapshot, handlers, cfgs.drop_last(), fr), cfgs.last(), fresh[n]);
    }
}

/// A reload that changes an already scheduled task keeps that task's enabled flag and run
/// history: every task it puts in under the id of a task it found keeps that task's
/// enabled flag, last run, last duration and failure, so editing the configuration does
/// not re-enable a task the user disabled. New tasks get ids the scheduler does not hold.
pub proof fn lemma_reload_keeps_task_state(snapshot: Seq<TaskView>, handlers: Seq<Seq<char>>, cfgs: Seq<TaskConfigView>, fresh: Seq<u128>)
    requires
        ids_unique(snapshot),
        fresh.len() == cfgs.len(),
        forall|i: int, k: int| 0 <= i < fresh.len() && 0 <= k < snapshot.len() ==> fresh[i] != snapshot[k].id,
    ensures
        forall|k: int, j: int| 0 <= k < sync_fold(snapshot, handlers, cfgs, fresh).upserts.len() && 0 <= j < snapshot.len()
            && #[trigger] sync_fold(snapshot, handlers, cfgs, fresh).upserts[k].id == #[trigger] snapshot[j].id
            ==> ({
                let u = sync_fold(snapshot, handlers, cfgs, fresh).upserts[k];
                &&& u.enabled == snapshot[j].enabled
                &&& u.last_run == snapshot[j].last_run
                &&& u.last_duration == snapshot[j].last_duration
                &&& u.last_failed == snapshot[j].last_failed
            }),
{
    lemma_sync_state_inv(snapshot, handlers, cfgs, fresh);
}

/// Whether some configured task is named `name`.
pub open spec fn configured(cfgs: Seq<TaskConfigView>, name: Seq<char>) -> bool {
    exists|i: int| 0 <= i < cfgs.len() && cfgs[i].name == name
}

/// Ids of the tasks among the first `n` of `snapshot` that a reload removes: the first
/// task of each name that the configuration no longer names.
pub open spec fn removal_ids(snapshot: Seq<TaskView>, cfgs: Seq<TaskConfigView>, n: int) -> Seq<u128>
    decreases n,
{
    if n <= 0 {
        Seq::empty()
    } else if name_pos(snapshot, snapshot[n - 1].name) == n - 1 && !configured(cfgs, snapshot[n - 1].name) {
        removal_ids(snapshot, cfgs, n - 1).push(snapshot[n - 1].id)
    } else {
        removal_ids(snapshot, cfgs, n - 1)
    }
}

/// The configured tasks, by value.
pub open spec fn config_views(config: AppConfig) -> Seq<TaskConfigView> {
    config.tasks@.map_values(|c: TaskConfig| c@)
}

/// The registrations, by value.
pub open spec fn registration_views(r: Seq<Registration>) -> Seq<RegistrationView> {
    r.map_values(|x: Registration| x@)
}

/// The reload state held by the working lists.
pub open spec fn acc_of(work: Seq<ScheduledTask>, upserts: Seq<ScheduledTask>, regs: Seq<Registration>, error: Option<String>) -> SyncAcc {
    SyncAcc { work: task_views(work), upserts: task_views(upserts), regs: registration_views(regs), error: opt_view(error) }
}

proof fn lemma_first_name(ts: Seq<TaskView>, name: Seq<char>, i: int)
    requires
        0 <= i < ts.len(),
        ts[i].name == name,
        forall|k: int| 0 <= k < i ==> ts[k].name != name,
    ensures
        name_pos(ts, name) == i,
{
    let j = name_pos(ts, name);
    assert(0 <= j < ts.len() && ts[j].name == name && forall|k: int| 0 <= k < j ==> ts[k].name != name);
    if j < i {
        assert(ts[j].name != name);
    }
    if i < j {
        assert(ts[i].name != name);
    }
}

/// Position of the first task named `name` in `ts`.
fn find_named(ts: &Vec<ScheduledTask>, name: &str) -> (pos: Option<usize>)
    ensures
        match pos {
            Some(i) => i < ts@.len() && name_pos(task_views(ts@), name@) == i,
            None => name_pos(task_views(ts@), name@) == -1,
        },
{
    let mut i: usize = 0;
    while i < ts.len()
        invariant
            i <= ts@.len(),
            forall|k: int| 0 <= k < i ==> ts@[k].name@ != name@,
        decreases ts@.len() - i,
    {
        if str_eq(ts[i].name.as_str(), name) {
            proof {
                lemma_first_name(task_views(ts@), name@, i as int);
            }
            return Some(i);
        }
        i = i + 1;
    }
    assert(!(exists|k: int| 0 <= k < task_views(ts@).len() && task_views(ts@)[k].name == name@));
    None
}

fn copy_tasks(ts: &Vec<ScheduledTask>) -> (r: Vec<ScheduledTask>)
    ensures
        task_views(r@) == task_views(ts@),
{
    let mut r: Vec<ScheduledTask> = Vec::new();
    let mut i: usize = 0;
    while i < ts.len()
        invariant
            i <= ts@.len(),
            r@.len() == i,
            task_views(r@) == task_views(ts@).take(i as int),
        decreases ts@.len() - i,
    {
        let c = ts[i].clone();
        assert(c@ == task_views(ts@)[i as int]);
        let ghost before = r@;
        r.push(c);
        assert forall|k: int| 0 <= k < i + 1 implies task_views(r@)[k] == task_views(ts@).take(i + 1)[k] by {
            if k < i {
                assert(r@[k] == before[k]);
                assert(task_views(before)[k] == task_views(ts@).take(i as int)[k]);
            }
        }
        i = i + 1;
        assert(task_views(r@) =~= task_views(ts@).take(i as int));
    }
    assert(task_views(ts@).take(i as int) =~= task_views(ts@));
    r
}

fn config_names_contain(config: &AppConfig, name: &str) -> (res: bool)
    ensures
        res == configured(config_views(*config), name@),
{
    let mut i: usize = 0;
    while i < config.tasks.len()
        invariant
            i <= config.tasks@.len(),
            forall|k: int| 0 <= k < i ==> config.tasks@[k].name@ != name@,
        decreases config.tasks@.len() - i,
    {
        if str_eq(config.tasks[i].name.as_str(), name) {
            assert(config_views(*config)[i as int].name == name@);
            return true;
        }
        i = i + 1;
    }
    false
}

/// The task built from configuration `c` under `id`, carrying over `prev`'s history.
fn build_configured(id: u128, c: &TaskConfig, native: bool, prev: Option<&ScheduledTask>) -> (res: Result<ScheduledTask, String>)
    requires
        !native ==> c.payload is Some,
    ensures
        res is Ok <==> timezone_valid(c.timezone@),
        res matches Err(e) ==> e@ == invalid_timezone_message(c.timezone@),
        res matches Ok(t) ==> t@ == configured_task(id, c@, native, match prev { Some(p) => Some(p@), None => None }),
{
    let made = if native {
        ScheduledTask::new(c.name.as_str(), c.cron.as_str(), c.timezone.as_str())
    } else {
        let payload = match &c.payload {
            Some(p) => p.as_str(),
            None => "",
        };
        ScheduledTask::new_wasm(
            c.name.as_str(),
            c.cron.as_str(),
            c.timezone.as_str(),
            payload,
            copy_opt_strings(&c.args),
            copy_opt_env(&c.env),
            copy_opt_string(&c.sha256),
        )
    };
    match made {
        Err(e) => Err(e),
        Ok(mut t) => {
            t.id = id;
            match prev {
                Some(p) => {
                    t.last_run = p.last_run;
                    t.last_duration = p.last_duration;
                    t.last_failed = p.last_failed;
                    t.enabled = p.enabled;
                },
                None => {},
            }
            Ok(t)
        },
    }
}

fn task_matches_config(t: &ScheduledTask, c: &TaskConfig) -> (res: bool)
    ensures
        res == matches_config(t@, c@),
{
    let payload = match &c.payload { Some(x) => Some(x.as_str()), None => None };
    let args = match &c.args { Some(x) => Some(x.as_slice()), None => None };
    let env = match &c.env { Some(x) => Some(x), None => None };
    let sha = match &c.sha256 { Some(x) => Some(x.as_str()), None => None };
    assert(opt_str_view(payload) == c@.payload);
    assert(opt_slice_views(args) == c@.args);
    assert(opt_env_ref_view(env) == c@.env);
    assert(opt_str_view(sha) == c@.sha256);
    t.config_equals(c.cron.as_str(), c.timezone.as_str(), c.task_type.as_str(), payload, args, env, sha)
}

/// The part of a reload step that (re)creates a task from its configuration.
pub open spec fn sync_update_spec(acc: SyncAcc, c: TaskConfigView, id: u128, cur: Option<TaskView>, has_handler: bool) -> SyncAcc {
    if c.task_type == "native"@ {
        if !has_handler {
            acc
        } else if !timezone_valid(c.timezone) {
            SyncAcc { error: Some(invalid_timezone_message(c.timezone)), ..acc }
        } else {
            let t = configured_task(id, c, true, cur);
            SyncAcc {
                work: upsert_view(acc.work, t),
                upserts: acc.upserts.push(t),
                regs: acc.regs.push(RegistrationView::Native { id, name: c.name }),
                error: None,
            }
        }
    } else if c.task_type == "wasm"@ {
        if c.payload is None {
            acc
        } else if !timezone_valid(c.timezone) {
            SyncAcc { error: Some(invalid_timezone_message(c.timezone)), ..acc }
        } else {
            let t = configured_task(id, c, false, cur);
            SyncAcc {
                work: upsert_view(acc.work, t),
                upserts: acc.upserts.push(t),
                regs: acc.regs.push(RegistrationView::Wasm {
                    id,
                    name: c.name,
                    path: c.payload.unwrap(),
                    args: c.args,
                    env: c.env,
                    sha256: c.sha256,
                }),
                error: None,
            }
        }
    } else {
        acc
    }
}

fn sync_update(
    c: &TaskConfig,
    id: u128,
    prev: Option<ScheduledTask>,
    has_handler: bool,
    work: &mut Vec<ScheduledTask>,
    upserts: &mut Vec<ScheduledTask>,
    regs: &mut Vec<Registration>,
    error: &mut Option<String>,
)
    requires
        *old(error) is None,
    ensures
        acc_of(final(work)@, final(upserts)@, final(regs)@, *final(error)) == sync_update_spec(
            acc_of(old(work)@, old(upserts)@, old(regs)@, *old(error)), c@, id,
            match prev { Some(p) => Some(p@), None => None }, has_handler),
{
    let ghost acc = acc_of(work@, upserts@, regs@, *error);
    let native = str_eq(c.task_type.as_str(), "native");
    let wasm = str_eq(c.task_type.as_str(), "wasm");
    if !(native && has_handler) && !(!native && wasm && c.payload.is_some()) {
        return;
    }
    match build_configured(id, c, native, prev.as_ref()) {
        Err(e) => {
            *error = Some(e);
        },
        Ok(t) => {
            let ghost tv = t@;
            let t2 = t.clone();
            upsert_in(work, t);
            upserts.push(t2);
            assert(task_views(upserts@) =~= acc.upserts.push(tv));
            if native {
                regs.push(Registration::Native { id, name: c.name.clone() });
                assert(registration_views(regs@) =~= acc.regs.push(RegistrationView::Native { id, name: c.name@ }));
            } else {
                let path = match &c.payload {
                    Some(p) => p.clone(),
                    None => String::new(),
                };
                let r = Registration::Wasm {
                    id,
                    name: c.name.clone(),
                    path,
                    args: copy_opt_strings(&c.args),
                    env: copy_opt_env(&c.env),
                    sha256: copy_opt_string(&c.sha256),
                };
                assert(r@ == RegistrationView::Wasm {
                    id,
                    name: c@.name,
                    path: c@.payload.unwrap(),
                    args: c@.args,
                    env: c@.env,
                    sha256: c@.sha256,
                });
                regs.push(r);
                assert(registration_views(regs@) =~= acc.regs.push(r@));
            }
        },
    }
}

/// A task row as the database stores it.
pub struct DbTask {
    pub id: u128,
    pub name: String,
    pub cron_expr: String,
    pub timezone: String,
    pub task_type: String,
    pub payload: Option<String>,
    pub args: Option<Vec<String>>,
    pub env: Option<Vec<(String, String)>>,
    pub sha256: Option<String>,
    pub enabled: bool,
}

/// What a database-only sync does: configured task i is saved with id and enabled flag
/// `saves[i]`; then the rows of `removals` are deleted.
pub struct DbSyncPlan {
    pub saves: Vec<(u128, bool)>,
    pub removals: Vec<u128>,
}

/// Position of the last row named `name`, or -1.
pub open spec fn last_row_pos(rows: Seq<DbTask>, name: Seq<char>) -> int
    decreases rows.len(),
{
    if rows.len() == 0 {
        -1
    } else if rows.last().name@ == name {
        rows.len() - 1
    } else {
        last_row_pos(rows.drop_last(), name)
    }
}

/// Id and enabled flag under which configured task `c` is saved: those of the last row
/// with its name, or a fresh id, enabled, when there is none.
pub open spec fn db_save_for(rows: Seq<DbTask>, c: TaskConfigView, fresh: u128) -> (u128, bool) {
    let p = last_row_pos(rows, c.name);
    if p >= 0 {
        (rows[p].id, rows[p].enabled)
    } else {
        (fresh, true)
    }
}

/// Ids of the rows among the first `n` that a database-only sync deletes: for each name,
/// the last row with it, when the configuration no longer names it.
pub open spec fn db_removal_ids(rows: Seq<DbTask>, cfgs: Seq<TaskConfigView>, n: int) -> Seq<u128>
    decreases n,
{
    if n <= 0 {
        Seq::empty()
    } else if last_row_pos(rows, rows[n - 1].name@) == n - 1 && !configured(cfgs, rows[n - 1].name@) {
        db_removal_ids(rows, cfgs, n - 1).push(rows[n - 1].id)
    } else {
        db_removal_ids(rows, cfgs, n - 1)
    }
}

/// Whether row `j` is the last row with its name.
pub open spec fn last_of_its_name(rows: Seq<DbTask>, j: int) -> bool {
    forall|k: int| j < k < rows.len() ==> rows[k].name@ != rows[j].name@
}

/// Whether `id` is that of one of the first `n` rows that is the last with its name and
/// whose name the configuration no longer has.
pub open spec fn unconfigured_last_row(rows: Seq<DbTask>, cfgs: Seq<TaskConfigView>, id: u128, n: int) -> bool {
    exists|j: int| 0 <= j < n && #[trigger] rows[j].id == id && !configured(cfgs, rows[j].name@) && last_of_its_name(rows, j)
}

proof fn lemma_db_removals_prefix(rows: Seq<DbTask>, cfgs: Seq<TaskConfigView>, n: int)
    requires
        0 <= n <= rows.len(),
    ensures
        forall|j: int| 0 <= j < n && !configured(cfgs, rows[j].name@) && last_of_its_name(rows, j)
            ==> db_removal_ids(rows, cfgs, n).contains(#[trigger] rows[j].id),
        forall|k: int| 0 <= k < db_removal_ids(rows, cfgs, n).len()
            ==> unconfigured_last_row(rows, cfgs, #[trigger] db_removal_ids(rows, cfgs, n)[k], n),
    decreases n,
{
    if n > 0 {
        lemma_db_removals_prefix(rows, cfgs, n - 1);
        let prev = db_removal_ids(rows, cfgs, n - 1);
        let cur = db_removal_ids(rows, cfgs, n);
        let name = rows[n - 1].name@;
        lemma_last_row_pos(rows, name);
        let is_last = last_row_pos(rows, name) == n - 1;
        assert(is_last <==> last_of_its_name(rows, n - 1)) by {
            let p = last_row_pos(rows, name);
            if last_of_its_name(rows, n - 1) {
                if p == -1 {
                    assert(rows[n - 1].name@ != name);
                } else if p < n - 1 {
                    assert(rows[n - 1].name@ != name);
                } else if p > n - 1 {
                    assert(rows[p].name@ != rows[n - 1].name@);
                }
            }
        }
        if is_last && !configured(cfgs, name) {
            assert(cur == prev.push(rows[n - 1].id));
            assert forall|j: int| 0 <= j < n && !configured(cfgs, rows[j].name@) && last_of_its_name(rows, j)
                implies cur.contains(#[trigger] rows[j].id) by {
                if j < n - 1 {
                    assert(prev.contains(rows[j].id));
                    let q = choose|q: int| 0 <= q < prev.len() && prev[q] == rows[j].id;
                    assert(cur[q] == rows[j].id);
                } else {
                    assert(cur[prev.len() as int] == rows[j].id);
                }
            }
            assert forall|k: int| 0 <= k < cur.len() implies unconfigured_last_row(rows, cfgs, #[trigger] cur[k], n) by {
                if k < prev.len() {
                    assert(cur[k] == prev[k]);
                    assert(unconfigured_last_row(rows, cfgs, prev[k], n - 1));
                    let j = choose|j: int| 0 <= j < n - 1 && #[trigger] rows[j].id == prev[k]
                        && !configured(cfgs, rows[j].name@) && last_of_its_name(rows, j);
                    assert(rows[j].id == cur[k]);
                } else {
                    assert(cur[k] == rows[n - 1].id);
                }
            }
        } else {
            assert(cur == prev);
            assert forall|j: int| 0 <= j < n && !configured(cfgs, rows[j].name@) && last_of_its_name(rows, j)
                implies cur.contains(#[trigger] rows[j].id) by {
                if j == n - 1 {
                    assert(false);
                }
            }
            assert forall|k: int| 0 <= k < cur.len() implies unconfigured_last_row(rows, cfgs, #[trigger] cur[k], n) by {
                assert(unconfigured_last_row(rows, cfgs, prev[k], n - 1));
                let j = choose|j: int| 0 <= j < n - 1 && #[trigger] rows[j].id == prev[k]
                    && !configured(cfgs, rows[j].name@) && last_of_its_name(rows, j);
                assert(rows[j].id == cur[k]);
            }
        }
    }
}

/// A database-only sync deletes the rows of the tasks dropped from the configuration: for
/// every stored name that no configured task has, the id of the last row with that name
/// is among the removals; and every removed id is that of such a row.
pub proof fn lemma_db_sync_removes_unconfigured(rows: Seq<DbTask>, cfgs: Seq<TaskConfigView>)
    ensures
        forall|j: int| 0 <= j < rows.len() && !configured(cfgs, rows[j].name@) && last_of_its_name(rows, j)
            ==> db_removal_ids(rows, cfgs, rows.len() as int).contains(#[trigger] rows[j].id),
        forall|k: int| 0 <= k < db_removal_ids(rows, cfgs, rows.len() as int).len()
            ==> unconfigured_last_row(rows, cfgs, #[trigger] db_removal_ids(rows, cfgs, rows.len() as int)[k], rows.len() as int),
{
    lemma_db_removals_prefix(rows, cfgs, rows.len() as int);
}

proof fn lemma_last_row_pos(rows: Seq<DbTask>, name: Seq<char>)
    ensures
        -1 <= last_row_pos(rows, name) < rows.len(),
        last_row_pos(rows, name) >= 0 ==> rows[last_row_pos(rows, name)].name@ == name
            && forall|k: int| last_row_pos(rows, name) < k < rows.len() ==> rows[k].name@ != name,
        last_row_pos(rows, name) == -1 ==> forall|k: int| 0 <= k < rows.len() ==> rows[k].name@ != name,
    decreases rows.len(),
{
    if rows.len() > 0 {
        lemma_last_row_pos(rows.drop_last(), name);
        if rows.last().name@ != name {
            assert forall|k: int| 0 <= k < rows.len() - 1 implies rows[k] == rows.drop_last()[k] by {}
        }
    }
}

fn find_last_row(rows: &Vec<DbTask>, name: &str) -> (pos: Option<usize>)
    ensures
        match pos {
            Some(p) => p < rows@.len() && last_row_pos(rows@, name@) == p,
            None => last_row_pos(rows@, name@) == -1,
        },
{
    let mut i: usize = rows.len();
    proof { lemma_last_row_pos(rows@, name@); }
    while i > 0
        invariant
            i <= rows@.len(),
            forall|k: int| i <= k < rows@.len() ==> rows@[k].name@ != name@,
            -1 <= last_row_pos(rows@, name@) < rows@.len(),
            last_row_pos(rows@, name@) >= 0 ==> rows@[last_row_pos(rows@, name@)].name@ == name@
                && forall|k: int| last_row_pos(rows@, name@) < k < rows@.len() ==> rows@[k].name@ != name@,
            last_row_pos(rows@, name@) == -1 ==> forall|k: int| 0 <= k < rows@.len() ==> rows@[k].name@ != name@,
        decreases i,
    {
        i = i - 1;
        if str_eq(rows[i].name.as_str(), name) {
            return Some(i);
        }
    }
    None
}

/// The latest finished run of a task, as the run log stores it.
pub struct LatestLog {
    pub task_id: u128,
    pub log_id: u128,
    pub run_at: String,
    pub duration_ms: Option<i64>,
}

/// What loading the stored tasks did: the tasks loaded (id, name, type), the handlers to
/// install, and the rows that could not be loaded (name, reason).
pub struct LoadOutcome {
    pub loaded: Vec<(u128, String, String)>,
    pub registrations: Vec<Registration>,
    pub failures: Vec<(String, String)>,
}

/// The instant that an RFC 3339 text denotes, if it parses.
pub open spec fn rfc3339_instant(text: Seq<char>) -> Option<(i64, u32)> {
    match rfc3339_parsed(text) {
        Some(p) => Some(p.0),
        None => None,
    }
}

fn parse_rfc3339(text: &str) -> (t: Option<(i64, u32)>)
    ensures
        t == rfc3339_instant(text@),
{
    match parse_rfc3339_local(text) {
        Some((t, _)) => Some(t),
        None => None,
    }
}

/// The first log entry of task `id`.
pub open spec fn log_for(logs: Seq<LatestLog>, id: u128) -> Option<LatestLog> {
    if exists|i: int| 0 <= i < logs.len() && logs[i].task_id == id {
        Some(logs[choose|i: int| 0 <= i < logs.len() && logs[i].task_id == id
            && forall|k: int| 0 <= k < i ==> logs[k].task_id != id])
    } else {
        None
    }
}

/// The task loaded from row `r`, with the history of its latest run `log`.
pub open spec fn loaded_task(r: DbTask, log: Option<LatestLog>) -> TaskView {
    TaskView {
        id: r.id,
        name: r.name@,
        cron_expr: r.cron_expr@,
        timezone: r.timezone@,
        task_type: r.task_type@,
        payload: opt_view(r.payload),
        args: opt_views(r.args),
        env: opt_env_view(r.env),
        sha256: opt_view(r.sha256),
        last_run: match log {
            Some(l) => rfc3339_instant(l.run_at@),
            None => None,
        },
        last_duration: match log {
            Some(l) => match l.duration_ms {
                Some(d) => Some(d as u64),
                None => None,
            },
            None => None,
        },
        last_failed: false,
        enabled: r.enabled,
        last_log_id: match log {
            Some(l) => Some(l.log_id),
            None => None,
        },
        last_host: None,
    }
}

/// The state of a load after some rows.
pub struct LoadAcc {
    pub tasks: Seq<TaskView>,
    pub loaded: Seq<(u128, Seq<char>, Seq<char>)>,
    pub regs: Seq<RegistrationView>,
    pub failures: Seq<(Seq<char>, Seq<char>)>,
}

/// One stored row loaded: a row whose time zone does not parse is reported and skipped;
/// any other becomes a task (replacing one with its id). A WASM task with a payload gets a
/// WASM handler, a native task one when a native handler has its name.
pub open spec fn load_step(acc: LoadAcc, r: DbTask, logs: Seq<LatestLog>, handlers: Seq<Seq<char>>) -> LoadAcc {
    if !timezone_valid(r.timezone@) {
        LoadAcc { failures: acc.failures.push((r.name@, invalid_timezone_message(r.timezone@))), ..acc }
    } else {
        LoadAcc {
            tasks: upsert_view(acc.tasks, loaded_task(r, log_for(logs, r.id))),
            loaded: acc.loaded.push((r.id, r.name@, r.task_type@)),
            regs: if r.task_type@ == "wasm"@ && r.payload is Some {
                acc.regs.push(RegistrationView::Wasm {
                    id: r.id,
                    name: r.name@,
                    path: r.payload.unwrap()@,
                    args: opt_views(r.args),
                    env: opt_env_view(r.env),
                    sha256: opt_view(r.sha256),
                })
            } else if r.task_type@ == "native"@ && handlers.contains(r.name@) {
                acc.regs.push(RegistrationView::Native { id: r.id, name: r.name@ })
            } else {
                acc.regs
            },
            failures: acc.failures,
        }
    }
}

/// The load of the rows `rows`, in order, starting from tasks `tasks`.
pub open spec fn load_fold(tasks: Seq<TaskView>, rows: Seq<DbTask>, logs: Seq<LatestLog>, handlers: Seq<Seq<char>>) -> LoadAcc
    decreases rows.len(),
{
    if rows.len() == 0 {
        LoadAcc { tasks, loaded: Seq::empty(), regs: Seq::empty(), failures: Seq::empty() }
    } else {
        load_step(load_fold(tasks, rows.drop_last(), logs, handlers), rows.last(), logs, handlers)
    }
}

proof fn lemma_load_ids_unique(tasks: Seq<TaskView>, rows: Seq<DbTask>, logs: Seq<LatestLog>, handlers: Seq<Seq<char>>)
    requires
        ids_unique(tasks),
    ensures
        ids_unique(load_fold(tasks, rows, logs, handlers).tasks),
    decreases rows.len(),
{
    if rows.len() > 0 {
        lemma_load_ids_unique(tasks, rows.drop_last(), logs, handlers);
        let acc = load_fold(tasks, rows.drop_last(), logs, handlers);
        let r = rows.last();
        if timezone_valid(r.timezone@) {
            lemma_upsert_then_lookup(acc.tasks, loaded_task(r, log_for(logs, r.id)));
        }
    }
}

/// Loading keeps what each stored row says: for a row whose time zone parses (and no later
/// row with its id that also loads), the loaded task with its id has the row's name,
/// schedule, time zone, kind, module and, in particular, its enabled flag, so a task
/// disabled before a restart stays disabled after it.
pub proof fn lemma_load_keeps_row(tasks: Seq<TaskView>, rows: Seq<DbTask>, logs: Seq<LatestLog>, handlers: Seq<Seq<char>>, i: int)
    requires
        ids_unique(tasks),
        0 <= i < rows.len(),
        timezone_valid(rows[i].timezone@),
        forall|j: int| i < j < rows.len() && rows[j].id == rows[i].id ==> !timezone_valid(#[trigger] rows[j].timezone@),
    ensures
        ({
            let ts = load_fold(tasks, rows, logs, handlers).tasks;
            let p = id_pos(ts, rows[i].id);
            &&& p >= 0
            &&& ts[p].id == rows[i].id
            &&& ts[p].enabled == rows[i].enabled
            &&& ts[p].name == rows[i].name@
            &&& ts[p].cron_expr == rows[i].cron_expr@
            &&& ts[p].timezone == rows[i].timezone@
            &&& ts[p].task_type == rows[i].task_type@
            &&& ts[p].payload == opt_view(rows[i].payload)
        }),
    decreases rows.len(),
{
    let init = rows.drop_last();
    let acc = load_fold(tasks, init, logs, handlers);
    let r = rows.last();
    lemma_load_ids_unique(tasks, init, logs, handlers);
    if i == rows.len() - 1 {
        lemma_upsert_then_lookup(acc.tasks, loaded_task(r, log_for(logs, r.id)));
    } else {
        assert forall|j: int| i < j < init.len() && init[j].id == init[i].id implies !timezone_valid(#[trigger] init[j].timezone@) by {
            assert(init[j] == rows[j]);
        }
        assert(init[i] == rows[i]);
        lemma_load_keeps_row(tasks, init, logs, handlers, i);
        if timezone_valid(r.timezone@) {
            assert(r == rows[rows.len() - 1]);
            assert(r.id != rows[i].id);
            lemma_upsert_then_lookup(acc.tasks, loaded_task(r, log_for(logs, r.id)));
        }
    }
}

fn find_log(logs: &Vec<LatestLog>, id: u128) -> (pos: Option<usize>)
    ensures
        match pos {
            Some(p) => p < logs@.len() && log_for(logs@, id) == Some(logs@[p as int]),
            None => log_for(logs@, id) is None,
        },
{
    let mut i: usize = 0;
    while i < logs.len()
        invariant
            i <= logs@.len(),
            forall|k: int| 0 <= k < i ==> logs@[k].task_id != id,
        decreases logs@.len() - i,
    {
        if logs[i].task_id == id {
            let ghost j = choose|j: int| 0 <= j < logs@.len() && logs@[j].task_id == id
                && forall|k: int| 0 <= k < j ==> logs@[k].task_id != id;
            assert(j == i) by {
                if j < i {
                    assert(logs@[j].task_id != id);
                }
                if i < j {
                    assert(logs@[i as int].task_id != id);
                }
            }
            return Some(i);
        }
        i = i + 1;
    }
    None
}

impl<M> Scheduler<M> {
    /// The names under which native handlers are available.
    pub open spec fn handler_names(&self) -> Seq<Seq<char>> {
        views(self.native_handlers@)
    }

    /// Whether `plan` is the reload of `config` when the i-th configured task, if new,
    /// gets id `fresh[i]`.
    pub open spec fn plan_follows(&self, config: AppConfig, fresh: Seq<u128>, plan: SyncPlan) -> bool {
        let acc = sync_fold(self.task_list(), self.handler_names(), config_views(config), fresh);
        &&& task_views(plan.upserts@) == acc.upserts
        &&& opt_view(plan.error) == acc.error
        &&& acc.error is Some ==> plan.registrations@.len() == 0 && plan.removals@.len() == 0
        &&& acc.error is None ==> registration_views(plan.registrations@) == acc.regs
            && plan.removals@ == removal_ids(self.task_list(), config_views(config), self.task_list().len() as int)
    }

    #[verifier::rlimit(50)]
    fn sync_one(
        &self,
        c: &TaskConfig,
        fresh: u128,
        work: &mut Vec<ScheduledTask>,
        upserts: &mut Vec<ScheduledTask>,
        regs: &mut Vec<Registration>,
        error: &mut Option<String>,
    )
        ensures
            acc_of(final(work)@, final(upserts)@, final(regs)@, *final(error)) == sync_step(
                self.task_list(), self.handler_names(), acc_of(old(work)@, old(upserts)@, old(regs)@, *old(error)), c@, fresh),
    {
        if error.is_some() {
            return;
        }
        let ghost acc = acc_of(work@, upserts@, regs@, *error);
        let eid = match find_named(&self.tasks, c.name.as_str()) {
            Some(p) => Some(self.tasks[p].id),
            None => None,
        };
        assert(eid == existing_id(self.task_list(), c.name@));
        let cur_pos = match eid {
            Some(id) => find_task_in(work, id),
            None => None,
        };
        let ghost cur = match eid {
            Some(id) => task_with_id(acc.work, id),
            None => None,
        };
        assert(cur == match cur_pos { Some(p) => Some(work@[p as int]@), None => None::<TaskView> });
        let unchanged = match cur_pos {
            Some(p) => task_matches_config(&work[p], c),
            None => false,
        };
        let has_handler = self.has_native_handler(c.name.as_str());
        assert(has_handler == self.handler_names().contains(c.name@)) by {
            if has_handler {
                let k = choose|k: int| 0 <= k < self.native_handlers@.len() && self.native_handlers@[k]@ == c.name@;
                assert(self.handler_names()[k] == c.name@);
            }
        }
        if unchanged {
            if str_eq(c.task_type.as_str(), "native") && has_handler {
                regs.push(Registration::Native { id: eid.unwrap(), name: c.name.clone() });
                assert(registration_views(regs@) =~= acc.regs.push(RegistrationView::Native { id: eid.unwrap(), name: c.name@ }));
            }
        } else {
            let id = match eid {
                Some(x) => x,
                None => fresh,
            };
            let prev = match cur_pos {
                Some(p) => Some(work[p].clone()),
                None => None,
            };
            sync_update(c, id, prev, has_handler, work, upserts, regs, error);
        }
    }

    /// Ids of the tasks that a reload of `config` removes.
    fn removals_for(&self, config: &AppConfig) -> (removals: Vec<u128>)
        ensures
            removals@ == removal_ids(self.task_list(), config_views(*config), self.task_list().len() as int),
    {
        let ghost snapshot = self.task_list();
        let ghost cfgs = config_views(*config);
        let mut removals: Vec<u128> = Vec::new();
        let mut j: usize = 0;
        while j < self.tasks.len()
            invariant
                j <= self.tasks@.len(),
                snapshot == self.task_list(),
                cfgs == config_views(*config),
                removals@ == removal_ids(snapshot, cfgs, j as int),
            decreases self.tasks@.len() - j,
        {
            let first = find_named(&self.tasks, self.tasks[j].name.as_str());
            let is_first = match first {
                Some(p) => p == j,
                None => false,
            };
            assert(snapshot[j as int].name == self.tasks@[j as int].name@);
            if is_first && !config_names_contain(config, self.tasks[j].name.as_str()) {
                removals.push(self.tasks[j].id);
            }
            j = j + 1;
        }
        removals
    }

    /// The reload of `config`, the i-th configured task that is new getting id `fresh[i]`.
    pub fn plan_sync(&self, config: &AppConfig, fresh: &Vec<u128>) -> (plan: SyncPlan)
        requires
            fresh@.len() == config.tasks@.len(),
        ensures
            self.plan_follows(*config, fresh@, plan),
    {
        let ghost snapshot = self.task_list();
        let ghost handlers = self.handler_names();
        let ghost cfgs = config_views(*config);
        let mut work = copy_tasks(&self.tasks);
        let mut upserts: Vec<ScheduledTask> = Vec::new();
        let mut regs: Vec<Registration> = Vec::new();
        let mut error: Option<String> = None;
        let mut i: usize = 0;
        assert(task_views(upserts@) =~= Seq::<TaskView>::empty());
        assert(registration_views(regs@) =~= Seq::<RegistrationView>::empty());
        assert(cfgs.take(0) =~= Seq::<TaskConfigView>::empty());
        while i < config.tasks.len()
            invariant
                i <= config.tasks@.len(),
                fresh@.len() == config.tasks@.len(),
                snapshot == self.task_list(),
                handlers == self.handler_names(),
                cfgs == config_views(*config),
                acc_of(work@, upserts@, regs@, error) == sync_fold(snapshot, handlers, cfgs.take(i as int), fresh@.take(i as int)),
            decreases config.tasks@.len() - i,
        {
            let ghost acc0 = sync_fold(snapshot, handlers, cfgs.take(i as int), fresh@.take(i as int));
            assert(cfgs.take(i + 1).drop_last() =~= cfgs.take(i as int));
            assert(fresh@.take(i + 1).take(i as int) =~= fresh@.take(i as int));
            assert(cfgs.take(i + 1).last() == cfgs[i as int]);
            assert(cfgs[i as int] == config.tasks@[i as int]@);
            self.sync_one(&config.tasks[i], fresh[i], &mut work, &mut upserts, &mut regs, &mut error);
            i = i + 1;
        }
        assert(cfgs.take(i as int) =~= cfgs);
        assert(fresh@.take(i as int) =~= fresh@);
        if error.is_some() {
            return SyncPlan { upserts, registrations: Vec::new(), removals: Vec::new(), error };
        }
        let removals = self.removals_for(config);
        SyncPlan { upserts, registrations: regs, removals, error: None }
    }

    /// Brings the stored task rows in line with `config`, the i-th configured task getting
    /// `fresh[i]` when no row has its name.
    pub fn plan_db_sync(rows: &Vec<DbTask>, config: &AppConfig, fresh: &Vec<u128>) -> (plan: DbSyncPlan)
        requires
            fresh@.len() == config.tasks@.len(),
        ensures
            plan.saves@.len() == config.tasks@.len(),
            forall|i: int| 0 <= i < config.tasks@.len() ==> #[trigger] plan.saves@[i] == db_save_for(rows@, config.tasks@[i]@, fresh@[i]),
            plan.removals@ == db_removal_ids(rows@, config_views(*config), rows@.len() as int),
            forall|j: int| 0 <= j < rows@.len() && !configured(config_views(*config), rows@[j].name@) && last_of_its_name(rows@, j)
                ==> plan.removals@.contains(#[trigger] rows@[j].id),
            forall|k: int| 0 <= k < plan.removals@.len()
                ==> unconfigured_last_row(rows@, config_views(*config), #[trigger] plan.removals@[k], rows@.len() as int),
    {
        proof {
            lemma_db_sync_removes_unconfigured(rows@, config_views(*config));
        }
        let mut saves: Vec<(u128, bool)> = Vec::new();
        let mut i: usize = 0;
        while i < config.tasks.len()
            invariant
                i <= config.tasks@.len(),
                fresh@.len() == config.tasks@.len(),
                saves@.len() == i,
                forall|k: int| 0 <= k < i ==> #[trigger] saves@[k] == db_save_for(rows@, config.tasks@[k]@, fresh@[k]),
            decreases config.tasks@.len() - i,
        {
            let save = match find_last_row(rows, config.tasks[i].name.as_str()) {
                Some(p) => (rows[p].id, rows[p].enabled),
                None => (fresh[i], true),
            };
            saves.push(save);
            i = i + 1;
        }
        let ghost cfgs = config_views(*config);
        let mut removals: Vec<u128> = Vec::new();
        let mut j: usize = 0;
        while j < rows.len()
            invariant
                j <= rows@.len(),
                cfgs == config_views(*config),
                removals@ == db_removal_ids(rows@, cfgs, j as int),
            decreases rows@.len() - j,
        {
            let last = find_last_row(rows, rows[j].name.as_str());
            let is_last = match last {
                Some(p) => p == j,
                None => false,
            };
            if is_last && !config_names_contain(config, rows[j].name.as_str()) {
                removals.push(rows[j].id);
            }
            j = j + 1;
        }
        DbSyncPlan { saves, removals }
    }

    /// Brings the stored task rows in line with `config`; configured tasks without a row
    /// get fresh random ids.
    pub fn sync_db_only(rows: &Vec<DbTask>, config: &AppConfig) -> (plan: DbSyncPlan)
        ensures
            plan.saves@.len() == config.tasks@.len(),
            forall|i: int| 0 <= i < config.tasks@.len() ==> {
                let p = last_row_pos(rows@, #[trigger] config.tasks@[i].name@);
                p >= 0 ==> plan.saves@[i] == (rows@[p].id, rows@[p].enabled)
            },
            forall|i: int| 0 <= i < config.tasks@.len() && last_row_pos(rows@, #[trigger] config.tasks@[i].name@) < 0
                ==> plan.saves@[i].1,
            plan.removals@ == db_removal_ids(rows@, config_views(*config), rows@.len() as int),
            forall|j: int| 0 <= j < rows@.len() && !configured(config_views(*config), rows@[j].name@) && last_of_its_name(rows@, j)
                ==> plan.removals@.contains(#[trigger] rows@[j].id),
            forall|k: int| 0 <= k < plan.removals@.len()
                ==> unconfigured_last_row(rows@, config_views(*config), #[trigger] plan.removals@[k], rows@.len() as int),
    {
        let mut fresh: Vec<u128> = Vec::new();
        let mut i: usize = 0;
        while i < config.tasks.len()
            invariant
                i <= config.tasks@.len(),
                fresh@.len() == i,
            decreases config.tasks@.len() - i,
        {
            fresh.push(fresh_id());
            i = i + 1;
        }
        let plan = Self::plan_db_sync(rows, config, &fresh);
        assert forall|i: int| 0 <= i < config.tasks@.len() implies {
            let p = last_row_pos(rows@, #[trigger] config.tasks@[i].name@);
            p >= 0 ==> plan.saves@[i] == (rows@[p].id, rows@[p].enabled)
        } by {
            assert(plan.saves@[i] == db_save_for(rows@, config.tasks@[i]@, fresh@[i]));
        }
        assert forall|i: int| 0 <= i < config.tasks@.len() && last_row_pos(rows@, #[trigger] config.tasks@[i].name@) < 0
            implies plan.saves@[i].1 by {
            assert(plan.saves@[i] == db_save_for(rows@, config.tasks@[i]@, fresh@[i]));
        }
        plan
    }

    /// Loads the stored task rows into memory, each with the history of its latest run,
    /// and tells what was loaded, which handlers to install, and which rows failed.
    pub fn load_tasks(&mut self, rows: &Vec<DbTask>, logs: &Vec<LatestLog>) -> (out: LoadOutcome)
        requires
            old(self).wf(),
        ensures
            final(self).wf(),
            ({
                let acc = load_fold(old(self).task_list(), rows@, logs@, old(self).handler_names());
                &&& final(self).task_list() == acc.tasks
                &&& out.loaded@.map_values(|x: (u128, String, String)| (x.0, x.1@, x.2@)) == acc.loaded
                &&& registration_views(out.registrations@) == acc.regs
                &&& out.failures@.map_values(|x: (String, String)| (x.0@, x.1@)) == acc.failures
            }),
            forall|i: int| 0 <= i < rows@.len() && timezone_valid(#[trigger] rows@[i].timezone@)
                && (forall|j: int| i < j < rows@.len() && rows@[j].id == rows@[i].id ==> !timezone_valid(rows@[j].timezone@))
                ==> ({
                    let p = id_pos(final(self).task_list(), rows@[i].id);
                    &&& p >= 0
                    &&& final(self).task_list()[p].enabled == rows@[i].enabled
                    &&& final(self).task_list()[p].name == rows@[i].name@
                    &&& final(self).task_list()[p].cron_expr == rows@[i].cron_expr@
                    &&& final(self).task_list()[p].timezone == rows@[i].timezone@
                    &&& final(self).task_list()[p].task_type == rows@[i].task_type@
                }),
            final(self).handler_ids == old(self).handler_ids,
            final(self).native_handlers == old(self).native_handlers,
            final(self).workers == old(self).workers,
            final(self).task_to_worker == old(self).task_to_worker,
    {
        let ghost handlers = self.handler_names();
        proof {
            let ot = old(self).task_list();
            assert(ids_unique(ot)) by {
                assert forall|a: int, b: int| 0 <= a < b < ot.len() implies ot[a].id != ot[b].id by {
                    assert(ot[a].id == old(self).tasks@[a].id);
                    assert(ot[b].id == old(self).tasks@[b].id);
                }
            }
            assert forall|i: int| 0 <= i < rows@.len() && timezone_valid(#[trigger] rows@[i].timezone@)
                && (forall|j: int| i < j < rows@.len() && rows@[j].id == rows@[i].id ==> !timezone_valid(rows@[j].timezone@))
                implies ({
                    let ts = load_fold(ot, rows@, logs@, handlers).tasks;
                    let p = id_pos(ts, rows@[i].id);
                    &&& p >= 0
                    &&& ts[p].enabled == rows@[i].enabled
                    &&& ts[p].name == rows@[i].name@
                    &&& ts[p].cron_expr == rows@[i].cron_expr@
                    &&& ts[p].timezone == rows@[i].timezone@
                    &&& ts[p].task_type == rows@[i].task_type@
                }) by {
                lemma_load_keeps_row(ot, rows@, logs@, handlers, i);
            }
        }
        let mut loaded: Vec<(u128, String, String)> = Vec::new();
        let mut regs: Vec<Registration> = Vec::new();
        let mut failures: Vec<(String, String)> = Vec::new();
        let mut i: usize = 0;
        assert(loaded@.map_values(|x: (u128, String, String)| (x.0, x.1@, x.2@)) =~= Seq::<(u128, Seq<char>, Seq<char>)>::empty());
        assert(registration_views(regs@) =~= Seq::<RegistrationView>::empty());
        assert(failures@.map_values(|x: (String, String)| (x.0@, x.1@)) =~= Seq::<(Seq<char>, Seq<char>)>::empty());
        assert(rows@.take(0) =~= Seq::<DbTask>::empty());
        while i < rows.len()
            invariant
                i <= rows@.len(),
                self.wf(),
                handlers == self.handler_names(),
                self.handler_ids == old(self).handler_ids,
                self.native_handlers == old(self).native_handlers,
                self.workers == old(self).workers,
                self.task_to_worker == old(self).task_to_worker,
                ({
                    let acc = load_fold(old(self).task_list(), rows@.take(i as int), logs@, handlers);
                    &&& self.task_list() == acc.tasks
                    &&& loaded@.map_values(|x: (u128, String, String)| (x.0, x.1@, x.2@)) == acc.loaded
                    &&& registration_views(regs@) == acc.regs
                    &&& failures@.map_values(|x: (String, String)| (x.0@, x.1@)) == acc.failures
                }),
            decreases rows@.len() - i,
        {
            assert(rows@.take(i + 1).drop_last() =~= rows@.take(i as int));
            self.load_one(&rows[i], logs, &mut loaded, &mut regs, &mut failures);
            i = i + 1;
        }
        assert(rows@.take(i as int) =~= rows@);
        LoadOutcome { loaded, registrations: regs, failures }
    }

    #[verifier::rlimit(30)]
    fn load_one(
        &mut self,
        r: &DbTask,
        logs: &Vec<LatestLog>,
        loaded: &mut Vec<(u128, String, String)>,
        regs: &mut Vec<Registration>,
        failures: &mut Vec<(String, String)>,
    )
        requires
            old(self).wf(),
        ensures
            final(self).wf(),
            ({
                let acc = load_step(LoadAcc {
                    tasks: old(self).task_list(),
                    loaded: old(loaded)@.map_values(|x: (u128, String, String)| (x.0, x.1@, x.2@)),
                    regs: registration_views(old(regs)@),
                    failures: old(failures)@.map_values(|x: (String, String)| (x.0@, x.1@)),
                }, *r, logs@, old(self).handler_names());
                &&& final(self).task_list() == acc.tasks
                &&& final(loaded)@.map_values(|x: (u128, String, String)| (x.0, x.1@, x.2@)) == acc.loaded
                &&& registration_views(final(regs)@) == acc.regs
                &&& final(failures)@.map_values(|x: (String, String)| (x.0@, x.1@)) == acc.failures
            }),
            final(self).handler_ids == old(self).handler_ids,
            final(self).native_handlers == old(self).native_handlers,
            final(self).workers == old(self).workers,
            final(self).task_to_worker == old(self).task_to_worker,
    {
        let ghost old_failures = failures@;
        let ghost old_loaded = loaded@;
        let ghost old_regs = regs@;
        match ScheduledTask::from_db(
            r.id,
            r.name.clone(),
            r.cron_expr.clone(),
            r.timezone.clone(),
            r.task_type.clone(),
            copy_opt_string(&r.payload),
            copy_opt_strings(&r.args),
            copy_opt_env(&r.env),
            copy_opt_string(&r.sha256),
            r.enabled,
        ) {
            Err(e) => {
                failures.push((r.name.clone(), e));
                assert(failures@.map_values(|x: (String, String)| (x.0@, x.1@)) =~= old_failures.map_values(
                    |x: (String, String)| (x.0@, x.1@)).push((r.name@, invalid_timezone_message(r.timezone@))));
            },
            Ok(mut t) => {
                match find_log(logs, r.id) {
                    Some(p) => {
                        let l = &logs[p];
                        t.last_run = parse_rfc3339(l.run_at.as_str());
                        t.last_duration = match l.duration_ms {
                            Some(d) => Some(d as u64),
                            None => None,
                        };
                        t.last_log_id = Some(l.log_id);
                    },
                    None => {},
                }
                assert(t@ == loaded_task(*r, log_for(logs@, r.id)));
                self.upsert_task(t);
                loaded.push((r.id, r.name.clone(), r.task_type.clone()));
                assert(loaded@.map_values(|x: (u128, String, String)| (x.0, x.1@, x.2@)) =~= old_loaded.map_values(
                    |x: (u128, String, String)| (x.0, x.1@, x.2@)).push((r.id, r.name@, r.task_type@)));
                let is_wasm = str_eq(r.task_type.as_str(), "wasm");
                if is_wasm && r.payload.is_some() {
                    let path = match &r.payload {
                        Some(p) => p.clone(),
                        None => String::new(),
                    };
                    let reg = Registration::Wasm {
                        id: r.id,
                        name: r.name.clone(),
                        path,
                        args: copy_opt_strings(&r.args),
                        env: copy_opt_env(&r.env),
                        sha256: copy_opt_string(&r.sha256),
                    };
                    regs.push(reg);
                    assert(registration_views(regs@) =~= registration_views(old_regs).push(reg@));
                } else if str_eq(r.task_type.as_str(), "native") {
                    let has = self.has_native_handler(r.name.as_str());
                    assert(has == self.handler_names().contains(r.name@)) by {
                        if has {
                            let k = choose|k: int| 0 <= k < self.native_handlers@.len() && self.native_handlers@[k]@ == r.name@;
                            assert(self.handler_names()[k] == r.name@);
                        }
                    }
                    if has {
                        let reg = Registration::Native { id: r.id, name: r.name.clone() };
                        regs.push(reg);
                        assert(registration_views(regs@) =~= registration_views(old_regs).push(reg@));
                    }
                }
            },
        }
    }

    /// The reload of `config`: new tasks get fresh random ids.
    pub fn sync_with_config(&self, config: &AppConfig) -> (plan: SyncPlan)
        ensures
            exists|fresh: Seq<u128>| fresh.len() == config.tasks@.len() && #[trigger] self.plan_follows(*config, fresh, plan),
    {
        let mut fresh: Vec<u128> = Vec::new();
        let mut i: usize = 0;
        while i < config.tasks.len()
            invariant
                i <= config.tasks@.len(),
                fresh@.len() == i,
            decreases config.tasks@.len() - i,
        {
            fresh.push(fresh_id());
            i = i + 1;
        }
        self.plan_sync(config, &fresh)
    }
}

} // verus!
