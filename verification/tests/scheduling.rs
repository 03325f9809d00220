use lachuoi::async_scheduler::AsyncScheduler;
use lachuoi::config::{default_timezone, AppConfig, TaskConfig};
use lachuoi::native_handlers::{master_log_message, native_run_line, native_task_name, run_stage_line, NativeTask, RunStage};
use lachuoi::tokens::TaskTokens;
use lachuoi::scheduler::Scheduler;
use lachuoi::task::{ScheduledTask, WorkerInfo};
use lachuoi::task_config::{after_attempt, start_retries, RetryStep, TaskConfig as RetryConfig};

fn native(name: &str) -> TaskConfig {
    TaskConfig {
        name: name.to_string(),
        cron: "0 * * * * *".to_string(),
        timezone: "UTC".to_string(),
        task_type: "native".to_string(),
        payload: None,
        args: None,
        env: None,
        sha256: None,
    }
}

fn wasm(name: &str, payload: &str) -> TaskConfig {
    TaskConfig {
        name: name.to_string(),
        cron: "0 */10 * * * *".to_string(),
        timezone: "Asia/Seoul".to_string(),
        task_type: "wasm".to_string(),
        payload: Some(payload.to_string()),
        args: Some(vec!["--city".to_string(), "Seoul".to_string()]),
        env: None,
        sha256: Some("ad67".to_string()),
    }
}

fn master() -> Scheduler<u8> {
    let mut s: Scheduler<u8> = Scheduler::new(Some("key".to_string()));
    s.register_all();
    s
}

#[test]
fn default_timezone_is_utc() {
    assert_eq!(default_timezone(), "UTC");
}

#[test]
fn native_handlers_are_registered() {
    let s = master();
    assert!(s.has_native_handler("heartbeat"));
    assert!(s.has_native_handler("hourly-report"));
    assert!(s.has_native_handler("cache-cleanup"));
    assert!(!s.has_native_handler("weather"));
    assert_eq!(native_task_name(&NativeTask::HourlyReport), "hourly-report");
}

#[test]
fn native_lines() {
    assert_eq!(native_run_line(&NativeTask::Heartbeat, 0), "Heartbeat #1");
    assert_eq!(native_run_line(&NativeTask::Heartbeat, 41), "Heartbeat #42");
    assert_eq!(native_run_line(&NativeTask::HourlyReport, 7), "Generating hourly report...");
    assert_eq!(native_run_line(&NativeTask::CacheCleanup, 7), "Cleaning up cache...");
    let m = master_log_message(5, 9, "heartbeat", "Heartbeat #1");
    assert_eq!(m.text, "[heartbeat] Heartbeat #1");
    assert_eq!(m.hostname.as_deref(), Some("master"));
    assert_eq!(m.prefix.as_deref(), Some("heartbeat"));
    assert_eq!((m.task_id, m.log_id), (5, Some(9)));
}

#[test]
fn reload_adds_configured_tasks() {
    let mut s = master();
    let config = AppConfig { tasks: vec![native("heartbeat"), wasm("weather", "weather.wasm")] };
    let plan = s.sync_with_config(&config);
    assert!(plan.error.is_none());
    assert_eq!(plan.upserts.len(), 2);
    assert_eq!(plan.registrations.len(), 2);
    assert!(plan.removals.is_empty());
    s.apply_sync_plan(&plan);
    assert_eq!(s.tasks.len(), 2);
    assert_eq!(s.tasks[1].payload.as_deref(), Some("weather.wasm"));
    assert_eq!(s.tasks[1].task_type, "wasm");
}

#[test]
fn reloading_twice_changes_nothing() {
    let mut s = master();
    let config = AppConfig { tasks: vec![native("heartbeat"), wasm("weather", "weather.wasm")] };
    let plan = s.sync_with_config(&config);
    s.apply_sync_plan(&plan);
    let again = s.sync_with_config(&config);
    assert!(again.error.is_none());
    assert!(again.upserts.is_empty());
    assert!(again.removals.is_empty());
}

#[test]
fn reload_removes_unconfigured_and_updates_changed() {
    let mut s = master();
    let first = AppConfig { tasks: vec![native("heartbeat"), wasm("weather", "weather.wasm")] };
    let plan = s.sync_with_config(&first);
    s.apply_sync_plan(&plan);
    let weather_id = s.tasks[1].id;
    let heartbeat_id = s.tasks[0].id;
    let second = AppConfig { tasks: vec![wasm("weather", "weather-v2.wasm")] };
    let plan = s.sync_with_config(&second);
    assert_eq!(plan.upserts.len(), 1);
    assert_eq!(plan.upserts[0].id, weather_id);
    assert_eq!(plan.removals, vec![heartbeat_id]);
    s.apply_sync_plan(&plan);
    assert_eq!(s.tasks.len(), 1);
    assert_eq!(s.tasks[0].payload.as_deref(), Some("weather-v2.wasm"));
}

#[test]
fn reload_stops_at_unknown_timezone() {
    let s = master();
    let mut bad = native("heartbeat");
    bad.timezone = "Mars/Olympus".to_string();
    let plan = s.sync_with_config(&AppConfig { tasks: vec![bad] });
    assert_eq!(plan.error.as_deref(), Some("Invalid timezone Mars/Olympus: failed to parse timezone"));
    assert!(plan.registrations.is_empty());
}

#[test]
fn native_task_without_handler_is_passed_over() {
    let s = master();
    let plan = s.sync_with_config(&AppConfig { tasks: vec![native("not-a-handler")] });
    assert!(plan.error.is_none());
    assert!(plan.upserts.is_empty());
}

#[test]
fn new_task_rejects_bad_timezone() {
    let r = ScheduledTask::new("t", "0 * * * * *", "Nowhere/Land");
    assert_eq!(r.err(), Some("Invalid timezone Nowhere/Land: failed to parse timezone".to_string()));
    let t = ScheduledTask::new("t", "0 * * * * *", "Europe/Paris").unwrap();
    assert_eq!(t.task_type, "native");
    assert!(t.enabled && t.last_run.is_none());
}

#[test]
fn tick_fires_due_tasks_once() {
    let mut s: Scheduler<u8> = Scheduler::new(None);
    let t = ScheduledTask::new("every-minute", "0 * * * * *", "UTC").unwrap();
    let id = t.id;
    s.upsert_task(t);
    let now = (1_745_512_106i64, 250_000_000u32);
    let due = s.tick(now);
    assert_eq!(due, vec![(id, "every-minute".to_string())]);
    assert_eq!(s.tasks[0].last_run, Some(now));
    assert!(s.tick(now).is_empty());
    assert!(s.tick((now.0 + 1, 0)).is_empty());
    let due = s.tick((now.0 + 60, 0));
    assert_eq!(due.len(), 1);
}

#[test]
fn tick_skips_disabled_and_bad_cron() {
    let mut s: Scheduler<u8> = Scheduler::new(None);
    let t = ScheduledTask::new("bad", "not a cron", "UTC").unwrap();
    s.upsert_task(t);
    let t2 = ScheduledTask::new("off", "0 * * * * *", "UTC").unwrap();
    let id2 = t2.id;
    s.upsert_task(t2);
    s.set_task_enabled(id2, false);
    assert!(s.tick((1_000, 0)).is_empty());
}

#[test]
fn run_on_request_refusals() {
    let mut s: Scheduler<u8> = Scheduler::new(None);
    assert_eq!(s.run_task_immediately(77), Err("Task not found".to_string()));
    let t = ScheduledTask::new("job", "0 * * * * *", "UTC").unwrap();
    let id = t.id;
    s.upsert_task(t);
    assert_eq!(s.run_task_immediately(id), Err("Handler not found".to_string()));
    s.register_handler(id);
    assert_eq!(s.run_task_immediately(id), Ok("job".to_string()));
    s.set_task_enabled(id, false);
    assert_eq!(s.run_task_immediately(id), Err("Cannot run a disabled task".to_string()));
}

#[test]
fn upsert_then_find_reads_back() {
    let mut s: Scheduler<u8> = Scheduler::new(None);
    let t = ScheduledTask::new("a", "0 * * * * *", "UTC").unwrap();
    let id = t.id;
    s.upsert_task(t.clone());
    let mut t2 = t.clone();
    t2.cron_expr = "30 * * * * *".to_string();
    s.upsert_task(t2);
    assert_eq!(s.tasks.len(), 1);
    let i = s.find_task(id).unwrap();
    assert_eq!(s.tasks[i].cron_expr, "30 * * * * *");
    assert!(s.remove_task(id));
    assert!(s.find_task(id).is_none());
    assert!(!s.remove_task(id));
}

fn worker(id: u128, host: &str) -> WorkerInfo<u8> {
    WorkerInfo { id, addr: "1.1.1.1".to_string(), hostname: host.to_string(), running_tasks: Vec::new(), metrics: None }
}

#[test]
fn leaving_worker_takes_its_tasks() {
    let mut s: Scheduler<u8> = Scheduler::new(None);
    let t = ScheduledTask::new("job", "0 * * * * *", "UTC").unwrap();
    let id = t.id;
    s.upsert_task(t);
    s.add_worker(worker(1, "alpha"));
    s.add_worker(worker(2, "beta"));
    assert_eq!(s.num_workers(), 2);
    assert!(s.update_worker_task(1, id, "job".to_string(), true));
    assert_eq!(s.task_host(id).as_deref(), Some("alpha"));
    assert_eq!(s.workers[0].running_tasks, vec!["job".to_string()]);
    assert!(s.remove_worker(1));
    assert_eq!(s.task_host(id), None);
    assert_eq!(s.num_workers(), 1);
    assert!(!s.remove_worker(1));
    assert_eq!(s.get_worker_hostname(2).as_deref(), Some("beta"));
}

#[test]
fn status_shows_running_host_and_last_run() {
    let mut s: Scheduler<u8> = Scheduler::new(None);
    let t = ScheduledTask::new("job", "0 * * * * *", "UTC").unwrap();
    let id = t.id;
    s.upsert_task(t);
    s.tick((1_745_512_106, 123_456_789));
    s.finish_run(id, 12, true, 99, true);
    let st = s.get_tasks_status();
    assert_eq!(st.len(), 1);
    assert_eq!(st[0].last_run.as_deref(), Some("2025-04-24T16:28:26.123456789+00:00"));
    assert_eq!(st[0].last_duration_ms, Some(12));
    assert!(st[0].last_failed);
    assert_eq!(st[0].last_log_id, Some(99));
    assert_eq!(st[0].last_host.as_deref(), Some("master"));
}

#[test]
fn random_worker_needs_a_worker() {
    let mut s: Scheduler<u8> = Scheduler::new(None);
    assert!(s.send_to_random_worker().is_err());
    s.add_worker(worker(4, "w"));
    assert_eq!(s.send_to_random_worker(), Ok(4));
}

#[test]
fn retries_double_the_wait_then_give_up() {
    let config = RetryConfig::default();
    assert_eq!((config.max_retries, config.retry_delay_ms, config.timeout_ms), (3, 1000, 30000));
    let s0 = start_retries(&config);
    let (s1, step) = after_attempt("job", &config, s0, false);
    assert!(matches!(step, RetryStep::Retry { delay_ms: 1000 }));
    let (s2, step) = after_attempt("job", &config, s1, false);
    assert!(matches!(step, RetryStep::Retry { delay_ms: 2000 }));
    let (s3, step) = after_attempt("job", &config, s2, false);
    match step {
        RetryStep::GiveUp { message } => assert_eq!(message, "Task 'job' failed after 3 attempts"),
        _ => panic!("expected to give up"),
    }
    assert_eq!(s3.attempts, 3);
    let (_, step) = after_attempt("job", &config, start_retries(&config), true);
    assert!(matches!(step, RetryStep::Done));
}

#[test]
fn async_scheduler_adds_jobs() {
    let mut a = AsyncScheduler::new();
    let id = a.add_async_task("job", "0 * * * * *", "UTC").unwrap();
    assert!(a.run_task(id));
    assert!(!a.run_task(id.wrapping_add(1)));
    assert_eq!(a.tasks.len(), 1);
    assert!(a.add_async_task("job", "0 * * * * *", "Atlantis").is_err());
    assert_eq!(a.tasks.len(), 1);
}

#[test]
fn run_stage_lines() {
    assert_eq!(run_stage_line(&RunStage::Starting), "Starting task...");
    assert_eq!(run_stage_line(&RunStage::Failed("boom".to_string())), "Task failed: boom");
    assert_eq!(run_stage_line(&RunStage::Finished(1500)), "Task finished in 1500ms");
}

#[test]
fn task_tokens_live_while_the_run_does() {
    let mut tokens = TaskTokens::new();
    assert!(!tokens.check(1, ""));
    let t1 = tokens.issue_fresh(1);
    assert_eq!(t1.len(), 32);
    assert!(t1.chars().all(|c| c.is_ascii_alphanumeric()));
    tokens.issue(2, "two".to_string());
    assert!(tokens.check(1, &t1));
    assert!(!tokens.check(1, "two"));
    assert!(tokens.check(2, "two"));
    tokens.issue(2, "deux".to_string());
    assert!(!tokens.check(2, "two"));
    assert!(tokens.check(2, "deux"));
    tokens.revoke(1);
    assert!(!tokens.check(1, &t1));
    assert!(tokens.check(2, "deux"));
}

#[test]
fn add_task_schedules_and_gives_a_handler() {
    let mut s: Scheduler<u8> = Scheduler::new(None);
    let t = ScheduledTask::new("job", "0 * * * * *", "UTC").unwrap();
    let expected = t.id;
    let id = s.add_task(t);
    assert_eq!(id, expected);
    assert_eq!(s.tasks.len(), 1);
    assert_eq!(s.tasks[0].name, "job");
    assert!(s.has_handler(id));
    assert!(s.find_task(id).is_some());
}

#[test]
fn start_and_stop_toggle_the_loop() {
    let mut s: Scheduler<u8> = Scheduler::new(None);
    assert!(!s.running);
    s.start();
    assert!(s.running);
    s.stop();
    assert!(!s.running);
}

#[test]
fn failed_reload_records_no_handler() {
    let mut s = master();
    let mut bad = native("hourly-report");
    bad.timezone = "Mars/Olympus".to_string();
    let plan = s.sync_with_config(&AppConfig { tasks: vec![native("heartbeat"), bad] });
    assert!(plan.error.is_some());
    assert_eq!(plan.upserts.len(), 1);
    s.apply_sync_plan(&plan);
    assert_eq!(s.tasks.len(), 1);
    assert!(!s.has_handler(s.tasks[0].id));
    assert!(s.handler_ids.is_empty());
}

#[test]
fn tick_checked_declines_a_last_run_in_the_final_second() {
    let mut s: Scheduler<u8> = Scheduler::new(None);
    let mut t = ScheduledTask::new("job", "0 * * * * *", "UTC").unwrap();
    t.last_run = Some((lachuoi::task::LAST_INSTANT_SECS, 0));
    assert_eq!(t.should_run_checked(), None);
    assert!(!t.fire_query_ok());
    s.upsert_task(t);
    assert!(s.tick_checked((1, 0)).is_none());
    assert_eq!(s.tasks[0].last_run, Some((lachuoi::task::LAST_INSTANT_SECS, 0)));
    s.tasks[0].enabled = false;
    assert_eq!(s.tick_checked((1, 0)), Some(Vec::new()));
    let mut fresh: Scheduler<u8> = Scheduler::new(None);
    let u = ScheduledTask::new("new", "0 * * * * *", "UTC").unwrap();
    let id = u.id;
    assert_eq!(u.should_run_checked(), Some(true));
    fresh.upsert_task(u);
    assert_eq!(fresh.tick_checked((1, 0)), Some(vec![(id, "new".to_string())]));
}

#[test]
fn finished_task_leaves_the_running_list() {
    let mut s: Scheduler<u8> = Scheduler::new(None);
    let t = ScheduledTask::new("job", "0 * * * * *", "UTC").unwrap();
    let id = t.id;
    s.upsert_task(t);
    s.add_worker(worker(1, "alpha"));
    assert!(s.update_worker_task(1, id, "job".to_string(), true));
    assert_eq!(s.workers[0].running_tasks, vec!["job".to_string()]);
    assert!(s.worker_task_finished(1, id));
    assert!(s.workers[0].running_tasks.is_empty());
    assert_eq!(s.task_host(id), None);
    assert!(!s.worker_task_finished(7, id));
}

#[test]
fn task_removed_while_running_still_leaves_the_list() {
    let mut s: Scheduler<u8> = Scheduler::new(None);
    let t = ScheduledTask::new("job", "0 * * * * *", "UTC").unwrap();
    let id = t.id;
    s.upsert_task(t);
    s.add_worker(worker(1, "alpha"));
    assert!(s.update_worker_task(1, id, "job-run".to_string(), true));
    assert!(s.remove_task(id));
    assert_eq!(s.workers[0].running_tasks, vec!["job-run".to_string()]);
    assert!(s.worker_task_finished(1, id));
    assert!(s.workers[0].running_tasks.is_empty());
    assert_eq!(s.started_names.get(id), None);
}
