use lachuoi::scheduler::Scheduler;
use lachuoi::task::TaskStatus;
use lachuoi::web::{
    age_at, authorize_url, begin_login, check_oauth_state, client_address, decide_task_rpc, escape_attribute,
    page_window, pager, relative_time_at, status_badge, task_controls, task_rpc_error, user_badge, Access, Age, Avatar,
    BadgeState, TaskRpcDecision,
};

fn scheduler_with_key(key: Option<&str>) -> Scheduler<u8> {
    Scheduler::new(key.map(|k| k.to_string()))
}

#[test]
fn rpc_endpoint_is_always_let_through() {
    let s = scheduler_with_key(Some("secret"));
    assert!(matches!(s.authorize_request("/api/rpc", false, false, None), Access::Allow));
}

#[test]
fn session_or_key_is_let_through() {
    let s = scheduler_with_key(Some("secret"));
    assert!(matches!(s.authorize_request("/task-status", false, true, None), Access::Allow));
    assert!(matches!(s.authorize_request("/task-status", false, false, Some("secret")), Access::Allow));
}

#[test]
fn wrong_key_on_api_is_unauthorized() {
    let s = scheduler_with_key(Some("secret"));
    assert!(matches!(s.authorize_request("/api/cluster-logs", false, false, Some("nope")), Access::Unauthorized));
    assert!(matches!(s.authorize_request("/events", false, false, None), Access::Unauthorized));
    assert!(matches!(s.authorize_request("/tasks/7/toggle", false, false, None), Access::Unauthorized));
    assert!(matches!(s.authorize_request("/tasks/7/run", false, false, None), Access::Unauthorized));
    assert!(matches!(s.authorize_request("/webhooks/3", true, false, None), Access::Unauthorized));
}

#[test]
fn pages_redirect_to_login() {
    let s = scheduler_with_key(Some("secret"));
    assert!(matches!(s.authorize_request("/workers", false, false, None), Access::RedirectToLogin));
}

#[test]
fn no_configured_key_accepts_any_key() {
    let s = scheduler_with_key(None);
    assert!(matches!(s.authorize_request("/workers", false, false, Some("anything")), Access::Allow));
}

fn status(host: Option<&str>, enabled: bool, failed: bool, last_host: Option<&str>) -> TaskStatus {
    TaskStatus {
        id: 1,
        name: "t".to_string(),
        cron: "0 * * * * *".to_string(),
        timezone: "UTC".to_string(),
        task_type: "native".to_string(),
        last_run: None,
        last_duration_ms: None,
        last_failed: failed,
        enabled,
        last_log_id: None,
        host: host.map(|h| h.to_string()),
        last_host: last_host.map(|h| h.to_string()),
    }
}

#[test]
fn badges_name_state_and_host() {
    let b = status_badge(&status(Some("w1"), true, false, None));
    assert!(matches!(b.state, BadgeState::Running));
    assert_eq!(b.text, "Running on w1");
    let b = status_badge(&status(None, false, true, Some("w1")));
    assert!(matches!(b.state, BadgeState::Paused));
    assert_eq!(b.text, "Paused");
    let b = status_badge(&status(None, true, true, Some("w2")));
    assert!(matches!(b.state, BadgeState::Failed));
    assert_eq!(b.text, "Failed (w2)");
    let b = status_badge(&status(None, true, false, None));
    assert!(matches!(b.state, BadgeState::Idle));
    assert_eq!(b.text, "Idle");
    let b = status_badge(&status(None, true, false, Some("master")));
    assert_eq!(b.text, "Idle (master)");
}

#[test]
fn ages_by_whole_seconds() {
    assert!(matches!(age_at(-2), Age::JustNow));
    assert!(matches!(age_at(0), Age::Seconds(0)));
    assert!(matches!(age_at(59), Age::Seconds(59)));
    assert!(matches!(age_at(60), Age::Minutes(1)));
    assert!(matches!(age_at(3_599), Age::Minutes(59)));
    assert!(matches!(age_at(3_600), Age::Hours(1)));
    assert!(matches!(age_at(86_399), Age::Hours(23)));
    assert!(matches!(age_at(86_400), Age::Older));
    assert!(matches!(age_at(i64::MAX), Age::Older));
}

#[test]
fn relative_time_texts() {
    let run = Some("2025-04-24T16:28:26+00:00".to_string());
    let at = 1_745_512_106i64;
    assert_eq!(relative_time_at(&None, (at, 0)), "Never");
    assert_eq!(relative_time_at(&Some("yesterday".to_string()), (at, 0)), "Never");
    assert_eq!(relative_time_at(&run, (at - 5, 0)), "Just now");
    assert_eq!(relative_time_at(&run, (at, 999_999_999)), "0s ago");
    assert_eq!(relative_time_at(&run, (at + 42, 0)), "42s ago");
    assert_eq!(relative_time_at(&run, (at + 5 * 60, 0)), "5m ago");
    assert_eq!(relative_time_at(&run, (at + 3 * 3_600, 0)), "3h ago");
    assert_eq!(relative_time_at(&run, (at + 2 * 86_400, 0)), "2025-04-24 16:28");
    let seoul = Some("2025-04-25T01:28:26+09:00".to_string());
    assert_eq!(relative_time_at(&seoul, (at + 2 * 86_400, 0)), "2025-04-25 01:28");
    let fine = Some("2025-04-24T16:28:26.900+00:00".to_string());
    assert_eq!(relative_time_at(&fine, (at + 1, 800_000_000)), "0s ago");
    assert_eq!(relative_time_at(&fine, (at - 1, 0)), "Just now");
}

#[test]
fn pages_of_fifty() {
    let w = page_window(None);
    assert_eq!((w.page, w.limit, w.offset), (1, 50, 0));
    let w = page_window(Some(3));
    assert_eq!((w.page, w.limit, w.offset), (3, 50, 100));
    let p = pager(&w, 120);
    assert_eq!(p.total_pages, 3);
    assert!(p.shown);
    assert_eq!((p.first_row, p.last_row), (101, 120));
    assert_eq!(p.previous, Some(2));
    assert_eq!(p.next, None);
    let p = pager(&page_window(Some(1)), 120);
    assert_eq!((p.first_row, p.last_row, p.previous, p.next), (1, 50, None, Some(2)));
    let p = pager(&page_window(Some(1)), 0);
    assert_eq!((p.total_pages, p.shown, p.first_row, p.last_row), (0, false, 0, 0));
    let p = pager(&page_window(Some(1)), 50);
    assert_eq!((p.total_pages, p.shown, p.next), (1, false, None));
    let p = pager(&page_window(Some(1)), 51);
    assert_eq!((p.total_pages, p.next), (2, Some(2)));
}

#[test]
fn attributes_are_escaped() {
    assert_eq!(escape_attribute("a&b'c"), "a&amp;b&#39;c");
    assert_eq!(escape_attribute("&#39;"), "&amp;#39;");
    assert_eq!(escape_attribute("plain"), "plain");
    assert!(!escape_attribute("it's").contains('\''));
}

#[test]
fn client_address_prefers_forwarded() {
    assert_eq!(client_address(Some(" 10.0.0.1 , 10.0.0.2"), "1.2.3.4"), "10.0.0.1");
    assert_eq!(client_address(Some("10.0.0.9"), "1.2.3.4"), "10.0.0.9");
    assert_eq!(client_address(Some(""), "1.2.3.4"), "");
    assert_eq!(client_address(None, "1.2.3.4"), "1.2.3.4");
}

#[test]
fn oauth_state_check() {
    assert_eq!(
        check_oauth_state(None, "x"),
        Err("Invalid state: session token missing. Ensure cookies are enabled and you are using the same browser tab.".to_string())
    );
    assert_eq!(check_oauth_state(Some("abc"), "abd"), Err("Invalid state: token mismatch.".to_string()));
    assert_eq!(check_oauth_state(Some("abc"), "abc"), Ok(()));
}

#[test]
fn authorize_url_encodes_redirect() {
    let u = authorize_url("cid", "https://x.io/auth/github/callback", "st8");
    assert_eq!(
        u,
        "https://github.com/login/oauth/authorize?client_id=cid&redirect_uri=https%3A%2F%2Fx.io%2Fauth%2Fgithub%2Fcallback&state=st8&scope=user:email"
    );
}

#[test]
fn login_state_is_alphanumeric_and_in_url() {
    let l = begin_login("cid", "https://x.io/cb");
    assert_eq!(l.state.chars().count(), 32);
    assert!(l.state.chars().all(|c| c.is_ascii_alphanumeric()));
    assert!(l.url.contains(&format!("&state={}&", l.state)));
    let other = begin_login("cid", "https://x.io/cb");
    assert_ne!(l.state, other.state);
}

#[test]
fn task_rpc_decisions() {
    assert!(matches!(decide_task_rpc(false, Some("kv_get"), Some("k"), None), TaskRpcDecision::Denied));
    match decide_task_rpc(true, Some("kv_get"), Some("k"), None) {
        TaskRpcDecision::KvGet { key } => assert_eq!(key, "k"),
        other => panic!("unexpected {:?}", other),
    }
    match decide_task_rpc(true, Some("kv_set"), None, Some("v")) {
        TaskRpcDecision::KvSet { key, value } => assert_eq!((key.as_str(), value.as_str()), ("", "v")),
        other => panic!("unexpected {:?}", other),
    }
    let d = decide_task_rpc(true, None, None, None);
    assert!(matches!(d, TaskRpcDecision::MethodNotFound));
    assert_eq!(task_rpc_error(&d), Some((404, -32601, "Method not found".to_string())));
    assert_eq!(
        task_rpc_error(&TaskRpcDecision::Denied),
        Some((401, -32000, "Invalid or expired task token".to_string()))
    );
    assert_eq!(task_rpc_error(&TaskRpcDecision::KvGet { key: "k".to_string() }), None);
}

#[test]
fn workers_are_admitted_by_key() {
    let s = scheduler_with_key(Some("node"));
    assert!(s.admit_worker(None, Some("h"), None, "9.9.9.9:1").is_none());
    assert!(s.admit_worker(Some("bad"), Some("h"), None, "9.9.9.9:1").is_none());
    let o = s.admit_worker(Some("node"), None, Some("5.5.5.5, 6.6.6.6"), "9.9.9.9:1").unwrap();
    assert_eq!(o.hostname, "unknown");
    assert_eq!(o.addr, "5.5.5.5");
    let o = s.admit_worker(Some("node"), Some("box"), None, "9.9.9.9:1").unwrap();
    assert_eq!((o.hostname.as_str(), o.addr.as_str()), ("box", "9.9.9.9:1"));
}

#[test]
fn user_badges() {
    let b = user_badge(Some("octo".to_string()), Some("https://a/x.png".to_string()));
    assert_eq!(b.login, "octo");
    match b.avatar {
        Avatar::Image { url, alt } => assert_eq!((url.as_str(), alt.as_str()), ("https://a/x.png", "octo")),
        _ => panic!("expected an image"),
    }
    let b = user_badge(None, None);
    assert_eq!(b.login, "Unknown");
    match b.avatar {
        Avatar::Initial(i) => assert_eq!(i, "U"),
        _ => panic!("expected an initial"),
    }
    match user_badge(Some("ßeta".to_string()), None).avatar {
        Avatar::Initial(i) => assert_eq!(i, "SS"),
        _ => panic!("expected an initial"),
    }
    match user_badge(Some(String::new()), None).avatar {
        Avatar::Initial(i) => assert_eq!(i, "U"),
        _ => panic!("expected an initial"),
    }
}

#[test]
fn task_row_controls_follow_the_enabled_flag() {
    let on = task_controls(true);
    assert!(on.run_shown);
    assert_eq!((on.toggle_label.as_str(), on.toggle_to), ("Disable", false));
    let off = task_controls(false);
    assert!(!off.run_shown);
    assert_eq!((off.toggle_label.as_str(), off.toggle_to), ("Enable", true));
}
