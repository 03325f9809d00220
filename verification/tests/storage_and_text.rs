use lachuoi::apps::{convert_timestamp, describe_time, get_multipart_boundary, parse_with_formats, place_type_excluded, time_format_list, try_convert_timestamp};
use lachuoi::db::{
    admin_login, decode_task_row, encode_task_row, latest_logs, plan_schema, split_sql, stored_schema_version,
    version_text, LogRow, Migration, SchemaState, SchemaStep,
};
use lachuoi::rpc::{demux, BidiMessage, Demux, WsTransport};
use lachuoi::text::{contains_str, parse_i64, to_decimal, trim};

fn steps(p: &[SchemaStep]) -> Vec<String> {
    p.iter()
        .map(|s| match s {
            SchemaStep::Execute(t) => format!("exec {}", t),
            SchemaStep::SetVersion(v) => format!("version {}", v),
        })
        .collect()
}

#[test]
fn sql_statements_are_split() {
    assert_eq!(split_sql(" CREATE TABLE a (x);\n\n ;INSERT INTO a VALUES (1) "), vec!["CREATE TABLE a (x)", "INSERT INTO a VALUES (1)"]);
    assert_eq!(split_sql(""), Vec::<String>::new());
    assert_eq!(split_sql(";;"), Vec::<String>::new());
}

#[test]
fn fresh_install_runs_full_schema() {
    let p = plan_schema(0, 3, "A;B", &vec![]);
    assert!(matches!(p.state, SchemaState::FreshInstall));
    assert_eq!(steps(&p.steps), vec!["exec A", "exec B"]);
}

#[test]
fn upgrade_runs_newer_migrations() {
    let ms = vec![
        Migration { version: 2, sql: "M2".to_string() },
        Migration { version: 3, sql: "M3a; M3b".to_string() },
        Migration { version: 1, sql: "M1".to_string() },
    ];
    let p = plan_schema(2, 3, "FULL", &ms);
    assert!(matches!(p.state, SchemaState::Upgrade));
    assert_eq!(steps(&p.steps), vec!["exec M3a", "exec M3b", "version 3"]);
    let p = plan_schema(1, 3, "FULL", &vec![]);
    assert_eq!(steps(&p.steps), vec!["version 3"]);
    let p = plan_schema(3, 3, "FULL", &ms);
    assert!(matches!(p.state, SchemaState::UpToDate));
    assert!(p.steps.is_empty());
}

#[test]
fn versions_read_back() {
    assert_eq!(stored_schema_version(None), 0);
    assert_eq!(stored_schema_version(Some("7")), 7);
    assert_eq!(stored_schema_version(Some("seven")), 0);
    for v in [0i64, 1, 42, -5, i64::MAX, i64::MIN] {
        assert_eq!(stored_schema_version(Some(&version_text(v))), v);
        assert_eq!(version_text(v), v.to_string());
    }
}

#[test]
fn integers_parse_like_std() {
    for s in ["0", "+12", "-12", "9223372036854775807", "-9223372036854775808", "9223372036854775808", "", "-", "+", "1 ", "a1", "007"] {
        assert_eq!(parse_i64(s), s.parse::<i64>().ok(), "{:?}", s);
    }
    assert_eq!(to_decimal(1234), "1234");
}

#[test]
fn admin_setting() {
    assert_eq!(admin_login(Some("  octo ")), Some("octo".to_string()));
    assert_eq!(admin_login(Some("   ")), None);
    assert_eq!(admin_login(None), None);
}

#[test]
fn task_rows_round_trip() {
    let args = Some(vec!["--city".to_string(), "Seoul \"x\"".to_string()]);
    let env = Some(vec![("B".to_string(), "2".to_string()), ("A".to_string(), "1".to_string()), ("B".to_string(), "3".to_string())]);
    let w = encode_task_row(0, &args, &env, true);
    assert_eq!(w.id, None);
    assert_eq!(w.enabled, 1);
    assert_eq!(w.args_json.as_deref(), Some("[\"--city\",\"Seoul \\\"x\\\"\"]"));
    assert_eq!(w.env_json.as_deref(), Some("{\"A\":\"1\",\"B\":\"3\"}"));
    let w2 = encode_task_row(5, &None, &None, false);
    assert_eq!((w2.id, w2.args_json, w2.env_json, w2.enabled), (Some(5), None, None, 0));
    let t = decode_task_row(
        5,
        "n".to_string(),
        "c".to_string(),
        "UTC".to_string(),
        "wasm".to_string(),
        Some("m.wasm".to_string()),
        w.args_json.clone(),
        w.env_json.clone(),
        None,
        2,
    );
    assert_eq!(t.args, args);
    assert_eq!(t.env, Some(vec![("A".to_string(), "1".to_string()), ("B".to_string(), "3".to_string())]));
    assert!(t.enabled);
    let t = decode_task_row(6, "n".into(), "c".into(), "UTC".into(), "native".into(), None, Some("not json".into()), Some("[1]".into()), None, 0);
    assert_eq!((t.args, t.env, t.enabled), (None, None, false));
}

#[test]
fn latest_run_per_task() {
    let rows = vec![
        LogRow { log_id: "67e55044-10b1-426f-9247-bb680e5fe0c8".to_string(), task_id: 1, run_at: "t1".to_string(), duration_ms: Some(5) },
        LogRow { log_id: "not-a-uuid".to_string(), task_id: 2, run_at: "t2".to_string(), duration_ms: None },
        LogRow { log_id: "00000000-0000-0000-0000-000000000009".to_string(), task_id: 1, run_at: "t3".to_string(), duration_ms: Some(7) },
    ];
    let out = latest_logs(&rows);
    assert_eq!(out.len(), 1);
    assert_eq!((out[0].task_id, out[0].log_id, out[0].run_at.as_str(), out[0].duration_ms), (1, 9, "t3", Some(7)));
}

#[test]
fn timestamps_in_many_formats() {
    assert_eq!(time_format_list().len(), 16);
    assert_eq!(
        parse_with_formats("Thu, 24 Apr 2025 16:28:26 +0000"),
        Some((1_745_512_106, 0, "%a, %d %b %Y %H:%M:%S %z".to_string()))
    );
    assert_eq!(
        parse_with_formats("2025-04-24T16:28:26+09:00"),
        Some((1_745_479_706, 0, "%Y-%m-%dT%H:%M:%S%:z".to_string()))
    );
    assert_eq!(parse_with_formats("2025-04-24 16:28:26"), Some((1_745_512_106, 0, "%Y-%m-%d %H:%M:%S".to_string())));
    assert_eq!(parse_with_formats("1700000000"), Some((1_700_000_000, 0, "UNIX TIME".to_string())));
    assert_eq!(parse_with_formats("soon"), None);
}

#[test]
fn multipart_boundaries() {
    assert_eq!(get_multipart_boundary("multipart/form-data; boundary=abc123"), Ok("abc123".to_string()));
    assert_eq!(get_multipart_boundary("multipart/form-data; boundary=a; boundary=b"), Ok("a; ".to_string()));
    assert_eq!(
        get_multipart_boundary("application/json; charset=utf-8 padding"),
        Err("Can't find boundary from header".to_string())
    );
}

#[test]
fn text_helpers() {
    assert!(contains_str("/tasks/1/toggle", "/toggle"));
    assert!(!contains_str("/tasks", "/toggle"));
    assert!(contains_str("abc", ""));
    assert_eq!(trim("\u{3000} x \t"), "x");
}

fn wrap(b: Vec<u8>) -> Vec<u8> {
    b
}

fn unwrap(m: Vec<u8>) -> Option<Vec<u8>> {
    if m.is_empty() { None } else { Some(m) }
}

#[test]
fn transport_and_routing() {
    let t: WsTransport<u8, u8, u8, Vec<u8>, String, fn(Vec<u8>) -> Vec<u8>, fn(Vec<u8>) -> Option<Vec<u8>>> =
        WsTransport::new(7u8, wrap, unwrap);
    assert_eq!(t.inner, 7);
    assert_eq!((t.from_msg)(Vec::new()), None);
    assert_eq!((t.to_msg)(vec![1]), vec![1]);
    assert!(matches!(demux::<u8, u8, String>(Some(Ok(BidiMessage::A(1)))), Demux::ToA(1)));
    assert!(matches!(demux::<u8, u8, String>(Some(Ok(BidiMessage::B(2)))), Demux::ToB(2)));
    assert!(matches!(demux::<u8, u8, String>(Some(Err("x".to_string()))), Demux::FailBoth(e) if e == "x"));
    assert!(matches!(demux::<u8, u8, String>(None), Demux::Stop));
}

#[test]
fn describe_time_writes_the_instant_three_ways() {
    let d = describe_time(1745512106, 0, None).unwrap();
    assert_eq!(d.unix_time, 1745512106);
    assert_eq!(d.rfc2822, "Thu, 24 Apr 2025 16:28:26 +0000");
    assert_eq!(d.rfc3339, "2025-04-24T16:28:26+00:00");
    assert_eq!(d.sql_datetime, "2025-04-24 16:28:26");
    assert!(d.original_timestring.is_none());
    assert!(d.original_timestring_format.is_none());
}

#[test]
fn convert_timestamp_keeps_the_text_and_its_format() {
    let d = convert_timestamp("2025-04-24 16:28:26").unwrap();
    assert_eq!(d.unix_time, 1745512106);
    assert_eq!(d.original_timestring.as_deref(), Some("2025-04-24 16:28:26"));
    assert_eq!(d.original_timestring_format.as_deref(), Some("%Y-%m-%d %H:%M:%S"));
    assert_eq!(d.rfc3339, "2025-04-24T16:28:26+00:00");
    let e = convert_timestamp("1745512106").unwrap();
    assert_eq!(e.original_timestring_format.as_deref(), Some("UNIX TIME"));
    assert_eq!(e.sql_datetime, "2025-04-24 16:28:26");
}

#[test]
fn convert_timestamp_refuses_unreadable_text() {
    assert_eq!(convert_timestamp("yesterday-ish").err().as_deref(), Some("Not Valid format"));
}

#[test]
fn place_type_excluded_leaves_out_lodging_and_shops() {
    let cafe = vec!["cafe".to_string(), "food".to_string()];
    assert!(!place_type_excluded(&cafe));
    let hotel_bar = vec!["bar".to_string(), "lodging".to_string()];
    assert!(place_type_excluded(&hotel_bar));
    let station = vec!["gas_station".to_string()];
    assert!(place_type_excluded(&station));
    assert!(!place_type_excluded(&Vec::new()));
    assert!(!place_type_excluded(&vec!["Hotel".to_string()]));
}

#[test]
fn try_convert_timestamp_declines_years_past_9999() {
    assert!(try_convert_timestamp("300000000000").is_none());
    let r = try_convert_timestamp("99999999999999999").unwrap();
    assert_eq!(r.err().as_deref(), Some("Not Valid format"));
    let d = try_convert_timestamp("2025-04-24T16:28:26+00:00").unwrap().unwrap();
    assert_eq!(d.unix_time, 1745512106);
    assert_eq!(d.original_timestring_format.as_deref(), Some("%Y-%m-%dT%H:%M:%S%:z"));
}
