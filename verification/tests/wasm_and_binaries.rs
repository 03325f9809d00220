use lachuoi::metrics::{disk_usage, DiskInfo};
use lachuoi::scheduler::Scheduler;
use lachuoi::wasm_binary::{
    accept_fetched_binary, cached_binary_usable, check_wasm_checksum, sha256_hex, to_hex, wasm_source, ChecksumCheck,
    WasmRun, WasmSource,
};
use lachuoi::wasm_handlers::{
    classify_arg, classify_line, classify_output, dispatch_wasm_rpc, home_relative, is_component, prefixed_line,
    program_args, resolve_args, split_lines, ArgSource, OutputLine, WasmRpcCall,
};

const EMPTY_SHA: &str = "e3b0c44298fc1c149afbf4c8996fb92427ae41e4649b934ca495991b7852b855";
const ABC_SHA: &str = "ba7816bf8f01cfea414140de5dae2223b00361a396177a9cb410ff61f20015ad";

#[test]
fn digests_in_lower_hex() {
    assert_eq!(sha256_hex(b""), EMPTY_SHA);
    assert_eq!(sha256_hex(b"abc"), ABC_SHA);
    assert_eq!(to_hex(&[0x00, 0x0f, 0xa0, 0xff]), "000fa0ff");
    assert_eq!(to_hex(&[]), "");
}

#[test]
fn master_checks_configured_digest() {
    assert!(matches!(check_wasm_checksum("t", &None, b"abc"), Ok(ChecksumCheck::Unchecked)));
    assert!(matches!(check_wasm_checksum("t", &Some(ABC_SHA.to_string()), b"abc"), Ok(ChecksumCheck::Verified)));
    assert_eq!(
        check_wasm_checksum("t", &Some("00".to_string()), b"abc").err(),
        Some(format!("SHA256 mismatch for task 't': expected 00, got {}", ABC_SHA))
    );
    assert!(check_wasm_checksum("t", &Some(ABC_SHA.to_uppercase()), b"abc").is_err());
}

#[test]
fn worker_uses_cache_only_with_matching_digest() {
    assert!(cached_binary_usable(&None, b"anything"));
    assert!(cached_binary_usable(&Some(ABC_SHA.to_string()), b"abc"));
    assert!(!cached_binary_usable(&Some(ABC_SHA.to_string()), b"abd"));
}

#[test]
fn worker_accepts_fetched_binary() {
    assert_eq!(
        accept_fetched_binary("m.wasm", None, &None),
        Err("Failed to download WASM file: m.wasm".to_string())
    );
    assert_eq!(accept_fetched_binary("m.wasm", Some(b"abc".to_vec()), &None), Ok(b"abc".to_vec()));
    assert_eq!(
        accept_fetched_binary("m.wasm", Some(b"abc".to_vec()), &Some(ABC_SHA.to_string())),
        Ok(b"abc".to_vec())
    );
    assert_eq!(
        accept_fetched_binary("m.wasm", Some(b"".to_vec()), &Some(ABC_SHA.to_string())),
        Err(format!("SHA256 mismatch for downloaded WASM m.wasm: expected {}, got {}.", ABC_SHA, EMPTY_SHA))
    );
}

#[test]
fn wasm_sources() {
    assert!(matches!(wasm_source("https://x.io/a.wasm", "plugins"), WasmSource::Download(u) if u == "https://x.io/a.wasm"));
    assert!(matches!(wasm_source("/opt/a.wasm", "plugins"), WasmSource::File(p) if p == "/opt/a.wasm"));
    assert!(matches!(wasm_source("a.wasm", "plugins"), WasmSource::File(p) if p == "plugins/a.wasm"));
    assert!(matches!(wasm_source("a.wasm", "plugins/"), WasmSource::File(p) if p == "plugins/a.wasm"));
    assert!(matches!(wasm_source("a.wasm", ""), WasmSource::File(p) if p == "a.wasm"));
    assert!(matches!(wasm_source("http://x.io/a.wasm", "p"), WasmSource::File(p) if p == "p/http://x.io/a.wasm"));
}

#[test]
fn wasm_runs_are_delegated_when_workers_exist() {
    let mut s: Scheduler<u8> = Scheduler::new(None);
    let env = Some(vec![("K".to_string(), "V".to_string())]);
    assert!(matches!(s.wasm_run_plan("a.wasm", &None, "t", None, &env, 1, 2), WasmRun::Local));
    s.set_num_workers(1);
    match s.wasm_run_plan("a.wasm", &Some("ab".to_string()), "t", Some(vec!["x".to_string()]), &env, 1, 2) {
        WasmRun::Delegate(r) => {
            assert_eq!(r.wasm_path, "a.wasm");
            assert_eq!(r.expected_sha256.as_deref(), Some("ab"));
            assert_eq!(r.args, Some(vec!["x".to_string()]));
            assert_eq!(r.env, env);
            assert_eq!((r.log_id, r.task_id), (1, 2));
        },
        WasmRun::Local => panic!("expected delegation"),
    }
}

#[test]
fn lines_split_like_str_lines() {
    assert_eq!(split_lines("a\nb\r\nc"), vec!["a", "b", "c"]);
    assert_eq!(split_lines("a\n"), vec!["a"]);
    assert_eq!(split_lines(""), Vec::<String>::new());
    assert_eq!(split_lines("\n\n"), vec!["", ""]);
    assert_eq!(split_lines("x\r"), vec!["x\r"]);
}

#[test]
fn output_lines_are_classified() {
    match classify_line("  {\"jsonrpc\":\"2.0\",\"method\":\"get_key\",\"id\":1}  ") {
        OutputLine::Rpc { request } => assert_eq!(request, "{\"jsonrpc\":\"2.0\",\"method\":\"get_key\",\"id\":1}"),
        _ => panic!("expected a request"),
    }
    match classify_line("{\"jsonrpc\": broken") {
        OutputLine::Log { line, signals_error } => {
            assert_eq!(line, "{\"jsonrpc\": broken");
            assert!(!signals_error);
        },
        _ => panic!("expected a log line"),
    }
    assert!(matches!(classify_line("ERROR: disk full"), OutputLine::Log { signals_error: true, .. }));
    assert!(matches!(classify_line("job Failed"), OutputLine::Log { signals_error: true, .. }));
    assert!(matches!(classify_line("all fine"), OutputLine::Log { signals_error: false, .. }));
    let out = classify_output(b"one\n\xffbad\n");
    assert_eq!(out.len(), 2);
    assert!(matches!(&out[1], OutputLine::Log { line, .. } if line == "\u{fffd}bad"));
    assert_eq!(prefixed_line("job", "hello"), "[job] hello");
}

#[test]
fn argument_sources() {
    assert!(matches!(classify_arg("file:/etc/x"), ArgSource::File(p) if p == "/etc/x"));
    assert!(matches!(classify_arg("env:HOME"), ArgSource::Env(v) if v == "HOME"));
    assert!(matches!(classify_arg("shell:date"), ArgSource::Shell(c) if c == "date"));
    assert!(matches!(classify_arg("--city"), ArgSource::Literal(l) if l == "--city"));
    assert!(resolve_args(&None).is_none());
    assert_eq!(resolve_args(&Some(vec!["a".to_string(), "env:B".to_string()])).unwrap().len(), 2);
    assert_eq!(home_relative("~/x/y"), Some("x/y".to_string()));
    assert_eq!(home_relative("/x"), None);
}

#[test]
fn components_and_argv() {
    assert!(is_component(&[0, 0x61, 0x73, 0x6d, 0x0d, 0, 1, 0, 9]));
    assert!(!is_component(&[0, 0x61, 0x73, 0x6d, 1, 0, 0, 0]));
    assert!(!is_component(&[0, 0x61]));
    assert_eq!(program_args("m.wasm", None), vec!["m.wasm"]);
    assert_eq!(program_args("m.wasm", Some(vec!["-v".to_string()])), vec!["m.wasm", "-v"]);
}

#[test]
fn wasm_rpc_dispatch() {
    assert!(dispatch_wasm_rpc(None, Some("k"), None).is_none());
    assert!(matches!(dispatch_wasm_rpc(Some("get_key"), Some("k"), None), Some(WasmRpcCall::GetKey { key }) if key == "k"));
    assert!(dispatch_wasm_rpc(Some("get_key"), None, None).is_none());
    assert!(matches!(dispatch_wasm_rpc(Some("set_key"), Some("k"), Some("v")), Some(WasmRpcCall::SetKey { key, value }) if key == "k" && value == "v"));
    assert!(dispatch_wasm_rpc(Some("set_key"), Some("k"), None).is_none());
    assert!(matches!(dispatch_wasm_rpc(Some("other"), None, None), Some(WasmRpcCall::Unknown)));
}

#[test]
fn master_keeps_only_checked_binaries() {
    let mut s: Scheduler<u8> = Scheduler::new(None);
    let bad = s.admit_wasm_binary("job", "job.wasm", &Some(ABC_SHA.to_string()), b"");
    assert_eq!(
        bad.err().as_deref(),
        Some(format!("SHA256 mismatch for task 'job': expected {}, got {}", ABC_SHA, EMPTY_SHA).as_str())
    );
    assert!(s.wasm_paths.is_empty());
    assert!(matches!(s.admit_wasm_binary("job", "job.wasm", &Some(ABC_SHA.to_string()), b"abc"), Ok(ChecksumCheck::Verified)));
    assert_eq!(s.wasm_paths, vec!["job.wasm".to_string()]);
    assert!(matches!(s.admit_wasm_binary("other", "other.wasm", &None, b"x"), Ok(ChecksumCheck::Unchecked)));
    assert_eq!(s.wasm_paths, vec!["job.wasm".to_string(), "other.wasm".to_string()]);
}

fn disk(name: &str, fs: &str, total: u64, available: u64) -> DiskInfo {
    DiskInfo { name: name.to_string(), file_system: fs.to_string(), total, available }
}

#[test]
fn disk_usage_counts_each_btrfs_device_once() {
    let disks = vec![
        disk("/dev/sda1", "btrfs", 1000, 400),
        disk("/dev/sda1", "btrfs", 1000, 400),
        disk("/dev/sdb1", "ext4", 500, 100),
        disk("/dev/sdb1", "ext4", 500, 100),
        disk("/dev/sdc1", "btrfs", 200, 200),
    ];
    assert_eq!(disk_usage(&disks), (600 + 400 + 400, 1000 + 500 + 500 + 200));
    assert_eq!(disk_usage(&Vec::new()), (0, 0));
}
