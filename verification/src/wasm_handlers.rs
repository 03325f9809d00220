//! What a WASM task's output and arguments mean: output lines are either log lines or
//! JSON-RPC requests to the host, and arguments may refer to files, variables or commands.
use vstd::prelude::*;
use crate::text::{
    chars_of, contains_ci, contains_ignore_ascii_case, has_prefix, starts_with, str_eq,
    string_from_range, trim, trimmed,
};

verus! {

/// A line without one trailing carriage return.
pub open spec fn strip_cr(l: Seq<char>) -> Seq<char> {
    if l.len() > 0 && l.last() == '\r' {
        l.drop_last()
    } else {
        l
    }
}

/// Position of the first line feed in `s`, or -1.
pub open spec fn first_newline(s: Seq<char>) -> int {
    if exists|i: int| 0 <= i < s.len() && s[i] == '\n' {
        choose|i: int| 0 <= i < s.len() && s[i] == '\n' && forall|k: int| 0 <= k < i ==> s[k] != '\n'
    } else {
        -1
    }
}

/// The lines of `s` as `str::lines` documents them: split after each line feed, the line
/// feed and a carriage return just before it dropped, and no empty last line after a
/// final line feed.
#[verifier::opaque]
pub open spec fn lines_of(s: Seq<char>) -> Seq<Seq<char>>
    decreases s.len(),
{
    if s.len() == 0 {
        Seq::empty()
    } else if first_newline(s) >= 0 {
        let i = first_newline(s);
        if 0 <= i < s.len() {
            seq![strip_cr(s.subrange(0, i))] + lines_of(s.subrange(i + 1, s.len() as int))
        } else {
            Seq::empty()
        }
    } else {
        seq![s]
    }
}

proof fn lemma_first_newline(s: Seq<char>, i: int)
    requires
        0 <= i < s.len(),
        s[i] == '\n',
        forall|k: int| 0 <= k < i ==> s[k] != '\n',
    ensures
        first_newline(s) == i,
{
    let j = first_newline(s);
    assert(0 <= j < s.len() && s[j] == '\n' && forall|k: int| 0 <= k < j ==> s[k] != '\n');
    if j < i {
        assert(s[j] != '\n');
    }
    if i < j {
        assert(s[i] != '\n');
    }
}

/// Splitting at the first line feed of `s[start..n]`, found at `k`.
proof fn lemma_lines_step(s: Seq<char>, start: int, k: int)
    requires
        0 <= start <= k < s.len(),
        s[k] == '\n',
        forall|q: int| start <= q < k ==> s[q] != '\n',
    ensures
        lines_of(s.subrange(start, s.len() as int)) == seq![strip_cr(s.subrange(start, k))]
            + lines_of(s.subrange(k + 1, s.len() as int)),
{
    let rest = s.subrange(start, s.len() as int);
    reveal(lines_of);
    lemma_first_newline(rest, k - start);
    assert(rest.subrange(0, k - start) =~= s.subrange(start, k));
    assert(rest.subrange(k - start + 1, rest.len() as int) =~= s.subrange(k + 1, s.len() as int));
}

/// The characters `v[start..k]`, less one trailing carriage return.
fn line_between(v: &Vec<char>, start: usize, k: usize) -> (line: String)
    requires
        start <= k <= v.len(),
    ensures
        line@ == strip_cr(v@.subrange(start as int, k as int)),
{
    if k > start && v[k - 1] == '\r' {
        let line = string_from_range(v, start, k - 1);
        assert(v@.subrange(start as int, k as int).drop_last() =~= v@.subrange(start as int, (k - 1) as int));
        line
    } else {
        string_from_range(v, start, k)
    }
}

/// The lines of `text`.
pub fn split_lines(text: &str) -> (lines: Vec<String>)
    ensures
        lines@.map_values(|l: String| l@) == lines_of(text@),
{
    let v = chars_of(text);
    let n = v.len();
    let mut lines: Vec<String> = Vec::new();
    let mut start: usize = 0;
    let mut k: usize = 0;
    assert(v@.subrange(0, n as int) =~= v@);
    while k < n
        invariant
            v@ == text@,
            n == v@.len(),
            start <= k <= n,
            forall|q: int| start <= q < k ==> v@[q] != '\n',
            lines@.map_values(|l: String| l@) + lines_of(v@.subrange(start as int, n as int)) == lines_of(v@),
        decreases n - k,
    {
        if v[k] == '\n' {
            proof {
                lemma_lines_step(v@, start as int, k as int);
            }
            let line = line_between(&v, start, k);
            let ghost before = lines@.map_values(|l: String| l@);
            lines.push(line);
            assert(lines@.map_values(|l: String| l@) =~= before.push(line@));
            assert(before.push(line@) + lines_of(v@.subrange(k + 1, n as int)) =~= before
                + (seq![line@] + lines_of(v@.subrange(k + 1, n as int))));
            start = k + 1;
        }
        k = k + 1;
    }
    if start < n {
        let ghost rest = v@.subrange(start as int, n as int);
        proof {
            reveal(lines_of);
        }
        assert(!(exists|i: int| 0 <= i < rest.len() && rest[i] == '\n')) by {
            assert forall|i: int| 0 <= i < rest.len() implies rest[i] != '\n' by {
                assert(rest[i] == v@[i + start]);
            }
        }
        let line = string_from_range(&v, start, n);
        let ghost before = lines@.map_values(|l: String| l@);
        lines.push(line);
        assert(lines@.map_values(|l: String| l@) =~= before + lines_of(rest));
    } else {
        proof {
            reveal(lines_of);
        }
        assert(lines@.map_values(|l: String| l@) =~= lines@.map_values(|l: String| l@) + lines_of(v@.subrange(start as int, n as int)));
    }
    lines
}

/// Names the texts that `serde_json` parses as a JSON value.
pub uninterp spec fn json_valid(text: Seq<char>) -> bool;

/// Parses `text` with `serde_json::from_str::<serde_json::Value>`. Claims only that the
/// answer is the named `json_valid` of the text.
#[verifier::external_body]
fn parses_as_json(text: &str) -> (ok: bool)
    ensures
        ok == json_valid(text@),
{
    serde_json::from_str::<serde_json::Value>(text).is_ok()
}

/// Names the text that `String::from_utf8_lossy` makes of some bytes.
pub uninterp spec fn utf8_lossy(bytes: Seq<u8>) -> Seq<char>;

/// `String::from_utf8_lossy`: the bytes as UTF-8, each invalid sequence replaced.
/// Claims only that the result is the named `utf8_lossy` of the bytes.
#[verifier::external_body]
fn decode_lossy(bytes: &[u8]) -> (text: String)
    ensures
        text@ == utf8_lossy(bytes@),
{
    String::from_utf8_lossy(bytes).into_owned()
}

/// One line of task output.
pub enum OutputLine {
    /// A JSON-RPC request to the host, as its trimmed text.
    Rpc { request: String },
    /// A line to log; `signals_error` when it reports an error.
    Log { line: String, signals_error: bool },
}

/// Whether an output line is a JSON-RPC request: trimmed, it starts `{"jsonrpc"` and parses.
pub open spec fn is_rpc_line(line: Seq<char>) -> bool {
    has_prefix(trimmed(line), "{\"jsonrpc\""@) && json_valid(trimmed(line))
}

/// Whether a logged line reports an error: it holds `error:` or `failed`, in any case.
pub open spec fn signals_error(line: Seq<char>) -> bool {
    contains_ci(line, "error:"@) || contains_ci(line, "failed"@)
}

/// What output line `line` is.
pub open spec fn output_line_is(o: OutputLine, line: Seq<char>) -> bool {
    if is_rpc_line(line) {
        o matches OutputLine::Rpc { request } && request@ == trimmed(line)
    } else {
        o matches OutputLine::Log { line: l, signals_error: e } && l@ == line && e == signals_error(line)
    }
}

/// Classifies one output line.
pub fn classify_line(line: &str) -> (o: OutputLine)
    ensures
        output_line_is(o, line@),
{
    let t = trim(line);
    if starts_with(t.as_str(), "{\"jsonrpc\"") && parses_as_json(t.as_str()) {
        return OutputLine::Rpc { request: t };
    }
    let v = chars_of(line);
    let e = contains_ignore_ascii_case(&v, "error:") || contains_ignore_ascii_case(&v, "failed");
    OutputLine::Log { line: String::from_str(line), signals_error: e }
}

/// Classifies every line of a chunk of task output, in order.
pub fn classify_output(bytes: &[u8]) -> (out: Vec<OutputLine>)
    ensures
        out@.len() == lines_of(utf8_lossy(bytes@)).len(),
        forall|i: int| 0 <= i < out@.len() ==> output_line_is(#[trigger] out@[i], lines_of(utf8_lossy(bytes@))[i]),
{
    let text = decode_lossy(bytes);
    let lines = split_lines(text.as_str());
    let mut out: Vec<OutputLine> = Vec::new();
    let mut i: usize = 0;
    while i < lines.len()
        invariant
            i <= lines@.len(),
            lines@.map_values(|l: String| l@) == lines_of(utf8_lossy(bytes@)),
            out@.len() == i,
            forall|k: int| 0 <= k < i ==> output_line_is(#[trigger] out@[k], lines_of(utf8_lossy(bytes@))[k]),
        decreases lines@.len() - i,
    {
        assert(lines@[i as int]@ == lines_of(utf8_lossy(bytes@))[i as int]);
        out.push(classify_line(lines[i].as_str()));
        i = i + 1;
    }
    out
}

/// `[prefix] line`, the form in which task output is logged.
pub fn prefixed_line(prefix: &str, line: &str) -> (s: String)
    ensures
        s@ == "["@ + prefix@ + "] "@ + line@,
{
    let mut s = String::from_str("[");
    s.append(prefix);
    s.append("] ");
    s.append(line);
    s
}

/// Where the value of a task argument comes from.
pub enum ArgSource {
    /// The contents of the file at this path.
    File(String),
    /// The value of this environment variable, empty when unset.
    Env(String),
    /// The trimmed standard output of this shell command.
    Shell(String),
    /// The argument itself.
    Literal(String),
}

/// `s` without its first `n` characters.
pub open spec fn after(s: Seq<char>, n: int) -> Seq<char> {
    s.subrange(n, s.len() as int)
}

/// Where argument `arg` takes its value from: `file:`, `env:` and `shell:` prefixes, tried
/// in that order, name a source; anything else is literal.
pub open spec fn arg_source_is(src: ArgSource, arg: Seq<char>) -> bool {
    if has_prefix(arg, "file:"@) {
        src matches ArgSource::File(p) && p@ == after(arg, 5)
    } else if has_prefix(arg, "env:"@) {
        src matches ArgSource::Env(v) && v@ == after(arg, 4)
    } else if has_prefix(arg, "shell:"@) {
        src matches ArgSource::Shell(c) && c@ == after(arg, 6)
    } else {
        src matches ArgSource::Literal(l) && l@ == arg
    }
}

fn suffix_from(s: &str, n: usize) -> (r: String)
    requires
        n <= s@.len(),
    ensures
        r@ == after(s@, n as int),
{
    let v = chars_of(s);
    string_from_range(&v, n, v.len())
}

/// Where one argument takes its value from.
pub fn classify_arg(arg: &str) -> (src: ArgSource)
    ensures
        arg_source_is(src, arg@),
{
    proof {
        reveal_strlit("file:");
        reveal_strlit("env:");
        reveal_strlit("shell:");
    }
    if starts_with(arg, "file:") {
        ArgSource::File(suffix_from(arg, 5))
    } else if starts_with(arg, "env:") {
        ArgSource::Env(suffix_from(arg, 4))
    } else if starts_with(arg, "shell:") {
        ArgSource::Shell(suffix_from(arg, 6))
    } else {
        ArgSource::Literal(String::from_str(arg))
    }
}

/// Where each argument takes its value from; no arguments stay none.
pub fn resolve_args(args: &Option<Vec<String>>) -> (res: Option<Vec<ArgSource>>)
    ensures
        res is Some <==> args is Some,
        res matches Some(r) ==> r@.len() == args.unwrap()@.len()
            && forall|i: int| 0 <= i < r@.len() ==> arg_source_is(#[trigger] r@[i], args.unwrap()@[i]@),
{
    match args {
        None => None,
        Some(a) => {
            let mut r: Vec<ArgSource> = Vec::new();
            let mut i: usize = 0;
            while i < a.len()
                invariant
                    i <= a@.len(),
                    r@.len() == i,
                    forall|k: int| 0 <= k < i ==> arg_source_is(#[trigger] r@[k], a@[k]@),
                decreases a@.len() - i,
            {
                r.push(classify_arg(a[i].as_str()));
                i = i + 1;
            }
            Some(r)
        },
    }
}

/// For a path written `~/rest`, the `rest` to be found under the home directory.
pub fn home_relative(path: &str) -> (rest: Option<String>)
    ensures
        rest is Some <==> has_prefix(path@, "~/"@),
        rest matches Some(r) ==> r@ == after(path@, 2),
{
    proof {
        reveal_strlit("~/");
    }
    if starts_with(path, "~/") {
        Some(suffix_from(path, 2))
    } else {
        None
    }
}

/// The first bytes of a WASM component (as opposed to a core module).
pub open spec fn component_magic() -> Seq<u8> {
    seq![0u8, 0x61u8, 0x73u8, 0x6du8, 0x0du8, 0u8, 1u8, 0u8]
}

/// Whether `binary` is a WASM component: it starts with the component preamble.
pub fn is_component(binary: &[u8]) -> (res: bool)
    ensures
        res == (binary@.len() >= 8 && binary@.subrange(0, 8) == component_magic()),
{
    if binary.len() < 8 {
        return false;
    }
    let res = binary[0] == 0 && binary[1] == 0x61 && binary[2] == 0x73 && binary[3] == 0x6d
        && binary[4] == 0x0d && binary[5] == 0 && binary[6] == 1 && binary[7] == 0;
    if res {
        assert(binary@.subrange(0, 8) =~= component_magic());
    } else {
        assert(binary@.subrange(0, 8) != component_magic()) by {
            if binary@.subrange(0, 8) == component_magic() {
                assert(binary@.subrange(0, 8)[0] == binary@[0]);
            }
        }
    }
    res
}

/// The argument vector of a WASM program: its path first, then its arguments.
pub fn program_args(wasm_path: &str, args: Option<Vec<String>>) -> (argv: Vec<String>)
    ensures
        argv@.len() >= 1,
        argv@[0]@ == wasm_path@,
        args is None ==> argv@.len() == 1,
        args matches Some(a) ==> argv@.drop_first() == a@,
{
    let mut argv: Vec<String> = Vec::new();
    argv.push(String::from_str(wasm_path));
    match args {
        None => {},
        Some(a) => {
            let mut a = a;
            let ghost orig = a@;
            argv.append(&mut a);
            assert(argv@.drop_first() =~= orig);
        },
    }
    argv
}

/// What a task's JSON-RPC request asks of the host.
pub enum WasmRpcCall {
    GetKey { key: String },
    SetKey { key: String, value: String },
    /// A method the host does not know; it is answered "Method not found".
    Unknown,
}

/// Decides a task's JSON-RPC request from its `method` and its `key` and `value`
/// parameters (each present when it is a string). A request without a method gets no
/// answer, nor one whose `get_key` or `set_key` lacks the parameters it needs.
pub fn dispatch_wasm_rpc(method: Option<&str>, key: Option<&str>, value: Option<&str>) -> (call: Option<WasmRpcCall>)
    ensures
        method is None ==> call is None,
        method matches Some(m) ==> if m@ == "get_key"@ {
            match key {
                Some(k) => call matches Some(WasmRpcCall::GetKey { key: kk }) && kk@ == k@,
                None => call is None,
            }
        } else if m@ == "set_key"@ {
            match (key, value) {
                (Some(k), Some(v)) => call matches Some(WasmRpcCall::SetKey { key: kk, value: vv }) && kk@ == k@ && vv@ == v@,
                _ => call is None,
            }
        } else {
            call matches Some(WasmRpcCall::Unknown)
        },
{
    match method {
        None => None,
        Some(m) => {
            if str_eq(m, "get_key") {
                match key {
                    Some(k) => Some(WasmRpcCall::GetKey { key: String::from_str(k) }),
                    None => None,
                }
            } else if str_eq(m, "set_key") {
                match (key, value) {
                    (Some(k), Some(v)) => Some(WasmRpcCall::SetKey { key: String::from_str(k), value: String::from_str(v) }),
                    _ => None,
                }
            } else {
                Some(WasmRpcCall::Unknown)
            }
        },
    }
}

} // verus!
