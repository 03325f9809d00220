//! Where a task's WASM binary comes from, and how it is checked against the SHA-256
//! digest its configuration expects, on the master and on a worker.
use vstd::prelude::*;
use crate::scheduler::Scheduler;
use crate::task::{RunRequest, copy_opt_env, copy_opt_string, opt_view, same_opt_vec};
use crate::text::{chars_of, has_prefix, starts_with, str_eq};

verus! {

/// Names the SHA-256 digest of some bytes, as the `sha2` crate computes it.
pub uninterp spec fn sha256_of(bytes: Seq<u8>) -> Seq<u8>;

/// `sha2::Sha256::digest` of the bytes. Claims that the result is the named `sha256_of`
/// of the bytes, and that it is 32 bytes long (the digest's type fixes its length).
#[verifier::external_body]
fn sha256_digest(bytes: &[u8]) -> (d: Vec<u8>)
    ensures
        d@ == sha256_of(bytes@),
        d@.len() == 32,
{
    <sha2::Sha256 as sha2::Digest>::digest(bytes).to_vec()
}

/// The lower-case hexadecimal digit for `d` (below sixteen).
pub open spec fn hex_digit(d: int) -> char {
    if d == 0 { '0' }
    else if d == 1 { '1' }
    else if d == 2 { '2' }
    else if d == 3 { '3' }
    else if d == 4 { '4' }
    else if d == 5 { '5' }
    else if d == 6 { '6' }
    else if d == 7 { '7' }
    else if d == 8 { '8' }
    else if d == 9 { '9' }
    else if d == 10 { 'a' }
    else if d == 11 { 'b' }
    else if d == 12 { 'c' }
    else if d == 13 { 'd' }
    else if d == 14 { 'e' }
    else { 'f' }
}

/// The bytes in lower-case hexadecimal, two digits each, as `hex::encode` and the
/// `{:02x}` format write them.
pub open spec fn hex_of(bytes: Seq<u8>) -> Seq<char>
    decreases bytes.len(),
{
    if bytes.len() == 0 {
        Seq::empty()
    } else {
        hex_of(bytes.drop_last()) + seq![hex_digit((bytes.last() / 16) as int), hex_digit((bytes.last() % 16) as int)]
    }
}

fn hex_char(d: u8) -> (c: char)
    requires
        d < 16,
    ensures
        c == hex_digit(d as int),
{
    if d == 0 { '0' }
    else if d == 1 { '1' }
    else if d == 2 { '2' }
    else if d == 3 { '3' }
    else if d == 4 { '4' }
    else if d == 5 { '5' }
    else if d == 6 { '6' }
    else if d == 7 { '7' }
    else if d == 8 { '8' }
    else if d == 9 { '9' }
    else if d == 10 { 'a' }
    else if d == 11 { 'b' }
    else if d == 12 { 'c' }
    else if d == 13 { 'd' }
    else if d == 14 { 'e' }
    else { 'f' }
}

/// The bytes in lower-case hexadecimal.
pub fn to_hex(bytes: &[u8]) -> (s: String)
    ensures
        s@ == hex_of(bytes@),
{
    let mut s = String::new();
    let mut i: usize = 0;
    assert(bytes@.take(0) =~= Seq::<u8>::empty());
    while i < bytes.len()
        invariant
            i <= bytes@.len(),
            s@ == hex_of(bytes@.take(i as int)),
        decreases bytes@.len() - i,
    {
        let b = bytes[i];
        s.push(hex_char(b / 16));
        s.push(hex_char(b % 16));
        assert(bytes@.take(i + 1).drop_last() =~= bytes@.take(i as int));
        assert(bytes@.take(i + 1).last() == b);
        assert(s@ =~= hex_of(bytes@.take(i as int)) + seq![hex_digit((b / 16) as int), hex_digit((b % 16) as int)]);
        i = i + 1;
    }
    assert(bytes@.take(bytes@.len() as int) =~= bytes@);
    s
}

/// Two hexadecimal digits per byte.
pub proof fn lemma_hex_length(bytes: Seq<u8>)
    ensures
        hex_of(bytes).len() == 2 * bytes.len(),
    decreases bytes.len(),
{
    if bytes.len() > 0 {
        lemma_hex_length(bytes.drop_last());
    }
}

/// The SHA-256 digest of some bytes, in lower-case hexadecimal.
pub fn sha256_hex(bytes: &[u8]) -> (s: String)
    ensures
        s@ == hex_of(sha256_of(bytes@)),
        s@.len() == 64,
{
    let d = sha256_digest(bytes);
    proof {
        lemma_hex_length(d@);
    }
    to_hex(d.as_slice())
}

/// What the master's check of a binary against its expected digest found.
#[derive(Debug)]
pub enum ChecksumCheck {
    /// The digest matched.
    Verified,
    /// No digest was configured; the binary runs unchecked.
    Unchecked,
}

/// The refusal of a binary whose digest is not the one configured for `task_name`.
pub open spec fn mismatch_message(task_name: Seq<char>, expected: Seq<char>, actual: Seq<char>) -> Seq<char> {
    "SHA256 mismatch for task '"@ + task_name + "': expected "@ + expected + ", got "@ + actual
}

/// Checks a task's binary against the digest its configuration expects, if any.
pub fn check_wasm_checksum(task_name: &str, expected: &Option<String>, binary: &[u8]) -> (r: Result<ChecksumCheck, String>)
    ensures
        match *expected {
            None => r matches Ok(ChecksumCheck::Unchecked),
            Some(e) => if hex_of(sha256_of(binary@)) == e@ {
                r matches Ok(ChecksumCheck::Verified)
            } else {
                r matches Err(m) && m@ == mismatch_message(task_name@, e@, hex_of(sha256_of(binary@)))
            },
        },
{
    match expected {
        None => Ok(ChecksumCheck::Unchecked),
        Some(e) => {
            let actual = sha256_hex(binary);
            if str_eq(actual.as_str(), e.as_str()) {
                Ok(ChecksumCheck::Verified)
            } else {
                let mut m = String::from_str("SHA256 mismatch for task '");
                m.append(task_name);
                m.append("': expected ");
                m.append(e.as_str());
                m.append(", got ");
                m.append(actual.as_str());
                Err(m)
            }
        },
    }
}

/// Whether a binary passes the master's check: no digest is expected, or it has the one
/// expected.
pub open spec fn master_accepts(expected: Option<Seq<char>>, binary: Seq<u8>) -> bool {
    match expected {
        None => true,
        Some(e) => hex_of(sha256_of(binary)) == e,
    }
}

impl<M> Scheduler<M> {
    /// Checks a task's binary before the master keeps it: only a binary that passes the
    /// check has its path recorded among those served to workers (and may be cached);
    /// a refused one leaves the scheduler unchanged.
    pub fn admit_wasm_binary(&mut self, task_name: &str, path: &str, expected: &Option<String>, binary: &[u8]) -> (r: Result<ChecksumCheck, String>)
        ensures
            r is Ok <==> master_accepts(opt_view(*expected), binary@),
            match *expected {
                None => r matches Ok(ChecksumCheck::Unchecked),
                Some(e) => if hex_of(sha256_of(binary@)) == e@ {
                    r matches Ok(ChecksumCheck::Verified)
                } else {
                    r matches Err(m) && m@ == mismatch_message(task_name@, e@, hex_of(sha256_of(binary@)))
                },
            },
            r is Err ==> *final(self) == *old(self),
            r is Ok ==> {
                &&& exists|i: int| 0 <= i < final(self).wasm_paths@.len() && final(self).wasm_paths@[i]@ == path@
                &&& forall|i: int| 0 <= i < old(self).wasm_paths@.len() ==> final(self).wasm_paths@[i] == old(self).wasm_paths@[i]
                &&& final(self).wasm_paths@.len() <= old(self).wasm_paths@.len() + 1
                &&& final(self).tasks == old(self).tasks
                &&& final(self).handler_ids == old(self).handler_ids
                &&& final(self).workers == old(self).workers
                &&& final(self).task_to_worker == old(self).task_to_worker
            },
    {
        let r = check_wasm_checksum(task_name, expected, binary);
        if r.is_ok() {
            self.cache_wasm_path(path);
            proof {
                if exists|i: int| 0 <= i < old(self).wasm_paths@.len() && old(self).wasm_paths@[i]@ == path@ {
                } else {
                    assert(self.wasm_paths@[self.wasm_paths@.len() - 1]@ == path@);
                    assert forall|i: int| 0 <= i < old(self).wasm_paths@.len() implies self.wasm_paths@[i] == old(self).wasm_paths@[i] by {
                        assert(self.wasm_paths@.drop_last()[i] == self.wasm_paths@[i]);
                    }
                }
            }
        }
        r
    }
}

/// Whether a worker may run the binary it has cached: when no digest is expected, or
/// the cached binary has it.
pub open spec fn cache_usable(expected: Option<Seq<char>>, cached: Seq<u8>) -> bool {
    match expected {
        None => true,
        Some(e) => hex_of(sha256_of(cached)) == e,
    }
}

/// Whether a worker may run the binary it has cached.
pub fn cached_binary_usable(expected: &Option<String>, cached: &[u8]) -> (ok: bool)
    ensures
        ok == cache_usable(opt_view(*expected), cached@),
{
    match expected {
        None => true,
        Some(e) => {
            let actual = sha256_hex(cached);
            str_eq(actual.as_str(), e.as_str())
        },
    }
}

/// Whether `bytes` carry the expected digest, written in lower-case hexadecimal.
pub open spec fn digest_matches(bytes: Seq<u8>, expected: Seq<char>) -> bool {
    hex_of(sha256_of(bytes)) == expected
}

/// What a worker makes of the binary `fetched` that it asked the master for: without
/// one, the run fails; with one whose digest is not the expected one, too; otherwise it
/// runs it.
pub open spec fn fetch_outcome(wasm_path: Seq<char>, fetched: Option<Seq<u8>>, expected: Option<Seq<char>>) -> Result<Seq<u8>, Seq<char>> {
    match fetched {
        None => Err("Failed to download WASM file: "@ + wasm_path),
        Some(b) => match expected {
            None => Ok(b),
            Some(e) => if digest_matches(b, e) {
                Ok(b)
            } else {
                Err("SHA256 mismatch for downloaded WASM "@ + wasm_path + ": expected "@ + e + ", got "@
                    + hex_of(sha256_of(b)) + "."@)
            },
        },
    }
}

/// Optional bytes, by value.
pub open spec fn opt_bytes(o: Option<Vec<u8>>) -> Option<Seq<u8>> {
    match o {
        Some(b) => Some(b@),
        None => None,
    }
}

/// What a worker does with the binary it asked the master for.
pub fn accept_fetched_binary(wasm_path: &str, fetched: Option<Vec<u8>>, expected: &Option<String>) -> (r: Result<Vec<u8>, String>)
    ensures
        match r {
            Ok(x) => fetch_outcome(wasm_path@, opt_bytes(fetched), opt_view(*expected)) == Ok::<Seq<u8>, Seq<char>>(x@),
            Err(m) => fetch_outcome(wasm_path@, opt_bytes(fetched), opt_view(*expected)) == Err::<Seq<u8>, Seq<char>>(m@),
        },
{
    match fetched {
        None => {
            let mut m = String::from_str("Failed to download WASM file: ");
            m.append(wasm_path);
            Err(m)
        },
        Some(b) => match expected {
            None => Ok(b),
            Some(e) => {
                let actual = sha256_hex(b.as_slice());
                if str_eq(actual.as_str(), e.as_str()) {
                    Ok(b)
                } else {
                    let mut m = String::from_str("SHA256 mismatch for downloaded WASM ");
                    m.append(wasm_path);
                    m.append(": expected ");
                    m.append(e.as_str());
                    m.append(", got ");
                    m.append(actual.as_str());
                    m.append(".");
                    Err(m)
                }
            },
        },
    }
}

/// A worker runs only what it was sent, and only binaries that carry the digest the
/// master expects: a cached binary is used only when it has that digest, and a fetched
/// one is accepted only when it is the one received and has that digest.
pub proof fn lemma_worker_runs_verified(wasm_path: Seq<char>, cached: Seq<u8>, fetched: Option<Seq<u8>>, expected: Option<Seq<char>>)
    ensures
        cache_usable(expected, cached) ==> (expected matches Some(e) ==> hex_of(sha256_of(cached)) == e),
        fetch_outcome(wasm_path, fetched, expected) matches Ok(b) ==> fetched == Some(b) && (expected matches Some(e)
            ==> hex_of(sha256_of(b)) == e),
{
}

/// Where a task's binary is read from.
#[derive(Debug)]
pub enum WasmSource {
    /// Downloaded over HTTPS from this URL.
    Download(String),
    /// Read from this file.
    File(String),
}

/// `dir` joined with the relative path `rest`, as `Path::join` does on Unix: a separator
/// is put between them unless `dir` is empty or already ends in one.
pub open spec fn joined(dir: Seq<char>, rest: Seq<char>) -> Seq<char> {
    if dir.len() == 0 || dir.last() == '/' {
        dir + rest
    } else {
        dir + seq!['/'] + rest
    }
}

/// Where the binary `wasm_path` is read from: an `https://` URL is downloaded; an absolute
/// path is read as it is; any other path is read under the plugins directory.
pub open spec fn wasm_source_of(wasm_path: Seq<char>, plugins_dir: Seq<char>) -> (bool, Seq<char>) {
    if has_prefix(wasm_path, "https://"@) {
        (true, wasm_path)
    } else if has_prefix(wasm_path, "/"@) {
        (false, wasm_path)
    } else {
        (false, joined(plugins_dir, wasm_path))
    }
}

/// Where the binary `wasm_path` is read from.
pub fn wasm_source(wasm_path: &str, plugins_dir: &str) -> (src: WasmSource)
    ensures
        match src {
            WasmSource::Download(u) => wasm_source_of(wasm_path@, plugins_dir@) == (true, u@),
            WasmSource::File(p) => wasm_source_of(wasm_path@, plugins_dir@) == (false, p@),
        },
{
    if starts_with(wasm_path, "https://") {
        return WasmSource::Download(String::from_str(wasm_path));
    }
    if starts_with(wasm_path, "/") {
        return WasmSource::File(String::from_str(wasm_path));
    }
    let d = chars_of(plugins_dir);
    let mut p = String::from_str(plugins_dir);
    if d.len() > 0 && d[d.len() - 1] != '/' {
        p.push('/');
    }
    p.append(wasm_path);
    WasmSource::File(p)
}

/// How a WASM task is carried out: handed to a worker, or run by the master itself.
pub enum WasmRun {
    Delegate(RunRequest),
    Local,
}

impl<M> Scheduler<M> {
    /// How a WASM task runs now: with workers connected, it is handed to one of them
    /// with everything it needs; without, the master runs it.
    pub fn wasm_run_plan(
        &self,
        wasm_path: &str,
        expected_sha256: &Option<String>,
        task_name: &str,
        args: Option<Vec<String>>,
        env: &Option<Vec<(String, String)>>,
        log_id: u128,
        task_id: u128,
    ) -> (r: WasmRun)
        ensures
            self.num_workers > 0 ==> (r matches WasmRun::Delegate(q) && q.wasm_path@ == wasm_path@
                && q.expected_sha256 == *expected_sha256 && q.task_name@ == task_name@ && q.args == args
                && same_opt_vec(q.env, *env) && q.log_id == log_id && q.task_id == task_id),
            self.num_workers == 0 ==> r is Local,
    {
        if self.num_workers() > 0 {
            WasmRun::Delegate(RunRequest {
                wasm_path: String::from_str(wasm_path),
                expected_sha256: copy_opt_string(expected_sha256),
                task_name: String::from_str(task_name),
                args,
                env: copy_opt_env(env),
                log_id,
                task_id,
            })
        } else {
            WasmRun::Local
        }
    }
}

} // verus!
