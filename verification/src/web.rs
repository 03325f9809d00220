//! Decisions behind the dashboard: who may see a page, how a task's state and the age of
//! its last run are shown, how long lists are paged, and how requests from tasks and
//! connecting workers are answered.
use vstd::prelude::*;
use crate::scheduler::Scheduler;
use crate::task::{TaskStatus, opt_str_view, opt_view, parse_rfc3339_local, rfc3339_parsed};
use crate::text::{
    chars_of, contains_seq, contains_str, decimal, first_occurrence_from, find_from, has_prefix,
    lemma_first_occurrence,
    push_decimal, starts_with, str_eq, string_from_range, trim_range, trimmed,
};

verus! {

/// What the dashboard does with a request to a protected route.
#[derive(Debug)]
pub enum Access {
    /// Serve it.
    Allow,
    /// Answer 401 "Unauthorized".
    Unauthorized,
    /// Send the browser to the login page.
    RedirectToLogin,
}

/// The access rule: the task RPC endpoint, a signed-in session and an accepted API key
/// are let through; otherwise API calls, the event stream, toggles, runs and deletions
/// are refused and pages redirect to the login page.
pub open spec fn access_for(path: Seq<char>, is_delete: bool, signed_in: bool, key_ok: bool) -> Access {
    if path == "/api/rpc"@ || signed_in || key_ok {
        Access::Allow
    } else if has_prefix(path, "/api/"@) || path == "/events"@ || contains_seq(path, "/toggle"@)
        || contains_seq(path, "/run"@) || is_delete {
        Access::Unauthorized
    } else {
        Access::RedirectToLogin
    }
}

/// Whether the scheduler's API key check accepts `key`.
pub open spec fn key_accepted(configured: Option<String>, key: Seq<char>) -> bool {
    match configured {
        Some(expected) => expected@ == key,
        None => true,
    }
}

/// The unified authentication rule: apart from the task RPC endpoint, which checks its
/// own tokens, a protected route is served exactly when the request has a signed-in
/// session or an accepted API key; a refused API call, event stream, toggle, run or
/// deletion gets 401, and any other refused page is sent to the login page.
pub proof fn lemma_access_rule(path: Seq<char>, is_delete: bool, signed_in: bool, key_ok: bool)
    requires
        path != "/api/rpc"@,
    ensures
        access_for(path, is_delete, signed_in, key_ok) is Allow <==> signed_in || key_ok,
        !(signed_in || key_ok) ==> (access_for(path, is_delete, signed_in, key_ok) is Unauthorized <==> (
            has_prefix(path, "/api/"@) || path == "/events"@ || contains_seq(path, "/toggle"@)
            || contains_seq(path, "/run"@) || is_delete)),
{
}

impl<M> Scheduler<M> {
    /// Decides a request to a protected route from its path, whether it is a DELETE,
    /// whether its session is signed in, and the `X-API-Key` header it carries.
    pub fn authorize_request(&self, path: &str, is_delete: bool, signed_in: bool, api_key: Option<&str>) -> (a: Access)
        ensures
            a == access_for(path@, is_delete, signed_in, match api_key {
                Some(k) => key_accepted(self.api_key, k@),
                None => false,
            }),
    {
        let key_ok = match api_key {
            Some(k) => self.verify_api_key(k),
            None => false,
        };
        if str_eq(path, "/api/rpc") || signed_in || key_ok {
            return Access::Allow;
        }
        if starts_with(path, "/api/") || str_eq(path, "/events") || contains_str(path, "/toggle")
            || contains_str(path, "/run") || is_delete {
            Access::Unauthorized
        } else {
            Access::RedirectToLogin
        }
    }
}

/// The state a task's status badge shows.
#[derive(Debug)]
pub enum BadgeState {
    Running,
    Paused,
    Idle,
    Failed,
}

/// A task's status badge: its state and its text. A click on it opens the log of the
/// task's last run, when there is one (`TaskStatus::last_log_id`).
pub struct Badge {
    pub state: BadgeState,
    pub text: String,
}

/// `word`, followed by ` (host)` when a last host is known.
pub open spec fn with_host(word: Seq<char>, host: Option<String>) -> Seq<char> {
    match host {
        Some(h) => word + " ("@ + h@ + ")"@,
        None => word,
    }
}

/// The badge of task `t`: running on its current host; else paused when disabled; else
/// failed or idle after its last run, naming the host of that run when known.
pub open spec fn badge_of(t: TaskStatus) -> (BadgeState, Seq<char>) {
    match t.host {
        Some(h) => (BadgeState::Running, "Running on "@ + h@),
        None => if !t.enabled {
            (BadgeState::Paused, "Paused"@)
        } else if t.last_failed {
            (BadgeState::Failed, with_host("Failed"@, t.last_host))
        } else {
            (BadgeState::Idle, with_host("Idle"@, t.last_host))
        },
    }
}

fn word_with_host(word: &str, host: &Option<String>) -> (s: String)
    ensures
        s@ == with_host(word@, *host),
{
    let mut s = String::from_str(word);
    match host {
        Some(h) => {
            s.append(" (");
            s.append(h.as_str());
            s.append(")");
        },
        None => {},
    }
    s
}

/// The status badge of a task.
pub fn status_badge(t: &TaskStatus) -> (b: Badge)
    ensures
        (b.state, b.text@) == badge_of(*t),
{
    match &t.host {
        Some(h) => {
            let mut text = String::from_str("Running on ");
            text.append(h.as_str());
            Badge { state: BadgeState::Running, text }
        },
        None => {
            if !t.enabled {
                Badge { state: BadgeState::Paused, text: String::from_str("Paused") }
            } else if t.last_failed {
                Badge { state: BadgeState::Failed, text: word_with_host("Failed", &t.last_host) }
            } else {
                Badge { state: BadgeState::Idle, text: word_with_host("Idle", &t.last_host) }
            }
        },
    }
}

/// How long ago something happened, as the dashboard words it.
#[derive(Debug)]
pub enum Age {
    /// In the future by a second or more.
    JustNow,
    Seconds(u64),
    Minutes(u64),
    Hours(u64),
    /// A day or more: the date and time are shown instead.
    Older,
}

/// Names the whole seconds from instant `then` to instant `now` (each (Unix seconds,
/// nanoseconds)), as chrono's `signed_duration_since` and `num_seconds` count them;
/// `None` when chrono cannot represent one of them.
pub uninterp spec fn elapsed_seconds(then: (i64, u32), now: (i64, u32)) -> Option<i64>;

/// `DateTime::from_timestamp` of both instants, then `now.signed_duration_since(then)`
/// and `num_seconds` (whole seconds, rounded toward zero, leap seconds counted as chrono
/// counts them). Claims only that the result is the named `elapsed_seconds`.
#[verifier::external_body]
fn seconds_between(then: (i64, u32), now: (i64, u32)) -> (r: Option<i64>)
    ensures
        r == elapsed_seconds(then, now),
{
    let then = chrono::DateTime::from_timestamp(then.0, then.1)?;
    let now = chrono::DateTime::from_timestamp(now.0, now.1)?;
    Some(now.signed_duration_since(then).num_seconds())
}

/// The age shown for `secs` whole seconds.
pub open spec fn age_of(secs: int) -> Age {
    if secs < 0 {
        Age::JustNow
    } else if secs < 60 {
        Age::Seconds(secs as u64)
    } else if secs / 60 < 60 {
        Age::Minutes((secs / 60) as u64)
    } else if secs / 3600 < 24 {
        Age::Hours((secs / 3600) as u64)
    } else {
        Age::Older
    }
}

/// The age of an event `secs` whole seconds old.
pub fn age_at(secs: i64) -> (a: Age)
    ensures
        a == age_of(secs as int),
{
    if secs < 0 {
        Age::JustNow
    } else if secs < 60 {
        Age::Seconds(secs as u64)
    } else if secs / 60 < 60 {
        Age::Minutes((secs / 60) as u64)
    } else if secs / 3600 < 24 {
        Age::Hours((secs / 3600) as u64)
    } else {
        Age::Older
    }
}

/// The text shown for the last run `last_run` (RFC 3339) at the instant `now`: "Never"
/// when there is none or it does not parse (or `now` is no instant chrono can hold), else
/// its age, or its local date and time when it is a day old or more.
pub open spec fn relative_text(last_run: Option<Seq<char>>, now: (i64, u32)) -> Seq<char> {
    match last_run {
        None => "Never"@,
        Some(s) => match rfc3339_parsed(s) {
            None => "Never"@,
            Some((then, local)) => match elapsed_seconds(then, now) {
                None => "Never"@,
                Some(secs) => match age_of(secs as int) {
                    Age::JustNow => "Just now"@,
                    Age::Seconds(n) => decimal(n as nat) + "s ago"@,
                    Age::Minutes(n) => decimal(n as nat) + "m ago"@,
                    Age::Hours(n) => decimal(n as nat) + "h ago"@,
                    Age::Older => local,
                },
            },
        },
    }
}

fn count_ago(n: u64, unit: &str) -> (s: String)
    ensures
        s@ == decimal(n as nat) + unit@,
{
    let mut s = String::new();
    push_decimal(&mut s, n);
    s.append(unit);
    s
}

/// The text shown for a last run at the instant `now`.
pub fn relative_time_at(last_run: &Option<String>, now: (i64, u32)) -> (s: String)
    ensures
        s@ == relative_text(opt_view(*last_run), now),
{
    match last_run {
        None => String::from_str("Never"),
        Some(r) => match parse_rfc3339_local(r.as_str()) {
            None => String::from_str("Never"),
            Some((then, local)) => match seconds_between(then, now) {
                None => String::from_str("Never"),
                Some(secs) => match age_at(secs) {
                    Age::JustNow => String::from_str("Just now"),
                    Age::Seconds(n) => count_ago(n, "s ago"),
                    Age::Minutes(n) => count_ago(n, "m ago"),
                    Age::Hours(n) => count_ago(n, "h ago"),
                    Age::Older => local,
                },
            },
        },
    }
}

/// The text shown for a last run now: the clock is read once, and the text is the one
/// `relative_time_at` gives for some instant.
pub fn format_relative_time(last_run: &Option<String>) -> (s: String)
    ensures
        exists|now: (i64, u32)| s@ == #[trigger] relative_text(opt_view(*last_run), now),
{
    let now = crate::task::now_instant();
    relative_time_at(last_run, now)
}

/// The controls on a task's row of the status page.
pub struct TaskControls {
    /// Whether the "Run" button is shown.
    pub run_shown: bool,
    /// The toggle button's label.
    pub toggle_label: String,
    /// The enabled flag that the toggle button asks for.
    pub toggle_to: bool,
}

/// The controls of a task that is `enabled` or not: an enabled task can be run now or
/// disabled; a disabled one can only be enabled.
pub fn task_controls(enabled: bool) -> (c: TaskControls)
    ensures
        c.run_shown == enabled,
        c.toggle_to == !enabled,
        c.toggle_label@ == if enabled { "Disable"@ } else { "Enable"@ },
{
    if enabled {
        TaskControls { run_shown: true, toggle_label: String::from_str("Disable"), toggle_to: false }
    } else {
        TaskControls { run_shown: false, toggle_label: String::from_str("Enable"), toggle_to: true }
    }
}

/// How many rows a dashboard page lists.
pub const PAGE_SIZE: usize = 50;

/// The rows of one page of a list: page `page` (from 1) lists `limit` rows from `offset`.
pub struct PageWindow {
    pub page: usize,
    pub limit: usize,
    pub offset: usize,
}

/// The rows of the requested page; a request without a page asks for the first.
pub fn page_window(page: Option<usize>) -> (w: PageWindow)
    requires
        match page {
            Some(p) => 1 <= p && (p - 1) * 50 <= usize::MAX,
            None => true,
        },
    ensures
        w.page == match page {
            Some(p) => p,
            None => 1,
        },
        w.limit == PAGE_SIZE,
        w.offset == (w.page - 1) * PAGE_SIZE,
{
    let p = match page {
        Some(p) => p,
        None => 1,
    };
    PageWindow { page: p, limit: PAGE_SIZE, offset: (p - 1) * PAGE_SIZE }
}

/// The pager under a list of `total` rows, shown on page `w`.
pub struct Pager {
    /// The number of pages: `total` divided by the page size, rounded up.
    pub total_pages: usize,
    /// Whether the pager is shown at all: only for more than one page.
    pub shown: bool,
    /// The first and last row numbers shown (from 1; both 0 for an empty list, and when
    /// the pager is hidden).
    pub first_row: usize,
    pub last_row: usize,
    /// The page the "Previous" and "Next" links lead to, when there is one.
    pub previous: Option<usize>,
    pub next: Option<usize>,
}

/// The pager for page `w` of a list of `total` rows.
pub fn pager(w: &PageWindow, total: usize) -> (p: Pager)
    requires
        w.limit > 0,
        total + w.limit - 1 <= usize::MAX,
        (total + w.limit - 1) / (w.limit as int) > 1 ==> w.offset + w.limit <= usize::MAX,
    ensures
        p.total_pages == (total + w.limit - 1) / (w.limit as int),
        p.shown == (p.total_pages > 1),
        p.first_row == if !p.shown || total == 0 { 0 } else { w.offset + 1 },
        p.last_row == if !p.shown { 0 } else if w.offset + w.limit < total { w.offset + w.limit } else { total as int },
        p.previous == if w.page > 1 { Some((w.page - 1) as usize) } else { None::<usize> },
        p.next == if w.page < p.total_pages { Some((w.page + 1) as usize) } else { None::<usize> },
{
    let total_pages = (total + (w.limit - 1)) / w.limit;
    let shown = total_pages > 1;
    let first_row = if !shown || total == 0 { 0 } else { w.offset + 1 };
    let last_row = if !shown { 0 } else if w.offset + w.limit < total { w.offset + w.limit } else { total };
    let previous = if w.page > 1 { Some(w.page - 1) } else { None };
    let next = if w.page < total_pages { Some(w.page + 1) } else { None };
    Pager { total_pages, shown, first_row, last_row, previous, next }
}

/// The page count covers every row and no more: `pages` pages of `limit` rows hold
/// `total` rows, and one page less would not.
pub proof fn lemma_page_count(total: nat, limit: nat)
    requires
        limit > 0,
    ensures
        ((total + limit - 1) / (limit as int)) * limit >= total,
        total > 0 ==> ((total + limit - 1) / (limit as int) - 1) * limit < total,
{
    let pages = (total + limit - 1) / (limit as int);
    assert(pages * limit >= total && (total > 0 ==> (pages - 1) * limit < total)) by (nonlinear_arith)
        requires
            limit > 0,
            pages == (total + limit - 1) / (limit as int),
    {
        let r = (total + limit - 1) % (limit as int);
        assert(total + limit - 1 == pages * limit + r);
        assert(0 <= r < limit);
    }
}

/// A "Next" link appears exactly when rows remain after the page shown: for page `page`
/// (from 1) of `limit` rows, the page is before the last one just when its rows end before
/// the `total` rows do.
pub proof fn lemma_next_iff_more_rows(page: nat, limit: nat, total: nat)
    requires
        page >= 1,
        limit > 0,
    ensures
        (page < (total + limit - 1) / (limit as int)) <==> ((page - 1) * limit + limit < total),
{
    let pages = (total + limit - 1) / (limit as int);
    lemma_page_count(total, limit);
    if total == 0 {
        assert(pages == 0) by (nonlinear_arith)
            requires
                limit > 0,
                pages == (limit - 1) / (limit as int),
        {
        }
    }
    if page < pages {
        assert(page * limit < total) by (nonlinear_arith)
            requires
                page < pages,
                limit > 0,
                total > 0,
                (pages - 1) * limit < total,
        {
            assert(page * limit <= (pages - 1) * limit);
        }
    } else {
        assert(page * limit >= total) by (nonlinear_arith)
            requires
                page >= pages,
                limit > 0,
                pages * limit >= total,
        {
            assert(page * limit >= pages * limit);
        }
    }
    assert((page - 1) * limit + limit == page * limit) by (nonlinear_arith);
}

/// What an HTML attribute value holds for the character `c`: `&` and `'` are escaped.
pub open spec fn escape_char(c: char) -> Seq<char> {
    if c == '&' {
        seq!['&', 'a', 'm', 'p', ';']
    } else if c == '\'' {
        seq!['&', '#', '3', '9', ';']
    } else {
        seq![c]
    }
}

/// `s` escaped for a single-quoted HTML attribute.
pub open spec fn escaped(s: Seq<char>) -> Seq<char>
    decreases s.len(),
{
    if s.len() == 0 {
        Seq::empty()
    } else {
        escaped(s.drop_last()) + escape_char(s.last())
    }
}

/// `s` escaped for a single-quoted HTML attribute: `&` becomes `&amp;`, then `'` becomes
/// `&#39;`.
pub fn escape_attribute(s: &str) -> (r: String)
    ensures
        r@ == escaped(s@),
{
    let v = chars_of(s);
    let mut r = String::new();
    let mut i: usize = 0;
    while i < v.len()
        invariant
            v@ == s@,
            i <= v@.len(),
            r@ == escaped(v@.subrange(0, i as int)),
        decreases v@.len() - i,
    {
        let c = v[i];
        let ghost before = r@;
        if c == '&' {
            r.push('&');
            r.push('a');
            r.push('m');
            r.push('p');
            r.push(';');
        } else if c == '\'' {
            r.push('&');
            r.push('#');
            r.push('3');
            r.push('9');
            r.push(';');
        } else {
            r.push(c);
        }
        assert(v@.subrange(0, i + 1).drop_last() =~= v@.subrange(0, i as int));
        assert(r@ =~= before + escape_char(c));
        i = i + 1;
    }
    assert(v@.subrange(0, v@.len() as int) =~= s@);
    r
}

/// An escaped text holds no single quote, so it cannot end the attribute it stands in.
pub proof fn lemma_escaped_has_no_quote(s: Seq<char>)
    ensures
        !escaped(s).contains('\''),
    decreases s.len(),
{
    if s.len() > 0 {
        lemma_escaped_has_no_quote(s.drop_last());
        let e = escape_char(s.last());
        assert(!e.contains('\'')) by {
            if e.contains('\'') {
                let k = choose|k: int| 0 <= k < e.len() && e[k] == '\'';
                assert(e[k] == '\'');
            }
        }
        assert forall|k: int| 0 <= k < escaped(s).len() implies escaped(s)[k] != '\'' by {
            let a = escaped(s.drop_last());
            if k < a.len() {
                assert(escaped(s)[k] == a[k]);
                assert(!a.contains('\''));
            } else {
                assert(escaped(s)[k] == e[k - a.len()]);
            }
        }
    }
}

/// `s` up to its first comma (all of it when it holds none).
pub open spec fn before_comma(s: Seq<char>) -> Seq<char> {
    match first_occurrence_from(s, seq![','], 0) {
        Some(i) => s.subrange(0, i),
        None => s,
    }
}

/// The address a request comes from: the first entry of its `X-Forwarded-For` header,
/// trimmed, or else the address of the peer.
pub open spec fn client_address_of(forwarded: Option<Seq<char>>, peer: Seq<char>) -> Seq<char> {
    match forwarded {
        Some(h) => trimmed(before_comma(h)),
        None => peer,
    }
}

/// The address a request comes from, given its `X-Forwarded-For` header (when present
/// and readable) and the address of the peer.
pub fn client_address(forwarded: Option<&str>, peer: &str) -> (a: String)
    ensures
        a@ == client_address_of(opt_str_view(forwarded), peer@),
{
    match forwarded {
        None => String::from_str(peer),
        Some(h) => {
            let v = chars_of(h);
            let mut comma: Vec<char> = Vec::new();
            comma.push(',');
            assert(comma@ =~= seq![',']);
            let end = match find_from(&v, &comma, 0) {
                Some(i) => {
                    proof {
                        lemma_first_occurrence(v@, comma@, 0);
                    }
                    i
                },
                None => v.len(),
            };
            let r = trim_range(&v, 0, end);
            assert(before_comma(h@) =~= v@.subrange(0, end as int));
            r
        },
    }
}

/// Checks the `state` that GitHub hands back against the token kept in the session.
pub fn check_oauth_state(session_token: Option<&str>, state: &str) -> (r: Result<(), String>)
    ensures
        match session_token {
            None => r matches Err(e) && e@ == "Invalid state: session token missing. Ensure cookies are enabled and you are using the same browser tab."@,
            Some(t) => if t@ == state@ {
                r is Ok
            } else {
                r matches Err(e) && e@ == "Invalid state: token mismatch."@
            },
        },
{
    match session_token {
        None => Err(String::from_str("Invalid state: session token missing. Ensure cookies are enabled and you are using the same browser tab.")),
        Some(t) => if str_eq(t, state) {
            Ok(())
        } else {
            Err(String::from_str("Invalid state: token mismatch."))
        },
    }
}

/// The characters that `urlencoding` leaves as they are: ASCII letters and digits, and
/// `-`, `_`, `.`, `~`.
pub open spec fn url_unreserved(c: char) -> bool {
    ('a' <= c <= 'z') || ('A' <= c <= 'Z') || ('0' <= c <= '9') || c == '-' || c == '_' || c == '.'
        || c == '~'
}

/// Whether `c` is an ASCII letter or digit.
pub open spec fn ascii_alphanumeric(c: char) -> bool {
    ('a' <= c <= 'z') || ('A' <= c <= 'Z') || ('0' <= c <= '9')
}

/// Names the text that `urlencoding::encode` makes of a text.
pub uninterp spec fn url_encoded(s: Seq<char>) -> Seq<char>;

/// `urlencoding::encode`: percent-encodes every byte of the text's UTF-8 form except
/// ASCII letters, digits, `-`, `_`, `.` and `~`. Claims that the result is the named
/// `url_encoded` of the text, and, as the crate documents, that a text made only of the
/// characters it leaves alone comes back unchanged.
#[verifier::external_body]
fn url_encode(s: &str) -> (r: String)
    ensures
        r@ == url_encoded(s@),
        (forall|i: int| 0 <= i < s@.len() ==> url_unreserved(#[trigger] s@[i])) ==> r@ == s@,
{
    urlencoding::encode(s).into_owned()
}

/// A random text of `n` ASCII letters and digits (`rand::distr::Alphanumeric`'s
/// `sample_string`). Claims only its length and its alphabet, as rand documents them.
#[verifier::external_body]
pub(crate) fn random_alphanumeric(n: usize) -> (s: String)
    ensures
        s@.len() == n,
        forall|i: int| 0 <= i < s@.len() ==> ascii_alphanumeric(#[trigger] s@[i]),
{
    rand::distr::SampleString::sample_string(&rand::distr::Alphanumeric, &mut rand::rng(), n)
}

/// The GitHub authorization URL for the app `client_id`, returning to `redirect_url`
/// with the anti-forgery token `state`.
pub open spec fn authorize_url_of(client_id: Seq<char>, redirect_url: Seq<char>, state: Seq<char>) -> Seq<char> {
    "https://github.com/login/oauth/authorize?client_id="@ + client_id + "&redirect_uri="@
        + url_encoded(redirect_url) + "&state="@ + url_encoded(state) + "&scope=user:email"@
}

/// The GitHub authorization URL.
pub fn authorize_url(client_id: &str, redirect_url: &str, state: &str) -> (u: String)
    ensures
        u@ == authorize_url_of(client_id@, redirect_url@, state@),
        (forall|i: int| 0 <= i < state@.len() ==> url_unreserved(#[trigger] state@[i]))
            ==> url_encoded(state@) == state@,
{
    let mut u = String::from_str("https://github.com/login/oauth/authorize?client_id=");
    u.append(client_id);
    u.append("&redirect_uri=");
    let r = url_encode(redirect_url);
    u.append(r.as_str());
    u.append("&state=");
    let s = url_encode(state);
    u.append(s.as_str());
    u.append("&scope=user:email");
    u
}

/// The start of a GitHub login: the anti-forgery token to keep in the session and the
/// URL to send the browser to.
pub struct LoginStart {
    pub state: String,
    pub url: String,
}

/// Starts a GitHub login: draws a fresh token of 32 letters and digits and builds the
/// authorization URL that carries it.
pub fn begin_login(client_id: &str, redirect_url: &str) -> (l: LoginStart)
    ensures
        l.state@.len() == 32,
        forall|i: int| 0 <= i < 32 ==> ascii_alphanumeric(#[trigger] l.state@[i]),
        l.url@ == authorize_url_of(client_id@, redirect_url@, l.state@),
        url_encoded(l.state@) == l.state@,
{
    let state = random_alphanumeric(32);
    let url = authorize_url(client_id, redirect_url, state.as_str());
    assert forall|i: int| 0 <= i < state@.len() implies url_unreserved(#[trigger] state@[i]) by {
        assert(ascii_alphanumeric(state@[i]));
    }
    LoginStart { state, url }
}

/// What a task's JSON-RPC request over HTTP asks for, once its token has been checked.
#[derive(Debug)]
pub enum TaskRpcDecision {
    /// The token is not valid for the task.
    Denied,
    /// Read the task's value under `key`.
    KvGet { key: String },
    /// Store `value` under `key` for the task.
    KvSet { key: String, value: String },
    /// A method the host does not offer.
    MethodNotFound,
}

/// A missing text parameter reads as empty.
pub open spec fn or_empty(o: Option<&str>) -> Seq<char> {
    match o {
        Some(s) => s@,
        None => Seq::empty(),
    }
}

fn text_or_empty(o: Option<&str>) -> (s: String)
    ensures
        s@ == or_empty(o),
{
    match o {
        Some(t) => String::from_str(t),
        None => String::new(),
    }
}

/// Decides a task's JSON-RPC request from whether its token checks out and from its
/// `method`, `key` and `value` (each present when it is a string; a missing one reads as
/// empty).
pub fn decide_task_rpc(token_ok: bool, method: Option<&str>, key: Option<&str>, value: Option<&str>) -> (d: TaskRpcDecision)
    ensures
        !token_ok ==> d is Denied,
        token_ok ==> if or_empty(method) == "kv_get"@ {
            d matches TaskRpcDecision::KvGet { key: k } && k@ == or_empty(key)
        } else if or_empty(method) == "kv_set"@ {
            d matches TaskRpcDecision::KvSet { key: k, value: v } && k@ == or_empty(key) && v@ == or_empty(value)
        } else {
            d is MethodNotFound
        },
{
    if !token_ok {
        return TaskRpcDecision::Denied;
    }
    let m = text_or_empty(method);
    if str_eq(m.as_str(), "kv_get") {
        TaskRpcDecision::KvGet { key: text_or_empty(key) }
    } else if str_eq(m.as_str(), "kv_set") {
        TaskRpcDecision::KvSet { key: text_or_empty(key), value: text_or_empty(value) }
    } else {
        TaskRpcDecision::MethodNotFound
    }
}

/// The HTTP status, JSON-RPC error code and message with which a refused task request is
/// answered; none for a request that is carried out.
pub fn task_rpc_error(d: &TaskRpcDecision) -> (e: Option<(u16, i64, String)>)
    ensures
        match *d {
            TaskRpcDecision::Denied => e matches Some((st, code, msg)) && st == 401 && code == -32000
                && msg@ == "Invalid or expired task token"@,
            TaskRpcDecision::MethodNotFound => e matches Some((st, code, msg)) && st == 404 && code == -32601
                && msg@ == "Method not found"@,
            _ => e is None,
        },
{
    match d {
        TaskRpcDecision::Denied => Some((401, -32000, String::from_str("Invalid or expired task token"))),
        TaskRpcDecision::MethodNotFound => Some((404, -32601, String::from_str("Method not found"))),
        _ => None,
    }
}

/// Where a connecting worker comes from: its host name and its address.
pub struct WorkerOrigin {
    pub hostname: String,
    pub addr: String,
}

impl<M> Scheduler<M> {
    /// Admits a worker that connects with the `X-API-Key`, `X-Worker-Hostname` and
    /// `X-Forwarded-For` headers given (each when present and readable) from `peer`:
    /// refused unless its key (empty when missing) is accepted; a worker without a host
    /// name is called "unknown".
    pub fn admit_worker(&self, api_key: Option<&str>, hostname: Option<&str>, forwarded: Option<&str>, peer: &str) -> (o: Option<WorkerOrigin>)
        ensures
            o is Some <==> key_accepted(self.api_key, or_empty(api_key)),
            o matches Some(w) ==> w.hostname@ == match hostname {
                Some(h) => h@,
                None => "unknown"@,
            } && w.addr@ == client_address_of(opt_str_view(forwarded), peer@),
    {
        let key = text_or_empty(api_key);
        if !self.verify_api_key(key.as_str()) {
            return None;
        }
        let hostname = match hostname {
            Some(h) => String::from_str(h),
            None => String::from_str("unknown"),
        };
        Some(WorkerOrigin { hostname, addr: client_address(forwarded, peer) })
    }
}

/// How the signed-in user is pictured in the page header.
pub enum Avatar {
    /// Their GitHub avatar, with their login as its alternative text.
    Image { url: String, alt: String },
    /// The first letter of their login, upper-cased.
    Initial(String),
}

/// The signed-in user as the page header shows them.
pub struct UserBadge {
    pub login: String,
    pub avatar: Avatar,
}

/// Names the text that `char::to_uppercase` makes of a character.
pub uninterp spec fn char_uppercase(c: char) -> Seq<char>;

/// `char::to_uppercase`, collected into a text. Claims only that the result is the named
/// `char_uppercase` of the character.
#[verifier::external_body]
fn uppercase_of(c: char) -> (s: String)
    ensures
        s@ == char_uppercase(c),
{
    c.to_uppercase().collect()
}

/// The login shown: the session's, or "Unknown".
pub open spec fn shown_login(login: Option<String>) -> Seq<char> {
    match login {
        Some(l) => l@,
        None => "Unknown"@,
    }
}

/// The page header's picture of the user whose session holds `login` and `avatar_url`:
/// the avatar when known, else the upper-cased first letter of the login shown ("U" for
/// an empty one).
pub fn user_badge(login: Option<String>, avatar_url: Option<String>) -> (b: UserBadge)
    ensures
        b.login@ == shown_login(login),
        match avatar_url {
            Some(u) => b.avatar matches Avatar::Image { url, alt } && url@ == u@ && alt@ == shown_login(login),
            None => b.avatar matches Avatar::Initial(i) && i@ == char_uppercase(
                if shown_login(login).len() > 0 { shown_login(login)[0] } else { 'U' },
            ),
        },
{
    let shown = match login {
        Some(l) => l,
        None => String::from_str("Unknown"),
    };
    match avatar_url {
        Some(u) => {
            let alt = String::from_str(shown.as_str());
            UserBadge { login: shown, avatar: Avatar::Image { url: u, alt } }
        },
        None => {
            let first = if shown.unicode_len() > 0 { shown.get_char(0) } else { 'U' };
            let initial = uppercase_of(first);
            UserBadge { login: shown, avatar: Avatar::Initial(initial) }
        },
    }
}

} // verus!
