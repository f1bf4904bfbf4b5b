use vstd::prelude::*;

use crate::config::AppConfig;
use crate::text::strs::{chars_eq, chars_eq_str, chars_of, is_ws, trim_ws, trimmed, CharSet};

verus! {

broadcast use vstd::string::group_string_axioms;

pub const COOKIE_NAME: &'static str = "share_clip_web_session";

pub const AUTH_STATUS_PENDING: i32 = 1;

pub const AUTH_STATUS_APPROVED: i32 = 2;

pub const AUTH_STATUS_REJECTED: i32 = 3;

pub const AUTH_STATUS_TIMEOUT: i32 = 4;

/// How long a web access request waits for a decision, in seconds.
pub const REQUEST_TTL_SECONDS: i64 = 600;

/// How long a decided request is kept, in seconds.
pub const DECIDED_REQUEST_KEEP_SECONDS: i64 = 3600;

/// Timestamps that the clock can report lie strictly between minus and plus
/// this bound (chrono's representable years give less than 2^44 seconds).
pub const TIMESTAMP_BOUND: i64 = 17592186044416;

/// What a web session may be used for.
#[derive(Debug, Clone, Copy, PartialEq, Eq, Structural, Hash)]
pub enum WebAccessScope {
    Files,
    ClipboardList,
    ClipboardContent,
    Download,
}

pub open spec fn scope_name(scope: WebAccessScope) -> Seq<char> {
    match scope {
        WebAccessScope::Files => "files"@,
        WebAccessScope::ClipboardList => "clipboard_list"@,
        WebAccessScope::ClipboardContent => "clipboard_content"@,
        WebAccessScope::Download => "download"@,
    }
}

pub open spec fn scope_label(scope: WebAccessScope) -> Seq<char> {
    match scope {
        WebAccessScope::Files => "文件共享"@,
        WebAccessScope::ClipboardList => "剪切板列表"@,
        WebAccessScope::ClipboardContent => "剪切板内容"@,
        WebAccessScope::Download => "文件下载"@,
    }
}

/// The scope that a (trimmed) name stands for.
pub open spec fn scope_named(name: Seq<char>) -> Option<WebAccessScope> {
    if name == "files"@ {
        Some(WebAccessScope::Files)
    } else if name == "clipboard_list"@ {
        Some(WebAccessScope::ClipboardList)
    } else if name == "clipboard_content"@ {
        Some(WebAccessScope::ClipboardContent)
    } else if name == "download"@ {
        Some(WebAccessScope::Download)
    } else {
        None
    }
}

impl WebAccessScope {
    /// The scope's name in requests and responses.
    pub fn as_str(self) -> (s: &'static str)
        ensures
            s@ == scope_name(self),
    {
        match self {
            WebAccessScope::Files => "files",
            WebAccessScope::ClipboardList => "clipboard_list",
            WebAccessScope::ClipboardContent => "clipboard_content",
            WebAccessScope::Download => "download",
        }
    }

    /// The scope's label for people.
    pub fn label(self) -> (s: &'static str)
        ensures
            s@ == scope_label(self),
    {
        match self {
            WebAccessScope::Files => "文件共享",
            WebAccessScope::ClipboardList => "剪切板列表",
            WebAccessScope::ClipboardContent => "剪切板内容",
            WebAccessScope::Download => "文件下载",
        }
    }

    /// The scope named by `value`, ignoring surrounding white space.
    pub fn from_name(value: &str) -> (r: Option<WebAccessScope>)
        ensures
            r == scope_named(trim_ws(value@)),
    {
        let t = trimmed(value);
        if chars_eq_str(&t, "files") {
            Some(WebAccessScope::Files)
        } else if chars_eq_str(&t, "clipboard_list") {
            Some(WebAccessScope::ClipboardList)
        } else if chars_eq_str(&t, "clipboard_content") {
            Some(WebAccessScope::ClipboardContent)
        } else if chars_eq_str(&t, "download") {
            Some(WebAccessScope::Download)
        } else {
            None
        }
    }
}

/// A scope's name reads back as that scope, also with white space around
/// it.
pub proof fn law_scope_name_reads_back(s: WebAccessScope, before: Seq<char>, after: Seq<char>)
    requires
        forall|i: int| 0 <= i < before.len() ==> is_ws(#[trigger] before[i]),
        forall|i: int| 0 <= i < after.len() ==> is_ws(#[trigger] after[i]),
    ensures
        scope_named(trim_ws(before + scope_name(s) + after)) == Some(s),
{
    reveal_strlit("files");
    reveal_strlit("clipboard_list");
    reveal_strlit("clipboard_content");
    reveal_strlit("download");
    let x = scope_name(s);
    assert(!is_ws(x[0]) && !is_ws(x.last()));
    crate::text::strs::lemma_trim_pad(before, x, after, CharSet::Whitespace);
    assert("files"@.len() == 5);
    assert("clipboard_list"@.len() == 14);
    assert("clipboard_content"@.len() == 17);
    assert("download"@.len() == 8);
    assert("files"@ != "clipboard_list"@);
    assert("files"@ != "clipboard_content"@);
    assert("files"@ != "download"@);
    assert("clipboard_list"@ != "clipboard_content"@);
    assert("clipboard_list"@ != "download"@);
    assert("clipboard_content"@ != "download"@);
}

// ---------------------------------------------------------------------------
// Scopes and settings
// ---------------------------------------------------------------------------

pub open spec fn scope_enabled(config: AppConfig, scope: WebAccessScope) -> bool {
    match scope {
        WebAccessScope::Files => config.web_access_scope_files,
        WebAccessScope::ClipboardList => config.web_access_scope_clipboard_list,
        WebAccessScope::ClipboardContent => config.web_access_scope_clipboard_content,
        WebAccessScope::Download => config.web_access_scope_download,
    }
}

pub open spec fn if_enabled(config: AppConfig, scope: WebAccessScope) -> Seq<WebAccessScope> {
    if scope_enabled(config, scope) {
        seq![scope]
    } else {
        Seq::<WebAccessScope>::empty()
    }
}

/// The enabled scopes, in their fixed order.
pub open spec fn enabled_scope_list(config: AppConfig) -> Seq<WebAccessScope> {
    if_enabled(config, WebAccessScope::Files) + if_enabled(config, WebAccessScope::ClipboardList)
        + if_enabled(config, WebAccessScope::ClipboardContent) + if_enabled(
        config,
        WebAccessScope::Download,
    )
}

/// Whether the settings allow `scope`.
pub fn is_scope_enabled(config: &AppConfig, scope: WebAccessScope) -> (r: bool)
    ensures
        r == scope_enabled(*config, scope),
{
    match scope {
        WebAccessScope::Files => config.web_access_scope_files,
        WebAccessScope::ClipboardList => config.web_access_scope_clipboard_list,
        WebAccessScope::ClipboardContent => config.web_access_scope_clipboard_content,
        WebAccessScope::Download => config.web_access_scope_download,
    }
}

/// The scopes that the settings allow.
pub fn enabled_scopes(config: &AppConfig) -> (r: Vec<WebAccessScope>)
    ensures
        r@ == enabled_scope_list(*config),
{
    let mut r: Vec<WebAccessScope> = Vec::new();
    if is_scope_enabled(config, WebAccessScope::Files) {
        r.push(WebAccessScope::Files);
    }
    if is_scope_enabled(config, WebAccessScope::ClipboardList) {
        r.push(WebAccessScope::ClipboardList);
    }
    if is_scope_enabled(config, WebAccessScope::ClipboardContent) {
        r.push(WebAccessScope::ClipboardContent);
    }
    if is_scope_enabled(config, WebAccessScope::Download) {
        r.push(WebAccessScope::Download);
    }
    assert(r@ =~= enabled_scope_list(*config));
    r
}

pub open spec fn no_scope_enabled_message() -> Seq<char> {
    "当前没有启用任何网页访问权限"@
}

pub open spec fn unknown_scope_message(name: Seq<char>) -> Seq<char> {
    "未知的网页访问权限: "@ + name
}

pub open spec fn disabled_scope_message(scope: WebAccessScope) -> Seq<char> {
    "网页访问权限未启用: "@ + scope_label(scope)
}

pub open spec fn no_scope_chosen_message() -> Seq<char> {
    "至少选择一个网页访问权限"@
}

/// Reads the requested scope names in order onto `acc`: the first unknown or
/// disabled name ends it with its message; a repeated scope is kept once.
pub open spec fn collect_scopes(
    names: Seq<Seq<char>>,
    config: AppConfig,
    acc: Seq<WebAccessScope>,
) -> Result<Seq<WebAccessScope>, Seq<char>>
    decreases names.len(),
{
    if names.len() == 0 {
        Ok(acc)
    } else {
        match scope_named(trim_ws(names[0])) {
            None => Err(unknown_scope_message(names[0])),
            Some(scope) => if !scope_enabled(config, scope) {
                Err(disabled_scope_message(scope))
            } else {
                collect_scopes(
                    names.drop_first(),
                    config,
                    if acc.contains(scope) {
                        acc
                    } else {
                        acc.push(scope)
                    },
                )
            },
        }
    }
}

/// The scopes that a web client asked for: all enabled scopes where it named
/// none, else the named ones, each of which must be known and enabled; the
/// result is never empty.
pub open spec fn requested_scopes(names: Option<Seq<Seq<char>>>, config: AppConfig) -> Result<
    Seq<WebAccessScope>,
    Seq<char>,
> {
    match names {
        None => if enabled_scope_list(config).len() == 0 {
            Err(no_scope_enabled_message())
        } else {
            Ok(enabled_scope_list(config))
        },
        Some(ns) => match collect_scopes(ns, config, Seq::<WebAccessScope>::empty()) {
            Err(m) => Err(m),
            Ok(s) => if s.len() == 0 {
                Err(no_scope_chosen_message())
            } else {
                Ok(s)
            },
        },
    }
}

pub open spec fn result_view(r: Result<Vec<WebAccessScope>, String>) -> Result<
    Seq<WebAccessScope>,
    Seq<char>,
> {
    match r {
        Ok(v) => Ok(v@),
        Err(e) => Err(e@),
    }
}

fn contains_scope(v: &Vec<WebAccessScope>, scope: WebAccessScope) -> (r: bool)
    ensures
        r == v@.contains(scope),
{
    let mut i: usize = 0;
    while i < v.len()
        invariant
            i <= v.len(),
            forall|j: int| 0 <= j < i ==> v@[j] != scope,
        decreases v.len() - i,
    {
        if v[i] == scope {
            assert(v@[i as int] == scope);
            return true;
        }
        i = i + 1;
    }
    false
}

/// Builds `prefix` followed by `rest` as a `String`.
fn message(prefix: &str, rest: &str) -> (r: String)
    ensures
        r@ == prefix@ + rest@,
{
    let mut s = String::from_str(prefix);
    s.append(rest);
    s
}

/// The scopes that a web client asked for, or why they cannot be granted.
pub fn scopes_from_optional_names(names: Option<&[String]>, config: &AppConfig) -> (r: Result<
    Vec<WebAccessScope>,
    String,
>)
    ensures
        result_view(r) == requested_scopes(
            match names {
                Some(ns) => Some(ns@.map_values(|n: String| n@)),
                None => None,
            },
            *config,
        ),
{
    let list = match names {
        None => {
            let scopes = enabled_scopes(config);
            if scopes.len() == 0 {
                return Err(String::from_str("当前没有启用任何网页访问权限"));
            } else {
                return Ok(scopes);
            }
        },
        Some(list) => list,
    };
    let ghost all = list@.map_values(|n: String| n@);
    let mut scopes: Vec<WebAccessScope> = Vec::new();
    let mut i: usize = 0;
    assert(all.skip(0) =~= all);
    while i < list.len()
        invariant
            i <= list.len(),
            names == Some(list),
            all == list@.map_values(|n: String| n@),
            collect_scopes(all, *config, Seq::<WebAccessScope>::empty()) == collect_scopes(
                all.skip(i as int),
                *config,
                scopes@,
            ),
        decreases list.len() - i,
    {
        let ghost rest = all.skip(i as int);
        assert(rest[0] == list@[i as int]@);
        assert(rest.drop_first() =~= all.skip(i + 1));
        let name = &list[i];
        let scope = match WebAccessScope::from_name(name.as_str()) {
            Some(scope) => scope,
            None => {
                return Err(message("未知的网页访问权限: ", name.as_str()));
            },
        };
        if !is_scope_enabled(config, scope) {
            let label = scope.label();
            let m = message("网页访问权限未启用: ", label);
            assert(m@ == disabled_scope_message(scope));
            return Err(m);
        }
        if !contains_scope(&scopes, scope) {
            scopes.push(scope);
        }
        i = i + 1;
    }
    assert(all.skip(list.len() as int) =~= Seq::<Seq<char>>::empty());
    if scopes.len() == 0 {
        Err(String::from_str("至少选择一个网页访问权限"))
    } else {
        Ok(scopes)
    }
}

/// The names of `scopes`, in order.
pub fn scope_names(scopes: &[WebAccessScope]) -> (r: Vec<String>)
    ensures
        r@.map_values(|s: String| s@) == scopes@.map_values(|s: WebAccessScope| scope_name(s)),
{
    let mut r: Vec<String> = Vec::new();
    let mut i: usize = 0;
    while i < scopes.len()
        invariant
            i <= scopes.len(),
            r@.map_values(|s: String| s@) == scopes@.map_values(
                |s: WebAccessScope| scope_name(s),
            ).take(i as int),
        decreases scopes.len() - i,
    {
        let ghost before = r@.map_values(|s: String| s@);
        r.push(String::from_str(scopes[i].as_str()));
        assert(r@.map_values(|s: String| s@) =~= before.push(scope_name(scopes@[i as int])));
        assert(scopes@.map_values(|s: WebAccessScope| scope_name(s)).take(i + 1) =~= scopes@.map_values(
            |s: WebAccessScope| scope_name(s),
        ).take(i as int).push(scope_name(scopes@[i as int])));
        i = i + 1;
    }
    assert(scopes@.map_values(|s: WebAccessScope| scope_name(s)).take(scopes.len() as int)
        =~= scopes@.map_values(|s: WebAccessScope| scope_name(s)));
    r
}


// ---------------------------------------------------------------------------
// Sessions and access requests
// ---------------------------------------------------------------------------

/// A granted web session.
pub struct WebSession {
    pub token: String,
    pub scopes: Vec<WebAccessScope>,
    pub created_at: i64,
    pub expires_at: i64,
}

/// A web client's request for access, waiting for or past a decision.
pub struct WebAccessRequest {
    pub id: String,
    pub client_label: String,
    pub ip: String,
    pub user_agent: Option<String>,
    pub scopes: Vec<WebAccessScope>,
    pub auth_status: i32,
    pub created_at: i64,
    pub expires_at: i64,
    pub decided_at: Option<i64>,
    pub session_token: Option<String>,
    pub session_expires_at: Option<i64>,
}

#[verifier::ext_equal]
pub struct SessionView {
    pub token: Seq<char>,
    pub scopes: Seq<WebAccessScope>,
    pub created_at: i64,
    pub expires_at: i64,
}

#[verifier::ext_equal]
pub struct RequestView {
    pub id: Seq<char>,
    pub client_label: Seq<char>,
    pub ip: Seq<char>,
    pub user_agent: Option<Seq<char>>,
    pub scopes: Seq<WebAccessScope>,
    pub auth_status: i32,
    pub created_at: i64,
    pub expires_at: i64,
    pub decided_at: Option<i64>,
    pub session_token: Option<Seq<char>>,
    pub session_expires_at: Option<i64>,
}

pub open spec fn opt_view(s: Option<String>) -> Option<Seq<char>> {
    match s {
        Some(v) => Some(v@),
        None => None,
    }
}

impl View for WebSession {
    type V = SessionView;

    open spec fn view(&self) -> SessionView {
        SessionView {
            token: self.token@,
            scopes: self.scopes@,
            created_at: self.created_at,
            expires_at: self.expires_at,
        }
    }
}

impl View for WebAccessRequest {
    type V = RequestView;

    open spec fn view(&self) -> RequestView {
        RequestView {
            id: self.id@,
            client_label: self.client_label@,
            ip: self.ip@,
            user_agent: opt_view(self.user_agent),
            scopes: self.scopes@,
            auth_status: self.auth_status,
            created_at: self.created_at,
            expires_at: self.expires_at,
            decided_at: self.decided_at,
            session_token: opt_view(self.session_token),
            session_expires_at: self.session_expires_at,
        }
    }
}

/// The sessions and access requests of the web server.
pub struct WebAuthState {
    sessions: Vec<WebSession>,
    requests: Vec<WebAccessRequest>,
}

#[verifier::ext_equal]
pub struct WebAuthView {
    pub sessions: Seq<SessionView>,
    pub requests: Seq<RequestView>,
}

impl View for WebAuthState {
    type V = WebAuthView;

    closed spec fn view(&self) -> WebAuthView {
        WebAuthView {
            sessions: self.sessions@.map_values(|s: WebSession| s@),
            requests: self.requests@.map_values(|r: WebAccessRequest| r@),
        }
    }
}

/// The position of the session with `token` (the last one, were there
/// several), or -1.
pub open spec fn session_index(ss: Seq<SessionView>, token: Seq<char>) -> int
    decreases ss.len(),
{
    if ss.len() == 0 {
        -1
    } else if ss.last().token == token {
        ss.len() - 1
    } else {
        session_index(ss.drop_last(), token)
    }
}

/// The position of the request with `id` (the last one, were there several),
/// or -1.
pub open spec fn request_index(rs: Seq<RequestView>, id: Seq<char>) -> int
    decreases rs.len(),
{
    if rs.len() == 0 {
        -1
    } else if rs.last().id == id {
        rs.len() - 1
    } else {
        request_index(rs.drop_last(), id)
    }
}

pub open spec fn find_session(ss: Seq<SessionView>, token: Seq<char>) -> Option<SessionView> {
    let i = session_index(ss, token);
    if i >= 0 {
        Some(ss[i])
    } else {
        None
    }
}

pub open spec fn find_request(rs: Seq<RequestView>, id: Seq<char>) -> Option<RequestView> {
    let i = request_index(rs, id);
    if i >= 0 {
        Some(rs[i])
    } else {
        None
    }
}

/// `ss` with `s` stored under its token: in place of the session with that
/// token, or added at the end.
pub open spec fn upsert_session(ss: Seq<SessionView>, s: SessionView) -> Seq<SessionView> {
    let i = session_index(ss, s.token);
    if i >= 0 {
        ss.update(i, s)
    } else {
        ss.push(s)
    }
}

/// `rs` with `r` stored under its id: in place of the request with that id, or
/// added at the end.
pub open spec fn upsert_request(rs: Seq<RequestView>, r: RequestView) -> Seq<RequestView> {
    let i = request_index(rs, r.id);
    if i >= 0 {
        rs.update(i, r)
    } else {
        rs.push(r)
    }
}

/// The sessions of `ss` that have not expired at `now`, in order.
pub open spec fn live_sessions(ss: Seq<SessionView>, now: i64) -> Seq<SessionView>
    decreases ss.len(),
{
    if ss.len() == 0 {
        Seq::<SessionView>::empty()
    } else {
        let r = live_sessions(ss.drop_last(), now);
        if ss.last().expires_at > now {
            r.push(ss.last())
        } else {
            r
        }
    }
}

/// A pending request whose time is up is marked as timed out at `now`.
pub open spec fn expire_request(r: RequestView, now: i64) -> RequestView {
    if r.auth_status == AUTH_STATUS_PENDING && r.expires_at <= now {
        RequestView { auth_status: AUTH_STATUS_TIMEOUT, decided_at: Some(now), ..r }
    } else {
        r
    }
}

/// Whether a request is still kept at `now`: it is pending, or was decided
/// less than an hour ago, or carries no decision time.
pub open spec fn keep_request(r: RequestView, now: i64) -> bool {
    r.auth_status == AUTH_STATUS_PENDING || match r.decided_at {
        Some(d) => d + DECIDED_REQUEST_KEEP_SECONDS > now,
        None => true,
    }
}

/// The requests of `rs` after expiry at `now`, without those no longer kept.
pub open spec fn kept_requests(rs: Seq<RequestView>, now: i64) -> Seq<RequestView>
    decreases rs.len(),
{
    if rs.len() == 0 {
        Seq::<RequestView>::empty()
    } else {
        let r = kept_requests(rs.drop_last(), now);
        let e = expire_request(rs.last(), now);
        if keep_request(e, now) {
            r.push(e)
        } else {
            r
        }
    }
}

/// The state after the clean-up at `now`.
pub open spec fn cleaned(st: WebAuthView, now: i64) -> WebAuthView {
    WebAuthView {
        sessions: live_sessions(st.sessions, now),
        requests: kept_requests(st.requests, now),
    }
}

/// The lifetime given to a new session: at least sixty seconds.
pub open spec fn session_ttl(ttl_seconds: u64) -> i64 {
    (if ttl_seconds < 60 {
        60
    } else {
        ttl_seconds
    }) as i64
}

pub open spec fn new_session_view(
    scopes: Seq<WebAccessScope>,
    ttl_seconds: u64,
    now: i64,
    token: Seq<char>,
) -> SessionView {
    SessionView {
        token,
        scopes,
        created_at: now,
        expires_at: (now + session_ttl(ttl_seconds)) as i64,
    }
}

/// Whether a session of lifetime `ttl_seconds` can start at `now` without
/// overflowing its expiry time.
pub open spec fn session_fits(ttl_seconds: u64, now: i64) -> bool {
    i64::MIN <= now + session_ttl(ttl_seconds) <= i64::MAX
}

/// Whether a session of lifetime `ttl_seconds` can start at any time the clock
/// reports.
pub open spec fn session_fits_any_time(ttl_seconds: u64) -> bool {
    i64::MIN + TIMESTAMP_BOUND <= session_ttl(ttl_seconds) <= i64::MAX - TIMESTAMP_BOUND
}

/// Whether `now` leaves room for the time arithmetic of a clean-up.
pub open spec fn time_ok(now: i64) -> bool {
    now <= i64::MAX - DECIDED_REQUEST_KEEP_SECONDS
}

pub open spec fn issued(st: WebAuthView, s: SessionView) -> WebAuthView {
    WebAuthView { sessions: upsert_session(st.sessions, s), ..st }
}

/// The session that a token stands for at `now`, if it is live and allows
/// `scope` (`None` for `scope` means any scope).
pub open spec fn session_for(
    st: WebAuthView,
    token: Seq<char>,
    scope: Option<WebAccessScope>,
    now: i64,
) -> Option<SessionView> {
    match find_session(cleaned(st, now).sessions, token) {
        Some(s) => if s.expires_at > now && match scope {
            Some(sc) => s.scopes.contains(sc),
            None => true,
        } {
            Some(s)
        } else {
            None
        },
        None => None,
    }
}

pub open spec fn new_request_view(
    id: Seq<char>,
    client_label: Seq<char>,
    ip: Seq<char>,
    user_agent: Option<Seq<char>>,
    scopes: Seq<WebAccessScope>,
    now: i64,
) -> RequestView {
    RequestView {
        id,
        client_label,
        ip,
        user_agent,
        scopes,
        auth_status: AUTH_STATUS_PENDING,
        created_at: now,
        expires_at: (now + REQUEST_TTL_SECONDS) as i64,
        decided_at: None,
        session_token: None,
        session_expires_at: None,
    }
}

/// The pending requests of `rs`, in order.
pub open spec fn pending_only(rs: Seq<RequestView>) -> Seq<RequestView>
    decreases rs.len(),
{
    if rs.len() == 0 {
        Seq::<RequestView>::empty()
    } else {
        let r = pending_only(rs.drop_last());
        if rs.last().auth_status == AUTH_STATUS_PENDING {
            r.push(rs.last())
        } else {
            r
        }
    }
}

/// `sorted` with `r` placed before the first request created earlier than it.
pub open spec fn insert_newest_first(sorted: Seq<RequestView>, r: RequestView) -> Seq<RequestView>
    decreases sorted.len(),
{
    if sorted.len() == 0 {
        seq![r]
    } else if sorted[0].created_at < r.created_at {
        seq![r] + sorted
    } else {
        seq![sorted[0]] + insert_newest_first(sorted.drop_first(), r)
    }
}

/// `rs` ordered from the newest to the oldest creation time; requests created
/// at the same time keep their order.
pub open spec fn newest_first(rs: Seq<RequestView>) -> Seq<RequestView>
    decreases rs.len(),
{
    if rs.len() == 0 {
        Seq::<RequestView>::empty()
    } else {
        insert_newest_first(newest_first(rs.drop_last()), rs.last())
    }
}

/// Why a decision on a web access request was refused.
pub enum DecisionError {
    NotADecision,
    Missing,
    AlreadyDecided,
    TimedOut,
}

pub open spec fn decision_error_message(e: DecisionError) -> Seq<char> {
    match e {
        DecisionError::NotADecision => "只能同意或拒绝网页访问请求"@,
        DecisionError::Missing => "网页访问请求不存在或已过期"@,
        DecisionError::AlreadyDecided => "网页访问请求已经处理"@,
        DecisionError::TimedOut => "网页访问请求已超时"@,
    }
}

/// The state and outcome of deciding request `id` with `status` at `now`;
/// an approval grants a session with token `token` for the given scopes, or
/// for the requested ones where none are given.
pub open spec fn decided(
    st: WebAuthView,
    id: Seq<char>,
    status: i32,
    scopes: Option<Seq<WebAccessScope>>,
    ttl_seconds: u64,
    now: i64,
    token: Seq<char>,
) -> (WebAuthView, Result<RequestView, DecisionError>) {
    if status != AUTH_STATUS_APPROVED && status != AUTH_STATUS_REJECTED {
        (st, Err(DecisionError::NotADecision))
    } else {
        let st1 = cleaned(st, now);
        let i = request_index(st1.requests, id);
        if i < 0 {
            (st1, Err(DecisionError::Missing))
        } else {
            let r = st1.requests[i];
            if r.auth_status != AUTH_STATUS_PENDING {
                (st1, Err(DecisionError::AlreadyDecided))
            } else if r.expires_at <= now {
                let r2 = RequestView {
                    auth_status: AUTH_STATUS_TIMEOUT,
                    decided_at: Some(now),
                    ..r
                };
                (WebAuthView { requests: st1.requests.update(i, r2), ..st1 }, Err(
                    DecisionError::TimedOut,
                ))
            } else if status == AUTH_STATUS_APPROVED {
                let s = new_session_view(
                    match scopes {
                        Some(sc) => sc,
                        None => r.scopes,
                    },
                    ttl_seconds,
                    now,
                    token,
                );
                let r2 = RequestView {
                    auth_status: status,
                    decided_at: Some(now),
                    scopes: s.scopes,
                    session_token: Some(token),
                    session_expires_at: Some(s.expires_at),
                    ..r
                };
                (
                    WebAuthView {
                        sessions: upsert_session(st1.sessions, s),
                        requests: st1.requests.update(i, r2),
                    },
                    Ok(r2),
                )
            } else {
                let r2 = RequestView { auth_status: status, decided_at: Some(now), ..r };
                (WebAuthView { requests: st1.requests.update(i, r2), ..st1 }, Ok(r2))
            }
        }
    }
}


/// Every decision time of the requests leaves room for the keep period.
pub open spec fn decided_times_ok(rs: Seq<RequestView>) -> bool {
    forall|i: int|
        0 <= i < rs.len() ==> match (#[trigger] rs[i]).decided_at {
            Some(d) => d <= i64::MAX - DECIDED_REQUEST_KEEP_SECONDS,
            None => true,
        }
}

/// No two requests share an id.
pub open spec fn unique_ids(rs: Seq<RequestView>) -> bool {
    forall|i: int, j: int| 0 <= i < j < rs.len() ==> #[trigger] rs[i].id != #[trigger] rs[j].id
}

/// The state's invariant: request ids are unique, and every decision time
/// leaves room for the keep period.
pub open spec fn wf_view(st: WebAuthView) -> bool {
    decided_times_ok(st.requests) && unique_ids(st.requests)
}

/// Whether a decision at `now` approves a request and so starts a session:
/// it approves, and after the clean-up at `now` the request is there,
/// pending and not expired.
pub open spec fn approval_opens_session(st: WebAuthView, id: Seq<char>, status: i32, now: i64) -> bool {
    status == AUTH_STATUS_APPROVED && match find_request(cleaned(st, now).requests, id) {
        Some(r) => r.auth_status == AUTH_STATUS_PENDING && r.expires_at > now,
        None => false,
    }
}

/// Whether the state holds a pending request with `id`.
pub open spec fn has_pending_request(st: WebAuthView, id: Seq<char>) -> bool {
    match find_request(st.requests, id) {
        Some(r) => r.auth_status == AUTH_STATUS_PENDING,
        None => false,
    }
}

pub open spec fn created(st: WebAuthView, r: RequestView, now: i64) -> WebAuthView {
    let st1 = cleaned(st, now);
    WebAuthView { requests: upsert_request(st1.requests, r), ..st1 }
}

pub open spec fn session_views(ss: Seq<WebSession>) -> Seq<SessionView> {
    ss.map_values(|s: WebSession| s@)
}

pub open spec fn request_views(rs: Seq<WebAccessRequest>) -> Seq<RequestView> {
    rs.map_values(|r: WebAccessRequest| r@)
}

pub open spec fn opt_session_view(s: Option<WebSession>) -> Option<SessionView> {
    match s {
        Some(v) => Some(v@),
        None => None,
    }
}

pub open spec fn opt_request_view(r: Option<WebAccessRequest>) -> Option<RequestView> {
    match r {
        Some(v) => Some(v@),
        None => None,
    }
}

/// The outcome of a decision, seen as values.
pub open spec fn decision_view(r: Result<WebAccessRequest, String>, expected: Result<
    RequestView,
    DecisionError,
>) -> bool {
    match r {
        Ok(req) => expected == Ok::<RequestView, DecisionError>(req@),
        Err(m) => match expected {
            Ok(_) => false,
            Err(e) => m@ == decision_error_message(e),
        },
    }
}

pub open spec fn opt_scopes(s: Option<Vec<WebAccessScope>>) -> Option<Seq<WebAccessScope>> {
    match s {
        Some(v) => Some(v@),
        None => None,
    }
}

/// `new` and `r` are the state and outcome of the decision on `old`.
pub open spec fn decision_matches(
    old: WebAuthView,
    new: WebAuthView,
    r: Result<WebAccessRequest, String>,
    id: Seq<char>,
    status: i32,
    scopes: Option<Seq<WebAccessScope>>,
    ttl_seconds: u64,
    now: i64,
    token: Seq<char>,
) -> bool {
    let d = decided(old, id, status, scopes, ttl_seconds, now, token);
    new == d.0 && decision_view(r, d.1)
}

pub proof fn lemma_request_index_range(rs: Seq<RequestView>, id: Seq<char>)
    ensures
        -1 <= request_index(rs, id) < rs.len(),
        request_index(rs, id) >= 0 ==> rs[request_index(rs, id)].id == id,
    decreases rs.len(),
{
    if rs.len() > 0 {
        lemma_request_index_range(rs.drop_last(), id);
    }
}

pub proof fn lemma_session_index_range(ss: Seq<SessionView>, token: Seq<char>)
    ensures
        -1 <= session_index(ss, token) < ss.len(),
        session_index(ss, token) >= 0 ==> ss[session_index(ss, token)].token == token,
    decreases ss.len(),
{
    if ss.len() > 0 {
        lemma_session_index_range(ss.drop_last(), token);
    }
}

proof fn lemma_upsert_request_wf(st: WebAuthView, r: RequestView)
    requires
        wf_view(st),
        match r.decided_at {
            Some(d) => d <= i64::MAX - DECIDED_REQUEST_KEEP_SECONDS,
            None => true,
        },
    ensures
        wf_view(WebAuthView { requests: upsert_request(st.requests, r), ..st }),
{
    lemma_request_index_range(st.requests, r.id);
    lemma_request_index_none(st.requests, r.id);
    let rs = upsert_request(st.requests, r);
    let k = request_index(st.requests, r.id);
    assert forall|i: int| 0 <= i < rs.len() implies match (#[trigger] rs[i]).decided_at {
        Some(d) => d <= i64::MAX - DECIDED_REQUEST_KEEP_SECONDS,
        None => true,
    } by {
        if i < st.requests.len() && i != k {
            assert(rs[i] == st.requests[i]);
        }
    }
    assert forall|i: int, j: int| 0 <= i < j < rs.len() implies #[trigger] rs[i].id
        != #[trigger] rs[j].id by {
        if k >= 0 {
            if i != k {
                assert(rs[i] == st.requests[i]);
            }
            if j != k {
                assert(rs[j] == st.requests[j]);
            }
        } else {
            if j < st.requests.len() {
                assert(rs[i] == st.requests[i]);
                assert(rs[j] == st.requests[j]);
            } else {
                assert(rs[i] == st.requests[i]);
            }
        }
    }
}

/// Where no request carries `id`, the search finds none; where one does, the
/// search does not miss it.
pub proof fn lemma_request_index_none(rs: Seq<RequestView>, id: Seq<char>)
    ensures
        request_index(rs, id) == -1 <==> forall|k: int| 0 <= k < rs.len() ==> #[trigger] rs[k].id
            != id,
        request_index(rs, id) >= 0 ==> forall|k: int|
            request_index(rs, id) < k < rs.len() ==> #[trigger] rs[k].id != id,
    decreases rs.len(),
{
    if rs.len() > 0 {
        lemma_request_index_none(rs.drop_last(), id);
        assert forall|k: int| 0 <= k < rs.len() - 1 implies rs.drop_last()[k] == #[trigger] rs[k] by {}
    }
}

pub proof fn lemma_session_index_none(ss: Seq<SessionView>, token: Seq<char>)
    ensures
        session_index(ss, token) == -1 <==> forall|k: int|
            0 <= k < ss.len() ==> #[trigger] ss[k].token != token,
        session_index(ss, token) >= 0 ==> forall|k: int|
            session_index(ss, token) < k < ss.len() ==> #[trigger] ss[k].token != token,
    decreases ss.len(),
{
    if ss.len() > 0 {
        lemma_session_index_none(ss.drop_last(), token);
        assert forall|k: int| 0 <= k < ss.len() - 1 implies ss.drop_last()[k] == #[trigger] ss[k] by {}
    }
}

/// The search finds the last session with `token`.
pub proof fn lemma_session_index_is(ss: Seq<SessionView>, token: Seq<char>, i: int)
    requires
        0 <= i < ss.len(),
        ss[i].token == token,
        forall|k: int| i < k < ss.len() ==> #[trigger] ss[k].token != token,
    ensures
        session_index(ss, token) == i,
    decreases ss.len(),
{
    if i < ss.len() - 1 {
        assert(ss.last() == ss[ss.len() - 1]);
        lemma_session_index_is(ss.drop_last(), token, i);
    }
}

/// The search finds the last request with `id`.
pub proof fn lemma_request_index_is(rs: Seq<RequestView>, id: Seq<char>, i: int)
    requires
        0 <= i < rs.len(),
        rs[i].id == id,
        forall|k: int| i < k < rs.len() ==> #[trigger] rs[k].id != id,
    ensures
        request_index(rs, id) == i,
    decreases rs.len(),
{
    if i < rs.len() - 1 {
        assert(rs.last() == rs[rs.len() - 1]);
        lemma_request_index_is(rs.drop_last(), id, i);
    }
}

/// Every request kept by the clean-up carries the id of a request before it.
proof fn lemma_kept_ids(rs: Seq<RequestView>, now: i64)
    ensures
        kept_requests(rs, now).len() <= rs.len(),
        forall|x: int|
            0 <= x < kept_requests(rs, now).len() ==> exists|k: int|
                0 <= k < rs.len() && #[trigger] rs[k].id == (#[trigger] kept_requests(
                    rs,
                    now,
                )[x]).id,
    decreases rs.len(),
{
    if rs.len() > 0 {
        let prev = rs.drop_last();
        lemma_kept_ids(prev, now);
        let kr = kept_requests(rs, now);
        assert forall|x: int| 0 <= x < kr.len() implies exists|k: int|
            0 <= k < rs.len() && #[trigger] rs[k].id == (#[trigger] kr[x]).id by {
            if x < kept_requests(prev, now).len() {
                assert(kr[x] == kept_requests(prev, now)[x]);
                let k = choose|k: int|
                    0 <= k < prev.len() && #[trigger] prev[k].id == (
                    #[trigger] kept_requests(prev, now)[x]).id;
                assert(rs[k] == prev[k]);
            } else {
                assert(rs[rs.len() - 1].id == kr[x].id);
            }
        }
    }
}

/// The clean-up keeps the state's invariant.
pub proof fn lemma_cleaned_wf(st: WebAuthView, now: i64)
    requires
        wf_view(st),
        time_ok(now),
    ensures
        wf_view(cleaned(st, now)),
{
    lemma_kept_wf(st.requests, now);
}

proof fn lemma_kept_wf(rs: Seq<RequestView>, now: i64)
    requires
        decided_times_ok(rs),
        unique_ids(rs),
        time_ok(now),
    ensures
        decided_times_ok(kept_requests(rs, now)),
        unique_ids(kept_requests(rs, now)),
    decreases rs.len(),
{
    if rs.len() > 0 {
        let prev = rs.drop_last();
        assert forall|i: int| 0 <= i < prev.len() implies prev[i] == #[trigger] rs[i] by {}
        lemma_kept_wf(prev, now);
        lemma_kept_ids(prev, now);
        let kp = kept_requests(prev, now);
        let e = expire_request(rs.last(), now);
        assert(rs.last() == rs[rs.len() - 1]);
        if keep_request(e, now) {
            let kr = kp.push(e);
            assert forall|i: int, j: int| 0 <= i < j < kr.len() implies #[trigger] kr[i].id
                != #[trigger] kr[j].id by {
                if j == kr.len() - 1 {
                    assert(kr[i] == kp[i]);
                    let k = choose|k: int|
                        0 <= k < prev.len() && #[trigger] prev[k].id == (#[trigger] kp[i]).id;
                    assert(rs[k].id != rs[rs.len() - 1].id);
                } else {
                    assert(kr[i] == kp[i]);
                    assert(kr[j] == kp[j]);
                }
            }
            assert forall|i: int| 0 <= i < kr.len() implies match (#[trigger] kr[i]).decided_at {
                Some(d) => d <= i64::MAX - DECIDED_REQUEST_KEEP_SECONDS,
                None => true,
            } by {
                if i < kp.len() {
                    assert(kr[i] == kp[i]);
                }
            }
        }
    }
}

/// Replacing a request by one with the same id and an admissible decision
/// time keeps the invariant.
proof fn lemma_update_request_wf(st: WebAuthView, i: int, r: RequestView)
    requires
        wf_view(st),
        0 <= i < st.requests.len(),
        r.id == st.requests[i].id,
        match r.decided_at {
            Some(d) => d <= i64::MAX - DECIDED_REQUEST_KEEP_SECONDS,
            None => true,
        },
    ensures
        wf_view(WebAuthView { requests: st.requests.update(i, r), ..st }),
{
    let rs = st.requests.update(i, r);
    assert forall|a: int| 0 <= a < rs.len() implies match (#[trigger] rs[a]).decided_at {
        Some(d) => d <= i64::MAX - DECIDED_REQUEST_KEEP_SECONDS,
        None => true,
    } by {
        if a != i {
            assert(rs[a] == st.requests[a]);
        }
    }
    assert forall|a: int, b: int| 0 <= a < b < rs.len() implies #[trigger] rs[a].id
        != #[trigger] rs[b].id by {
        assert(rs[a].id == st.requests[a].id);
        assert(rs[b].id == st.requests[b].id);
    }
}

fn copy_text(s: &String) -> (r: String)
    ensures
        r@ == s@,
{
    s.clone()
}

fn copy_opt_text(s: &Option<String>) -> (r: Option<String>)
    ensures
        opt_view(r) == opt_view(*s),
{
    match s {
        Some(v) => Some(v.clone()),
        None => None,
    }
}

fn copy_scopes(v: &Vec<WebAccessScope>) -> (r: Vec<WebAccessScope>)
    ensures
        r@ == v@,
{
    let mut r: Vec<WebAccessScope> = Vec::new();
    let mut i: usize = 0;
    while i < v.len()
        invariant
            i <= v.len(),
            r@ == v@.take(i as int),
        decreases v.len() - i,
    {
        r.push(v[i]);
        assert(v@.take(i + 1) =~= v@.take(i as int).push(v@[i as int]));
        i = i + 1;
    }
    assert(v@.take(v.len() as int) =~= v@);
    r
}

fn copy_session(s: &WebSession) -> (r: WebSession)
    ensures
        r@ == s@,
{
    WebSession {
        token: copy_text(&s.token),
        scopes: copy_scopes(&s.scopes),
        created_at: s.created_at,
        expires_at: s.expires_at,
    }
}

fn copy_request(r: &WebAccessRequest) -> (c: WebAccessRequest)
    ensures
        c@ == r@,
{
    WebAccessRequest {
        id: copy_text(&r.id),
        client_label: copy_text(&r.client_label),
        ip: copy_text(&r.ip),
        user_agent: copy_opt_text(&r.user_agent),
        scopes: copy_scopes(&r.scopes),
        auth_status: r.auth_status,
        created_at: r.created_at,
        expires_at: r.expires_at,
        decided_at: r.decided_at,
        session_token: copy_opt_text(&r.session_token),
        session_expires_at: r.session_expires_at,
    }
}

proof fn lemma_insert_newest_first(sorted: Seq<RequestView>, r: RequestView, p: int)
    requires
        0 <= p <= sorted.len(),
        forall|k: int| 0 <= k < p ==> sorted[k].created_at >= r.created_at,
        p < sorted.len() ==> sorted[p].created_at < r.created_at,
    ensures
        insert_newest_first(sorted, r) == sorted.take(p).push(r) + sorted.skip(p),
    decreases sorted.len(),
{
    if sorted.len() == 0 {
        assert(sorted.take(p).push(r) + sorted.skip(p) =~= seq![r]);
    } else if p == 0 {
        assert(sorted.take(0).push(r) + sorted.skip(0) =~= seq![r] + sorted);
    } else {
        let tail = sorted.drop_first();
        assert forall|k: int| 0 <= k < p - 1 implies tail[k].created_at >= r.created_at by {
            assert(tail[k] == sorted[k + 1]);
        }
        lemma_insert_newest_first(tail, r, p - 1);
        assert(seq![sorted[0]] + (tail.take(p - 1).push(r) + tail.skip(p - 1)) =~= sorted.take(
            p,
        ).push(r) + sorted.skip(p));
    }
}

/// The time reported by the clock, in seconds since the Unix epoch
/// (`chrono::Utc::now().timestamp()`). The contract claims only the range of
/// chrono's representable instants; the value itself depends on the clock.
#[verifier::external_body]
fn now_timestamp() -> (t: i64)
    ensures
        -TIMESTAMP_BOUND < t < TIMESTAMP_BOUND,
{
    chrono::Utc::now().timestamp()
}

/// Whether every character of `s` is a lowercase hexadecimal digit.
pub open spec fn is_lower_hex(s: Seq<char>) -> bool {
    forall|i: int| 0 <= i < s.len() ==> ('0' <= #[trigger] s[i] <= '9' || 'a' <= s[i] <= 'f')
}

/// A random version-4 UUID in its simple form
/// (`uuid::Uuid::new_v4().simple()`, displayed through its lowercase hex
/// encoder): 32 lowercase hexadecimal digits. Which digits come out is chance,
/// so the contract says nothing of them.
#[verifier::external_body]
fn new_simple_uuid() -> (t: String)
    ensures
        t@.len() == 32,
        is_lower_hex(t@),
{
    uuid::Uuid::new_v4().simple().to_string()
}

/// A fresh session token: two random UUIDs in their simple form, one after
/// the other, so 64 lowercase hexadecimal digits.
fn new_session_token() -> (t: String)
    ensures
        t@.len() == 64,
        is_lower_hex(t@),
{
    let mut a = new_simple_uuid();
    let b = new_simple_uuid();
    a.append(b.as_str());
    proof {
        assert forall|i: int| 0 <= i < a@.len() implies ('0' <= #[trigger] a@[i] <= '9' || 'a' <= a@[i] <= 'f') by {
            if i >= 32 {
                assert(a@[i] == b@[i - 32]);
            }
        }
    }
    a
}

/// A fresh request id: a random version-4 UUID in its hyphenated form
/// (`uuid::Uuid::new_v4().to_string()`), 36 characters. The contract claims
/// only the length; the digits are random.
#[verifier::external_body]
fn new_request_id() -> (t: String)
    ensures
        t@.len() == 36,
{
    uuid::Uuid::new_v4().to_string()
}

impl Default for WebAuthState {
    fn default() -> (st: Self)
        ensures
            st@.sessions.len() == 0,
            st@.requests.len() == 0,
    {
        WebAuthState { sessions: Vec::new(), requests: Vec::new() }
    }
}

impl WebAuthState {
    /// A state without sessions or requests.
    pub fn new() -> (st: Self)
        ensures
            st@.sessions.len() == 0,
            st@.requests.len() == 0,
            wf_view(st@),
    {
        WebAuthState { sessions: Vec::new(), requests: Vec::new() }
    }

    fn session_position(&self, token: &Vec<char>) -> (r: Option<usize>)
        ensures
            match r {
                Some(i) => i as int == session_index(self@.sessions, token@) && i < self.sessions.len(),
                None => session_index(self@.sessions, token@) == -1,
            },
    {
        let ghost ss = self@.sessions;
        let mut j = self.sessions.len();
        assert(ss.take(j as int) =~= ss);
        while j > 0
            invariant
                j <= self.sessions.len(),
                ss == self@.sessions,
                ss.len() == self.sessions.len(),
                session_index(ss, token@) == session_index(ss.take(j as int), token@),
            decreases j,
        {
            let t = chars_of(self.sessions[j - 1].token.as_str());
            assert(ss[j - 1] == self.sessions@[j - 1]@);
            if chars_eq(&t, token) {
                return Some(j - 1);
            }
            assert(ss.take(j as int).drop_last() =~= ss.take(j - 1));
            j = j - 1;
        }
        None
    }

    fn request_position(&self, id: &Vec<char>) -> (r: Option<usize>)
        ensures
            match r {
                Some(i) => i as int == request_index(self@.requests, id@) && i < self.requests.len(),
                None => request_index(self@.requests, id@) == -1,
            },
    {
        let ghost rs = self@.requests;
        let mut j = self.requests.len();
        assert(rs.take(j as int) =~= rs);
        while j > 0
            invariant
                j <= self.requests.len(),
                rs == self@.requests,
                rs.len() == self.requests.len(),
                request_index(rs, id@) == request_index(rs.take(j as int), id@),
            decreases j,
        {
            let t = chars_of(self.requests[j - 1].id.as_str());
            assert(rs[j - 1] == self.requests@[j - 1]@);
            if chars_eq(&t, id) {
                return Some(j - 1);
            }
            assert(rs.take(j as int).drop_last() =~= rs.take(j - 1));
            j = j - 1;
        }
        None
    }

    fn insert_session(&mut self, s: WebSession)
        ensures
            final(self)@ == issued(old(self)@, s@),
    {
        let key = chars_of(s.token.as_str());
        let ghost old_sessions = self@.sessions;
        let ghost sv = s@;
        match self.session_position(&key) {
            Some(i) => {
                self.sessions.set(i, s);
                assert(self@.sessions =~= old_sessions.update(i as int, sv));
            },
            None => {
                self.sessions.push(s);
                assert(self@.sessions =~= old_sessions.push(sv));
            },
        }
    }

    fn insert_request(&mut self, r: WebAccessRequest)
        ensures
            final(self)@ == (WebAuthView {
                requests: upsert_request(old(self)@.requests, r@),
                ..old(self)@
            }),
    {
        let key = chars_of(r.id.as_str());
        let ghost old_requests = self@.requests;
        let ghost rv = r@;
        match self.request_position(&key) {
            Some(i) => {
                self.requests.set(i, r);
                assert(self@.requests =~= old_requests.update(i as int, rv));
            },
            None => {
                self.requests.push(r);
                assert(self@.requests =~= old_requests.push(rv));
            },
        }
    }

    /// Drops the expired sessions, times out the pending requests whose time
    /// is up and drops the requests decided more than an hour ago.
    fn cleanup(&mut self, now: i64)
        requires
            time_ok(now),
            wf_view(old(self)@),
        ensures
            final(self)@ == cleaned(old(self)@, now),
            wf_view(final(self)@),
    {
        let ghost ss = self@.sessions;
        let ghost rs = self@.requests;
        let mut live: Vec<WebSession> = Vec::new();
        let mut i: usize = 0;
        while i < self.sessions.len()
            invariant
                i <= self.sessions.len(),
                ss == session_views(self.sessions@),
                session_views(live@) == live_sessions(ss.take(i as int), now),
            decreases self.sessions.len() - i,
        {
            assert(ss.take(i + 1).drop_last() =~= ss.take(i as int));
            assert(ss.take(i + 1).last() == self.sessions@[i as int]@);
            if self.sessions[i].expires_at > now {
                let ghost before = session_views(live@);
                let c = copy_session(&self.sessions[i]);
                live.push(c);
                assert(session_views(live@) =~= before.push(self.sessions@[i as int]@));
            }
            i = i + 1;
        }
        assert(ss.take(self.sessions.len() as int) =~= ss);
        let mut kept: Vec<WebAccessRequest> = Vec::new();
        let mut j: usize = 0;
        while j < self.requests.len()
            invariant
                j <= self.requests.len(),
                time_ok(now),
                wf_view(WebAuthView { sessions: ss, requests: rs }),
                rs == request_views(self.requests@),
                request_views(kept@) == kept_requests(rs.take(j as int), now),
            decreases self.requests.len() - j,
        {
            assert(rs.take(j + 1).drop_last() =~= rs.take(j as int));
            assert(rs.take(j + 1).last() == self.requests@[j as int]@);
            assert(rs[j as int] == self.requests@[j as int]@);
            let mut c = copy_request(&self.requests[j]);
            if c.auth_status == AUTH_STATUS_PENDING && c.expires_at <= now {
                c.auth_status = AUTH_STATUS_TIMEOUT;
                c.decided_at = Some(now);
            }
            assert(c@ =~= expire_request(rs[j as int], now));
            let keep = c.auth_status == AUTH_STATUS_PENDING || match c.decided_at {
                Some(d) => d + DECIDED_REQUEST_KEEP_SECONDS > now,
                None => true,
            };
            if keep {
                let ghost before = request_views(kept@);
                kept.push(c);
                assert(request_views(kept@) =~= before.push(c@));
            }
            j = j + 1;
        }
        assert(rs.take(self.requests.len() as int) =~= rs);
        proof {
            lemma_cleaned_wf(WebAuthView { sessions: ss, requests: rs }, now);
        }
        self.sessions = live;
        self.requests = kept;
    }

    /// Starts a session at `now` with the given token, scopes and lifetime.
    pub fn issue_session_at(
        &mut self,
        scopes: Vec<WebAccessScope>,
        ttl_seconds: u64,
        now: i64,
        token: String,
    ) -> (s: WebSession)
        requires
            session_fits(ttl_seconds, now),
        ensures
            s@ == new_session_view(scopes@, ttl_seconds, now, token@),
            final(self)@ == issued(old(self)@, s@),
            wf_view(old(self)@) ==> wf_view(final(self)@),
    {
        let ttl = (if ttl_seconds < 60 {
            60
        } else {
            ttl_seconds
        }) as i64;
        let session = WebSession { token, scopes, created_at: now, expires_at: now + ttl };
        let stored = copy_session(&session);
        self.insert_session(stored);
        session
    }

    /// Starts a session now, with a fresh random token.
    pub fn issue_session(&mut self, scopes: Vec<WebAccessScope>, ttl_seconds: u64) -> (s:
        WebSession)
        requires
            session_fits_any_time(ttl_seconds),
        ensures
            exists|now: i64|
                -TIMESTAMP_BOUND < now < TIMESTAMP_BOUND && s@ == new_session_view(
                    scopes@,
                    ttl_seconds,
                    now,
                    s@.token,
                ),
            s@.token.len() == 64,
            final(self)@ == issued(old(self)@, s@),
            wf_view(old(self)@) ==> wf_view(final(self)@),
    {
        let now = now_timestamp();
        let token = new_session_token();
        self.issue_session_at(scopes, ttl_seconds, now, token)
    }

    /// The live session of `token` at `now`, if it allows `scope` (`None`
    /// allows any scope); cleans up first.
    fn live_session_at(&mut self, token: &str, scope: Option<WebAccessScope>, now: i64) -> (r:
        Option<WebSession>)
        requires
            time_ok(now),
            wf_view(old(self)@),
        ensures
            final(self)@ == cleaned(old(self)@, now),
            wf_view(final(self)@),
            opt_session_view(r) == session_for(old(self)@, token@, scope, now),
    {
        self.cleanup(now);
        let key = chars_of(token);
        match self.session_position(&key) {
            Some(i) => {
                let s = &self.sessions[i];
                assert(self@.sessions[i as int] == s@);
                let allowed = match scope {
                    Some(sc) => contains_scope(&s.scopes, sc),
                    None => true,
                };
                if s.expires_at > now && allowed {
                    Some(copy_session(s))
                } else {
                    None
                }
            },
            None => None,
        }
    }

    /// The session of `token`, if it is live at `now` and allows `scope`.
    pub fn validate_session_at(&mut self, token: &str, scope: WebAccessScope, now: i64) -> (r:
        Option<WebSession>)
        requires
            time_ok(now),
            wf_view(old(self)@),
        ensures
            final(self)@ == cleaned(old(self)@, now),
            wf_view(final(self)@),
            opt_session_view(r) == session_for(old(self)@, token@, Some(scope), now),
    {
        self.live_session_at(token, Some(scope), now)
    }

    /// The session of `token`, if it is live now and allows `scope`.
    pub fn validate_session(&mut self, token: &str, scope: WebAccessScope) -> (r: Option<
        WebSession,
    >)
        requires
            wf_view(old(self)@),
        ensures
            exists|now: i64|
                -TIMESTAMP_BOUND < now < TIMESTAMP_BOUND && final(self)@ == cleaned(old(self)@, now)
                    && opt_session_view(r) == session_for(old(self)@, token@, Some(scope), now),
            wf_view(final(self)@),
    {
        let now = now_timestamp();
        self.validate_session_at(token, scope, now)
    }

    /// The session of `token`, if it is live at `now`.
    pub fn session_status_at(&mut self, token: &str, now: i64) -> (r: Option<WebSession>)
        requires
            time_ok(now),
            wf_view(old(self)@),
        ensures
            final(self)@ == cleaned(old(self)@, now),
            wf_view(final(self)@),
            opt_session_view(r) == session_for(old(self)@, token@, None, now),
    {
        self.live_session_at(token, None, now)
    }

    /// The session of `token`, if it is live now.
    pub fn session_status(&mut self, token: &str) -> (r: Option<WebSession>)
        requires
            wf_view(old(self)@),
        ensures
            exists|now: i64|
                -TIMESTAMP_BOUND < now < TIMESTAMP_BOUND && final(self)@ == cleaned(old(self)@, now)
                    && opt_session_view(r) == session_for(old(self)@, token@, None, now),
            wf_view(final(self)@),
    {
        let now = now_timestamp();
        self.session_status_at(token, now)
    }

    /// Records a new pending request with the given id at `now`.
    pub fn create_request_at(
        &mut self,
        client_label: String,
        ip: String,
        user_agent: Option<String>,
        scopes: Vec<WebAccessScope>,
        now: i64,
        id: String,
    ) -> (r: WebAccessRequest)
        requires
            time_ok(now),
            wf_view(old(self)@),
        ensures
            r@ == new_request_view(
                id@,
                client_label@,
                ip@,
                opt_view(user_agent),
                scopes@,
                now,
            ),
            final(self)@ == created(old(self)@, r@, now),
            wf_view(final(self)@),
    {
        self.cleanup(now);
        let request = WebAccessRequest {
            id,
            client_label,
            ip,
            user_agent,
            scopes,
            auth_status: AUTH_STATUS_PENDING,
            created_at: now,
            expires_at: now + REQUEST_TTL_SECONDS,
            decided_at: None,
            session_token: None,
            session_expires_at: None,
        };
        let stored = copy_request(&request);
        let ghost before = self@;
        self.insert_request(stored);
        proof {
            lemma_upsert_request_wf(before, request@);
        }
        request
    }

    /// Records a new pending request now, under a fresh random id.
    pub fn create_request(
        &mut self,
        client_label: String,
        ip: String,
        user_agent: Option<String>,
        scopes: Vec<WebAccessScope>,
    ) -> (r: WebAccessRequest)
        requires
            wf_view(old(self)@),
        ensures
            exists|now: i64|
                -TIMESTAMP_BOUND < now < TIMESTAMP_BOUND && r@ == new_request_view(
                    r@.id,
                    client_label@,
                    ip@,
                    opt_view(user_agent),
                    scopes@,
                    now,
                ) && final(self)@ == created(old(self)@, r@, now),
            r@.id.len() == 36,
            wf_view(final(self)@),
    {
        let now = now_timestamp();
        let id = new_request_id();
        self.create_request_at(client_label, ip, user_agent, scopes, now, id)
    }

    /// The request with `request_id` after the clean-up at `now`.
    pub fn request_status_at(&mut self, request_id: &str, now: i64) -> (r: Option<
        WebAccessRequest,
    >)
        requires
            time_ok(now),
            wf_view(old(self)@),
        ensures
            final(self)@ == cleaned(old(self)@, now),
            wf_view(final(self)@),
            opt_request_view(r) == find_request(cleaned(old(self)@, now).requests, request_id@),
    {
        self.cleanup(now);
        let key = chars_of(request_id);
        match self.request_position(&key) {
            Some(i) => {
                assert(self@.requests[i as int] == self.requests@[i as int]@);
                Some(copy_request(&self.requests[i]))
            },
            None => None,
        }
    }

    /// The request with `request_id`, as it stands now.
    pub fn request_status(&mut self, request_id: &str) -> (r: Option<WebAccessRequest>)
        requires
            wf_view(old(self)@),
        ensures
            exists|now: i64|
                -TIMESTAMP_BOUND < now < TIMESTAMP_BOUND && final(self)@ == cleaned(old(self)@, now)
                    && opt_request_view(r) == find_request(
                    cleaned(old(self)@, now).requests,
                    request_id@,
                ),
            wf_view(final(self)@),
    {
        let now = now_timestamp();
        self.request_status_at(request_id, now)
    }

    /// The pending requests after the clean-up at `now`, newest first.
    pub fn pending_requests_at(&mut self, now: i64) -> (r: Vec<WebAccessRequest>)
        requires
            time_ok(now),
            wf_view(old(self)@),
        ensures
            final(self)@ == cleaned(old(self)@, now),
            wf_view(final(self)@),
            request_views(r@) == newest_first(pending_only(cleaned(old(self)@, now).requests)),
    {
        self.cleanup(now);
        let ghost rs = self@.requests;
        let mut out: Vec<WebAccessRequest> = Vec::new();
        let mut i: usize = 0;
        while i < self.requests.len()
            invariant
                i <= self.requests.len(),
                rs == request_views(self.requests@),
                request_views(out@) == newest_first(pending_only(rs.take(i as int))),
            decreases self.requests.len() - i,
        {
            assert(rs.take(i + 1).drop_last() =~= rs.take(i as int));
            assert(rs.take(i + 1).last() == self.requests@[i as int]@);
            if self.requests[i].auth_status == AUTH_STATUS_PENDING {
                let c = copy_request(&self.requests[i]);
                let ghost sorted = request_views(out@);
                let ghost pend = pending_only(rs.take(i as int));
                assert(pending_only(rs.take(i + 1)) == pend.push(c@));
                assert(pend.push(c@).drop_last() =~= pend);
                let mut p: usize = 0;
                while p < out.len() && out[p].created_at >= c.created_at
                    invariant
                        p <= out.len(),
                        sorted == request_views(out@),
                        forall|k: int| 0 <= k < p ==> sorted[k].created_at >= c.created_at,
                    decreases out.len() - p,
                {
                    assert(sorted[p as int] == out@[p as int]@);
                    p = p + 1;
                }
                proof {
                    if p < out.len() {
                        assert(sorted[p as int] == out@[p as int]@);
                    }
                    lemma_insert_newest_first(sorted, c@, p as int);
                }
                out.insert(p, c);
                assert(request_views(out@) =~= sorted.take(p as int).push(c@) + sorted.skip(
                    p as int,
                ));
            }
            i = i + 1;
        }
        assert(rs.take(self.requests.len() as int) =~= rs);
        out
    }

    /// The pending requests as they stand now, newest first.
    pub fn pending_requests(&mut self) -> (r: Vec<WebAccessRequest>)
        requires
            wf_view(old(self)@),
        ensures
            exists|now: i64|
                -TIMESTAMP_BOUND < now < TIMESTAMP_BOUND && final(self)@ == cleaned(old(self)@, now)
                    && request_views(r@) == newest_first(
                    pending_only(cleaned(old(self)@, now).requests),
                ),
            wf_view(final(self)@),
    {
        let now = now_timestamp();
        self.pending_requests_at(now)
    }

    /// Approves or rejects the request with `request_id` at `now`; an approval
    /// starts a session with `token`.
    pub fn decide_request_at(
        &mut self,
        request_id: &str,
        auth_status: i32,
        scopes: Option<Vec<WebAccessScope>>,
        ttl_seconds: u64,
        now: i64,
        token: String,
    ) -> (r: Result<WebAccessRequest, String>)
        requires
            time_ok(now),
            approval_opens_session(old(self)@, request_id@, auth_status, now) ==> session_fits(
                ttl_seconds,
                now,
            ),
            wf_view(old(self)@),
        ensures
            decision_matches(
                old(self)@,
                final(self)@,
                r,
                request_id@,
                auth_status,
                opt_scopes(scopes),
                ttl_seconds,
                now,
                token@,
            ),
            wf_view(final(self)@),
    {
        if auth_status != AUTH_STATUS_APPROVED && auth_status != AUTH_STATUS_REJECTED {
            return Err(String::from_str("只能同意或拒绝网页访问请求"));
        }
        self.cleanup(now);
        let ghost st1 = self@;
        let key = chars_of(request_id);
        let i = match self.request_position(&key) {
            Some(i) => i,
            None => {
                return Err(String::from_str("网页访问请求不存在或已过期"));
            },
        };
        assert(st1.requests[i as int] == self.requests@[i as int]@);
        let mut req = copy_request(&self.requests[i]);
        if req.auth_status != AUTH_STATUS_PENDING {
            return Err(String::from_str("网页访问请求已经处理"));
        }
        if req.expires_at <= now {
            req.auth_status = AUTH_STATUS_TIMEOUT;
            req.decided_at = Some(now);
            let ghost rv = req@;
            self.requests.set(i, req);
            assert(self@.requests =~= st1.requests.update(i as int, rv));
            assert(self@ =~= WebAuthView { requests: st1.requests.update(i as int, rv), ..st1 });
            return Err(String::from_str("网页访问请求已超时"));
        }
        req.auth_status = auth_status;
        req.decided_at = Some(now);
        if auth_status == AUTH_STATUS_APPROVED {
            let session_scopes = match scopes {
                Some(v) => v,
                None => copy_scopes(&req.scopes),
            };
            let session = self.issue_session_at(session_scopes, ttl_seconds, now, token);
            req.scopes = copy_scopes(&session.scopes);
            req.session_token = Some(copy_text(&session.token));
            req.session_expires_at = Some(session.expires_at);
        }
        let ghost rv = req@;
        let ghost mid = self@;
        let result = copy_request(&req);
        self.requests.set(i, req);
        assert(self@.requests =~= mid.requests.update(i as int, rv));
        assert(self@ =~= WebAuthView { requests: mid.requests.update(i as int, rv), ..mid });
        Ok(result)
    }

    /// Approves or rejects the request with `request_id` now; an approval
    /// starts a session with a fresh random token.
    pub fn decide_request(
        &mut self,
        request_id: &str,
        auth_status: i32,
        scopes: Option<Vec<WebAccessScope>>,
        ttl_seconds: u64,
    ) -> (r: Result<WebAccessRequest, String>)
        requires
            auth_status == AUTH_STATUS_APPROVED && has_pending_request(old(self)@, request_id@)
                ==> session_fits_any_time(ttl_seconds),
            wf_view(old(self)@),
        ensures
            exists|now: i64, token: Seq<char>|
                -TIMESTAMP_BOUND < now < TIMESTAMP_BOUND && token.len() == 64
                    && #[trigger] decision_matches(
                    old(self)@,
                    final(self)@,
                    r,
                    request_id@,
                    auth_status,
                    opt_scopes(scopes),
                    ttl_seconds,
                    now,
                    token,
                ),
            wf_view(final(self)@),
    {
        let now = now_timestamp();
        let token = new_session_token();
        proof {
            lemma_kept_pending_was_pending(self@.requests, request_id@, now);
        }
        self.decide_request_at(request_id, auth_status, scopes, ttl_seconds, now, token)
    }
}


// ---------------------------------------------------------------------------
// Laws of sessions and requests
// ---------------------------------------------------------------------------

proof fn lemma_live_keeps(ss: Seq<SessionView>, token: Seq<char>, t: i64)
    requires
        session_index(ss, token) >= 0,
        ss[session_index(ss, token)].expires_at > t,
    ensures
        find_session(live_sessions(ss, t), token) == Some(ss[session_index(ss, token)]),
    decreases ss.len(),
{
    let i = session_index(ss, token);
    lemma_session_index_range(ss, token);
    let prev = ss.drop_last();
    let l = live_sessions(ss, t);
    if i == ss.len() - 1 {
        assert(ss.last() == ss[i]);
        assert(l == live_sessions(prev, t).push(ss.last()));
        lemma_session_index_is(l, token, l.len() - 1);
        assert(l[l.len() - 1] == ss[i]);
    } else {
        assert(ss.last().token != token);
        assert(session_index(ss, token) == session_index(prev, token));
        assert(ss[i] == prev[i]);
        lemma_live_keeps(prev, token, t);
        let lp = live_sessions(prev, t);
        lemma_session_index_range(lp, token);
        if ss.last().expires_at > t {
            assert(l == lp.push(ss.last()));
            assert(l.drop_last() =~= lp);
            assert(session_index(l, token) == session_index(lp, token));
            assert(l[session_index(lp, token)] == lp[session_index(lp, token)]);
        } else {
            assert(l == lp);
        }
    }
}

proof fn lemma_upsert_finds(ss: Seq<SessionView>, s: SessionView)
    ensures
        find_session(upsert_session(ss, s), s.token) == Some(s),
{
    let k = session_index(ss, s.token);
    lemma_session_index_range(ss, s.token);
    lemma_session_index_none(ss, s.token);
    let u = upsert_session(ss, s);
    if k >= 0 {
        assert forall|j: int| k < j < u.len() implies #[trigger] u[j].token != s.token by {
            assert(u[j] == ss[j]);
        }
        lemma_session_index_is(u, s.token, k);
    } else {
        lemma_session_index_is(u, s.token, u.len() - 1);
    }
}

proof fn lemma_stored_session_validates(ss: Seq<SessionView>, s: SessionView, t: i64)
    requires
        s.expires_at > t,
    ensures
        find_session(live_sessions(upsert_session(ss, s), t), s.token) == Some(s),
{
    lemma_upsert_finds(ss, s);
    lemma_session_index_range(upsert_session(ss, s), s.token);
    lemma_live_keeps(upsert_session(ss, s), s.token, t);
}

proof fn lemma_find_session_push(ss: Seq<SessionView>, e: SessionView, token: Seq<char>)
    ensures
        e.token != token ==> find_session(ss.push(e), token) == find_session(ss, token),
        e.token == token ==> find_session(ss.push(e), token) == Some(e),
{
    assert(ss.push(e).drop_last() =~= ss);
    lemma_session_index_range(ss, token);
    let k = session_index(ss, token);
    if e.token != token && k >= 0 {
        assert(ss.push(e)[k] == ss[k]);
    }
}

proof fn lemma_live_lacks(ss: Seq<SessionView>, token: Seq<char>, t: i64)
    requires
        forall|k: int| 0 <= k < ss.len() ==> #[trigger] ss[k].token != token,
    ensures
        find_session(live_sessions(ss, t), token) is None,
    decreases ss.len(),
{
    if ss.len() == 0 {
        lemma_session_index_range(live_sessions(ss, t), token);
    } else {
        let prev = ss.drop_last();
        assert forall|k: int| 0 <= k < prev.len() implies #[trigger] prev[k].token != token by {
            assert(prev[k] == ss[k]);
        }
        lemma_live_lacks(prev, token, t);
        assert(ss.last() == ss[ss.len() - 1]);
        lemma_find_session_push(live_sessions(prev, t), ss.last(), token);
    }
}

/// A token that no session holds opens nothing, whatever the scope and the
/// time.
pub proof fn law_unknown_token_opens_nothing(
    st: WebAuthView,
    token: Seq<char>,
    scope: Option<WebAccessScope>,
    t: i64,
)
    requires
        forall|k: int| 0 <= k < st.sessions.len() ==> #[trigger] st.sessions[k].token != token,
    ensures
        session_for(st, token, scope, t) is None,
{
    lemma_live_lacks(st.sessions, token, t);
}

/// A session started under a fresh token answers for exactly its scopes, and
/// only before it expires (`now` plus the lifetime, at least sixty seconds).
pub proof fn law_fresh_session_answers_exactly(
    st: WebAuthView,
    scopes: Seq<WebAccessScope>,
    ttl_seconds: u64,
    now: i64,
    token: Seq<char>,
    scope: WebAccessScope,
    t: i64,
)
    requires
        session_fits(ttl_seconds, now),
        forall|k: int| 0 <= k < st.sessions.len() ==> #[trigger] st.sessions[k].token != token,
    ensures
        new_session_view(scopes, ttl_seconds, now, token).expires_at == now + session_ttl(ttl_seconds),
        session_for(issued(st, new_session_view(scopes, ttl_seconds, now, token)), token, Some(scope), t)
            == if t < now + session_ttl(ttl_seconds) && scopes.contains(scope) {
            Some(new_session_view(scopes, ttl_seconds, now, token))
        } else {
            None
        },
{
    let s = new_session_view(scopes, ttl_seconds, now, token);
    lemma_session_index_none(st.sessions, token);
    assert(upsert_session(st.sessions, s) == st.sessions.push(s));
    let ss = st.sessions.push(s);
    assert(ss.drop_last() =~= st.sessions);
    assert(ss.last() == s);
    lemma_live_lacks(st.sessions, token, t);
    lemma_find_session_push(live_sessions(st.sessions, t), s, token);
}

/// A session that was just started answers for its token, for each of its
/// scopes, at every time before it expires.
pub proof fn law_issued_session_validates(
    st: WebAuthView,
    scopes: Seq<WebAccessScope>,
    ttl_seconds: u64,
    now: i64,
    token: Seq<char>,
    scope: WebAccessScope,
    t: i64,
)
    requires
        session_fits(ttl_seconds, now),
        scopes.contains(scope),
        t < new_session_view(scopes, ttl_seconds, now, token).expires_at,
    ensures
        session_for(
            issued(st, new_session_view(scopes, ttl_seconds, now, token)),
            token,
            Some(scope),
            t,
        ) == Some(new_session_view(scopes, ttl_seconds, now, token)),
{
    lemma_stored_session_validates(st.sessions, new_session_view(scopes, ttl_seconds, now, token), t);
}

/// Approving a pending request opens a session under the token handed out
/// with the approval: it answers for each granted scope at every time before
/// the expiry reported in the decided request.
pub proof fn law_approval_opens_session(
    st: WebAuthView,
    id: Seq<char>,
    scopes: Option<Seq<WebAccessScope>>,
    ttl_seconds: u64,
    now: i64,
    token: Seq<char>,
    scope: WebAccessScope,
    t: i64,
)
    requires
        decided(st, id, AUTH_STATUS_APPROVED, scopes, ttl_seconds, now, token).1 is Ok,
        decided(st, id, AUTH_STATUS_APPROVED, scopes, ttl_seconds, now, token).1->Ok_0.scopes.contains(
            scope,
        ),
        decided(st, id, AUTH_STATUS_APPROVED, scopes, ttl_seconds, now, token).1->Ok_0.session_expires_at matches Some(
            e,
        ) && t < e,
    ensures
        ({
            let d = decided(st, id, AUTH_STATUS_APPROVED, scopes, ttl_seconds, now, token);
            &&& d.1->Ok_0.session_token == Some(token)
            &&& session_for(d.0, token, Some(scope), t) is Some
            &&& session_for(d.0, token, Some(scope), t)->0.scopes == d.1->Ok_0.scopes
        }),
{
    let st1 = cleaned(st, now);
    let i = request_index(st1.requests, id);
    let r = st1.requests[i];
    let s = new_session_view(
        match scopes {
            Some(sc) => sc,
            None => r.scopes,
        },
        ttl_seconds,
        now,
        token,
    );
    lemma_stored_session_validates(st1.sessions, s, t);
}

/// A session returned for a token is that token's, live at that time and,
/// where a scope is asked for, allows it.
pub proof fn law_answered_session_is_live(
    st: WebAuthView,
    token: Seq<char>,
    scope: Option<WebAccessScope>,
    t: i64,
)
    requires
        session_for(st, token, scope, t) is Some,
    ensures
        session_for(st, token, scope, t)->0.token == token,
        session_for(st, token, scope, t)->0.expires_at > t,
        scope matches Some(sc) ==> session_for(st, token, scope, t)->0.scopes.contains(sc),
{
    lemma_session_index_range(cleaned(st, t).sessions, token);
}

/// Rejecting a request starts no session: the sessions are those that the
/// clean-up keeps, and the request carries the token it had.
pub proof fn law_rejection_opens_no_session(
    st: WebAuthView,
    id: Seq<char>,
    scopes: Option<Seq<WebAccessScope>>,
    ttl_seconds: u64,
    now: i64,
    token: Seq<char>,
)
    ensures
        decided(st, id, AUTH_STATUS_REJECTED, scopes, ttl_seconds, now, token).0.sessions
            == cleaned(st, now).sessions,
        decided(st, id, AUTH_STATUS_REJECTED, scopes, ttl_seconds, now, token).1 matches Ok(r)
            ==> r.session_token == find_request(cleaned(st, now).requests, id)->0.session_token
            && r.auth_status == AUTH_STATUS_REJECTED,
{
}

/// Only a pending, unexpired request can be decided, and the decision records
/// the status and the time.
pub proof fn law_decision_needs_pending_request(
    st: WebAuthView,
    id: Seq<char>,
    status: i32,
    scopes: Option<Seq<WebAccessScope>>,
    ttl_seconds: u64,
    now: i64,
    token: Seq<char>,
)
    requires
        decided(st, id, status, scopes, ttl_seconds, now, token).1 is Ok,
    ensures
        status == AUTH_STATUS_APPROVED || status == AUTH_STATUS_REJECTED,
        find_request(cleaned(st, now).requests, id) is Some,
        find_request(cleaned(st, now).requests, id)->0.auth_status == AUTH_STATUS_PENDING,
        find_request(cleaned(st, now).requests, id)->0.expires_at > now,
        decided(st, id, status, scopes, ttl_seconds, now, token).1->Ok_0.auth_status == status,
        decided(st, id, status, scopes, ttl_seconds, now, token).1->Ok_0.decided_at == Some(now),
        decided(st, id, status, scopes, ttl_seconds, now, token).1->Ok_0.id == id,
{
    lemma_request_index_range(cleaned(st, now).requests, id);
}

proof fn lemma_find_request_push(rs: Seq<RequestView>, e: RequestView, id: Seq<char>)
    ensures
        e.id != id ==> find_request(rs.push(e), id) == find_request(rs, id),
        e.id == id ==> find_request(rs.push(e), id) == Some(e),
{
    assert(rs.push(e).drop_last() =~= rs);
    lemma_request_index_range(rs, id);
    let k = request_index(rs, id);
    if e.id != id && k >= 0 {
        assert(rs.push(e)[k] == rs[k]);
    }
}

proof fn lemma_kept_missing(rs: Seq<RequestView>, id: Seq<char>, now: i64)
    requires
        forall|k: int| 0 <= k < rs.len() ==> #[trigger] rs[k].id != id,
    ensures
        find_request(kept_requests(rs, now), id) is None,
{
    lemma_kept_ids(rs, now);
    let kr = kept_requests(rs, now);
    assert forall|x: int| 0 <= x < kr.len() implies #[trigger] kr[x].id != id by {
        let k = choose|k: int| 0 <= k < rs.len() && #[trigger] rs[k].id == (#[trigger] kr[x]).id;
    }
    lemma_request_index_none(kr, id);
}

proof fn lemma_decided_request_stays_decided(rs: Seq<RequestView>, i: int, now: i64)
    requires
        unique_ids(rs),
        0 <= i < rs.len(),
        rs[i].auth_status != AUTH_STATUS_PENDING,
    ensures
        find_request(kept_requests(rs, now), rs[i].id) matches Some(r) ==> r.auth_status
            == rs[i].auth_status,
    decreases rs.len(),
{
    let prev = rs.drop_last();
    let id = rs[i].id;
    let e = expire_request(rs.last(), now);
    assert(rs.last() == rs[rs.len() - 1]);
    if i == rs.len() - 1 {
        assert forall|k: int| 0 <= k < prev.len() implies #[trigger] prev[k].id != id by {
            assert(prev[k] == rs[k]);
        }
        lemma_kept_missing(prev, id, now);
        lemma_find_request_push(kept_requests(prev, now), e, id);
    } else {
        assert(rs[rs.len() - 1].id != id);
        assert forall|a: int, b: int| 0 <= a < b < prev.len() implies #[trigger] prev[a].id
            != #[trigger] prev[b].id by {
            assert(prev[a] == rs[a]);
            assert(prev[b] == rs[b]);
        }
        assert(prev[i] == rs[i]);
        lemma_decided_request_stays_decided(prev, i, now);
        lemma_find_request_push(kept_requests(prev, now), e, id);
    }
}

proof fn lemma_kept_pending_was_pending(rs: Seq<RequestView>, id: Seq<char>, now: i64)
    requires
        unique_ids(rs),
    ensures
        (find_request(kept_requests(rs, now), id) matches Some(r) && r.auth_status
            == AUTH_STATUS_PENDING) ==> (find_request(rs, id) matches Some(r0) && r0.auth_status
            == AUTH_STATUS_PENDING),
    decreases rs.len(),
{
    if rs.len() > 0 {
        let prev = rs.drop_last();
        let last = rs.last();
        assert forall|a: int, b: int| 0 <= a < b < prev.len() implies #[trigger] prev[a].id
            != #[trigger] prev[b].id by {
            assert(prev[a] == rs[a]);
            assert(prev[b] == rs[b]);
        }
        lemma_kept_pending_was_pending(prev, id, now);
        let e = expire_request(last, now);
        lemma_find_request_push(kept_requests(prev, now), e, id);
        assert(rs =~= prev.push(last));
        lemma_find_request_push(prev, last, id);
        if last.id == id {
            assert forall|k: int| 0 <= k < prev.len() implies #[trigger] prev[k].id != id by {
                assert(prev[k] == rs[k]);
                assert(rs[rs.len() - 1] == last);
            }
            lemma_request_index_none(prev, id);
        }
    }
}

proof fn lemma_request_kept(rs: Seq<RequestView>, i: int, now: i64)
    requires
        unique_ids(rs),
        0 <= i < rs.len(),
        expire_request(rs[i], now) == rs[i],
        keep_request(rs[i], now),
    ensures
        find_request(kept_requests(rs, now), rs[i].id) == Some(rs[i]),
    decreases rs.len(),
{
    let prev = rs.drop_last();
    let id = rs[i].id;
    let e = expire_request(rs.last(), now);
    assert(rs.last() == rs[rs.len() - 1]);
    if i == rs.len() - 1 {
        assert forall|k: int| 0 <= k < prev.len() implies #[trigger] prev[k].id != id by {
            assert(prev[k] == rs[k]);
        }
        lemma_kept_missing(prev, id, now);
        lemma_find_request_push(kept_requests(prev, now), e, id);
    } else {
        assert(rs[rs.len() - 1].id != id);
        assert forall|a: int, b: int| 0 <= a < b < prev.len() implies #[trigger] prev[a].id
            != #[trigger] prev[b].id by {
            assert(prev[a] == rs[a]);
            assert(prev[b] == rs[b]);
        }
        assert(prev[i] == rs[i]);
        lemma_request_kept(prev, i, now);
        lemma_find_request_push(kept_requests(prev, now), e, id);
    }
}

/// Approving a request that is pending and unexpired after the clean-up
/// succeeds. The decided request records the approval, the time, the
/// granted scopes (those asked for, else the request's), the token and the
/// session's expiry (`now` plus the lifetime, at least sixty seconds); a
/// status lookup finds it so at any time within the hour it is kept; and the
/// session answers for each granted scope at every time before it expires.
pub proof fn law_approval_of_pending_request(
    st: WebAuthView,
    id: Seq<char>,
    scopes: Option<Seq<WebAccessScope>>,
    ttl_seconds: u64,
    now: i64,
    token: Seq<char>,
    later: i64,
)
    requires
        wf_view(st),
        time_ok(now),
        time_ok(later),
        now <= later < now + DECIDED_REQUEST_KEEP_SECONDS,
        session_fits(ttl_seconds, now),
        find_request(cleaned(st, now).requests, id) matches Some(r) && r.auth_status
            == AUTH_STATUS_PENDING && r.expires_at > now,
    ensures
        ({
            let r = find_request(cleaned(st, now).requests, id)->0;
            let granted = match scopes {
                Some(sc) => sc,
                None => r.scopes,
            };
            let x = (now + session_ttl(ttl_seconds)) as i64;
            let r2 = RequestView {
                auth_status: AUTH_STATUS_APPROVED,
                decided_at: Some(now),
                scopes: granted,
                session_token: Some(token),
                session_expires_at: Some(x),
                ..r
            };
            let d = decided(st, id, AUTH_STATUS_APPROVED, scopes, ttl_seconds, now, token);
            &&& d.1 == Ok::<RequestView, DecisionError>(r2)
            &&& find_request(cleaned(d.0, later).requests, id) == Some(r2)
            &&& forall|s: WebAccessScope, t: i64|
                granted.contains(s) && t < x ==> #[trigger] session_for(d.0, token, Some(s), t)
                    == Some(new_session_view(granted, ttl_seconds, now, token))
        }),
{
    let st1 = cleaned(st, now);
    lemma_cleaned_wf(st, now);
    lemma_request_index_range(st1.requests, id);
    let i = request_index(st1.requests, id);
    let r = st1.requests[i];
    let granted = match scopes {
        Some(sc) => sc,
        None => r.scopes,
    };
    let s = new_session_view(granted, ttl_seconds, now, token);
    let d = decided(st, id, AUTH_STATUS_APPROVED, scopes, ttl_seconds, now, token);
    let r2 = d.1->Ok_0;
    lemma_update_request_wf(st1, i, r2);
    assert(d.0.requests == st1.requests.update(i, r2));
    assert(d.0.requests[i] == r2);
    lemma_request_kept(d.0.requests, i, later);
    assert forall|sc: WebAccessScope, t: i64|
        granted.contains(sc) && t < s.expires_at implies #[trigger] session_for(d.0, token, Some(sc), t)
        == Some(s) by {
        lemma_stored_session_validates(st1.sessions, s, t);
    }
}

proof fn lemma_pending_request_kept(rs: Seq<RequestView>, i: int, now: i64)
    requires
        unique_ids(rs),
        0 <= i < rs.len(),
        rs[i].auth_status == AUTH_STATUS_PENDING,
        rs[i].expires_at > now,
    ensures
        find_request(kept_requests(rs, now), rs[i].id) == Some(rs[i]),
    decreases rs.len(),
{
    let prev = rs.drop_last();
    let id = rs[i].id;
    let e = expire_request(rs.last(), now);
    assert(rs.last() == rs[rs.len() - 1]);
    if i == rs.len() - 1 {
        assert forall|k: int| 0 <= k < prev.len() implies #[trigger] prev[k].id != id by {
            assert(prev[k] == rs[k]);
        }
        lemma_kept_missing(prev, id, now);
        assert(e == rs[i]);
        lemma_find_request_push(kept_requests(prev, now), e, id);
    } else {
        assert(rs[rs.len() - 1].id != id);
        assert forall|a: int, b: int| 0 <= a < b < prev.len() implies #[trigger] prev[a].id
            != #[trigger] prev[b].id by {
            assert(prev[a] == rs[a]);
            assert(prev[b] == rs[b]);
        }
        assert(prev[i] == rs[i]);
        lemma_pending_request_kept(prev, i, now);
        lemma_find_request_push(kept_requests(prev, now), e, id);
    }
}

proof fn lemma_insert_contains(sorted: Seq<RequestView>, r: RequestView)
    ensures
        insert_newest_first(sorted, r).contains(r),
        forall|x: RequestView| sorted.contains(x) ==> #[trigger] insert_newest_first(sorted, r).contains(x),
    decreases sorted.len(),
{
    let ins = insert_newest_first(sorted, r);
    if sorted.len() == 0 {
        assert(ins[0] == r);
    } else if sorted[0].created_at < r.created_at {
        assert(ins[0] == r);
        assert forall|x: RequestView| sorted.contains(x) implies #[trigger] ins.contains(x) by {
            let k = choose|k: int| 0 <= k < sorted.len() && sorted[k] == x;
            assert(ins[k + 1] == x);
        }
    } else {
        let rest = sorted.drop_first();
        lemma_insert_contains(rest, r);
        let sub = insert_newest_first(rest, r);
        assert(ins == seq![sorted[0]] + sub);
        let j = choose|j: int| 0 <= j < sub.len() && sub[j] == r;
        assert(ins[j + 1] == r);
        assert forall|x: RequestView| sorted.contains(x) implies #[trigger] ins.contains(x) by {
            let k = choose|k: int| 0 <= k < sorted.len() && sorted[k] == x;
            if k == 0 {
                assert(ins[0] == x);
            } else {
                assert(rest[k - 1] == x);
                assert(rest.contains(x));
                assert(insert_newest_first(rest, r).contains(x));
                let m = choose|m: int| 0 <= m < sub.len() && sub[m] == x;
                assert(ins[m + 1] == x);
            }
        }
    }
}

proof fn lemma_newest_first_contains(rs: Seq<RequestView>)
    ensures
        forall|x: RequestView| rs.contains(x) ==> #[trigger] newest_first(rs).contains(x),
    decreases rs.len(),
{
    if rs.len() > 0 {
        let prev = rs.drop_last();
        lemma_newest_first_contains(prev);
        lemma_insert_contains(newest_first(prev), rs.last());
        assert forall|x: RequestView| rs.contains(x) implies #[trigger] newest_first(rs).contains(x) by {
            let k = choose|k: int| 0 <= k < rs.len() && rs[k] == x;
            if k < rs.len() - 1 {
                assert(prev[k] == x);
                assert(prev.contains(x));
            }
        }
    }
}

proof fn lemma_pending_only_contains(rs: Seq<RequestView>, i: int)
    requires
        0 <= i < rs.len(),
        rs[i].auth_status == AUTH_STATUS_PENDING,
    ensures
        pending_only(rs).contains(rs[i]),
    decreases rs.len(),
{
    let prev = rs.drop_last();
    if i == rs.len() - 1 {
        let p = pending_only(prev).push(rs.last());
        assert(p[p.len() - 1] == rs[i]);
    } else {
        assert(prev[i] == rs[i]);
        lemma_pending_only_contains(prev, i);
        let q = pending_only(prev);
        let k = choose|k: int| 0 <= k < q.len() && q[k] == rs[i];
        if rs.last().auth_status == AUTH_STATUS_PENDING {
            assert(q.push(rs.last())[k] == rs[i]);
        }
    }
}

/// A new web request is found by its id, pending and as it was created, at
/// any later time before it expires, and the list of pending requests holds
/// it until then.
pub proof fn law_created_request_is_found(
    st: WebAuthView,
    id: Seq<char>,
    client_label: Seq<char>,
    ip: Seq<char>,
    user_agent: Option<Seq<char>>,
    scopes: Seq<WebAccessScope>,
    now: i64,
    later: i64,
)
    requires
        wf_view(st),
        time_ok(now),
        time_ok(later),
        later < now + REQUEST_TTL_SECONDS,
    ensures
        find_request(
            cleaned(
                created(st, new_request_view(id, client_label, ip, user_agent, scopes, now), now),
                later,
            ).requests,
            id,
        ) == Some(new_request_view(id, client_label, ip, user_agent, scopes, now)),
        newest_first(
            pending_only(
                cleaned(
                    created(st, new_request_view(id, client_label, ip, user_agent, scopes, now), now),
                    later,
                ).requests,
            ),
        ).contains(new_request_view(id, client_label, ip, user_agent, scopes, now)),
{
    let r = new_request_view(id, client_label, ip, user_agent, scopes, now);
    let st1 = cleaned(st, now);
    lemma_cleaned_wf(st, now);
    lemma_upsert_request_wf(st1, r);
    let rs = upsert_request(st1.requests, r);
    lemma_request_index_range(st1.requests, id);
    let k0 = request_index(st1.requests, id);
    let k = if k0 >= 0 {
        k0
    } else {
        st1.requests.len() as int
    };
    assert(rs[k] == r);
    assert(created(st, r, now).requests == rs);
    lemma_pending_request_kept(rs, k, later);
    let kr = cleaned(created(st, r, now), later).requests;
    lemma_request_index_range(kr, id);
    let j = request_index(kr, id);
    assert(kr[j] == r);
    lemma_pending_only_contains(kr, j);
    lemma_newest_first_contains(pending_only(kr));
}

/// A request is decided at most once: after a successful decision, every
/// later decision on the same id is refused.
pub proof fn law_request_decided_once(
    st: WebAuthView,
    id: Seq<char>,
    status: i32,
    scopes: Option<Seq<WebAccessScope>>,
    ttl_seconds: u64,
    now: i64,
    token: Seq<char>,
    status2: i32,
    scopes2: Option<Seq<WebAccessScope>>,
    ttl2: u64,
    later: i64,
    token2: Seq<char>,
)
    requires
        wf_view(st),
        time_ok(now),
        time_ok(later),
        decided(st, id, status, scopes, ttl_seconds, now, token).1 is Ok,
    ensures
        decided(
            decided(st, id, status, scopes, ttl_seconds, now, token).0,
            id,
            status2,
            scopes2,
            ttl2,
            later,
            token2,
        ).1 is Err,
{
    let st1 = cleaned(st, now);
    lemma_cleaned_wf(st, now);
    let i = request_index(st1.requests, id);
    lemma_request_index_range(st1.requests, id);
    let d = decided(st, id, status, scopes, ttl_seconds, now, token);
    let r2 = d.1->Ok_0;
    lemma_update_request_wf(st1, i, r2);
    assert(d.0.requests == st1.requests.update(i, r2));
    assert(d.0.requests[i] == r2);
    lemma_decided_request_stays_decided(d.0.requests, i, later);
}

proof fn lemma_live_twice(ss: Seq<SessionView>, now: i64)
    ensures
        live_sessions(live_sessions(ss, now), now) == live_sessions(ss, now),
    decreases ss.len(),
{
    if ss.len() > 0 {
        let prev = ss.drop_last();
        lemma_live_twice(prev, now);
        if ss.last().expires_at > now {
            let l = live_sessions(prev, now).push(ss.last());
            assert(l.drop_last() =~= live_sessions(prev, now));
        }
    }
}

proof fn lemma_kept_twice(rs: Seq<RequestView>, now: i64)
    ensures
        kept_requests(kept_requests(rs, now), now) == kept_requests(rs, now),
    decreases rs.len(),
{
    if rs.len() > 0 {
        let prev = rs.drop_last();
        lemma_kept_twice(prev, now);
        let e = expire_request(rs.last(), now);
        if keep_request(e, now) {
            let k = kept_requests(prev, now).push(e);
            assert(k.drop_last() =~= kept_requests(prev, now));
            assert(expire_request(e, now) == e);
        }
    }
}

/// Cleaning up twice at the same time changes nothing more than once.
pub proof fn law_cleanup_idempotent(st: WebAuthView, now: i64)
    ensures
        cleaned(cleaned(st, now), now) == cleaned(st, now),
{
    lemma_live_twice(st.sessions, now);
    lemma_kept_twice(st.requests, now);
}

pub open spec fn newest_first_ordered(rs: Seq<RequestView>) -> bool {
    forall|i: int, j: int| 0 <= i < j < rs.len() ==> #[trigger] rs[i].created_at >= #[trigger] rs[j].created_at
}

proof fn lemma_insert_keeps_order(sorted: Seq<RequestView>, r: RequestView)
    requires
        newest_first_ordered(sorted),
    ensures
        newest_first_ordered(insert_newest_first(sorted, r)),
        insert_newest_first(sorted, r).len() == sorted.len() + 1,
        forall|k: int|
            0 <= k < insert_newest_first(sorted, r).len() ==> (#[trigger] insert_newest_first(
                sorted,
                r,
            )[k] == r || sorted.contains(insert_newest_first(sorted, r)[k])),
    decreases sorted.len(),
{
    if sorted.len() > 0 && sorted[0].created_at >= r.created_at {
        let tail = sorted.drop_first();
        assert forall|i: int, j: int| 0 <= i < j < tail.len() implies #[trigger] tail[i].created_at
            >= #[trigger] tail[j].created_at by {
            assert(tail[i] == sorted[i + 1]);
            assert(tail[j] == sorted[j + 1]);
        }
        lemma_insert_keeps_order(tail, r);
        let ins = insert_newest_first(tail, r);
        let res = insert_newest_first(sorted, r);
        assert(res == seq![sorted[0]] + ins);
        assert forall|k: int| 0 <= k < res.len() implies (#[trigger] res[k] == r || sorted.contains(
            res[k],
        )) by {
            if k > 0 {
                assert(res[k] == ins[k - 1]);
                if ins[k - 1] != r {
                    let m = choose|m: int| 0 <= m < tail.len() && tail[m] == ins[k - 1];
                    assert(sorted[m + 1] == tail[m]);
                }
            }
        }
        assert forall|i: int, j: int| 0 <= i < j < res.len() implies #[trigger] res[i].created_at
            >= #[trigger] res[j].created_at by {
            if i == 0 {
                assert(res[j] == ins[j - 1]);
                if ins[j - 1] != r {
                    let m = choose|m: int| 0 <= m < tail.len() && tail[m] == ins[j - 1];
                    assert(sorted[m + 1] == tail[m]);
                }
            } else {
                assert(res[i] == ins[i - 1]);
                assert(res[j] == ins[j - 1]);
            }
        }
    } else if sorted.len() > 0 {
        let res = insert_newest_first(sorted, r);
        assert(res == seq![r] + sorted);
        assert forall|k: int| 0 <= k < res.len() implies (#[trigger] res[k] == r || sorted.contains(
            res[k],
        )) by {
            if k > 0 {
                assert(res[k] == sorted[k - 1]);
            }
        }
        assert forall|i: int, j: int| 0 <= i < j < res.len() implies #[trigger] res[i].created_at
            >= #[trigger] res[j].created_at by {
            if i == 0 {
                assert(res[j] == sorted[j - 1]);
                assert(sorted[0].created_at >= sorted[j - 1].created_at || j - 1 == 0);
            } else {
                assert(res[i] == sorted[i - 1]);
                assert(res[j] == sorted[j - 1]);
            }
        }
    }
}

proof fn lemma_newest_first_ordered(rs: Seq<RequestView>)
    ensures
        newest_first_ordered(newest_first(rs)),
        newest_first(rs).len() == rs.len(),
        forall|k: int| 0 <= k < newest_first(rs).len() ==> rs.contains(#[trigger] newest_first(rs)[k]),
    decreases rs.len(),
{
    if rs.len() > 0 {
        let prev = rs.drop_last();
        lemma_newest_first_ordered(prev);
        lemma_insert_keeps_order(newest_first(prev), rs.last());
        let res = newest_first(rs);
        assert forall|k: int| 0 <= k < res.len() implies rs.contains(#[trigger] res[k]) by {
            if res[k] == rs.last() {
                assert(rs[rs.len() - 1] == rs.last());
            } else {
                let m = choose|m: int| 0 <= m < newest_first(prev).len() && newest_first(prev)[m] == res[k];
                let n = choose|n: int| 0 <= n < prev.len() && prev[n] == newest_first(prev)[m];
                assert(rs[n] == prev[n]);
            }
        }
    }
}

proof fn lemma_pending_only_pending(rs: Seq<RequestView>)
    ensures
        forall|k: int| 0 <= k < pending_only(rs).len() ==> (#[trigger] pending_only(rs)[k]).auth_status
            == AUTH_STATUS_PENDING,
    decreases rs.len(),
{
    if rs.len() > 0 {
        lemma_pending_only_pending(rs.drop_last());
    }
}

/// The list of pending requests holds pending requests only, ordered from
/// the newest to the oldest.
pub proof fn law_pending_list_newest_first(st: WebAuthView, now: i64)
    ensures
        newest_first_ordered(newest_first(pending_only(cleaned(st, now).requests))),
        forall|k: int|
            0 <= k < newest_first(pending_only(cleaned(st, now).requests)).len() ==> (
            #[trigger] newest_first(pending_only(cleaned(st, now).requests))[k]).auth_status
                == AUTH_STATUS_PENDING,
{
    let p = pending_only(cleaned(st, now).requests);
    lemma_newest_first_ordered(p);
    lemma_pending_only_pending(cleaned(st, now).requests);
    assert forall|k: int| 0 <= k < newest_first(p).len() implies (#[trigger] newest_first(p)[k]).auth_status
        == AUTH_STATUS_PENDING by {
        assert(p.contains(newest_first(p)[k]));
        let m = choose|m: int| 0 <= m < p.len() && p[m] == newest_first(p)[k];
        assert(p[m].auth_status == AUTH_STATUS_PENDING);
    }
}

} // verus!
