use vstd::prelude::*;

use crate::config::AppConfig;
use crate::text::strs::{chars_eq, chars_of, opt_str_view, string_of, trim_ws, trimmed};
use crate::web::{cookie_value, cookie_value_spec};
use crate::web_auth::{
    cleaned, scope_enabled, session_for, wf_view, WebAccessScope, WebAuthState, COOKIE_NAME,
    TIMESTAMP_BOUND, AUTH_STATUS_APPROVED, AUTH_STATUS_PENDING, AUTH_STATUS_REJECTED,
};

verus! {

broadcast use vstd::string::group_string_axioms;

/// The text, trimmed, where it is present and not blank.
pub open spec fn trimmed_nonblank(v: Option<Seq<char>>) -> Option<Seq<char>> {
    match v {
        Some(s) => if trim_ws(s).len() > 0 {
            Some(trim_ws(s))
        } else {
            None
        },
        None => None,
    }
}

pub(crate) fn trimmed_nonblank_exec(v: Option<&str>) -> (r: Option<String>)
    ensures
        match r {
            Some(s) => trimmed_nonblank(opt_str_view(v)) == Some(s@),
            None => trimmed_nonblank(opt_str_view(v)) is None,
        },
{
    match v {
        Some(s) => {
            let t = trimmed(s);
            if t.len() > 0 {
                Some(string_of(&t))
            } else {
                None
            }
        },
        None => None,
    }
}

// ---------------------------------------------------------------------------
// Browser requests
// ---------------------------------------------------------------------------

/// Why a browser request was refused.
#[derive(Debug, Clone, Copy, PartialEq, Eq, Structural)]
pub enum BrowserRefusal {
    /// Browser access is switched off.
    AccessDisabled,
    /// The settings do not enable the scope asked for.
    ScopeDisabled,
    /// The request carries no session that grants the scope.
    AuthRequired,
}

impl BrowserRefusal {
    /// The title of the page that answers the refusal.
    pub fn title(&self) -> (s: &'static str)
        ensures
            s@ == match self {
                BrowserRefusal::AccessDisabled => "浏览器访问已关闭"@,
                BrowserRefusal::ScopeDisabled => "没有访问权限"@,
                BrowserRefusal::AuthRequired => "需要授权"@,
            },
    {
        match self {
            BrowserRefusal::AccessDisabled => "浏览器访问已关闭",
            BrowserRefusal::ScopeDisabled => "没有访问权限",
            BrowserRefusal::AuthRequired => "需要授权",
        }
    }

    /// The HTML message of the page that answers the refusal.
    pub fn message(&self) -> (s: &'static str)
        ensures
            s@ == match self {
                BrowserRefusal::AccessDisabled => "请在 Share Clip 设置中开启浏览器访问。"@,
                BrowserRefusal::ScopeDisabled =>
                    "当前网页访问权限未启用，请在 Share Clip 设置中调整 Web 权限粒度。"@,
                BrowserRefusal::AuthRequired =>
                    "请先打开 <a href=\"/auth\">Web 授权页面</a>，使用访问密码或临时确认后再继续访问。"@,
            },
    {
        match self {
            BrowserRefusal::AccessDisabled => "请在 Share Clip 设置中开启浏览器访问。",
            BrowserRefusal::ScopeDisabled =>
                "当前网页访问权限未启用，请在 Share Clip 设置中调整 Web 权限粒度。",
            BrowserRefusal::AuthRequired =>
                "请先打开 <a href=\"/auth\">Web 授权页面</a>，使用访问密码或临时确认后再继续访问。",
        }
    }
}

/// Whether a browser may make a request for `scope`: browser access must
/// be on and the scope enabled; where the settings ask for authorization,
/// the request's session cookie must name a live session that grants the
/// scope. Only the session check reads (and cleans) the web sessions.
pub fn authorize_browser_request(
    config: &AppConfig,
    auth: &mut WebAuthState,
    cookie_header: Option<&str>,
    scope: WebAccessScope,
) -> (r: Result<(), BrowserRefusal>)
    requires
        wf_view(old(auth)@),
    ensures
        wf_view(final(auth)@),
        !config.browser_access_enabled ==> r == Err::<(), BrowserRefusal>(
            BrowserRefusal::AccessDisabled,
        ) && final(auth)@ == old(auth)@,
        config.browser_access_enabled && !scope_enabled(*config, scope) ==> r == Err::<
            (),
            BrowserRefusal,
        >(BrowserRefusal::ScopeDisabled) && final(auth)@ == old(auth)@,
        config.browser_access_enabled && scope_enabled(*config, scope)
            && !config.web_access_auth_required ==> r is Ok && final(auth)@ == old(auth)@,
        config.browser_access_enabled && scope_enabled(*config, scope)
            && config.web_access_auth_required ==> match cookie_header {
            None => r == Err::<(), BrowserRefusal>(BrowserRefusal::AuthRequired) && final(auth)@
                == old(auth)@,
            Some(h) => match cookie_value_spec(h@, COOKIE_NAME@) {
                None => r == Err::<(), BrowserRefusal>(BrowserRefusal::AuthRequired)
                    && final(auth)@ == old(auth)@,
                Some(token) => exists|now: i64|
                    -TIMESTAMP_BOUND < now < TIMESTAMP_BOUND && final(auth)@ == cleaned(
                        old(auth)@,
                        now,
                    ) && (r is Ok <==> session_for(old(auth)@, token, Some(scope), now) is Some)
                        && (r is Err ==> r == Err::<(), BrowserRefusal>(
                        BrowserRefusal::AuthRequired,
                    )),
            },
        },
{
    if !config.browser_access_enabled {
        return Err(BrowserRefusal::AccessDisabled);
    }
    if !crate::web_auth::is_scope_enabled(config, scope) {
        return Err(BrowserRefusal::ScopeDisabled);
    }
    if !config.web_access_auth_required {
        return Ok(());
    }
    let header = match cookie_header {
        Some(h) => h,
        None => {
            return Err(BrowserRefusal::AuthRequired);
        },
    };
    let token = match cookie_value(header, COOKIE_NAME) {
        Some(t) => t,
        None => {
            return Err(BrowserRefusal::AuthRequired);
        },
    };
    match auth.validate_session(token.as_str(), scope) {
        Some(_) => Ok(()),
        None => Err(BrowserRefusal::AuthRequired),
    }
}

// ---------------------------------------------------------------------------
// Devices that connect to this one
// ---------------------------------------------------------------------------

/// A device's stored connection to this one.
pub struct InboundConnectionRow {
    pub user_id: String,
    pub user_name: Option<String>,
    pub ip: String,
    pub device_id: Option<String>,
    pub auth_status: i32,
    pub is_shared: i32,
    pub is_trusted: i32,
    pub granted_at: Option<i64>,
    pub revoked_at: Option<i64>,
    pub last_seen_at: Option<i64>,
}

/// Why a device's connection request was refused.
#[derive(Debug, Clone, Copy, PartialEq, Eq, Structural)]
pub enum ConnectionRefusal {
    /// The request names no user.
    MissingUserId,
    /// The server asks for a password, and the request's does not match.
    BadPassword,
}

impl ConnectionRefusal {
    /// The message of the refusal.
    pub fn message(&self) -> (s: &'static str)
        ensures
            s@ == match self {
                ConnectionRefusal::MissingUserId => "user_id is required"@,
                ConnectionRefusal::BadPassword => "password required or invalid"@,
            },
    {
        match self {
            ConnectionRefusal::MissingUserId => "user_id is required",
            ConnectionRefusal::BadPassword => "password required or invalid",
        }
    }
}

/// The status a connection request leaves: a decided connection keeps its
/// decision, else open servers approve at once and the others wait.
pub open spec fn requested_auth_status(existing: Option<i32>, auth_mode: i32) -> i32 {
    if existing == Some(AUTH_STATUS_APPROVED) {
        AUTH_STATUS_APPROVED
    } else if existing == Some(AUTH_STATUS_REJECTED) {
        AUTH_STATUS_REJECTED
    } else if auth_mode == 0 {
        AUTH_STATUS_APPROVED
    } else {
        AUTH_STATUS_PENDING
    }
}

/// Whether the request's password passes: always where the server asks for
/// none; else the stored password, trimmed, must be set and equal the
/// supplied one, trimmed (empty where none is supplied).
pub open spec fn password_passes(
    password_enabled: bool,
    password_hash: Option<Seq<char>>,
    supplied: Option<Seq<char>>,
) -> bool {
    !password_enabled || match trimmed_nonblank(password_hash) {
        None => false,
        Some(expected) => expected == match supplied {
            Some(s) => trim_ws(s),
            None => Seq::empty(),
        },
    }
}

/// The address of a request, trimmed, `unknown` where it is blank.
pub open spec fn request_ip(ip: Option<Seq<char>>) -> Seq<char> {
    match trimmed_nonblank(ip) {
        Some(v) => v,
        None => "unknown"@,
    }
}

/// The stored connection after a device's request: the request's name,
/// device and address, the new status and the time it was seen; an
/// approval shares with the device, trusts it and records the grant.
pub open spec fn connection_after_request(
    existing: Option<InboundConnectionRow>,
    user_id: Seq<char>,
    user_name: Option<Seq<char>>,
    device_id: Option<Seq<char>>,
    ip: Seq<char>,
    status: i32,
    now: i64,
    row: InboundConnectionRow,
) -> bool {
    let approved = status == AUTH_STATUS_APPROVED;
    &&& opt_string_view(row.user_name) == user_name
    &&& opt_string_view(row.device_id) == device_id
    &&& row.ip@ == ip
    &&& row.auth_status == status
    &&& row.last_seen_at == Some(now)
    &&& match existing {
        Some(old) => {
            &&& row.user_id@ == old.user_id@
            &&& row.is_shared == if approved {
                1
            } else {
                old.is_shared
            }
            &&& row.is_trusted == if approved {
                1
            } else {
                old.is_trusted
            }
            &&& row.granted_at == if approved {
                Some(now)
            } else {
                old.granted_at
            }
            &&& row.revoked_at == if approved {
                None
            } else {
                old.revoked_at
            }
        },
        None => {
            &&& row.user_id@ == user_id
            &&& row.is_shared == if approved {
                1i32
            } else {
                0i32
            }
            &&& row.is_trusted == row.is_shared
            &&& row.granted_at == if approved {
                Some(now)
            } else {
                None
            }
            &&& row.revoked_at is None
        },
    }
}

pub open spec fn opt_string_view(v: Option<String>) -> Option<Seq<char>> {
    match v {
        Some(s) => Some(s@),
        None => None,
    }
}

/// What a device's connection request does: refused without a user or
/// with a wrong password; else the stored connection as it stands after the
/// request, which the caller writes back.
pub fn connection_request_decision(
    user_id: &str,
    user_name: Option<&str>,
    device_id: Option<&str>,
    password: Option<&str>,
    ip: Option<&str>,
    password_enabled: bool,
    password_hash: Option<&str>,
    auth_mode: i32,
    existing: Option<InboundConnectionRow>,
    now: i64,
) -> (r: Result<InboundConnectionRow, ConnectionRefusal>)
    ensures
        trim_ws(user_id@).len() == 0 ==> r == Err::<InboundConnectionRow, ConnectionRefusal>(
            ConnectionRefusal::MissingUserId,
        ),
        trim_ws(user_id@).len() > 0 && !password_passes(
            password_enabled,
            opt_str_view(password_hash),
            opt_str_view(password),
        ) ==> r == Err::<InboundConnectionRow, ConnectionRefusal>(ConnectionRefusal::BadPassword),
        trim_ws(user_id@).len() > 0 && password_passes(
            password_enabled,
            opt_str_view(password_hash),
            opt_str_view(password),
        ) ==> (r matches Ok(row) && connection_after_request(
            existing,
            trim_ws(user_id@),
            trimmed_nonblank(opt_str_view(user_name)),
            trimmed_nonblank(opt_str_view(device_id)),
            request_ip(opt_str_view(ip)),
            requested_auth_status(
                match existing {
                    Some(e) => Some(e.auth_status),
                    None => None,
                },
                auth_mode,
            ),
            now,
            row,
        )),
{
    let uid = trimmed(user_id);
    if uid.len() == 0 {
        return Err(ConnectionRefusal::MissingUserId);
    }
    if password_enabled {
        let expected = trimmed_nonblank_exec(password_hash);
        let supplied: Vec<char> = match password {
            Some(p) => trimmed(p),
            None => Vec::new(),
        };
        let ok = match &expected {
            None => false,
            Some(e) => chars_eq(&chars_of(e.as_str()), &supplied),
        };
        if !ok {
            return Err(ConnectionRefusal::BadPassword);
        }
    }
    let existing_status: Option<i32> = match &existing {
        Some(e) => Some(e.auth_status),
        None => None,
    };
    let status: i32 = if existing_status == Some(AUTH_STATUS_APPROVED) {
        AUTH_STATUS_APPROVED
    } else if existing_status == Some(AUTH_STATUS_REJECTED) {
        AUTH_STATUS_REJECTED
    } else if auth_mode == 0 {
        AUTH_STATUS_APPROVED
    } else {
        AUTH_STATUS_PENDING
    };
    let approved = status == AUTH_STATUS_APPROVED;
    let name = trimmed_nonblank_exec(user_name);
    let device = trimmed_nonblank_exec(device_id);
    let address = match trimmed_nonblank_exec(ip) {
        Some(v) => v,
        None => String::from_str("unknown"),
    };
    match existing {
        Some(old) => Ok(
            InboundConnectionRow {
                user_id: old.user_id,
                user_name: name,
                ip: address,
                device_id: device,
                auth_status: status,
                is_shared: if approved {
                    1
                } else {
                    old.is_shared
                },
                is_trusted: if approved {
                    1
                } else {
                    old.is_trusted
                },
                granted_at: if approved {
                    Some(now)
                } else {
                    old.granted_at
                },
                revoked_at: if approved {
                    None
                } else {
                    old.revoked_at
                },
                last_seen_at: Some(now),
            },
        ),
        None => Ok(
            InboundConnectionRow {
                user_id: string_of(&uid),
                user_name: name,
                ip: address,
                device_id: device,
                auth_status: status,
                is_shared: if approved {
                    1
                } else {
                    0
                },
                is_trusted: if approved {
                    1
                } else {
                    0
                },
                granted_at: if approved {
                    Some(now)
                } else {
                    None
                },
                revoked_at: None,
                last_seen_at: Some(now),
            },
        ),
    }
}

/// Why a client's file request was refused.
#[derive(Debug, Clone, Copy, PartialEq, Eq, Structural)]
pub enum ClientRefusal {
    /// The request names no user (answered as unauthorized).
    MissingUserId,
    /// The request names no device (answered as unauthorized).
    MissingDeviceId,
    /// No connection is stored for the user (answered as unauthorized).
    UnknownConnection,
    /// The connection is not approved or not shared (answered as forbidden).
    NotApproved,
    /// The request comes from another device than the approved one
    /// (answered as forbidden).
    UntrustedDevice,
}

impl ClientRefusal {
    /// The message of the refusal.
    pub fn message(&self) -> (s: &'static str)
        ensures
            s@ == match self {
                ClientRefusal::MissingUserId => "missing user id"@,
                ClientRefusal::MissingDeviceId => "missing device id"@,
                ClientRefusal::UnknownConnection => "connection is not approved"@,
                ClientRefusal::NotApproved => "connection is not approved"@,
                ClientRefusal::UntrustedDevice => "device is not trusted"@,
            },
    {
        match self {
            ClientRefusal::MissingUserId => "missing user id",
            ClientRefusal::MissingDeviceId => "missing device id",
            ClientRefusal::UnknownConnection => "connection is not approved",
            ClientRefusal::NotApproved => "connection is not approved",
            ClientRefusal::UntrustedDevice => "device is not trusted",
        }
    }

    /// Whether the refusal is answered as unauthorized (else forbidden).
    pub fn is_unauthorized(&self) -> (b: bool)
        ensures
            b == !(*self == ClientRefusal::NotApproved || *self == ClientRefusal::UntrustedDevice),
    {
        match self {
            ClientRefusal::NotApproved => false,
            ClientRefusal::UntrustedDevice => false,
            _ => true,
        }
    }
}

/// The user and device that a client request names, trimmed; refused where
/// either header is missing or blank (the user first).
pub fn client_credentials(user_id_header: Option<&str>, device_id_header: Option<&str>) -> (r:
    Result<(String, String), ClientRefusal>)
    ensures
        trimmed_nonblank(opt_str_view(user_id_header)) is None ==> r == Err::<
            (String, String),
            ClientRefusal,
        >(ClientRefusal::MissingUserId),
        trimmed_nonblank(opt_str_view(user_id_header)) is Some && trimmed_nonblank(
            opt_str_view(device_id_header),
        ) is None ==> r == Err::<(String, String), ClientRefusal>(ClientRefusal::MissingDeviceId),
        r matches Ok(ids) ==> trimmed_nonblank(opt_str_view(user_id_header)) == Some(ids.0@)
            && trimmed_nonblank(opt_str_view(device_id_header)) == Some(ids.1@),
        (trimmed_nonblank(opt_str_view(user_id_header)) is Some && trimmed_nonblank(
            opt_str_view(device_id_header),
        ) is Some) ==> r is Ok,
{
    let user = match trimmed_nonblank_exec(user_id_header) {
        Some(u) => u,
        None => {
            return Err(ClientRefusal::MissingUserId);
        },
    };
    let device = match trimmed_nonblank_exec(device_id_header) {
        Some(d) => d,
        None => {
            return Err(ClientRefusal::MissingDeviceId);
        },
    };
    Ok((user, device))
}

/// Whether a stored connection lets the device `device_id` read shared files.
pub open spec fn client_row_spec(row: Option<InboundConnectionRow>, device_id: Seq<char>) -> Result<
    (),
    ClientRefusal,
> {
    match row {
        None => Err(ClientRefusal::UnknownConnection),
        Some(r) => if r.auth_status != AUTH_STATUS_APPROVED || r.is_shared != 1 {
            Err(ClientRefusal::NotApproved)
        } else if opt_string_view(r.device_id) != Some(device_id) {
            Err(ClientRefusal::UntrustedDevice)
        } else {
            Ok(())
        },
    }
}

/// Whether a stored connection lets the device `device_id` read shared files:
/// it must exist, be approved and shared, and be bound to that device.
pub fn client_row_decision(row: Option<&InboundConnectionRow>, device_id: &str) -> (r: Result<
    (),
    ClientRefusal,
>)
    ensures
        r == client_row_spec(
            match row {
                Some(x) => Some(*x),
                None => None,
            },
            device_id@,
        ),
{
    let row = match row {
        None => {
            return Err(ClientRefusal::UnknownConnection);
        },
        Some(r) => r,
    };
    if row.auth_status != AUTH_STATUS_APPROVED || row.is_shared != 1 {
        return Err(ClientRefusal::NotApproved);
    }
    match &row.device_id {
        Some(d) => if chars_eq(&chars_of(d.as_str()), &chars_of(device_id)) {
            Ok(())
        } else {
            Err(ClientRefusal::UntrustedDevice)
        },
        None => Err(ClientRefusal::UntrustedDevice),
    }
}

/// A connection that a request leaves approved lets the requesting device
/// in: it is shared and bound to the request's device.
pub proof fn law_approved_request_admits_its_device(
    existing: Option<InboundConnectionRow>,
    user_id: Seq<char>,
    user_name: Option<Seq<char>>,
    device_id: Seq<char>,
    ip: Seq<char>,
    now: i64,
    row: InboundConnectionRow,
)
    requires
        connection_after_request(
            existing,
            user_id,
            user_name,
            Some(device_id),
            ip,
            AUTH_STATUS_APPROVED,
            now,
            row,
        ),
    ensures
        client_row_spec(Some(row), device_id) == Ok::<(), ClientRefusal>(()),
{
}

/// A connection that was approved or rejected keeps that decision when the
/// device asks again, whatever the server's mode.
pub proof fn law_decision_survives_new_request(existing_status: i32, auth_mode: i32)
    requires
        existing_status == AUTH_STATUS_APPROVED || existing_status == AUTH_STATUS_REJECTED,
    ensures
        requested_auth_status(Some(existing_status), auth_mode) == existing_status,
{
}

} // verus!
