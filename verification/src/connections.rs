use vstd::prelude::*;

use crate::access::{
    client_row_spec, opt_string_view, trimmed_nonblank, trimmed_nonblank_exec, ClientRefusal,
    InboundConnectionRow,
};
use crate::models::AppError;
use crate::remote_share::{UpdateRemoteAuthStatusPayload, UpsertRemoteShareUserPayload};
use crate::text::strs::{chars_eq, chars_of, string_of, trim_ws, trimmed};
use crate::web_auth::{AUTH_STATUS_APPROVED, AUTH_STATUS_REJECTED};

verus! {

broadcast use vstd::string::group_string_axioms;

// ---------------------------------------------------------------------------
// Connections from this device to remote ones
// ---------------------------------------------------------------------------

/// A stored connection from this device to a remote one.
pub struct OutboundConnectionRow {
    pub user_id: String,
    pub user_name: String,
    pub ip: String,
    pub password: Option<String>,
    pub device_id: Option<String>,
    pub display_name: Option<String>,
    pub auth_token: Option<String>,
    pub auth_status: i32,
    pub last_connected_at: Option<i64>,
}

/// The message of a remote user saved without an id, a name or an address.
pub open spec fn missing_remote_fields_message() -> Seq<char> {
    "设备ID、设备名称、访问地址不能为空"@
}

/// Whether a remote user to save lacks an id, a name or an address (each
/// read trimmed).
pub open spec fn remote_fields_missing(p: UpsertRemoteShareUserPayload) -> bool {
    trim_ws(p.user_id@).len() == 0 || trim_ws(p.user_name@).len() == 0 || trim_ws(p.ip@).len() == 0
}

/// A remote user to save, cleaned: id, name and address trimmed; password
/// and device id trimmed, and dropped where blank. Refused where the id, the
/// name or the address is blank.
pub fn remote_share_user_input(payload: UpsertRemoteShareUserPayload) -> (r: Result<
    UpsertRemoteShareUserPayload,
    AppError,
>)
    ensures
        r is Err <==> remote_fields_missing(payload),
        match r {
            Ok(p) => {
                &&& p.user_id@ == trim_ws(payload.user_id@)
                &&& p.user_name@ == trim_ws(payload.user_name@)
                &&& p.ip@ == trim_ws(payload.ip@)
                &&& opt_string_view(p.password) == trimmed_nonblank(
                    opt_string_view(payload.password),
                )
                &&& opt_string_view(p.device_id) == trimmed_nonblank(
                    opt_string_view(payload.device_id),
                )
            },
            Err(e) => e matches AppError::InvalidInput(m) && m@ == missing_remote_fields_message(),
        },
{
    let user_id = trimmed(payload.user_id.as_str());
    let user_name = trimmed(payload.user_name.as_str());
    let ip = trimmed(payload.ip.as_str());
    let password = match &payload.password {
        Some(s) => trimmed_nonblank_exec(Some(s.as_str())),
        None => None,
    };
    let device_id = match &payload.device_id {
        Some(s) => trimmed_nonblank_exec(Some(s.as_str())),
        None => None,
    };
    if user_id.len() == 0 || user_name.len() == 0 || ip.len() == 0 {
        proof {
            reveal_strlit("设备ID、设备名称、访问地址不能为空");
        }
        return Err(AppError::InvalidInput(String::from_str("设备ID、设备名称、访问地址不能为空")));
    }
    Ok(
        UpsertRemoteShareUserPayload {
            user_id: string_of(&user_id),
            user_name: string_of(&user_name),
            ip: string_of(&ip),
            password,
            device_id,
        },
    )
}

fn same_opt_text(a: &Option<String>, b: &Option<String>) -> (r: bool)
    ensures
        r == (opt_string_view(*a) == opt_string_view(*b)),
{
    match (a, b) {
        (Some(x), Some(y)) => chars_eq(&chars_of(x.as_str()), &chars_of(y.as_str())),
        (None, None) => true,
        _ => false,
    }
}

/// Whether saving a remote user at `ip` with `password` changes how this
/// device authenticates to it.
pub open spec fn auth_changed(existing: OutboundConnectionRow, ip: Seq<char>, password: Option<
    Seq<char>,
>) -> bool {
    existing.ip@ != ip || opt_string_view(existing.password) != password
}

/// Whether `r` is the stored connection after saving the cleaned remote user
/// `input` over `existing`: a stored one takes the new name, address,
/// password and device, and loses its authorization where the address or
/// the password changed; a new one starts unauthorized.
pub open spec fn saved_connection(
    existing: Option<OutboundConnectionRow>,
    input: UpsertRemoteShareUserPayload,
    r: OutboundConnectionRow,
) -> bool {
    &&& r.user_name == input.user_name
    &&& r.ip == input.ip
    &&& r.password == input.password
    &&& r.device_id == input.device_id
    &&& match existing {
        Some(e) => {
            &&& r.user_id == e.user_id
            &&& r.display_name == e.display_name
            &&& if auth_changed(e, input.ip@, opt_string_view(input.password)) {
                r.auth_status == 0 && r.auth_token is None && r.last_connected_at is None
            } else {
                r.auth_status == e.auth_status && r.auth_token == e.auth_token
                    && r.last_connected_at == e.last_connected_at
            }
        },
        None => {
            &&& r.user_id == input.user_id
            &&& r.display_name is None
            &&& r.auth_status == 0
            &&& r.auth_token is None
            &&& r.last_connected_at is None
        },
    }
}

/// The stored connection after saving a cleaned remote user.
pub fn saved_remote_share_user(
    existing: Option<OutboundConnectionRow>,
    input: UpsertRemoteShareUserPayload,
) -> (r: OutboundConnectionRow)
    ensures
        saved_connection(existing, input, r),
{
    match existing {
        Some(e) => {
            let ip_same = chars_eq(&chars_of(e.ip.as_str()), &chars_of(input.ip.as_str()));
            let password_same = same_opt_text(&e.password, &input.password);
            let changed = !ip_same || !password_same;
            let OutboundConnectionRow {
                user_id,
                display_name,
                auth_token,
                auth_status,
                last_connected_at,
                ..
            } = e;
            if changed {
                OutboundConnectionRow {
                    user_id,
                    user_name: input.user_name,
                    ip: input.ip,
                    password: input.password,
                    device_id: input.device_id,
                    display_name,
                    auth_token: None,
                    auth_status: 0,
                    last_connected_at: None,
                }
            } else {
                OutboundConnectionRow {
                    user_id,
                    user_name: input.user_name,
                    ip: input.ip,
                    password: input.password,
                    device_id: input.device_id,
                    display_name,
                    auth_token,
                    auth_status,
                    last_connected_at,
                }
            }
        },
        None => OutboundConnectionRow {
            user_id: input.user_id,
            user_name: input.user_name,
            ip: input.ip,
            password: input.password,
            device_id: input.device_id,
            display_name: None,
            auth_token: None,
            auth_status: 0,
            last_connected_at: None,
        },
    }
}

/// The message of a status update that names no remote user.
pub open spec fn missing_user_id_message() -> Seq<char> {
    "user_id 不能为空"@
}

/// The message of a status update with a status outside 0 to 4.
pub open spec fn invalid_auth_status_message() -> Seq<char> {
    "无效的认证状态"@
}

/// The remote user that a status update names (trimmed), where the update
/// names one and carries a status from 0 to 4.
pub fn remote_auth_status_target(payload: &UpdateRemoteAuthStatusPayload) -> (r: Result<
    String,
    AppError,
>)
    ensures
        trim_ws(payload.user_id@).len() == 0 ==> (r matches Err(AppError::InvalidInput(m)) && m@
            == missing_user_id_message()),
        trim_ws(payload.user_id@).len() > 0 && !(0 <= payload.auth_status <= 4) ==> (r matches Err(
            AppError::InvalidInput(m),
        ) && m@ == invalid_auth_status_message()),
        trim_ws(payload.user_id@).len() > 0 && 0 <= payload.auth_status <= 4 ==> (r matches Ok(id)
            && id@ == trim_ws(payload.user_id@)),
{
    let user_id = trimmed(payload.user_id.as_str());
    if user_id.len() == 0 {
        proof {
            reveal_strlit("user_id 不能为空");
        }
        return Err(AppError::InvalidInput(String::from_str("user_id 不能为空")));
    }
    if !(0 <= payload.auth_status && payload.auth_status <= 4) {
        proof {
            reveal_strlit("无效的认证状态");
        }
        return Err(AppError::InvalidInput(String::from_str("无效的认证状态")));
    }
    Ok(string_of(&user_id))
}

/// A stored connection with a new authorization status and token set at
/// `now`; an approval also records `now` as the last connection.
pub fn with_remote_auth_status(
    row: OutboundConnectionRow,
    auth_status: i32,
    auth_token: Option<String>,
    now: i64,
) -> (r: OutboundConnectionRow)
    ensures
        r.user_id == row.user_id,
        r.user_name == row.user_name,
        r.ip == row.ip,
        r.password == row.password,
        r.device_id == row.device_id,
        r.display_name == row.display_name,
        r.auth_status == auth_status,
        r.auth_token == auth_token,
        r.last_connected_at == if auth_status == AUTH_STATUS_APPROVED {
            Some(now)
        } else {
            row.last_connected_at
        },
{
    let last_connected_at = if auth_status == AUTH_STATUS_APPROVED {
        Some(now)
    } else {
        row.last_connected_at
    };
    OutboundConnectionRow { auth_status, auth_token, last_connected_at, ..row }
}

/// Saving a remote user again at the same address with the same password
/// keeps its authorization; a new address or password drops it.
pub proof fn law_resave_keeps_authorization_unless_credentials_change(
    existing: OutboundConnectionRow,
    input: UpsertRemoteShareUserPayload,
    saved: OutboundConnectionRow,
)
    requires
        saved_connection(Some(existing), input, saved),
    ensures
        existing.ip@ == input.ip@ && opt_string_view(existing.password) == opt_string_view(
            input.password,
        ) ==> saved.auth_status == existing.auth_status && saved.auth_token
            == existing.auth_token,
        existing.ip@ != input.ip@ ==> saved.auth_status == 0 && saved.auth_token is None,
        opt_string_view(existing.password) != opt_string_view(input.password) ==> saved.auth_status
            == 0 && saved.auth_token is None,
{
}

// ---------------------------------------------------------------------------
// Decisions on connections from remote devices
// ---------------------------------------------------------------------------

/// The message of a decision that neither approves nor rejects.
pub open spec fn not_a_decision_message() -> Seq<char> {
    "只能同意或拒绝连接请求"@
}

/// Whether `r` is the stored connection `row` after the user approved
/// (status 2) or rejected (status 3) it at `now`: approval shares with and
/// trusts the device and records the grant; rejection withdraws both and
/// records the revocation.
pub open spec fn decided_connection(
    row: InboundConnectionRow,
    auth_status: i32,
    now: i64,
    r: InboundConnectionRow,
) -> bool {
    &&& r.user_id == row.user_id
    &&& r.user_name == row.user_name
    &&& r.ip == row.ip
    &&& r.device_id == row.device_id
    &&& r.last_seen_at == row.last_seen_at
    &&& r.auth_status == auth_status
    &&& if auth_status == AUTH_STATUS_APPROVED {
        &&& r.is_shared == 1
        &&& r.is_trusted == 1
        &&& r.granted_at == Some(now)
        &&& r.revoked_at is None
    } else {
        &&& r.is_shared == 0
        &&& r.is_trusted == 0
        &&& r.granted_at == row.granted_at
        &&& r.revoked_at == Some(now)
    }
}

/// The user's decision on a stored connection request at `now`: refused
/// unless it approves (2) or rejects (3), then refused where no connection
/// is stored; else the connection as the decision leaves it.
pub fn inbound_auth_decision(row: Option<InboundConnectionRow>, auth_status: i32, now: i64) -> (r:
    Result<InboundConnectionRow, AppError>)
    ensures
        auth_status != AUTH_STATUS_APPROVED && auth_status != AUTH_STATUS_REJECTED ==> (r matches Err(
            AppError::InvalidInput(m),
        ) && m@ == not_a_decision_message()),
        (auth_status == AUTH_STATUS_APPROVED || auth_status == AUTH_STATUS_REJECTED) && row is None
            ==> r matches Err(AppError::NotFound),
        (auth_status == AUTH_STATUS_APPROVED || auth_status == AUTH_STATUS_REJECTED) && row is Some
            ==> (r matches Ok(x) && decided_connection(row->0, auth_status, now, x)),
{
    if auth_status != AUTH_STATUS_APPROVED && auth_status != AUTH_STATUS_REJECTED {
        proof {
            reveal_strlit("只能同意或拒绝连接请求");
        }
        return Err(AppError::InvalidInput(String::from_str("只能同意或拒绝连接请求")));
    }
    let row = match row {
        Some(x) => x,
        None => {
            return Err(AppError::NotFound);
        },
    };
    if auth_status == AUTH_STATUS_APPROVED {
        Ok(InboundConnectionRow {
            auth_status,
            is_shared: 1,
            is_trusted: 1,
            granted_at: Some(now),
            revoked_at: None,
            ..row
        })
    } else {
        Ok(InboundConnectionRow {
            auth_status,
            is_shared: 0,
            is_trusted: 0,
            revoked_at: Some(now),
            ..row
        })
    }
}

/// After the user approves a connection, the device it is bound to may read
/// shared files; after a rejection every device is refused as not approved.
pub proof fn law_decision_governs_client_access(
    row: InboundConnectionRow,
    auth_status: i32,
    now: i64,
    decided: InboundConnectionRow,
    device_id: Seq<char>,
)
    requires
        auth_status == AUTH_STATUS_APPROVED || auth_status == AUTH_STATUS_REJECTED,
        decided_connection(row, auth_status, now, decided),
    ensures
        auth_status == AUTH_STATUS_APPROVED && opt_string_view(row.device_id) == Some(device_id)
            ==> client_row_spec(Some(decided), device_id) == Ok::<(), ClientRefusal>(()),
        auth_status == AUTH_STATUS_REJECTED ==> client_row_spec(Some(decided), device_id) == Err::<
            (),
            ClientRefusal,
        >(ClientRefusal::NotApproved),
{
}

} // verus!
