use share_clip::access::{client_row_decision, ClientRefusal, InboundConnectionRow};
use share_clip::connections::{
    inbound_auth_decision, remote_auth_status_target, remote_share_user_input,
    saved_remote_share_user, with_remote_auth_status, OutboundConnectionRow,
};
use share_clip::models::AppError;
use share_clip::remote_share::{UpdateRemoteAuthStatusPayload, UpsertRemoteShareUserPayload};

fn payload(user_id: &str, user_name: &str, ip: &str, password: Option<&str>) -> UpsertRemoteShareUserPayload {
    UpsertRemoteShareUserPayload {
        user_id: user_id.to_string(),
        user_name: user_name.to_string(),
        ip: ip.to_string(),
        password: password.map(str::to_string),
        device_id: Some("  dev-9 ".to_string()),
    }
}

fn stored() -> OutboundConnectionRow {
    OutboundConnectionRow {
        user_id: "u1".to_string(),
        user_name: "Old".to_string(),
        ip: "http://10.0.0.2:24800".to_string(),
        password: Some("pw".to_string()),
        device_id: None,
        display_name: Some("Laptop".to_string()),
        auth_token: Some("token".to_string()),
        auth_status: 2,
        last_connected_at: Some(100),
    }
}

#[test]
fn remote_user_input_is_trimmed() {
    let p = remote_share_user_input(payload(" u1 ", " Desk ", " http://10.0.0.2:24800 ", Some("   ")))
        .unwrap_or_else(|_| panic!("valid input"));
    assert_eq!(p.user_id, "u1");
    assert_eq!(p.user_name, "Desk");
    assert_eq!(p.ip, "http://10.0.0.2:24800");
    assert_eq!(p.password, None);
    assert_eq!(p.device_id, Some("dev-9".to_string()));
}

#[test]
fn remote_user_without_address_is_refused() {
    match remote_share_user_input(payload("u1", "Desk", "  ", None)) {
        Err(AppError::InvalidInput(m)) => assert_eq!(m, "设备ID、设备名称、访问地址不能为空"),
        _ => panic!("expected invalid input"),
    }
}

#[test]
fn resaving_same_credentials_keeps_authorization() {
    let input = remote_share_user_input(payload("u1", "New", "http://10.0.0.2:24800", Some("pw")))
        .unwrap_or_else(|_| panic!("valid input"));
    let r = saved_remote_share_user(Some(stored()), input);
    assert_eq!(r.user_name, "New");
    assert_eq!(r.auth_status, 2);
    assert_eq!(r.auth_token, Some("token".to_string()));
    assert_eq!(r.last_connected_at, Some(100));
    assert_eq!(r.display_name, Some("Laptop".to_string()));
}

#[test]
fn new_password_drops_authorization() {
    let input = remote_share_user_input(payload("u1", "Old", "http://10.0.0.2:24800", Some("other")))
        .unwrap_or_else(|_| panic!("valid input"));
    let r = saved_remote_share_user(Some(stored()), input);
    assert_eq!(r.auth_status, 0);
    assert_eq!(r.auth_token, None);
    assert_eq!(r.last_connected_at, None);
}

#[test]
fn new_remote_user_starts_unauthorized() {
    let input = remote_share_user_input(payload("u2", "Desk", "http://10.0.0.3:24800", None))
        .unwrap_or_else(|_| panic!("valid input"));
    let r = saved_remote_share_user(None, input);
    assert_eq!(r.user_id, "u2");
    assert_eq!(r.auth_status, 0);
    assert_eq!(r.display_name, None);
}

#[test]
fn remote_status_update_checks_its_input() {
    let ok = UpdateRemoteAuthStatusPayload { user_id: " u1 ".to_string(), auth_status: 4, auth_token: None };
    assert_eq!(remote_auth_status_target(&ok).ok(), Some("u1".to_string()));
    let blank = UpdateRemoteAuthStatusPayload { user_id: " ".to_string(), auth_status: 9, auth_token: None };
    match remote_auth_status_target(&blank) {
        Err(AppError::InvalidInput(m)) => assert_eq!(m, "user_id 不能为空"),
        _ => panic!("expected invalid input"),
    }
    let bad = UpdateRemoteAuthStatusPayload { user_id: "u1".to_string(), auth_status: 5, auth_token: None };
    match remote_auth_status_target(&bad) {
        Err(AppError::InvalidInput(m)) => assert_eq!(m, "无效的认证状态"),
        _ => panic!("expected invalid input"),
    }
}

#[test]
fn approval_records_last_connection() {
    let r = with_remote_auth_status(stored(), 2, Some("t2".to_string()), 555);
    assert_eq!(r.auth_status, 2);
    assert_eq!(r.auth_token, Some("t2".to_string()));
    assert_eq!(r.last_connected_at, Some(555));
    let p = with_remote_auth_status(stored(), 1, None, 777);
    assert_eq!(p.last_connected_at, Some(100));
    assert_eq!(p.auth_token, None);
}

fn request() -> InboundConnectionRow {
    InboundConnectionRow {
        user_id: "peer".to_string(),
        user_name: Some("Peer".to_string()),
        ip: "10.0.0.7".to_string(),
        device_id: Some("dev-peer".to_string()),
        auth_status: 1,
        is_shared: 0,
        is_trusted: 0,
        granted_at: None,
        revoked_at: None,
        last_seen_at: Some(10),
    }
}

#[test]
fn approving_a_request_admits_its_device() {
    let row = inbound_auth_decision(Some(request()), 2, 42).unwrap_or_else(|_| panic!("decided"));
    assert_eq!((row.is_shared, row.is_trusted), (1, 1));
    assert_eq!(row.granted_at, Some(42));
    assert_eq!(row.revoked_at, None);
    assert_eq!(client_row_decision(Some(&row), "dev-peer"), Ok(()));
    assert_eq!(client_row_decision(Some(&row), "dev-other"), Err(ClientRefusal::UntrustedDevice));
}

#[test]
fn rejecting_a_request_refuses_it() {
    let row = inbound_auth_decision(Some(request()), 3, 43).unwrap_or_else(|_| panic!("decided"));
    assert_eq!((row.is_shared, row.is_trusted), (0, 0));
    assert_eq!(row.revoked_at, Some(43));
    assert_eq!(client_row_decision(Some(&row), "dev-peer"), Err(ClientRefusal::NotApproved));
}

#[test]
fn decisions_other_than_approve_or_reject_are_refused() {
    match inbound_auth_decision(Some(request()), 1, 44) {
        Err(AppError::InvalidInput(m)) => assert_eq!(m, "只能同意或拒绝连接请求"),
        _ => panic!("expected invalid input"),
    }
    assert!(matches!(inbound_auth_decision(None, 2, 44), Err(AppError::NotFound)));
}
