use share_clip::machine_id::{machine_id_file_value, platform_uuid, registry_machine_guid};
use share_clip::config::{
    config_change_actions, server_ip_options,
    device_id_from_parts, device_name_from, discovery_body, ipv4_text, is_private_ipv4,
    lan_device_from, lan_scan_results, private_ipv4_list, scan_targets, AppConfig,
    AppConfigUpdate, LanDiscoveredDevice, FALLBACK_DEVICE_NAME,
};

fn empty_update() -> AppConfigUpdate {
    AppConfigUpdate {
        local_device_id: None,
        local_device_name: None,
        shortcut: None,
        clipboard_window_width: None,
        clipboard_window_height: None,
        clipboard_window_spacing: None,
        theme_mode: None,
        share_files_view_mode: None,
        share_files_item_zoom: None,
        clipboard_text_max_bytes: None,
        clipboard_rich_format_max_bytes: None,
        clipboard_total_max_bytes: None,
        auto_cleanup_invalid_clipboard_data: None,
        cache_dir: None,
        remote_cache_dir: None,
        cleanup_after_days: None,
        max_items: None,
        default_share_text: None,
        default_share_image: None,
        default_share_file: None,
        default_share_folder: None,
        unshare_on_clipboard_change: None,
        auto_start_share_server: None,
        enable_share_server: None,
        share_server_bind_ip: None,
        share_server_port: None,
        share_server_password_enabled: None,
        share_server_password_hash: None,
        share_server_auth_mode: None,
        lan_discovery_enabled: None,
        browser_access_enabled: None,
        web_access_auth_required: None,
        web_access_password_enabled: None,
        web_access_password: None,
        web_access_temp_approval_enabled: None,
        web_access_cookie_ttl_seconds: None,
        web_access_scope_files: None,
        web_access_scope_clipboard_list: None,
        web_access_scope_clipboard_content: None,
        web_access_scope_download: None,
        sync_access_enabled: None,
        popup_on_inbound_request: None,
    }
}

fn config() -> AppConfig {
    AppConfig::default_for("device-1".to_string(), "Desk".to_string(), "cache".to_string())
}

#[test]
fn default_settings_carry_identity_and_defaults() {
    let c = config();
    assert_eq!(c.local_device_id, "device-1");
    assert_eq!(c.local_device_name, "Desk");
    assert_eq!(c.cache_dir, "cache");
    assert_eq!(c.shortcut, "f4");
    assert_eq!(c.theme_mode, "system");
    assert_eq!(c.share_server_port, 24800);
    assert!(c.web_access_auth_required);
}

#[test]
fn empty_update_changes_nothing() {
    let mut c = config();
    empty_update().apply(&mut c);
    assert_eq!(c.local_device_id, "device-1");
    assert_eq!(c.theme_mode, "system");
    assert_eq!(c.share_server_port, 24800);
}

#[test]
fn update_trims_names_and_ignores_blank_ones() {
    let mut c = config();
    let mut u = empty_update();
    u.local_device_name = Some("  Laptop  ".to_string());
    u.local_device_id = Some("   ".to_string());
    u.share_server_port = Some(9000);
    u.apply(&mut c);
    assert_eq!(c.local_device_name, "Laptop");
    assert_eq!(c.local_device_id, "device-1");
    assert_eq!(c.share_server_port, 9000);
}

#[test]
fn update_accepts_only_known_themes() {
    let mut c = config();
    let mut u = empty_update();
    u.theme_mode = Some(" dark ".to_string());
    u.apply(&mut c);
    assert_eq!(c.theme_mode, "dark");
    let mut u = empty_update();
    u.theme_mode = Some("purple".to_string());
    u.apply(&mut c);
    assert_eq!(c.theme_mode, "dark");
}

#[test]
fn update_can_clear_optional_limits() {
    let mut c = config();
    let mut u = empty_update();
    u.cleanup_after_days = Some(Some(7));
    u.apply(&mut c);
    assert_eq!(c.cleanup_after_days, Some(7));
    let mut u = empty_update();
    u.cleanup_after_days = Some(None);
    u.apply(&mut c);
    assert_eq!(c.cleanup_after_days, None);
}

#[test]
fn device_name_falls_back_when_blank() {
    assert_eq!(device_name_from(Some("  Office PC ".to_string())), "Office PC");
    assert_eq!(device_name_from(Some("   ".to_string())), FALLBACK_DEVICE_NAME);
    assert_eq!(device_name_from(None), FALLBACK_DEVICE_NAME);
}

#[test]
fn device_id_is_stable_and_prefixed() {
    let parts = vec!["host".to_string(), "user".to_string()];
    let a = device_id_from_parts(&parts);
    let b = device_id_from_parts(&parts);
    assert_eq!(a, b);
    assert!(a.starts_with("device-"));
    assert_eq!(a.len(), "device-".len() + 20);
    let other = device_id_from_parts(&vec!["host".to_string(), "other".to_string()]);
    assert_ne!(a, other);
}

#[test]
fn private_ipv4_ranges() {
    assert!(is_private_ipv4([10, 1, 2, 3]));
    assert!(is_private_ipv4([172, 16, 0, 1]));
    assert!(is_private_ipv4([172, 31, 255, 255]));
    assert!(!is_private_ipv4([172, 32, 0, 1]));
    assert!(is_private_ipv4([192, 168, 1, 1]));
    assert!(!is_private_ipv4([8, 8, 8, 8]));
}

#[test]
fn private_addresses_are_sorted_and_unique() {
    let addrs = vec![
        [192, 168, 1, 2],
        [8, 8, 8, 8],
        [10, 0, 0, 5],
        [127, 0, 0, 1],
        [192, 168, 1, 2],
        [172, 16, 0, 1],
    ];
    assert_eq!(
        private_ipv4_list(&addrs),
        vec![[10, 0, 0, 5], [172, 16, 0, 1], [192, 168, 1, 2]]
    );
    assert!(private_ipv4_list(&vec![[1, 1, 1, 1]]).is_empty());
}

#[test]
fn scan_probes_every_other_host_of_each_network() {
    let targets = scan_targets(&vec![[192, 168, 1, 7]]);
    assert_eq!(targets.len(), 253);
    assert_eq!(targets[0], [192, 168, 1, 1]);
    assert!(!targets.contains(&[192, 168, 1, 7]));
    assert!(!targets.contains(&[192, 168, 1, 0]));
    assert!(!targets.contains(&[192, 168, 1, 255]));
    assert_eq!(targets[252], [192, 168, 1, 254]);
    let two = scan_targets(&vec![[10, 0, 0, 1], [192, 168, 2, 254]]);
    assert_eq!(two.len(), 506);
    assert!(two.contains(&[10, 0, 0, 254]));
    assert!(two.contains(&[192, 168, 2, 1]));
    assert!(scan_targets(&vec![]).is_empty());
}

#[test]
fn discovery_reply_body_is_trimmed() {
    let ok = b"HTTP/1.1 200 OK\r\nContent-Type: application/json\r\n\r\n  {\"a\":1}\n";
    assert_eq!(discovery_body(ok), Ok("{\"a\":1}".to_string()));
    let old = b"HTTP/1.0 200 OK\r\n\r\nbody";
    assert_eq!(discovery_body(old), Ok("body".to_string()));
}

#[test]
fn discovery_reply_errors() {
    assert_eq!(
        discovery_body(b"HTTP/1.1 200 OK\r\nno blank line"),
        Err("invalid http response".to_string())
    );
    assert_eq!(
        discovery_body(b"HTTP/1.1 404 Not Found\r\n\r\n{}"),
        Err("not discovered".to_string())
    );
    assert_eq!(discovery_body(b""), Err("invalid http response".to_string()));
}

#[test]
fn ipv4_text_is_dotted() {
    assert_eq!(ipv4_text([192, 168, 0, 10]), "192.168.0.10");
    assert_eq!(ipv4_text([0, 0, 0, 0]), "0.0.0.0");
    assert_eq!(ipv4_text([255, 255, 255, 255]), "255.255.255.255");
}

fn device(id: &str, name: &str, ip: [u8; 4]) -> LanDiscoveredDevice {
    lan_device_from(ip, 47811, id.to_string(), name.to_string(), 0, true, false, 1)
}

#[test]
fn discovered_device_uses_reported_or_probed_port() {
    let d = device("dev-a", "A", [192, 168, 1, 9]);
    assert_eq!(d.port, 47811);
    assert_eq!(d.ip, "192.168.1.9");
    assert_eq!(d.base_url, "http://192.168.1.9:47811");
    assert!(d.sync_access_enabled);
    assert!(!d.password_required);
    assert_eq!(d.auth_mode, 1);
    let e = lan_device_from([10, 0, 0, 2], 47811, "x".to_string(), "X".to_string(), 8080, false, true, 0);
    assert_eq!(e.port, 8080);
    assert_eq!(e.base_url, "http://10.0.0.2:8080");
}

#[test]
fn scan_results_skip_self_keep_last_answer_and_sort_by_id() {
    let found = vec![
        device("dev-b", "B first", [10, 0, 0, 2]),
        device("me", "Me", [10, 0, 0, 3]),
        device("dev-a", "A", [10, 0, 0, 4]),
        device("dev-b", "B second", [10, 0, 0, 5]),
    ];
    let r = lan_scan_results(&found, "me");
    assert_eq!(r.len(), 2);
    assert_eq!(r[0].device_id, "dev-a");
    assert_eq!(r[1].device_id, "dev-b");
    assert_eq!(r[1].device_name, "B second");
    assert_eq!(r[1].ip, "10.0.0.5");
    assert!(lan_scan_results(&vec![], "me").is_empty());
}

#[test]
fn registry_output_gives_machine_guid() {
    let out = "\r\nHKEY_LOCAL_MACHINE\\SOFTWARE\\Microsoft\\Cryptography\r\n    MachineGuid    REG_SZ    1234-abcd-5678\r\n\r\n";
    assert_eq!(registry_machine_guid(out), Some("1234-abcd-5678".to_string()));
    assert_eq!(registry_machine_guid("nothing here\n"), None);
}

#[test]
fn ioreg_output_gives_platform_uuid() {
    let out = "+-o Root\n  \"IOPlatformSerialNumber\" = \"C02X\"\n  \"IOPlatformUUID\" = \" 5A1B-22 \"\n";
    assert_eq!(platform_uuid(out), Some("5A1B-22".to_string()));
    assert_eq!(platform_uuid("  \"IOPlatformUUID\" = \n"), None);
    assert_eq!(platform_uuid("  \"IOPlatformUUID\" = \"   \"\n"), None);
    assert_eq!(platform_uuid(""), None);
}

#[test]
fn machine_id_file_is_trimmed() {
    assert_eq!(machine_id_file_value("  0f3c9a\n"), Some("0f3c9a".to_string()));
    assert_eq!(machine_id_file_value(" \n "), None);
}

#[test]
fn update_without_fields_keeps_every_setting() {
    let mut c = config();
    empty_update().apply(&mut c);
    let d = config();
    assert_eq!(c.local_device_id, d.local_device_id);
    assert_eq!(c.theme_mode, d.theme_mode);
    assert_eq!(c.share_server_port, d.share_server_port);
    assert_eq!(c.web_access_password, d.web_access_password);
    assert_eq!(c.web_access_cookie_ttl_seconds, d.web_access_cookie_ttl_seconds);
}

#[test]
fn applying_an_update_twice_equals_once() {
    let make = || {
        let mut u = empty_update();
        u.local_device_name = Some("  Laptop ".to_string());
        u.theme_mode = Some(" dark ".to_string());
        u.web_access_cookie_ttl_seconds = Some(5);
        u.web_access_password = Some(Some(" secret ".to_string()));
        u.max_items = Some(Some(10));
        u
    };
    let mut once = config();
    make().apply(&mut once);
    let mut twice = config();
    make().apply(&mut twice);
    make().apply(&mut twice);
    assert_eq!(once.local_device_name, "Laptop");
    assert_eq!(twice.local_device_name, once.local_device_name);
    assert_eq!(twice.theme_mode, "dark");
    assert_eq!(twice.web_access_cookie_ttl_seconds, 60);
    assert_eq!(twice.web_access_password, Some("secret".to_string()));
    assert_eq!(twice.max_items, Some(10));
}

#[test]
fn server_addresses_are_sorted_and_unique() {
    let addrs = vec![[192, 168, 1, 5], [8, 8, 8, 8], [10, 0, 0, 2], [192, 168, 1, 5], [127, 0, 0, 1]];
    assert_eq!(
        server_ip_options(&addrs),
        vec!["0.0.0.0", "10.0.0.2", "127.0.0.1", "192.168.1.5"]
    );
    assert_eq!(server_ip_options(&vec![]), vec!["0.0.0.0", "127.0.0.1"]);
}

#[test]
fn settings_changes_set_actions_in_motion() {
    let previous = config();
    let mut updated = config();
    let mut u = empty_update();
    u.shortcut = Some("ctrl+shift+v".to_string());
    u.clipboard_window_width = Some(100);
    u.share_server_port = Some(9000);
    u.apply(&mut updated);
    let a = config_change_actions(&previous, &updated, true);
    assert_eq!(a.replace_shortcut, Some("f4".to_string()));
    assert_eq!(a.resize_window, Some((200, 640)));
    assert!(a.restart_server);
    let quiet = config_change_actions(&previous, &config(), true);
    assert_eq!(quiet.replace_shortcut, None);
    assert_eq!(quiet.resize_window, None);
    assert!(!quiet.restart_server);
    assert!(!config_change_actions(&previous, &updated, false).restart_server);
}
