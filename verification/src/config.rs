use vstd::prelude::*;

use crate::hashing::{blake3_hex, blake3_hex_of};
use crate::text::strs::{
    chars_eq, chars_eq_str, chars_of, join_chars, join_with, push_all, string_of, sub_chars, trim_ws,
    trim_ws_chars, trimmed,
    views,
};

verus! {

broadcast use vstd::string::group_string_axioms;

/// The application's settings.
pub struct AppConfig {
    pub local_device_id: String,
    pub local_device_name: String,
    pub shortcut: String,
    pub clipboard_window_width: i32,
    pub clipboard_window_height: i32,
    pub clipboard_window_spacing: i32,
    pub theme_mode: String,
    pub share_files_view_mode: String,
    pub share_files_item_zoom: i32,
    pub clipboard_text_max_bytes: u64,
    pub clipboard_rich_format_max_bytes: u64,
    pub clipboard_total_max_bytes: u64,
    pub auto_cleanup_invalid_clipboard_data: bool,
    pub cache_dir: String,
    pub remote_cache_dir: String,
    pub cleanup_after_days: Option<u64>,
    pub max_items: Option<usize>,
    pub default_share_text: bool,
    pub default_share_image: bool,
    pub default_share_file: bool,
    pub default_share_folder: bool,
    pub unshare_on_clipboard_change: bool,
    pub auto_start_share_server: bool,
    pub share_server_bind_ip: String,
    pub share_server_port: u16,
    pub share_server_password_enabled: bool,
    pub share_server_password_hash: Option<String>,
    pub share_server_auth_mode: i32,
    pub lan_discovery_enabled: bool,
    pub browser_access_enabled: bool,
    pub web_access_auth_required: bool,
    pub web_access_password_enabled: bool,
    pub web_access_password: Option<String>,
    pub web_access_temp_approval_enabled: bool,
    pub web_access_cookie_ttl_seconds: u64,
    pub web_access_scope_files: bool,
    pub web_access_scope_clipboard_list: bool,
    pub web_access_scope_clipboard_content: bool,
    pub web_access_scope_download: bool,
    pub sync_access_enabled: bool,
    pub popup_on_inbound_request: bool,
}

/// A partial change of the settings: each present field replaces the setting.
pub struct AppConfigUpdate {
    pub local_device_id: Option<String>,
    pub local_device_name: Option<String>,
    pub shortcut: Option<String>,
    pub clipboard_window_width: Option<i32>,
    pub clipboard_window_height: Option<i32>,
    pub clipboard_window_spacing: Option<i32>,
    pub theme_mode: Option<String>,
    pub share_files_view_mode: Option<String>,
    pub share_files_item_zoom: Option<i32>,
    pub clipboard_text_max_bytes: Option<u64>,
    pub clipboard_rich_format_max_bytes: Option<u64>,
    pub clipboard_total_max_bytes: Option<u64>,
    pub auto_cleanup_invalid_clipboard_data: Option<bool>,
    pub cache_dir: Option<String>,
    pub remote_cache_dir: Option<String>,
    pub cleanup_after_days: Option<Option<u64>>,
    pub max_items: Option<Option<usize>>,
    pub default_share_text: Option<bool>,
    pub default_share_image: Option<bool>,
    pub default_share_file: Option<bool>,
    pub default_share_folder: Option<bool>,
    pub unshare_on_clipboard_change: Option<bool>,
    pub auto_start_share_server: Option<bool>,
    pub enable_share_server: Option<bool>,
    pub share_server_bind_ip: Option<String>,
    pub share_server_port: Option<u16>,
    pub share_server_password_enabled: Option<bool>,
    pub share_server_password_hash: Option<Option<String>>,
    pub share_server_auth_mode: Option<i32>,
    pub lan_discovery_enabled: Option<bool>,
    pub browser_access_enabled: Option<bool>,
    pub web_access_auth_required: Option<bool>,
    pub web_access_password_enabled: Option<bool>,
    pub web_access_password: Option<Option<String>>,
    pub web_access_temp_approval_enabled: Option<bool>,
    pub web_access_cookie_ttl_seconds: Option<u64>,
    pub web_access_scope_files: Option<bool>,
    pub web_access_scope_clipboard_list: Option<bool>,
    pub web_access_scope_clipboard_content: Option<bool>,
    pub web_access_scope_download: Option<bool>,
    pub sync_access_enabled: Option<bool>,
    pub popup_on_inbound_request: Option<bool>,
}

/// A device found on the local network.
pub struct LanDiscoveredDevice {
    pub device_id: String,
    pub device_name: String,
    pub ip: String,
    pub port: u16,
    pub base_url: String,
    pub sync_access_enabled: bool,
    pub password_required: bool,
    pub auth_mode: i32,
}

/// The value that a plain `Option` field of an update leaves: the new value
/// where one is given, else the old one.
pub open spec fn pick<T>(update: Option<T>, old: T) -> T {
    match update {
        Some(v) => v,
        None => old,
    }
}

/// The text that a plain text field ends with.
pub open spec fn pick_view(update: Option<String>, old: Seq<char>) -> Seq<char> {
    match update {
        Some(v) => v@,
        None => old,
    }
}

/// The characters of an optional text.
pub open spec fn opt_text_view(s: Option<String>) -> Option<Seq<char>> {
    match s {
        Some(v) => Some(v@),
        None => None,
    }
}

/// The text that a trimmed field ends with: the new text, trimmed, where it
/// is not blank; else the old one.
pub open spec fn pick_trimmed_nonempty(update: Option<String>, old: Seq<char>) -> Seq<char> {
    match update {
        Some(v) => if trim_ws(v@).len() > 0 {
            trim_ws(v@)
        } else {
            old
        },
        None => old,
    }
}

pub open spec fn is_theme_name(t: Seq<char>) -> bool {
    t == "system"@ || t == "light"@ || t == "dark"@
}

pub open spec fn pick_theme(update: Option<String>, old: Seq<char>) -> Seq<char> {
    match update {
        Some(v) => if is_theme_name(trim_ws(v@)) {
            trim_ws(v@)
        } else {
            old
        },
        None => old,
    }
}

/// What the web access password becomes for a given update of it.
pub open spec fn password_after(update: Option<Option<String>>, old: Option<String>, new: Option<
    String,
>) -> bool {
    match update {
        Some(Some(v)) => if trim_ws(v@).len() > 0 {
            new is Some && new.unwrap()@ == trim_ws(v@)
        } else {
            new is None
        },
        Some(None) => new is None,
        None => opt_text_view(new) == opt_text_view(old),
    }
}

/// `new` is `old` with `update` applied.
pub open spec fn config_updated(update: AppConfigUpdate, old: AppConfig, new: AppConfig) -> bool {
    &&& new.local_device_id@ == pick_trimmed_nonempty(update.local_device_id, old.local_device_id@)
    &&& new.local_device_name@ == pick_trimmed_nonempty(
        update.local_device_name,
        old.local_device_name@,
    )
    &&& new.shortcut@ == pick_view(update.shortcut, old.shortcut@)
    &&& new.clipboard_window_width == pick(update.clipboard_window_width, old.clipboard_window_width)
    &&& new.clipboard_window_height == pick(
        update.clipboard_window_height,
        old.clipboard_window_height,
    )
    &&& new.clipboard_window_spacing == pick(
        update.clipboard_window_spacing,
        old.clipboard_window_spacing,
    )
    &&& new.theme_mode@ == pick_theme(update.theme_mode, old.theme_mode@)
    &&& new.share_files_view_mode@ == pick_trimmed_nonempty(
        update.share_files_view_mode,
        old.share_files_view_mode@,
    )
    &&& new.share_files_item_zoom == pick(update.share_files_item_zoom, old.share_files_item_zoom)
    &&& new.clipboard_text_max_bytes == pick(
        update.clipboard_text_max_bytes,
        old.clipboard_text_max_bytes,
    )
    &&& new.clipboard_rich_format_max_bytes == pick(
        update.clipboard_rich_format_max_bytes,
        old.clipboard_rich_format_max_bytes,
    )
    &&& new.clipboard_total_max_bytes == pick(
        update.clipboard_total_max_bytes,
        old.clipboard_total_max_bytes,
    )
    &&& new.auto_cleanup_invalid_clipboard_data == pick(
        update.auto_cleanup_invalid_clipboard_data,
        old.auto_cleanup_invalid_clipboard_data,
    )
    &&& new.cache_dir@ == pick_view(update.cache_dir, old.cache_dir@)
    &&& new.remote_cache_dir@ == pick_view(update.remote_cache_dir, old.remote_cache_dir@)
    &&& new.cleanup_after_days == pick(update.cleanup_after_days, old.cleanup_after_days)
    &&& new.max_items == pick(update.max_items, old.max_items)
    &&& new.default_share_text == pick(update.default_share_text, old.default_share_text)
    &&& new.default_share_image == pick(update.default_share_image, old.default_share_image)
    &&& new.default_share_file == pick(update.default_share_file, old.default_share_file)
    &&& new.default_share_folder == pick(update.default_share_folder, old.default_share_folder)
    &&& new.unshare_on_clipboard_change == pick(
        update.unshare_on_clipboard_change,
        old.unshare_on_clipboard_change,
    )
    &&& new.auto_start_share_server == pick(
        match update.auto_start_share_server {
            Some(v) => Some(v),
            None => update.enable_share_server,
        },
        old.auto_start_share_server,
    )
    &&& new.share_server_bind_ip@ == pick_view(update.share_server_bind_ip, old.share_server_bind_ip@)
    &&& new.share_server_port == pick(update.share_server_port, old.share_server_port)
    &&& new.share_server_password_enabled == pick(
        update.share_server_password_enabled,
        old.share_server_password_enabled,
    )
    &&& opt_text_view(new.share_server_password_hash) == opt_text_view(
        pick(update.share_server_password_hash, old.share_server_password_hash),
    )
    &&& new.share_server_auth_mode == pick(update.share_server_auth_mode, old.share_server_auth_mode)
    &&& new.lan_discovery_enabled == pick(update.lan_discovery_enabled, old.lan_discovery_enabled)
    &&& new.browser_access_enabled == pick(
        update.browser_access_enabled,
        old.browser_access_enabled,
    )
    &&& new.web_access_auth_required == pick(
        update.web_access_auth_required,
        old.web_access_auth_required,
    )
    &&& new.web_access_password_enabled == pick(
        update.web_access_password_enabled,
        old.web_access_password_enabled,
    )
    &&& password_after(update.web_access_password, old.web_access_password, new.web_access_password)
    &&& new.web_access_temp_approval_enabled == pick(
        update.web_access_temp_approval_enabled,
        old.web_access_temp_approval_enabled,
    )
    &&& new.web_access_cookie_ttl_seconds == match update.web_access_cookie_ttl_seconds {
        Some(v) => if v < 60 {
            60
        } else {
            v
        },
        None => old.web_access_cookie_ttl_seconds,
    }
    &&& new.web_access_scope_files == pick(update.web_access_scope_files, old.web_access_scope_files)
    &&& new.web_access_scope_clipboard_list == pick(
        update.web_access_scope_clipboard_list,
        old.web_access_scope_clipboard_list,
    )
    &&& new.web_access_scope_clipboard_content == pick(
        update.web_access_scope_clipboard_content,
        old.web_access_scope_clipboard_content,
    )
    &&& new.web_access_scope_download == pick(
        update.web_access_scope_download,
        old.web_access_scope_download,
    )
    &&& new.sync_access_enabled == pick(update.sync_access_enabled, old.sync_access_enabled)
    &&& new.popup_on_inbound_request == pick(
        update.popup_on_inbound_request,
        old.popup_on_inbound_request,
    )
}

/// The trimmed text, when it is not empty.
fn trimmed_nonempty(value: &str) -> (r: Option<String>)
    ensures
        r is Some <==> trim_ws(value@).len() > 0,
        r matches Some(s) ==> s@ == trim_ws(value@),
{
    let t = trimmed(value);
    if t.len() > 0 {
        Some(string_of(&t))
    } else {
        None
    }
}

/// The update's value where one is given, else `old`.
fn or_old<T: Copy>(update: Option<T>, old: T) -> (r: T)
    ensures
        r == pick(update, old),
{
    match update {
        Some(v) => v,
        None => old,
    }
}

/// A copy of `s`.
fn copy_string(s: &String) -> (r: String)
    ensures
        r@ == s@,
{
    s.clone()
}

/// A copy of an optional text.
fn copy_opt_string(s: &Option<String>) -> (r: Option<String>)
    ensures
        r is Some <==> s is Some,
        r is Some ==> r.unwrap()@ == s.unwrap()@,
{
    match s {
        Some(v) => Some(v.clone()),
        None => None,
    }
}

/// The update's text where one is given, else a copy of `old`.
fn text_or_old(update: Option<String>, old: &String) -> (r: String)
    ensures
        r@ == pick_view(update, old@),
{
    match update {
        Some(v) => v,
        None => copy_string(old),
    }
}

/// The update's optional text where one is given, else a copy of `old`.
fn opt_text_or_old(update: Option<Option<String>>, old: &Option<String>) -> (r: Option<String>)
    ensures
        opt_text_view(r) == opt_text_view(pick(update, *old)),
{
    match update {
        Some(v) => v,
        None => copy_opt_string(old),
    }
}

/// The trimmed update where it is given and not blank, else a copy of `old`.
fn trimmed_or_old(update: Option<String>, old: &String) -> (r: String)
    ensures
        r@ == pick_trimmed_nonempty(update, old@),
{
    if let Some(value) = update {
        if let Some(v) = trimmed_nonempty(value.as_str()) {
            return v;
        }
    }
    copy_string(old)
}

/// The trimmed theme name where it names a known theme, else a copy of `old`.
fn theme_or_old(update: Option<String>, old: &String) -> (r: String)
    ensures
        r@ == pick_theme(update, old@),
{
    if let Some(value) = update {
        let t = trimmed(value.as_str());
        if chars_eq_str(&t, "system") || chars_eq_str(&t, "light") || chars_eq_str(&t, "dark") {
            return string_of(&t);
        }
    }
    copy_string(old)
}

/// The web access password after the update: trimmed, and absent where blank.
fn password_or_old(update: Option<Option<String>>, old: &Option<String>) -> (r: Option<String>)
    ensures
        password_after(update, *old, r),
{
    match update {
        Some(Some(v)) => trimmed_nonempty(v.as_str()),
        Some(None) => None,
        None => copy_opt_string(old),
    }
}

/// The cookie lifetime after the update, raised to at least sixty seconds.
fn cookie_ttl_or_old(update: Option<u64>, old: u64) -> (r: u64)
    ensures
        r == match update {
            Some(v) => if v < 60 {
                60
            } else {
                v
            },
            None => old,
        },
{
    match update {
        Some(value) => if value < 60 {
            60
        } else {
            value
        },
        None => old,
    }
}

/// Whether two settings hold the same values.
pub open spec fn same_settings(a: AppConfig, b: AppConfig) -> bool {
    &&& a.local_device_id@ == b.local_device_id@
    &&& a.local_device_name@ == b.local_device_name@
    &&& a.shortcut@ == b.shortcut@
    &&& a.clipboard_window_width == b.clipboard_window_width
    &&& a.clipboard_window_height == b.clipboard_window_height
    &&& a.clipboard_window_spacing == b.clipboard_window_spacing
    &&& a.theme_mode@ == b.theme_mode@
    &&& a.share_files_view_mode@ == b.share_files_view_mode@
    &&& a.share_files_item_zoom == b.share_files_item_zoom
    &&& a.clipboard_text_max_bytes == b.clipboard_text_max_bytes
    &&& a.clipboard_rich_format_max_bytes == b.clipboard_rich_format_max_bytes
    &&& a.clipboard_total_max_bytes == b.clipboard_total_max_bytes
    &&& a.auto_cleanup_invalid_clipboard_data == b.auto_cleanup_invalid_clipboard_data
    &&& a.cache_dir@ == b.cache_dir@
    &&& a.remote_cache_dir@ == b.remote_cache_dir@
    &&& a.cleanup_after_days == b.cleanup_after_days
    &&& a.max_items == b.max_items
    &&& a.default_share_text == b.default_share_text
    &&& a.default_share_image == b.default_share_image
    &&& a.default_share_file == b.default_share_file
    &&& a.default_share_folder == b.default_share_folder
    &&& a.unshare_on_clipboard_change == b.unshare_on_clipboard_change
    &&& a.auto_start_share_server == b.auto_start_share_server
    &&& a.share_server_bind_ip@ == b.share_server_bind_ip@
    &&& a.share_server_port == b.share_server_port
    &&& a.share_server_password_enabled == b.share_server_password_enabled
    &&& opt_text_view(a.share_server_password_hash) == opt_text_view(b.share_server_password_hash)
    &&& a.share_server_auth_mode == b.share_server_auth_mode
    &&& a.lan_discovery_enabled == b.lan_discovery_enabled
    &&& a.browser_access_enabled == b.browser_access_enabled
    &&& a.web_access_auth_required == b.web_access_auth_required
    &&& a.web_access_password_enabled == b.web_access_password_enabled
    &&& opt_text_view(a.web_access_password) == opt_text_view(b.web_access_password)
    &&& a.web_access_temp_approval_enabled == b.web_access_temp_approval_enabled
    &&& a.web_access_cookie_ttl_seconds == b.web_access_cookie_ttl_seconds
    &&& a.web_access_scope_files == b.web_access_scope_files
    &&& a.web_access_scope_clipboard_list == b.web_access_scope_clipboard_list
    &&& a.web_access_scope_clipboard_content == b.web_access_scope_clipboard_content
    &&& a.web_access_scope_download == b.web_access_scope_download
    &&& a.sync_access_enabled == b.sync_access_enabled
    &&& a.popup_on_inbound_request == b.popup_on_inbound_request
}

/// Whether an update sets no field.
pub open spec fn is_empty_update(u: AppConfigUpdate) -> bool {
    u.local_device_id is None && u.local_device_name is None && u.shortcut is None && u.clipboard_window_width is None && u.clipboard_window_height is None && u.clipboard_window_spacing is None && u.theme_mode is None && u.share_files_view_mode is None && u.share_files_item_zoom is None && u.clipboard_text_max_bytes is None && u.clipboard_rich_format_max_bytes is None && u.clipboard_total_max_bytes is None && u.auto_cleanup_invalid_clipboard_data is None && u.cache_dir is None && u.remote_cache_dir is None && u.cleanup_after_days is None && u.max_items is None && u.default_share_text is None && u.default_share_image is None && u.default_share_file is None && u.default_share_folder is None && u.unshare_on_clipboard_change is None && u.auto_start_share_server is None && u.enable_share_server is None && u.share_server_bind_ip is None && u.share_server_port is None && u.share_server_password_enabled is None && u.share_server_password_hash is None && u.share_server_auth_mode is None && u.lan_discovery_enabled is None && u.browser_access_enabled is None && u.web_access_auth_required is None && u.web_access_password_enabled is None && u.web_access_password is None && u.web_access_temp_approval_enabled is None && u.web_access_cookie_ttl_seconds is None && u.web_access_scope_files is None && u.web_access_scope_clipboard_list is None && u.web_access_scope_clipboard_content is None && u.web_access_scope_download is None && u.sync_access_enabled is None && u.popup_on_inbound_request is None
}

/// An update that sets no field leaves every setting as it was.
pub proof fn law_empty_update_keeps_settings(u: AppConfigUpdate, old: AppConfig, new: AppConfig)
    requires
        is_empty_update(u),
        config_updated(u, old, new),
    ensures
        same_settings(old, new),
{
}

proof fn lemma_pick_twice<T>(u: Option<T>, a: T, b: T, c: T)
    requires
        b == pick(u, a),
        c == pick(u, b),
    ensures
        c == b,
{
}

proof fn lemma_opt_text_twice(u: Option<Option<String>>, a: Option<String>, b: Option<String>, c: Option<String>)
    requires
        opt_text_view(b) == opt_text_view(pick(u, a)),
        opt_text_view(c) == opt_text_view(pick(u, b)),
    ensures
        opt_text_view(c) == opt_text_view(b),
{
}

proof fn lemma_password_twice(u: Option<Option<String>>, a: Option<String>, b: Option<String>, c: Option<String>)
    requires
        password_after(u, a, b),
        password_after(u, b, c),
    ensures
        opt_text_view(c) == opt_text_view(b),
{
}

/// The settings that a repeated update leaves as they were, a few at a
/// time, which keeps each proof small.
proof fn lemma_update_twice_part1(u: AppConfigUpdate, old: AppConfig, once: AppConfig, twice: AppConfig)
    requires
        config_updated(u, old, once),
        config_updated(u, once, twice),
    ensures
        once.local_device_id@ == twice.local_device_id@,
        once.local_device_name@ == twice.local_device_name@,
        once.shortcut@ == twice.shortcut@,
        once.clipboard_window_width == twice.clipboard_window_width,
        once.clipboard_window_height == twice.clipboard_window_height,
{
    lemma_pick_twice(u.clipboard_window_width, old.clipboard_window_width, once.clipboard_window_width, twice.clipboard_window_width);
    lemma_pick_twice(u.clipboard_window_height, old.clipboard_window_height, once.clipboard_window_height, twice.clipboard_window_height);
}

proof fn lemma_update_twice_part2(u: AppConfigUpdate, old: AppConfig, once: AppConfig, twice: AppConfig)
    requires
        config_updated(u, old, once),
        config_updated(u, once, twice),
    ensures
        once.clipboard_window_spacing == twice.clipboard_window_spacing,
        once.theme_mode@ == twice.theme_mode@,
        once.share_files_view_mode@ == twice.share_files_view_mode@,
        once.share_files_item_zoom == twice.share_files_item_zoom,
        once.clipboard_text_max_bytes == twice.clipboard_text_max_bytes,
{
    lemma_pick_twice(u.clipboard_window_spacing, old.clipboard_window_spacing, once.clipboard_window_spacing, twice.clipboard_window_spacing);
    lemma_pick_twice(u.share_files_item_zoom, old.share_files_item_zoom, once.share_files_item_zoom, twice.share_files_item_zoom);
    lemma_pick_twice(u.clipboard_text_max_bytes, old.clipboard_text_max_bytes, once.clipboard_text_max_bytes, twice.clipboard_text_max_bytes);
}

proof fn lemma_update_twice_part3(u: AppConfigUpdate, old: AppConfig, once: AppConfig, twice: AppConfig)
    requires
        config_updated(u, old, once),
        config_updated(u, once, twice),
    ensures
        once.clipboard_rich_format_max_bytes == twice.clipboard_rich_format_max_bytes,
        once.clipboard_total_max_bytes == twice.clipboard_total_max_bytes,
        once.auto_cleanup_invalid_clipboard_data == twice.auto_cleanup_invalid_clipboard_data,
        once.cache_dir@ == twice.cache_dir@,
        once.remote_cache_dir@ == twice.remote_cache_dir@,
{
    lemma_pick_twice(u.clipboard_rich_format_max_bytes, old.clipboard_rich_format_max_bytes, once.clipboard_rich_format_max_bytes, twice.clipboard_rich_format_max_bytes);
    lemma_pick_twice(u.clipboard_total_max_bytes, old.clipboard_total_max_bytes, once.clipboard_total_max_bytes, twice.clipboard_total_max_bytes);
    lemma_pick_twice(u.auto_cleanup_invalid_clipboard_data, old.auto_cleanup_invalid_clipboard_data, once.auto_cleanup_invalid_clipboard_data, twice.auto_cleanup_invalid_clipboard_data);
}

proof fn lemma_update_twice_part4(u: AppConfigUpdate, old: AppConfig, once: AppConfig, twice: AppConfig)
    requires
        config_updated(u, old, once),
        config_updated(u, once, twice),
    ensures
        once.cleanup_after_days == twice.cleanup_after_days,
        once.max_items == twice.max_items,
        once.default_share_text == twice.default_share_text,
        once.default_share_image == twice.default_share_image,
        once.default_share_file == twice.default_share_file,
{
    lemma_pick_twice(u.cleanup_after_days, old.cleanup_after_days, once.cleanup_after_days, twice.cleanup_after_days);
    lemma_pick_twice(u.max_items, old.max_items, once.max_items, twice.max_items);
    lemma_pick_twice(u.default_share_text, old.default_share_text, once.default_share_text, twice.default_share_text);
    lemma_pick_twice(u.default_share_image, old.default_share_image, once.default_share_image, twice.default_share_image);
    lemma_pick_twice(u.default_share_file, old.default_share_file, once.default_share_file, twice.default_share_file);
}

proof fn lemma_update_twice_part5(u: AppConfigUpdate, old: AppConfig, once: AppConfig, twice: AppConfig)
    requires
        config_updated(u, old, once),
        config_updated(u, once, twice),
    ensures
        once.default_share_folder == twice.default_share_folder,
        once.unshare_on_clipboard_change == twice.unshare_on_clipboard_change,
        once.auto_start_share_server == twice.auto_start_share_server,
        once.share_server_bind_ip@ == twice.share_server_bind_ip@,
        once.share_server_port == twice.share_server_port,
{
    lemma_pick_twice(u.default_share_folder, old.default_share_folder, once.default_share_folder, twice.default_share_folder);
    lemma_pick_twice(u.unshare_on_clipboard_change, old.unshare_on_clipboard_change, once.unshare_on_clipboard_change, twice.unshare_on_clipboard_change);
    lemma_pick_twice(match u.auto_start_share_server {
        Some(v) => Some(v),
        None => u.enable_share_server,
    }, old.auto_start_share_server, once.auto_start_share_server, twice.auto_start_share_server);
    lemma_pick_twice(u.share_server_port, old.share_server_port, once.share_server_port, twice.share_server_port);
}

proof fn lemma_update_twice_part6(u: AppConfigUpdate, old: AppConfig, once: AppConfig, twice: AppConfig)
    requires
        config_updated(u, old, once),
        config_updated(u, once, twice),
    ensures
        once.share_server_password_enabled == twice.share_server_password_enabled,
        opt_text_view(once.share_server_password_hash) == opt_text_view(twice.share_server_password_hash),
        once.share_server_auth_mode == twice.share_server_auth_mode,
        once.lan_discovery_enabled == twice.lan_discovery_enabled,
        once.browser_access_enabled == twice.browser_access_enabled,
{
    lemma_pick_twice(u.share_server_password_enabled, old.share_server_password_enabled, once.share_server_password_enabled, twice.share_server_password_enabled);
    lemma_opt_text_twice(u.share_server_password_hash, old.share_server_password_hash, once.share_server_password_hash, twice.share_server_password_hash);
    lemma_pick_twice(u.share_server_auth_mode, old.share_server_auth_mode, once.share_server_auth_mode, twice.share_server_auth_mode);
    lemma_pick_twice(u.lan_discovery_enabled, old.lan_discovery_enabled, once.lan_discovery_enabled, twice.lan_discovery_enabled);
    lemma_pick_twice(u.browser_access_enabled, old.browser_access_enabled, once.browser_access_enabled, twice.browser_access_enabled);
}

proof fn lemma_update_twice_part7(u: AppConfigUpdate, old: AppConfig, once: AppConfig, twice: AppConfig)
    requires
        config_updated(u, old, once),
        config_updated(u, once, twice),
    ensures
        once.web_access_auth_required == twice.web_access_auth_required,
        once.web_access_password_enabled == twice.web_access_password_enabled,
        opt_text_view(once.web_access_password) == opt_text_view(twice.web_access_password),
        once.web_access_temp_approval_enabled == twice.web_access_temp_approval_enabled,
        once.web_access_cookie_ttl_seconds == twice.web_access_cookie_ttl_seconds,
{
    lemma_pick_twice(u.web_access_auth_required, old.web_access_auth_required, once.web_access_auth_required, twice.web_access_auth_required);
    lemma_pick_twice(u.web_access_password_enabled, old.web_access_password_enabled, once.web_access_password_enabled, twice.web_access_password_enabled);
    lemma_password_twice(u.web_access_password, old.web_access_password, once.web_access_password, twice.web_access_password);
    lemma_pick_twice(u.web_access_temp_approval_enabled, old.web_access_temp_approval_enabled, once.web_access_temp_approval_enabled, twice.web_access_temp_approval_enabled);
}

proof fn lemma_update_twice_part8(u: AppConfigUpdate, old: AppConfig, once: AppConfig, twice: AppConfig)
    requires
        config_updated(u, old, once),
        config_updated(u, once, twice),
    ensures
        once.web_access_scope_files == twice.web_access_scope_files,
        once.web_access_scope_clipboard_list == twice.web_access_scope_clipboard_list,
        once.web_access_scope_clipboard_content == twice.web_access_scope_clipboard_content,
        once.web_access_scope_download == twice.web_access_scope_download,
        once.sync_access_enabled == twice.sync_access_enabled,
{
    lemma_pick_twice(u.web_access_scope_files, old.web_access_scope_files, once.web_access_scope_files, twice.web_access_scope_files);
    lemma_pick_twice(u.web_access_scope_clipboard_list, old.web_access_scope_clipboard_list, once.web_access_scope_clipboard_list, twice.web_access_scope_clipboard_list);
    lemma_pick_twice(u.web_access_scope_clipboard_content, old.web_access_scope_clipboard_content, once.web_access_scope_clipboard_content, twice.web_access_scope_clipboard_content);
    lemma_pick_twice(u.web_access_scope_download, old.web_access_scope_download, once.web_access_scope_download, twice.web_access_scope_download);
    lemma_pick_twice(u.sync_access_enabled, old.sync_access_enabled, once.sync_access_enabled, twice.sync_access_enabled);
}

proof fn lemma_update_twice_part9(u: AppConfigUpdate, old: AppConfig, once: AppConfig, twice: AppConfig)
    requires
        config_updated(u, old, once),
        config_updated(u, once, twice),
    ensures
        once.popup_on_inbound_request == twice.popup_on_inbound_request,
{
    lemma_pick_twice(u.popup_on_inbound_request, old.popup_on_inbound_request, once.popup_on_inbound_request, twice.popup_on_inbound_request);
}

/// Applying the same update a second time changes nothing more.
pub proof fn law_update_is_idempotent(
    u: AppConfigUpdate,
    old: AppConfig,
    once: AppConfig,
    twice: AppConfig,
)
    requires
        config_updated(u, old, once),
        config_updated(u, once, twice),
    ensures
        same_settings(once, twice),
{
    lemma_update_twice_part1(u, old, once, twice);
    lemma_update_twice_part2(u, old, once, twice);
    lemma_update_twice_part3(u, old, once, twice);
    lemma_update_twice_part4(u, old, once, twice);
    lemma_update_twice_part5(u, old, once, twice);
    lemma_update_twice_part6(u, old, once, twice);
    lemma_update_twice_part7(u, old, once, twice);
    lemma_update_twice_part8(u, old, once, twice);
    lemma_update_twice_part9(u, old, once, twice);
}

impl AppConfigUpdate {
    /// Applies the present fields of this update to `config`.
    pub fn apply(self, config: &mut AppConfig)
        ensures
            config_updated(self, *old(config), *final(config)),
    {
        let upd = self;
        let auto_start = match upd.auto_start_share_server {
            Some(v) => Some(v),
            None => upd.enable_share_server,
        };
        let c = AppConfig {
            local_device_id: trimmed_or_old(upd.local_device_id, &config.local_device_id),
            local_device_name: trimmed_or_old(upd.local_device_name, &config.local_device_name),
            shortcut: text_or_old(upd.shortcut, &config.shortcut),
            clipboard_window_width: or_old(upd.clipboard_window_width, config.clipboard_window_width),
            clipboard_window_height: or_old(
                upd.clipboard_window_height,
                config.clipboard_window_height,
            ),
            clipboard_window_spacing: or_old(
                upd.clipboard_window_spacing,
                config.clipboard_window_spacing,
            ),
            theme_mode: theme_or_old(upd.theme_mode, &config.theme_mode),
            share_files_view_mode: trimmed_or_old(
                upd.share_files_view_mode,
                &config.share_files_view_mode,
            ),
            share_files_item_zoom: or_old(upd.share_files_item_zoom, config.share_files_item_zoom),
            clipboard_text_max_bytes: or_old(
                upd.clipboard_text_max_bytes,
                config.clipboard_text_max_bytes,
            ),
            clipboard_rich_format_max_bytes: or_old(
                upd.clipboard_rich_format_max_bytes,
                config.clipboard_rich_format_max_bytes,
            ),
            clipboard_total_max_bytes: or_old(
                upd.clipboard_total_max_bytes,
                config.clipboard_total_max_bytes,
            ),
            auto_cleanup_invalid_clipboard_data: or_old(
                upd.auto_cleanup_invalid_clipboard_data,
                config.auto_cleanup_invalid_clipboard_data,
            ),
            cache_dir: text_or_old(upd.cache_dir, &config.cache_dir),
            remote_cache_dir: text_or_old(upd.remote_cache_dir, &config.remote_cache_dir),
            cleanup_after_days: or_old(upd.cleanup_after_days, config.cleanup_after_days),
            max_items: or_old(upd.max_items, config.max_items),
            default_share_text: or_old(upd.default_share_text, config.default_share_text),
            default_share_image: or_old(upd.default_share_image, config.default_share_image),
            default_share_file: or_old(upd.default_share_file, config.default_share_file),
            default_share_folder: or_old(upd.default_share_folder, config.default_share_folder),
            unshare_on_clipboard_change: or_old(
                upd.unshare_on_clipboard_change,
                config.unshare_on_clipboard_change,
            ),
            auto_start_share_server: or_old(auto_start, config.auto_start_share_server),
            share_server_bind_ip: text_or_old(
                upd.share_server_bind_ip,
                &config.share_server_bind_ip,
            ),
            share_server_port: or_old(upd.share_server_port, config.share_server_port),
            share_server_password_enabled: or_old(
                upd.share_server_password_enabled,
                config.share_server_password_enabled,
            ),
            share_server_password_hash: opt_text_or_old(
                upd.share_server_password_hash,
                &config.share_server_password_hash,
            ),
            share_server_auth_mode: or_old(upd.share_server_auth_mode, config.share_server_auth_mode),
            lan_discovery_enabled: or_old(upd.lan_discovery_enabled, config.lan_discovery_enabled),
            browser_access_enabled: or_old(
                upd.browser_access_enabled,
                config.browser_access_enabled,
            ),
            web_access_auth_required: or_old(
                upd.web_access_auth_required,
                config.web_access_auth_required,
            ),
            web_access_password_enabled: or_old(
                upd.web_access_password_enabled,
                config.web_access_password_enabled,
            ),
            web_access_password: password_or_old(
                upd.web_access_password,
                &config.web_access_password,
            ),
            web_access_temp_approval_enabled: or_old(
                upd.web_access_temp_approval_enabled,
                config.web_access_temp_approval_enabled,
            ),
            web_access_cookie_ttl_seconds: cookie_ttl_or_old(
                upd.web_access_cookie_ttl_seconds,
                config.web_access_cookie_ttl_seconds,
            ),
            web_access_scope_files: or_old(upd.web_access_scope_files, config.web_access_scope_files),
            web_access_scope_clipboard_list: or_old(
                upd.web_access_scope_clipboard_list,
                config.web_access_scope_clipboard_list,
            ),
            web_access_scope_clipboard_content: or_old(
                upd.web_access_scope_clipboard_content,
                config.web_access_scope_clipboard_content,
            ),
            web_access_scope_download: or_old(
                upd.web_access_scope_download,
                config.web_access_scope_download,
            ),
            sync_access_enabled: or_old(upd.sync_access_enabled, config.sync_access_enabled),
            popup_on_inbound_request: or_old(
                upd.popup_on_inbound_request,
                config.popup_on_inbound_request,
            ),
        };
        *config = c;
    }
}


/// The name under which the application identifies itself.
pub const APP_IDENTIFIER: &'static str = "com.lkighy.share-clip";

/// The fallback name of this device.
pub const FALLBACK_DEVICE_NAME: &'static str = "本机设备";

/// Every setting of `c` other than the device identity and the cache directory
/// has its default value.
pub open spec fn has_default_settings(c: AppConfig) -> bool {
    &&& c.shortcut@ == "f4"@
    &&& c.clipboard_window_width == 420
    &&& c.clipboard_window_height == 640
    &&& c.clipboard_window_spacing == 10
    &&& c.theme_mode@ == "system"@
    &&& c.share_files_view_mode@ == "icons"@
    &&& c.share_files_item_zoom == 100
    &&& c.clipboard_text_max_bytes == 4 * 1024 * 1024
    &&& c.clipboard_rich_format_max_bytes == 8 * 1024 * 1024
    &&& c.clipboard_total_max_bytes == 16 * 1024 * 1024
    &&& c.auto_cleanup_invalid_clipboard_data
    &&& c.remote_cache_dir@ == "remote"@
    &&& c.cleanup_after_days is None
    &&& c.max_items is None
    &&& c.default_share_text
    &&& !c.default_share_image
    &&& !c.default_share_file
    &&& !c.default_share_folder
    &&& c.unshare_on_clipboard_change
    &&& !c.auto_start_share_server
    &&& c.share_server_bind_ip@ == "0.0.0.0"@
    &&& c.share_server_port == 24800
    &&& !c.share_server_password_enabled
    &&& c.share_server_password_hash is None
    &&& c.share_server_auth_mode == 1
    &&& c.lan_discovery_enabled
    &&& c.browser_access_enabled
    &&& c.web_access_auth_required
    &&& !c.web_access_password_enabled
    &&& c.web_access_password is None
    &&& c.web_access_temp_approval_enabled
    &&& c.web_access_cookie_ttl_seconds == 3600
    &&& c.web_access_scope_files
    &&& c.web_access_scope_clipboard_list
    &&& c.web_access_scope_clipboard_content
    &&& c.web_access_scope_download
    &&& c.sync_access_enabled
    &&& !c.popup_on_inbound_request
}

impl AppConfig {
    /// The default settings of a device with the given identity and cache
    /// directory (these three come from the machine's environment).
    pub fn default_for(local_device_id: String, local_device_name: String, cache_dir: String) -> (c:
        AppConfig)
        ensures
            c.local_device_id == local_device_id,
            c.local_device_name == local_device_name,
            c.cache_dir == cache_dir,
            has_default_settings(c),
    {
        AppConfig {
            local_device_id,
            local_device_name,
            shortcut: String::from_str("f4"),
            clipboard_window_width: 420,
            clipboard_window_height: 640,
            clipboard_window_spacing: 10,
            theme_mode: String::from_str("system"),
            share_files_view_mode: String::from_str("icons"),
            share_files_item_zoom: 100,
            clipboard_text_max_bytes: 4 * 1024 * 1024,
            clipboard_rich_format_max_bytes: 8 * 1024 * 1024,
            clipboard_total_max_bytes: 16 * 1024 * 1024,
            auto_cleanup_invalid_clipboard_data: true,
            cache_dir,
            remote_cache_dir: String::from_str("remote"),
            cleanup_after_days: None,
            max_items: None,
            default_share_text: true,
            default_share_image: false,
            default_share_file: false,
            default_share_folder: false,
            unshare_on_clipboard_change: true,
            auto_start_share_server: false,
            share_server_bind_ip: String::from_str("0.0.0.0"),
            share_server_port: 24800,
            share_server_password_enabled: false,
            share_server_password_hash: None,
            share_server_auth_mode: 1,
            lan_discovery_enabled: true,
            browser_access_enabled: true,
            web_access_auth_required: true,
            web_access_password_enabled: false,
            web_access_password: None,
            web_access_temp_approval_enabled: true,
            web_access_cookie_ttl_seconds: 3600,
            web_access_scope_files: true,
            web_access_scope_clipboard_list: true,
            web_access_scope_clipboard_content: true,
            web_access_scope_download: true,
            sync_access_enabled: true,
            popup_on_inbound_request: false,
        }
    }
}

/// The device name chosen from the first environment value that is set: that
/// value trimmed, or the fallback name where it is blank or missing.
pub open spec fn device_name_from_spec(candidate: Option<Seq<char>>) -> Seq<char> {
    match candidate {
        Some(v) => if trim_ws(v).len() > 0 {
            trim_ws(v)
        } else {
            FALLBACK_DEVICE_NAME@
        },
        None => FALLBACK_DEVICE_NAME@,
    }
}

/// The device name for the first environment value that is set.
pub fn device_name_from(candidate: Option<String>) -> (name: String)
    ensures
        name@ == device_name_from_spec(match candidate {
            Some(v) => Some(v@),
            None => None,
        }),
{
    if let Some(value) = candidate {
        if let Some(v) = trimmed_nonempty(value.as_str()) {
            return v;
        }
    }
    String::from_str(FALLBACK_DEVICE_NAME)
}

/// The stable device identifier derived from the machine's description:
/// `device-` and the first 20 hexadecimal digits of the BLAKE3 digest of the
/// application identifier and the parts, joined by `|`.
pub open spec fn device_id_spec(parts: Seq<Seq<char>>) -> Seq<char> {
    "device-"@ + blake3_hex(
        vstd::utf8::encode_utf8(join_with(seq![APP_IDENTIFIER@] + parts, "|"@)),
    ).take(20)
}

/// The stable device identifier derived from the machine's description.
pub fn device_id_from_parts(parts: &Vec<String>) -> (id: String)
    ensures
        id@ == device_id_spec(parts@.map_values(|p: String| p@)),
{
    let mut pieces: Vec<Vec<char>> = Vec::new();
    pieces.push(chars_of(APP_IDENTIFIER));
    let mut i: usize = 0;
    while i < parts.len()
        invariant
            i <= parts.len(),
            views(pieces@) == seq![APP_IDENTIFIER@] + parts@.map_values(|p: String| p@).take(
                i as int,
            ),
        decreases parts.len() - i,
    {
        let ghost before = views(pieces@);
        pieces.push(chars_of(parts[i].as_str()));
        assert(views(pieces@) =~= before.push(parts@[i as int]@));
        assert(parts@.map_values(|p: String| p@).take(i + 1) =~= parts@.map_values(
            |p: String| p@,
        ).take(i as int).push(parts@[i as int]@));
        i = i + 1;
    }
    assert(parts@.map_values(|p: String| p@).take(parts.len() as int) =~= parts@.map_values(
        |p: String| p@,
    ));
    let sep = chars_of("|");
    let joined = join_chars(&pieces, &sep);
    let input = string_of(&joined);
    let digest = blake3_hex_of(input.as_str().as_bytes());
    let digest_chars = chars_of(digest.as_str());
    let head = sub_chars(&digest_chars, 0, 20);
    let mut id = String::from_str("device-");
    let head_text = string_of(&head);
    id.append(head_text.as_str());
    assert(head@ == blake3_hex(vstd::utf8::encode_utf8(joined@)).take(20));
    id
}

/// Whether an IPv4 address (given by its four octets) is a private address:
/// in 10.0.0.0/8, 172.16.0.0/12 or 192.168.0.0/16, and not a loopback address.
pub open spec fn is_private_ipv4_spec(octets: [u8; 4]) -> bool {
    octets[0] != 127 && (octets[0] == 10 || (octets[0] == 172 && 16 <= octets[1] <= 31) || (
    octets[0] == 192 && octets[1] == 168))
}

/// Whether an IPv4 address (given by its four octets) is a private address.
pub fn is_private_ipv4(octets: [u8; 4]) -> (r: bool)
    ensures
        r == is_private_ipv4_spec(octets),
{
    let a = octets[0];
    let b = octets[1];
    a != 127 && (a == 10 || (a == 172 && 16 <= b && b <= 31) || (a == 192 && b == 168))
}

// ---------------------------------------------------------------------------
// The local network
// ---------------------------------------------------------------------------

/// The number that an IPv4 address stands for (its octets in order).
pub open spec fn ipv4_value(a: [u8; 4]) -> int {
    a[0] * 16777216 + a[1] * 65536 + a[2] * 256 + a[3]
}

fn ipv4_number(a: [u8; 4]) -> (n: u32)
    ensures
        n == ipv4_value(a),
{
    (a[0] as u32) * 16777216 + (a[1] as u32) * 65536 + (a[2] as u32) * 256 + (a[3] as u32)
}

proof fn lemma_ipv4_value_injective(a: [u8; 4], b: [u8; 4])
    requires
        ipv4_value(a) == ipv4_value(b),
    ensures
        a@ == b@,
{
    assert(a[3] == b[3]) by (nonlinear_arith)
        requires
            a[0] * 16777216 + a[1] * 65536 + a[2] * 256 + a[3] == b[0] * 16777216 + b[1] * 65536
                + b[2] * 256 + b[3],
            a[3] < 256,
            b[3] < 256,
    ;
    assert(a[2] == b[2]) by (nonlinear_arith)
        requires
            a[0] * 65536 + a[1] * 256 + a[2] == b[0] * 65536 + b[1] * 256 + b[2],
            a[2] < 256,
            b[2] < 256,
    ;
    assert(a[1] == b[1]) by (nonlinear_arith)
        requires
            a[0] * 256 + a[1] == b[0] * 256 + b[1],
            a[1] < 256,
            b[1] < 256,
    ;
    assert(a@ =~= b@);
}

/// Whether `addrs` holds the address `a`.
pub open spec fn has_address(addrs: Seq<[u8; 4]>, a: [u8; 4]) -> bool {
    exists|k: int| 0 <= k < addrs.len() && #[trigger] addrs[k]@ == a@
}

/// The private addresses among a machine's IPv4 addresses, each once, in
/// ascending order.
pub fn private_ipv4_list(addrs: &Vec<[u8; 4]>) -> (r: Vec<[u8; 4]>)
    ensures
        forall|i: int, j: int| 0 <= i < j < r@.len() ==> ipv4_value(r@[i]) < ipv4_value(r@[j]),
        forall|i: int| 0 <= i < r@.len() ==> is_private_ipv4_spec(#[trigger] r@[i]),
        forall|i: int| 0 <= i < r@.len() ==> #[trigger] has_address(addrs@, r@[i]),
        forall|k: int|
            0 <= k < addrs@.len() && is_private_ipv4_spec(#[trigger] addrs@[k]) ==> has_address(
                r@,
                addrs@[k],
            ),
{
    let mut out: Vec<[u8; 4]> = Vec::new();
    let mut k: usize = 0;
    while k < addrs.len()
        invariant
            k <= addrs@.len(),
            forall|i: int, j: int| 0 <= i < j < out@.len() ==> ipv4_value(out@[i]) < ipv4_value(out@[j]),
            forall|i: int| 0 <= i < out@.len() ==> is_private_ipv4_spec(#[trigger] out@[i]),
            forall|i: int| 0 <= i < out@.len() ==> #[trigger] has_address(addrs@, out@[i]),
            forall|q: int|
                0 <= q < k && is_private_ipv4_spec(#[trigger] addrs@[q]) ==> has_address(
                    out@,
                    addrs@[q],
                ),
        decreases addrs.len() - k,
    {
        let a = addrs[k];
        if is_private_ipv4(a) {
            let v = ipv4_number(a);
            let mut pos: usize = 0;
            while pos < out.len() && ipv4_number(out[pos]) < v
                invariant
                    pos <= out@.len(),
                    v == ipv4_value(a),
                    forall|i: int| 0 <= i < pos ==> ipv4_value(out@[i]) < v,
                decreases out.len() - pos,
            {
                pos = pos + 1;
            }
            let dup = pos < out.len() && ipv4_number(out[pos]) == v;
            let ghost before = out@;
            if dup {
                proof {
                    lemma_ipv4_value_injective(out@[pos as int], a);
                }
            } else {
                out.insert(pos, a);
                proof {
                    assert(out@ =~= before.insert(pos as int, a));
                    assert forall|i: int, j: int| 0 <= i < j < out@.len() implies ipv4_value(out@[i])
                        < ipv4_value(out@[j]) by {
                        if j < pos {
                            assert(out@[i] == before[i] && out@[j] == before[j]);
                        } else if j == pos {
                            assert(out@[i] == before[i]);
                        } else if i < pos {
                            assert(out@[i] == before[i] && out@[j] == before[j - 1]);
                            if pos < before.len() {
                                assert(ipv4_value(before[pos as int]) > v);
                            }
                        } else if i == pos {
                            assert(out@[j] == before[j - 1]);
                            assert(ipv4_value(before[pos as int]) > v);
                        } else {
                            assert(out@[i] == before[i - 1] && out@[j] == before[j - 1]);
                        }
                    }
                    assert forall|i: int| 0 <= i < out@.len() implies is_private_ipv4_spec(
                        #[trigger] out@[i],
                    ) by {
                        if i < pos {
                            assert(out@[i] == before[i]);
                        } else if i > pos {
                            assert(out@[i] == before[i - 1]);
                        }
                    }
                    assert forall|i: int| 0 <= i < out@.len() implies #[trigger] has_address(
                        addrs@,
                        out@[i],
                    ) by {
                        if i < pos {
                            assert(out@[i] == before[i]);
                            assert(has_address(addrs@, before[i]));
                        } else if i > pos {
                            assert(out@[i] == before[i - 1]);
                            assert(has_address(addrs@, before[i - 1]));
                        } else {
                            assert(addrs@[k as int]@ == out@[i]@);
                        }
                    }
                    assert forall|q: int|
                        0 <= q < k && is_private_ipv4_spec(#[trigger] addrs@[q]) implies has_address(
                        out@,
                        addrs@[q],
                    ) by {
                        assert(has_address(before, addrs@[q]));
                        let i0 = choose|i: int| 0 <= i < before.len() && #[trigger] before[i]@ == addrs@[q]@;
                        if i0 < pos {
                            assert(out@[i0] == before[i0]);
                        } else {
                            assert(out@[i0 + 1] == before[i0]);
                        }
                    }
                }
            }
            proof {
                assert(out@[pos as int]@ == a@);
                assert(has_address(out@, addrs@[k as int]));
                assert forall|q: int|
                    0 <= q < k + 1 && is_private_ipv4_spec(#[trigger] addrs@[q]) implies has_address(
                    out@,
                    addrs@[q],
                ) by {}
            }
        }
        k = k + 1;
    }
    out
}

/// Whether `t` is a host that a scan from the local address `l` probes: in
/// the same /24 network, host 1 to 254, not `l` itself.
pub open spec fn scan_target_of(t: [u8; 4], l: [u8; 4]) -> bool {
    t[0] == l[0] && t[1] == l[1] && t[2] == l[2] && 1 <= t[3] <= 254 && t[3] != l[3]
}

/// Whether `t` is a host that a scan from one of the local addresses probes.
pub open spec fn scanned_from(local: Seq<[u8; 4]>, t: [u8; 4], n: int) -> bool {
    exists|k: int| 0 <= k < n && #[trigger] scan_target_of(t, local[k])
}

/// Whether `r` probes host `h` of the /24 network of `l`.
pub open spec fn probes(r: Seq<[u8; 4]>, l: [u8; 4], h: u8) -> bool {
    exists|i: int|
        0 <= i < r.len() && (#[trigger] r[i])[0] == l[0] && r[i][1] == l[1] && r[i][2] == l[2]
            && r[i][3] == h
}

/// The addresses a scan of the local network probes, in order: every host 1
/// to 254 of each local address's /24 network, but the local host itself.
pub fn scan_targets(local: &Vec<[u8; 4]>) -> (r: Vec<[u8; 4]>)
    ensures
        r@.len() <= 254 * local@.len(),
        forall|i: int|
            0 <= i < r@.len() ==> #[trigger] scanned_from(local@, r@[i], local@.len() as int),
        forall|k: int, h: u8|
            0 <= k < local@.len() && 1 <= h <= 254 && h != local@[k][3] ==> #[trigger] probes(
                r@,
                local@[k],
                h,
            ),
{
    let mut out: Vec<[u8; 4]> = Vec::new();
    let mut k: usize = 0;
    while k < local.len()
        invariant
            k <= local@.len(),
            out@.len() <= 254 * k,
            forall|i: int| 0 <= i < out@.len() ==> #[trigger] scanned_from(local@, out@[i], k as int),
            forall|q: int, h: u8|
                0 <= q < k && 1 <= h <= 254 && h != local@[q][3] ==> #[trigger] probes(
                    out@,
                    local@[q],
                    h,
                ),
        decreases local.len() - k,
    {
        let l = local[k];
        let ghost start = out@.len();
        proof {
            assert forall|i: int| 0 <= i < out@.len() implies #[trigger] scanned_from(
                local@,
                out@[i],
                k + 1,
            ) by {
                assert(scanned_from(local@, out@[i], k as int));
                let q = choose|q: int| 0 <= q < k && #[trigger] scan_target_of(out@[i], local@[q]);
                assert(scan_target_of(out@[i], local@[q]));
            }
        }
        let mut h: u8 = 1;
        while h <= 254
            invariant
                1 <= h <= 255,
                k < local@.len(),
                l == local@[k as int],
                start <= out@.len() <= start + (h - 1),
                start <= 254 * k,
                forall|i: int| 0 <= i < out@.len() ==> #[trigger] scanned_from(local@, out@[i], k + 1),
                forall|q: int, g: u8|
                    0 <= q < k && 1 <= g <= 254 && g != local@[q][3] ==> #[trigger] probes(
                        out@,
                        local@[q],
                        g,
                    ),
                forall|g: u8| 1 <= g < h && g != l[3] ==> #[trigger] probes(out@, l, g),
            decreases 255 - h,
        {
            if h != l[3] {
                let ghost before = out@;
                let t = [l[0], l[1], l[2], h];
                out.push(t);
                proof {
                    assert(out@[before.len() as int] == t);
                    assert forall|i: int| 0 <= i < out@.len() implies #[trigger] scanned_from(
                        local@,
                        out@[i],
                        k + 1,
                    ) by {
                        if i < before.len() {
                            assert(out@[i] == before[i]);
                            assert(scanned_from(local@, before[i], k + 1));
                        } else {
                            assert(scan_target_of(out@[i], local@[k as int]));
                        }
                    }
                    assert forall|q: int, g: u8|
                        0 <= q < k && 1 <= g <= 254 && g != local@[q][3] implies #[trigger] probes(
                        out@,
                        local@[q],
                        g,
                    ) by {
                        assert(probes(before, local@[q], g));
                        let i0 = choose|i: int|
                            0 <= i < before.len() && (#[trigger] before[i])[0] == local@[q][0]
                                && before[i][1] == local@[q][1] && before[i][2] == local@[q][2]
                                && before[i][3] == g;
                        assert(out@[i0] == before[i0]);
                    }
                    assert forall|g: u8| 1 <= g < h + 1 && g != l[3] implies #[trigger] probes(
                        out@,
                        l,
                        g,
                    ) by {
                        if g < h {
                            assert(probes(before, l, g));
                            let i0 = choose|i: int|
                                0 <= i < before.len() && (#[trigger] before[i])[0] == l[0]
                                    && before[i][1] == l[1] && before[i][2] == l[2] && before[i][3]
                                    == g;
                            assert(out@[i0] == before[i0]);
                        } else {
                            assert(out@[before.len() as int][3] == g);
                        }
                    }
                }
            }
            h = h + 1;
        }
        proof {
            assert forall|q: int, g: u8|
                0 <= q < k + 1 && 1 <= g <= 254 && g != local@[q][3] implies #[trigger] probes(
                out@,
                local@[q],
                g,
            ) by {
                if q == k {
                    assert(probes(out@, l, g));
                }
            }
        }
        k = k + 1;
    }
    out
}

// ---------------------------------------------------------------------------
// Discovering devices on the local network
// ---------------------------------------------------------------------------

/// The text of bytes read as UTF-8 with every invalid sequence replaced by
/// U+FFFD, as `String::from_utf8_lossy` reads them.
pub uninterp spec fn utf8_lossy(bytes: Seq<u8>) -> Seq<char>;

/// Reads bytes with std's `String::from_utf8_lossy`. As its documentation
/// states, valid UTF-8 is read as it is; the contract claims only that the
/// text is otherwise a function of the bytes (`utf8_lossy`).
#[verifier::external_body]
fn lossy_text(bytes: &[u8]) -> (r: String)
    ensures
        r@ == utf8_lossy(bytes@),
        vstd::utf8::valid_utf8(bytes@) ==> r@ == vstd::utf8::decode_utf8(bytes@),
{
    String::from_utf8_lossy(bytes).into_owned()
}

/// Whether `t` occurs in `s` at `i`.
pub open spec fn infix_at(s: Seq<char>, t: Seq<char>, i: int) -> bool {
    0 <= i && i + t.len() <= s.len() && s.subrange(i, i + t.len()) == t
}

/// The first place at or after `i` where `t` occurs in `s`, or -1.
pub open spec fn first_infix_from(s: Seq<char>, t: Seq<char>, i: int) -> int
    decreases s.len() + 1 - i,
{
    if i < 0 || i + t.len() > s.len() {
        -1
    } else if infix_at(s, t, i) {
        i
    } else {
        first_infix_from(s, t, i + 1)
    }
}

fn infix_here(s: &Vec<char>, t: &Vec<char>, i: usize) -> (r: bool)
    requires
        i + t@.len() <= s@.len(),
    ensures
        r == infix_at(s@, t@, i as int),
{
    let mut j: usize = 0;
    while j < t.len()
        invariant
            j <= t@.len(),
            i + t@.len() <= s@.len(),
            i + t.len() <= s.len(),
            forall|k: int| 0 <= k < j ==> s@[i + k] == t@[k],
        decreases t.len() - j,
    {
        if s[i + j] != t[j] {
            assert(s@.subrange(i as int, i + t@.len())[j as int] != t@[j as int]);
            return false;
        }
        j = j + 1;
    }
    assert(s@.subrange(i as int, i + t@.len()) =~= t@);
    true
}

/// The head and body of an HTTP reply: the text before and after its first
/// blank line (`\r\n\r\n`).
pub open spec fn reply_parts(text: Seq<char>) -> Option<(Seq<char>, Seq<char>)> {
    let sep = seq!['\r', '\n', '\r', '\n'];
    let i = first_infix_from(text, sep, 0);
    if i < 0 {
        None
    } else {
        Some((text.take(i), text.skip(i + 4)))
    }
}

/// The message of a reply that is not HTTP.
pub open spec fn invalid_reply_message() -> Seq<char> {
    "invalid http response"@
}

/// The message of a reply that is not a success.
pub open spec fn not_discovered_message() -> Seq<char> {
    "not discovered"@
}

/// The body of a device's reply to a discovery probe, trimmed, where the
/// reply is an HTTP/1.1 or HTTP/1.0 success; else why it is not.
pub open spec fn discovery_body_spec(response: Seq<u8>) -> Result<Seq<char>, Seq<char>> {
    match reply_parts(utf8_lossy(response)) {
        None => Err(invalid_reply_message()),
        Some(parts) => if "HTTP/1.1 200"@.is_prefix_of(parts.0) || "HTTP/1.0 200"@.is_prefix_of(
            parts.0,
        ) {
            Ok(trim_ws(parts.1))
        } else {
            Err(not_discovered_message())
        },
    }
}

/// The body of a device's reply to a discovery probe.
pub fn discovery_body(response: &[u8]) -> (r: Result<String, String>)
    ensures
        match r {
            Ok(b) => discovery_body_spec(response@) == Ok::<Seq<char>, Seq<char>>(b@),
            Err(m) => discovery_body_spec(response@) == Err::<Seq<char>, Seq<char>>(m@),
        },
{
    let text = chars_of(lossy_text(response).as_str());
    let sep = vec!['\r', '\n', '\r', '\n'];
    assert(sep@ =~= seq!['\r', '\n', '\r', '\n']);
    let mut i: usize = 0;
    let mut found = false;
    while text.len() >= 4 && i <= text.len() - 4
        invariant_except_break
            sep@ == seq!['\r', '\n', '\r', '\n'],
            first_infix_from(text@, sep@, 0) == first_infix_from(text@, sep@, i as int),
            i <= text@.len(),
            !found,
        ensures
            found ==> first_infix_from(text@, sep@, 0) == i as int && i + 4 <= text@.len(),
            !found ==> first_infix_from(text@, sep@, 0) == -1,
        decreases text.len() - i,
    {
        if infix_here(&text, &sep, i) {
            found = true;
            break;
        }
        i = i + 1;
    }
    if !found {
        return Err(String::from_str("invalid http response"));
    }
    let head = sub_chars(&text, 0, i);
    let body = sub_chars(&text, i + 4, text.len());
    assert(head@ =~= text@.take(i as int));
    assert(body@ =~= text@.skip(i + 4));
    if crate::text::strs::starts_with(&head, &chars_of("HTTP/1.1 200"))
        || crate::text::strs::starts_with(&head, &chars_of("HTTP/1.0 200")) {
        Ok(string_of(&trim_ws_chars(&body)))
    } else {
        Err(String::from_str("not discovered"))
    }
}

/// The dotted text of an IPv4 address.
pub open spec fn ipv4_text_spec(a: [u8; 4]) -> Seq<char> {
    crate::text::num::nat_text(a[0] as nat) + seq!['.'] + crate::text::num::nat_text(a[1] as nat)
        + seq!['.'] + crate::text::num::nat_text(a[2] as nat) + seq!['.']
        + crate::text::num::nat_text(a[3] as nat)
}

/// The dotted text of an IPv4 address.
pub fn ipv4_text(a: [u8; 4]) -> (r: String)
    ensures
        r@ == ipv4_text_spec(a),
{
    let mut out = crate::text::num::u64_text(a[0] as u64);
    out.push('.');
    push_all(&mut out, &crate::text::num::u64_text(a[1] as u64));
    out.push('.');
    push_all(&mut out, &crate::text::num::u64_text(a[2] as u64));
    out.push('.');
    push_all(&mut out, &crate::text::num::u64_text(a[3] as u64));
    assert(out@ =~= ipv4_text_spec(a));
    string_of(&out)
}

/// A device that answered a discovery probe at `ip`: the port it reports
/// (the probed port where it reports 0), and its address.
pub fn lan_device_from(
    ip: [u8; 4],
    fallback_port: u16,
    device_id: String,
    device_name: String,
    port: u16,
    sync_access_enabled: bool,
    password_required: bool,
    auth_mode: i32,
) -> (d: LanDiscoveredDevice)
    ensures
        d.device_id == device_id,
        d.device_name == device_name,
        d.ip@ == ipv4_text_spec(ip),
        d.port == if port == 0 {
            fallback_port
        } else {
            port
        },
        d.base_url@ == "http://"@ + ipv4_text_spec(ip) + seq![':'] + crate::text::num::nat_text(
            d.port as nat,
        ),
        d.sync_access_enabled == sync_access_enabled,
        d.password_required == password_required,
        d.auth_mode == auth_mode,
{
    let p: u16 = if port == 0 {
        fallback_port
    } else {
        port
    };
    let ip_text = ipv4_text(ip);
    let mut url = String::from_str("http://");
    url.append(ip_text.as_str());
    url.append(":");
    proof {
        reveal_strlit(":");
    }
    let digits = string_of(&crate::text::num::u64_text(p as u64));
    url.append(digits.as_str());
    LanDiscoveredDevice {
        device_id,
        device_name,
        ip: ip_text,
        port: p,
        base_url: url,
        sync_access_enabled,
        password_required,
        auth_mode,
    }
}

/// Whether two records of devices hold the same values.
pub open spec fn same_device(a: LanDiscoveredDevice, b: LanDiscoveredDevice) -> bool {
    &&& a.device_id@ == b.device_id@
    &&& a.device_name@ == b.device_name@
    &&& a.ip@ == b.ip@
    &&& a.port == b.port
    &&& a.base_url@ == b.base_url@
    &&& a.sync_access_enabled == b.sync_access_enabled
    &&& a.password_required == b.password_required
    &&& a.auth_mode == b.auth_mode
}

/// The answers of a network scan that are kept, by position: every other
/// device's last answer.
pub open spec fn kept_answers(devices: Seq<LanDiscoveredDevice>, local_id: Seq<char>, m: int) -> Seq<
    int,
>
    decreases m,
{
    if m <= 0 {
        Seq::empty()
    } else {
        let i = m - 1;
        let d = devices[i];
        let prev = kept_answers(devices, local_id, m - 1);
        if d.device_id@ != local_id && forall|j: int|
            i < j < devices.len() ==> #[trigger] devices[j].device_id@ != d.device_id@ {
            prev.push(i)
        } else {
            prev
        }
    }
}

pub open spec fn device_keys(devices: Seq<LanDiscoveredDevice>, kept: Seq<int>) -> Seq<
    Seq<Seq<u64>>,
> {
    kept.map_values(|i: int| seq![crate::remote_share::text_key(devices[i].device_id@)])
}

fn copy_device(d: &LanDiscoveredDevice) -> (r: LanDiscoveredDevice)
    ensures
        same_device(r, *d),
{
    LanDiscoveredDevice {
        device_id: d.device_id.clone(),
        device_name: d.device_name.clone(),
        ip: d.ip.clone(),
        port: d.port,
        base_url: d.base_url.clone(),
        sync_access_enabled: d.sync_access_enabled,
        password_required: d.password_required,
        auth_mode: d.auth_mode,
    }
}

/// The devices a network scan found: every device but this one, by its
/// last answer, ordered by device id.
pub fn lan_scan_results(devices: &Vec<LanDiscoveredDevice>, local_device_id: &str) -> (r: Vec<
    LanDiscoveredDevice,
>)
    ensures
        ({
            let kept = kept_answers(devices@, local_device_id@, devices@.len() as int);
            exists|order: Seq<int>|
                #[trigger] crate::ordering::is_sorted_order(
                    device_keys(devices@, kept),
                    order,
                    kept.len() as int,
                ) && r@.len() == kept.len() && forall|j: int|
                    0 <= j < r@.len() ==> same_device(#[trigger] r@[j], devices@[kept[order[j]]])
        }),
{
    let local = chars_of(local_device_id);
    let mut kept: Vec<usize> = Vec::new();
    let mut keys: Vec<Vec<Vec<u64>>> = Vec::new();
    let mut i: usize = 0;
    while i < devices.len()
        invariant
            i <= devices@.len(),
            local@ == local_device_id@,
            crate::ordering::positions(kept@) == kept_answers(devices@, local_device_id@, i as int),
            keys@.len() == kept@.len(),
            forall|t: int| 0 <= t < kept@.len() ==> (kept@[t] as int) < i,
            forall|t: int|
                0 <= t < keys@.len() ==> crate::ordering::key_view(#[trigger] keys@[t]) == seq![
                    crate::remote_share::text_key(devices@[kept@[t] as int].device_id@),
                ],
        decreases devices.len() - i,
    {
        let id = chars_of(devices[i].device_id.as_str());
        let mut last = true;
        let mut j: usize = i + 1;
        while j < devices.len()
            invariant
                i < j <= devices@.len(),
                id@ == devices@[i as int].device_id@,
                last == forall|q: int| i < q < j ==> #[trigger] devices@[q].device_id@ != id@,
            decreases devices.len() - j,
        {
            if chars_eq(&chars_of(devices[j].device_id.as_str()), &id) {
                last = false;
            }
            j = j + 1;
        }
        if !chars_eq(&id, &local) && last {
            let ghost prev = kept@;
            kept.push(i);
            let w = crate::remote_share::text_word(devices[i].device_id.as_str());
            let key = vec![w];
            assert(key@[0]@ == w@);
            assert(crate::ordering::key_view(key) =~= seq![crate::remote_share::text_key(devices@[i as int].device_id@)]);
            keys.push(key);
            assert(crate::ordering::positions(kept@) =~= crate::ordering::positions(prev).push(
                i as int,
            ));
        }
        i = i + 1;
    }
    let ghost kp = kept_answers(devices@, local_device_id@, devices@.len() as int);
    assert(crate::ordering::keys_view(keys@) =~= device_keys(devices@, kp));
    let order = crate::ordering::sorted_order(&keys);
    let ghost po = crate::ordering::positions(order@);
    proof {
        assert forall|a: int| 0 <= a < order@.len() implies (order@[a] as int) < kept@.len() by {
            assert(po[a] == order@[a] as int);
        }
    }
    let mut out: Vec<LanDiscoveredDevice> = Vec::new();
    let mut v: usize = 0;
    while v < order.len()
        invariant
            v <= order@.len(),
            order@.len() == kept@.len(),
            po == crate::ordering::positions(order@),
            crate::ordering::positions(kept@) == kp,
            forall|a: int| 0 <= a < order@.len() ==> (order@[a] as int) < kept@.len(),
            forall|t: int| 0 <= t < kept@.len() ==> (kept@[t] as int) < devices@.len(),
            out@.len() == v,
            forall|q: int| 0 <= q < v ==> same_device(#[trigger] out@[q], devices@[kp[po[q]]]),
        decreases order.len() - v,
    {
        let p = kept[order[v]];
        assert(po[v as int] == order@[v as int] as int);
        assert(kp[po[v as int]] == p as int);
        out.push(copy_device(&devices[p]));
        v = v + 1;
    }
    proof {
        assert(crate::ordering::is_sorted_order(device_keys(devices@, kp), po, kp.len() as int));
    }
    out
}

// ---------------------------------------------------------------------------
// What changing the settings sets in motion
// ---------------------------------------------------------------------------

/// What the application does after the settings changed.
pub struct ConfigChangeActions {
    /// The shortcut to unregister (trimmed) before the new one is
    /// registered, where the shortcut changed.
    pub replace_shortcut: Option<String>,
    /// The clipboard window's new size, where it changed: at least 200 by
    /// 120.
    pub resize_window: Option<(i32, i32)>,
    /// Whether the running share server restarts on its new address.
    pub restart_server: bool,
}

/// What the application does after the settings went from `previous` to
/// `updated`, the share server running or not.
pub fn config_change_actions(previous: &AppConfig, updated: &AppConfig, server_running: bool) -> (r:
    ConfigChangeActions)
    ensures
        match r.replace_shortcut {
            Some(old) => previous.shortcut@ != updated.shortcut@ && old@ == trim_ws(previous.shortcut@),
            None => previous.shortcut@ == updated.shortcut@,
        },
        r.resize_window == if previous.clipboard_window_width != updated.clipboard_window_width
            || previous.clipboard_window_height != updated.clipboard_window_height {
            Some(
                (
                    if updated.clipboard_window_width < 200 {
                        200i32
                    } else {
                        updated.clipboard_window_width
                    },
                    if updated.clipboard_window_height < 120 {
                        120i32
                    } else {
                        updated.clipboard_window_height
                    },
                ),
            )
        } else {
            None
        },
        r.restart_server == (server_running && (previous.share_server_bind_ip@
            != updated.share_server_bind_ip@ || previous.share_server_port
            != updated.share_server_port)),
{
    let shortcut_same = chars_eq(&chars_of(previous.shortcut.as_str()), &chars_of(updated.shortcut.as_str()));
    let replace_shortcut = if shortcut_same {
        None
    } else {
        Some(string_of(&trimmed(previous.shortcut.as_str())))
    };
    let resize_window = if previous.clipboard_window_width != updated.clipboard_window_width
        || previous.clipboard_window_height != updated.clipboard_window_height {
        let w: i32 = if updated.clipboard_window_width < 200 {
            200
        } else {
            updated.clipboard_window_width
        };
        let h: i32 = if updated.clipboard_window_height < 120 {
            120
        } else {
            updated.clipboard_window_height
        };
        Some((w, h))
    } else {
        None
    };
    let bind_changed = !chars_eq(
        &chars_of(previous.share_server_bind_ip.as_str()),
        &chars_of(updated.share_server_bind_ip.as_str()),
    ) || previous.share_server_port != updated.share_server_port;
    ConfigChangeActions { replace_shortcut, resize_window, restart_server: server_running && bind_changed }
}

// ---------------------------------------------------------------------------
// Addresses the share server can listen on
// ---------------------------------------------------------------------------

/// Whether `t` is an address the share server can be bound to: every
/// interface, the loopback interface, or one of the machine's private IPv4
/// addresses.
pub open spec fn is_ip_option(addrs: Seq<[u8; 4]>, t: Seq<char>) -> bool {
    ||| t == "0.0.0.0"@
    ||| t == "127.0.0.1"@
    ||| exists|k: int|
        0 <= k < addrs.len() && is_private_ipv4_spec(addrs[k]) && #[trigger] ipv4_text_spec(addrs[k])
            == t
}

proof fn lemma_text_key_injective(a: Seq<char>, b: Seq<char>)
    requires
        crate::remote_share::text_key(a) == crate::remote_share::text_key(b),
    ensures
        a == b,
{
    assert(a.len() == crate::remote_share::text_key(a).len());
    assert forall|i: int| 0 <= i < a.len() implies a[i] == b[i] by {
        assert(crate::remote_share::text_key(a)[i] == crate::remote_share::text_key(b)[i]);
        assert(crate::remote_share::text_key(a)[i] == (a[i] as u32) as u64);
        assert(crate::remote_share::text_key(b)[i] == (b[i] as u32) as u64);
        vstd::utf8::char_u32_cast(a[i], a[i] as u32);
        vstd::utf8::char_u32_cast(b[i], b[i] as u32);
    }
    assert(a =~= b);
}

proof fn lemma_one_word_key(a: Seq<u64>, b: Seq<u64>)
    ensures
        crate::ordering::key_lt(seq![a], seq![b]) == crate::ordering::word_lt(a, b),
{
    reveal_with_fuel(crate::ordering::key_lt, 2);
    crate::ordering::lemma_word_order(a, b, a);
    assert(seq![a].drop_first() =~= Seq::<Seq<u64>>::empty());
    assert(seq![b].drop_first() =~= Seq::<Seq<u64>>::empty());
}

/// The addresses the share server can be bound to, given the machine's
/// IPv4 addresses: each once, in text order.
pub fn server_ip_options(addrs: &Vec<[u8; 4]>) -> (r: Vec<String>)
    ensures
        forall|i: int, j: int|
            0 <= i < j < r@.len() ==> crate::ordering::word_lt(
                crate::remote_share::text_key(#[trigger] r@[i]@),
                crate::remote_share::text_key(#[trigger] r@[j]@),
            ),
        forall|i: int| 0 <= i < r@.len() ==> is_ip_option(addrs@, #[trigger] r@[i]@),
        forall|t: Seq<char>|
            is_ip_option(addrs@, t) ==> exists|i: int| 0 <= i < r@.len() && #[trigger] r@[i]@ == t,
{
    proof {
        reveal_strlit("127.0.0.1");
        reveal_strlit("0.0.0.0");
    }
    let mut cand: Vec<String> = vec![String::from_str("127.0.0.1"), String::from_str("0.0.0.0")];
    let mut k: usize = 0;
    while k < addrs.len()
        invariant
            k <= addrs@.len(),
            cand@.len() >= 2,
            cand@[0]@ == "127.0.0.1"@,
            cand@[1]@ == "0.0.0.0"@,
            forall|i: int| 0 <= i < cand@.len() ==> is_ip_option(addrs@, #[trigger] cand@[i]@),
            forall|q: int|
                0 <= q < k && is_private_ipv4_spec(#[trigger] addrs@[q]) ==> exists|i: int|
                    0 <= i < cand@.len() && cand@[i]@ == ipv4_text_spec(addrs@[q]),
        decreases addrs.len() - k,
    {
        let ghost before = cand@;
        if is_private_ipv4(addrs[k]) {
            let t = ipv4_text(addrs[k]);
            let ghost n = cand@.len();
            cand.push(t);
            assert(cand@[n as int]@ == ipv4_text_spec(addrs@[k as int]));
            assert(is_ip_option(addrs@, cand@[n as int]@));
        }
        proof {
            assert forall|q: int|
                0 <= q < k + 1 && is_private_ipv4_spec(#[trigger] addrs@[q]) implies exists|i: int|
                    0 <= i < cand@.len() && cand@[i]@ == ipv4_text_spec(addrs@[q]) by {
                if q < k {
                    let i = choose|i: int| 0 <= i < before.len() && before[i]@ == ipv4_text_spec(addrs@[q]);
                    assert(cand@[i] == before[i]);
                } else {
                    assert(cand@[cand@.len() - 1]@ == ipv4_text_spec(addrs@[q]));
                }
            }
        }
        k = k + 1;
    }
    let mut keys: Vec<Vec<Vec<u64>>> = Vec::new();
    let mut j: usize = 0;
    while j < cand.len()
        invariant
            j <= cand@.len(),
            keys@.len() == j,
            forall|a: int| 0 <= a < j ==> crate::ordering::key_view(#[trigger] keys@[a]) == seq![
                crate::remote_share::text_key(cand@[a]@),
            ],
        decreases cand.len() - j,
    {
        let w = crate::remote_share::text_word(cand[j].as_str());
        let key = vec![w];
        assert(key@[0]@ == crate::remote_share::text_key(cand@[j as int]@));
        assert(crate::ordering::key_view(key) =~= seq![crate::remote_share::text_key(cand@[j as int]@)]);
        keys.push(key);
        j = j + 1;
    }
    let order = crate::ordering::sorted_order(&keys);
    let ghost ks = crate::ordering::keys_view(keys@);
    let ghost po = crate::ordering::positions(order@);
    let mut out: Vec<String> = Vec::new();
    let mut last: Vec<u64> = Vec::new();
    let mut a: usize = 0;
    while a < order.len()
        invariant
            a <= order@.len(),
            order@.len() == cand@.len(),
            keys@.len() == cand@.len(),
            po == crate::ordering::positions(order@),
            ks == crate::ordering::keys_view(keys@),
            crate::ordering::is_sorted_order(ks, po, cand@.len() as int),
            forall|x: int| 0 <= x < cand@.len() ==> #[trigger] ks[x] == seq![crate::remote_share::text_key(cand@[x]@)],
            forall|i: int| 0 <= i < cand@.len() ==> is_ip_option(addrs@, #[trigger] cand@[i]@),
            a > 0 ==> out@.len() > 0 && last@ == crate::remote_share::text_key(out@.last()@) && last@
                == crate::remote_share::text_key(cand@[po[a - 1]]@),
            a == 0 ==> out@.len() == 0,
            forall|i: int, m: int|
                0 <= i < m < out@.len() ==> crate::ordering::word_lt(
                    crate::remote_share::text_key(#[trigger] out@[i]@),
                    crate::remote_share::text_key(#[trigger] out@[m]@),
                ),
            forall|i: int| 0 <= i < out@.len() ==> is_ip_option(addrs@, #[trigger] out@[i]@),
            forall|b: int| #![trigger po[b]] 0 <= b < a ==> exists|i: int| 0 <= i < out@.len() && #[trigger] out@[i]@ == cand@[po[b]]@,
        decreases order.len() - a,
    {
        let x = order[a];
        assert(po[a as int] == x as int);
        let w = crate::remote_share::text_word(cand[x].as_str());
        let fresh = a == 0 || !crate::ordering::same_word(&last, &w);
        if fresh {
            let ghost before = out@;
            proof {
                if a > 0 {
                    let prev = po[a - 1];
                    assert(crate::ordering::entry_lt(ks, prev, x as int));
                    lemma_one_word_key(crate::remote_share::text_key(cand@[prev]@), w@);
                    assert forall|i: int| 0 <= i < before.len() implies crate::ordering::word_lt(
                        crate::remote_share::text_key(before[i]@),
                        w@,
                    ) by {
                        if i < before.len() - 1 {
                            assert(crate::ordering::word_lt(
                                crate::remote_share::text_key(before[i]@),
                                crate::remote_share::text_key(before[before.len() - 1]@),
                            ));
                            crate::ordering::lemma_word_order(
                                crate::remote_share::text_key(before[i]@),
                                last@,
                                w@,
                            );
                        }
                    }
                }
            }
            out.push(string_of(&chars_of(cand[x].as_str())));
            last = w;
            proof {
                assert(out@.last()@ == cand@[x as int]@);
                assert forall|i: int, m: int| 0 <= i < m < out@.len() implies crate::ordering::word_lt(
                    crate::remote_share::text_key(#[trigger] out@[i]@),
                    crate::remote_share::text_key(#[trigger] out@[m]@),
                ) by {
                    if m < out@.len() - 1 {
                        assert(out@[i] == before[i] && out@[m] == before[m]);
                    } else {
                        assert(out@[i] == before[i]);
                    }
                }
                assert forall|b: int| #![trigger po[b]] 0 <= b < a + 1 implies exists|i: int| 0 <= i < out@.len() && #[trigger] out@[i]@ == cand@[po[b]]@ by {
                    if b < a {
                        let i = choose|i: int| 0 <= i < before.len() && before[i]@ == cand@[po[b]]@;
                        assert(out@[i] == before[i]);
                    } else {
                        assert(out@[out@.len() - 1]@ == cand@[po[b]]@);
                    }
                }
            }
        } else {
            proof {
                lemma_text_key_injective(out@.last()@, cand@[x as int]@);
                assert(out@[out@.len() - 1]@ == cand@[po[a as int]]@);
            }
        }
        a = a + 1;
    }
    proof {
        assert forall|t: Seq<char>| is_ip_option(addrs@, t) implies exists|i: int| 0 <= i < out@.len() && #[trigger] out@[i]@ == t by {
            let c = if t == "127.0.0.1"@ {
                0
            } else if t == "0.0.0.0"@ {
                1
            } else {
                let q = choose|q: int|
                    0 <= q < addrs@.len() && is_private_ipv4_spec(addrs@[q]) && #[trigger] ipv4_text_spec(addrs@[q]) == t;
                choose|i: int| 0 <= i < cand@.len() && cand@[i]@ == ipv4_text_spec(addrs@[q])
            };
            assert(cand@[c]@ == t);
            assert(po.contains(c));
            let b = choose|b: int| 0 <= b < po.len() && po[b] == c;
        }
    }
    out
}

} // verus!
