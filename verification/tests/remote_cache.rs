use share_clip::models::AppError;
use share_clip::remote_cache::{
    cache_move_plan, cache_removal, cache_target, cached_index_entry, remote_file_name,
};
use share_clip::remote_share::{normalize_remote_relative_path, SharedFileIndexRow};

fn row(path: &str, cache: Option<&str>) -> SharedFileIndexRow {
    SharedFileIndexRow {
        user_id: "u".to_string(),
        shared_file_id: "s".to_string(),
        relative_path: path.to_string(),
        name: path.rsplit('/').next().unwrap_or(path).to_string(),
        is_dir: 0,
        local_cache_path: cache.map(str::to_string),
        size: None,
        mtime: None,
        hash: None,
        remote_deleted: 0,
        cache_status: 2,
        last_accessed_at: None,
        updated_at: None,
    }
}

fn invalid_message(e: AppError) -> String {
    match e {
        AppError::InvalidInput(m) => m,
        _ => panic!("expected invalid input"),
    }
}

#[test]
fn cache_target_trims_and_normalizes() {
    let t = cache_target(" u1 ", " s1 ", " docs\\a.txt ").unwrap_or_else(|_| panic!("valid"));
    assert_eq!(t, ("u1".to_string(), "s1".to_string(), "docs/a.txt".to_string()));
    let root = cache_target("u1", "s1", "").unwrap_or_else(|_| panic!("valid"));
    assert_eq!(root.2, ".");
}

#[test]
fn cache_target_errors_come_in_order() {
    let e = cache_target("", "", "../x").err().unwrap_or_else(|| panic!("refused"));
    assert_eq!(invalid_message(e), "远程路径不合法");
    let e = cache_target("u1", "  ", "a").err().unwrap_or_else(|| panic!("refused"));
    assert_eq!(invalid_message(e), "远程用户和共享 ID 不能为空");
}

#[test]
fn download_needs_a_file_name() {
    assert_eq!(remote_file_name("  a.txt ").ok(), Some("a.txt".to_string()));
    let e = remote_file_name("   ").err().unwrap_or_else(|| panic!("refused"));
    assert_eq!(invalid_message(e), "远程文件名不能为空");
}

#[test]
fn cached_entry_is_present_and_cached() {
    let mut old = row("docs/a.txt", None);
    old.remote_deleted = 1;
    old.cache_status = 0;
    let r = cached_index_entry(
        Some(old),
        "x".to_string(),
        "y".to_string(),
        "z".to_string(),
        "a.txt".to_string(),
        false,
        Some("/cache/a.txt".to_string()),
        Some(3),
        Some(4),
        Some("h".to_string()),
        99,
    );
    assert_eq!(r.user_id, "u");
    assert_eq!(r.relative_path, "docs/a.txt");
    assert_eq!((r.is_dir, r.remote_deleted, r.cache_status), (0, 0, 2));
    assert_eq!(r.local_cache_path, Some("/cache/a.txt".to_string()));
    assert_eq!((r.last_accessed_at, r.updated_at), (Some(99), Some(99)));
    let n = cached_index_entry(None, "u2".to_string(), "s2".to_string(), "b".to_string(), "b".to_string(), true, None, None, None, None, 5);
    assert_eq!((n.user_id.as_str(), n.shared_file_id.as_str(), n.relative_path.as_str()), ("u2", "s2", "b"));
    assert_eq!(n.is_dir, 1);
}

#[test]
fn removal_deletes_deepest_paths_first_once_each() {
    let rows = vec![
        row("docs", Some("/c/docs")),
        row("other", Some("/c/other")),
        row("docs/a/b.txt", Some("/c/docs/a/b.txt")),
        row("docs/a", Some("/c/docs/a/")),
        row("docs/a/again", Some("/c/docs/a")),
        row("docs/c.txt", None),
    ];
    let r = cache_removal(&rows, "docs");
    assert_eq!(r.targets, vec![0, 2, 3, 4, 5]);
    assert_eq!(r.paths, vec!["/c/docs/a/b.txt".to_string(), "/c/docs/a/".to_string(), "/c/docs".to_string()]);
    let all = cache_removal(&rows, ".");
    assert_eq!(all.targets.len(), 6);
}

#[test]
fn move_plan_lists_shallowest_first_and_finds_the_entry() {
    let rows = vec![
        row("docs/a/b.txt", Some("/c/docs/a/b.txt")),
        row("docs", Some("/c/docs")),
        row("other", Some("/c/other")),
        row("docs/a", Some("/c/docs/a")),
    ];
    let plan = cache_move_plan(&rows, "docs").unwrap_or_else(|_| panic!("planned"));
    assert_eq!(plan.order, vec![1, 3, 0]);
    assert_eq!(plan.root, 1);
}

#[test]
fn move_plan_refusals() {
    let rows = vec![row("docs/a", Some("/c/docs/a")), row("x", None)];
    let e = cache_move_plan(&rows, "docs").err().unwrap_or_else(|| panic!("refused"));
    assert_eq!(invalid_message(e), "该远程项还没有缓存，请先同步");
    let e = cache_move_plan(&rows, "x").err().unwrap_or_else(|| panic!("refused"));
    assert_eq!(invalid_message(e), "缓存路径不存在，请重新同步");
    let e = cache_move_plan(&vec![], "x").err().unwrap_or_else(|| panic!("refused"));
    assert_eq!(invalid_message(e), "该远程项还没有缓存，请先同步");
}

#[test]
fn normalized_remote_paths_normalize_to_themselves() {
    for raw in [" /docs\\\\ a /./b.txt/ ", "", ".", "//", "x", " a / b "] {
        let once = normalize_remote_relative_path(raw).unwrap_or_else(|_| panic!("valid"));
        let twice = normalize_remote_relative_path(&once).unwrap_or_else(|_| panic!("valid"));
        assert_eq!(once, twice);
    }
    assert_eq!(normalize_remote_relative_path(" /docs\\ a /./b.txt/ ").ok(), Some("docs/a/b.txt".to_string()));
}
