use share_clip::cleanup::{
    cleanup_plan, invalid_record_action, InvalidRecordAction, MAX_CLEANUP_DAYS,
};
use share_clip::models::ClipboardRecord;

fn record(id: i32, created_at: i64, is_favorite: i32) -> ClipboardRecord {
    ClipboardRecord {
        id,
        kind: 0,
        data: None,
        preview: None,
        hash: None,
        size: None,
        source_app: None,
        created_at,
        last_accessed_at: created_at,
        access_count: 0,
        is_favorite,
        is_shared: 0,
        is_valid: 1,
    }
}

const DAY: i64 = 86_400;

#[test]
fn old_records_expire_favorites_included() {
    let now = 100 * DAY;
    let records = vec![
        record(1, now - 10 * DAY, 0),
        record(2, now - 10 * DAY, 1),
        record(3, now - DAY, 0),
        record(4, now - 8 * DAY, 0),
        record(5, now - 7 * DAY + 1, 0),
    ];
    let plan = cleanup_plan(&records, now, Some(7), None);
    assert_eq!(plan.by_age, vec![0, 1, 3]);
    assert!(plan.by_count.is_empty());
}

#[test]
fn records_over_the_limit_leave_oldest_first_favorites_included() {
    let records = vec![
        record(1, 50, 0),
        record(2, 10, 1),
        record(3, 30, 0),
        record(4, 30, 0),
        record(5, 90, 0),
        record(6, 20, 0),
    ];
    let plan = cleanup_plan(&records, 1_000, None, Some(2));
    assert!(plan.by_age.is_empty());
    assert_eq!(plan.by_count, vec![1, 5, 2, 3]);
    let none = cleanup_plan(&records, 1_000, None, Some(10));
    assert!(none.by_count.is_empty());
    let all = cleanup_plan(&records, 1_000, None, Some(0));
    assert_eq!(all.by_count, vec![1, 5, 2, 3, 0, 4]);
}

#[test]
fn count_limit_applies_after_age_limit() {
    let now = 10 * DAY;
    let records = vec![
        record(1, 0, 0),
        record(2, 9 * DAY, 0),
        record(3, 9 * DAY + 5, 0),
        record(4, 8 * DAY, 0),
    ];
    let plan = cleanup_plan(&records, now, Some(5), Some(1));
    assert_eq!(plan.by_age, vec![0]);
    assert_eq!(plan.by_count, vec![3, 1]);
}

#[test]
fn negative_timestamps_order_before_positive_ones() {
    let records = vec![record(1, 5, 0), record(2, -5, 0), record(3, 0, 0)];
    let plan = cleanup_plan(&records, 0, None, Some(1));
    assert_eq!(plan.by_count, vec![1, 2]);
}

#[test]
fn very_long_age_limit_reaches_far_back() {
    let records = vec![record(1, -8_000_000_000_000, 0), record(2, 0, 0)];
    assert!(90_000_000 < MAX_CLEANUP_DAYS);
    let plan = cleanup_plan(&records, 1_700_000_000, Some(90_000_000), None);
    assert_eq!(plan.by_age, vec![0]);
}

#[test]
fn invalid_records_are_deleted_only_when_allowed() {
    assert_eq!(invalid_record_action(0, true), InvalidRecordAction::Delete);
    assert_eq!(invalid_record_action(1, true), InvalidRecordAction::MarkInvalid);
    assert_eq!(invalid_record_action(0, false), InvalidRecordAction::MarkInvalid);
}
