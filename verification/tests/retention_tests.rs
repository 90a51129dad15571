use weekfetch::models::WeekIdentifier;
use weekfetch::retention::{parse_week_dir_name, FileRetentionService};

fn setup_service() -> FileRetentionService {
    FileRetentionService::new("/work".to_string())
}

#[test]
fn test_archive_dir_path() {
    let service = setup_service();
    assert_eq!(service.archive_dir(), "/work/.archive");
}

#[test]
fn test_week_archive_path() {
    let service = setup_service();
    let week = WeekIdentifier::new(2026, 4);
    assert_eq!(service.week_archive_path(&week), "/work/.archive/2026-W04");
}

#[test]
fn test_superseded_path() {
    let service = setup_service();
    let week = WeekIdentifier::new(2026, 4);
    assert_eq!(
        service.superseded_path(&week),
        "/work/.archive/2026-W04/.superseded"
    );
}

#[test]
fn test_archive_destination() {
    let service = setup_service();
    let week = WeekIdentifier::new(2026, 4);
    assert_eq!(
        service.archive_destination(&week, "test_file.zip"),
        "/work/.archive/2026-W04/test_file.zip"
    );
}

#[test]
fn test_superseded_destination() {
    let service = setup_service();
    let week = WeekIdentifier::new(2026, 4);
    assert_eq!(
        service.superseded_destination(&week, "old_version.zip"),
        "/work/.archive/2026-W04/.superseded/old_version.zip"
    );
}

#[test]
fn test_parse_week_dir_name_valid() {
    assert_eq!(
        parse_week_dir_name("2026-W04"),
        Some(WeekIdentifier::new(2026, 4))
    );
    assert_eq!(
        parse_week_dir_name("2025-W52"),
        Some(WeekIdentifier::new(2025, 52))
    );
    assert_eq!(
        parse_week_dir_name("2024-W01"),
        Some(WeekIdentifier::new(2024, 1))
    );
}

#[test]
fn test_parse_week_dir_name_invalid() {
    assert!(parse_week_dir_name("invalid").is_none());
    assert!(parse_week_dir_name("2026-04").is_none());
    assert!(parse_week_dir_name("2026-W00").is_none()); // Week 0 invalid
    assert!(parse_week_dir_name("2026-W54").is_none()); // Week 54 invalid
    assert!(parse_week_dir_name("abc-W04").is_none());
}

#[test]
fn test_parse_week_dir_name_double_marker() {
    assert!(parse_week_dir_name("2026-W04-W05").is_none());
    assert!(parse_week_dir_name("").is_none());
}

#[test]
fn test_retention_keep_forever() {
    let service = setup_service();
    let entries = vec![
        (WeekIdentifier::new(2024, 1), 0i64),
        (WeekIdentifier::new(2024, 2), 100i64),
    ];
    let expired = service.expired_weeks(&entries, 2_000_000_000, None);
    assert!(expired.is_empty());
}

#[test]
fn test_retention_selects_old_weeks() {
    let service = setup_service();
    let now: i64 = 1_000_000;
    // With a seven-day policy the cutoff is 604800 seconds before now.
    let entries = vec![
        (WeekIdentifier::new(2024, 1), now - 700_000), // older than the cutoff
        (WeekIdentifier::new(2024, 2), now - 600_000), // inside the window
        (WeekIdentifier::new(2024, 3), now - 604_801), // just past the cutoff
    ];
    let expired = service.expired_weeks(&entries, now, Some(7));
    assert_eq!(
        expired,
        vec![WeekIdentifier::new(2024, 1), WeekIdentifier::new(2024, 3)]
    );
}

#[test]
fn test_retention_zero_days_deletes_everything_older_than_now() {
    let service = setup_service();
    let now: i64 = 500;
    let entries = vec![(WeekIdentifier::new(2024, 1), 499i64)];
    let expired = service.expired_weeks(&entries, now, Some(0));
    assert_eq!(expired, vec![WeekIdentifier::new(2024, 1)]);
}
