use chrono::{TimeZone, Utc};
use weekfetch::models::{AppConfig, AppStatus, ConfigValidationError, Resource, WeekIdentifier};
use weekfetch::models::is_youtube_url;

fn test_resource(download_url: &str, created_at: i64) -> Resource {
    Resource {
        id: 1,
        category: "video".to_string(),
        title: "Test Video".to_string(),
        description: "A test".to_string(),
        download_url: download_url.to_string(),
        thumbnail_url: None,
        file_type: None,
        is_active: true,
        created_at,
    }
}

#[test]
fn test_default_config() {
    let config = AppConfig::default();
    assert!(config.polling_enabled);
    assert_eq!(config.polling_interval_minutes, 60);
    assert_eq!(config.retention_days, Some(7));
    assert!(config.work_directory.is_none());
}

#[test]
fn test_config_validation_valid() {
    let config = AppConfig {
        polling_interval_minutes: 30,
        ..Default::default()
    };
    assert!(config.validate().is_ok());
}

#[test]
fn test_config_validation_invalid_interval_zero() {
    let config = AppConfig {
        polling_interval_minutes: 0,
        ..Default::default()
    };
    assert_eq!(
        config.validate(),
        Err(ConfigValidationError::InvalidPollingInterval(0))
    );
}

#[test]
fn test_config_validation_invalid_interval_too_high() {
    let config = AppConfig {
        polling_interval_minutes: 1441,
        ..Default::default()
    };
    assert_eq!(
        config.validate(),
        Err(ConfigValidationError::InvalidPollingInterval(1441))
    );
}

#[test]
fn test_youtube_url_detection() {
    // YouTube URLs
    assert!(is_youtube_url("https://www.youtube.com/watch?v=abc123"));
    assert!(is_youtube_url("https://youtube.com/watch?v=abc123"));
    assert!(is_youtube_url("https://youtu.be/abc123"));
    assert!(is_youtube_url("http://www.youtube.com/embed/abc123"));
    assert!(is_youtube_url("HTTPS://YOUTUBE.COM/watch?v=ABC")); // Case insensitive

    // Non-YouTube URLs
    assert!(!is_youtube_url("https://example.com/file.zip"));
    assert!(!is_youtube_url("https://vimeo.com/123456"));
    assert!(!is_youtube_url("https://notyoutube.com/video"));
}

#[test]
fn test_resource_is_youtube() {
    let youtube_resource = test_resource("https://youtube.com/watch?v=abc", Utc::now().timestamp());
    assert!(youtube_resource.is_youtube());

    let file_resource = Resource {
        download_url: "https://example.com/file.zip".to_string(),
        ..youtube_resource.clone()
    };
    assert!(!file_resource.is_youtube());
}

#[test]
fn test_week_identifier_from_datetime() {
    // January 19, 2026 is in week 4 of 2026
    let dt = Utc.with_ymd_and_hms(2026, 1, 19, 12, 0, 0).unwrap();
    let week = WeekIdentifier::from_timestamp(dt.timestamp());
    assert_eq!(week.year, 2026);
    assert_eq!(week.week_number, 4);
}

#[test]
fn test_week_identifier_as_dir_name() {
    let week = WeekIdentifier::new(2026, 3);
    assert_eq!(week.as_dir_name(), "2026-W03");

    let week2 = WeekIdentifier::new(2025, 52);
    assert_eq!(week2.as_dir_name(), "2025-W52");
}

#[test]
fn test_week_identifier_display() {
    let week = WeekIdentifier::new(2026, 4);
    assert_eq!(week.as_dir_name(), "2026-W04");
}

#[test]
fn test_resource_week() {
    let dt = Utc.with_ymd_and_hms(2026, 1, 19, 12, 0, 0).unwrap();
    let resource = Resource {
        id: 1,
        category: "test".to_string(),
        title: "Test".to_string(),
        description: "".to_string(),
        download_url: "https://example.com/file.zip".to_string(),
        thumbnail_url: None,
        file_type: None,
        is_active: true,
        created_at: dt.timestamp(),
    };
    let week = resource.week();
    assert_eq!(week.year, 2026);
    assert_eq!(week.week_number, 4);
}

#[test]
fn test_apply_poll_updates_status() {
    let mut status = AppStatus::default();
    let dt = Utc.with_ymd_and_hms(2026, 1, 19, 12, 0, 0).unwrap().timestamp();
    status.apply_poll(1000, 5, Some(dt));
    assert_eq!(status.last_poll_time, Some(1000));
    assert_eq!(status.total_resources, 5);
    assert_eq!(status.current_week, Some(WeekIdentifier::new(2026, 4)));

    // An empty resource list keeps the known current week.
    status.apply_poll(2000, 0, None);
    assert_eq!(status.last_poll_time, Some(2000));
    assert_eq!(status.current_week, Some(WeekIdentifier::new(2026, 4)));
}

#[test]
fn test_week_of_year_boundary() {
    // December 29, 2025 falls in ISO week 1 of 2026.
    let dt = Utc.with_ymd_and_hms(2025, 12, 29, 0, 0, 0).unwrap();
    let week = WeekIdentifier::from_timestamp(dt.timestamp());
    assert_eq!(week.year, 2026);
    assert_eq!(week.week_number, 1);
}
