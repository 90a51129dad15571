use weekfetch::cache::{SizeCache, SizeEntry};
use weekfetch::error::{AppError, ConfigError, DownloadError, FileError, PollingError};
use weekfetch::models::Resource;

fn resource(id: i64, url: &str) -> Resource {
    Resource {
        id,
        category: "docs".to_string(),
        title: format!("Resource {}", id),
        description: String::new(),
        download_url: url.to_string(),
        thumbnail_url: None,
        file_type: None,
        is_active: true,
        created_at: 1_700_000_000,
    }
}

#[test]
fn test_file_error_display() {
    let err = FileError::WorkDirectoryNotSet;
    assert_eq!(err.describe(), "Work directory not configured");
}

#[test]
fn test_download_error_display() {
    let err = DownloadError::WriteError {
        path: "/test/file.zip".to_string(),
        source: "access denied".to_string(),
    };
    assert!(err.describe().contains("/test/file.zip"));
}

#[test]
fn test_cancelled_error_message() {
    assert_eq!(DownloadError::Cancelled.describe(), "Download cancelled");
}

#[test]
fn test_polling_error_messages() {
    assert_eq!(
        PollingError::ApiError("timed out".to_string()).describe(),
        "API request failed: timed out"
    );
    assert_eq!(PollingError::PollingDisabled.describe(), "Polling is not enabled");
}

#[test]
fn test_config_error_message() {
    assert_eq!(
        ConfigError::ValidationFailed("bad interval".to_string()).describe(),
        "Invalid configuration: bad interval"
    );
}

#[test]
fn test_app_error_is_transparent() {
    let err = AppError::File(FileError::WorkDirectoryNotSet);
    assert_eq!(err.describe(), "Work directory not configured");
}

#[test]
fn test_size_cache_store_and_lookup() {
    let mut cache = SizeCache::new();
    let url = "https://example.com/a.zip".to_string();
    assert_eq!(cache.lookup(&url), None);

    cache.store(&url, SizeEntry::Known(1234));
    assert_eq!(cache.lookup(&url), Some(SizeEntry::Known(1234)));

    cache.store(&url, SizeEntry::Failed);
    assert_eq!(cache.lookup(&url), Some(SizeEntry::Failed));
}

#[test]
fn test_size_cache_remove() {
    let mut cache = SizeCache::new();
    let a = "https://example.com/a.zip".to_string();
    let b = "https://example.com/b.zip".to_string();
    cache.store(&a, SizeEntry::Known(1));
    cache.store(&b, SizeEntry::Known(2));
    cache.remove(&a);
    assert_eq!(cache.lookup(&a), None);
    assert_eq!(cache.lookup(&b), Some(SizeEntry::Known(2)));
}

#[test]
fn test_size_cache_known_entries_exclude_failures() {
    // Failed probes are a tagged entry, never persisted as a size.
    let mut cache = SizeCache::new();
    let a = "https://example.com/a.zip".to_string();
    let b = "https://example.com/b.zip".to_string();
    cache.store(&a, SizeEntry::Known(10));
    cache.store(&b, SizeEntry::Failed);
    let known = cache.known_entries();
    assert_eq!(known, vec![(a.clone(), 10)]);
}

#[test]
fn test_size_cache_prune_stale_urls() {
    let mut cache = SizeCache::new();
    let kept = "https://example.com/same.zip".to_string();
    let moved = "https://example.com/old.zip".to_string();
    let gone = "https://example.com/gone.zip".to_string();
    cache.store(&kept, SizeEntry::Known(1));
    cache.store(&moved, SizeEntry::Known(2));
    cache.store(&gone, SizeEntry::Known(3));

    let olds = vec![resource(1, "https://example.com/same.zip"), resource(2, "https://example.com/old.zip")];
    let news = vec![resource(1, "https://example.com/same.zip"), resource(2, "https://example.com/new.zip")];
    cache.prune(&olds, &news);

    // The unchanged URL stays; the moved resource's old URL and the URL no
    // resource carries any more are both dropped.
    assert_eq!(cache.lookup(&kept), Some(SizeEntry::Known(1)));
    assert_eq!(cache.lookup(&moved), None);
    assert_eq!(cache.lookup(&gone), None);
}
