use weekfetch::download::{
    create_linux_desktop_shortcut, create_macos_webloc_shortcut, create_windows_url_shortcut,
    extract_filename_from_url, part_file_name, resolve_filename, resource_destination,
    sanitize_filename,
};
use weekfetch::models::Resource;
use chrono::{TimeZone, Utc};

#[test]
fn test_extract_filename_from_url_valid() {
    assert_eq!(
        extract_filename_from_url("https://example.com/files/document.pdf"),
        Some("document.pdf".to_string())
    );
    assert_eq!(
        extract_filename_from_url("https://example.com/file.zip?token=abc"),
        Some("file.zip".to_string())
    );
}

#[test]
fn test_extract_filename_from_url_invalid() {
    assert!(extract_filename_from_url("https://example.com/").is_none());
    assert!(extract_filename_from_url("https://example.com/folder").is_none());
}

#[test]
fn test_sanitize_filename() {
    assert_eq!(sanitize_filename("Normal Name"), "Normal Name");
    assert_eq!(sanitize_filename("File/Name"), "File_Name");
    assert_eq!(sanitize_filename("A:B:C"), "A_B_C");
    assert_eq!(sanitize_filename("Test<>Name"), "Test__Name");
    assert_eq!(sanitize_filename("File*?|Name"), "File___Name");
}

#[test]
fn test_sanitize_filename_trims_whitespace() {
    assert_eq!(sanitize_filename("  Test  "), "Test");
}

#[test]
fn test_sanitize_filename_control_chars() {
    assert_eq!(sanitize_filename("a\tb\nc"), "a_b_c");
}

#[test]
fn test_linux_desktop_shortcut_format() {
    let (filename, content) =
        create_linux_desktop_shortcut("Test Video", "https://youtube.com/watch?v=abc123");

    assert_eq!(filename, "Test Video.desktop");
    assert!(content.contains("[Desktop Entry]"));
    assert!(content.contains("Type=Link"));
    assert!(content.contains("Name=Test Video"));
    assert!(content.contains("URL=https://youtube.com/watch?v=abc123"));
}

#[test]
fn test_windows_url_shortcut_format() {
    let (filename, content) = create_windows_url_shortcut("Clip", "https://youtu.be/x");
    assert_eq!(filename, "Clip.url");
    assert_eq!(content, "[InternetShortcut]\r\nURL=https://youtu.be/x\r\n");
}

#[test]
fn test_macos_webloc_shortcut_format() {
    let (filename, content) = create_macos_webloc_shortcut("Clip", "https://youtu.be/x");
    assert_eq!(filename, "Clip.webloc");
    assert!(content.starts_with("<?xml version=\"1.0\" encoding=\"UTF-8\"?>"));
    assert!(content.contains("<string>https://youtu.be/x</string>"));
}

#[test]
fn test_resolved_filename_with_query() {
    // A URL whose last segment carries query parameters resolves to the bare
    // filename.
    assert_eq!(
        resolve_filename("https://host.example/files/report.pdf?token=xyz", "Weekly Report"),
        "report.pdf"
    );
}

#[test]
fn test_resolved_filename_falls_back_to_title() {
    assert_eq!(
        resolve_filename("https://host.example/stream", "My: Title?"),
        "My_ Title_"
    );
}

#[test]
fn test_part_file_name() {
    assert_eq!(part_file_name("report.pdf"), "report.pdf.part");
}

#[test]
fn test_resource_destination_layout() {
    let dt = Utc.with_ymd_and_hms(2026, 1, 19, 12, 0, 0).unwrap();
    let resource = Resource {
        id: 9,
        category: "docs".to_string(),
        title: "Report".to_string(),
        description: String::new(),
        download_url: "https://host.example/files/report.pdf?token=xyz".to_string(),
        thumbnail_url: None,
        file_type: None,
        is_active: true,
        created_at: dt.timestamp(),
    };
    assert_eq!(
        resource_destination("/work", &resource),
        "/work/2026-W04/report.pdf"
    );
}
