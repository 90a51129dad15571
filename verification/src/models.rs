//! Core data models: configuration, remote resources, week identifiers, and
//! status records.

use vstd::prelude::*;
use crate::text::{
    chars_to_string, contains_chars, dec_digits, dec_digits_signed, has_substring, i32_to_chars,
    lower_chars, str_to_chars, to_ascii_lower, u32_to_chars,
};

verus! {

/// Latest timestamp the week computation accepts:
/// the last second of year 9999, comfortably inside chrono's date range.
pub const MAX_WEEK_TIMESTAMP: i64 = 253402300799;

/// User configuration for the downloader.
#[derive(Clone, Debug, PartialEq)]
pub struct AppConfig {
    /// Local folder where files are saved.
    pub work_directory: Option<String>,
    /// Whether automatic polling is enabled.
    pub polling_enabled: bool,
    /// Polling interval in minutes (1-1440).
    pub polling_interval_minutes: u32,
    /// Retention policy in days. `None` keeps files forever; `Some(0)` deletes
    /// immediately.
    pub retention_days: Option<u32>,
}

impl Default for AppConfig {
    /// The default configuration: hourly polling enabled, week folders kept
    /// for seven days, no work directory chosen yet.
    fn default() -> (r: Self)
        ensures
            r.work_directory is None,
            r.polling_enabled,
            r.polling_interval_minutes == 60,
            r.retention_days == Some(7u32),
    {
        AppConfig {
            work_directory: None,
            polling_enabled: true,
            polling_interval_minutes: 60,
            retention_days: Some(7),
        }
    }
}

/// Why a configuration was rejected.
#[derive(Clone, Debug, PartialEq, Eq, Structural)]
pub enum ConfigValidationError {
    InvalidPollingInterval(u32),
}

impl AppConfig {
    /// A configuration is valid exactly when the polling interval lies
    /// between one minute and one day.
    pub fn validate(&self) -> (r: Result<(), ConfigValidationError>)
        ensures
            r is Ok <==> 1 <= self.polling_interval_minutes <= 1440,
            r is Err ==> r == Result::<(), ConfigValidationError>::Err(
                ConfigValidationError::InvalidPollingInterval(self.polling_interval_minutes),
            ),
    {
        if self.polling_interval_minutes < 1 || self.polling_interval_minutes > 1440 {
            Err(ConfigValidationError::InvalidPollingInterval(self.polling_interval_minutes))
        } else {
            Ok(())
        }
    }
}

/// One remotely described resource to fetch. Immutable once enqueued;
/// de-duplication is by `id`.
#[derive(Clone, Debug, PartialEq)]
pub struct Resource {
    pub id: i64,
    pub category: String,
    pub title: String,
    pub description: String,
    pub download_url: String,
    pub thumbnail_url: Option<String>,
    pub file_type: Option<String>,
    pub is_active: bool,
    /// Creation time as seconds since the Unix epoch.
    pub created_at: i64,
}

/// A list of resources as the remote API reports it.
#[derive(Clone, Debug, PartialEq)]
pub struct ResourceListResponse {
    pub count: u32,
    pub resources: Vec<Resource>,
}

/// The URL points at a recognized video-hosting domain.
pub open spec fn is_youtube_url_spec(url: Seq<char>) -> bool {
    let l = lower_chars(url);
    ||| has_substring(l, "://youtube.com"@)
    ||| has_substring(l, "://www.youtube.com"@)
    ||| has_substring(l, "://m.youtube.com"@)
    ||| has_substring(l, "://youtu.be"@)
}

/// Whether `url` is a YouTube link. The match ignores ASCII case and is
/// anchored at the scheme separator, so domains that merely end in the name
/// do not match.
pub fn is_youtube_url(url: &str) -> (r: bool)
    ensures
        r == is_youtube_url_spec(url@),
{
    let chars = str_to_chars(url);
    let lower = to_ascii_lower(&chars);
    let p1 = str_to_chars("://youtube.com");
    let p2 = str_to_chars("://www.youtube.com");
    let p3 = str_to_chars("://m.youtube.com");
    let p4 = str_to_chars("://youtu.be");
    contains_chars(&lower, &p1) || contains_chars(&lower, &p2) || contains_chars(&lower, &p3)
        || contains_chars(&lower, &p4)
}

/// ISO week (year, week number) of a Unix timestamp.
pub uninterp spec fn iso_week_of(ts: i64) -> (i32, u32);

/// Relies on chrono: `DateTime::<Utc>::from_timestamp` to interpret the
/// timestamp (in range, it returns `Some`) and `Datelike::iso_week` for the
/// ISO week, whose number chrono documents to lie in 1..=53.
#[verifier::external_body]
fn iso_week_fields(ts: i64) -> (r: (i32, u32))
    requires
        0 <= ts <= MAX_WEEK_TIMESTAMP,
    ensures
        r == iso_week_of(ts),
        1 <= r.1 <= 53,
{
    let dt = chrono::DateTime::<chrono::Utc>::from_timestamp(ts, 0).unwrap();
    let week = chrono::Datelike::iso_week(&dt);
    (week.year(), week.week())
}

/// Identifies one ISO week, the unit of the directory layout.
#[derive(Clone, Copy, Debug, PartialEq, Eq, Structural, Hash)]
pub struct WeekIdentifier {
    pub year: i32,
    pub week_number: u32,
}

/// Directory name of a week: the year in decimal, then `-W`, then the week
/// number padded to two digits.
pub open spec fn week_dir_chars(year: int, week: int) -> Seq<char> {
    let week_part = if week < 10 {
        seq!['0'] + dec_digits(week as nat)
    } else {
        dec_digits(week as nat)
    };
    dec_digits_signed(year) + seq!['-', 'W'] + week_part
}

impl WeekIdentifier {
    pub fn new(year: i32, week_number: u32) -> (r: Self)
        ensures
            r == (WeekIdentifier { year, week_number }),
    {
        WeekIdentifier { year, week_number }
    }

    /// The ISO week that contains the given Unix timestamp.
    pub fn from_timestamp(ts: i64) -> (r: Self)
        requires
            0 <= ts <= MAX_WEEK_TIMESTAMP,
        ensures
            (r.year, r.week_number) == iso_week_of(ts),
            1 <= r.week_number <= 53,
    {
        let (year, week_number) = iso_week_fields(ts);
        WeekIdentifier { year, week_number }
    }

    /// Format as a directory name, e.g. `2026-W03`.
    pub fn as_dir_name(&self) -> (r: String)
        ensures
            r@ == week_dir_chars(self.year as int, self.week_number as int),
    {
        let mut chars = i32_to_chars(self.year);
        chars.push('-');
        chars.push('W');
        let ghost prefix = chars@;
        if self.week_number < 10 {
            chars.push('0');
            let digits = u32_to_chars(self.week_number);
            let mut i: usize = 0;
            while i < digits.len()
                invariant
                    i <= digits@.len(),
                    chars@ == prefix + seq!['0'] + digits@.subrange(0, i as int),
                decreases digits@.len() - i,
            {
                chars.push(digits[i]);
                i = i + 1;
                proof {
                    assert(chars@ =~= prefix + seq!['0'] + digits@.subrange(0, i as int));
                }
            }
            proof {
                assert(digits@.subrange(0, digits@.len() as int) =~= digits@);
                assert(chars@ =~= week_dir_chars(self.year as int, self.week_number as int));
            }
        } else {
            let digits = u32_to_chars(self.week_number);
            let mut i: usize = 0;
            while i < digits.len()
                invariant
                    i <= digits@.len(),
                    chars@ == prefix + digits@.subrange(0, i as int),
                decreases digits@.len() - i,
            {
                chars.push(digits[i]);
                i = i + 1;
                proof {
                    assert(chars@ =~= prefix + digits@.subrange(0, i as int));
                }
            }
            proof {
                assert(digits@.subrange(0, digits@.len() as int) =~= digits@);
                assert(chars@ =~= week_dir_chars(self.year as int, self.week_number as int));
            }
        }
        chars_to_string(&chars)
    }
}

impl Resource {
    /// An equal copy of this resource.
    pub fn duplicate(&self) -> (r: Self)
        ensures
            r == *self,
    {
        Resource {
            id: self.id,
            category: self.category.clone(),
            title: self.title.clone(),
            description: self.description.clone(),
            download_url: self.download_url.clone(),
            thumbnail_url: match &self.thumbnail_url {
                Some(u) => Some(u.clone()),
                None => None,
            },
            file_type: match &self.file_type {
                Some(t) => Some(t.clone()),
                None => None,
            },
            is_active: self.is_active,
            created_at: self.created_at,
        }
    }

    /// Whether the download URL is a YouTube link.
    pub fn is_youtube(&self) -> (r: bool)
        ensures
            r == is_youtube_url_spec(self.download_url@),
    {
        is_youtube_url(self.download_url.as_str())
    }

    /// The ISO week this resource was created in.
    pub fn week(&self) -> (r: WeekIdentifier)
        requires
            0 <= self.created_at <= MAX_WEEK_TIMESTAMP,
        ensures
            (r.year, r.week_number) == iso_week_of(self.created_at),
            1 <= r.week_number <= 53,
    {
        WeekIdentifier::from_timestamp(self.created_at)
    }
}

/// A file already on disk, recorded for errata detection.
#[derive(Clone, Debug, PartialEq)]
pub struct DownloadedFile {
    pub resource_id: i64,
    pub week: WeekIdentifier,
    pub local_path: String,
    /// Download time as seconds since the Unix epoch.
    pub downloaded_at: i64,
    /// Original URL used for the download.
    pub source_url: String,
    /// Whether an errata corrige replaced this file.
    pub is_superseded: bool,
}

impl DownloadedFile {
    /// An equal copy of this record.
    pub fn duplicate(&self) -> (r: Self)
        ensures
            r == *self,
    {
        DownloadedFile {
            resource_id: self.resource_id,
            week: self.week,
            local_path: self.local_path.clone(),
            downloaded_at: self.downloaded_at,
            source_url: self.source_url.clone(),
            is_superseded: self.is_superseded,
        }
    }
}

/// A detected errata corrige: a local file superseded by a newer remote
/// resource in the same week.
#[derive(Clone, Debug, PartialEq)]
pub struct ErrataChange {
    pub resource_id: i64,
    pub old_file: DownloadedFile,
    pub new_resource: Resource,
}

/// Application status for display.
#[derive(Clone, Debug)]
pub struct AppStatus {
    pub polling_active: bool,
    /// Time of the last successful poll, as seconds since the Unix epoch.
    pub last_poll_time: Option<i64>,
    pub current_week: Option<WeekIdentifier>,
    pub total_resources: usize,
    pub pending_downloads: usize,
    pub has_superseded_files: bool,
}

impl Default for AppStatus {
    /// The initial status: nothing polled, nothing pending.
    fn default() -> (r: Self)
        ensures
            !r.polling_active,
            r.last_poll_time is None,
            r.current_week is None,
            r.total_resources == 0,
            r.pending_downloads == 0,
            !r.has_superseded_files,
    {
        AppStatus {
            polling_active: false,
            last_poll_time: None,
            current_week: None,
            total_resources: 0,
            pending_downloads: 0,
            has_superseded_files: false,
        }
    }
}

impl AppStatus {
    /// Record a completed poll: the poll time and the resource count are
    /// taken over, and the current week becomes that of the first listed
    /// resource, or stays as it was when the list is empty.
    pub fn apply_poll(&mut self, now_ts: i64, total: usize, first_created_at: Option<i64>)
        requires
            first_created_at matches Some(ts) ==> 0 <= ts <= MAX_WEEK_TIMESTAMP,
        ensures
            final(self).last_poll_time == Some(now_ts),
            final(self).total_resources == total,
            final(self).current_week == match first_created_at {
                Some(ts) => Some(WeekIdentifier {
                    year: iso_week_of(ts).0,
                    week_number: iso_week_of(ts).1,
                }),
                None => old(self).current_week,
            },
            final(self).polling_active == old(self).polling_active,
            final(self).pending_downloads == old(self).pending_downloads,
            final(self).has_superseded_files == old(self).has_superseded_files,
    {
        self.last_poll_time = Some(now_ts);
        self.total_resources = total;
        if let Some(ts) = first_created_at {
            self.current_week = Some(WeekIdentifier::from_timestamp(ts));
        }
    }
}

/// Result of one completed download: the final path and the content hash.
#[derive(Clone, Debug, PartialEq)]
pub struct DownloadResponse {
    pub path: String,
    pub hash: String,
}

/// Counts shown in the resource overview.
#[derive(Clone, Debug, PartialEq, Eq, Structural)]
pub struct ResourceSummary {
    pub total: usize,
    pub downloaded: usize,
    pub active: usize,
    pub queued: usize,
}

} // verus!
