//! Verified core of a weekly resource downloader: a task queue with
//! de-duplication and priority insertion, a concurrency controller, the
//! decision logic of a resumable transfer engine, filename resolution,
//! week-partitioned directory naming, errata detection, a size cache, and
//! retention selection.

pub mod cache;
pub mod download;
pub mod errata;
pub mod error;
pub mod models;
pub mod queue;
pub mod retention;
pub mod text;

pub use error::AppError;
pub use models::{AppConfig, Resource, WeekIdentifier};
pub use queue::{DownloadMode, DownloadQueue};
