//! Error types: file handling, downloads, polling, configuration, and the
//! unified application error. Underlying causes are carried as plain message
//! strings; `describe` renders the user-visible text.

use vstd::prelude::*;
use vstd::string::StringExecFns;

verus! {

/// Errors of file operations: archiving, retention, moving.
#[derive(Debug, Clone, PartialEq)]
pub enum FileError {
    WorkDirectoryNotSet,
    WorkDirectoryNotFound(String),
    CreateDirectoryFailed { path: String, source: String },
    MoveFileFailed { from: String, to: String, source: String },
    DeleteFileFailed { path: String, source: String },
    TrashFailed { path: String, source: String },
}

impl FileError {
    /// The user-visible message for this error.
    pub fn describe(&self) -> (r: String)
        ensures
            r@ == self.describe_spec(),
    {
        match self {
            FileError::WorkDirectoryNotSet => "Work directory not configured".to_owned(),
            FileError::WorkDirectoryNotFound(p) => {
                let mut r = "Work directory does not exist: ".to_owned();
                r.append(p.as_str());
                r
            },
            FileError::CreateDirectoryFailed { path, source } => {
                let mut r = "Failed to create directory: ".to_owned();
                r.append(path.as_str());
                r.append(": ");
                r.append(source.as_str());
                r
            },
            FileError::MoveFileFailed { from, to, source } => {
                let mut r = "Failed to move file from ".to_owned();
                r.append(from.as_str());
                r.append(" to ");
                r.append(to.as_str());
                r.append(": ");
                r.append(source.as_str());
                r
            },
            FileError::DeleteFileFailed { path, source } => {
                let mut r = "Failed to delete file ".to_owned();
                r.append(path.as_str());
                r.append(": ");
                r.append(source.as_str());
                r
            },
            FileError::TrashFailed { path, source } => {
                let mut r = "Failed to move to trash: ".to_owned();
                r.append(path.as_str());
                r.append(": ");
                r.append(source.as_str());
                r
            },
        }
    }
}

/// Errors of a transfer. Cancellation is reported through this type as well,
/// though it is a distinct terminal outcome rather than a fault.
#[derive(Debug, Clone, PartialEq)]
pub enum DownloadError {
    HttpError(String),
    WriteError { path: String, source: String },
    ShortcutCreationFailed(String),
    Cancelled,
}

impl DownloadError {
    /// The user-visible message for this error.
    pub fn describe(&self) -> (r: String)
        ensures
            r@ == self.describe_spec(),
    {
        match self {
            DownloadError::HttpError(m) => {
                let mut r = "HTTP request failed: ".to_owned();
                r.append(m.as_str());
                r
            },
            DownloadError::WriteError { path, source } => {
                let mut r = "Failed to write file: ".to_owned();
                r.append(path.as_str());
                r.append(": ");
                r.append(source.as_str());
                r
            },
            DownloadError::ShortcutCreationFailed(m) => {
                let mut r = "Failed to create URL shortcut: ".to_owned();
                r.append(m.as_str());
                r
            },
            DownloadError::Cancelled => "Download cancelled".to_owned(),
        }
    }
}

/// Errors of the background polling loop.
#[derive(Debug, Clone, PartialEq)]
pub enum PollingError {
    ApiError(String),
    ParseError(String),
    PollingDisabled,
}

impl PollingError {
    /// The user-visible message for this error.
    pub fn describe(&self) -> (r: String)
        ensures
            r@ == self.describe_spec(),
    {
        match self {
            PollingError::ApiError(m) => {
                let mut r = "API request failed: ".to_owned();
                r.append(m.as_str());
                r
            },
            PollingError::ParseError(m) => {
                let mut r = "Failed to parse API response: ".to_owned();
                r.append(m.as_str());
                r
            },
            PollingError::PollingDisabled => "Polling is not enabled".to_owned(),
        }
    }
}

/// Errors of configuration handling.
#[derive(Debug, Clone, PartialEq)]
pub enum ConfigError {
    LoadFailed(String),
    SaveFailed(String),
    ValidationFailed(String),
}

impl ConfigError {
    /// The user-visible message for this error.
    pub fn describe(&self) -> (r: String)
        ensures
            r@ == self.describe_spec(),
    {
        match self {
            ConfigError::LoadFailed(m) => {
                let mut r = "Failed to load configuration: ".to_owned();
                r.append(m.as_str());
                r
            },
            ConfigError::SaveFailed(m) => {
                let mut r = "Failed to save configuration: ".to_owned();
                r.append(m.as_str());
                r
            },
            ConfigError::ValidationFailed(m) => {
                let mut r = "Invalid configuration: ".to_owned();
                r.append(m.as_str());
                r
            },
        }
    }
}

/// Unified error type: each wrapped error is reported with its own message,
/// unchanged.
#[derive(Debug, Clone, PartialEq)]
pub enum AppError {
    File(FileError),
    Download(DownloadError),
    Polling(PollingError),
    Config(ConfigError),
}

impl AppError {
    /// The user-visible message: that of the wrapped error, verbatim.
    pub fn describe(&self) -> (r: String)
        ensures
            r@ == self.describe_spec(),
    {
        match self {
            AppError::File(e) => e.describe(),
            AppError::Download(e) => e.describe(),
            AppError::Polling(e) => e.describe(),
            AppError::Config(e) => e.describe(),
        }
    }
}

impl AppError {
    /// What `describe` returns: the wrapped error's message.
    pub open spec fn describe_spec(&self) -> Seq<char> {
        match self {
            AppError::File(e) => e.describe_spec(),
            AppError::Download(e) => e.describe_spec(),
            AppError::Polling(e) => e.describe_spec(),
            AppError::Config(e) => e.describe_spec(),
        }
    }
}

impl FileError {
    /// What `describe` returns.
    pub open spec fn describe_spec(&self) -> Seq<char> {
        match self {
            FileError::WorkDirectoryNotSet => "Work directory not configured"@,
            FileError::WorkDirectoryNotFound(p) => "Work directory does not exist: "@ + p@,
            FileError::CreateDirectoryFailed { path, source } =>
                "Failed to create directory: "@ + path@ + ": "@ + source@,
            FileError::MoveFileFailed { from, to, source } =>
                "Failed to move file from "@ + from@ + " to "@ + to@ + ": "@ + source@,
            FileError::DeleteFileFailed { path, source } =>
                "Failed to delete file "@ + path@ + ": "@ + source@,
            FileError::TrashFailed { path, source } =>
                "Failed to move to trash: "@ + path@ + ": "@ + source@,
        }
    }
}

impl DownloadError {
    /// What `describe` returns.
    pub open spec fn describe_spec(&self) -> Seq<char> {
        match self {
            DownloadError::HttpError(m) => "HTTP request failed: "@ + m@,
            DownloadError::WriteError { path, source } =>
                "Failed to write file: "@ + path@ + ": "@ + source@,
            DownloadError::ShortcutCreationFailed(m) => "Failed to create URL shortcut: "@ + m@,
            DownloadError::Cancelled => "Download cancelled"@,
        }
    }
}

impl PollingError {
    /// What `describe` returns.
    pub open spec fn describe_spec(&self) -> Seq<char> {
        match self {
            PollingError::ApiError(m) => "API request failed: "@ + m@,
            PollingError::ParseError(m) => "Failed to parse API response: "@ + m@,
            PollingError::PollingDisabled => "Polling is not enabled"@,
        }
    }
}

impl ConfigError {
    /// What `describe` returns.
    pub open spec fn describe_spec(&self) -> Seq<char> {
        match self {
            ConfigError::LoadFailed(m) => "Failed to load configuration: "@ + m@,
            ConfigError::SaveFailed(m) => "Failed to save configuration: "@ + m@,
            ConfigError::ValidationFailed(m) => "Invalid configuration: "@ + m@,
        }
    }
}

} // verus!
