//! What the host's configuration holds for a preprocessor.

use vstd::prelude::*;

verus! {

/// The settings of the book that a preprocessor reads, as the host's
/// configuration holds them. A setting that is absent, or that is not of the
/// type the preprocessor reads, is `None`.
#[derive(Debug)]
pub struct BookSettings {
    /// Whether the configuration has a section for the preprocessor.
    pub has_section: bool,
    /// `base_url`, where it is a string.
    pub base_url: Option<String>,
    /// `minimum_number_of_commits`, where it is an integer.
    pub minimum_number_of_commits: Option<i64>,
    /// `article_preview_lines`, where it is an integer.
    pub article_preview_lines: Option<i64>,
    /// `target_number_of_entries`, where it is an integer.
    pub target_number_of_entries: Option<i64>,
    /// The title of the book.
    pub title: Option<String>,
    /// The directory of the book's sources.
    pub content_path: String,
    /// The root directory of the book.
    pub root_path: String,
}

/// Why the configuration cannot be used.
#[derive(Clone, Copy, Debug, PartialEq, Eq, Structural)]
pub enum ConfigError {
    /// The configuration has no section for the preprocessor.
    MissingSection,
    /// `base_url` is absent or not a string.
    MissingBaseUrl,
    /// `article_preview_lines` is below -1.
    InvalidPreviewLines,
    /// `target_number_of_entries` is below -1.
    InvalidTargetEntries,
    /// The book has no title.
    MissingTitle,
    /// `base_url` is not an absolute URL.
    InvalidBaseUrl,
}

/// The number of feed entries or list lines aimed at where none is
/// configured.
pub const DEFAULT_TARGET_ENTRIES: i64 = 10;

/// The number of preview lines where none is configured: no preview.
pub const DEFAULT_PREVIEW_LINES: i64 = 0;

/// The commit horizon where none is configured: the whole history.
pub const DEFAULT_MINIMUM_COMMITS: i64 = -1;

/// The value of an integer setting: the configured one, or the default.
pub open spec fn setting_or(setting: Option<i64>, default: i64) -> i64 {
    match setting {
        Some(value) => value,
        None => default,
    }
}

/// The value of an integer setting: the configured one, or the default.
pub fn integer_setting(setting: Option<i64>, default: i64) -> (value: i64)
    ensures
        value == setting_or(setting, default),
{
    match setting {
        Some(value) => value,
        None => default,
    }
}

} // verus!
