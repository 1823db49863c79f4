//! Exit codes and the library's error values.
use vstd::prelude::*;
use crate::text::{cat, cat3, chars_of, has_substring, lowercase, owned, str_contains, str_eq, str_to_lowercase};

verus! {

/// Exit codes of the tool.
#[derive(Debug, Clone, Copy, PartialEq, Eq, Structural)]
pub enum ErrorCode {
    PluckingError,
    ConfigError,
    Internal(u32),
}

/// `c` read as a two's-complement 32-bit number.
pub open spec fn as_signed(c: u32) -> int {
    if c <= i32::MAX {
        c as int
    } else {
        c as int - 0x1_0000_0000
    }
}

/// The exit code of `e` before the "no return error" override.
pub open spec fn raw_code(e: ErrorCode) -> int {
    match e {
        ErrorCode::PluckingError => 1,
        ErrorCode::ConfigError => 2,
        ErrorCode::Internal(c) => as_signed(c),
    }
}

impl ErrorCode {
    /// The process exit code; 0 for every error when `no_return_error` is set
    /// (the value of the `PLUCK_NO_RETURN_ERROR` switch, see `env_flag_set`).
    pub fn to_raw(&self, no_return_error: bool) -> (r: i32)
        ensures
            r == (if no_return_error {
                0
            } else {
                raw_code(*self)
            }),
    {
        let code: i32 = match self {
            ErrorCode::PluckingError => 1,
            ErrorCode::ConfigError => 2,
            ErrorCode::Internal(c) => {
                let c = *c;
                if c <= 0x7fff_ffff {
                    c as i32
                } else {
                    let d: u32 = c - 0x8000_0000;
                    let r: i32 = (d as i32) - 0x7fff_ffff - 1;
                    r
                }
            },
        };
        if no_return_error {
            0
        } else {
            code
        }
    }
}

/// An environment switch is on: the variable is set to a non-empty value other than `0`.
pub open spec fn flag_on(value: Option<Seq<char>>) -> bool {
    match value {
        Some(v) => v.len() > 0 && v != "0"@,
        None => false,
    }
}

/// Reads the value of a switch such as `PLUCK_NO_RETURN_ERROR` or
/// `PLUCK_TEST_MODE`; `value` is the variable's value, `None` when unset.
pub fn env_flag_set(value: Option<&str>) -> (b: bool)
    ensures
        b == flag_on(match value {
            Some(v) => Some(v@),
            None => None,
        }),
{
    match value {
        Some(v) => {
            let n = chars_of(v).len();
            n > 0 && !str_eq(v, "0")
        },
        None => false,
    }
}

/// The exit code for an error whose message, lower-cased, is `lower`:
/// configuration errors (a missing config or an invalid setting), internal
/// errors (ancestry, inconsistency), else plucking errors.
pub open spec fn code_for_lowercase(lower: Seq<char>) -> ErrorCode {
    if has_substring(lower, "config"@) || has_substring(lower, "conflicting"@) || has_substring(
        lower,
        "cannot be combined"@,
    ) || has_substring(lower, "must be enabled"@) || has_substring(lower, "requires"@)
        || has_substring(lower, "validation failed"@) || has_substring(lower, "invalid boolean"@)
        || has_substring(lower, "invalid message filter"@) {
        ErrorCode::ConfigError
    } else if has_substring(lower, "not found in commit"@) || has_substring(lower, "ancestry"@)
        || has_substring(lower, "inconsistency"@) || has_substring(lower, "tree generation"@) {
        ErrorCode::Internal(3)
    } else {
        ErrorCode::PluckingError
    }
}

/// The exit code for an already lower-cased error message.
pub fn error_code_from_lowercase(lower: &str) -> (c: ErrorCode)
    ensures
        c == code_for_lowercase(lower@),
{
    if str_contains(lower, "config") || str_contains(lower, "conflicting") || str_contains(
        lower,
        "cannot be combined",
    ) || str_contains(lower, "must be enabled") || str_contains(lower, "requires")
        || str_contains(lower, "validation failed") || str_contains(lower, "invalid boolean")
        || str_contains(lower, "invalid message filter") {
        ErrorCode::ConfigError
    } else if str_contains(lower, "not found in commit") || str_contains(lower, "ancestry")
        || str_contains(lower, "inconsistency") || str_contains(lower, "tree generation") {
        ErrorCode::Internal(3)
    } else {
        ErrorCode::PluckingError
    }
}

/// Maps an error message to an exit code by the words it contains.
pub fn determine_error_code(message: &str) -> (c: ErrorCode)
    ensures
        c == code_for_lowercase(lowercase(message@)),
{
    let lower = str_to_lowercase(message);
    error_code_from_lowercase(lower.as_str())
}


/// The errors that the library's operations report.
#[derive(Debug, Clone)]
pub enum PluckError {
    /// A boolean config value other than `true`, `false`, `1` or `0`.
    InvalidBool(String),
    /// A config key that must hold a value was set to the empty string.
    EmptyConfigValue(String),
    /// The config file is not valid Git INI; the parser's description.
    ConfigParse(String),
    /// No config file for the pluck name and `force` not set.
    NoConfig(String),
    /// `--add-map` with a bare source that already has a section.
    SourceExists(String),
    /// `--remove` of a source that has no section.
    SourceNotInConfig(String),
    UnchangedTreeWithRecursive,
    NoLogMechanism,
    AuthorRegexIncomplete,
    CommitterRegexIncomplete,
    /// A pluck commit without a `Plucked from:` trailer (its id).
    MissingPluckSource(String),
    /// The message filter is not a valid regular expression.
    InvalidMessageFilter(String),
    /// A mapped source path (first) is absent from the source commit (second).
    MappedSourceNotFound(String, String),
    /// Slicing this path at a byte offset would fall outside it or inside a character.
    PathSlice(String),
    /// The pluck tip (first) is not a parent of the log branch tip (second).
    LogInconsistency(String, String),
    NoRevisions,
    NoCommitsCreated,
    /// The map has validation issues (their lines) and `force` is not set.
    MapInvalid(String),
}

/// The spec-level form of a `PluckError`.
pub enum ErrorView {
    InvalidBool(Seq<char>),
    EmptyConfigValue(Seq<char>),
    ConfigParse(Seq<char>),
    NoConfig(Seq<char>),
    SourceExists(Seq<char>),
    SourceNotInConfig(Seq<char>),
    UnchangedTreeWithRecursive,
    NoLogMechanism,
    AuthorRegexIncomplete,
    CommitterRegexIncomplete,
    MissingPluckSource(Seq<char>),
    InvalidMessageFilter(Seq<char>),
    MappedSourceNotFound(Seq<char>, Seq<char>),
    PathSlice(Seq<char>),
    LogInconsistency(Seq<char>, Seq<char>),
    NoRevisions,
    NoCommitsCreated,
    MapInvalid(Seq<char>),
}

impl View for PluckError {
    type V = ErrorView;

    open spec fn view(&self) -> ErrorView {
        match self {
            PluckError::InvalidBool(v) => ErrorView::InvalidBool(v@),
            PluckError::EmptyConfigValue(k) => ErrorView::EmptyConfigValue(k@),
            PluckError::ConfigParse(d) => ErrorView::ConfigParse(d@),
            PluckError::NoConfig(n) => ErrorView::NoConfig(n@),
            PluckError::SourceExists(s) => ErrorView::SourceExists(s@),
            PluckError::SourceNotInConfig(s) => ErrorView::SourceNotInConfig(s@),
            PluckError::UnchangedTreeWithRecursive => ErrorView::UnchangedTreeWithRecursive,
            PluckError::NoLogMechanism => ErrorView::NoLogMechanism,
            PluckError::AuthorRegexIncomplete => ErrorView::AuthorRegexIncomplete,
            PluckError::CommitterRegexIncomplete => ErrorView::CommitterRegexIncomplete,
            PluckError::MissingPluckSource(c) => ErrorView::MissingPluckSource(c@),
            PluckError::InvalidMessageFilter(f) => ErrorView::InvalidMessageFilter(f@),
            PluckError::MappedSourceNotFound(s, c) => ErrorView::MappedSourceNotFound(s@, c@),
            PluckError::PathSlice(p) => ErrorView::PathSlice(p@),
            PluckError::LogInconsistency(p, l) => ErrorView::LogInconsistency(p@, l@),
            PluckError::NoRevisions => ErrorView::NoRevisions,
            PluckError::NoCommitsCreated => ErrorView::NoCommitsCreated,
            PluckError::MapInvalid(t) => ErrorView::MapInvalid(t@),
        }
    }
}

/// The text shown to the user for an error.
pub open spec fn error_message(e: ErrorView) -> Seq<char> {
    match e {
        ErrorView::InvalidBool(v) => "Invalid boolean value: '"@ + v
            + "' (expected true/false or 1/0)"@,
        ErrorView::EmptyConfigValue(k) => "Config key '"@ + k
            + "' must not be empty. Remove or set value!"@,
        ErrorView::ConfigParse(d) => "Failed to parse config file: "@ + d,
        ErrorView::NoConfig(n) => "No config found for pluck name '"@ + n
            + "'. Use -c to specify a config file."@,
        ErrorView::SourceExists(s) => "Source '"@ + s
            + "' already exists in config. Use --force to override."@,
        ErrorView::SourceNotInConfig(s) => "Source '"@ + s + "' not found in config."@,
        ErrorView::UnchangedTreeWithRecursive =>
            "--allow-unchanged-tree and --recursive cannot be combined"@,
        ErrorView::NoLogMechanism => "At least one of --log-branch or --log-message must be enabled"@,
        ErrorView::AuthorRegexIncomplete =>
            "--rep-author-regex requires --rep-author-name and --rep-author-email"@,
        ErrorView::CommitterRegexIncomplete =>
            "--rep-committer-regex requires --rep-committer-name and --rep-committer-email"@,
        ErrorView::MissingPluckSource(c) => "Commit "@ + c
            + " is missing Pluck source SHA information"@,
        ErrorView::InvalidMessageFilter(f) => "Invalid message filter regex: "@ + f,
        ErrorView::MappedSourceNotFound(s, c) => "Mapped source '"@ + s + "' not found in commit "@
            + c,
        ErrorView::PathSlice(p) => "byte index out of range or inside a character of '"@ + p
            + "'"@,
        ErrorView::LogInconsistency(p, l) => "Log branch inconsistency: pluck tip "@ + p
            + " is not an immediate parent of log branch tip "@ + l,
        ErrorView::NoRevisions => "No revisions to pluck"@,
        ErrorView::NoCommitsCreated => "No pluck commits created"@,
        ErrorView::MapInvalid(t) => "Map validation failed:\n"@ + t,
    }
}

impl PluckError {
    /// The text shown to the user for this error.
    pub fn message(&self) -> (m: String)
        ensures
            m@ == error_message(self@),
    {
        match self {
            PluckError::InvalidBool(v) => cat3(
                "Invalid boolean value: '",
                v.as_str(),
                "' (expected true/false or 1/0)",
            ),
            PluckError::EmptyConfigValue(k) => cat3(
                "Config key '",
                k.as_str(),
                "' must not be empty. Remove or set value!",
            ),
            PluckError::ConfigParse(d) => cat("Failed to parse config file: ", d.as_str()),
            PluckError::NoConfig(n) => cat3(
                "No config found for pluck name '",
                n.as_str(),
                "'. Use -c to specify a config file.",
            ),
            PluckError::SourceExists(s) => cat3(
                "Source '",
                s.as_str(),
                "' already exists in config. Use --force to override.",
            ),
            PluckError::SourceNotInConfig(s) => cat3(
                "Source '",
                s.as_str(),
                "' not found in config.",
            ),
            PluckError::UnchangedTreeWithRecursive => owned(
                "--allow-unchanged-tree and --recursive cannot be combined",
            ),
            PluckError::NoLogMechanism => owned(
                "At least one of --log-branch or --log-message must be enabled",
            ),
            PluckError::AuthorRegexIncomplete => owned(
                "--rep-author-regex requires --rep-author-name and --rep-author-email",
            ),
            PluckError::CommitterRegexIncomplete => owned(
                "--rep-committer-regex requires --rep-committer-name and --rep-committer-email",
            ),
            PluckError::MissingPluckSource(c) => cat3(
                "Commit ",
                c.as_str(),
                " is missing Pluck source SHA information",
            ),
            PluckError::InvalidMessageFilter(f) => cat(
                "Invalid message filter regex: ",
                f.as_str(),
            ),
            PluckError::MappedSourceNotFound(s, c) => {
                let a = cat3("Mapped source '", s.as_str(), "' not found in commit ");
                cat(a.as_str(), c.as_str())
            },
            PluckError::PathSlice(p) => cat3(
                "byte index out of range or inside a character of '",
                p.as_str(),
                "'",
            ),
            PluckError::LogInconsistency(p, l) => {
                let a = cat3(
                    "Log branch inconsistency: pluck tip ",
                    p.as_str(),
                    " is not an immediate parent of log branch tip ",
                );
                cat(a.as_str(), l.as_str())
            },
            PluckError::NoRevisions => owned("No revisions to pluck"),
            PluckError::NoCommitsCreated => owned("No pluck commits created"),
            PluckError::MapInvalid(t) => cat("Map validation failed:\n", t.as_str()),
        }
    }
}

} // verus!
