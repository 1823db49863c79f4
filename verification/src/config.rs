//! The pluck configuration: its settings and defaults, and reading them
//! from a Git INI config file.
use vstd::prelude::*;
use crate::error::{ErrorView, PluckError};
use crate::text::{
    cat3, fields, owned, parse_decimal, parse_u8, rfind_from, str_eq, str_rfind_char, str_split_char,
    str_trim, substring, trim,
};

verus! {

/// A raw `[forward.from "<source>"]` section entry with its `to` values.
#[derive(Debug, Clone)]
pub struct PathMappingEntry {
    pub src_path: String,
    pub dst_paths: Vec<String>,
}

impl DeepView for PathMappingEntry {
    type V = (Seq<char>, Seq<Seq<char>>);

    open spec fn deep_view(&self) -> (Seq<char>, Seq<Seq<char>>) {
        (self.src_path@, self.dst_paths.deep_view())
    }
}

/// Pluck behavior configuration: all settings with their defaults; CLI
/// flags override these values.
#[derive(Debug, Clone)]
pub struct PluckConfig {
    pub debug: u8,
    pub force: bool,
    pub allow_unchanged_tree: bool,
    pub mirror_map: bool,
    pub start_ref: String,
    pub allow_missing_path: bool,
    pub rep_author_regex: Option<String>,
    pub rep_author_name: Option<String>,
    pub rep_author_email: Option<String>,
    pub rep_committer_regex: Option<String>,
    pub rep_committer_name: Option<String>,
    pub rep_committer_email: Option<String>,
    pub rep_message: Option<String>,
    pub rep_message_filter: Option<String>,
    pub allow_nested_map: bool,
    pub allow_incomplete_ancestry: bool,
    pub quiet: bool,
    pub recursive: bool,
    pub recursive_opts: Option<String>,
    pub auto_reverse_map: bool,
    pub log_message: bool,
    pub timer: bool,
    pub log_branch: bool,
    pub skip_dedup_ancestry: bool,
    pub ignorant_pluck: Option<String>,
    pub path_mappings: Vec<PathMappingEntry>,
}

/// The spec-level form of a `PluckConfig`.
pub struct ConfigView {
    pub debug: u8,
    pub force: bool,
    pub allow_unchanged_tree: bool,
    pub mirror_map: bool,
    pub start_ref: Seq<char>,
    pub allow_missing_path: bool,
    pub rep_author_regex: Option<Seq<char>>,
    pub rep_author_name: Option<Seq<char>>,
    pub rep_author_email: Option<Seq<char>>,
    pub rep_committer_regex: Option<Seq<char>>,
    pub rep_committer_name: Option<Seq<char>>,
    pub rep_committer_email: Option<Seq<char>>,
    pub rep_message: Option<Seq<char>>,
    pub rep_message_filter: Option<Seq<char>>,
    pub allow_nested_map: bool,
    pub allow_incomplete_ancestry: bool,
    pub quiet: bool,
    pub recursive: bool,
    pub recursive_opts: Option<Seq<char>>,
    pub auto_reverse_map: bool,
    pub log_message: bool,
    pub timer: bool,
    pub log_branch: bool,
    pub skip_dedup_ancestry: bool,
    pub ignorant_pluck: Option<Seq<char>>,
    pub path_mappings: Seq<(Seq<char>, Seq<Seq<char>>)>,
}

/// The `(source, to-values)` pairs of a list of mapping sections.
pub closed spec fn mappings_view(v: &Vec<PathMappingEntry>) -> Seq<(Seq<char>, Seq<Seq<char>>)> {
    v.deep_view()
}

pub proof fn lemma_mappings_view(v: &Vec<PathMappingEntry>)
    ensures
        mappings_view(v) == v.deep_view(),
{
}

impl View for PluckConfig {
    type V = ConfigView;

    open spec fn view(&self) -> ConfigView {
        ConfigView {
            debug: self.debug,
            force: self.force,
            allow_unchanged_tree: self.allow_unchanged_tree,
            mirror_map: self.mirror_map,
            start_ref: self.start_ref@,
            allow_missing_path: self.allow_missing_path,
            rep_author_regex: self.rep_author_regex.deep_view(),
            rep_author_name: self.rep_author_name.deep_view(),
            rep_author_email: self.rep_author_email.deep_view(),
            rep_committer_regex: self.rep_committer_regex.deep_view(),
            rep_committer_name: self.rep_committer_name.deep_view(),
            rep_committer_email: self.rep_committer_email.deep_view(),
            rep_message: self.rep_message.deep_view(),
            rep_message_filter: self.rep_message_filter.deep_view(),
            allow_nested_map: self.allow_nested_map,
            allow_incomplete_ancestry: self.allow_incomplete_ancestry,
            quiet: self.quiet,
            recursive: self.recursive,
            recursive_opts: self.recursive_opts.deep_view(),
            auto_reverse_map: self.auto_reverse_map,
            log_message: self.log_message,
            timer: self.timer,
            log_branch: self.log_branch,
            skip_dedup_ancestry: self.skip_dedup_ancestry,
            ignorant_pluck: self.ignorant_pluck.deep_view(),
            path_mappings: mappings_view(&self.path_mappings),
        }
    }
}

/// The settings that `PluckConfig::default` holds.
pub open spec fn default_view() -> ConfigView {
    ConfigView {
        debug: 0,
        force: false,
        allow_unchanged_tree: false,
        mirror_map: false,
        start_ref: "HEAD"@,
        allow_missing_path: false,
        rep_author_regex: None,
        rep_author_name: None,
        rep_author_email: None,
        rep_committer_regex: None,
        rep_committer_name: None,
        rep_committer_email: None,
        rep_message: None,
        rep_message_filter: None,
        allow_nested_map: false,
        allow_incomplete_ancestry: false,
        quiet: false,
        recursive: false,
        recursive_opts: None,
        auto_reverse_map: false,
        log_message: false,
        timer: false,
        log_branch: true,
        skip_dedup_ancestry: false,
        ignorant_pluck: None,
        path_mappings: Seq::empty(),
    }
}

impl Default for PluckConfig {
    fn default() -> (c: Self)
        ensures
            c@ == default_view(),
    {
        let c = PluckConfig {
            debug: 0,
            force: false,
            allow_unchanged_tree: false,
            mirror_map: false,
            start_ref: owned("HEAD"),
            allow_missing_path: false,
            rep_author_regex: None,
            rep_author_name: None,
            rep_author_email: None,
            rep_committer_regex: None,
            rep_committer_name: None,
            rep_committer_email: None,
            rep_message: None,
            rep_message_filter: None,
            allow_nested_map: false,
            allow_incomplete_ancestry: false,
            quiet: false,
            recursive: false,
            recursive_opts: None,
            auto_reverse_map: false,
            log_message: false,
            timer: false,
            log_branch: true,
            skip_dedup_ancestry: false,
            ignorant_pluck: None,
            path_mappings: Vec::new(),
        };
        assert(c.path_mappings.deep_view() =~= Seq::<(Seq<char>, Seq<Seq<char>>)>::empty());
        c
    }
}

/// The boolean that a config value names: `true`/`1` or `false`/`0`.
pub open spec fn bool_of(v: Seq<char>) -> Option<bool> {
    if v == "true"@ || v == "1"@ {
        Some(true)
    } else if v == "false"@ || v == "0"@ {
        Some(false)
    } else {
        None
    }
}

/// Parses a boolean config value; other values, the empty one among them, are errors.
pub fn parse_bool(value: &str) -> (r: Result<bool, PluckError>)
    ensures
        r matches Ok(b) ==> bool_of(value@) == Some(b),
        r matches Err(e) ==> bool_of(value@) is None && e@ == ErrorView::InvalidBool(value@),
        r is Ok <==> bool_of(value@) is Some,
{
    if str_eq(value, "true") || str_eq(value, "1") {
        Ok(true)
    } else if str_eq(value, "false") || str_eq(value, "0") {
        Ok(false)
    } else {
        Err(PluckError::InvalidBool(owned(value)))
    }
}

/// Refuses an empty value for `key`.
pub fn ensure_not_empty(key: &str, value: &str) -> (r: Result<(), PluckError>)
    ensures
        r is Ok <==> value@.len() > 0,
        r matches Err(e) ==> e@ == ErrorView::EmptyConfigValue(key@),
{
    if chars_len(value) == 0 {
        Err(PluckError::EmptyConfigValue(owned(key)))
    } else {
        Ok(())
    }
}

fn chars_len(s: &str) -> (n: usize)
    ensures
        n == s@.len(),
{
    s.unicode_len()
}

/// The number a value names as `str::parse::<u8>` reads it, else `d`.
pub open spec fn u8_or(v: Seq<char>, d: u8) -> u8 {
    match parse_decimal(v) {
        Some(n) => if n <= 255 {
            n as u8
        } else {
            d
        },
        None => d,
    }
}

/// A boolean `[pluck]` setting.
#[derive(Debug, Clone, Copy, PartialEq, Eq, Structural)]
pub enum FlagKey {
    Force,
    AllowUnchangedTree,
    MirrorMap,
    AllowMissingPath,
    AllowNestedMap,
    AllowIncompleteAncestry,
    Quiet,
    AutoReverseMap,
    LogMessage,
    Timer,
    LogBranch,
    SkipDedupAncestry,
}

/// A `[pluck]` setting that holds a non-empty text.
#[derive(Debug, Clone, Copy, PartialEq, Eq, Structural)]
pub enum TextKey {
    RepAuthorRegex,
    RepAuthorName,
    RepAuthorEmail,
    RepCommitterRegex,
    RepCommitterName,
    RepCommitterEmail,
    RepMessage,
    RepMessageFilter,
    IgnorantPluck,
}

/// What a `[pluck]` key names.
#[derive(Debug, Clone, Copy, PartialEq, Eq, Structural)]
pub enum ConfigKey {
    Debug,
    StartRef,
    Recursive,
    Flag(FlagKey),
    Text(TextKey),
    Unknown,
}

/// The setting that a `[pluck]` key names (keys are matched exactly).
pub open spec fn key_of(key: Seq<char>) -> ConfigKey {
    if key == "debug"@ {
        ConfigKey::Debug
    } else if key == "force"@ {
        ConfigKey::Flag(FlagKey::Force)
    } else if key == "allowUnchangedTree"@ {
        ConfigKey::Flag(FlagKey::AllowUnchangedTree)
    } else if key == "mirrorMap"@ {
        ConfigKey::Flag(FlagKey::MirrorMap)
    } else if key == "startRef"@ {
        ConfigKey::StartRef
    } else if key == "allowMissingPath"@ {
        ConfigKey::Flag(FlagKey::AllowMissingPath)
    } else if key == "repAuthorRegex"@ {
        ConfigKey::Text(TextKey::RepAuthorRegex)
    } else if key == "repAuthorName"@ {
        ConfigKey::Text(TextKey::RepAuthorName)
    } else if key == "repAuthorEmail"@ {
        ConfigKey::Text(TextKey::RepAuthorEmail)
    } else if key == "repCommitterRegex"@ {
        ConfigKey::Text(TextKey::RepCommitterRegex)
    } else if key == "repCommitterName"@ {
        ConfigKey::Text(TextKey::RepCommitterName)
    } else if key == "repCommitterEmail"@ {
        ConfigKey::Text(TextKey::RepCommitterEmail)
    } else if key == "repMessage"@ {
        ConfigKey::Text(TextKey::RepMessage)
    } else if key == "repMessageFilter"@ {
        ConfigKey::Text(TextKey::RepMessageFilter)
    } else if key == "allowNestedMap"@ {
        ConfigKey::Flag(FlagKey::AllowNestedMap)
    } else if key == "allowIncompleteAncestry"@ {
        ConfigKey::Flag(FlagKey::AllowIncompleteAncestry)
    } else if key == "quiet"@ {
        ConfigKey::Flag(FlagKey::Quiet)
    } else if key == "recursive"@ {
        ConfigKey::Recursive
    } else if key == "autoReverseMap"@ {
        ConfigKey::Flag(FlagKey::AutoReverseMap)
    } else if key == "logMessage"@ {
        ConfigKey::Flag(FlagKey::LogMessage)
    } else if key == "timer"@ {
        ConfigKey::Flag(FlagKey::Timer)
    } else if key == "logBranch"@ {
        ConfigKey::Flag(FlagKey::LogBranch)
    } else if key == "skipDedupAncestry"@ || key == "unprunedAncestry"@ {
        ConfigKey::Flag(FlagKey::SkipDedupAncestry)
    } else if key == "ignorantPluck"@ {
        ConfigKey::Text(TextKey::IgnorantPluck)
    } else {
        ConfigKey::Unknown
    }
}

pub fn classify_key(key: &str) -> (k: ConfigKey)
    ensures
        k == key_of(key@),
{
    if str_eq(key, "debug") {
        ConfigKey::Debug
    } else if str_eq(key, "force") {
        ConfigKey::Flag(FlagKey::Force)
    } else if str_eq(key, "allowUnchangedTree") {
        ConfigKey::Flag(FlagKey::AllowUnchangedTree)
    } else if str_eq(key, "mirrorMap") {
        ConfigKey::Flag(FlagKey::MirrorMap)
    } else if str_eq(key, "startRef") {
        ConfigKey::StartRef
    } else if str_eq(key, "allowMissingPath") {
        ConfigKey::Flag(FlagKey::AllowMissingPath)
    } else if str_eq(key, "repAuthorRegex") {
        ConfigKey::Text(TextKey::RepAuthorRegex)
    } else if str_eq(key, "repAuthorName") {
        ConfigKey::Text(TextKey::RepAuthorName)
    } else if str_eq(key, "repAuthorEmail") {
        ConfigKey::Text(TextKey::RepAuthorEmail)
    } else if str_eq(key, "repCommitterRegex") {
        ConfigKey::Text(TextKey::RepCommitterRegex)
    } else if str_eq(key, "repCommitterName") {
        ConfigKey::Text(TextKey::RepCommitterName)
    } else if str_eq(key, "repCommitterEmail") {
        ConfigKey::Text(TextKey::RepCommitterEmail)
    } else if str_eq(key, "repMessage") {
        ConfigKey::Text(TextKey::RepMessage)
    } else if str_eq(key, "repMessageFilter") {
        ConfigKey::Text(TextKey::RepMessageFilter)
    } else if str_eq(key, "allowNestedMap") {
        ConfigKey::Flag(FlagKey::AllowNestedMap)
    } else if str_eq(key, "allowIncompleteAncestry") {
        ConfigKey::Flag(FlagKey::AllowIncompleteAncestry)
    } else if str_eq(key, "quiet") {
        ConfigKey::Flag(FlagKey::Quiet)
    } else if str_eq(key, "recursive") {
        ConfigKey::Recursive
    } else if str_eq(key, "autoReverseMap") {
        ConfigKey::Flag(FlagKey::AutoReverseMap)
    } else if str_eq(key, "logMessage") {
        ConfigKey::Flag(FlagKey::LogMessage)
    } else if str_eq(key, "timer") {
        ConfigKey::Flag(FlagKey::Timer)
    } else if str_eq(key, "logBranch") {
        ConfigKey::Flag(FlagKey::LogBranch)
    } else if str_eq(key, "skipDedupAncestry") || str_eq(key, "unprunedAncestry") {
        ConfigKey::Flag(FlagKey::SkipDedupAncestry)
    } else if str_eq(key, "ignorantPluck") {
        ConfigKey::Text(TextKey::IgnorantPluck)
    } else {
        ConfigKey::Unknown
    }
}

/// `c` with flag `k` set to `b`.
pub open spec fn with_flag(c: ConfigView, k: FlagKey, b: bool) -> ConfigView {
    match k {
        FlagKey::Force => ConfigView { force: b, ..c },
        FlagKey::AllowUnchangedTree => ConfigView { allow_unchanged_tree: b, ..c },
        FlagKey::MirrorMap => ConfigView { mirror_map: b, ..c },
        FlagKey::AllowMissingPath => ConfigView { allow_missing_path: b, ..c },
        FlagKey::AllowNestedMap => ConfigView { allow_nested_map: b, ..c },
        FlagKey::AllowIncompleteAncestry => ConfigView { allow_incomplete_ancestry: b, ..c },
        FlagKey::Quiet => ConfigView { quiet: b, ..c },
        FlagKey::AutoReverseMap => ConfigView { auto_reverse_map: b, ..c },
        FlagKey::LogMessage => ConfigView { log_message: b, ..c },
        FlagKey::Timer => ConfigView { timer: b, ..c },
        FlagKey::LogBranch => ConfigView { log_branch: b, ..c },
        FlagKey::SkipDedupAncestry => ConfigView { skip_dedup_ancestry: b, ..c },
    }
}

/// `c` with text setting `k` set to `v`.
pub open spec fn with_text(c: ConfigView, k: TextKey, v: Seq<char>) -> ConfigView {
    match k {
        TextKey::RepAuthorRegex => ConfigView { rep_author_regex: Some(v), ..c },
        TextKey::RepAuthorName => ConfigView { rep_author_name: Some(v), ..c },
        TextKey::RepAuthorEmail => ConfigView { rep_author_email: Some(v), ..c },
        TextKey::RepCommitterRegex => ConfigView { rep_committer_regex: Some(v), ..c },
        TextKey::RepCommitterName => ConfigView { rep_committer_name: Some(v), ..c },
        TextKey::RepCommitterEmail => ConfigView { rep_committer_email: Some(v), ..c },
        TextKey::RepMessage => ConfigView { rep_message: Some(v), ..c },
        TextKey::RepMessageFilter => ConfigView { rep_message_filter: Some(v), ..c },
        TextKey::IgnorantPluck => ConfigView { ignorant_pluck: Some(v), ..c },
    }
}

#[verifier::spinoff_prover]
#[verifier::rlimit(100)]
pub fn set_flag(config: &mut PluckConfig, k: FlagKey, b: bool)
    ensures
        final(config)@ === with_flag(old(config)@, k, b),
{
    match k {
        FlagKey::Force => config.force = b,
        FlagKey::AllowUnchangedTree => config.allow_unchanged_tree = b,
        FlagKey::MirrorMap => config.mirror_map = b,
        FlagKey::AllowMissingPath => config.allow_missing_path = b,
        FlagKey::AllowNestedMap => config.allow_nested_map = b,
        FlagKey::AllowIncompleteAncestry => config.allow_incomplete_ancestry = b,
        FlagKey::Quiet => config.quiet = b,
        FlagKey::AutoReverseMap => config.auto_reverse_map = b,
        FlagKey::LogMessage => config.log_message = b,
        FlagKey::Timer => config.timer = b,
        FlagKey::LogBranch => config.log_branch = b,
        FlagKey::SkipDedupAncestry => config.skip_dedup_ancestry = b,
    }
}

#[verifier::spinoff_prover]
#[verifier::rlimit(100)]
pub fn set_text(config: &mut PluckConfig, k: TextKey, v: String)
    ensures
        final(config)@ === with_text(old(config)@, k, v@),
{
    match k {
        TextKey::RepAuthorRegex => config.rep_author_regex = Some(v),
        TextKey::RepAuthorName => config.rep_author_name = Some(v),
        TextKey::RepAuthorEmail => config.rep_author_email = Some(v),
        TextKey::RepCommitterRegex => config.rep_committer_regex = Some(v),
        TextKey::RepCommitterName => config.rep_committer_name = Some(v),
        TextKey::RepCommitterEmail => config.rep_committer_email = Some(v),
        TextKey::RepMessage => config.rep_message = Some(v),
        TextKey::RepMessageFilter => config.rep_message_filter = Some(v),
        TextKey::IgnorantPluck => config.ignorant_pluck = Some(v),
    }
}

/// The config after setting `[pluck]` key `key` to `value`, and whether the key is known.
pub open spec fn set_key(key: Seq<char>, value: Seq<char>, c: ConfigView) -> Result<
    (ConfigView, bool),
    ErrorView,
> {
    match key_of(key) {
        ConfigKey::Debug => Ok((ConfigView { debug: u8_or(value, 0), ..c }, true)),
        ConfigKey::StartRef => if value.len() == 0 {
            Err(ErrorView::EmptyConfigValue(key))
        } else {
            Ok((ConfigView { start_ref: value, ..c }, true))
        },
        ConfigKey::Recursive => Ok(
            (
                ConfigView {
                    recursive: value.len() > 0,
                    recursive_opts: if value.len() == 0 {
                        None
                    } else {
                        Some(value)
                    },
                    ..c
                },
                true,
            ),
        ),
        ConfigKey::Flag(f) => match bool_of(value) {
            Some(b) => Ok((with_flag(c, f, b), true)),
            None => Err(ErrorView::InvalidBool(value)),
        },
        ConfigKey::Text(t) => if value.len() == 0 {
            Err(ErrorView::EmptyConfigValue(key))
        } else {
            Ok((with_text(c, t, value), true))
        },
        ConfigKey::Unknown => Ok((c, false)),
    }
}


proof fn lemma_key_of_debug()
    ensures
        key_of("debug"@) == ConfigKey::Debug,
{
    reveal_strlit("debug");
}

proof fn lemma_key_of_force()
    ensures
        key_of("force"@) == ConfigKey::Flag(FlagKey::Force),
{
    reveal_strlit("force");
    reveal_strlit("debug");
    assert("force"@[0] != "debug"@[0]);
}

proof fn lemma_key_of_allow_unchanged_tree()
    ensures
        key_of("allowUnchangedTree"@) == ConfigKey::Flag(FlagKey::AllowUnchangedTree),
{
    reveal_strlit("allowUnchangedTree");
    reveal_strlit("debug");
    assert("allowUnchangedTree"@.len() != "debug"@.len());
    reveal_strlit("force");
    assert("allowUnchangedTree"@.len() != "force"@.len());
}

proof fn lemma_key_of_mirror_map()
    ensures
        key_of("mirrorMap"@) == ConfigKey::Flag(FlagKey::MirrorMap),
{
    reveal_strlit("mirrorMap");
    reveal_strlit("debug");
    assert("mirrorMap"@.len() != "debug"@.len());
    reveal_strlit("force");
    assert("mirrorMap"@.len() != "force"@.len());
    reveal_strlit("allowUnchangedTree");
    assert("mirrorMap"@.len() != "allowUnchangedTree"@.len());
}

proof fn lemma_key_of_start_ref()
    ensures
        key_of("startRef"@) == ConfigKey::StartRef,
{
    reveal_strlit("startRef");
    reveal_strlit("debug");
    assert("startRef"@.len() != "debug"@.len());
    reveal_strlit("force");
    assert("startRef"@.len() != "force"@.len());
    reveal_strlit("allowUnchangedTree");
    assert("startRef"@.len() != "allowUnchangedTree"@.len());
    reveal_strlit("mirrorMap");
    assert("startRef"@.len() != "mirrorMap"@.len());
}

proof fn lemma_key_of_allow_missing_path()
    ensures
        key_of("allowMissingPath"@) == ConfigKey::Flag(FlagKey::AllowMissingPath),
{
    reveal_strlit("allowMissingPath");
    reveal_strlit("debug");
    assert("allowMissingPath"@.len() != "debug"@.len());
    reveal_strlit("force");
    assert("allowMissingPath"@.len() != "force"@.len());
    reveal_strlit("allowUnchangedTree");
    assert("allowMissingPath"@.len() != "allowUnchangedTree"@.len());
    reveal_strlit("mirrorMap");
    assert("allowMissingPath"@.len() != "mirrorMap"@.len());
    reveal_strlit("startRef");
    assert("allowMissingPath"@.len() != "startRef"@.len());
}

proof fn lemma_key_of_rep_author_regex()
    ensures
        key_of("repAuthorRegex"@) == ConfigKey::Text(TextKey::RepAuthorRegex),
{
    reveal_strlit("repAuthorRegex");
    reveal_strlit("debug");
    assert("repAuthorRegex"@.len() != "debug"@.len());
    reveal_strlit("force");
    assert("repAuthorRegex"@.len() != "force"@.len());
    reveal_strlit("allowUnchangedTree");
    assert("repAuthorRegex"@.len() != "allowUnchangedTree"@.len());
    reveal_strlit("mirrorMap");
    assert("repAuthorRegex"@.len() != "mirrorMap"@.len());
    reveal_strlit("startRef");
    assert("repAuthorRegex"@.len() != "startRef"@.len());
    reveal_strlit("allowMissingPath");
    assert("repAuthorRegex"@.len() != "allowMissingPath"@.len());
}

proof fn lemma_key_of_rep_author_name()
    ensures
        key_of("repAuthorName"@) == ConfigKey::Text(TextKey::RepAuthorName),
{
    reveal_strlit("repAuthorName");
    reveal_strlit("debug");
    assert("repAuthorName"@.len() != "debug"@.len());
    reveal_strlit("force");
    assert("repAuthorName"@.len() != "force"@.len());
    reveal_strlit("allowUnchangedTree");
    assert("repAuthorName"@.len() != "allowUnchangedTree"@.len());
    reveal_strlit("mirrorMap");
    assert("repAuthorName"@.len() != "mirrorMap"@.len());
    reveal_strlit("startRef");
    assert("repAuthorName"@.len() != "startRef"@.len());
    reveal_strlit("allowMissingPath");
    assert("repAuthorName"@.len() != "allowMissingPath"@.len());
    reveal_strlit("repAuthorRegex");
    assert("repAuthorName"@.len() != "repAuthorRegex"@.len());
}

proof fn lemma_key_of_rep_author_email()
    ensures
        key_of("repAuthorEmail"@) == ConfigKey::Text(TextKey::RepAuthorEmail),
{
    reveal_strlit("repAuthorEmail");
    reveal_strlit("debug");
    assert("repAuthorEmail"@.len() != "debug"@.len());
    reveal_strlit("force");
    assert("repAuthorEmail"@.len() != "force"@.len());
    reveal_strlit("allowUnchangedTree");
    assert("repAuthorEmail"@.len() != "allowUnchangedTree"@.len());
    reveal_strlit("mirrorMap");
    assert("repAuthorEmail"@.len() != "mirrorMap"@.len());
    reveal_strlit("startRef");
    assert("repAuthorEmail"@.len() != "startRef"@.len());
    reveal_strlit("allowMissingPath");
    assert("repAuthorEmail"@.len() != "allowMissingPath"@.len());
    reveal_strlit("repAuthorRegex");
    assert("repAuthorEmail"@[9] != "repAuthorRegex"@[9]);
    reveal_strlit("repAuthorName");
    assert("repAuthorEmail"@.len() != "repAuthorName"@.len());
}

proof fn lemma_key_of_rep_committer_regex()
    ensures
        key_of("repCommitterRegex"@) == ConfigKey::Text(TextKey::RepCommitterRegex),
{
    reveal_strlit("repCommitterRegex");
    reveal_strlit("debug");
    assert("repCommitterRegex"@.len() != "debug"@.len());
    reveal_strlit("force");
    assert("repCommitterRegex"@.len() != "force"@.len());
    reveal_strlit("allowUnchangedTree");
    assert("repCommitterRegex"@.len() != "allowUnchangedTree"@.len());
    reveal_strlit("mirrorMap");
    assert("repCommitterRegex"@.len() != "mirrorMap"@.len());
    reveal_strlit("startRef");
    assert("repCommitterRegex"@.len() != "startRef"@.len());
    reveal_strlit("allowMissingPath");
    assert("repCommitterRegex"@.len() != "allowMissingPath"@.len());
    reveal_strlit("repAuthorRegex");
    assert("repCommitterRegex"@.len() != "repAuthorRegex"@.len());
    reveal_strlit("repAuthorName");
    assert("repCommitterRegex"@.len() != "repAuthorName"@.len());
    reveal_strlit("repAuthorEmail");
    assert("repCommitterRegex"@.len() != "repAuthorEmail"@.len());
}

proof fn lemma_key_of_rep_committer_name()
    ensures
        key_of("repCommitterName"@) == ConfigKey::Text(TextKey::RepCommitterName),
{
    reveal_strlit("repCommitterName");
    reveal_strlit("debug");
    assert("repCommitterName"@.len() != "debug"@.len());
    reveal_strlit("force");
    assert("repCommitterName"@.len() != "force"@.len());
    reveal_strlit("allowUnchangedTree");
    assert("repCommitterName"@.len() != "allowUnchangedTree"@.len());
    reveal_strlit("mirrorMap");
    assert("repCommitterName"@.len() != "mirrorMap"@.len());
    reveal_strlit("startRef");
    assert("repCommitterName"@.len() != "startRef"@.len());
    reveal_strlit("allowMissingPath");
    assert("repCommitterName"@[0] != "allowMissingPath"@[0]);
    reveal_strlit("repAuthorRegex");
    assert("repCommitterName"@.len() != "repAuthorRegex"@.len());
    reveal_strlit("repAuthorName");
    assert("repCommitterName"@.len() != "repAuthorName"@.len());
    reveal_strlit("repAuthorEmail");
    assert("repCommitterName"@.len() != "repAuthorEmail"@.len());
    reveal_strlit("repCommitterRegex");
    assert("repCommitterName"@.len() != "repCommitterRegex"@.len());
}

proof fn lemma_key_of_rep_committer_email()
    ensures
        key_of("repCommitterEmail"@) == ConfigKey::Text(TextKey::RepCommitterEmail),
{
    reveal_strlit("repCommitterEmail");
    reveal_strlit("debug");
    assert("repCommitterEmail"@.len() != "debug"@.len());
    reveal_strlit("force");
    assert("repCommitterEmail"@.len() != "force"@.len());
    reveal_strlit("allowUnchangedTree");
    assert("repCommitterEmail"@.len() != "allowUnchangedTree"@.len());
    reveal_strlit("mirrorMap");
    assert("repCommitterEmail"@.len() != "mirrorMap"@.len());
    reveal_strlit("startRef");
    assert("repCommitterEmail"@.len() != "startRef"@.len());
    reveal_strlit("allowMissingPath");
    assert("repCommitterEmail"@.len() != "allowMissingPath"@.len());
    reveal_strlit("repAuthorRegex");
    assert("repCommitterEmail"@.len() != "repAuthorRegex"@.len());
    reveal_strlit("repAuthorName");
    assert("repCommitterEmail"@.len() != "repAuthorName"@.len());
    reveal_strlit("repAuthorEmail");
    assert("repCommitterEmail"@.len() != "repAuthorEmail"@.len());
    reveal_strlit("repCommitterRegex");
    assert("repCommitterEmail"@[12] != "repCommitterRegex"@[12]);
    reveal_strlit("repCommitterName");
    assert("repCommitterEmail"@.len() != "repCommitterName"@.len());
}

proof fn lemma_key_of_rep_message()
    ensures
        key_of("repMessage"@) == ConfigKey::Text(TextKey::RepMessage),
{
    reveal_strlit("repMessage");
    reveal_strlit("debug");
    assert("repMessage"@.len() != "debug"@.len());
    reveal_strlit("force");
    assert("repMessage"@.len() != "force"@.len());
    reveal_strlit("allowUnchangedTree");
    assert("repMessage"@.len() != "allowUnchangedTree"@.len());
    reveal_strlit("mirrorMap");
    assert("repMessage"@.len() != "mirrorMap"@.len());
    reveal_strlit("startRef");
    assert("repMessage"@.len() != "startRef"@.len());
    reveal_strlit("allowMissingPath");
    assert("repMessage"@.len() != "allowMissingPath"@.len());
    reveal_strlit("repAuthorRegex");
    assert("repMessage"@.len() != "repAuthorRegex"@.len());
    reveal_strlit("repAuthorName");
    assert("repMessage"@.len() != "repAuthorName"@.len());
    reveal_strlit("repAuthorEmail");
    assert("repMessage"@.len() != "repAuthorEmail"@.len());
    reveal_strlit("repCommitterRegex");
    assert("repMessage"@.len() != "repCommitterRegex"@.len());
    reveal_strlit("repCommitterName");
    assert("repMessage"@.len() != "repCommitterName"@.len());
    reveal_strlit("repCommitterEmail");
    assert("repMessage"@.len() != "repCommitterEmail"@.len());
}

proof fn lemma_key_of_rep_message_filter()
    ensures
        key_of("repMessageFilter"@) == ConfigKey::Text(TextKey::RepMessageFilter),
{
    reveal_strlit("repMessageFilter");
    reveal_strlit("debug");
    assert("repMessageFilter"@.len() != "debug"@.len());
    reveal_strlit("force");
    assert("repMessageFilter"@.len() != "force"@.len());
    reveal_strlit("allowUnchangedTree");
    assert("repMessageFilter"@.len() != "allowUnchangedTree"@.len());
    reveal_strlit("mirrorMap");
    assert("repMessageFilter"@.len() != "mirrorMap"@.len());
    reveal_strlit("startRef");
    assert("repMessageFilter"@.len() != "startRef"@.len());
    reveal_strlit("allowMissingPath");
    assert("repMessageFilter"@[0] != "allowMissingPath"@[0]);
    reveal_strlit("repAuthorRegex");
    assert("repMessageFilter"@.len() != "repAuthorRegex"@.len());
    reveal_strlit("repAuthorName");
    assert("repMessageFilter"@.len() != "repAuthorName"@.len());
    reveal_strlit("repAuthorEmail");
    assert("repMessageFilter"@.len() != "repAuthorEmail"@.len());
    reveal_strlit("repCommitterRegex");
    assert("repMessageFilter"@.len() != "repCommitterRegex"@.len());
    reveal_strlit("repCommitterName");
    assert("repMessageFilter"@[3] != "repCommitterName"@[3]);
    reveal_strlit("repCommitterEmail");
    assert("repMessageFilter"@.len() != "repCommitterEmail"@.len());
    reveal_strlit("repMessage");
    assert("repMessageFilter"@.len() != "repMessage"@.len());
}

proof fn lemma_key_of_allow_nested_map()
    ensures
        key_of("allowNestedMap"@) == ConfigKey::Flag(FlagKey::AllowNestedMap),
{
    reveal_strlit("allowNestedMap");
    reveal_strlit("debug");
    assert("allowNestedMap"@.len() != "debug"@.len());
    reveal_strlit("force");
    assert("allowNestedMap"@.len() != "force"@.len());
    reveal_strlit("allowUnchangedTree");
    assert("allowNestedMap"@.len() != "allowUnchangedTree"@.len());
    reveal_strlit("mirrorMap");
    assert("allowNestedMap"@.len() != "mirrorMap"@.len());
    reveal_strlit("startRef");
    assert("allowNestedMap"@.len() != "startRef"@.len());
    reveal_strlit("allowMissingPath");
    assert("allowNestedMap"@.len() != "allowMissingPath"@.len());
    reveal_strlit("repAuthorRegex");
    assert("allowNestedMap"@[0] != "repAuthorRegex"@[0]);
    reveal_strlit("repAuthorName");
    assert("allowNestedMap"@.len() != "repAuthorName"@.len());
    reveal_strlit("repAuthorEmail");
    assert("allowNestedMap"@[0] != "repAuthorEmail"@[0]);
    reveal_strlit("repCommitterRegex");
    assert("allowNestedMap"@.len() != "repCommitterRegex"@.len());
    reveal_strlit("repCommitterName");
    assert("allowNestedMap"@.len() != "repCommitterName"@.len());
    reveal_strlit("repCommitterEmail");
    assert("allowNestedMap"@.len() != "repCommitterEmail"@.len());
    reveal_strlit("repMessage");
    assert("allowNestedMap"@.len() != "repMessage"@.len());
    reveal_strlit("repMessageFilter");
    assert("allowNestedMap"@.len() != "repMessageFilter"@.len());
}

proof fn lemma_key_of_allow_incomplete_ancestry()
    ensures
        key_of("allowIncompleteAncestry"@) == ConfigKey::Flag(FlagKey::AllowIncompleteAncestry),
{
    reveal_strlit("allowIncompleteAncestry");
    reveal_strlit("debug");
    assert("allowIncompleteAncestry"@.len() != "debug"@.len());
    reveal_strlit("force");
    assert("allowIncompleteAncestry"@.len() != "force"@.len());
    reveal_strlit("allowUnchangedTree");
    assert("allowIncompleteAncestry"@.len() != "allowUnchangedTree"@.len());
    reveal_strlit("mirrorMap");
    assert("allowIncompleteAncestry"@.len() != "mirrorMap"@.len());
    reveal_strlit("startRef");
    assert("allowIncompleteAncestry"@.len() != "startRef"@.len());
    reveal_strlit("allowMissingPath");
    assert("allowIncompleteAncestry"@.len() != "allowMissingPath"@.len());
    reveal_strlit("repAuthorRegex");
    assert("allowIncompleteAncestry"@.len() != "repAuthorRegex"@.len());
    reveal_strlit("repAuthorName");
    assert("allowIncompleteAncestry"@.len() != "repAuthorName"@.len());
    reveal_strlit("repAuthorEmail");
    assert("allowIncompleteAncestry"@.len() != "repAuthorEmail"@.len());
    reveal_strlit("repCommitterRegex");
    assert("allowIncompleteAncestry"@.len() != "repCommitterRegex"@.len());
    reveal_strlit("repCommitterName");
    assert("allowIncompleteAncestry"@.len() != "repCommitterName"@.len());
    reveal_strlit("repCommitterEmail");
    assert("allowIncompleteAncestry"@.len() != "repCommitterEmail"@.len());
    reveal_strlit("repMessage");
    assert("allowIncompleteAncestry"@.len() != "repMessage"@.len());
    reveal_strlit("repMessageFilter");
    assert("allowIncompleteAncestry"@.len() != "repMessageFilter"@.len());
    reveal_strlit("allowNestedMap");
    assert("allowIncompleteAncestry"@.len() != "allowNestedMap"@.len());
}

proof fn lemma_key_of_quiet()
    ensures
        key_of("quiet"@) == ConfigKey::Flag(FlagKey::Quiet),
{
    reveal_strlit("quiet");
    reveal_strlit("debug");
    assert("quiet"@[0] != "debug"@[0]);
    reveal_strlit("force");
    assert("quiet"@[0] != "force"@[0]);
    reveal_strlit("allowUnchangedTree");
    assert("quiet"@.len() != "allowUnchangedTree"@.len());
    reveal_strlit("mirrorMap");
    assert("quiet"@.len() != "mirrorMap"@.len());
    reveal_strlit("startRef");
    assert("quiet"@.len() != "startRef"@.len());
    reveal_strlit("allowMissingPath");
    assert("quiet"@.len() != "allowMissingPath"@.len());
    reveal_strlit("repAuthorRegex");
    assert("quiet"@.len() != "repAuthorRegex"@.len());
    reveal_strlit("repAuthorName");
    assert("quiet"@.len() != "repAuthorName"@.len());
    reveal_strlit("repAuthorEmail");
    assert("quiet"@.len() != "repAuthorEmail"@.len());
    reveal_strlit("repCommitterRegex");
    assert("quiet"@.len() != "repCommitterRegex"@.len());
    reveal_strlit("repCommitterName");
    assert("quiet"@.len() != "repCommitterName"@.len());
    reveal_strlit("repCommitterEmail");
    assert("quiet"@.len() != "repCommitterEmail"@.len());
    reveal_strlit("repMessage");
    assert("quiet"@.len() != "repMessage"@.len());
    reveal_strlit("repMessageFilter");
    assert("quiet"@.len() != "repMessageFilter"@.len());
    reveal_strlit("allowNestedMap");
    assert("quiet"@.len() != "allowNestedMap"@.len());
    reveal_strlit("allowIncompleteAncestry");
    assert("quiet"@.len() != "allowIncompleteAncestry"@.len());
}

proof fn lemma_key_of_recursive()
    ensures
        key_of("recursive"@) == ConfigKey::Recursive,
{
    reveal_strlit("recursive");
    reveal_strlit("debug");
    assert("recursive"@.len() != "debug"@.len());
    reveal_strlit("force");
    assert("recursive"@.len() != "force"@.len());
    reveal_strlit("allowUnchangedTree");
    assert("recursive"@.len() != "allowUnchangedTree"@.len());
    reveal_strlit("mirrorMap");
    assert("recursive"@[0] != "mirrorMap"@[0]);
    reveal_strlit("startRef");
    assert("recursive"@.len() != "startRef"@.len());
    reveal_strlit("allowMissingPath");
    assert("recursive"@.len() != "allowMissingPath"@.len());
    reveal_strlit("repAuthorRegex");
    assert("recursive"@.len() != "repAuthorRegex"@.len());
    reveal_strlit("repAuthorName");
    assert("recursive"@.len() != "repAuthorName"@.len());
    reveal_strlit("repAuthorEmail");
    assert("recursive"@.len() != "repAuthorEmail"@.len());
    reveal_strlit("repCommitterRegex");
    assert("recursive"@.len() != "repCommitterRegex"@.len());
    reveal_strlit("repCommitterName");
    assert("recursive"@.len() != "repCommitterName"@.len());
    reveal_strlit("repCommitterEmail");
    assert("recursive"@.len() != "repCommitterEmail"@.len());
    reveal_strlit("repMessage");
    assert("recursive"@.len() != "repMessage"@.len());
    reveal_strlit("repMessageFilter");
    assert("recursive"@.len() != "repMessageFilter"@.len());
    reveal_strlit("allowNestedMap");
    assert("recursive"@.len() != "allowNestedMap"@.len());
    reveal_strlit("allowIncompleteAncestry");
    assert("recursive"@.len() != "allowIncompleteAncestry"@.len());
    reveal_strlit("quiet");
    assert("recursive"@.len() != "quiet"@.len());
}

proof fn lemma_key_of_auto_reverse_map()
    ensures
        key_of("autoReverseMap"@) == ConfigKey::Flag(FlagKey::AutoReverseMap),
{
    reveal_strlit("autoReverseMap");
    reveal_strlit("debug");
    assert("autoReverseMap"@.len() != "debug"@.len());
    reveal_strlit("force");
    assert("autoReverseMap"@.len() != "force"@.len());
    reveal_strlit("allowUnchangedTree");
    assert("autoReverseMap"@.len() != "allowUnchangedTree"@.len());
    reveal_strlit("mirrorMap");
    assert("autoReverseMap"@.len() != "mirrorMap"@.len());
    reveal_strlit("startRef");
    assert("autoReverseMap"@.len() != "startRef"@.len());
    reveal_strlit("allowMissingPath");
    assert("autoReverseMap"@.len() != "allowMissingPath"@.len());
    reveal_strlit("repAuthorRegex");
    assert("autoReverseMap"@[0] != "repAuthorRegex"@[0]);
    reveal_strlit("repAuthorName");
    assert("autoReverseMap"@.len() != "repAuthorName"@.len());
    reveal_strlit("repAuthorEmail");
    assert("autoReverseMap"@[0] != "repAuthorEmail"@[0]);
    reveal_strlit("repCommitterRegex");
    assert("autoReverseMap"@.len() != "repCommitterRegex"@.len());
    reveal_strlit("repCommitterName");
    assert("autoReverseMap"@.len() != "repCommitterName"@.len());
    reveal_strlit("repCommitterEmail");
    assert("autoReverseMap"@.len() != "repCommitterEmail"@.len());
    reveal_strlit("repMessage");
    assert("autoReverseMap"@.len() != "repMessage"@.len());
    reveal_strlit("repMessageFilter");
    assert("autoReverseMap"@.len() != "repMessageFilter"@.len());
    reveal_strlit("allowNestedMap");
    assert("autoReverseMap"@[1] != "allowNestedMap"@[1]);
    reveal_strlit("allowIncompleteAncestry");
    assert("autoReverseMap"@.len() != "allowIncompleteAncestry"@.len());
    reveal_strlit("quiet");
    assert("autoReverseMap"@.len() != "quiet"@.len());
    reveal_strlit("recursive");
    assert("autoReverseMap"@.len() != "recursive"@.len());
}

proof fn lemma_key_of_log_message()
    ensures
        key_of("logMessage"@) == ConfigKey::Flag(FlagKey::LogMessage),
{
    reveal_strlit("logMessage");
    reveal_strlit("debug");
    assert("logMessage"@.len() != "debug"@.len());
    reveal_strlit("force");
    assert("logMessage"@.len() != "force"@.len());
    reveal_strlit("allowUnchangedTree");
    assert("logMessage"@.len() != "allowUnchangedTree"@.len());
    reveal_strlit("mirrorMap");
    assert("logMessage"@.len() != "mirrorMap"@.len());
    reveal_strlit("startRef");
    assert("logMessage"@.len() != "startRef"@.len());
    reveal_strlit("allowMissingPath");
    assert("logMessage"@.len() != "allowMissingPath"@.len());
    reveal_strlit("repAuthorRegex");
    assert("logMessage"@.len() != "repAuthorRegex"@.len());
    reveal_strlit("repAuthorName");
    assert("logMessage"@.len() != "repAuthorName"@.len());
    reveal_strlit("repAuthorEmail");
    assert("logMessage"@.len() != "repAuthorEmail"@.len());
    reveal_strlit("repCommitterRegex");
    assert("logMessage"@.len() != "repCommitterRegex"@.len());
    reveal_strlit("repCommitterName");
    assert("logMessage"@.len() != "repCommitterName"@.len());
    reveal_strlit("repCommitterEmail");
    assert("logMessage"@.len() != "repCommitterEmail"@.len());
    reveal_strlit("repMessage");
    assert("logMessage"@[0] != "repMessage"@[0]);
    reveal_strlit("repMessageFilter");
    assert("logMessage"@.len() != "repMessageFilter"@.len());
    reveal_strlit("allowNestedMap");
    assert("logMessage"@.len() != "allowNestedMap"@.len());
    reveal_strlit("allowIncompleteAncestry");
    assert("logMessage"@.len() != "allowIncompleteAncestry"@.len());
    reveal_strlit("quiet");
    assert("logMessage"@.len() != "quiet"@.len());
    reveal_strlit("recursive");
    assert("logMessage"@.len() != "recursive"@.len());
    reveal_strlit("autoReverseMap");
    assert("logMessage"@.len() != "autoReverseMap"@.len());
}

proof fn lemma_key_of_timer()
    ensures
        key_of("timer"@) == ConfigKey::Flag(FlagKey::Timer),
{
    reveal_strlit("timer");
    reveal_strlit("debug");
    assert("timer"@[0] != "debug"@[0]);
    reveal_strlit("force");
    assert("timer"@[0] != "force"@[0]);
    reveal_strlit("allowUnchangedTree");
    assert("timer"@.len() != "allowUnchangedTree"@.len());
    reveal_strlit("mirrorMap");
    assert("timer"@.len() != "mirrorMap"@.len());
    reveal_strlit("startRef");
    assert("timer"@.len() != "startRef"@.len());
    reveal_strlit("allowMissingPath");
    assert("timer"@.len() != "allowMissingPath"@.len());
    reveal_strlit("repAuthorRegex");
    assert("timer"@.len() != "repAuthorRegex"@.len());
    reveal_strlit("repAuthorName");
    assert("timer"@.len() != "repAuthorName"@.len());
    reveal_strlit("repAuthorEmail");
    assert("timer"@.len() != "repAuthorEmail"@.len());
    reveal_strlit("repCommitterRegex");
    assert("timer"@.len() != "repCommitterRegex"@.len());
    reveal_strlit("repCommitterName");
    assert("timer"@.len() != "repCommitterName"@.len());
    reveal_strlit("repCommitterEmail");
    assert("timer"@.len() != "repCommitterEmail"@.len());
    reveal_strlit("repMessage");
    assert("timer"@.len() != "repMessage"@.len());
    reveal_strlit("repMessageFilter");
    assert("timer"@.len() != "repMessageFilter"@.len());
    reveal_strlit("allowNestedMap");
    assert("timer"@.len() != "allowNestedMap"@.len());
    reveal_strlit("allowIncompleteAncestry");
    assert("timer"@.len() != "allowIncompleteAncestry"@.len());
    reveal_strlit("quiet");
    assert("timer"@[0] != "quiet"@[0]);
    reveal_strlit("recursive");
    assert("timer"@.len() != "recursive"@.len());
    reveal_strlit("autoReverseMap");
    assert("timer"@.len() != "autoReverseMap"@.len());
    reveal_strlit("logMessage");
    assert("timer"@.len() != "logMessage"@.len());
}

proof fn lemma_key_of_log_branch()
    ensures
        key_of("logBranch"@) == ConfigKey::Flag(FlagKey::LogBranch),
{
    reveal_strlit("logBranch");
    reveal_strlit("debug");
    assert("logBranch"@.len() != "debug"@.len());
    reveal_strlit("force");
    assert("logBranch"@.len() != "force"@.len());
    reveal_strlit("allowUnchangedTree");
    assert("logBranch"@.len() != "allowUnchangedTree"@.len());
    reveal_strlit("mirrorMap");
    assert("logBranch"@[0] != "mirrorMap"@[0]);
    reveal_strlit("startRef");
    assert("logBranch"@.len() != "startRef"@.len());
    reveal_strlit("allowMissingPath");
    assert("logBranch"@.len() != "allowMissingPath"@.len());
    reveal_strlit("repAuthorRegex");
    assert("logBranch"@.len() != "repAuthorRegex"@.len());
    reveal_strlit("repAuthorName");
    assert("logBranch"@.len() != "repAuthorName"@.len());
    reveal_strlit("repAuthorEmail");
    assert("logBranch"@.len() != "repAuthorEmail"@.len());
    reveal_strlit("repCommitterRegex");
    assert("logBranch"@.len() != "repCommitterRegex"@.len());
    reveal_strlit("repCommitterName");
    assert("logBranch"@.len() != "repCommitterName"@.len());
    reveal_strlit("repCommitterEmail");
    assert("logBranch"@.len() != "repCommitterEmail"@.len());
    reveal_strlit("repMessage");
    assert("logBranch"@.len() != "repMessage"@.len());
    reveal_strlit("repMessageFilter");
    assert("logBranch"@.len() != "repMessageFilter"@.len());
    reveal_strlit("allowNestedMap");
    assert("logBranch"@.len() != "allowNestedMap"@.len());
    reveal_strlit("allowIncompleteAncestry");
    assert("logBranch"@.len() != "allowIncompleteAncestry"@.len());
    reveal_strlit("quiet");
    assert("logBranch"@.len() != "quiet"@.len());
    reveal_strlit("recursive");
    assert("logBranch"@[0] != "recursive"@[0]);
    reveal_strlit("autoReverseMap");
    assert("logBranch"@.len() != "autoReverseMap"@.len());
    reveal_strlit("logMessage");
    assert("logBranch"@.len() != "logMessage"@.len());
    reveal_strlit("timer");
    assert("logBranch"@.len() != "timer"@.len());
}

proof fn lemma_key_of_skip_dedup_ancestry()
    ensures
        key_of("skipDedupAncestry"@) == ConfigKey::Flag(FlagKey::SkipDedupAncestry),
{
    reveal_strlit("skipDedupAncestry");
    reveal_strlit("debug");
    assert("skipDedupAncestry"@.len() != "debug"@.len());
    reveal_strlit("force");
    assert("skipDedupAncestry"@.len() != "force"@.len());
    reveal_strlit("allowUnchangedTree");
    assert("skipDedupAncestry"@.len() != "allowUnchangedTree"@.len());
    reveal_strlit("mirrorMap");
    assert("skipDedupAncestry"@.len() != "mirrorMap"@.len());
    reveal_strlit("startRef");
    assert("skipDedupAncestry"@.len() != "startRef"@.len());
    reveal_strlit("allowMissingPath");
    assert("skipDedupAncestry"@.len() != "allowMissingPath"@.len());
    reveal_strlit("repAuthorRegex");
    assert("skipDedupAncestry"@.len() != "repAuthorRegex"@.len());
    reveal_strlit("repAuthorName");
    assert("skipDedupAncestry"@.len() != "repAuthorName"@.len());
    reveal_strlit("repAuthorEmail");
    assert("skipDedupAncestry"@.len() != "repAuthorEmail"@.len());
    reveal_strlit("repCommitterRegex");
    assert("skipDedupAncestry"@[0] != "repCommitterRegex"@[0]);
    reveal_strlit("repCommitterName");
    assert("skipDedupAncestry"@.len() != "repCommitterName"@.len());
    reveal_strlit("repCommitterEmail");
    assert("skipDedupAncestry"@[0] != "repCommitterEmail"@[0]);
    reveal_strlit("repMessage");
    assert("skipDedupAncestry"@.len() != "repMessage"@.len());
    reveal_strlit("repMessageFilter");
    assert("skipDedupAncestry"@.len() != "repMessageFilter"@.len());
    reveal_strlit("allowNestedMap");
    assert("skipDedupAncestry"@.len() != "allowNestedMap"@.len());
    reveal_strlit("allowIncompleteAncestry");
    assert("skipDedupAncestry"@.len() != "allowIncompleteAncestry"@.len());
    reveal_strlit("quiet");
    assert("skipDedupAncestry"@.len() != "quiet"@.len());
    reveal_strlit("recursive");
    assert("skipDedupAncestry"@.len() != "recursive"@.len());
    reveal_strlit("autoReverseMap");
    assert("skipDedupAncestry"@.len() != "autoReverseMap"@.len());
    reveal_strlit("logMessage");
    assert("skipDedupAncestry"@.len() != "logMessage"@.len());
    reveal_strlit("timer");
    assert("skipDedupAncestry"@.len() != "timer"@.len());
    reveal_strlit("logBranch");
    assert("skipDedupAncestry"@.len() != "logBranch"@.len());
}

proof fn lemma_key_of_unpruned_ancestry()
    ensures
        key_of("unprunedAncestry"@) == ConfigKey::Flag(FlagKey::SkipDedupAncestry),
{
    reveal_strlit("unprunedAncestry");
    reveal_strlit("debug");
    assert("unprunedAncestry"@.len() != "debug"@.len());
    reveal_strlit("force");
    assert("unprunedAncestry"@.len() != "force"@.len());
    reveal_strlit("allowUnchangedTree");
    assert("unprunedAncestry"@.len() != "allowUnchangedTree"@.len());
    reveal_strlit("mirrorMap");
    assert("unprunedAncestry"@.len() != "mirrorMap"@.len());
    reveal_strlit("startRef");
    assert("unprunedAncestry"@.len() != "startRef"@.len());
    reveal_strlit("allowMissingPath");
    assert("unprunedAncestry"@[0] != "allowMissingPath"@[0]);
    reveal_strlit("repAuthorRegex");
    assert("unprunedAncestry"@.len() != "repAuthorRegex"@.len());
    reveal_strlit("repAuthorName");
    assert("unprunedAncestry"@.len() != "repAuthorName"@.len());
    reveal_strlit("repAuthorEmail");
    assert("unprunedAncestry"@.len() != "repAuthorEmail"@.len());
    reveal_strlit("repCommitterRegex");
    assert("unprunedAncestry"@.len() != "repCommitterRegex"@.len());
    reveal_strlit("repCommitterName");
    assert("unprunedAncestry"@[0] != "repCommitterName"@[0]);
    reveal_strlit("repCommitterEmail");
    assert("unprunedAncestry"@.len() != "repCommitterEmail"@.len());
    reveal_strlit("repMessage");
    assert("unprunedAncestry"@.len() != "repMessage"@.len());
    reveal_strlit("repMessageFilter");
    assert("unprunedAncestry"@[0] != "repMessageFilter"@[0]);
    reveal_strlit("allowNestedMap");
    assert("unprunedAncestry"@.len() != "allowNestedMap"@.len());
    reveal_strlit("allowIncompleteAncestry");
    assert("unprunedAncestry"@.len() != "allowIncompleteAncestry"@.len());
    reveal_strlit("quiet");
    assert("unprunedAncestry"@.len() != "quiet"@.len());
    reveal_strlit("recursive");
    assert("unprunedAncestry"@.len() != "recursive"@.len());
    reveal_strlit("autoReverseMap");
    assert("unprunedAncestry"@.len() != "autoReverseMap"@.len());
    reveal_strlit("logMessage");
    assert("unprunedAncestry"@.len() != "logMessage"@.len());
    reveal_strlit("timer");
    assert("unprunedAncestry"@.len() != "timer"@.len());
    reveal_strlit("logBranch");
    assert("unprunedAncestry"@.len() != "logBranch"@.len());
    reveal_strlit("skipDedupAncestry");
    assert("unprunedAncestry"@.len() != "skipDedupAncestry"@.len());
}

proof fn lemma_key_of_ignorant_pluck()
    ensures
        key_of("ignorantPluck"@) == ConfigKey::Text(TextKey::IgnorantPluck),
{
    reveal_strlit("ignorantPluck");
    reveal_strlit("debug");
    assert("ignorantPluck"@.len() != "debug"@.len());
    reveal_strlit("force");
    assert("ignorantPluck"@.len() != "force"@.len());
    reveal_strlit("allowUnchangedTree");
    assert("ignorantPluck"@.len() != "allowUnchangedTree"@.len());
    reveal_strlit("mirrorMap");
    assert("ignorantPluck"@.len() != "mirrorMap"@.len());
    reveal_strlit("startRef");
    assert("ignorantPluck"@.len() != "startRef"@.len());
    reveal_strlit("allowMissingPath");
    assert("ignorantPluck"@.len() != "allowMissingPath"@.len());
    reveal_strlit("repAuthorRegex");
    assert("ignorantPluck"@.len() != "repAuthorRegex"@.len());
    reveal_strlit("repAuthorName");
    assert("ignorantPluck"@[0] != "repAuthorName"@[0]);
    reveal_strlit("repAuthorEmail");
    assert("ignorantPluck"@.len() != "repAuthorEmail"@.len());
    reveal_strlit("repCommitterRegex");
    assert("ignorantPluck"@.len() != "repCommitterRegex"@.len());
    reveal_strlit("repCommitterName");
    assert("ignorantPluck"@.len() != "repCommitterName"@.len());
    reveal_strlit("repCommitterEmail");
    assert("ignorantPluck"@.len() != "repCommitterEmail"@.len());
    reveal_strlit("repMessage");
    assert("ignorantPluck"@.len() != "repMessage"@.len());
    reveal_strlit("repMessageFilter");
    assert("ignorantPluck"@.len() != "repMessageFilter"@.len());
    reveal_strlit("allowNestedMap");
    assert("ignorantPluck"@.len() != "allowNestedMap"@.len());
    reveal_strlit("allowIncompleteAncestry");
    assert("ignorantPluck"@.len() != "allowIncompleteAncestry"@.len());
    reveal_strlit("quiet");
    assert("ignorantPluck"@.len() != "quiet"@.len());
    reveal_strlit("recursive");
    assert("ignorantPluck"@.len() != "recursive"@.len());
    reveal_strlit("autoReverseMap");
    assert("ignorantPluck"@.len() != "autoReverseMap"@.len());
    reveal_strlit("logMessage");
    assert("ignorantPluck"@.len() != "logMessage"@.len());
    reveal_strlit("timer");
    assert("ignorantPluck"@.len() != "timer"@.len());
    reveal_strlit("logBranch");
    assert("ignorantPluck"@.len() != "logBranch"@.len());
    reveal_strlit("skipDedupAncestry");
    assert("ignorantPluck"@.len() != "skipDedupAncestry"@.len());
    reveal_strlit("unprunedAncestry");
    assert("ignorantPluck"@.len() != "unprunedAncestry"@.len());
}

proof fn lemma_bool_value(v: Seq<char>, b: bool)
    requires
        (v == "true"@ || v == "1"@) && b || (v == "false"@ || v == "0"@) && !b,
    ensures
        bool_of(v) == Some(b),
{
    reveal_strlit("true");
    reveal_strlit("1");
    reveal_strlit("false");
    reveal_strlit("0");
    if v == "false"@ || v == "0"@ {
        assert("false"@.len() != "true"@.len() && "false"@.len() != "1"@.len());
        assert("0"@[0] != "1"@[0] && "0"@.len() != "true"@.len());
    }
}

proof fn lemma_flag_key(k: Seq<char>, f: FlagKey, v: Seq<char>, b: bool, c: ConfigView)
    requires
        key_of(k) == ConfigKey::Flag(f),
        bool_of(v) == Some(b),
    ensures
        set_key(k, v, c) == Ok::<(ConfigView, bool), ErrorView>((with_flag(c, f, b), true)),
{
}

/// Each documented boolean `[pluck]` key sets the flag it names and no
/// other setting: given `true`/`1` or `false`/`0`, the flag becomes that
/// value and every other setting is left as it was.
#[verifier::spinoff_prover]
#[verifier::rlimit(100)]
pub proof fn lemma_each_flag_key_sets_its_flag(v: Seq<char>, b: bool, c: ConfigView)
    requires
        (v == "true"@ || v == "1"@) && b || (v == "false"@ || v == "0"@) && !b,
    ensures
        set_key("force"@, v, c) == Ok::<(ConfigView, bool), ErrorView>((ConfigView { force: b, ..c }, true)),
        set_key("allowUnchangedTree"@, v, c) == Ok::<(ConfigView, bool), ErrorView>((ConfigView { allow_unchanged_tree: b, ..c }, true)),
        set_key("mirrorMap"@, v, c) == Ok::<(ConfigView, bool), ErrorView>((ConfigView { mirror_map: b, ..c }, true)),
        set_key("allowMissingPath"@, v, c) == Ok::<(ConfigView, bool), ErrorView>((ConfigView { allow_missing_path: b, ..c }, true)),
        set_key("allowNestedMap"@, v, c) == Ok::<(ConfigView, bool), ErrorView>((ConfigView { allow_nested_map: b, ..c }, true)),
        set_key("allowIncompleteAncestry"@, v, c) == Ok::<(ConfigView, bool), ErrorView>((ConfigView { allow_incomplete_ancestry: b, ..c }, true)),
        set_key("quiet"@, v, c) == Ok::<(ConfigView, bool), ErrorView>((ConfigView { quiet: b, ..c }, true)),
        set_key("autoReverseMap"@, v, c) == Ok::<(ConfigView, bool), ErrorView>((ConfigView { auto_reverse_map: b, ..c }, true)),
        set_key("logMessage"@, v, c) == Ok::<(ConfigView, bool), ErrorView>((ConfigView { log_message: b, ..c }, true)),
        set_key("timer"@, v, c) == Ok::<(ConfigView, bool), ErrorView>((ConfigView { timer: b, ..c }, true)),
        set_key("logBranch"@, v, c) == Ok::<(ConfigView, bool), ErrorView>((ConfigView { log_branch: b, ..c }, true)),
        set_key("skipDedupAncestry"@, v, c) == Ok::<(ConfigView, bool), ErrorView>((ConfigView { skip_dedup_ancestry: b, ..c }, true)),
        set_key("unprunedAncestry"@, v, c) == Ok::<(ConfigView, bool), ErrorView>((ConfigView { skip_dedup_ancestry: b, ..c }, true)),
{
    lemma_bool_value(v, b);
    lemma_key_of_force();
    lemma_flag_key("force"@, FlagKey::Force, v, b, c);
    lemma_key_of_allow_unchanged_tree();
    lemma_flag_key("allowUnchangedTree"@, FlagKey::AllowUnchangedTree, v, b, c);
    lemma_key_of_mirror_map();
    lemma_flag_key("mirrorMap"@, FlagKey::MirrorMap, v, b, c);
    lemma_key_of_allow_missing_path();
    lemma_flag_key("allowMissingPath"@, FlagKey::AllowMissingPath, v, b, c);
    lemma_key_of_allow_nested_map();
    lemma_flag_key("allowNestedMap"@, FlagKey::AllowNestedMap, v, b, c);
    lemma_key_of_allow_incomplete_ancestry();
    lemma_flag_key("allowIncompleteAncestry"@, FlagKey::AllowIncompleteAncestry, v, b, c);
    lemma_key_of_quiet();
    lemma_flag_key("quiet"@, FlagKey::Quiet, v, b, c);
    lemma_key_of_auto_reverse_map();
    lemma_flag_key("autoReverseMap"@, FlagKey::AutoReverseMap, v, b, c);
    lemma_key_of_log_message();
    lemma_flag_key("logMessage"@, FlagKey::LogMessage, v, b, c);
    lemma_key_of_timer();
    lemma_flag_key("timer"@, FlagKey::Timer, v, b, c);
    lemma_key_of_log_branch();
    lemma_flag_key("logBranch"@, FlagKey::LogBranch, v, b, c);
    lemma_key_of_skip_dedup_ancestry();
    lemma_flag_key("skipDedupAncestry"@, FlagKey::SkipDedupAncestry, v, b, c);
    lemma_key_of_unpruned_ancestry();
    lemma_flag_key("unprunedAncestry"@, FlagKey::SkipDedupAncestry, v, b, c);
}

/// Each documented text `[pluck]` key sets the setting it names and no
/// other: given a non-empty text, the setting becomes that text and every
/// other setting is left as it was.
#[verifier::spinoff_prover]
#[verifier::rlimit(100)]
pub proof fn lemma_each_text_key_sets_its_text(t: Seq<char>, c: ConfigView)
    requires
        t.len() > 0,
    ensures
        set_key("repAuthorRegex"@, t, c) == Ok::<(ConfigView, bool), ErrorView>(
            (ConfigView { rep_author_regex: Some(t), ..c }, true),
        ),
        set_key("repAuthorName"@, t, c) == Ok::<(ConfigView, bool), ErrorView>(
            (ConfigView { rep_author_name: Some(t), ..c }, true),
        ),
        set_key("repAuthorEmail"@, t, c) == Ok::<(ConfigView, bool), ErrorView>(
            (ConfigView { rep_author_email: Some(t), ..c }, true),
        ),
        set_key("repCommitterRegex"@, t, c) == Ok::<(ConfigView, bool), ErrorView>(
            (ConfigView { rep_committer_regex: Some(t), ..c }, true),
        ),
        set_key("repCommitterName"@, t, c) == Ok::<(ConfigView, bool), ErrorView>(
            (ConfigView { rep_committer_name: Some(t), ..c }, true),
        ),
        set_key("repCommitterEmail"@, t, c) == Ok::<(ConfigView, bool), ErrorView>(
            (ConfigView { rep_committer_email: Some(t), ..c }, true),
        ),
        set_key("repMessage"@, t, c) == Ok::<(ConfigView, bool), ErrorView>(
            (ConfigView { rep_message: Some(t), ..c }, true),
        ),
        set_key("repMessageFilter"@, t, c) == Ok::<(ConfigView, bool), ErrorView>(
            (ConfigView { rep_message_filter: Some(t), ..c }, true),
        ),
        set_key("ignorantPluck"@, t, c) == Ok::<(ConfigView, bool), ErrorView>(
            (ConfigView { ignorant_pluck: Some(t), ..c }, true),
        ),
        set_key("startRef"@, t, c) == Ok::<(ConfigView, bool), ErrorView>(
            (ConfigView { start_ref: t, ..c }, true),
        ),
{
    lemma_key_of_start_ref();
    lemma_key_of_rep_author_regex();
    lemma_key_of_rep_author_name();
    lemma_key_of_rep_author_email();
    lemma_key_of_rep_committer_regex();
    lemma_key_of_rep_committer_name();
    lemma_key_of_rep_committer_email();
    lemma_key_of_rep_message();
    lemma_key_of_rep_message_filter();
    lemma_key_of_ignorant_pluck();
}

/// Sets one `[pluck]` key from its config value. Returns whether the key is
/// known; an unknown key leaves the config unchanged.
pub fn set_pluck_config(key: &str, value: &str, config: &mut PluckConfig) -> (r: Result<
    bool,
    PluckError,
>)
    ensures
        r matches Ok(known) ==> set_key(key@, value@, old(config)@) == Ok::<
            (ConfigView, bool),
            ErrorView,
        >((final(config)@, known)),
        r matches Err(e) ==> set_key(key@, value@, old(config)@) == Err::<
            (ConfigView, bool),
            ErrorView,
        >(e@) && final(config)@ == old(config)@,
{
    match classify_key(key) {
        ConfigKey::Debug => {
            config.debug = match parse_u8(value) {
                Some(n) => n,
                None => 0,
            };
            Ok(true)
        },
        ConfigKey::StartRef => match ensure_not_empty(key, value) {
            Err(e) => Err(e),
            Ok(()) => {
                config.start_ref = owned(value);
                Ok(true)
            },
        },
        ConfigKey::Recursive => {
            let empty = chars_len(value) == 0;
            config.recursive = !empty;
            config.recursive_opts = if empty {
                None
            } else {
                Some(owned(value))
            };
            Ok(true)
        },
        ConfigKey::Flag(f) => match parse_bool(value) {
            Err(e) => Err(e),
            Ok(b) => {
                set_flag(config, f, b);
                Ok(true)
            },
        },
        ConfigKey::Text(t) => match ensure_not_empty(key, value) {
            Err(e) => Err(e),
            Ok(()) => {
                set_text(config, t, owned(value));
                Ok(true)
            },
        },
        ConfigKey::Unknown => Ok(false),
    }
}


// ---------------------------------------------------------------------
// Reading a Git INI config file
// ---------------------------------------------------------------------

/// One section of a parsed config file, as plain values: its header name,
/// its subsection name, the values of one multi-valued key (`to`), and all
/// its `(key, value)` pairs in order.
pub struct RawSection {
    pub name: Vec<u8>,
    pub subsection: Option<Vec<u8>>,
    pub to_values: Vec<Vec<u8>>,
    pub pairs: Vec<(String, Vec<u8>)>,
}

pub type RawSectionView = (Seq<u8>, Option<Seq<u8>>, Seq<Seq<u8>>, Seq<(Seq<char>, Seq<u8>)>);

impl DeepView for RawSection {
    type V = RawSectionView;

    open spec fn deep_view(&self) -> RawSectionView {
        (
            self.name.deep_view(),
            self.subsection.deep_view(),
            self.to_values.deep_view(),
            self.pairs.deep_view(),
        )
    }
}

/// What `gix_config` reads from a config file's bytes: its sections, with
/// the values of key `key` in each, or the text of the parse error.
pub uninterp spec fn git_config_parse(bytes: Seq<u8>, key: Seq<char>) -> Result<
    Seq<RawSectionView>,
    Seq<char>,
>;

/// Parses Git INI bytes with `gix_config::File::from_bytes_no_includes`
/// (API source, default options) and copies out each section's header
/// name, subsection name, the values of key `key` (`BodyRef::values`) and
/// its key/value pairs (`BodyRef` iteration), or the error's text. The
/// contract only names the result: `git_config_parse` of the bytes and key.
#[verifier::external_body]
fn parse_git_config(bytes: &[u8], key: &str) -> (r: Result<Vec<RawSection>, String>)
    ensures
        git_config_parse(bytes@, key@) == (match r {
            Ok(v) => Ok::<Seq<RawSectionView>, Seq<char>>(v.deep_view()),
            Err(e) => Err::<Seq<RawSectionView>, Seq<char>>(e@),
        }),
{
    let meta = gix_config::file::Metadata::api();
    match gix_config::File::from_bytes_no_includes(bytes, meta, Default::default()) {
        Err(e) => Err(e.to_string()),
        Ok(f) => Ok(f.sections().map(|s| RawSection {
            name: s.header().name().to_vec(),
            subsection: s.header().subsection_name().map(|n| n.to_vec()),
            to_values: s.body().values(key).into_iter().map(|v| v.to_vec()).collect(),
            pairs: s.body().into_iter().map(|(k, v)| (k, v.to_vec())).collect(),
        }).collect()),
    }
}

/// The text that `String::from_utf8_lossy` makes of some bytes.
pub uninterp spec fn utf8_lossy(bytes: Seq<u8>) -> Seq<char>;

/// Calls `String::from_utf8_lossy`; the result is named `utf8_lossy` of the bytes.
#[verifier::external_body]
fn from_utf8_lossy(bytes: &[u8]) -> (r: String)
    ensures
        r@ == utf8_lossy(bytes@),
{
    String::from_utf8_lossy(bytes).into_owned()
}

/// A config text value: the bytes read leniently as UTF-8, then trimmed.
pub open spec fn config_text(bytes: Seq<u8>) -> Seq<char> {
    trim(utf8_lossy(bytes))
}

pub fn to_string(bytes: &[u8]) -> (r: String)
    ensures
        r@ == config_text(bytes@),
{
    let s = from_utf8_lossy(bytes);
    str_trim(s.as_str())
}

/// The bytes of the section name `forward.from`.
pub open spec fn forward_from_name() -> Seq<u8> {
    seq![102u8, 111u8, 114u8, 119u8, 97u8, 114u8, 100u8, 46u8, 102u8, 114u8, 111u8, 109u8]
}

/// The bytes of the section name `pluck`.
pub open spec fn pluck_name() -> Seq<u8> {
    seq![112u8, 108u8, 117u8, 99u8, 107u8]
}

fn bytes_eq(a: &Vec<u8>, b: &[u8]) -> (r: bool)
    ensures
        r == (a@ == b@),
{
    if a.len() != b.len() {
        return false;
    }
    let mut i: usize = 0;
    while i < a.len()
        invariant
            a.len() == b@.len(),
            0 <= i <= a.len(),
            forall|k: int| 0 <= k < i ==> a@[k] == b@[k],
        decreases a.len() - i,
    {
        if a[i] != b[i] {
            return false;
        }
        i = i + 1;
    }
    assert(a@ =~= b@);
    true
}

fn is_forward_from(name: &Vec<u8>) -> (r: bool)
    ensures
        r == (name@ == forward_from_name()),
{
    let lit: [u8; 12] = [102u8, 111u8, 114u8, 119u8, 97u8, 114u8, 100u8, 46u8, 102u8, 114u8, 111u8, 109u8];
    assert(lit@ =~= forward_from_name());
    bytes_eq(name, &lit)
}

fn is_pluck_section(name: &Vec<u8>) -> (r: bool)
    ensures
        r == (name@ == pluck_name()),
{
    let lit: [u8; 5] = [112u8, 108u8, 117u8, 99u8, 107u8];
    assert(lit@ =~= pluck_name());
    bytes_eq(name, &lit)
}

/// The config text of each of a sequence of values.
pub open spec fn config_texts(vals: Seq<Seq<u8>>) -> Seq<Seq<char>> {
    vals.map_values(|v: Seq<u8>| config_text(v))
}

/// Applies the `[pluck]` pairs in order; collects the keys that are not known.
pub open spec fn apply_pairs(
    pairs: Seq<(Seq<char>, Seq<u8>)>,
    c: ConfigView,
    unknown: Seq<Seq<char>>,
) -> Result<(ConfigView, Seq<Seq<char>>), ErrorView>
    decreases pairs.len(),
{
    if pairs.len() == 0 {
        Ok((c, unknown))
    } else {
        match apply_pairs(pairs.drop_last(), c, unknown) {
            Err(e) => Err(e),
            Ok((c1, u1)) => {
                let key = trim(pairs.last().0);
                match set_key(key, config_text(pairs.last().1), c1) {
                    Err(e) => Err(e),
                    Ok((c2, known)) => Ok(
                        (
                            c2,
                            if known {
                                u1
                            } else {
                                u1.push(key)
                            },
                        ),
                    ),
                }
            },
        }
    }
}

/// The effect of one section: a `forward.from` section with a subsection
/// adds a mapping, a `pluck` section sets behavior keys, others are ignored.
pub open spec fn apply_section(
    sec: RawSectionView,
    c: ConfigView,
    unknown: Seq<Seq<char>>,
) -> Result<(ConfigView, Seq<Seq<char>>), ErrorView> {
    if sec.0 == forward_from_name() {
        match sec.1 {
            Some(sub) => Ok(
                (
                    ConfigView {
                        path_mappings: c.path_mappings.push(
                            (config_text(sub), config_texts(sec.2)),
                        ),
                        ..c
                    },
                    unknown,
                ),
            ),
            None => Ok((c, unknown)),
        }
    } else if sec.0 == pluck_name() {
        apply_pairs(sec.3, c, unknown)
    } else {
        Ok((c, unknown))
    }
}

/// Applies the sections in order.
pub open spec fn apply_sections(
    secs: Seq<RawSectionView>,
    c: ConfigView,
    unknown: Seq<Seq<char>>,
) -> Result<(ConfigView, Seq<Seq<char>>), ErrorView>
    decreases secs.len(),
{
    if secs.len() == 0 {
        Ok((c, unknown))
    } else {
        match apply_sections(secs.drop_last(), c, unknown) {
            Err(e) => Err(e),
            Ok((c1, u1)) => apply_section(secs.last(), c1, u1),
        }
    }
}

/// The config and unknown keys reached by applying the `[pluck]` pairs:
/// after all of them, or, where a value is bad, after those before it.
pub open spec fn pairs_reached(
    pairs: Seq<(Seq<char>, Seq<u8>)>,
    c: ConfigView,
    unknown: Seq<Seq<char>>,
) -> (ConfigView, Seq<Seq<char>>)
    decreases pairs.len(),
{
    if pairs.len() == 0 {
        (c, unknown)
    } else {
        match apply_pairs(pairs.drop_last(), c, unknown) {
            Err(_) => pairs_reached(pairs.drop_last(), c, unknown),
            Ok((c1, u1)) => match apply_pairs(pairs, c, unknown) {
                Ok(x) => x,
                Err(_) => (c1, u1),
            },
        }
    }
}

/// What one section leaves: a `[pluck]` section stops at its first bad value.
pub open spec fn section_reached(
    sec: RawSectionView,
    c: ConfigView,
    unknown: Seq<Seq<char>>,
) -> (ConfigView, Seq<Seq<char>>) {
    if sec.0 != forward_from_name() && sec.0 == pluck_name() {
        pairs_reached(sec.3, c, unknown)
    } else {
        match apply_section(sec, c, unknown) {
            Ok(x) => x,
            Err(_) => (c, unknown),
        }
    }
}

/// The config and unknown keys reached by applying the sections: after all
/// of them, or up to the first bad value.
pub open spec fn sections_reached(
    secs: Seq<RawSectionView>,
    c: ConfigView,
    unknown: Seq<Seq<char>>,
) -> (ConfigView, Seq<Seq<char>>)
    decreases secs.len(),
{
    if secs.len() == 0 {
        (c, unknown)
    } else {
        match apply_sections(secs.drop_last(), c, unknown) {
            Err(_) => sections_reached(secs.drop_last(), c, unknown),
            Ok((c1, u1)) => section_reached(secs.last(), c1, u1),
        }
    }
}

/// The config left after reading config bytes into `c`: unchanged where
/// they are not Git INI, else the sections' settings up to the first bad value.
pub open spec fn config_reached(bytes: Seq<u8>, c: ConfigView) -> ConfigView {
    match git_config_parse(bytes, "to"@) {
        Err(_) => c,
        Ok(secs) => sections_reached(secs, c, Seq::empty()).0,
    }
}

proof fn lemma_pairs_reached_ok(pairs: Seq<(Seq<char>, Seq<u8>)>, c: ConfigView, u: Seq<Seq<char>>)
    ensures
        apply_pairs(pairs, c, u) matches Ok(x) ==> pairs_reached(pairs, c, u) == x,
{
}

proof fn lemma_pairs_reached_err(
    pairs: Seq<(Seq<char>, Seq<u8>)>,
    k: int,
    c: ConfigView,
    u: Seq<Seq<char>>,
)
    requires
        0 <= k <= pairs.len(),
        apply_pairs(pairs.take(k), c, u) is Err,
    ensures
        pairs_reached(pairs, c, u) == pairs_reached(pairs.take(k), c, u),
    decreases pairs.len() - k,
{
    if k < pairs.len() {
        assert(pairs.take(k + 1).drop_last() =~= pairs.take(k));
        lemma_pairs_reached_err(pairs, k + 1, c, u);
    } else {
        assert(pairs.take(k) =~= pairs);
    }
}

proof fn lemma_sections_reached_ok(secs: Seq<RawSectionView>, c: ConfigView, u: Seq<Seq<char>>)
    ensures
        apply_sections(secs, c, u) matches Ok(x) ==> sections_reached(secs, c, u) == x,
{
    if secs.len() > 0 {
        if let Ok((c1, u1)) = apply_sections(secs.drop_last(), c, u) {
            lemma_pairs_reached_ok(secs.last().3, c1, u1);
        }
    }
}

proof fn lemma_sections_reached_err(
    secs: Seq<RawSectionView>,
    k: int,
    c: ConfigView,
    u: Seq<Seq<char>>,
)
    requires
        0 <= k <= secs.len(),
        apply_sections(secs.take(k), c, u) is Err,
    ensures
        sections_reached(secs, c, u) == sections_reached(secs.take(k), c, u),
    decreases secs.len() - k,
{
    if k < secs.len() {
        assert(secs.take(k + 1).drop_last() =~= secs.take(k));
        lemma_sections_reached_err(secs, k + 1, c, u);
    } else {
        assert(secs.take(k) =~= secs);
    }
}

/// The result of reading config bytes into a config: the new config and
/// the unknown `[pluck]` keys met, or the error.
pub open spec fn read_config(bytes: Seq<u8>, c: ConfigView) -> Result<
    (ConfigView, Seq<Seq<char>>),
    ErrorView,
> {
    match git_config_parse(bytes, "to"@) {
        Err(msg) => Err(ErrorView::ConfigParse(msg)),
        Ok(secs) => apply_sections(secs, c, Seq::empty()),
    }
}

pub proof fn lemma_bytes_deep_view(v: Vec<u8>)
    ensures
        v.deep_view() == v@,
{
    assert(v.deep_view() =~= v@);
}

proof fn lemma_apply_pairs_err(
    pairs: Seq<(Seq<char>, Seq<u8>)>,
    k: int,
    c: ConfigView,
    u: Seq<Seq<char>>,
)
    requires
        0 <= k <= pairs.len(),
        apply_pairs(pairs.take(k), c, u) is Err,
    ensures
        apply_pairs(pairs, c, u) == apply_pairs(pairs.take(k), c, u),
    decreases pairs.len() - k,
{
    if k < pairs.len() {
        assert(pairs.take(k + 1).drop_last() =~= pairs.take(k));
        lemma_apply_pairs_err(pairs, k + 1, c, u);
    } else {
        assert(pairs.take(k) =~= pairs);
    }
}

proof fn lemma_apply_sections_err(
    secs: Seq<RawSectionView>,
    k: int,
    c: ConfigView,
    u: Seq<Seq<char>>,
)
    requires
        0 <= k <= secs.len(),
        apply_sections(secs.take(k), c, u) is Err,
    ensures
        apply_sections(secs, c, u) == apply_sections(secs.take(k), c, u),
    decreases secs.len() - k,
{
    if k < secs.len() {
        assert(secs.take(k + 1).drop_last() =~= secs.take(k));
        lemma_apply_sections_err(secs, k + 1, c, u);
    } else {
        assert(secs.take(k) =~= secs);
    }
}

fn texts_of(vals: &Vec<Vec<u8>>) -> (r: Vec<String>)
    ensures
        r.deep_view() == config_texts(vals.deep_view()),
{
    let mut r: Vec<String> = Vec::new();
    let mut i: usize = 0;
    while i < vals.len()
        invariant
            0 <= i <= vals.len(),
            r.len() == i,
            forall|k: int| 0 <= k < i ==> r[k]@ == config_text(vals[k]@),
        decreases vals.len() - i,
    {
        r.push(to_string(vals[i].as_slice()));
        i = i + 1;
    }
    assert forall|k: int| 0 <= k < vals.len() implies vals.deep_view()[k] == vals[k]@ by {
        lemma_bytes_deep_view(vals[k]);
    }
    assert(r.deep_view() =~= config_texts(vals.deep_view()));
    r
}

/// Parses all keys of a `[pluck]` section; collects the unknown ones.
fn parse_pluck_section(
    pairs: &Vec<(String, Vec<u8>)>,
    config: &mut PluckConfig,
    unknown: &mut Vec<String>,
) -> (r: Result<(), PluckError>)
    ensures
        r is Ok ==> apply_pairs(pairs.deep_view(), old(config)@, old(unknown).deep_view()) == Ok::<
            (ConfigView, Seq<Seq<char>>),
            ErrorView,
        >((final(config)@, final(unknown).deep_view())),
        r matches Err(e) ==> apply_pairs(pairs.deep_view(), old(config)@, old(unknown).deep_view())
            == Err::<(ConfigView, Seq<Seq<char>>), ErrorView>(e@),
        (final(config)@, final(unknown).deep_view()) == pairs_reached(
            pairs.deep_view(),
            old(config)@,
            old(unknown).deep_view(),
        ),
{
    let mut i: usize = 0;
    assert(pairs.deep_view().take(0) =~= Seq::<(Seq<char>, Seq<u8>)>::empty());
    while i < pairs.len()
        invariant
            0 <= i <= pairs.len(),
            apply_pairs(pairs.deep_view().take(i as int), old(config)@, old(unknown).deep_view()) == Ok::<
                (ConfigView, Seq<Seq<char>>),
                ErrorView,
            >((config@, unknown.deep_view())),
        decreases pairs.len() - i,
    {
        let ghost pre = pairs.deep_view().take(i as int);
        assert(pairs.deep_view().take(i + 1).drop_last() =~= pre);
        assert(pairs.deep_view().take(i + 1).last() == pairs.deep_view()[i as int]);
        let key = str_trim(pairs[i].0.as_str());
        let val = to_string(pairs[i].1.as_slice());
        proof {
            lemma_bytes_deep_view(pairs[i as int].1);
            assert(pairs.deep_view()[i as int] == (pairs[i as int].0@, pairs[i as int].1@));
        }
        let ghost u1 = unknown.deep_view();
        match set_pluck_config(key.as_str(), val.as_str(), config) {
            Err(e) => {
                proof {
                    assert(apply_pairs(pairs.deep_view().take(i + 1), old(config)@, old(unknown).deep_view()) == Err::<
                        (ConfigView, Seq<Seq<char>>),
                        ErrorView,
                    >(e@));
                    lemma_apply_pairs_err(pairs.deep_view(), i + 1, old(config)@, old(unknown).deep_view());
                    lemma_pairs_reached_err(pairs.deep_view(), i + 1, old(config)@, old(unknown).deep_view());
                }
                return Err(e);
            },
            Ok(known) => {
                if !known {
                    unknown.push(key);
                    assert(unknown.deep_view() =~= u1.push(key@));
                }
            },
        }
        i = i + 1;
    }
    assert(pairs.deep_view().take(pairs.len() as int) =~= pairs.deep_view());
    proof {
        lemma_pairs_reached_ok(pairs.deep_view(), old(config)@, old(unknown).deep_view());
    }
    Ok(())
}

/// Applies parsed config sections to `config`, in order: each
/// `[forward.from "<source>"]` section adds a mapping with its `to`
/// values, a `[pluck]` section sets behavior keys. Returns the unknown
/// `[pluck]` keys, which are ignored; fails on the first bad value, with
/// the settings before it applied.
pub fn apply_config_sections(secs: &Vec<RawSection>, config: &mut PluckConfig) -> (r: Result<
    Vec<String>,
    PluckError,
>)
    ensures
        r matches Ok(unknown) ==> apply_sections(secs.deep_view(), old(config)@, Seq::empty())
            == Ok::<(ConfigView, Seq<Seq<char>>), ErrorView>((final(config)@, unknown.deep_view())),
        r matches Err(e) ==> apply_sections(secs.deep_view(), old(config)@, Seq::empty()) == Err::<
            (ConfigView, Seq<Seq<char>>),
            ErrorView,
        >(e@),
        final(config)@ == sections_reached(secs.deep_view(), old(config)@, Seq::empty()).0,
{
    let mut unknown: Vec<String> = Vec::new();
    let mut i: usize = 0;
    assert(secs.deep_view().take(0) =~= Seq::<RawSectionView>::empty());
    assert(unknown.deep_view() =~= Seq::<Seq<char>>::empty());
    while i < secs.len()
        invariant
            0 <= i <= secs.len(),
            apply_sections(secs.deep_view().take(i as int), old(config)@, Seq::empty()) == Ok::<
                (ConfigView, Seq<Seq<char>>),
                ErrorView,
            >((config@, unknown.deep_view())),
        decreases secs.len() - i,
    {
        let ghost pre = secs.deep_view().take(i as int);
        assert(secs.deep_view().take(i + 1).drop_last() =~= pre);
        assert(secs.deep_view().take(i + 1).last() == secs.deep_view()[i as int]);
        let sec = &secs[i];
        proof {
            lemma_bytes_deep_view(sec.name);
            if sec.subsection is Some {
                lemma_bytes_deep_view(sec.subsection->0);
            }
        }
        if is_forward_from(&sec.name) {
            match &sec.subsection {
                Some(sub) => {
                    let src_path = to_string(sub.as_slice());
                    let dst_paths = texts_of(&sec.to_values);
                    let ghost old_maps = config.path_mappings.deep_view();
                    let entry = PathMappingEntry { src_path, dst_paths };
                    let ghost ev = entry.deep_view();
                    config.path_mappings.push(entry);
                    proof {
                        lemma_mappings_view(&config.path_mappings);
                        assert(config.path_mappings.deep_view() =~= old_maps.push(ev));
                    }
                },
                None => {},
            }
        } else if is_pluck_section(&sec.name) {
            match parse_pluck_section(&sec.pairs, config, &mut unknown) {
                Err(e) => {
                    proof {
                        assert(apply_sections(secs.deep_view().take(i + 1), old(config)@, Seq::empty())
                            == Err::<(ConfigView, Seq<Seq<char>>), ErrorView>(e@));
                        lemma_apply_sections_err(secs.deep_view(), i + 1, old(config)@, Seq::empty());
                        lemma_sections_reached_err(secs.deep_view(), i + 1, old(config)@, Seq::empty());
                    }
                    return Err(e);
                },
                Ok(()) => {},
            }
        }
        i = i + 1;
    }
    assert(secs.deep_view().take(secs.len() as int) =~= secs.deep_view());
    proof {
        lemma_sections_reached_ok(secs.deep_view(), old(config)@, Seq::empty());
    }
    Ok(unknown)
}

/// Reads the settings of a Git INI config file's contents into `config`
/// (see `apply_config_sections`); fails where the text is not Git INI.
pub fn parse_config_file(content: &[u8], config: &mut PluckConfig) -> (r: Result<
    Vec<String>,
    PluckError,
>)
    ensures
        r matches Ok(unknown) ==> read_config(content@, old(config)@) == Ok::<
            (ConfigView, Seq<Seq<char>>),
            ErrorView,
        >((final(config)@, unknown.deep_view())),
        r matches Err(e) ==> read_config(content@, old(config)@) == Err::<
            (ConfigView, Seq<Seq<char>>),
            ErrorView,
        >(e@),
        final(config)@ == config_reached(content@, old(config)@),
{
    match parse_git_config(content, "to") {
        Err(msg) => Err(PluckError::ConfigParse(msg)),
        Ok(secs) => apply_config_sections(&secs, config),
    }
}

/// A config loaded for a pluck name: the settings, the file they came
/// from, and the unknown `[pluck]` keys the file held.
pub struct LoadedConfig {
    pub config: PluckConfig,
    pub path: Option<String>,
    pub unknown_keys: Vec<String>,
}

/// Builds the config for a pluck name. `config_path` is the file found (by
/// priority: the explicit `-c` file, the one embedded at the start
/// reference, the one in the working tree) and `content` its bytes; with
/// no file the defaults stand, which is an error unless `force` is set.
pub fn resolve_config(pluckname: &str, config_path: Option<String>, content: &[u8]) -> (r: Result<
    LoadedConfig,
    PluckError,
>)
    ensures
        config_path is Some ==> (match read_config(content@, default_view()) {
            Ok((c, u)) => (r matches Ok(l) && l.config@ == c && l.unknown_keys.deep_view() == u
                && l.path.deep_view() == config_path.deep_view()),
            Err(e) => (r matches Err(e2) && e2@ == e),
        }),
        config_path is None ==> (r matches Err(e) && e@ == ErrorView::NoConfig(pluckname@)),
{
    let mut config = PluckConfig::default();
    match config_path {
        Some(path) => {
            match parse_config_file(content, &mut config) {
                Err(e) => Err(e),
                Ok(unknown) => Ok(LoadedConfig { config, path: Some(path), unknown_keys: unknown }),
            }
        },
        None => {
            if !config.force {
                Err(PluckError::NoConfig(owned(pluckname)))
            } else {
                Ok(LoadedConfig { config, path: None, unknown_keys: Vec::new() })
            }
        },
    }
}

/// The last component of a path that names a file or directory (not `.`
/// or `..`), as `Path::file_name`: empty and `.` segments are skipped.
pub open spec fn last_kept(segs: Seq<Seq<char>>, j: int) -> Option<Seq<char>>
    decreases j,
{
    if j <= 0 || j > segs.len() {
        None
    } else if segs[j - 1] == Seq::<char>::empty() || segs[j - 1] == "."@ {
        last_kept(segs, j - 1)
    } else {
        Some(segs[j - 1])
    }
}

pub open spec fn file_name(p: Seq<char>) -> Option<Seq<char>> {
    let segs = fields(p, '/');
    match last_kept(segs, segs.len() as int) {
        Some(n) => if n == ".."@ {
            None
        } else {
            Some(n)
        },
        None => None,
    }
}

/// The file name without its extension, as `Path::file_stem`: everything
/// before the last `.`, or the whole name when the only `.` leads it.
pub open spec fn file_stem(p: Seq<char>) -> Option<Seq<char>> {
    match file_name(p) {
        Some(n) => {
            let d = rfind_from(n, n.len() as int, '.');
            if d <= 0 {
                Some(n)
            } else {
                Some(n.subrange(0, d))
            }
        },
        None => None,
    }
}

fn skipped_segment(s: &str) -> (b: bool)
    ensures
        b == (s@ == Seq::<char>::empty() || s@ == "."@),
{
    let n = s.unicode_len();
    if n == 0 {
        assert(s@ =~= Seq::<char>::empty());
        true
    } else {
        str_eq(s, ".")
    }
}

/// Derives a pluck name from a config file path: its file stem, else `default`.
pub fn get_pluckname(config_path: Option<&str>) -> (r: String)
    ensures
        r@ == (match config_path {
            Some(p) => match file_stem(p@) {
                Some(st) => st,
                None => "default"@,
            },
            None => "default"@,
        }),
{
    let p = match config_path {
        Some(p) => p,
        None => {
            return owned("default");
        },
    };
    let segs = str_split_char(p, '/');
    let ghost sv = segs.deep_view();
    let mut j = segs.len();
    while j > 0 && skipped_segment(segs[j - 1].as_str())
        invariant
            sv == segs.deep_view(),
            0 <= j <= segs.len(),
            last_kept(sv, sv.len() as int) == last_kept(sv, j as int),
        decreases j,
    {
        j = j - 1;
    }
    if j == 0 {
        return owned("default");
    }
    let name = &segs[j - 1];
    assert(sv[j - 1] == name@);
    if str_eq(name.as_str(), "..") {
        return owned("default");
    }
    proof {
        crate::text::lemma_rfind_bounds(name@, name@.len() as int, '.');
    }
    match str_rfind_char(name.as_str(), '.') {
        Some(d) => if d == 0 {
            owned(name.as_str())
        } else {
            substring(name.as_str(), 0, d)
        },
        None => owned(name.as_str()),
    }
}

/// Where a pluck's config file sits in a tree: `.gitpluck/<pluckname>/config.cfg`.
pub open spec fn config_rel_path(pluckname: Seq<char>) -> Seq<char> {
    ".gitpluck/"@ + pluckname + "/config.cfg"@
}

pub fn embedded_config_path(pluckname: &str) -> (r: String)
    ensures
        r@ == config_rel_path(pluckname@),
{
    cat3(".gitpluck/", pluckname, "/config.cfg")
}

} // verus!
