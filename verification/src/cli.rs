//! Command-line options: the options as parsed, how they override the
//! config file's settings, and which command they select.
use vstd::prelude::*;
use crate::config::{ConfigView, PluckConfig};
use crate::text::{owned, parse_decimal, parse_u8};

verus! {

/// The command-line options of `git-pluck`.
pub struct Cli {
    pub config: Option<String>,
    /// `-d`/`--debug[=N]`: `Some(None)` is not produced (a bare flag gives `Some(Some("1"))`).
    pub debug: Option<Option<String>>,
    pub force: bool,
    pub allow_unchanged_tree: bool,
    pub mirror_map: bool,
    pub quiet: bool,
    pub timer: bool,
    /// `-s`/`--start-ref`: `None` where the option is not given.
    pub start_ref: Option<String>,
    pub allow_incomplete_ancestry: bool,
    /// `-r`/`--recursive[=OPTS]`: `Some(Some(""))` for a bare flag.
    pub recursive: Option<Option<String>>,
    pub log_branch: bool,
    pub skip_dedup_ancestry: bool,
    pub ignorant_pluck: Option<String>,
    pub add_map: Option<String>,
    pub show_src_paths: bool,
    pub show_dst_paths: bool,
    pub check_config: bool,
    pub allow_missing_path: bool,
    pub allow_nested_map: bool,
    pub remove: Option<String>,
    pub auto_reverse_map: bool,
    pub find_source_sha: Option<String>,
    pub find_pluck_sha: Option<String>,
    pub rep_author_name: Option<String>,
    pub rep_author_email: Option<String>,
    pub rep_author_regex: Option<String>,
    pub rep_committer_name: Option<String>,
    pub rep_committer_email: Option<String>,
    pub rep_committer_regex: Option<String>,
    pub rep_message: Option<String>,
    pub rep_message_filter: Option<String>,
    pub log_message: bool,
    pub test_mode: bool,
    pub no_force: bool,
    pub no_unchanged_tree: bool,
    pub no_mirror_map: bool,
    pub no_missing_path: bool,
    pub no_nested_map: bool,
    pub no_incomplete_ancestry: bool,
    pub no_auto_reverse_map: bool,
    pub no_log_branch: bool,
    pub no_skip_dedup_ancestry: bool,
    pub no_log_message: bool,
    pub no_rep_author_name: bool,
    pub no_rep_author_email: bool,
    pub no_rep_author_regex: bool,
    pub no_rep_committer_name: bool,
    pub no_rep_committer_email: bool,
    pub no_rep_committer_regex: bool,
    pub no_rep_message: bool,
    pub no_rep_message_filter: bool,
    pub no_ignorant_pluck: bool,
    pub no_recursive: bool,
    pub pluckname: Option<String>,
}

/// A boolean setting after `--flag` (`on`) and `--no-flag` (`off`): the
/// flag sets it unless negated, the negation clears it, else it stays.
pub open spec fn flag(on: bool, off: bool, cur: bool) -> bool {
    if on && !off {
        true
    } else if off {
        false
    } else {
        cur
    }
}

/// A string setting after `--flag=VAL` and `--no-flag`: the negation
/// clears it to the empty string, else a value replaces it.
pub open spec fn string_flag(v: Option<Seq<char>>, no: bool, cur: Option<Seq<char>>) -> Option<
    Seq<char>,
> {
    if no {
        Some(Seq::empty())
    } else {
        match v {
            Some(x) => Some(x),
            None => cur,
        }
    }
}

/// The debug level of `--debug=N`: `N` as a `u8`, or 1 where it does not parse.
pub open spec fn debug_level(level: Seq<char>) -> u8 {
    match parse_decimal(level) {
        Some(n) => if n <= u8::MAX {
            n as u8
        } else {
            1
        },
        None => 1,
    }
}

pub open spec fn opt_seq(o: Option<String>) -> Option<Seq<char>> {
    match o {
        Some(s) => Some(s@),
        None => None,
    }
}

/// `recursive` and `recursiveOpts` after `--recursive[=OPTS]` and `--no-recursive`.
pub open spec fn recursion(cli: Cli, rec: bool, opts: Option<Seq<char>>) -> (bool, Option<Seq<char>>) {
    if cli.no_recursive {
        (false, None)
    } else {
        match cli.recursive {
            Some(o) => (
                true,
                match o {
                    Some(s) => if s@.len() == 0 {
                        None
                    } else {
                        Some(s@)
                    },
                    None => None,
                },
            ),
            None => (rec, opts),
        }
    }
}

/// The settings after the command-line options override them.
pub open spec fn cli_config(cli: Cli, c: ConfigView) -> ConfigView {
    let r = recursion(cli, c.recursive, c.recursive_opts);
    ConfigView {
        force: flag(cli.force, cli.no_force, c.force),
        debug: match cli.debug {
            Some(Some(level)) => debug_level(level@),
            _ => c.debug,
        },
        allow_unchanged_tree: flag(cli.allow_unchanged_tree, cli.no_unchanged_tree, c.allow_unchanged_tree),
        mirror_map: flag(cli.mirror_map, cli.no_mirror_map, c.mirror_map),
        quiet: cli.quiet || c.quiet,
        timer: cli.timer || c.timer,
        start_ref: match cli.start_ref {
            Some(r) => if r@.len() > 0 {
                r@
            } else {
                c.start_ref
            },
            None => c.start_ref,
        },
        allow_incomplete_ancestry: flag(
            cli.allow_incomplete_ancestry,
            cli.no_incomplete_ancestry,
            c.allow_incomplete_ancestry,
        ),
        recursive: r.0,
        recursive_opts: r.1,
        log_branch: flag(cli.log_branch, cli.no_log_branch, c.log_branch),
        skip_dedup_ancestry: flag(
            cli.skip_dedup_ancestry,
            cli.no_skip_dedup_ancestry,
            c.skip_dedup_ancestry,
        ),
        allow_missing_path: flag(cli.allow_missing_path, cli.no_missing_path, c.allow_missing_path),
        allow_nested_map: flag(cli.allow_nested_map, cli.no_nested_map, c.allow_nested_map),
        auto_reverse_map: flag(cli.auto_reverse_map, cli.no_auto_reverse_map, c.auto_reverse_map),
        log_message: flag(cli.log_message, cli.no_log_message, c.log_message),
        rep_author_name: string_flag(
            opt_seq(cli.rep_author_name),
            cli.no_rep_author_name,
            c.rep_author_name,
        ),
        rep_author_email: string_flag(
            opt_seq(cli.rep_author_email),
            cli.no_rep_author_email,
            c.rep_author_email,
        ),
        rep_author_regex: string_flag(
            opt_seq(cli.rep_author_regex),
            cli.no_rep_author_regex,
            c.rep_author_regex,
        ),
        rep_committer_name: string_flag(
            opt_seq(cli.rep_committer_name),
            cli.no_rep_committer_name,
            c.rep_committer_name,
        ),
        rep_committer_email: string_flag(
            opt_seq(cli.rep_committer_email),
            cli.no_rep_committer_email,
            c.rep_committer_email,
        ),
        rep_committer_regex: string_flag(
            opt_seq(cli.rep_committer_regex),
            cli.no_rep_committer_regex,
            c.rep_committer_regex,
        ),
        rep_message: string_flag(opt_seq(cli.rep_message), cli.no_rep_message, c.rep_message),
        rep_message_filter: string_flag(
            opt_seq(cli.rep_message_filter),
            cli.no_rep_message_filter,
            c.rep_message_filter,
        ),
        ignorant_pluck: string_flag(
            opt_seq(cli.ignorant_pluck),
            cli.no_ignorant_pluck,
            c.ignorant_pluck,
        ),
        ..c
    }
}

fn flag_value(on: bool, off: bool, cur: bool) -> (b: bool)
    ensures
        b == flag(on, off, cur),
{
    if on && !off {
        true
    } else if off {
        false
    } else {
        cur
    }
}

fn string_value(cli_val: &Option<String>, no_flag: bool, cur: &Option<String>) -> (r: Option<String>)
    ensures
        r.deep_view() == string_flag(opt_seq(*cli_val), no_flag, cur.deep_view()),
{
    if no_flag {
        let e = String::new();
        assert(e@ =~= Seq::<char>::empty());
        return Some(e);
    }
    match cli_val {
        Some(v) => Some(v.clone()),
        None => match cur {
            Some(c) => Some(c.clone()),
            None => None,
        },
    }
}

/// Applies a string option, clearing the setting to the empty string when
/// the `--no-` variant is given.
pub fn apply_string_flag(cli_val: Option<&str>, no_flag: bool, target: &mut Option<String>)
    ensures
        final(target).deep_view() == string_flag(
            match cli_val {
                Some(v) => Some(v@),
                None => None,
            },
            no_flag,
            old(target).deep_view(),
        ),
{
    match cli_val {
        Some(v) => {
            *target = if no_flag {
                Some(String::new())
            } else {
                Some(owned(v))
            };
        },
        None => {
            if no_flag {
                *target = Some(String::new());
            }
        },
    }
    proof {
        if no_flag {
            assert(final(target).deep_view() =~= Some(Seq::<char>::empty()));
        }
    }
}

/// Overrides the config's settings with the command-line options: a
/// `--flag` sets its setting, a `--no-flag` clears it (to `false` or the
/// empty string); options not given leave the settings alone.
#[verifier::spinoff_prover]
#[verifier::rlimit(100)]
pub fn apply_cli_to_config(cli: &Cli, config: &mut PluckConfig)
    ensures
        final(config)@ == cli_config(*cli, old(config)@),
{
    let force = flag_value(cli.force, cli.no_force, config.force);
    let debug = match &cli.debug {
        Some(Some(level)) => match parse_u8(level.as_str()) {
            Some(n) => n,
            None => 1,
        },
        _ => config.debug,
    };
    let allow_unchanged_tree = flag_value(
        cli.allow_unchanged_tree,
        cli.no_unchanged_tree,
        config.allow_unchanged_tree,
    );
    let mirror_map = flag_value(cli.mirror_map, cli.no_mirror_map, config.mirror_map);
    let quiet = cli.quiet || config.quiet;
    let timer = cli.timer || config.timer;
    let start_ref = match &cli.start_ref {
        Some(r) => if r.unicode_len() > 0 {
            r.clone()
        } else {
            config.start_ref.clone()
        },
        None => config.start_ref.clone(),
    };
    let allow_incomplete_ancestry = flag_value(
        cli.allow_incomplete_ancestry,
        cli.no_incomplete_ancestry,
        config.allow_incomplete_ancestry,
    );
    let (recursive, recursive_opts) = if cli.no_recursive {
        (false, None)
    } else {
        match &cli.recursive {
            Some(opts) => (
                true,
                match opts {
                    Some(s) => if s.unicode_len() == 0 {
                        None
                    } else {
                        Some(s.clone())
                    },
                    None => None,
                },
            ),
            None => (config.recursive, crate::text::clone_opt_string(&config.recursive_opts)),
        }
    };
    let log_branch = flag_value(cli.log_branch, cli.no_log_branch, config.log_branch);
    let skip_dedup_ancestry = flag_value(
        cli.skip_dedup_ancestry,
        cli.no_skip_dedup_ancestry,
        config.skip_dedup_ancestry,
    );
    let allow_missing_path = flag_value(
        cli.allow_missing_path,
        cli.no_missing_path,
        config.allow_missing_path,
    );
    let allow_nested_map = flag_value(cli.allow_nested_map, cli.no_nested_map, config.allow_nested_map);
    let auto_reverse_map = flag_value(
        cli.auto_reverse_map,
        cli.no_auto_reverse_map,
        config.auto_reverse_map,
    );
    let log_message = flag_value(cli.log_message, cli.no_log_message, config.log_message);
    let rep_author_name = string_value(&cli.rep_author_name, cli.no_rep_author_name, &config.rep_author_name);
    let rep_author_email = string_value(
        &cli.rep_author_email,
        cli.no_rep_author_email,
        &config.rep_author_email,
    );
    let rep_author_regex = string_value(
        &cli.rep_author_regex,
        cli.no_rep_author_regex,
        &config.rep_author_regex,
    );
    let rep_committer_name = string_value(
        &cli.rep_committer_name,
        cli.no_rep_committer_name,
        &config.rep_committer_name,
    );
    let rep_committer_email = string_value(
        &cli.rep_committer_email,
        cli.no_rep_committer_email,
        &config.rep_committer_email,
    );
    let rep_committer_regex = string_value(
        &cli.rep_committer_regex,
        cli.no_rep_committer_regex,
        &config.rep_committer_regex,
    );
    let rep_message = string_value(&cli.rep_message, cli.no_rep_message, &config.rep_message);
    let rep_message_filter = string_value(
        &cli.rep_message_filter,
        cli.no_rep_message_filter,
        &config.rep_message_filter,
    );
    let ignorant_pluck = string_value(&cli.ignorant_pluck, cli.no_ignorant_pluck, &config.ignorant_pluck);
    config.force = force;
    config.debug = debug;
    config.allow_unchanged_tree = allow_unchanged_tree;
    config.mirror_map = mirror_map;
    config.quiet = quiet;
    config.timer = timer;
    config.start_ref = start_ref;
    config.allow_incomplete_ancestry = allow_incomplete_ancestry;
    config.recursive = recursive;
    config.recursive_opts = recursive_opts;
    config.log_branch = log_branch;
    config.skip_dedup_ancestry = skip_dedup_ancestry;
    config.allow_missing_path = allow_missing_path;
    config.allow_nested_map = allow_nested_map;
    config.auto_reverse_map = auto_reverse_map;
    config.log_message = log_message;
    config.rep_author_name = rep_author_name;
    config.rep_author_email = rep_author_email;
    config.rep_author_regex = rep_author_regex;
    config.rep_committer_name = rep_committer_name;
    config.rep_committer_email = rep_committer_email;
    config.rep_committer_regex = rep_committer_regex;
    config.rep_message = rep_message;
    config.rep_message_filter = rep_message_filter;
    config.ignorant_pluck = ignorant_pluck;
}

/// What the command line asks for.
pub enum Command {
    AddMap(String),
    Remove(String),
    ShowSrcPaths,
    ShowDstPaths,
    CheckConfig,
    FindSourceSha(String),
    FindPluckSha(String),
    Pluck,
}

/// The command the options select, in order of precedence: `--add-map`,
/// `--remove`, `--show-src-paths`, `--show-dst-paths`, `--check-config`,
/// `--find-source-sha`, `--find-pluck-sha`, else plucking.
pub fn choose_command(cli: &Cli) -> (c: Command)
    ensures
        match cli.add_map {
            Some(a) => (c matches Command::AddMap(x) && x@ == a@),
            None => match cli.remove {
                Some(s) => (c matches Command::Remove(x) && x@ == s@),
                None => if cli.show_src_paths {
                    c is ShowSrcPaths
                } else if cli.show_dst_paths {
                    c is ShowDstPaths
                } else if cli.check_config {
                    c is CheckConfig
                } else {
                    match cli.find_source_sha {
                        Some(q) => (c matches Command::FindSourceSha(x) && x@ == q@),
                        None => match cli.find_pluck_sha {
                            Some(q) => (c matches Command::FindPluckSha(x) && x@ == q@),
                            None => c is Pluck,
                        },
                    }
                },
            },
        },
{
    if let Some(a) = &cli.add_map {
        return Command::AddMap(a.clone());
    }
    if let Some(s) = &cli.remove {
        return Command::Remove(s.clone());
    }
    if cli.show_src_paths {
        return Command::ShowSrcPaths;
    }
    if cli.show_dst_paths {
        return Command::ShowDstPaths;
    }
    if cli.check_config {
        return Command::CheckConfig;
    }
    if let Some(q) = &cli.find_source_sha {
        return Command::FindSourceSha(q.clone());
    }
    if let Some(q) = &cli.find_pluck_sha {
        return Command::FindPluckSha(q.clone());
    }
    Command::Pluck
}


/// Every `--no-X` option overrides the config file and `--X`: a boolean
/// setting ends off, a string setting ends cleared to the empty string,
/// `--no-recursive` turns recursion and its options off.
pub proof fn lemma_negations_win(cli: Cli, c: ConfigView)
    ensures
        cli.no_force ==> !cli_config(cli, c).force,
        cli.no_unchanged_tree ==> !cli_config(cli, c).allow_unchanged_tree,
        cli.no_mirror_map ==> !cli_config(cli, c).mirror_map,
        cli.no_missing_path ==> !cli_config(cli, c).allow_missing_path,
        cli.no_nested_map ==> !cli_config(cli, c).allow_nested_map,
        cli.no_incomplete_ancestry ==> !cli_config(cli, c).allow_incomplete_ancestry,
        cli.no_auto_reverse_map ==> !cli_config(cli, c).auto_reverse_map,
        cli.no_log_branch ==> !cli_config(cli, c).log_branch,
        cli.no_skip_dedup_ancestry ==> !cli_config(cli, c).skip_dedup_ancestry,
        cli.no_log_message ==> !cli_config(cli, c).log_message,
        cli.no_recursive ==> !cli_config(cli, c).recursive && cli_config(cli, c).recursive_opts
            is None,
        cli.no_rep_author_name ==> cli_config(cli, c).rep_author_name == Some(Seq::<char>::empty()),
        cli.no_rep_author_email ==> cli_config(cli, c).rep_author_email == Some(Seq::<char>::empty()),
        cli.no_rep_author_regex ==> cli_config(cli, c).rep_author_regex == Some(Seq::<char>::empty()),
        cli.no_rep_committer_name ==> cli_config(cli, c).rep_committer_name == Some(
            Seq::<char>::empty(),
        ),
        cli.no_rep_committer_email ==> cli_config(cli, c).rep_committer_email == Some(
            Seq::<char>::empty(),
        ),
        cli.no_rep_committer_regex ==> cli_config(cli, c).rep_committer_regex == Some(
            Seq::<char>::empty(),
        ),
        cli.no_rep_message ==> cli_config(cli, c).rep_message == Some(Seq::<char>::empty()),
        cli.no_rep_message_filter ==> cli_config(cli, c).rep_message_filter == Some(
            Seq::<char>::empty(),
        ),
        cli.no_ignorant_pluck ==> cli_config(cli, c).ignorant_pluck == Some(Seq::<char>::empty()),
{
}

/// A flag given without its negation sets the setting, and an option value
/// given without its negation becomes the setting, whatever the config
/// file says; options not given leave the config file's settings alone.
pub proof fn lemma_options_override(cli: Cli, c: ConfigView)
    ensures
        cli.force && !cli.no_force ==> cli_config(cli, c).force,
        !cli.force && !cli.no_force ==> cli_config(cli, c).force == c.force,
        cli.log_branch && !cli.no_log_branch ==> cli_config(cli, c).log_branch,
        !cli.log_branch && !cli.no_log_branch ==> cli_config(cli, c).log_branch == c.log_branch,
        !cli.no_rep_message ==> (cli.rep_message matches Some(m) ==> cli_config(cli, c).rep_message
            == Some(m@)),
        cli.rep_message is None && !cli.no_rep_message ==> cli_config(cli, c).rep_message
            == c.rep_message,
        cli.start_ref matches Some(r) ==> (r@.len() > 0 ==> cli_config(cli, c).start_ref == r@),
        cli.start_ref is None ==> cli_config(cli, c).start_ref == c.start_ref,
        cli_config(cli, c).path_mappings == c.path_mappings,
{
}

/// Each boolean flag given without its negation turns its own setting on,
/// each option value given without its negation becomes its own setting,
/// and a flag or option not given leaves its setting as the config file
/// has it, for every flag and option.
pub proof fn lemma_each_option_sets_its_setting(cli: Cli, c: ConfigView)
    ensures
        cli.force && !cli.no_force ==> cli_config(cli, c).force,
        !cli.force && !cli.no_force ==> cli_config(cli, c).force == c.force,
        cli.allow_unchanged_tree && !cli.no_unchanged_tree ==> cli_config(cli, c).allow_unchanged_tree,
        !cli.allow_unchanged_tree && !cli.no_unchanged_tree ==> cli_config(cli, c).allow_unchanged_tree == c.allow_unchanged_tree,
        cli.mirror_map && !cli.no_mirror_map ==> cli_config(cli, c).mirror_map,
        !cli.mirror_map && !cli.no_mirror_map ==> cli_config(cli, c).mirror_map == c.mirror_map,
        cli.allow_incomplete_ancestry && !cli.no_incomplete_ancestry ==> cli_config(cli, c).allow_incomplete_ancestry,
        !cli.allow_incomplete_ancestry && !cli.no_incomplete_ancestry ==> cli_config(cli, c).allow_incomplete_ancestry == c.allow_incomplete_ancestry,
        cli.log_branch && !cli.no_log_branch ==> cli_config(cli, c).log_branch,
        !cli.log_branch && !cli.no_log_branch ==> cli_config(cli, c).log_branch == c.log_branch,
        cli.skip_dedup_ancestry && !cli.no_skip_dedup_ancestry ==> cli_config(cli, c).skip_dedup_ancestry,
        !cli.skip_dedup_ancestry && !cli.no_skip_dedup_ancestry ==> cli_config(cli, c).skip_dedup_ancestry == c.skip_dedup_ancestry,
        cli.allow_missing_path && !cli.no_missing_path ==> cli_config(cli, c).allow_missing_path,
        !cli.allow_missing_path && !cli.no_missing_path ==> cli_config(cli, c).allow_missing_path == c.allow_missing_path,
        cli.allow_nested_map && !cli.no_nested_map ==> cli_config(cli, c).allow_nested_map,
        !cli.allow_nested_map && !cli.no_nested_map ==> cli_config(cli, c).allow_nested_map == c.allow_nested_map,
        cli.auto_reverse_map && !cli.no_auto_reverse_map ==> cli_config(cli, c).auto_reverse_map,
        !cli.auto_reverse_map && !cli.no_auto_reverse_map ==> cli_config(cli, c).auto_reverse_map == c.auto_reverse_map,
        cli.log_message && !cli.no_log_message ==> cli_config(cli, c).log_message,
        !cli.log_message && !cli.no_log_message ==> cli_config(cli, c).log_message == c.log_message,
        cli.quiet ==> cli_config(cli, c).quiet,
        !cli.quiet ==> cli_config(cli, c).quiet == c.quiet,
        cli.timer ==> cli_config(cli, c).timer,
        !cli.timer ==> cli_config(cli, c).timer == c.timer,
        !cli.no_rep_author_name ==> (cli.rep_author_name matches Some(v) ==> cli_config(cli, c).rep_author_name == Some(v@)),
        cli.rep_author_name is None && !cli.no_rep_author_name ==> cli_config(cli, c).rep_author_name == c.rep_author_name,
        !cli.no_rep_author_email ==> (cli.rep_author_email matches Some(v) ==> cli_config(cli, c).rep_author_email == Some(v@)),
        cli.rep_author_email is None && !cli.no_rep_author_email ==> cli_config(cli, c).rep_author_email == c.rep_author_email,
        !cli.no_rep_author_regex ==> (cli.rep_author_regex matches Some(v) ==> cli_config(cli, c).rep_author_regex == Some(v@)),
        cli.rep_author_regex is None && !cli.no_rep_author_regex ==> cli_config(cli, c).rep_author_regex == c.rep_author_regex,
        !cli.no_rep_committer_name ==> (cli.rep_committer_name matches Some(v) ==> cli_config(cli, c).rep_committer_name == Some(v@)),
        cli.rep_committer_name is None && !cli.no_rep_committer_name ==> cli_config(cli, c).rep_committer_name == c.rep_committer_name,
        !cli.no_rep_committer_email ==> (cli.rep_committer_email matches Some(v) ==> cli_config(cli, c).rep_committer_email == Some(v@)),
        cli.rep_committer_email is None && !cli.no_rep_committer_email ==> cli_config(cli, c).rep_committer_email == c.rep_committer_email,
        !cli.no_rep_committer_regex ==> (cli.rep_committer_regex matches Some(v) ==> cli_config(cli, c).rep_committer_regex == Some(v@)),
        cli.rep_committer_regex is None && !cli.no_rep_committer_regex ==> cli_config(cli, c).rep_committer_regex == c.rep_committer_regex,
        !cli.no_rep_message ==> (cli.rep_message matches Some(v) ==> cli_config(cli, c).rep_message == Some(v@)),
        cli.rep_message is None && !cli.no_rep_message ==> cli_config(cli, c).rep_message == c.rep_message,
        !cli.no_rep_message_filter ==> (cli.rep_message_filter matches Some(v) ==> cli_config(cli, c).rep_message_filter == Some(v@)),
        cli.rep_message_filter is None && !cli.no_rep_message_filter ==> cli_config(cli, c).rep_message_filter == c.rep_message_filter,
        !cli.no_ignorant_pluck ==> (cli.ignorant_pluck matches Some(v) ==> cli_config(cli, c).ignorant_pluck == Some(v@)),
        cli.ignorant_pluck is None && !cli.no_ignorant_pluck ==> cli_config(cli, c).ignorant_pluck == c.ignorant_pluck,
        cli.recursive matches Some(o) && !cli.no_recursive ==> cli_config(cli, c).recursive,
        cli.recursive is None && !cli.no_recursive ==> cli_config(cli, c).recursive == c.recursive
            && cli_config(cli, c).recursive_opts == c.recursive_opts,
        cli.debug is None ==> cli_config(cli, c).debug == c.debug,
{
}

} // verus!
