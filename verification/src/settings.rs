//! The settings that the program is started with.

use crate::app::{AppConfig, AppConfigView};
use crate::git_diff::{DiffOptions, DiffOptionsView};
use crate::text;
use std::time::Duration;
use vstd::prelude::*;

verus! {

/// How large an untracked file may be that is shown, where nothing else is said.
pub const DEFAULT_MAX_UNTRACKED_BYTES: u64 = 1048576;

/// What the program was called with.
#[derive(Debug)]
pub struct Arguments {
    pub context: usize,
    pub refresh_interval: Duration,
    pub max_copy_lines: usize,
    pub no_untracked: bool,
    pub max_untracked_bytes: u64,
    pub no_osc52: bool,
    pub pathspecs: Vec<String>,
}

/// What is wrong with the arguments: the seconds between readings, of which only the sign counts,
/// or the number of lines to copy.
pub open spec fn argument_error_text(positive_refresh: bool, max_copy_lines: usize) -> Option<
    Seq<char>,
> {
    if !positive_refresh {
        Some("--refresh must be > 0"@)
    } else if max_copy_lines == 0 {
        Some("--max-copy-lines must be > 0"@)
    } else {
        None
    }
}

/// Says what is wrong with the arguments, if something is.
pub fn argument_error(positive_refresh: bool, max_copy_lines: usize) -> (error: Option<
    &'static str,
>)
    ensures
        match error {
            Some(error) => argument_error_text(positive_refresh, max_copy_lines) == Some(error@),
            None => argument_error_text(positive_refresh, max_copy_lines) is None,
        },
{
    if !positive_refresh {
        Some("--refresh must be > 0")
    } else if max_copy_lines == 0 {
        Some("--max-copy-lines must be > 0")
    } else {
        None
    }
}

/// The settings that arguments stand for.
pub fn config_of(arguments: Arguments) -> (config: AppConfig)
    ensures
        config@ == (AppConfigView {
            diff: DiffOptionsView {
                context: arguments.context,
                include_untracked: !arguments.no_untracked,
                max_untracked_bytes: arguments.max_untracked_bytes,
                pathspecs: text::texts(arguments.pathspecs@),
            },
            refresh_interval: arguments.refresh_interval,
            max_copy_lines: arguments.max_copy_lines,
            allow_osc52: !arguments.no_osc52,
        }),
{
    AppConfig {
        diff: DiffOptions {
            context: arguments.context,
            include_untracked: !arguments.no_untracked,
            max_untracked_bytes: arguments.max_untracked_bytes,
            pathspecs: arguments.pathspecs,
        },
        refresh_interval: arguments.refresh_interval,
        max_copy_lines: arguments.max_copy_lines,
        allow_osc52: !arguments.no_osc52,
    }
}

} // verus!
