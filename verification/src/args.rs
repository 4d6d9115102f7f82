//! The options of a run.

use crate::comments::Style;
use vstd::prelude::*;

verus! {

/// The options of a run, as plain values.
#[derive(Clone, Debug)]
pub struct Args {
    /// The directory whose files are processed.
    pub dir: String,
    /// The base directory for relative paths, where one was named.
    pub base: Option<String>,
    /// Do not look for a `.git` directory to find the base directory.
    pub no_git_base: bool,
    /// The extensions to process and no others, separated by commas.
    pub extensions: Option<String>,
    /// The file that holds the configuration of extensions and styles.
    pub config_file: Option<String>,
    /// Go into the directories below `dir`.
    pub recursive: bool,
    /// Compute what would be done and write nothing.
    pub dry_run: bool,
    /// The style to use for every file, whatever its extension.
    pub comment_style: Option<Style>,
    /// Process the directories that are passed over otherwise.
    pub force: bool,
    /// Remove the stale path comments of a file.
    pub strip: bool,
    /// List the configured extensions and stop.
    pub print_extensions: bool,
    /// Do not take names from the `.gitignore` of the base directory.
    pub no_ignore_merge: bool,
    /// Remove headers and put none in.
    pub clean: bool,
}

} // verus!
