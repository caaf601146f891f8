//! The options of one invocation.

use vstd::prelude::*;

verus! {

/// The directory that is shown when none is named.
pub const DEFAULT_PATH: &'static str = ".";

/// What to show, and of which directory.
#[derive(Clone, Debug, PartialEq, Eq)]
pub struct Args {
    /// Whether regular files are shown besides directories.
    pub show_files: bool,
    /// The directory to show.
    pub path: String,
}

impl Args {
    /// Options that show `path`, with files if `show_files` is set.
    pub fn new(show_files: bool, path: String) -> (args: Args)
        ensures
            args.show_files == show_files,
            args.path@ == path@,
    {
        Args { show_files, path }
    }
}

impl Default for Args {
    /// The options of an invocation without arguments: directories only, of
    /// the current directory.
    fn default() -> (args: Args)
        ensures
            !args.show_files,
            args.path@ == DEFAULT_PATH@,
    {
        Args { show_files: false, path: String::from_str(DEFAULT_PATH) }
    }
}

} // verus!
