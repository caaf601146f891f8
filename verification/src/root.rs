//! The root of a walk: what must hold of the path before anything is
//! shown, and what a whole run writes.

use crate::arrange::kept;
use crate::report::{Output, OutputModel};
use crate::structure::lemma_nothing_kept_renders_nothing;
use crate::tree::{display_tree, render, ChildModel, Listing, ListingModel};
use vstd::prelude::*;

verus! {

/// Exit code of a run that showed the tree, even where some directory
/// below the root could not be listed.
pub const EXIT_SUCCESS: i32 = 0;

/// Exit code of a run that was refused its root.
pub const EXIT_FAILURE: i32 = 1;

/// Why a path cannot be the root of a walk.
#[derive(Clone, Copy, Debug, PartialEq, Eq, Structural)]
pub enum RootError {
    /// Nothing exists at the path.
    Missing,
    /// The path exists and is not a directory.
    NotDirectory,
}

/// Whether a path can be the root of a walk, by what was found there.
pub open spec fn root_check(exists: bool, is_directory: bool) -> Result<(), RootError> {
    if !exists {
        Err(RootError::Missing)
    } else if !is_directory {
        Err(RootError::NotDirectory)
    } else {
        Ok(())
    }
}

/// Checks that a path can be the root of a walk: it must exist, and be a
/// directory.
pub fn check_root(exists: bool, is_directory: bool) -> (r: Result<(), RootError>)
    ensures
        r == root_check(exists, is_directory),
{
    if !exists {
        Err(RootError::Missing)
    } else if !is_directory {
        Err(RootError::NotDirectory)
    } else {
        Ok(())
    }
}

impl RootError {
    /// The diagnostic for a path that was refused, naming the path as it
    /// was given.
    pub open spec fn message_text(self, path: Seq<char>) -> Seq<char> {
        match self {
            RootError::Missing => "Error: Path '"@ + path + "' does not exist"@,
            RootError::NotDirectory => "Error: Path '"@ + path + "' is not a directory"@,
        }
    }

    /// The diagnostic for a path that was refused.
    pub fn message(&self, path: &str) -> (line: String)
        ensures
            line@ == self.message_text(path@),
    {
        let mut line = String::from_str("Error: Path '");
        line.append(path);
        match self {
            RootError::Missing => line.append("' does not exist"),
            RootError::NotDirectory => line.append("' is not a directory"),
        }
        line
    }

    /// The exit code of a run that was refused its root.
    pub fn exit_code(&self) -> (code: i32)
        ensures
            code == EXIT_FAILURE,
            code == 1,
    {
        EXIT_FAILURE
    }
}

/// What was found at the path that a run was given.
#[derive(Debug, PartialEq, Eq)]
pub enum Root {
    /// Nothing.
    Missing,
    /// Something that is not a directory.
    NotDirectory,
    /// A directory, with the outcome of listing it.
    Directory(Listing),
}

/// The mathematical value of a [`Root`].
pub enum RootModel {
    Missing,
    NotDirectory,
    Directory(ListingModel),
}

impl View for Root {
    type V = RootModel;

    open spec fn view(&self) -> RootModel {
        match self {
            Root::Missing => RootModel::Missing,
            Root::NotDirectory => RootModel::NotDirectory,
            Root::Directory(listing) => RootModel::Directory(listing@),
        }
    }
}

/// All that a run writes, and the code it exits with.
#[derive(Debug, PartialEq, Eq)]
pub struct Report {
    /// The lines and diagnostics, in the order in which they are written.
    pub outputs: Vec<Output>,
    /// The exit code of the process.
    pub exit_code: i32,
}

/// What is written for a root directory: its path as the first line, then
/// its listing under the empty prefix.
pub open spec fn render_root_text(path: Seq<char>, listing: ListingModel, show_files: bool) -> Seq<
    OutputModel,
> {
    seq![OutputModel::Line(path)] + render(listing, Seq::empty(), show_files)
}

/// What a run writes.  A root that is missing or not a directory gives one
/// diagnostic and no line; a directory gives its tree.
pub open spec fn run_outputs(path: Seq<char>, root: RootModel, show_files: bool) -> Seq<
    OutputModel,
> {
    match root {
        RootModel::Missing => seq![OutputModel::Error(RootError::Missing.message_text(path))],
        RootModel::NotDirectory => seq![
            OutputModel::Error(RootError::NotDirectory.message_text(path)),
        ],
        RootModel::Directory(listing) => render_root_text(path, listing, show_files),
    }
}

/// The code a run exits with: failure exactly when it was refused its
/// root.
pub open spec fn run_exit_code(root: RootModel) -> int {
    match root {
        RootModel::Directory(_) => 0,
        _ => 1,
    }
}

/// A run that is refused its root writes no line of the diagram and
/// exactly one diagnostic, and fails with exit code 1.  A path that does not
/// exist and one that is not a directory get different diagnostics.
pub proof fn lemma_refused_run(path: Seq<char>, show_files: bool)
    ensures
        run_outputs(path, RootModel::Missing, show_files) == seq![
            OutputModel::Error("Error: Path '"@ + path + "' does not exist"@),
        ],
        run_outputs(path, RootModel::NotDirectory, show_files) == seq![
            OutputModel::Error("Error: Path '"@ + path + "' is not a directory"@),
        ],
        run_exit_code(RootModel::Missing) == 1,
        run_exit_code(RootModel::NotDirectory) == 1,
        RootError::Missing.message_text(path) != RootError::NotDirectory.message_text(path),
{
    reveal_strlit("' does not exist");
    reveal_strlit("' is not a directory");
    assert(RootError::Missing.message_text(path).len() != RootError::NotDirectory.message_text(
        path,
    ).len());
}

/// A run on a directory succeeds, whatever happens below the root, and
/// its first output is the line of the root path.
pub proof fn lemma_run_on_directory(path: Seq<char>, listing: ListingModel, show_files: bool)
    ensures
        run_exit_code(RootModel::Directory(listing)) == 0,
        run_outputs(path, RootModel::Directory(listing), show_files).len() >= 1,
        run_outputs(path, RootModel::Directory(listing), show_files)[0] == OutputModel::Line(path),
        run_outputs(path, RootModel::Directory(listing), show_files).skip(1) == render(
            listing,
            Seq::empty(),
            show_files,
        ),
{
}

/// A root directory in which nothing is kept, an empty one among them,
/// shows the line of its path and nothing else.
pub proof fn lemma_bare_root(path: Seq<char>, children: Seq<ChildModel>, show_files: bool)
    requires
        forall|i: int|
            0 <= i < children.len() ==> !kept((#[trigger] children[i]).node.kind(), show_files),
    ensures
        render_root_text(path, ListingModel::Entries(children), show_files) == seq![
            OutputModel::Line(path),
        ],
{
    lemma_nothing_kept_renders_nothing(children, Seq::empty(), show_files);
}

/// Renders a root directory: the path as given, then the tree below it.
pub fn render_root(path: &str, listing: &Listing, show_files: bool) -> (out: Vec<Output>)
    ensures
        out.deep_view() == render_root_text(path@, listing@, show_files),
{
    let mut out: Vec<Output> = Vec::new();
    out.push(Output::Line(String::from_str(path)));
    let mut below = display_tree(listing, "", show_files);
    out.append(&mut below);
    proof {
        reveal_strlit("");
        assert(""@ =~= Seq::<char>::empty());
    }
    out
}

/// A whole run on what was found at `path`.
pub fn run(path: &str, root: &Root, show_files: bool) -> (report: Report)
    ensures
        report.outputs.deep_view() == run_outputs(path@, root@, show_files),
        report.exit_code == run_exit_code(root@),
{
    match root {
        Root::Directory(listing) => Report {
            outputs: render_root(path, listing, show_files),
            exit_code: EXIT_SUCCESS,
        },
        Root::Missing => refusal(RootError::Missing, path),
        Root::NotDirectory => refusal(RootError::NotDirectory, path),
    }
}

/// The report of a run that was refused its root.
fn refusal(error: RootError, path: &str) -> (report: Report)
    ensures
        report.outputs.deep_view() == seq![OutputModel::Error(error.message_text(path@))],
        report.exit_code == 1,
{
    let mut outputs: Vec<Output> = Vec::new();
    outputs.push(Output::Error(error.message(path)));
    Report { outputs, exit_code: error.exit_code() }
}

} // verus!
