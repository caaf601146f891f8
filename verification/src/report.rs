//! What a walk hands to its caller to be written out.

use vstd::prelude::*;

verus! {

/// One line of output, with the stream it belongs to.
#[derive(Clone, Debug, PartialEq, Eq)]
pub enum Output {
    /// A line of the diagram, for standard output.
    Line(String),
    /// A diagnostic, for the error stream.
    Error(String),
}

/// The mathematical value of an [`Output`].
pub enum OutputModel {
    Line(Seq<char>),
    Error(Seq<char>),
}

impl View for Output {
    type V = OutputModel;

    open spec fn view(&self) -> OutputModel {
        match self {
            Output::Line(text) => OutputModel::Line(text@),
            Output::Error(text) => OutputModel::Error(text@),
        }
    }
}

impl DeepView for Output {
    type V = OutputModel;

    open spec fn deep_view(&self) -> OutputModel {
        self@
    }
}

/// The diagnostic for a directory that could not be listed.
pub open spec fn read_error_text(path: Seq<char>, message: Seq<char>) -> Seq<char> {
    "Error reading directory "@ + path + ": "@ + message
}

/// The diagnostic for a directory that could not be listed: its path as
/// displayed, and the reason that the system gave.
pub fn read_error_line(path: &str, message: &str) -> (line: String)
    ensures
        line@ == read_error_text(path@, message@),
{
    let mut line = String::from_str("Error reading directory ");
    line.append(path);
    line.append(": ");
    line.append(message);
    line
}

} // verus!
