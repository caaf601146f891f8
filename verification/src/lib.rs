//! Renders a directory as an indented tree diagram.
//!
//! The library decides everything that is shown: which entries of a
//! directory are kept, in which order they appear, which branch glyph each
//! one bears and how the indentation of its descendants goes on.  Reading
//! the file system and writing the lines is left to the caller, who hands
//! over listings as plain values and gets back the text to write.
//!
//! [`level::plan_level`] lays out one directory at a time, for a caller that
//! walks the file system as it prints.  [`tree::display_tree`] renders a
//! whole tree that is held in memory, and [`root::run`] a whole invocation.

pub mod args;
pub mod arrange;
pub mod codepoint;
pub mod entry;
pub mod glyph;
pub mod level;
mod merge;
pub mod order;
pub mod report;
pub mod root;
pub mod structure;
pub mod tree;

pub use crate::args::Args;
pub use crate::entry::{Entry, Kind};
pub use crate::level::{plan_level, Row};
pub use crate::report::{read_error_line, Output};
pub use crate::root::{check_root, render_root, run, Report, Root, RootError};
pub use crate::tree::{display_tree, Child, Listing, Node};
