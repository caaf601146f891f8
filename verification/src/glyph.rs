//! The fixed pieces of text of a tree diagram, and how a line is put
//! together from them.

use vstd::prelude::*;

verus! {

/// Branch glyph of an entry that has siblings after it.
pub const BRANCH: &'static str = "├── ";

/// Branch glyph of the last entry of its directory.
pub const LAST_BRANCH: &'static str = "└── ";

/// Indentation below an entry that has siblings after it.
pub const BAR_INDENT: &'static str = "│   ";

/// Indentation below the last entry of its directory.
pub const BLANK_INDENT: &'static str = "    ";

/// The branch glyph of an entry, by whether it is the last of its directory.
pub open spec fn branch_text(is_last: bool) -> Seq<char> {
    if is_last {
        seq!['└', '─', '─', ' ']
    } else {
        seq!['├', '─', '─', ' ']
    }
}

/// The indentation that an entry adds for its descendants: four columns,
/// blank below a last entry, led by a vertical bar below any other.
pub open spec fn indent_text(is_last: bool) -> Seq<char> {
    if is_last {
        seq![' ', ' ', ' ', ' ']
    } else {
        seq!['│', ' ', ' ', ' ']
    }
}

/// The line of an entry: the prefix of its directory, its branch glyph, its
/// name.
pub open spec fn line_text(prefix: Seq<char>, name: Seq<char>, is_last: bool) -> Seq<char> {
    prefix + branch_text(is_last) + name
}

/// The prefix under which the children of a directory entry are shown.
pub open spec fn child_prefix_text(prefix: Seq<char>, is_last: bool) -> Seq<char> {
    prefix + indent_text(is_last)
}

/// The branch glyph of an entry.
pub fn branch(is_last: bool) -> (glyph: &'static str)
    ensures
        glyph@ == branch_text(is_last),
{
    proof {
        reveal_strlit("├── ");
        reveal_strlit("└── ");
    }
    if is_last {
        assert(LAST_BRANCH@ =~= branch_text(true));
        LAST_BRANCH
    } else {
        assert(BRANCH@ =~= branch_text(false));
        BRANCH
    }
}

/// The indentation that an entry adds for its descendants.
pub fn indent(is_last: bool) -> (unit: &'static str)
    ensures
        unit@ == indent_text(is_last),
{
    proof {
        reveal_strlit("│   ");
        reveal_strlit("    ");
    }
    if is_last {
        assert(BLANK_INDENT@ =~= indent_text(true));
        BLANK_INDENT
    } else {
        assert(BAR_INDENT@ =~= indent_text(false));
        BAR_INDENT
    }
}

/// The line of an entry.
pub fn entry_line(prefix: &str, name: &str, is_last: bool) -> (line: String)
    ensures
        line@ == line_text(prefix@, name@, is_last),
{
    let mut line = String::from_str(prefix);
    line.append(branch(is_last));
    line.append(name);
    line
}

/// The prefix under which the children of a directory entry are shown.
pub fn child_prefix(prefix: &str, is_last: bool) -> (out: String)
    ensures
        out@ == child_prefix_text(prefix@, is_last),
{
    let mut out = String::from_str(prefix);
    out.append(indent(is_last));
    out
}

} // verus!
