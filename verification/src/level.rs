//! The rows of one directory: what is printed for each shown entry, and
//! under which prefix the walk goes on below it.

use crate::arrange::{
    arrange, arrangement, as_ints, is_arrangement, kept, lemma_arrangement_exists,
};
use crate::entry::{Entry, EntryModel};
use crate::glyph::{child_prefix, child_prefix_text, entry_line, line_text};
use vstd::prelude::*;

verus! {

/// One shown entry of a directory.
#[derive(Clone, Debug, PartialEq, Eq)]
pub struct Row {
    /// Position of the entry in the listing that was planned.
    pub source: usize,
    /// The line to print.
    pub line: String,
    /// For a directory, the prefix of its children's lines; `None` for any
    /// other entry.
    pub descend: Option<String>,
}

/// The mathematical value of a [`Row`].
pub struct RowModel {
    pub source: int,
    pub line: Seq<char>,
    pub descend: Option<Seq<char>>,
}

impl View for Row {
    type V = RowModel;

    open spec fn view(&self) -> RowModel {
        RowModel {
            source: self.source as int,
            line: self.line@,
            descend: match self.descend {
                Some(prefix) => Some(prefix@),
                None => None,
            },
        }
    }
}

impl DeepView for Row {
    type V = RowModel;

    open spec fn deep_view(&self) -> RowModel {
        self@
    }
}

/// The row at place `p` of an arrangement: the entry there is the last one
/// exactly when no place follows.
pub open spec fn row_at(
    entries: Seq<EntryModel>,
    order: Seq<int>,
    prefix: Seq<char>,
    p: int,
) -> RowModel {
    let is_last = p == order.len() - 1;
    let entry = entries[order[p]];
    RowModel {
        source: order[p],
        line: line_text(prefix, entry.name, is_last),
        descend: if entry.kind is Directory {
            Some(child_prefix_text(prefix, is_last))
        } else {
            None
        },
    }
}

/// The rows of a directory shown under `prefix`: one for each place of its
/// arrangement, in that order.
pub open spec fn level_rows(entries: Seq<EntryModel>, prefix: Seq<char>, show_files: bool) -> Seq<
    RowModel,
> {
    let order = arrangement(entries, show_files);
    Seq::new(order.len(), |p: int| row_at(entries, order, prefix, p))
}

/// Branch glyphs: the last row of a directory bears `└── ` and every row
/// before it `├── `, between the prefix of the directory and the name of
/// the entry.
pub proof fn lemma_branch_glyphs(
    entries: Seq<EntryModel>,
    prefix: Seq<char>,
    show_files: bool,
    p: int,
)
    requires
        0 <= p < level_rows(entries, prefix, show_files).len(),
    ensures
        ({
            let rows = level_rows(entries, prefix, show_files);
            let name = entries[rows[p].source].name;
            &&& p == rows.len() - 1 ==> rows[p].line == prefix + seq!['└', '─', '─', ' '] + name
            &&& p < rows.len() - 1 ==> rows[p].line == prefix + seq!['├', '─', '─', ' '] + name
        }),
{
}

/// Indentation: the children of a directory are shown under the prefix of
/// its own level, followed by four blanks if the directory is the last row
/// and by `│` and three blanks if it is not.  No other row has children.
pub proof fn lemma_child_prefixes(
    entries: Seq<EntryModel>,
    prefix: Seq<char>,
    show_files: bool,
    p: int,
)
    requires
        0 <= p < level_rows(entries, prefix, show_files).len(),
    ensures
        ({
            let rows = level_rows(entries, prefix, show_files);
            let is_directory = entries[rows[p].source].kind is Directory;
            &&& is_directory && p == rows.len() - 1 ==> rows[p].descend == Some(
                prefix + seq![' ', ' ', ' ', ' '],
            )
            &&& is_directory && p < rows.len() - 1 ==> rows[p].descend == Some(
                prefix + seq!['│', ' ', ' ', ' '],
            )
            &&& !is_directory ==> rows[p].descend is None
        }),
{
}

/// The rows stand for the kept entries of the listing, one for one and in
/// the order of its arrangement.
pub proof fn lemma_rows_follow_arrangement(
    entries: Seq<EntryModel>,
    prefix: Seq<char>,
    show_files: bool,
)
    ensures
        level_rows(entries, prefix, show_files).len() == arrangement(entries, show_files).len(),
        forall|p: int|
            0 <= p < arrangement(entries, show_files).len() ==> {
                let row = #[trigger] level_rows(entries, prefix, show_files)[p];
                &&& row.source == arrangement(entries, show_files)[p]
                &&& 0 <= row.source < entries.len()
                &&& kept(entries[row.source].kind, show_files)
            },
{
    lemma_arrangement_exists(entries, show_files);
}

/// A directory in which nothing is kept, an empty one among them, has no
/// rows.
pub proof fn lemma_nothing_kept_no_rows(
    entries: Seq<EntryModel>,
    prefix: Seq<char>,
    show_files: bool,
)
    requires
        forall|i: int| 0 <= i < entries.len() ==> !kept(#[trigger] entries[i].kind, show_files),
    ensures
        level_rows(entries, prefix, show_files).len() == 0,
{
    lemma_arrangement_exists(entries, show_files);
    let order = arrangement(entries, show_files);
    if order.len() > 0 {
        assert(kept(entries[order[0]].kind, show_files));
    }
}

/// Plans one directory: sorts and filters its listing and lays out a row
/// for each entry that is shown.
pub fn plan_level(entries: &Vec<Entry>, prefix: &str, show_files: bool) -> (rows: Vec<Row>)
    ensures
        rows.deep_view() == level_rows(entries.deep_view(), prefix@, show_files),
        forall|p: int| 0 <= p < rows.len() ==> (#[trigger] rows[p]).source < entries.len(),
{
    let order = arrange(entries, show_files);
    let total: usize = order.len();
    let ghost model = entries.deep_view();
    let ghost places = as_ints(order@);
    let mut rows: Vec<Row> = Vec::new();
    let mut p: usize = 0;
    while p < total
        invariant
            p <= total,
            total == order.len(),
            model == entries.deep_view(),
            places == as_ints(order@),
            is_arrangement(model, show_files, places),
            rows.len() == p,
            forall|q: int| 0 <= q < p ==> (#[trigger] rows[q])@ == row_at(model, places, prefix@, q),
            forall|q: int| 0 <= q < p ==> (#[trigger] rows[q]).source < entries.len(),
        decreases total - p,
    {
        let source: usize = order[p];
        assert(places[p as int] == source);
        let is_last = p == total - 1;
        let entry = &entries[source];
        let line = entry_line(prefix, entry.name.as_str(), is_last);
        let descend = if entry.kind.is_directory() {
            Some(child_prefix(prefix, is_last))
        } else {
            None
        };
        rows.push(Row { source, line, descend });
        p += 1;
    }
    rows
}

} // verus!
