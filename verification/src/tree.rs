//! Rendering a whole directory tree that is held in memory.

use crate::entry::{Entry, EntryModel, Kind};
use crate::level::{level_rows, plan_level, RowModel};
use crate::report::{read_error_line, read_error_text, Output, OutputModel};
use vstd::prelude::*;

verus! {

/// What the name of a child refers to.
#[derive(Debug, PartialEq, Eq)]
pub enum Node {
    /// A directory, with the outcome of listing it.
    Directory(Listing),
    /// A regular file.
    File,
    /// Anything else.
    Other,
}

/// The outcome of listing a directory.
#[derive(Debug, PartialEq, Eq)]
pub enum Listing {
    /// The children, in the order in which the system gave them.
    Entries(Vec<Child>),
    /// The directory could not be listed.
    Failed {
        /// The path of the directory, as displayed.
        path: String,
        /// The reason that the system gave.
        message: String,
    },
}

/// A child of a directory.
#[derive(Debug, PartialEq, Eq)]
pub struct Child {
    /// The base file name.
    pub name: String,
    /// What the name refers to.
    pub node: Node,
}

/// The mathematical value of a [`Node`].
pub enum NodeModel {
    Directory(ListingModel),
    File,
    Other,
}

/// The mathematical value of a [`Listing`].
pub enum ListingModel {
    Entries(Seq<ChildModel>),
    Failed { path: Seq<char>, message: Seq<char> },
}

/// The mathematical value of a [`Child`].
pub struct ChildModel {
    pub name: Seq<char>,
    pub node: NodeModel,
}

impl View for Node {
    type V = NodeModel;

    open spec fn view(&self) -> NodeModel
        decreases self,
    {
        match self {
            Node::Directory(listing) => NodeModel::Directory(listing.view()),
            Node::File => NodeModel::File,
            Node::Other => NodeModel::Other,
        }
    }
}

impl View for Listing {
    type V = ListingModel;

    open spec fn view(&self) -> ListingModel
        decreases self,
    {
        match self {
            Listing::Entries(children) => ListingModel::Entries(
                Seq::new(
                    children@.len(),
                    |i: int|
                        if 0 <= i < children@.len() {
                            children@[i].view()
                        } else {
                            arbitrary()
                        },
                ),
            ),
            Listing::Failed { path, message } => ListingModel::Failed {
                path: path@,
                message: message@,
            },
        }
    }
}

impl View for Child {
    type V = ChildModel;

    open spec fn view(&self) -> ChildModel
        decreases self,
    {
        ChildModel { name: self.name@, node: self.node.view() }
    }
}

impl NodeModel {
    /// The kind of entry that a listing shows for this node.
    pub open spec fn kind(self) -> Kind {
        match self {
            NodeModel::Directory(_) => Kind::Directory,
            NodeModel::File => Kind::File,
            NodeModel::Other => Kind::Other,
        }
    }
}

impl Node {
    /// The kind of entry that a listing shows for this node.
    pub fn kind(&self) -> (kind: Kind)
        ensures
            kind == self@.kind(),
    {
        match self {
            Node::Directory(_) => Kind::Directory,
            Node::File => Kind::File,
            Node::Other => Kind::Other,
        }
    }
}

impl ChildModel {
    /// The entry that a listing shows for this child: its name and kind.
    pub open spec fn entry(self) -> EntryModel {
        EntryModel { name: self.name, kind: self.node.kind() }
    }
}

/// The listing of a directory as its entries, in the same order.
pub open spec fn entries_of(children: Seq<ChildModel>) -> Seq<EntryModel> {
    Seq::new(children.len(), |i: int| children[i].entry())
}

/// What is written for a listing shown under `prefix`.
///
/// A listing that failed gives its diagnostic and nothing else.  Otherwise
/// each row of the directory gives its line, followed at once by all that is
/// written for the directory it names, before the next row.
pub open spec fn render(listing: ListingModel, prefix: Seq<char>, show_files: bool) -> Seq<
    OutputModel,
>
    decreases listing, 0int,
{
    match listing {
        ListingModel::Failed { path, message } => seq![
            OutputModel::Error(read_error_text(path, message)),
        ],
        ListingModel::Entries(children) => render_rows(
            children,
            level_rows(entries_of(children), prefix, show_files),
            show_files,
            0,
        ),
    }
}

/// What is written for the rows from place `from` on.
pub open spec fn render_rows(
    children: Seq<ChildModel>,
    rows: Seq<RowModel>,
    show_files: bool,
    from: int,
) -> Seq<OutputModel>
    decreases children, rows.len() - from + 2,
{
    if 0 <= from < rows.len() {
        render_row(children, rows[from], show_files) + render_rows(
            children,
            rows,
            show_files,
            from + 1,
        )
    } else {
        Seq::empty()
    }
}

/// What is written for one row: its line, then the subtree below it.
pub open spec fn render_row(children: Seq<ChildModel>, row: RowModel, show_files: bool) -> Seq<
    OutputModel,
>
    decreases children, 1int,
{
    seq![OutputModel::Line(row.line)] + render_below(children, row, show_files)
}

/// What is written below the line of a row: for a directory, its own
/// listing under the row's prefix; for anything else, nothing.
pub open spec fn render_below(children: Seq<ChildModel>, row: RowModel, show_files: bool) -> Seq<
    OutputModel,
>
    decreases children, 0int,
{
    if 0 <= row.source < children.len() {
        match (children[row.source].node, row.descend) {
            (NodeModel::Directory(listing), Some(prefix)) => render(listing, prefix, show_files),
            _ => Seq::empty(),
        }
    } else {
        Seq::empty()
    }
}

/// The entries of a listing: name and kind of each child.
fn entries_of_children(children: &Vec<Child>) -> (entries: Vec<Entry>)
    ensures
        entries.len() == children.len(),
        forall|i: int| 0 <= i < children.len() ==> (#[trigger] entries[i])@ == children[i]@.entry(),
{
    let mut entries: Vec<Entry> = Vec::new();
    let mut i: usize = 0;
    while i < children.len()
        invariant
            i <= children.len(),
            entries.len() == i,
            forall|k: int| 0 <= k < i ==> (#[trigger] entries[k])@ == children[k]@.entry(),
        decreases children.len() - i,
    {
        let child = &children[i];
        entries.push(Entry::new(child.name.clone(), child.node.kind()));
        i += 1;
    }
    entries
}

/// Renders a directory tree: the lines of its diagram and the diagnostics
/// for the directories that could not be listed, in the order in which they
/// are to be written.
pub fn display_tree(listing: &Listing, prefix: &str, show_files: bool) -> (out: Vec<Output>)
    ensures
        out.deep_view() == render(listing@, prefix@, show_files),
    decreases listing,
{
    let mut out: Vec<Output> = Vec::new();
    match listing {
        Listing::Failed { path, message } => {
            out.push(Output::Error(read_error_line(path.as_str(), message.as_str())));
        },
        Listing::Entries(children) => {
            let entries = entries_of_children(children);
            let rows = plan_level(&entries, prefix, show_files);
            let ghost kids = listing@->Entries_0;
            assert(entries.deep_view() =~= entries_of(kids));
            let ghost plan = rows.deep_view();
            let mut p: usize = 0;
            while p < rows.len()
                invariant
                    p <= rows.len(),
                    decreases_to!(*listing => *children),
                    listing@ == ListingModel::Entries(kids),
                    kids.len() == children.len(),
                    forall|i: int| 0 <= i < children.len() ==> kids[i] == (#[trigger] children[i])@,
                    plan == rows.deep_view(),
                    forall|q: int| 0 <= q < rows.len() ==> (#[trigger] rows[q]).source < children.len(),
                    out.deep_view() + render_rows(kids, plan, show_files, p as int) == render_rows(
                        kids,
                        plan,
                        show_files,
                        0,
                    ),
                decreases rows.len() - p,
            {
                let row = &rows[p];
                let ghost before = out.deep_view();
                out.push(Output::Line(row.line.clone()));
                match &children[row.source].node {
                    Node::Directory(below) => {
                        match &row.descend {
                            Some(child_prefix) => {
                                proof {
                                    vstd::std_specs::vec::axiom_vec_index_decreases(
                                        *children,
                                        row.source as int,
                                    );
                                }
                                let mut subtree = display_tree(
                                    below,
                                    child_prefix.as_str(),
                                    show_files,
                                );
                                out.append(&mut subtree);
                            },
                            None => {},
                        }
                    },
                    _ => {},
                }
                assert(out.deep_view() =~= before + render_row(kids, plan[p as int], show_files));
                p += 1;
            }
        },
    }
    out
}

} // verus!
