//! The structure of what is written for a directory tree.
//!
//! The statements here follow from the definition of [`render`]; they say
//! of every tree what a reader of a diagram relies on.

use crate::arrange::{
    arrangement, distinct_names, kept, lemma_arrangement_exists, lemma_comes_before_strict_total,
    lemma_increasing_is_unique, lemma_shown_entries,
};
use crate::glyph::{child_prefix_text, line_text};
use crate::level::{
    lemma_nothing_kept_no_rows, lemma_rows_follow_arrangement, level_rows, RowModel,
};
use crate::order::{entry_before, lemma_entry_order_strict_weak};
use crate::report::OutputModel;
use crate::tree::{
    entries_of, render, render_below, render_row, render_rows, ChildModel, ListingModel, NodeModel,
};
use vstd::prelude::*;

verus! {

/// The number of outputs that the rows before place `p` give.
pub open spec fn block_start(
    children: Seq<ChildModel>,
    rows: Seq<RowModel>,
    show_files: bool,
    p: int,
) -> int
    decreases p,
{
    if p <= 0 {
        0
    } else {
        block_start(children, rows, show_files, p - 1) + render_row(
            children,
            rows[p - 1],
            show_files,
        ).len()
    }
}

/// What the rows give from place `p` on is what they give in all, without
/// the outputs of the rows before `p`.
proof fn lemma_rows_from(children: Seq<ChildModel>, rows: Seq<RowModel>, show_files: bool, p: int)
    requires
        0 <= p <= rows.len(),
    ensures
        0 <= block_start(children, rows, show_files, p) <= render_rows(
            children,
            rows,
            show_files,
            0,
        ).len(),
        render_rows(children, rows, show_files, 0).skip(
            block_start(children, rows, show_files, p),
        ) == render_rows(children, rows, show_files, p),
    decreases p,
{
    if p > 0 {
        lemma_rows_from(children, rows, show_files, p - 1);
        let all = render_rows(children, rows, show_files, 0);
        let start = block_start(children, rows, show_files, p - 1);
        let block = render_row(children, rows[p - 1], show_files);
        assert(all.skip(start + block.len()) =~= all.skip(start).skip(block.len() as int));
    }
}

/// Depth first, parents before descendants, siblings in order: what is
/// written for a directory is one block for each of its rows, in the order of
/// the rows.  A block starts with the line of its row; the rest of the block
/// is what is written for the directory that the row names, and is empty for
/// any other row.
pub proof fn lemma_rows_in_blocks(
    children: Seq<ChildModel>,
    rows: Seq<RowModel>,
    show_files: bool,
    p: int,
)
    requires
        0 <= p < rows.len(),
    ensures
        ({
            let out = render_rows(children, rows, show_files, 0);
            let start = block_start(children, rows, show_files, p);
            let end = block_start(children, rows, show_files, p + 1);
            &&& 0 <= start < end <= out.len()
            &&& out[start] == OutputModel::Line(rows[p].line)
            &&& out.subrange(start + 1, end) == render_below(children, rows[p], show_files)
            &&& block_start(children, rows, show_files, rows.len() as int) == out.len()
        }),
{
    let out = render_rows(children, rows, show_files, 0);
    let start = block_start(children, rows, show_files, p);
    let end = block_start(children, rows, show_files, p + 1);
    let block = render_row(children, rows[p], show_files);
    let below = render_below(children, rows[p], show_files);
    lemma_rows_from(children, rows, show_files, p);
    lemma_rows_from(children, rows, show_files, p + 1);
    lemma_rows_from(children, rows, show_files, rows.len() as int);
    assert(out.skip(start)[0] == OutputModel::Line(rows[p].line));
    assert(out.subrange(start + 1, end) =~= below) by {
        assert forall|k: int| 0 <= k < below.len() implies out[start + 1 + k] == below[k] by {
            assert(out.skip(start)[k + 1] == block[k + 1]);
        }
    }
}

/// Every child that is kept has its line: the prefix, a branch glyph, its
/// name.  For a directory, the line is followed at once by all that is
/// written for the directory, under the prefix that the row hands down.
/// The result is the place of the line in the output, and whether the child
/// is the last one shown.
pub proof fn lemma_kept_child_has_line(
    children: Seq<ChildModel>,
    prefix: Seq<char>,
    show_files: bool,
    i: int,
) -> (found: (int, bool))
    requires
        0 <= i < children.len(),
        kept(children[i].node.kind(), show_files),
    ensures
        ({
            let (at, is_last) = found;
            let out = render(ListingModel::Entries(children), prefix, show_files);
            &&& 0 <= at < out.len()
            &&& out[at] == OutputModel::Line(line_text(prefix, children[i].name, is_last))
            &&& children[i].node matches NodeModel::Directory(listing) ==> {
                let below = render(listing, child_prefix_text(prefix, is_last), show_files);
                &&& at + 1 + below.len() <= out.len()
                &&& out.subrange(at + 1, at + 1 + below.len()) == below
            }
        }),
{
    let entries = entries_of(children);
    let rows = level_rows(entries, prefix, show_files);
    let order = arrangement(entries, show_files);
    lemma_arrangement_exists(entries, show_files);
    lemma_rows_follow_arrangement(entries, prefix, show_files);
    assert(kept(entries[i].kind, show_files));
    let p = choose|p: int| 0 <= p < order.len() && order[p] == i;
    lemma_rows_in_blocks(children, rows, show_files, p);
    (block_start(children, rows, show_files, p), p == order.len() - 1)
}

/// Only kept children have lines: every row of a directory stands for a
/// child that is kept, and no two rows for the same child.
pub proof fn lemma_rows_are_kept_children(
    children: Seq<ChildModel>,
    prefix: Seq<char>,
    show_files: bool,
)
    ensures
        ({
            let rows = level_rows(entries_of(children), prefix, show_files);
            &&& forall|p: int|
                0 <= p < rows.len() ==> 0 <= (#[trigger] rows[p]).source < children.len() && kept(
                    children[rows[p].source].node.kind(),
                    show_files,
                )
            &&& forall|p: int, q: int|
                0 <= p < q < rows.len() ==> (#[trigger] rows[p]).source != (#[trigger] rows[q]).source
        }),
{
    let entries = entries_of(children);
    let rows = level_rows(entries, prefix, show_files);
    let order = arrangement(entries, show_files);
    lemma_rows_follow_arrangement(entries, prefix, show_files);
    lemma_shown_entries(entries, show_files);
}

/// Some row stands for the child at position `i` of the listing.
pub open spec fn has_row(rows: Seq<RowModel>, i: int) -> bool {
    exists|p: int| 0 <= p < rows.len() && (#[trigger] rows[p]).source == i
}

/// With files left out, the rows of a directory are its directories: every
/// child that is a directory has a row, and no other child has one.
pub proof fn lemma_rows_without_files(children: Seq<ChildModel>, prefix: Seq<char>)
    ensures
        forall|i: int|
            0 <= i < children.len() ==> (has_row(
                level_rows(entries_of(children), prefix, false),
                i,
            ) <==> (#[trigger] children[i]).node is Directory),
{
    lemma_rows_of_kept(children, prefix, false);
}

/// With files shown, the rows of a directory are its directories and its
/// regular files: every such child has a row, and no other child has one.
pub proof fn lemma_rows_with_files(children: Seq<ChildModel>, prefix: Seq<char>)
    ensures
        forall|i: int|
            0 <= i < children.len() ==> (has_row(
                level_rows(entries_of(children), prefix, true),
                i,
            ) <==> (#[trigger] children[i]).node is Directory || children[i].node is File),
{
    lemma_rows_of_kept(children, prefix, true);
}

/// A child has a row exactly when it is kept.
proof fn lemma_rows_of_kept(children: Seq<ChildModel>, prefix: Seq<char>, show_files: bool)
    ensures
        forall|i: int|
            0 <= i < children.len() ==> (has_row(
                level_rows(entries_of(children), prefix, show_files),
                i,
            ) <==> kept((#[trigger] children[i]).node.kind(), show_files)),
{
    let entries = entries_of(children);
    let rows = level_rows(entries, prefix, show_files);
    let order = arrangement(entries, show_files);
    lemma_arrangement_exists(entries, show_files);
    lemma_rows_follow_arrangement(entries, prefix, show_files);
    assert forall|i: int| 0 <= i < children.len() implies (has_row(rows, i) <==> kept(
        (#[trigger] children[i]).node.kind(),
        show_files,
    )) by {
        if has_row(rows, i) {
            let p = choose|p: int| 0 <= p < rows.len() && (#[trigger] rows[p]).source == i;
            assert(kept(entries[order[p]].kind, show_files));
        }
        if kept(children[i].node.kind(), show_files) {
            assert(kept(entries[i].kind, show_files));
            let p = choose|p: int| 0 <= p < order.len() && order[p] == i;
            assert(rows[p].source == i);
        }
    }
}

/// Every line among the outputs begins with `prefix`.
pub open spec fn lines_begin_with(out: Seq<OutputModel>, prefix: Seq<char>) -> bool {
    forall|k: int|
        0 <= k < out.len() ==> (#[trigger] out[k] matches OutputModel::Line(text)
            ==> prefix.is_prefix_of(text))
}

/// Every line of a listing shown under a prefix begins with that prefix.
pub proof fn lemma_lines_keep_prefix(listing: ListingModel, prefix: Seq<char>, show_files: bool)
    ensures
        lines_begin_with(render(listing, prefix, show_files), prefix),
    decreases listing, 0int,
{
    match listing {
        ListingModel::Failed { path, message } => {},
        ListingModel::Entries(children) => {
            lemma_row_lines_keep_prefix(children, prefix, show_files, 0);
        },
    }
}

/// Every line that the rows of a directory give from place `from` on
/// begins with the prefix of the directory.
proof fn lemma_row_lines_keep_prefix(
    children: Seq<ChildModel>,
    prefix: Seq<char>,
    show_files: bool,
    from: int,
)
    ensures
        lines_begin_with(
            render_rows(
                children,
                level_rows(entries_of(children), prefix, show_files),
                show_files,
                from,
            ),
            prefix,
        ),
    decreases children, level_rows(entries_of(children), prefix, show_files).len() - from + 1,
{
    let rows = level_rows(entries_of(children), prefix, show_files);
    if 0 <= from < rows.len() {
        let row = rows[from];
        let below = render_below(children, row, show_files);
        let rest = render_rows(children, rows, show_files, from + 1);
        lemma_row_lines_keep_prefix(children, prefix, show_files, from + 1);
        lemma_rows_follow_arrangement(entries_of(children), prefix, show_files);
        if 0 <= row.source < children.len() {
            match (children[row.source].node, row.descend) {
                (NodeModel::Directory(listing), Some(inner)) => {
                    // The lines below begin with the prefix handed down,
                    // which begins with the prefix of this level.
                    lemma_lines_keep_prefix(listing, inner, show_files);
                    assert(lines_begin_with(below, prefix));
                },
                _ => {},
            }
        }
        assert(render_row(children, row, show_files) == seq![OutputModel::Line(row.line)] + below);
    }
}

/// Prefix propagation: every line written below a directory that is not
/// the last row of its level begins with the prefix of that level followed
/// by `│` and three blanks; below a directory that is the last row, with the
/// prefix followed by four blanks.  This holds of all descendants, at any
/// depth.
pub proof fn lemma_prefix_propagation(
    children: Seq<ChildModel>,
    prefix: Seq<char>,
    show_files: bool,
    p: int,
)
    requires
        0 <= p < level_rows(entries_of(children), prefix, show_files).len(),
    ensures
        ({
            let rows = level_rows(entries_of(children), prefix, show_files);
            let below = render_below(children, rows[p], show_files);
            &&& p < rows.len() - 1 ==> lines_begin_with(below, prefix + seq!['│', ' ', ' ', ' '])
            &&& p == rows.len() - 1 ==> lines_begin_with(below, prefix + seq![' ', ' ', ' ', ' '])
        }),
{
    let rows = level_rows(entries_of(children), prefix, show_files);
    let row = rows[p];
    lemma_rows_follow_arrangement(entries_of(children), prefix, show_files);
    if 0 <= row.source < children.len() {
        match (children[row.source].node, row.descend) {
            (NodeModel::Directory(listing), Some(inner)) => {
                lemma_lines_keep_prefix(listing, inner, show_files);
            },
            _ => {},
        }
    }
}

/// A directory in which nothing is kept, an empty one among them, gives no
/// output at all.
pub proof fn lemma_nothing_kept_renders_nothing(
    children: Seq<ChildModel>,
    prefix: Seq<char>,
    show_files: bool,
)
    requires
        forall|i: int|
            0 <= i < children.len() ==> !kept((#[trigger] children[i]).node.kind(), show_files),
    ensures
        render(ListingModel::Entries(children), prefix, show_files) == Seq::<OutputModel>::empty(),
{
    let entries = entries_of(children);
    assert forall|i: int| 0 <= i < entries.len() implies !kept(
        #[trigger] entries[i].kind,
        show_files,
    ) by {}
    lemma_nothing_kept_no_rows(entries, prefix, show_files);
}

/// The children that are shown, in the order in which they are shown.
pub open spec fn shown_children(children: Seq<ChildModel>, show_files: bool) -> Seq<ChildModel> {
    arrangement(entries_of(children), show_files).map_values(|i: int| children[i])
}

/// What is written for children that are shown in the given order, from
/// place `from` on: for each its line, then all that is written below it.
pub open spec fn render_shown(
    shown: Seq<ChildModel>,
    prefix: Seq<char>,
    show_files: bool,
    from: int,
) -> Seq<OutputModel>
    decreases shown.len() - from,
{
    if 0 <= from < shown.len() {
        let is_last = from == shown.len() - 1;
        let below = match shown[from].node {
            NodeModel::Directory(listing) => render(
                listing,
                child_prefix_text(prefix, is_last),
                show_files,
            ),
            _ => Seq::empty(),
        };
        seq![OutputModel::Line(line_text(prefix, shown[from].name, is_last))] + below
            + render_shown(shown, prefix, show_files, from + 1)
    } else {
        Seq::empty()
    }
}

/// The rows of a directory give, from any place on, what its shown
/// children give from there.
proof fn lemma_rows_render_shown(
    children: Seq<ChildModel>,
    prefix: Seq<char>,
    show_files: bool,
    from: int,
)
    requires
        0 <= from,
    ensures
        render_rows(
            children,
            level_rows(entries_of(children), prefix, show_files),
            show_files,
            from,
        ) == render_shown(shown_children(children, show_files), prefix, show_files, from),
    decreases level_rows(entries_of(children), prefix, show_files).len() - from,
{
    let rows = level_rows(entries_of(children), prefix, show_files);
    let shown = shown_children(children, show_files);
    lemma_rows_follow_arrangement(entries_of(children), prefix, show_files);
    if from < rows.len() {
        lemma_rows_render_shown(children, prefix, show_files, from + 1);
        assert(render_row(children, rows[from], show_files) == seq![
            OutputModel::Line(rows[from].line),
        ] + render_below(children, rows[from], show_files));
    }
}

/// What is written for a directory depends on its shown children alone,
/// in their order.
pub proof fn lemma_render_by_shown_children(
    children: Seq<ChildModel>,
    prefix: Seq<char>,
    show_files: bool,
)
    ensures
        render(ListingModel::Entries(children), prefix, show_files) == render_shown(
            shown_children(children, show_files),
            prefix,
            show_files,
            0,
        ),
{
    lemma_rows_render_shown(children, prefix, show_files, 0);
}

/// Rendering is deterministic in the set of children: two listings of a
/// directory that hold the same children, no two of them under one name,
/// give the same output, in whatever order each lists them.
pub proof fn lemma_render_ignores_listing_order(
    a: Seq<ChildModel>,
    b: Seq<ChildModel>,
    prefix: Seq<char>,
    show_files: bool,
)
    requires
        distinct_names(entries_of(a)),
        distinct_names(entries_of(b)),
        forall|x: ChildModel| a.contains(x) <==> b.contains(x),
    ensures
        render(ListingModel::Entries(a), prefix, show_files) == render(
            ListingModel::Entries(b),
            prefix,
            show_files,
        ),
{
    let shown_a = shown_children(a, show_files);
    let shown_b = shown_children(b, show_files);
    let lt = |x: ChildModel, y: ChildModel| entry_before(x.entry(), y.entry());
    assert forall|x: ChildModel, y: ChildModel| !(#[trigger] lt(x, y) && lt(y, x)) by {
        lemma_entry_order_strict_weak(x.entry(), y.entry(), x.entry());
    }
    lemma_shown_children_sorted(a, show_files);
    lemma_shown_children_sorted(b, show_files);
    assert forall|x: ChildModel| shown_a.contains(x) <==> shown_b.contains(x) by {
        assert(a.contains(x) <==> b.contains(x));
    }
    lemma_increasing_is_unique(lt, shown_a, shown_b);
    lemma_render_by_shown_children(a, prefix, show_files);
    lemma_render_by_shown_children(b, prefix, show_files);
}

/// Where no two children bear the same name, each shown child sorts
/// strictly before those shown after it, and the shown children are the
/// kept children of the listing.
proof fn lemma_shown_children_sorted(children: Seq<ChildModel>, show_files: bool)
    requires
        distinct_names(entries_of(children)),
    ensures
        forall|p: int, q: int|
            0 <= p < q < shown_children(children, show_files).len() ==> entry_before(
                (#[trigger] shown_children(children, show_files)[p]).entry(),
                (#[trigger] shown_children(children, show_files)[q]).entry(),
            ),
        forall|x: ChildModel|
            shown_children(children, show_files).contains(x) <==> children.contains(x) && kept(
                x.node.kind(),
                show_files,
            ),
{
    let entries = entries_of(children);
    let order = arrangement(entries, show_files);
    let shown = shown_children(children, show_files);
    lemma_arrangement_exists(entries, show_files);
    assert forall|p: int, q: int| 0 <= p < q < shown.len() implies entry_before(
        (#[trigger] shown[p]).entry(),
        (#[trigger] shown[q]).entry(),
    ) by {
        lemma_entry_order_strict_weak(entries[order[p]], entries[order[q]], entries[order[p]]);
        lemma_comes_before_strict_total(entries, order[p], order[q], order[p]);
    }
    assert forall|x: ChildModel|
        shown.contains(x) <==> children.contains(x) && kept(x.node.kind(), show_files) by {
        if shown.contains(x) {
            let p = choose|p: int| 0 <= p < shown.len() && shown[p] == x;
        }
        if children.contains(x) && kept(x.node.kind(), show_files) {
            let i = choose|i: int| 0 <= i < children.len() && children[i] == x;
            assert(kept(entries[i].kind, show_files));
            let p = choose|p: int| 0 <= p < order.len() && order[p] == i;
            assert(shown[p] == x);
        }
    }
}

} // verus!
