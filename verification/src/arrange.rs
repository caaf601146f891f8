//! Which entries of a directory are shown, and in which order.
//!
//! An arrangement names the shown entries by their positions in the listing.
//! It holds every kept position once, in the order of [`entry_before`];
//! entries that tie keep the order in which the listing gave them.

use crate::entry::{Entry, EntryModel, Kind};
use crate::merge::{lemma_merge_to_end, positions_of, sort_span};
use crate::order::{entry_before, entry_precedence, lemma_entry_order_strict_weak, Precedence};
use vstd::prelude::*;

verus! {

/// Whether an entry of this kind is shown: directories always, regular
/// files on request, nothing else.
pub open spec fn kept(kind: Kind, show_files: bool) -> bool {
    kind is Directory || (show_files && kind is File)
}

/// Strict order on the positions of a listing: the entry order, with ties
/// broken by position.
pub open spec fn comes_before(entries: Seq<EntryModel>, i: int, j: int) -> bool {
    match entry_precedence(entries[i], entries[j]) {
        Precedence::Before => true,
        Precedence::After => false,
        Precedence::Tied => i < j,
    }
}

/// Every position in `order` comes before all positions after it.
pub open spec fn ascending(entries: Seq<EntryModel>, order: Seq<int>) -> bool {
    forall|p: int, q: int|
        0 <= p < q < order.len() ==> comes_before(entries, #[trigger] order[p], #[trigger] order[q])
}

/// `order` lists exactly the kept positions of `entries`, in ascending order.
pub open spec fn is_arrangement(
    entries: Seq<EntryModel>,
    show_files: bool,
    order: Seq<int>,
) -> bool {
    &&& forall|p: int|
        0 <= p < order.len() ==> 0 <= #[trigger] order[p] < entries.len() && kept(
            entries[order[p]].kind,
            show_files,
        )
    &&& forall|i: int|
        0 <= i < entries.len() && kept(#[trigger] entries[i].kind, show_files) ==> order.contains(i)
    &&& ascending(entries, order)
}

/// The arrangement of a listing: the one sequence of positions for which
/// [`is_arrangement`] holds (see [`lemma_arrangement_is_unique`] and
/// [`lemma_arrangement_exists`]).
pub open spec fn arrangement(entries: Seq<EntryModel>, show_files: bool) -> Seq<int> {
    choose|order: Seq<int>| is_arrangement(entries, show_files, order)
}

/// A sequence of indices as mathematical integers.
pub open spec fn as_ints(indices: Seq<usize>) -> Seq<int> {
    indices.map_values(|i: usize| i as int)
}

/// [`comes_before`] is a strict total order on positions.
pub proof fn lemma_comes_before_strict_total(entries: Seq<EntryModel>, i: int, j: int, k: int)
    ensures
        !comes_before(entries, i, i),
        !(comes_before(entries, i, j) && comes_before(entries, j, i)),
        comes_before(entries, i, j) && comes_before(entries, j, k) ==> comes_before(entries, i, k),
        i != j ==> comes_before(entries, i, j) || comes_before(entries, j, i),
{
    lemma_entry_order_strict_weak(entries[i], entries[i], entries[i]);
    lemma_entry_order_strict_weak(entries[i], entries[j], entries[k]);
    lemma_entry_order_strict_weak(entries[j], entries[i], entries[k]);
    lemma_entry_order_strict_weak(entries[j], entries[k], entries[i]);
    lemma_entry_order_strict_weak(entries[i], entries[k], entries[j]);
    lemma_entry_order_strict_weak(entries[k], entries[i], entries[j]);
}

/// Each element of the sequence stands in the relation `lt` to all that
/// follow it.
pub open spec fn increasing<T>(s: Seq<T>, lt: spec_fn(T, T) -> bool) -> bool {
    forall|p: int, q: int| 0 <= p < q < s.len() ==> lt(#[trigger] s[p], #[trigger] s[q])
}

/// Under a relation that never holds both ways, two increasing sequences
/// with the same elements are equal.
pub proof fn lemma_increasing_is_unique<T>(lt: spec_fn(T, T) -> bool, a: Seq<T>, b: Seq<T>)
    requires
        forall|x: T, y: T| !(#[trigger] lt(x, y) && lt(y, x)),
        increasing(a, lt),
        increasing(b, lt),
        forall|x: T| a.contains(x) <==> b.contains(x),
    ensures
        a == b,
    decreases a.len(),
{
    if a.len() == 0 {
        if b.len() > 0 {
            assert(b.contains(b[0]));
        }
    } else {
        // Each first element occurs in the other sequence; were it not the
        // first there too, the two would stand in `lt` both ways.
        assert(a.contains(a[0]));
        assert(b.contains(b[0]));
        let q = choose|q: int| 0 <= q < b.len() && b[q] == a[0];
        let p = choose|p: int| 0 <= p < a.len() && a[p] == b[0];
        assert(a[0] == b[0]);
        let a_rest = a.drop_first();
        let b_rest = b.drop_first();
        assert forall|x: T| a_rest.contains(x) <==> b_rest.contains(x) by {
            if a_rest.contains(x) {
                let i = choose|i: int| 0 <= i < a_rest.len() && a_rest[i] == x;
                assert(b.contains(x));
                let j = choose|j: int| 0 <= j < b.len() && b[j] == x;
                assert(b_rest[j - 1] == x);
            }
            if b_rest.contains(x) {
                let j = choose|j: int| 0 <= j < b_rest.len() && b_rest[j] == x;
                assert(a.contains(x));
                let i = choose|i: int| 0 <= i < a.len() && a[i] == x;
                assert(a_rest[i - 1] == x);
            }
        }
        lemma_increasing_is_unique(lt, a_rest, b_rest);
        assert(a =~= seq![a[0]] + a_rest);
    }
}

/// A listing has at most one arrangement.
pub proof fn lemma_arrangement_is_unique(
    entries: Seq<EntryModel>,
    show_files: bool,
    a: Seq<int>,
    b: Seq<int>,
)
    requires
        is_arrangement(entries, show_files, a),
        is_arrangement(entries, show_files, b),
    ensures
        a == b,
{
    let lt = |i: int, j: int| comes_before(entries, i, j);
    assert forall|x: int, y: int| !(#[trigger] lt(x, y) && lt(y, x)) by {
        lemma_comes_before_strict_total(entries, x, y, x);
    }
    lemma_increasing_is_unique(lt, a, b);
}

/// Builds an arrangement of a listing, one entry after the other.
proof fn lemma_arrangement_witness(entries: Seq<EntryModel>, show_files: bool) -> (order: Seq<int>)
    ensures
        is_arrangement(entries, show_files, order),
    decreases entries.len(),
{
    if entries.len() == 0 {
        Seq::empty()
    } else {
        let last = entries.len() - 1;
        let shorter = entries.drop_last();
        let before = lemma_arrangement_witness(shorter, show_files);
        // What holds of the shorter listing holds of the whole one: the
        // entries at the positions in `before` are the same in both.
        assert forall|p: int| 0 <= p < before.len() implies 0 <= #[trigger] before[p] < last
            && kept(entries[before[p]].kind, show_files) by {}
        assert(ascending(entries, before));
        assert forall|i: int|
            0 <= i < last && kept(#[trigger] entries[i].kind, show_files) implies before.contains(
            i,
        ) by {
            assert(kept(shorter[i].kind, show_files));
        }
        if kept(entries[last].kind, show_files) {
            let single = seq![last];
            let order = lemma_merge_to_end(entries, before, single, Seq::empty(), 0, 0);
            assert forall|p: int| 0 <= p < order.len() implies 0 <= #[trigger] order[p]
                < entries.len() && kept(entries[order[p]].kind, show_files) by {
                assert(order.contains(order[p]));
            }
            assert forall|i: int|
                0 <= i < entries.len() && kept(
                    #[trigger] entries[i].kind,
                    show_files,
                ) implies order.contains(i) by {
                if i == last {
                    assert(single[0] == i);
                } else {
                    assert(before.contains(i));
                }
            }
            order
        } else {
            before
        }
    }
}

/// Every listing has an arrangement, and [`arrangement`] is it.
pub proof fn lemma_arrangement_exists(entries: Seq<EntryModel>, show_files: bool)
    ensures
        is_arrangement(entries, show_files, arrangement(entries, show_files)),
{
    lemma_arrangement_witness(entries, show_files);
}

/// Of the entries of a listing, the directories are always shown, the
/// regular files exactly when files are asked for, and nothing else ever.
/// The arrangement names positions of the listing only, and none twice.
pub proof fn lemma_shown_entries(entries: Seq<EntryModel>, show_files: bool)
    ensures
        forall|i: int|
            0 <= i < entries.len() && (#[trigger] entries[i]).kind is Directory ==> arrangement(
                entries,
                show_files,
            ).contains(i),
        forall|i: int|
            0 <= i < entries.len() && (#[trigger] entries[i]).kind is File ==> (arrangement(
                entries,
                show_files,
            ).contains(i) <==> show_files),
        forall|i: int|
            0 <= i < entries.len() && (#[trigger] entries[i]).kind is Other ==> !arrangement(
                entries,
                show_files,
            ).contains(i),
        forall|x: int|
            arrangement(entries, show_files).contains(x) ==> 0 <= x < entries.len(),
        arrangement(entries, show_files).no_duplicates(),
{
    let order = arrangement(entries, show_files);
    lemma_arrangement_exists(entries, show_files);
    assert forall|p: int, q: int| 0 <= p < q < order.len() implies order[p] != order[q] by {
        lemma_comes_before_strict_total(entries, order[p], order[q], order[p]);
    }
}

/// At one level every directory is shown before every entry that is not a
/// directory, whatever their names.
pub proof fn lemma_directories_come_first(
    entries: Seq<EntryModel>,
    show_files: bool,
    p: int,
    q: int,
)
    requires
        0 <= p < arrangement(entries, show_files).len(),
        0 <= q < arrangement(entries, show_files).len(),
        entries[arrangement(entries, show_files)[p]].kind is Directory,
        !(entries[arrangement(entries, show_files)[q]].kind is Directory),
    ensures
        p < q,
{
    let order = arrangement(entries, show_files);
    lemma_arrangement_exists(entries, show_files);
    lemma_entry_order_strict_weak(entries[order[p]], entries[order[q]], entries[order[p]]);
    // Were `q` the earlier place, the entry there would come before the
    // directory at `p`.
    assert(q != p);
}

/// No two entries of the listing bear the same name.
pub open spec fn distinct_names(entries: Seq<EntryModel>) -> bool {
    forall|i: int, j: int|
        0 <= i < j < entries.len() ==> (#[trigger] entries[i]).name != (#[trigger] entries[j]).name
}

/// The entries that are shown, in the order in which they are shown.
pub open spec fn shown_entries(entries: Seq<EntryModel>, show_files: bool) -> Seq<EntryModel> {
    arrangement(entries, show_files).map_values(|i: int| entries[i])
}

/// Each entry of the sequence sorts strictly before all that follow it.
pub open spec fn strictly_sorted(entries: Seq<EntryModel>) -> bool {
    forall|p: int, q: int|
        0 <= p < q < entries.len() ==> entry_before(#[trigger] entries[p], #[trigger] entries[q])
}

/// Where no two entries bear the same name, the shown entries are strictly
/// sorted, and they are the kept entries of the listing.
pub proof fn lemma_shown_entries_sorted(entries: Seq<EntryModel>, show_files: bool)
    requires
        distinct_names(entries),
    ensures
        strictly_sorted(shown_entries(entries, show_files)),
        forall|x: EntryModel|
            shown_entries(entries, show_files).contains(x) <==> entries.contains(x) && kept(
                x.kind,
                show_files,
            ),
{
    let order = arrangement(entries, show_files);
    let shown = shown_entries(entries, show_files);
    lemma_arrangement_exists(entries, show_files);
    assert forall|p: int, q: int| 0 <= p < q < shown.len() implies entry_before(
        #[trigger] shown[p],
        #[trigger] shown[q],
    ) by {
        lemma_entry_order_strict_weak(entries[order[p]], entries[order[q]], entries[order[p]]);
        lemma_comes_before_strict_total(entries, order[p], order[q], order[p]);
    }
    assert forall|x: EntryModel|
        shown.contains(x) <==> entries.contains(x) && kept(x.kind, show_files) by {
        if shown.contains(x) {
            let p = choose|p: int| 0 <= p < shown.len() && shown[p] == x;
        }
        if entries.contains(x) && kept(x.kind, show_files) {
            let i = choose|i: int| 0 <= i < entries.len() && entries[i] == x;
            let p = choose|p: int| 0 <= p < order.len() && order[p] == i;
            assert(shown[p] == x);
        }
    }
}

/// The order in which a directory is listed does not matter: two listings
/// that hold the same entries, no two of them under one name, show the same
/// entries in the same order.
pub proof fn lemma_listing_order_is_irrelevant(
    a: Seq<EntryModel>,
    b: Seq<EntryModel>,
    show_files: bool,
)
    requires
        distinct_names(a),
        distinct_names(b),
        forall|x: EntryModel| a.contains(x) <==> b.contains(x),
    ensures
        shown_entries(a, show_files) == shown_entries(b, show_files),
{
    lemma_shown_entries_sorted(a, show_files);
    lemma_shown_entries_sorted(b, show_files);
    let shown_a = shown_entries(a, show_files);
    let shown_b = shown_entries(b, show_files);
    assert forall|x: EntryModel| shown_a.contains(x) <==> shown_b.contains(x) by {
        assert(a.contains(x) <==> b.contains(x));
    }
    let lt = |x: EntryModel, y: EntryModel| entry_before(x, y);
    assert forall|x: EntryModel, y: EntryModel| !(#[trigger] lt(x, y) && lt(y, x)) by {
        lemma_entry_order_strict_weak(x, y, x);
    }
    lemma_increasing_is_unique(lt, shown_a, shown_b);
}

/// Whether an entry of this kind is shown.
pub fn is_kept(kind: Kind, show_files: bool) -> (r: bool)
    ensures
        r == kept(kind, show_files),
{
    match kind {
        Kind::Directory => true,
        Kind::File => show_files,
        Kind::Other => false,
    }
}

/// The kept positions of a listing, in listing order.
fn kept_positions(entries: &Vec<Entry>, show_files: bool) -> (out: Vec<usize>)
    ensures
        positions_of(out@, entries@.len()),
        forall|p: int|
            0 <= p < out.len() ==> kept(entries[#[trigger] out[p] as int].kind, show_files),
        forall|p: int, q: int| 0 <= p < q < out.len() ==> out[p] < out[q],
        forall|i: int|
            0 <= i < entries.len() && kept(#[trigger] entries[i].kind, show_files)
                ==> out@.contains(i as usize),
{
    let mut out: Vec<usize> = Vec::new();
    let mut i: usize = 0;
    while i < entries.len()
        invariant
            i <= entries.len(),
            forall|p: int|
                0 <= p < out.len() ==> #[trigger] out[p] < i && kept(
                    entries[out[p] as int].kind,
                    show_files,
                ),
            forall|p: int, q: int| 0 <= p < q < out.len() ==> out[p] < out[q],
            forall|k: int|
                0 <= k < i && kept(#[trigger] entries[k].kind, show_files) ==> out@.contains(
                    k as usize,
                ),
        decreases entries.len() - i,
    {
        if is_kept(entries[i].kind, show_files) {
            let ghost before = out@;
            out.push(i);
            proof {
                assert(out[before.len() as int] == i);
                assert forall|k: int|
                    0 <= k < i + 1 && kept(
                        #[trigger] entries[k].kind,
                        show_files,
                    ) implies out@.contains(k as usize) by {
                    if k < i {
                        let p = choose|p: int| 0 <= p < before.len() && before[p] == k as usize;
                        assert(out[p] == k as usize);
                    }
                }
            }
        }
        i += 1;
    }
    out
}

/// Arranges a listing: the positions of the entries that are shown, in the
/// order in which they are shown.
pub fn arrange(entries: &Vec<Entry>, show_files: bool) -> (order: Vec<usize>)
    ensures
        as_ints(order@) == arrangement(entries.deep_view(), show_files),
        is_arrangement(entries.deep_view(), show_files, as_ints(order@)),
        forall|p: int| 0 <= p < order.len() ==> #[trigger] order[p] < entries.len(),
{
    let positions = kept_positions(entries, show_files);
    let order = sort_span(entries, &positions, 0, positions.len());
    proof {
        let model = entries.deep_view();
        let ints = as_ints(order@);
        let all = as_ints(positions@);
        assert forall|p: int| 0 <= p < ints.len() implies 0 <= #[trigger] ints[p] < model.len()
            && kept(model[ints[p]].kind, show_files) by {
            assert(ints.contains(ints[p]));
            let q = choose|q: int|
                0 <= q < positions.len() && 0 <= q < all.len() && #[trigger] all[q] == ints[p];
        }
        assert forall|i: int|
            0 <= i < model.len() && kept(#[trigger] model[i].kind, show_files) implies ints.contains(
                i,
            ) by {
            let q = choose|q: int| 0 <= q < positions.len() && positions[q] == i as usize;
            assert(i < entries.len());
            assert(all[q] == positions[q] as int);
        }
        assert(is_arrangement(model, show_files, ints));
        lemma_arrangement_is_unique(model, show_files, ints, arrangement(model, show_files));
    }
    order
}

} // verus!
