//! Sorting positions of a listing by merging.

use crate::arrange::{as_ints, ascending, comes_before, lemma_comes_before_strict_total};
use crate::entry::{Entry, EntryModel};
use crate::order::{compare_entries, Precedence};
use vstd::prelude::*;

verus! {

/// `x` stands in `s` at some index from `lo` up to, not including, `hi`.
pub(crate) open spec fn holds_within(s: Seq<int>, lo: int, hi: int, x: int) -> bool {
    exists|p: int| lo <= p < hi && 0 <= p < s.len() && #[trigger] s[p] == x
}

/// The state of merging two ascending runs that share no position: `out`
/// is ascending, holds what has been taken from `left` below `i` and from
/// `right` below `j`, and all of it comes before what is still to take.
pub(crate) open spec fn merging(
    entries: Seq<EntryModel>,
    left: Seq<int>,
    right: Seq<int>,
    out: Seq<int>,
    i: int,
    j: int,
) -> bool {
    &&& 0 <= i <= left.len()
    &&& 0 <= j <= right.len()
    &&& ascending(entries, left)
    &&& ascending(entries, right)
    &&& ascending(entries, out)
    &&& forall|p: int, q: int|
        0 <= p < left.len() && 0 <= q < right.len() ==> #[trigger] left[p] != #[trigger] right[q]
    &&& forall|x: int|
        out.contains(x) <==> holds_within(left, 0, i, x) || holds_within(right, 0, j, x)
    &&& forall|p: int, q: int|
        0 <= p < out.len() && i <= q < left.len() ==> comes_before(
            entries,
            #[trigger] out[p],
            #[trigger] left[q],
        )
    &&& forall|p: int, q: int|
        0 <= p < out.len() && j <= q < right.len() ==> comes_before(
            entries,
            #[trigger] out[p],
            #[trigger] right[q],
        )
}

/// Merging `left` with `right` is merging `right` with `left`.
proof fn lemma_merging_is_symmetric(
    entries: Seq<EntryModel>,
    left: Seq<int>,
    right: Seq<int>,
    out: Seq<int>,
    i: int,
    j: int,
)
    requires
        merging(entries, left, right, out, i, j),
    ensures
        merging(entries, right, left, out, j, i),
{
}

/// One step of a merge: the next position of `left` may be taken when
/// `right` is used up or its next position comes later.
proof fn lemma_merge_step(
    entries: Seq<EntryModel>,
    left: Seq<int>,
    right: Seq<int>,
    out: Seq<int>,
    i: int,
    j: int,
)
    requires
        merging(entries, left, right, out, i, j),
        i < left.len(),
        j == right.len() || comes_before(entries, left[i], right[j]),
    ensures
        merging(entries, left, right, out.push(left[i]), i + 1, j),
{
    let x = left[i];
    let next = out.push(x);
    assert forall|q: int| j <= q < right.len() implies comes_before(
        entries,
        x,
        #[trigger] right[q],
    ) by {
        if q > j {
            lemma_comes_before_strict_total(entries, x, right[j], right[q]);
        }
    }
    // `next` is `out` with `x` at its end, and all of `out` comes before `x`.
    assert(ascending(entries, next));
    assert forall|y: int|
        next.contains(y) <==> holds_within(left, 0, i + 1, y) || holds_within(right, 0, j, y) by {
        if next.contains(y) {
            let p = choose|p: int| 0 <= p < next.len() && next[p] == y;
            assert(p < out.len() ==> out.contains(y));
        }
        if holds_within(left, 0, i + 1, y) {
            let p = choose|p: int| 0 <= p < i + 1 && 0 <= p < left.len() && #[trigger] left[p] == y;
            assert(p < i ==> holds_within(left, 0, i, y));
            assert(p == i ==> next[out.len() as int] == y);
        }
        if out.contains(y) {
            let p = choose|p: int| 0 <= p < out.len() && out[p] == y;
            assert(next[p] == y);
        }
    }
}

/// One step of a merge, for the other side: the next position of `right`
/// is taken when that of `left` may not be.
proof fn lemma_merge_step_right(
    entries: Seq<EntryModel>,
    left: Seq<int>,
    right: Seq<int>,
    out: Seq<int>,
    i: int,
    j: int,
)
    requires
        merging(entries, left, right, out, i, j),
        j < right.len(),
        i == left.len() || !comes_before(entries, left[i], right[j]),
    ensures
        merging(entries, left, right, out.push(right[j]), i, j + 1),
{
    if i < left.len() {
        lemma_comes_before_strict_total(entries, left[i], right[j], left[i]);
    }
    lemma_merging_is_symmetric(entries, left, right, out, i, j);
    lemma_merge_step(entries, right, left, out, j, i);
    lemma_merging_is_symmetric(entries, right, left, out.push(right[j]), j + 1, i);
}

/// Carries a merge to its end.
pub(crate) proof fn lemma_merge_to_end(
    entries: Seq<EntryModel>,
    left: Seq<int>,
    right: Seq<int>,
    out: Seq<int>,
    i: int,
    j: int,
) -> (merged: Seq<int>)
    requires
        merging(entries, left, right, out, i, j),
    ensures
        merging(entries, left, right, merged, left.len() as int, right.len() as int),
    decreases left.len() - i + right.len() - j,
{
    if i < left.len() && (j == right.len() || comes_before(entries, left[i], right[j])) {
        lemma_merge_step(entries, left, right, out, i, j);
        lemma_merge_to_end(entries, left, right, out.push(left[i]), i + 1, j)
    } else if j < right.len() {
        lemma_merge_step_right(entries, left, right, out, i, j);
        lemma_merge_to_end(entries, left, right, out.push(right[j]), i, j + 1)
    } else {
        out
    }
}

/// Whether position `i` of the listing comes before position `j`.
fn position_comes_before(entries: &Vec<Entry>, i: usize, j: usize) -> (r: bool)
    requires
        i < entries.len(),
        j < entries.len(),
    ensures
        r == comes_before(entries.deep_view(), i as int, j as int),
{
    match compare_entries(&entries[i], &entries[j]) {
        Precedence::Before => true,
        Precedence::After => false,
        Precedence::Tied => i < j,
    }
}

/// Every index in `items` is a position of a listing of `count` entries.
pub(crate) open spec fn positions_of(items: Seq<usize>, count: nat) -> bool {
    forall|p: int| 0 <= p < items.len() ==> #[trigger] items[p] < count
}

/// Merges two ascending runs of positions that share no position.
fn merge_runs(entries: &Vec<Entry>, left: &Vec<usize>, right: &Vec<usize>) -> (out: Vec<usize>)
    requires
        positions_of(left@, entries@.len()),
        positions_of(right@, entries@.len()),
        merging(entries.deep_view(), as_ints(left@), as_ints(right@), Seq::empty(), 0, 0),
    ensures
        positions_of(out@, entries@.len()),
        merging(
            entries.deep_view(),
            as_ints(left@),
            as_ints(right@),
            as_ints(out@),
            left.len() as int,
            right.len() as int,
        ),
{
    let ghost model = entries.deep_view();
    let mut out: Vec<usize> = Vec::new();
    let mut i: usize = 0;
    let mut j: usize = 0;
    while i < left.len() || j < right.len()
        invariant
            model == entries.deep_view(),
            positions_of(left@, entries@.len()),
            positions_of(right@, entries@.len()),
            positions_of(out@, entries@.len()),
            merging(model, as_ints(left@), as_ints(right@), as_ints(out@), i as int, j as int),
        decreases (left.len() - i) + (right.len() - j),
    {
        let ghost taken = as_ints(out@);
        let take_left = if i == left.len() {
            false
        } else if j == right.len() {
            true
        } else {
            position_comes_before(entries, left[i], right[j])
        };
        if take_left {
            proof {
                lemma_merge_step(model, as_ints(left@), as_ints(right@), taken, i as int, j as int);
            }
            out.push(left[i]);
            i += 1;
        } else {
            proof {
                lemma_merge_step_right(
                    model,
                    as_ints(left@),
                    as_ints(right@),
                    taken,
                    i as int,
                    j as int,
                );
            }
            out.push(right[j]);
            j += 1;
        }
        assert(as_ints(out@) =~= taken.push(out[out.len() - 1] as int));
    }
    out
}

/// Sorts the positions `items[lo..hi]` into ascending order by merging.
pub(crate) fn sort_span(
    entries: &Vec<Entry>,
    items: &Vec<usize>,
    lo: usize,
    hi: usize,
) -> (out: Vec<usize>)
    requires
        lo <= hi <= items.len(),
        positions_of(items@, entries@.len()),
        forall|p: int, q: int| lo <= p < q < hi ==> items[p] != items[q],
    ensures
        positions_of(out@, entries@.len()),
        ascending(entries.deep_view(), as_ints(out@)),
        forall|x: int|
            as_ints(out@).contains(x) <==> holds_within(as_ints(items@), lo as int, hi as int, x),
    decreases hi - lo,
{
    let ghost model = entries.deep_view();
    let ghost all = as_ints(items@);
    if hi - lo == 0 {
        Vec::new()
    } else if hi - lo == 1 {
        let mut out: Vec<usize> = Vec::new();
        out.push(items[lo]);
        proof {
            assert(as_ints(out@)[0] == all[lo as int]);
        }
        out
    } else {
        let mid: usize = lo + (hi - lo) / 2;
        let left = sort_span(entries, items, lo, mid);
        let right = sort_span(entries, items, mid, hi);
        proof {
            let l = as_ints(left@);
            let r = as_ints(right@);
            assert forall|p: int, q: int| 0 <= p < l.len() && 0 <= q < r.len() implies #[trigger] l[p]
                != #[trigger] r[q] by {
                // One stands in the lower half of the span, the other in
                // the upper half, and the span holds no position twice.
                assert(l.contains(l[p]));
                assert(r.contains(r[q]));
            }
        }
        let out = merge_runs(entries, &left, &right);
        proof {
            let l = as_ints(left@);
            let r = as_ints(right@);
            assert forall|x: int|
                as_ints(out@).contains(x) <==> holds_within(all, lo as int, hi as int, x) by {
                // The span holds what its two halves hold, and the sorted
                // halves hold the same.
                assert(holds_within(l, 0, l.len() as int, x) <==> l.contains(x));
                assert(holds_within(r, 0, r.len() as int, x) <==> r.contains(x));
                assert(holds_within(all, lo as int, hi as int, x) <==> holds_within(
                    all,
                    lo as int,
                    mid as int,
                    x,
                ) || holds_within(all, mid as int, hi as int, x));
            }
        }
        out
    }
}

} // verus!
