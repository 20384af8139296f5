//! Which rows of a long listing are folded away.
use core::ops::Range;
use vstd::prelude::*;

verus! {

/// Whether `anchor` lies in a listing of `total_rows` rows and at most `context` rows from `row`.
pub open spec fn shows(anchor: int, total_rows: int, context: int, row: int) -> bool {
    anchor < total_rows && anchor - context <= row <= anchor + context
}

/// Whether some anchor shows `row`.
pub open spec fn is_visible(total_rows: int, anchors: Seq<usize>, context: int, row: int) -> bool {
    exists|k: int|
        0 <= k < anchors.len() && #[trigger] shows(anchors[k] as int, total_rows, context, row)
}

/// Whether `row` is in the range.
pub open spec fn holds(range: Range<usize>, row: int) -> bool {
    range.start <= row < range.end
}

/// Whether the ranges are the longest runs of rows of the listing that no anchor shows, in order.
pub open spec fn are_hidden_runs(
    hidden: Seq<Range<usize>>,
    total_rows: int,
    anchors: Seq<usize>,
    context: int,
) -> bool {
    // No range is empty or leaves the listing.
    &&& forall|i: int|
        0 <= i < hidden.len() ==> (#[trigger] hidden[i]).start < hidden[i].end
            && hidden[i].end <= total_rows
    // A row of the listing is in one of the ranges just where no anchor shows it.
    &&& forall|row: int|
        0 <= row < total_rows ==> (#[trigger] is_visible(total_rows, anchors, context, row) <==> !(
        exists|i: int| 0 <= i < hidden.len() && #[trigger] holds(hidden[i], row)))
    // A shown row stands between each two of them.
    &&& forall|i: int, j: int|
        0 <= i < j < hidden.len() ==> (#[trigger] hidden[i]).end < (#[trigger] hidden[j]).start
}

/// The runs of rows that are folded away when each anchor shows itself and `context` rows on either
/// side; an anchor beyond the listing shows nothing.
pub fn calculate_hidden_lines(total_rows: usize, anchors: &[usize], context: usize) -> (r: Vec<
    Range<usize>,
>)
    requires
        forall|k: int|
            0 <= k < anchors@.len() && anchors@[k] < total_rows ==> #[trigger] anchors@[k] + context
                + 1 <= usize::MAX,
    ensures
        are_hidden_runs(r@, total_rows as int, anchors@, context as int),
{
    let mut visible: Vec<bool> = vec![false; total_rows];
    let mut k: usize = 0;
    while k < anchors.len()
        invariant
            k <= anchors@.len(),
            visible@.len() == total_rows,
            forall|k: int|
                0 <= k < anchors@.len() && anchors@[k] < total_rows ==> #[trigger] anchors@[k]
                    + context + 1 <= usize::MAX,
            forall|row: int|
                0 <= row < total_rows ==> (#[trigger] visible@[row] <==> is_visible(
                    total_rows as int,
                    anchors@.take(k as int),
                    context as int,
                    row,
                )),
        decreases anchors@.len() - k,
    {
        let anchor: usize = anchors[k];
        let ghost before = visible@;
        let ghost shown = anchors@.take(k as int);
        if anchor < total_rows {
            let lo: usize = anchor.saturating_sub(context);
            let end: usize = anchor + context + 1;
            let hi: usize = if end < total_rows {
                end
            } else {
                total_rows
            };
            let mut row: usize = lo;
            while row < hi
                invariant
                    lo <= row <= hi <= total_rows,
                    visible@.len() == total_rows == before.len(),
                    forall|i: int|
                        0 <= i < total_rows ==> #[trigger] visible@[i] == (before[i] || lo <= i
                            < row),
                decreases hi - row,
            {
                visible.set(row, true);
                row += 1;
            }
        }
        assert forall|row: int| 0 <= row < total_rows implies (#[trigger] visible@[row]
            <==> is_visible(
            total_rows as int,
            anchors@.take(k + 1),
            context as int,
            row,
        )) by {
            let next = anchors@.take(k + 1);
            assert(next[k as int] == anchor);
            assert(before[row] <==> is_visible(total_rows as int, shown, context as int, row));
            if before[row] {
                let w = choose|w: int|
                    0 <= w < shown.len() && #[trigger] shows(
                        shown[w] as int,
                        total_rows as int,
                        context as int,
                        row,
                    );
                assert(shows(next[w] as int, total_rows as int, context as int, row));
            }
            if is_visible(total_rows as int, next, context as int, row) {
                let w = choose|w: int|
                    0 <= w < next.len() && #[trigger] shows(
                        next[w] as int,
                        total_rows as int,
                        context as int,
                        row,
                    );
                if w < k {
                    assert(shows(shown[w] as int, total_rows as int, context as int, row));
                }
            }
            if shows(anchor as int, total_rows as int, context as int, row) {
                assert(shows(next[k as int] as int, total_rows as int, context as int, row));
            }
        }
        k += 1;
    }
    assert(anchors@.take(k as int) == anchors@);
    let mut hidden: Vec<Range<usize>> = Vec::new();
    let mut run_start: Option<usize> = None;
    let mut idx: usize = 0;
    while idx < visible.len()
        invariant
            idx <= visible@.len() == total_rows,
            run_start matches Some(s) ==> s < idx && forall|row: int|
                s <= row < idx ==> !#[trigger] visible@[row],
            forall|i: int|
                0 <= i < hidden@.len() ==> (#[trigger] hidden@[i]).start < hidden@[i].end
                    && hidden@[i].end < total_rows && visible@[hidden@[i].end as int]
                    && hidden@[i].end <= idx && (run_start matches Some(s) ==> hidden@[i].end < s),
            run_start is None && hidden@.len() > 0 ==> hidden@[hidden@.len() - 1].end <= idx,
            forall|i: int, j: int|
                0 <= i < j < hidden@.len() ==> (#[trigger] hidden@[i]).end
                    < (#[trigger] hidden@[j]).start,
            forall|i: int, row: int|
                0 <= i < hidden@.len() && #[trigger] holds(hidden@[i], row) ==> !visible@[row],
            forall|row: int|
                0 <= row < idx && !#[trigger] visible@[row] ==> (run_start matches Some(s) && s
                    <= row) || exists|i: int| 0 <= i < hidden@.len() && #[trigger] holds(
                    hidden@[i],
                    row,
                ),
        decreases visible@.len() - idx,
    {
        let ghost before = hidden@;
        if visible[idx] {
            if let Some(start) = run_start {
                hidden.push(start..idx);
                assert(hidden@[before.len() as int] == (start..idx));
                assert forall|row: int| 0 <= row < idx + 1 && !#[trigger] visible@[row] implies exists|
                    i: int,
                | 0 <= i < hidden@.len() && #[trigger] holds(hidden@[i], row) by {
                    if start <= row {
                        assert(holds(hidden@[before.len() as int], row));
                    } else {
                        let i = choose|i: int| 0 <= i < before.len() && #[trigger] holds(before[i], row);
                        assert(holds(hidden@[i], row));
                    }
                }
                assert forall|i: int, row: int| 0 <= i < hidden@.len() && #[trigger] holds(
                    hidden@[i],
                    row,
                ) implies !visible@[row] by {
                    if i < before.len() {
                        assert(holds(before[i], row));
                    }
                }
                run_start = None;
            }
        } else if run_start.is_none() {
            run_start = Some(idx);
        }
        idx += 1;
    }
    let ghost before = hidden@;
    if let Some(start) = run_start {
        hidden.push(start..total_rows);
        assert(hidden@[before.len() as int] == (start..total_rows));
    }
    assert forall|row: int| 0 <= row < total_rows implies (#[trigger] is_visible(
        total_rows as int,
        anchors@,
        context as int,
        row,
    ) <==> !(exists|i: int| 0 <= i < hidden@.len() && #[trigger] holds(hidden@[i], row))) by {
        assert(visible@[row] <==> is_visible(total_rows as int, anchors@, context as int, row));
        if !visible@[row] {
            if run_start matches Some(s) && s <= row {
                assert(holds(hidden@[before.len() as int], row));
            } else {
                let i = choose|i: int| 0 <= i < before.len() && #[trigger] holds(before[i], row);
                assert(holds(hidden@[i], row));
            }
        } else if exists|i: int| 0 <= i < hidden@.len() && #[trigger] holds(hidden@[i], row) {
            let i = choose|i: int| 0 <= i < hidden@.len() && #[trigger] holds(hidden@[i], row);
            if i < before.len() {
                assert(holds(before[i], row));
            }
        }
    }
    hidden
}

/// A row is shown just where it is at most as far from an anchor of the listing as the context reaches.
pub proof fn rows_near_anchors_are_shown(
    total_rows: int,
    anchors: Seq<usize>,
    context: int,
    row: int,
)
    ensures
        is_visible(total_rows, anchors, context, row) <==> exists|a: usize| #[trigger]
            anchors.contains(a) && a < total_rows && (if row <= a {
                a - row
            } else {
                row - a
            }) <= context,
{
    if is_visible(total_rows, anchors, context, row) {
        let k = choose|k: int|
            0 <= k < anchors.len() && #[trigger] shows(anchors[k] as int, total_rows, context, row);
        assert(anchors.contains(anchors[k]));
    }
    if exists|a: usize| #[trigger]
        anchors.contains(a) && a < total_rows && (if row <= a {
            a - row
        } else {
            row - a
        }) <= context {
        let a = choose|a: usize| #[trigger]
            anchors.contains(a) && a < total_rows && (if row <= a {
                a - row
            } else {
                row - a
            }) <= context;
        let k = choose|k: int| 0 <= k < anchors.len() && anchors[k] == a;
        assert(shows(anchors[k] as int, total_rows, context, row));
    }
}

/// The rows that are hidden are those that are too far from every anchor, and each run of them reaches
/// as far as it can: a shown row or an end of the listing stands on either side.
pub proof fn hidden_runs_are_whole(
    hidden: Seq<Range<usize>>,
    total_rows: int,
    anchors: Seq<usize>,
    context: int,
    i: int,
    row: int,
)
    requires
        are_hidden_runs(hidden, total_rows, anchors, context),
        0 <= i < hidden.len(),
    ensures
        hidden[i].start < hidden[i].end <= total_rows,
        hidden[i].start <= row < hidden[i].end ==> !is_visible(total_rows, anchors, context, row),
        hidden[i].start > 0 ==> is_visible(total_rows, anchors, context, hidden[i].start - 1),
        hidden[i].end < total_rows ==> is_visible(
            total_rows,
            anchors,
            context,
            hidden[i].end as int,
        ),
{
    assert(hidden[i].start < hidden[i].end);
    assert(hidden[i].end <= total_rows);
    if hidden[i].start <= row < hidden[i].end {
        assert(holds(hidden[i], row));
    }
    if hidden[i].start > 0 {
        let r = hidden[i].start - 1;
        assert forall|j: int| 0 <= j < hidden.len() implies !#[trigger] holds(hidden[j], r) by {
            if j < i {
                assert(hidden[j].end < hidden[i].start);
            } else if j > i {
                assert(hidden[i].end < hidden[j].start);
            }
        }
        assert(is_visible(total_rows, anchors, context, r));
    }
    if hidden[i].end < total_rows {
        let r = hidden[i].end as int;
        assert forall|j: int| 0 <= j < hidden.len() implies !#[trigger] holds(hidden[j], r) by {
            if j < i {
                assert(hidden[j].end < hidden[i].start);
            } else if j > i {
                assert(hidden[i].end < hidden[j].start);
            }
        }
        assert(is_visible(total_rows, anchors, context, r));
    }
}

/// Every row of the listing that is too far from all anchors is in one of the runs.
pub proof fn rows_far_from_anchors_are_hidden(
    hidden: Seq<Range<usize>>,
    total_rows: int,
    anchors: Seq<usize>,
    context: int,
    row: int,
)
    requires
        are_hidden_runs(hidden, total_rows, anchors, context),
        0 <= row < total_rows,
        forall|a: usize| #[trigger]
            anchors.contains(a) && a < total_rows ==> row < a - context || row > a + context,
    ensures
        exists|i: int|
            0 <= i < hidden.len() && (#[trigger] hidden[i]).start <= row && row < hidden[i].end,
{
    rows_near_anchors_are_shown(total_rows, anchors, context, row);
    assert(!is_visible(total_rows, anchors, context, row));
    let i = choose|i: int| 0 <= i < hidden.len() && #[trigger] holds(hidden[i], row);
    assert(hidden[i].start <= row < hidden[i].end);
}

} // verus!
