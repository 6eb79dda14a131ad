//! Merging per-glyph index ranges into contiguous draw batches.
//!
//! An index range is a pair `(first, last)`: the positions `first..last` of
//! the shared index buffer. Ranges arrive in slot order. Neighbours of which
//! the second starts exactly where the first ends are joined, so that the whole
//! atlas is drawn with as few batches as the order of the slots allows.

use vstd::prelude::*;

verus! {

/// No range ends before it starts.
pub open spec fn ordered(ranges: Seq<(usize, usize)>) -> bool {
    forall|i: int| 0 <= i < ranges.len() ==> (#[trigger] ranges[i]).0 <= ranges[i].1
}

/// The ranges after joining every neighbour that starts where its
/// predecessor ends.
pub open spec fn merged(ranges: Seq<(usize, usize)>) -> Seq<(usize, usize)>
    decreases ranges.len(),
{
    if ranges.len() == 0 {
        Seq::empty()
    } else {
        let head = merged(ranges.drop_last());
        let next = ranges.last();
        if head.len() > 0 && head.last().1 == next.0 {
            head.drop_last().push((head.last().0, next.1))
        } else {
            head.push(next)
        }
    }
}

/// The ranges after `i` and before it touch: the later one starts exactly
/// where the earlier one ends.
pub open spec fn touches(ranges: Seq<(usize, usize)>, i: int) -> bool {
    ranges[i - 1].1 == ranges[i].0
}

/// The two lists describe the ranges: one entry each per range, its start and
/// the number of positions it holds.
pub open spec fn describes(
    start_indices: Seq<usize>,
    counts: Seq<usize>,
    ranges: Seq<(usize, usize)>,
) -> bool {
    &&& start_indices.len() == ranges.len()
    &&& counts.len() == ranges.len()
    &&& forall|i: int|
        0 <= i < ranges.len() ==> start_indices[i] == (#[trigger] ranges[i]).0 && counts[i]
            == ranges[i].1 - ranges[i].0
}

/// The positions that the ranges name, in the order in which they name them.
pub open spec fn positions(ranges: Seq<(usize, usize)>) -> Seq<int>
    decreases ranges.len(),
{
    if ranges.len() == 0 {
        Seq::empty()
    } else {
        positions(ranges.drop_last()) + span(ranges.last())
    }
}

/// The positions `first..last` of one range.
pub open spec fn span(range: (usize, usize)) -> Seq<int> {
    Seq::new((range.1 - range.0) as nat, |k: int| range.0 + k)
}

/// `cuts` divides `ranges` into consecutive non-empty groups, and inside a
/// group every range touches the one before it. Group `j` holds the ranges
/// `cuts[j]..cuts[j + 1]`.
pub open spec fn divides_into_runs(ranges: Seq<(usize, usize)>, cuts: Seq<int>) -> bool {
    &&& cuts.len() >= 1
    &&& cuts[0] == 0
    &&& cuts.last() == ranges.len()
    &&& forall|i: int, j: int| 0 <= i < j < cuts.len() ==> cuts[i] < cuts[j]
    &&& forall|i: int|
        0 < i < ranges.len() && !cuts.contains(i) ==> #[trigger] touches(ranges, i)
}

/// One range per group: from the start of the group's first range to the end
/// of its last.
pub open spec fn runs(ranges: Seq<(usize, usize)>, cuts: Seq<int>) -> Seq<(usize, usize)> {
    Seq::new(
        (cuts.len() - 1) as nat,
        |j: int| (ranges[cuts[j]].0, ranges[cuts[j + 1] - 1].1),
    )
}

/// The cuts that `merged` makes: before the first range, after the last, and
/// between two neighbours exactly where they do not touch.
pub open spec fn merge_cuts(ranges: Seq<(usize, usize)>) -> Seq<int>
    decreases ranges.len(),
{
    if ranges.len() == 0 {
        seq![0int]
    } else {
        let head = merge_cuts(ranges.drop_last());
        let n = ranges.len() as int;
        if n >= 2 && touches(ranges, n - 1) {
            head.drop_last().push(n)
        } else {
            head.push(n)
        }
    }
}

/// The index range of the glyph in `slot`, read from a table that holds where
/// each slot's indices start: the range runs up to the start of the next
/// slot, and for the last slot of the table up to the end of the index buffer.
pub open spec fn range_of_slot(starts: Seq<u32>, index_count: usize, slot: int) -> (usize, usize) {
    (
        starts[slot] as usize,
        if slot + 1 < starts.len() {
            starts[slot + 1] as usize
        } else {
            index_count
        },
    )
}

/// The index ranges of all slots of a table of starts.
pub open spec fn ranges_of_table(starts: Seq<u32>, index_count: usize) -> Seq<(usize, usize)> {
    Seq::new(starts.len(), |slot: int| range_of_slot(starts, index_count, slot))
}

/// The ranges of a table of starts touch one another. Where the starts do not
/// decrease and the last lies within the index buffer, no range ends before it
/// starts, and any number of leading slots is drawn by a single batch.
pub proof fn lemma_table_ranges(starts: Seq<u32>, index_count: usize, count: int)
    requires
        0 < count <= starts.len(),
        forall|i: int, j: int| 0 <= i <= j < starts.len() ==> starts[i] <= starts[j],
        starts.last() <= index_count,
    ensures
        ordered(ranges_of_table(starts, index_count)),
        merged(ranges_of_table(starts, index_count).take(count)) == seq![
            (
                starts[0] as usize,
                range_of_slot(starts, index_count, count - 1).1,
            ),
        ],
{
    let ranges = ranges_of_table(starts, index_count);
    let leading = ranges.take(count);
    assert forall|i: int| 0 <= i < ranges.len() implies (#[trigger] ranges[i]).0 <= ranges[i].1 by {
        if i + 1 < starts.len() {
            assert(starts[i] <= starts[i + 1]);
        } else {
            assert(starts[i] == starts.last());
        }
    }
    assert forall|i: int| 0 < i < leading.len() implies #[trigger] touches(leading, i) by {
        assert(leading[i - 1] == ranges[i - 1]);
        assert(leading[i] == ranges[i]);
    }
    lemma_merged_chain(leading);
}

/// Merging never yields more ranges than it was given, and yields none only
/// for none. The result starts where the first range starts and ends where the
/// last one ends.
pub proof fn lemma_merged_ends(ranges: Seq<(usize, usize)>)
    ensures
        merged(ranges).len() <= ranges.len(),
        ranges.len() > 0 ==> merged(ranges).len() > 0,
        ranges.len() > 0 ==> merged(ranges)[0].0 == ranges[0].0,
        ranges.len() > 0 ==> merged(ranges).last().1 == ranges.last().1,
    decreases ranges.len(),
{
    if ranges.len() > 0 {
        let front = ranges.drop_last();
        lemma_merged_ends(front);
        if front.len() > 0 {
            assert(front[0] == ranges[0]);
        }
    }
}

/// Dropping the last of ordered ranges leaves ordered ranges.
proof fn lemma_front_ordered(ranges: Seq<(usize, usize)>)
    requires
        ordered(ranges),
        ranges.len() > 0,
    ensures
        ordered(ranges.drop_last()),
        ranges.last().0 <= ranges.last().1,
{
    let front = ranges.drop_last();
    assert forall|i: int| 0 <= i < front.len() implies (#[trigger] front[i]).0 <= front[i].1 by {
        assert(front[i] == ranges[i]);
    }
}

/// Merging ranges that do not end before they start yields such ranges.
pub proof fn lemma_merged_ordered(ranges: Seq<(usize, usize)>)
    requires
        ordered(ranges),
    ensures
        ordered(merged(ranges)),
    decreases ranges.len(),
{
    if ranges.len() > 0 {
        let front = ranges.drop_last();
        lemma_front_ordered(ranges);
        lemma_merged_ordered(front);
        let head = merged(front);
        if head.len() > 0 {
            assert(head.last().0 <= head.last().1);
        }
    }
}

/// No merged range touches the one before it: nothing is left that could
/// still be joined.
pub proof fn lemma_merged_separated(ranges: Seq<(usize, usize)>)
    ensures
        forall|i: int| 0 < i < merged(ranges).len() ==> !#[trigger] touches(merged(ranges), i),
    decreases ranges.len(),
{
    if ranges.len() > 0 {
        let front = ranges.drop_last();
        lemma_merged_separated(front);
        let head = merged(front);
        let whole = merged(ranges);
        assert forall|i: int| 0 < i < whole.len() implies !#[trigger] touches(whole, i) by {
            if i < head.len() - 1 {
                assert(!touches(head, i));
                assert(whole[i] == head[i]);
                assert(whole[i - 1] == head[i - 1]);
            } else if i == head.len() - 1 {
                assert(!touches(head, i));
                assert(whole[i - 1] == head[i - 1]);
                assert(whole[i].0 == head[i].0);
            } else {
                assert(whole[i - 1] == head[i - 1]);
            }
        }
    }
}

/// The merged ranges name the same positions in the same order as the ranges
/// they were merged from.
pub proof fn lemma_merged_positions(ranges: Seq<(usize, usize)>)
    requires
        ordered(ranges),
    ensures
        positions(merged(ranges)) == positions(ranges),
    decreases ranges.len(),
{
    if ranges.len() > 0 {
        let front = ranges.drop_last();
        lemma_front_ordered(ranges);
        lemma_merged_positions(front);
        lemma_merged_ordered(front);
        let head = merged(front);
        let next = ranges.last();
        if head.len() > 0 && head.last().1 == next.0 {
            let open = head.last();
            let joined = (open.0, next.1);
            let result = head.drop_last().push(joined);
            assert(open.0 <= open.1);
            assert(result.drop_last() == head.drop_last());
            assert(span(joined) == span(open) + span(next));
            assert(positions(result) == positions(head.drop_last()) + span(joined));
            assert(positions(head) == positions(head.drop_last()) + span(open));
        } else {
            assert(head.push(next).drop_last() == head);
        }
    }
}

/// The cuts that `merged` makes divide the ranges into runs, one run for each
/// merged range.
pub proof fn lemma_merged_runs(ranges: Seq<(usize, usize)>)
    ensures
        divides_into_runs(ranges, merge_cuts(ranges)),
        merged(ranges) == runs(ranges, merge_cuts(ranges)),
    decreases ranges.len(),
{
    let cuts = merge_cuts(ranges);
    if ranges.len() == 0 {
        assert(merged(ranges) == runs(ranges, cuts));
    } else {
        let front = ranges.drop_last();
        let n = ranges.len() as int;
        lemma_merged_runs(front);
        lemma_merged_ends(front);
        let head_cuts = merge_cuts(front);
        let head = merged(front);
        let k = head_cuts.len() as int;
        assert(head == runs(front, head_cuts));
        assert(head_cuts[k - 1] == n - 1);
        if n >= 2 {
            assert(front.last() == ranges[n - 2]);
            assert(k >= 2) by {
                if k < 2 {
                    assert(head_cuts[0] == 0);
                }
            }
        }
        if n >= 2 && touches(ranges, n - 1) {
            assert(cuts == head_cuts.drop_last().push(n));
            assert(cuts.len() == k);
            assert forall|i: int, j: int| 0 <= i < j < cuts.len() implies cuts[i] < cuts[j] by {
                if j < k - 1 {
                    assert(head_cuts[i] < head_cuts[j]);
                } else {
                    assert(head_cuts[i] < head_cuts[k - 1]);
                }
            }
            assert forall|i: int| 0 < i < ranges.len() && !cuts.contains(i) implies #[trigger] touches(
                ranges,
                i,
            ) by {
                if i < n - 1 {
                    if head_cuts.contains(i) {
                        let j = choose|j: int| 0 <= j < head_cuts.len() && head_cuts[j] == i;
                        assert(j != k - 1);
                        assert(cuts[j] == i);
                    }
                    assert(touches(front, i));
                    assert(front[i - 1] == ranges[i - 1]);
                    assert(front[i] == ranges[i]);
                }
            }
            assert(merged(ranges) =~= runs(ranges, cuts)) by {
                assert forall|j: int| 0 <= j < k - 1 implies merged(ranges)[j] == runs(
                    ranges,
                    cuts,
                )[j] by {
                    assert(head[j] == runs(front, head_cuts)[j]);
                    assert(head_cuts[j] < head_cuts[k - 1]);
                    if j < k - 2 {
                        assert(head_cuts[j + 1] < head_cuts[k - 1]);
                        assert(cuts[j + 1] == head_cuts[j + 1]);
                    }
                }
            }
        } else {
            assert(cuts == head_cuts.push(n));
            assert(cuts.len() == k + 1);
            assert forall|i: int, j: int| 0 <= i < j < cuts.len() implies cuts[i] < cuts[j] by {
                if j < k {
                    assert(head_cuts[i] < head_cuts[j]);
                } else if i < k - 1 {
                    assert(head_cuts[i] < head_cuts[k - 1]);
                }
            }
            assert(cuts[k - 1] == n - 1);
            assert forall|i: int| 0 < i < ranges.len() && !cuts.contains(i) implies #[trigger] touches(
                ranges,
                i,
            ) by {
                assert(i != n - 1);
                if head_cuts.contains(i) {
                    let j = choose|j: int| 0 <= j < head_cuts.len() && head_cuts[j] == i;
                    assert(cuts[j] == i);
                }
                assert(touches(front, i));
                assert(front[i - 1] == ranges[i - 1]);
                assert(front[i] == ranges[i]);
            }
            assert(merged(ranges) == head.push(ranges.last()));
            assert(merged(ranges) =~= runs(ranges, cuts)) by {
                assert forall|j: int| 0 <= j < k implies merged(ranges)[j] == runs(ranges, cuts)[j] by {
                    if j < k - 1 {
                        assert(head[j] == runs(front, head_cuts)[j]);
                        assert(head_cuts[j] < head_cuts[k - 1]);
                        if j + 1 < k - 1 {
                            assert(head_cuts[j + 1] < head_cuts[k - 1]);
                        }
                    }
                }
            }
        }
    }
}

/// However the ranges are divided into runs, there are at least as many runs
/// as merged ranges: merging yields the fewest batches that keep the order.
pub proof fn lemma_merged_fewest(ranges: Seq<(usize, usize)>, cuts: Seq<int>)
    requires
        divides_into_runs(ranges, cuts),
    ensures
        merged(ranges).len() <= runs(ranges, cuts).len(),
    decreases ranges.len(),
{
    if ranges.len() > 0 {
        let front = ranges.drop_last();
        let n = ranges.len() as int;
        let k = cuts.len() as int;
        assert(k >= 2) by {
            if k < 2 {
                assert(cuts[0] == 0);
            }
        }
        assert(cuts[k - 2] < cuts[k - 1]);
        lemma_merged_ends(front);
        if cuts[k - 2] == n - 1 {
            let fewer = cuts.drop_last();
            assert(divides_into_runs(front, fewer)) by {
                assert forall|i: int, j: int| 0 <= i < j < fewer.len() implies fewer[i]
                    < fewer[j] by {
                    assert(cuts[i] < cuts[j]);
                }
                assert forall|i: int| 0 < i < front.len() && !fewer.contains(i) implies #[trigger] touches(
                    front,
                    i,
                ) by {
                    if cuts.contains(i) {
                        let j = choose|j: int| 0 <= j < cuts.len() && cuts[j] == i;
                        assert(j != k - 1);
                        assert(fewer[j] == i);
                    }
                    assert(touches(ranges, i));
                    assert(front[i - 1] == ranges[i - 1]);
                    assert(front[i] == ranges[i]);
                }
            }
            lemma_merged_fewest(front, fewer);
        } else {
            let shorter = cuts.drop_last().push(n - 1);
            assert(!cuts.contains(n - 1)) by {
                if cuts.contains(n - 1) {
                    let j = choose|j: int| 0 <= j < cuts.len() && cuts[j] == n - 1;
                    if j < k - 2 {
                        assert(cuts[j] < cuts[k - 2]);
                    } else if j > k - 2 {
                        assert(j == k - 1);
                    }
                }
            }
            assert(touches(ranges, n - 1));
            assert(n >= 2) by {
                assert(cuts[0] <= cuts[k - 2]) by {
                    if 0 < k - 2 {
                        assert(cuts[0] < cuts[k - 2]);
                    }
                }
            }
            assert(front.last() == ranges[n - 2]);
            assert(divides_into_runs(front, shorter)) by {
                assert forall|i: int, j: int| 0 <= i < j < shorter.len() implies shorter[i]
                    < shorter[j] by {
                    if j < k - 1 {
                        assert(cuts[i] < cuts[j]);
                    } else if i < k - 2 {
                        assert(cuts[i] < cuts[k - 2]);
                    }
                }
                assert forall|i: int| 0 < i < front.len() && !shorter.contains(i) implies #[trigger] touches(
                    front,
                    i,
                ) by {
                    if cuts.contains(i) {
                        let j = choose|j: int| 0 <= j < cuts.len() && cuts[j] == i;
                        assert(j != k - 1);
                        assert(shorter[j] == i);
                    }
                    assert(touches(ranges, i));
                    assert(front[i - 1] == ranges[i - 1]);
                    assert(front[i] == ranges[i]);
                }
            }
            lemma_merged_fewest(front, shorter);
            assert(merged(ranges).len() == merged(front).len());
        }
    }
}

/// Ranges that each touch the one before merge into one.
pub proof fn lemma_merged_chain(ranges: Seq<(usize, usize)>)
    requires
        ranges.len() > 0,
        forall|i: int| 0 < i < ranges.len() ==> #[trigger] touches(ranges, i),
    ensures
        merged(ranges) == seq![(ranges[0].0, ranges.last().1)],
    decreases ranges.len(),
{
    let front = ranges.drop_last();
    if front.len() > 0 {
        assert forall|i: int| 0 < i < front.len() implies #[trigger] touches(front, i) by {
            assert(touches(ranges, i));
            assert(front[i - 1] == ranges[i - 1]);
            assert(front[i] == ranges[i]);
        }
        lemma_merged_chain(front);
        assert(touches(ranges, ranges.len() - 1));
        assert(front.last() == ranges[ranges.len() - 2]);
        assert(front[0] == ranges[0]);
        assert(merged(ranges) =~= seq![(ranges[0].0, ranges.last().1)]);
    } else {
        assert(merged(front) =~= Seq::<(usize, usize)>::empty());
        assert(merged(ranges) =~= seq![(ranges[0].0, ranges.last().1)]);
    }
}

/// Lists that describe all ranges but the last describe all of them once the
/// last range's start and count are appended.
proof fn lemma_describes_push(
    start_indices: Seq<usize>,
    counts: Seq<usize>,
    ranges: Seq<(usize, usize)>,
)
    requires
        ranges.len() > 0,
        ranges.last().0 <= ranges.last().1,
        describes(start_indices, counts, ranges.drop_last()),
    ensures
        describes(
            start_indices.push(ranges.last().0),
            counts.push((ranges.last().1 - ranges.last().0) as usize),
            ranges,
        ),
{
    let front = ranges.drop_last();
    let starts = start_indices.push(ranges.last().0);
    let lens = counts.push((ranges.last().1 - ranges.last().0) as usize);
    assert forall|i: int| 0 <= i < ranges.len() implies starts[i] == (#[trigger] ranges[i]).0
        && lens[i] == ranges[i].1 - ranges[i].0 by {
        if i < front.len() {
            assert(front[i] == ranges[i]);
        }
    }
}

/// Reads the index range of every slot from a table that holds where each
/// slot's indices start; `index_count` is the length of the index buffer.
pub fn index_ranges(starts: &Vec<u32>, index_count: usize) -> (ranges: Vec<(usize, usize)>)
    ensures
        ranges@ == ranges_of_table(starts@, index_count),
{
    let mut ranges: Vec<(usize, usize)> = Vec::new();
    let mut slot: usize = 0;
    while slot < starts.len()
        invariant
            slot <= starts@.len(),
            ranges@.len() == slot,
            forall|k: int|
                0 <= k < slot ==> #[trigger] ranges@[k] == range_of_slot(starts@, index_count, k),
        decreases starts@.len() - slot,
    {
        let first_index = starts[slot] as usize;
        let last_index = if slot + 1 < starts.len() {
            starts[slot + 1] as usize
        } else {
            index_count
        };
        ranges.push((first_index, last_index));
        slot += 1;
    }
    assert(ranges@ =~= ranges_of_table(starts@, index_count));
    ranges
}

/// Whether no range ends before it starts.
pub fn ranges_ordered(ranges: &Vec<(usize, usize)>) -> (ok: bool)
    ensures
        ok == ordered(ranges@),
{
    let mut i: usize = 0;
    while i < ranges.len()
        invariant
            i <= ranges@.len(),
            forall|k: int| 0 <= k < i ==> (#[trigger] ranges@[k]).0 <= ranges@[k].1,
        decreases ranges@.len() - i,
    {
        let (first, last) = ranges[i];
        if first > last {
            return false;
        }
        i += 1;
    }
    true
}

/// Joins neighbouring ranges and returns the batches as two lists of equal
/// length: where each batch starts, and how many positions it holds.
pub fn merge_ranges(ranges: &Vec<(usize, usize)>) -> (batches: (Vec<usize>, Vec<usize>))
    requires
        ordered(ranges@),
    ensures
        describes(batches.0@, batches.1@, merged(ranges@)),
{
    let mut start_indices: Vec<usize> = Vec::new();
    let mut counts: Vec<usize> = Vec::new();
    let mut current_range: Option<(usize, usize)> = None;
    let mut i: usize = 0;
    while i < ranges.len()
        invariant
            i <= ranges@.len(),
            ordered(ranges@),
            current_range is None <==> i == 0,
            i == 0 ==> start_indices@.len() == 0 && counts@.len() == 0,
            current_range matches Some(open) ==> {
                let done = merged(ranges@.take(i as int));
                &&& done.len() > 0
                &&& open == done.last()
                &&& open.0 <= open.1
                &&& describes(start_indices@, counts@, done.drop_last())
            },
        decreases ranges@.len() - i,
    {
        let (first_index, last_index) = ranges[i];
        proof {
            assert(ranges@.take(i + 1).drop_last() == ranges@.take(i as int));
            assert(ranges@.take(i + 1).last() == ranges@[i as int]);
            if i == 0 {
                assert(merged(ranges@.take(0)).len() == 0);
            }
        }
        match current_range {
            Some((current_first, current_last)) => {
                if first_index == current_last {
                    current_range = Some((current_first, last_index));
                    proof {
                        let done = merged(ranges@.take(i as int));
                        let next = merged(ranges@.take(i + 1));
                        assert(next.drop_last() == done.drop_last());
                    }
                } else {
                    proof {
                        let done = merged(ranges@.take(i as int));
                        let next = merged(ranges@.take(i + 1));
                        assert(next.drop_last() == done);
                        lemma_describes_push(start_indices@, counts@, done);
                    }
                    counts.push(current_last - current_first);
                    start_indices.push(current_first);
                    current_range = Some((first_index, last_index));
                }
            },
            None => {
                current_range = Some((first_index, last_index));
                proof {
                    let next = merged(ranges@.take(i + 1));
                    assert(next.drop_last() == Seq::<(usize, usize)>::empty());
                    assert(next.last() == (first_index, last_index));
                }
            },
        }
        i += 1;
    }
    proof {
        assert(ranges@.take(i as int) == ranges@);
    }
    if let Some((current_first, current_last)) = current_range {
        proof {
            lemma_describes_push(start_indices@, counts@, merged(ranges@));
        }
        counts.push(current_last - current_first);
        start_indices.push(current_first);
    }
    (start_indices, counts)
}

} // verus!
