//! Laying items of given heights out in columns.
//!
//! The items are taken in the order in which they come. Each goes to the
//! column that is shortest so far, the leftmost of them where several are,
//! and makes that column taller by its height. This balances the columns as
//! it goes; it does not look for the best of all partitions.

use vstd::prelude::*;

verus! {

/// The leftmost of the shortest columns; 0 where there is no column.
pub open spec fn shortest_column(totals: Seq<int>) -> int
    decreases totals.len(),
{
    if totals.len() <= 1 {
        0
    } else {
        let best = shortest_column(totals.drop_last());
        if totals.last() < totals[best] {
            totals.len() - 1
        } else {
            best
        }
    }
}

/// The height of each of `k` columns after the first `count` items were placed.
pub open spec fn column_totals(heights: Seq<u32>, k: nat, count: nat) -> Seq<int>
    decreases count,
{
    if count == 0 {
        Seq::new(k, |i: int| 0int)
    } else {
        let before = column_totals(heights, k, (count - 1) as nat);
        let column = shortest_column(before);
        before.update(column, before[column] + heights[count - 1])
    }
}

/// The column that the item at `item` is placed in.
pub open spec fn assigned_column(heights: Seq<u32>, k: nat, item: int) -> int {
    shortest_column(column_totals(heights, k, item as nat))
}

/// The column of every item.
pub open spec fn layout_map(heights: Seq<u32>, k: nat) -> Seq<int> {
    Seq::new(heights.len(), |item: int| assigned_column(heights, k, item))
}

/// The greatest of the heights; 0 where there is none.
pub open spec fn tallest(totals: Seq<int>) -> int
    decreases totals.len(),
{
    if totals.len() == 0 {
        0
    } else if totals.last() > tallest(totals.drop_last()) {
        totals.last()
    } else {
        tallest(totals.drop_last())
    }
}

/// The height of the tallest column once all items are placed.
pub open spec fn h_max(heights: Seq<u32>, k: nat) -> int {
    tallest(column_totals(heights, k, heights.len()))
}

/// The sum of the first `count` heights.
pub open spec fn total_height(heights: Seq<u32>, count: nat) -> int
    decreases count,
{
    if count == 0 {
        0
    } else {
        total_height(heights, (count - 1) as nat) + heights[count - 1]
    }
}

/// The heights as numbers without a bound.
pub open spec fn as_ints(heights: Seq<u32>) -> Seq<int> {
    heights.map_values(|h: u32| h as int)
}

/// The columns as numbers without a bound.
pub open spec fn columns_of(layout: Seq<usize>) -> Seq<int> {
    layout.map_values(|column: usize| column as int)
}

/// The shortest column is a column, none is shorter, and none to its left is
/// as short.
pub proof fn lemma_shortest_column(totals: Seq<int>)
    requires
        totals.len() > 0,
    ensures
        0 <= shortest_column(totals) < totals.len(),
        forall|i: int|
            0 <= i < totals.len() ==> totals[shortest_column(totals)] <= #[trigger] totals[i],
        forall|i: int|
            0 <= i < shortest_column(totals) ==> totals[shortest_column(totals)]
                < #[trigger] totals[i],
    decreases totals.len(),
{
    if totals.len() > 1 {
        let rest = totals.drop_last();
        lemma_shortest_column(rest);
        let best = shortest_column(rest);
        assert(totals[best] == rest[best]);
        assert forall|i: int| 0 <= i < totals.len() implies totals[shortest_column(totals)]
            <= #[trigger] totals[i] by {
            if i < rest.len() {
                assert(rest[i] == totals[i]);
            }
        }
        assert forall|i: int| 0 <= i < shortest_column(totals) implies totals[shortest_column(
            totals,
        )] < #[trigger] totals[i] by {
            if i < rest.len() {
                assert(rest[i] == totals[i]);
            }
        }
    }
}

/// There are always `k` columns, none of negative height, and together they
/// are as tall as the items placed.
pub proof fn lemma_column_totals(heights: Seq<u32>, k: nat, count: nat)
    requires
        count <= heights.len(),
        k > 0,
    ensures
        column_totals(heights, k, count).len() == k,
        forall|i: int| 0 <= i < k ==> 0 <= #[trigger] column_totals(heights, k, count)[i] <= total_height(heights, count),
        0 <= total_height(heights, count),
    decreases count,
{
    if count > 0 {
        lemma_column_totals(heights, k, (count - 1) as nat);
        lemma_shortest_column(column_totals(heights, k, (count - 1) as nat));
    }
}

/// The tallest of some heights that are not negative is one of them, or 0
/// where there is none, and none is taller.
pub proof fn lemma_tallest(totals: Seq<int>)
    ensures
        tallest(totals) >= 0,
        forall|i: int| 0 <= i < totals.len() ==> #[trigger] totals[i] <= tallest(totals),
        tallest(totals) == 0 || exists|i: int| 0 <= i < totals.len() && totals[i] == tallest(totals),
    decreases totals.len(),
{
    if totals.len() > 0 {
        lemma_tallest(totals.drop_last());
        if totals.last() <= tallest(totals.drop_last()) && tallest(totals.drop_last()) != 0 {
            let i = choose|i: int|
                0 <= i < totals.drop_last().len() && totals.drop_last()[i] == tallest(
                    totals.drop_last(),
                );
            assert(totals[i] == tallest(totals));
        } else if totals.last() > tallest(totals.drop_last()) {
            assert(totals[totals.len() - 1] == tallest(totals));
        }
        assert forall|i: int| 0 <= i < totals.len() implies #[trigger] totals[i] <= tallest(
            totals,
        ) by {
            if i < totals.len() - 1 {
                assert(totals.drop_last()[i] == totals[i]);
            }
        }
    }
}

/// A number that bounds all heights from above, and is one of them or 0, is
/// their tallest.
pub proof fn lemma_tallest_is(totals: Seq<int>, top: int)
    requires
        forall|i: int| 0 <= i < totals.len() ==> #[trigger] totals[i] <= top,
        top == 0 || exists|i: int| 0 <= i < totals.len() && totals[i] == top,
        top >= 0,
    ensures
        tallest(totals) == top,
{
    lemma_tallest(totals);
    if top != 0 {
        let i = choose|i: int| 0 <= i < totals.len() && totals[i] == top;
        assert(totals[i] <= tallest(totals));
    }
    if tallest(totals) != 0 {
        let i = choose|i: int| 0 <= i < totals.len() && totals[i] == tallest(totals);
        assert(totals[i] <= top);
    }
}

/// With a single column, every item lands in column 0 and the column is as
/// tall as all items together.
pub proof fn lemma_single_column(heights: Seq<u32>)
    ensures
        forall|item: int| 0 <= item < heights.len() ==> #[trigger] layout_map(heights, 1)[item] == 0,
        h_max(heights, 1) == total_height(heights, heights.len()),
{
    lemma_single_column_totals(heights, heights.len());
    lemma_column_totals(heights, 1, heights.len());
    let totals = column_totals(heights, 1, heights.len());
    assert(totals.drop_last().len() == 0);
    assert(tallest(totals.drop_last()) == 0);
    assert forall|item: int| 0 <= item < heights.len() implies #[trigger] layout_map(
        heights,
        1,
    )[item] == 0 by {
        lemma_column_totals(heights, 1, item as nat);
    }
}

/// The single column is as tall as the items placed in it.
proof fn lemma_single_column_totals(heights: Seq<u32>, count: nat)
    requires
        count <= heights.len(),
    ensures
        column_totals(heights, 1, count) == seq![total_height(heights, count)],
    decreases count,
{
    if count > 0 {
        lemma_single_column_totals(heights, (count - 1) as nat);
    }
    assert(column_totals(heights, 1, count) =~= seq![total_height(heights, count)]);
}

/// The number of columns that hold something.
pub open spec fn filled_columns(totals: Seq<int>) -> nat
    decreases totals.len(),
{
    if totals.len() == 0 {
        0
    } else {
        filled_columns(totals.drop_last()) + if totals.last() != 0 {
            1nat
        } else {
            0nat
        }
    }
}

/// Where fewer columns are filled than there are, one is empty.
proof fn lemma_empty_column_exists(totals: Seq<int>)
    requires
        filled_columns(totals) < totals.len(),
    ensures
        exists|i: int| 0 <= i < totals.len() && totals[i] == 0,
    decreases totals.len(),
{
    if totals.last() == 0 {
        assert(totals[totals.len() - 1] == 0);
    } else {
        lemma_empty_column_exists(totals.drop_last());
        let i = choose|i: int| 0 <= i < totals.drop_last().len() && totals.drop_last()[i] == 0;
        assert(totals[i] == 0);
    }
}

/// Filling one column fills at most one column more.
proof fn lemma_filling_one(totals: Seq<int>, column: int, height: int)
    requires
        0 <= column < totals.len(),
    ensures
        filled_columns(totals.update(column, height)) <= filled_columns(totals) + 1,
    decreases totals.len(),
{
    if column < totals.len() - 1 {
        lemma_filling_one(totals.drop_last(), column, height);
        assert(totals.update(column, height).drop_last() =~= totals.drop_last().update(
            column,
            height,
        ));
    } else {
        assert(totals.update(column, height).drop_last() =~= totals.drop_last());
    }
}

/// With at least as many columns as items, each item finds an empty column:
/// after `count` items, at most `count` columns are filled, and the tallest
/// column is as tall as the tallest item placed.
proof fn lemma_columns_to_spare(heights: Seq<u32>, k: nat, count: nat)
    requires
        count <= heights.len() <= k,
    ensures
        filled_columns(column_totals(heights, k, count)) <= count,
        tallest(column_totals(heights, k, count)) == tallest(as_ints(heights.take(count as int))),
    decreases count,
{
    if count == 0 {
        lemma_tallest_is(column_totals(heights, k, 0), 0);
        lemma_no_column_filled(k);
        assert(as_ints(heights.take(0)) =~= Seq::<int>::empty());
    } else {
        let before = column_totals(heights, k, (count - 1) as nat);
        let after = column_totals(heights, k, count);
        let column = shortest_column(before);
        let height = heights[count - 1] as int;
        lemma_columns_to_spare(heights, k, (count - 1) as nat);
        lemma_column_totals(heights, k, (count - 1) as nat);
        lemma_shortest_column(before);
        lemma_empty_column_exists(before);
        assert(before[column] == 0);
        lemma_filling_one(before, column, height);
        // The tallest column: the tallest before, or the new item.
        let placed = as_ints(heights.take(count as int));
        assert(placed.drop_last() =~= as_ints(heights.take(count - 1)));
        assert(placed.last() == height);
        lemma_tallest(before);
        let top = tallest(placed);
        assert forall|i: int| 0 <= i < after.len() implies #[trigger] after[i] <= top by {
            if i != column {
                assert(after[i] == before[i]);
            }
        }
        if top != 0 {
            if top == height {
                assert(after[column] == top);
            } else {
                let i = choose|i: int| 0 <= i < before.len() && before[i] == tallest(before);
                assert(after[i] == top);
            }
        }
        lemma_tallest_is(after, top);
    }
}

/// Before the first item, no column is filled.
proof fn lemma_no_column_filled(k: nat)
    ensures
        filled_columns(Seq::new(k, |i: int| 0int)) == 0,
    decreases k,
{
    if k > 0 {
        assert(Seq::new(k, |i: int| 0int).drop_last() =~= Seq::new(
            (k - 1) as nat,
            |i: int| 0int,
        ));
        lemma_no_column_filled((k - 1) as nat);
    }
}

/// With at least as many columns as items, the tallest column is as tall as
/// the tallest item.
pub proof fn lemma_columns_for_all(heights: Seq<u32>, k: nat)
    requires
        heights.len() <= k,
    ensures
        h_max(heights, k) == tallest(as_ints(heights)),
{
    lemma_columns_to_spare(heights, k, heights.len());
    assert(heights.take(heights.len() as int) =~= heights);
}

/// With at least as many columns as items, and no item without height, each
/// item gets a column of its own: the item at `item` stands in column `item`.
pub proof fn lemma_column_each(heights: Seq<u32>, k: nat)
    requires
        heights.len() <= k,
        forall|item: int| 0 <= item < heights.len() ==> #[trigger] heights[item] > 0,
    ensures
        forall|item: int| 0 <= item < heights.len() ==> #[trigger] layout_map(heights, k)[item] == item,
{
    assert forall|item: int| 0 <= item < heights.len() implies #[trigger] layout_map(
        heights,
        k,
    )[item] == item by {
        lemma_columns_in_turn(heights, k, item as nat);
        let totals = column_totals(heights, k, item as nat);
        lemma_shortest_column(totals);
        let column = shortest_column(totals);
        assert(totals[column] <= totals[item]);
    }
}

/// While each item gets a column of its own, the first columns hold the items
/// placed and the others are empty.
proof fn lemma_columns_in_turn(heights: Seq<u32>, k: nat, count: nat)
    requires
        count <= heights.len() <= k,
        forall|item: int| 0 <= item < heights.len() ==> #[trigger] heights[item] > 0,
    ensures
        column_totals(heights, k, count).len() == k,
        forall|i: int| 0 <= i < count ==> #[trigger] column_totals(heights, k, count)[i] == heights[i],
        forall|i: int| count <= i < k ==> #[trigger] column_totals(heights, k, count)[i] == 0,
    decreases count,
{
    if count > 0 {
        let before = column_totals(heights, k, (count - 1) as nat);
        lemma_columns_in_turn(heights, k, (count - 1) as nat);
        lemma_shortest_column(before);
        let column = shortest_column(before);
        assert(before[column] <= before[count - 1]);
        assert(column == count - 1);
    }
}

/// Columns behind the ones looked at do not change which is the shortest,
/// as long as none of them is shorter than the shortest of those.
proof fn lemma_shortest_with_spare(near: Seq<int>, totals: Seq<int>)
    requires
        0 < near.len() <= totals.len(),
        totals.take(near.len() as int) == near,
        forall|c: int|
            near.len() <= c < totals.len() ==> #[trigger] totals[c] >= near[shortest_column(near)],
    ensures
        shortest_column(totals) == shortest_column(near),
    decreases totals.len(),
{
    if totals.len() == near.len() {
        assert(totals =~= near);
    } else {
        let rest = totals.drop_last();
        assert(rest.take(near.len() as int) =~= near);
        assert forall|c: int| near.len() <= c < rest.len() implies #[trigger] rest[c]
            >= near[shortest_column(near)] by {
            assert(rest[c] == totals[c]);
        }
        lemma_shortest_with_spare(near, rest);
        lemma_shortest_column(near);
        assert(totals[shortest_column(near)] == near[shortest_column(near)]);
        assert(totals.last() == totals[totals.len() - 1]);
    }
}

/// Empty columns behind the ones looked at do not change which is the
/// tallest.
proof fn lemma_tallest_with_spare(near: Seq<int>, totals: Seq<int>)
    requires
        near.len() <= totals.len(),
        totals.take(near.len() as int) == near,
        forall|c: int| near.len() <= c < totals.len() ==> #[trigger] totals[c] == 0,
    ensures
        tallest(totals) == tallest(near),
{
    lemma_tallest(near);
    let top = tallest(near);
    assert forall|i: int| 0 <= i < totals.len() implies #[trigger] totals[i] <= top by {
        if i < near.len() {
            assert(totals[i] == near[i]);
        }
    }
    if top != 0 {
        let i = choose|i: int| 0 <= i < near.len() && near[i] == top;
        assert(totals[i] == top);
    }
    lemma_tallest_is(totals, top);
}

/// Items are no taller together than they could be at most.
pub proof fn lemma_total_height_bound(heights: Seq<u32>, count: nat)
    requires
        count <= heights.len(),
    ensures
        0 <= total_height(heights, count) <= count * 0xffff_ffff,
    decreases count,
{
    if count > 0 {
        lemma_total_height_bound(heights, (count - 1) as nat);
        assert(count * 0xffff_ffff == (count - 1) * 0xffff_ffff + 0xffff_ffff)
            by (nonlinear_arith);
    }
}

/// The heights of columns as numbers without a bound.
pub open spec fn heights_of(columns: Seq<u128>) -> Seq<int> {
    columns.map_values(|h: u128| h as int)
}

/// Places the items in `k` columns, each in the column that is shortest when
/// its turn comes, the leftmost of them where several are. Returns the height
/// of the tallest column and, for each item, the column it stands in.
pub fn calculate_layout_data(heights: &[u32], k: usize) -> (layout: (u128, Vec<usize>))
    requires
        k >= 1,
    ensures
        layout.0 == h_max(heights@, k as nat),
        columns_of(layout.1@) == layout_map(heights@, k as nat),
        layout.1@.len() == heights@.len(),
        forall|item: int| 0 <= item < heights@.len() ==> #[trigger] layout.1@[item] < k,
        // A single column holds every item and is as tall as all of them.
        k == 1 ==> layout.0 == total_height(heights@, heights@.len()) && forall|item: int|
            0 <= item < heights@.len() ==> #[trigger] layout.1@[item] == 0,
        // With a column for each item, the tallest column is the tallest item,
        // and items that have a height stand each in a column of their own.
        heights@.len() <= k ==> layout.0 == tallest(as_ints(heights@)),
        heights@.len() <= k && (forall|item: int|
            0 <= item < heights@.len() ==> #[trigger] heights@[item] > 0) ==> forall|item: int|
            0 <= item < heights@.len() ==> #[trigger] layout.1@[item] == item,
{
    // No item goes further right than there are items before it: columns
    // beyond the number of items stay empty and need not be kept.
    let columns: usize = if k < heights.len() {
        k
    } else {
        heights.len()
    };
    let mut current_column_heights: Vec<u128> = vec![0u128; columns];
    let mut layout_map_so_far: Vec<usize> = Vec::new();
    let mut item: usize = 0;
    proof {
        lemma_no_column_filled(columns as nat);
        assert(heights_of(current_column_heights@) =~= Seq::new(columns as nat, |i: int| 0int));
        assert(heights_of(current_column_heights@) =~= column_totals(heights@, k as nat, 0).take(
            columns as int,
        ));
        assert(columns_of(layout_map_so_far@) =~= layout_map(heights@, k as nat).take(0));
    }
    while item < heights.len()
        invariant
            k >= 1,
            item <= heights.len(),
            columns <= k,
            columns <= heights.len(),
            columns == k || columns == heights.len(),
            current_column_heights.len() == columns,
            column_totals(heights@, k as nat, item as nat).len() == k,
            heights_of(current_column_heights@) == column_totals(
                heights@,
                k as nat,
                item as nat,
            ).take(columns as int),
            forall|c: int|
                columns <= c < k ==> #[trigger] column_totals(heights@, k as nat, item as nat)[c]
                    == 0,
            filled_columns(heights_of(current_column_heights@)) <= item,
            columns_of(layout_map_so_far@) == layout_map(heights@, k as nat).take(item as int),
            layout_map_so_far@.len() == item,
            forall|placed: int| 0 <= placed < item ==> #[trigger] layout_map_so_far@[placed] < k,
        decreases heights.len() - item,
    {
        let ghost totals = column_totals(heights@, k as nat, item as nat);
        let ghost near = heights_of(current_column_heights@);
        // Find the leftmost of the shortest columns.
        let mut min_index: usize = 0;
        let mut i: usize = 1;
        assert(near.take(1).drop_last().len() == 0);
        while i < columns
            invariant
                1 <= i <= columns,
                min_index < i,
                current_column_heights.len() == columns,
                near == heights_of(current_column_heights@),
                min_index == shortest_column(near.take(i as int)),
            decreases columns - i,
        {
            assert(near.take(i + 1).drop_last() =~= near.take(i as int));
            if current_column_heights[i] < current_column_heights[min_index] {
                min_index = i;
            }
            i = i + 1;
        }
        proof {
            assert(near.take(columns as int) =~= near);
            lemma_shortest_column(near);
            if columns < k {
                // There are more columns than items: one of those kept is empty.
                lemma_empty_column_exists(near);
                let empty = choose|c: int| 0 <= c < near.len() && near[c] == 0;
                assert(near[shortest_column(near)] <= near[empty]);
            }
            lemma_shortest_with_spare(near, totals);
            lemma_column_totals(heights@, k as nat, item as nat);
            lemma_column_totals(heights@, k as nat, (item + 1) as nat);
            lemma_total_height_bound(heights@, item as nat);
            assert(near[min_index as int] == totals[min_index as int]);
            assert(item * 0xffff_ffff <= 0xffff_ffff_ffff_ffff * 0xffff_ffff) by (nonlinear_arith)
                requires
                    0 <= item <= 0xffff_ffff_ffff_ffff,
            ;
        }
        let taller = current_column_heights[min_index] + heights[item] as u128;
        current_column_heights.set(min_index, taller);
        let ghost placed = columns_of(layout_map_so_far@);
        layout_map_so_far.push(min_index);
        proof {
            let next = column_totals(heights@, k as nat, (item + 1) as nat);
            assert(next == totals.update(min_index as int, totals[min_index as int] + heights@[item as int]));
            assert(heights_of(current_column_heights@) =~= near.update(
                min_index as int,
                taller as int,
            ));
            assert(heights_of(current_column_heights@) =~= next.take(columns as int));
            lemma_filling_one(near, min_index as int, taller as int);
            assert(layout_map(heights@, k as nat)[item as int] == min_index);
            assert(columns_of(layout_map_so_far@) =~= placed.push(min_index as int));
            assert(layout_map(heights@, k as nat).take(item + 1) =~= layout_map(
                heights@,
                k as nat,
            ).take(item as int).push(min_index as int));
        }
        item = item + 1;
    }
    assert(layout_map(heights@, k as nat).take(item as int) =~= layout_map(heights@, k as nat));
    let ghost near = heights_of(current_column_heights@);
    let mut best: u128 = 0;
    let mut column: usize = 0;
    while column < columns
        invariant
            column <= columns,
            current_column_heights.len() == columns,
            near == heights_of(current_column_heights@),
            best == tallest(near.take(column as int)),
        decreases columns - column,
    {
        assert(near.take(column + 1).drop_last() =~= near.take(column as int));
        if current_column_heights[column] > best {
            best = current_column_heights[column];
        }
        column = column + 1;
    }
    proof {
        assert(near.take(columns as int) =~= near);
        lemma_tallest_with_spare(near, column_totals(heights@, k as nat, heights@.len()));
        if k == 1 {
            lemma_single_column(heights@);
        }
        if heights@.len() <= k {
            lemma_columns_for_all(heights@, k as nat);
            if forall|item: int| 0 <= item < heights@.len() ==> #[trigger] heights@[item] > 0 {
                lemma_column_each(heights@, k as nat);
            }
        }
        assert forall|item: int| 0 <= item < heights@.len() implies columns_of(
            layout_map_so_far@,
        )[item] == #[trigger] layout_map_so_far@[item] by {}
    }
    (best, layout_map_so_far)
}

/// A scale factor, as a fraction of two whole numbers. The denominator is
/// never zero.
#[derive(Clone, Copy, Debug)]
pub struct Scale {
    numerator: u32,
    denominator: u32,
}

/// The whole pixels of a length brought to scale: the scaled length is cut
/// off, not rounded, and a coordinate beyond the largest 32-bit number is
/// that number.
pub open spec fn scaled_pixels(length: int, numerator: int, denominator: int) -> u32 {
    let scaled = (length * numerator) / denominator;
    if scaled > u32::MAX {
        u32::MAX
    } else {
        scaled as u32
    }
}

/// The height of what stands in `column` among the first `count` items.
pub open spec fn column_offset(heights: Seq<u32>, layout: Seq<int>, column: int, count: nat) -> int
    decreases count,
{
    if count == 0 {
        0
    } else {
        column_offset(heights, layout, column, (count - 1) as nat) + if layout[count - 1]
            == column {
            heights[count - 1] as int
        } else {
            0
        }
    }
}

/// The upper left corner of the item at `item`, in pixels: as far right as the
/// columns before its own are wide, and as far down as the items above it in
/// its column are tall, both brought to scale. The heights above an item are
/// added up as they are and scaled as one sum, so that no column drifts
/// against another by the pixels cut off.
pub open spec fn word_coordinate(
    word_width: u32,
    heights: Seq<u32>,
    numerator: int,
    denominator: int,
    layout: Seq<int>,
    item: int,
) -> (u32, u32) {
    (
        scaled_pixels(layout[item] * word_width, numerator, denominator),
        scaled_pixels(
            column_offset(heights, layout, layout[item], item as nat),
            numerator,
            denominator,
        ),
    )
}

/// A column is no taller than its items could be at most.
proof fn lemma_column_offset_bound(heights: Seq<u32>, layout: Seq<int>, column: int, count: nat)
    requires
        count <= heights.len(),
    ensures
        0 <= column_offset(heights, layout, column, count) <= count * 0xffff_ffff,
    decreases count,
{
    if count > 0 {
        lemma_column_offset_bound(heights, layout, column, (count - 1) as nat);
        assert(count * 0xffff_ffff == (count - 1) * 0xffff_ffff + 0xffff_ffff)
            by (nonlinear_arith);
    }
}

impl Scale {
    #[verifier::type_invariant]
    spec fn is_fraction(self) -> bool {
        self.denominator > 0
    }

    /// What the scale multiplies by.
    pub closed spec fn numerator(self) -> int {
        self.numerator as int
    }

    /// What the scale divides by.
    pub closed spec fn denominator(self) -> int {
        self.denominator as int
    }

    /// The scale `numerator / denominator`; none where the denominator is zero.
    pub fn new(numerator: u32, denominator: u32) -> (scale: Option<Scale>)
        ensures
            scale is Some <==> denominator > 0,
            scale matches Some(s) ==> s.numerator() == numerator && s.denominator() == denominator,
    {
        if denominator > 0 {
            Some(Scale { numerator, denominator })
        } else {
            None
        }
    }

    /// The whole pixels of a length brought to this scale.
    fn pixels(&self, length: u128) -> (pixels: u32)
        requires
            length <= 0xffff_ffff_ffff_ffff * 0xffff_ffff,
        ensures
            pixels == scaled_pixels(length as int, self.numerator(), self.denominator()),
    {
        proof {
            use_type_invariant(self);
        }
        assert(0 <= length * self.numerator <= 0xffff_ffff_ffff_ffff * 0xffff_ffff * 0xffff_ffff)
            by (nonlinear_arith)
            requires
                0 <= length <= 0xffff_ffff_ffff_ffff * 0xffff_ffff,
                0 <= self.numerator <= 0xffff_ffff,
        ;
        let scaled: u128 = (length * (self.numerator as u128)) / (self.denominator as u128);
        if scaled > u32::MAX as u128 {
            u32::MAX
        } else {
            scaled as u32
        }
    }
}

/// The upper left corner of each item, in pixels, for items of one width laid
/// out in columns as `final_layout_map` says, at the scale `s`.
pub fn get_word_coordinates(
    word_width: u32,
    word_heights: &[u32],
    s: &Scale,
    k: usize,
    final_layout_map: &[usize],
) -> (scaled_coords: Vec<(u32, u32)>)
    requires
        word_heights@.len() <= final_layout_map@.len(),
        forall|item: int| 0 <= item < word_heights@.len() ==> #[trigger] final_layout_map@[item] < k,
        16 * k <= isize::MAX,
    ensures
        scaled_coords@.len() == word_heights@.len(),
        forall|item: int|
            0 <= item < word_heights@.len() ==> #[trigger] scaled_coords@[item] == word_coordinate(
                word_width,
                word_heights@,
                s.numerator(),
                s.denominator(),
                columns_of(final_layout_map@),
                item,
            ),
{
    let ghost layout = columns_of(final_layout_map@);
    let mut column_offsets: Vec<u128> = vec![0u128; k];
    let mut scaled_coords: Vec<(u32, u32)> = Vec::new();
    let mut i: usize = 0;
    while i < word_heights.len()
        invariant
            i <= word_heights@.len() <= final_layout_map@.len(),
            layout == columns_of(final_layout_map@),
            forall|item: int|
                0 <= item < word_heights@.len() ==> #[trigger] final_layout_map@[item] < k,
            column_offsets.len() == k,
            forall|column: int|
                0 <= column < k ==> #[trigger] column_offsets@[column] == column_offset(
                    word_heights@,
                    layout,
                    column,
                    i as nat,
                ),
            scaled_coords@.len() == i,
            forall|item: int|
                0 <= item < i ==> #[trigger] scaled_coords@[item] == word_coordinate(
                    word_width,
                    word_heights@,
                    s.numerator(),
                    s.denominator(),
                    layout,
                    item,
                ),
        decreases word_heights.len() - i,
    {
        let h = word_heights[i];
        let column_index = final_layout_map[i];
        assert(layout[i as int] == column_index);
        assert(0 <= column_index * word_width <= 0xffff_ffff_ffff_ffff * 0xffff_ffff)
            by (nonlinear_arith)
            requires
                0 <= column_index <= 0xffff_ffff_ffff_ffff,
                0 <= word_width <= 0xffff_ffff,
        ;
        proof {
            lemma_column_offset_bound(word_heights@, layout, column_index as int, i as nat);
            lemma_column_offset_bound(word_heights@, layout, column_index as int, (i + 1) as nat);
            assert(i * 0xffff_ffff <= 0xffff_ffff_ffff_ffff * 0xffff_ffff && (i + 1) * 0xffff_ffff
                <= 0xffff_ffff_ffff_ffff * 0xffff_ffff) by (nonlinear_arith)
                requires
                    0 <= i < 0xffff_ffff_ffff_ffff,
            ;
        }
        let x = s.pixels((column_index as u128) * (word_width as u128));
        let y = s.pixels(column_offsets[column_index]);
        scaled_coords.push((x, y));
        let lower = column_offsets[column_index] + h as u128;
        column_offsets.set(column_index, lower);
        i = i + 1;
    }
    scaled_coords
}

} // verus!
