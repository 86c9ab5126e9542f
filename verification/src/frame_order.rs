//! Frames in the order of their numbers.
//!
//! The frames of a character are drawn by rising frame number. Two frames of
//! one number keep the order in which the archive lists them.

use vstd::prelude::*;

verus! {

/// Where an entry numbered `index` goes into `ordered`: behind the last entry
/// whose number is not greater.
pub open spec fn insertion_point<T>(ordered: Seq<(u32, T)>, index: u32) -> int
    decreases ordered.len(),
{
    if ordered.len() == 0 {
        0
    } else if ordered.last().0 <= index {
        ordered.len() as int
    } else {
        insertion_point(ordered.drop_last(), index)
    }
}

/// The numbered entries by rising number: each entry in turn goes behind the
/// entries already placed whose number is not greater than its own.
pub open spec fn index_ordered<T>(entries: Seq<(u32, T)>) -> Seq<(u32, T)>
    decreases entries.len(),
{
    if entries.len() == 0 {
        Seq::empty()
    } else {
        let placed = index_ordered(entries.drop_last());
        placed.insert(insertion_point(placed, entries.last().0), entries.last())
    }
}

/// The numbers never fall from one entry to the next.
pub open spec fn is_index_sorted<T>(entries: Seq<(u32, T)>) -> bool {
    forall|i: int, j: int| 0 <= i <= j < entries.len() ==> entries[i].0 <= entries[j].0
}

/// The entries of one number, in the order in which they stand.
pub open spec fn with_index<T>(entries: Seq<(u32, T)>, index: u32) -> Seq<(u32, T)> {
    entries.filter(|entry: (u32, T)| entry.0 == index)
}

/// The entries without their numbers.
pub open spec fn payloads<T>(entries: Seq<(u32, T)>) -> Seq<T> {
    entries.map_values(|entry: (u32, T)| entry.1)
}

/// The insertion point lies within the sequence, behind an entry that is not
/// greater and before all that are.
pub proof fn lemma_insertion_point<T>(ordered: Seq<(u32, T)>, index: u32)
    ensures
        0 <= insertion_point(ordered, index) <= ordered.len(),
        forall|i: int|
            insertion_point(ordered, index) <= i < ordered.len() ==> (#[trigger] ordered[i]).0
                > index,
        insertion_point(ordered, index) > 0 ==> ordered[insertion_point(ordered, index) - 1].0
            <= index,
    decreases ordered.len(),
{
    if ordered.len() > 0 && ordered.last().0 > index {
        let rest = ordered.drop_last();
        lemma_insertion_point(rest, index);
        assert forall|i: int| insertion_point(ordered, index) <= i < ordered.len() implies (
        #[trigger] ordered[i]).0 > index by {
            if i < rest.len() {
                assert(ordered[i] == rest[i]);
            }
        }
    }
}

/// Placing an entry at its insertion point keeps a sorted sequence sorted,
/// and changes the entries of no other number.
proof fn lemma_insert_in_order<T>(ordered: Seq<(u32, T)>, entry: (u32, T))
    requires
        is_index_sorted(ordered),
    ensures
        is_index_sorted(ordered.insert(insertion_point(ordered, entry.0), entry)),
        forall|index: u32|
            #[trigger] with_index(ordered.insert(insertion_point(ordered, entry.0), entry), index)
                == with_index(ordered.push(entry), index),
{
    broadcast use Seq::filter_distributes_over_add;

    let at = insertion_point(ordered, entry.0);
    let placed = ordered.insert(at, entry);
    let before = ordered.subrange(0, at);
    let behind = ordered.subrange(at, ordered.len() as int);
    lemma_insertion_point(ordered, entry.0);
    ordered.insert_ensures(at, entry);
    assert(is_index_sorted(placed)) by {
        assert forall|i: int, j: int| 0 <= i <= j < placed.len() implies placed[i].0
            <= placed[j].0 by {
            if i < at && j > at {
                assert(placed[j] == ordered[j - 1]);
            } else if i < at && j == at {
                assert(ordered[i].0 <= ordered[at - 1].0);
            } else if i == at && j > at {
                assert(placed[j] == ordered[j - 1]);
            } else if i > at {
                assert(placed[i] == ordered[i - 1]);
                assert(placed[j] == ordered[j - 1]);
            }
        }
    }
    assert(ordered =~= before + behind);
    assert(ordered.push(entry) =~= before + behind + seq![entry]);
    assert(placed =~= before + seq![entry] + behind);
    assert forall|index: u32| #[trigger]
        with_index(placed, index) == with_index(ordered.push(entry), index) by {
        let wanted = |e: (u32, T)| e.0 == index;
        assert(seq![entry].filter(wanted) =~= if index == entry.0 {
            seq![entry]
        } else {
            Seq::empty()
        }) by {
            reveal_with_fuel(Seq::filter, 2);
        }
        if index == entry.0 {
            assert(behind.filter(wanted).len() == 0) by {
                if behind.filter(wanted).len() > 0 {
                    behind.lemma_filter_pred(wanted, 0);
                    behind.lemma_filter_contains_rev(wanted, behind.filter(wanted)[0]);
                    let i = choose|i: int|
                        0 <= i < behind.len() && behind[i] == behind.filter(wanted)[0];
                    assert(behind[i] == ordered[at + i]);
                }
            }
            assert(behind.filter(wanted) =~= Seq::empty());
            assert(placed.filter(wanted) =~= before.filter(wanted) + seq![entry]);
            assert(ordered.push(entry).filter(wanted) =~= before.filter(wanted) + seq![entry]);
        } else {
            assert(placed.filter(wanted) =~= before.filter(wanted) + behind.filter(wanted));
            assert(ordered.push(entry).filter(wanted) =~= before.filter(wanted) + behind.filter(
                wanted,
            ));
        }
    }
}

/// Placing entries by frame number sorts them, and stably: the result holds the
/// same entries, their numbers never fall, and the entries of any one number
/// stand in the order in which they came.
pub proof fn lemma_index_order_is_stable<T>(entries: Seq<(u32, T)>)
    ensures
        index_ordered(entries).len() == entries.len(),
        is_index_sorted(index_ordered(entries)),
        forall|index: u32| #[trigger]
            with_index(index_ordered(entries), index) == with_index(entries, index),
    decreases entries.len(),
{
    broadcast use Seq::filter_distributes_over_add;

    if entries.len() > 0 {
        let rest = entries.drop_last();
        let placed = index_ordered(rest);
        lemma_index_order_is_stable(rest);
        lemma_insertion_point(placed, entries.last().0);
        lemma_insert_in_order(placed, entries.last());
        assert(entries =~= rest.push(entries.last()));
        assert forall|index: u32| #[trigger]
            with_index(index_ordered(entries), index) == with_index(entries, index) by {
            let wanted = |e: (u32, T)| e.0 == index;
            assert(with_index(index_ordered(entries), index) == with_index(
                placed.push(entries.last()),
                index,
            ));
            assert(with_index(placed, index) == with_index(rest, index));
            assert(placed.push(entries.last()) =~= placed + seq![entries.last()]);
            assert(rest.push(entries.last()) =~= rest + seq![entries.last()]);
            assert((placed + seq![entries.last()]).filter(wanted) == placed.filter(wanted) + seq![
                entries.last(),
            ].filter(wanted));
            assert((rest + seq![entries.last()]).filter(wanted) == rest.filter(wanted) + seq![
                entries.last(),
            ].filter(wanted));
        }
    } else {
        assert(index_ordered(entries) =~= entries);
    }
}

/// Places one entry among entries that stand by rising number.
pub fn insert_in_index_order<T>(ordered: &mut Vec<(u32, T)>, index: u32, item: T)
    ensures
        final(ordered)@ == old(ordered)@.insert(
            insertion_point(old(ordered)@, index),
            (index, item),
        ),
{
    let mut at: usize = ordered.len();
    assert(ordered@.take(at as int) =~= ordered@);
    while at > 0 && ordered[at - 1].0 > index
        invariant
            at <= ordered.len(),
            ordered@ == old(ordered)@,
            insertion_point(ordered@, index) == insertion_point(ordered@.take(at as int), index),
        decreases at,
    {
        assert(ordered@.take(at as int).drop_last() =~= ordered@.take(at - 1));
        at = at - 1;
    }
    ordered.insert(at, (index, item));
}

/// Orders numbered entries by rising number, entries of one number staying in
/// the order in which they came, and hands them back without the numbers.
pub fn sort_by_index<T>(entries: Vec<(u32, T)>) -> (ordered: Vec<T>)
    ensures
        ordered@ == payloads(index_ordered(entries@)),
{
    let ghost all = entries@;
    let mut placed: Vec<(u32, T)> = Vec::new();
    for entry in it: entries
        invariant
            it.seq() == all,
            placed@ == index_ordered(all.take(it.index() as int)),
    {
        assert(all.take(it.index() + 1).drop_last() =~= all.take(it.index() as int));
        insert_in_index_order(&mut placed, entry.0, entry.1);
    }
    assert(all.take(all.len() as int) =~= all);
    strip_indices(placed)
}

/// Drops the numbers of the entries.
pub fn strip_indices<T>(entries: Vec<(u32, T)>) -> (items: Vec<T>)
    ensures
        items@ == payloads(entries@),
{
    let ghost all = entries@;
    let mut items: Vec<T> = Vec::new();
    for entry in it: entries
        invariant
            it.seq() == all,
            items@ == payloads(all.take(it.index() as int)),
    {
        assert(payloads(all.take(it.index() + 1)) =~= payloads(all.take(it.index() as int)).push(
            entry.1,
        ));
        items.push(entry.1);
    }
    assert(all.take(all.len() as int) =~= all);
    items
}

} // verus!
