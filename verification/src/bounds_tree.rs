//! Draw orders from overlapping rectangles.
//!
//! A rectangle gets an order above that of every earlier rectangle it overlaps,
//! and no higher than that takes. What shares an order is therefore disjoint and
//! can be drawn in any sequence.
use vstd::prelude::*;

use crate::geometry::Bounds;

verus! {

/// A rectangle with the order it was given.
#[derive(Clone, Copy, Debug, PartialEq, Eq, Structural)]
pub struct OrderedBounds {
    pub bounds: Bounds,
    pub order: u32,
}

/// The rectangles inserted since the last `clear`, oldest first.
pub struct BoundsTree {
    pub entries: Vec<OrderedBounds>,
}

/// The greatest order among the entries that overlap `bounds`; zero where none
/// does.
pub open spec fn highest_overlap(entries: Seq<OrderedBounds>, bounds: Bounds) -> int
    decreases entries.len(),
{
    if entries.len() == 0 {
        0
    } else {
        let below = highest_overlap(entries.drop_last(), bounds);
        let entry = entries.last();
        if entry.bounds.overlaps(bounds) && entry.order > below {
            entry.order as int
        } else {
            below
        }
    }
}

/// The order that `bounds` gets after `entries`.
pub open spec fn next_order(entries: Seq<OrderedBounds>, bounds: Bounds) -> int {
    highest_overlap(entries, bounds) + 1
}

/// Whether every entry has the order that it gets after those before it.
pub open spec fn properly_ordered(entries: Seq<OrderedBounds>) -> bool {
    forall|i: int|
        0 <= i < entries.len() ==> (#[trigger] entries[i]).order as int == next_order(
            entries.take(i),
            entries[i].bounds,
        )
}

/// An order is never above the number of rectangles that have one.
pub proof fn orders_are_counted(entries: Seq<OrderedBounds>, bounds: Bounds)
    requires
        properly_ordered(entries),
    ensures
        0 <= highest_overlap(entries, bounds) <= entries.len(),
    decreases entries.len(),
{
    if entries.len() > 0 {
        let rest = entries.drop_last();
        prefix_stays_ordered(entries);
        orders_are_counted(rest, bounds);
        orders_are_counted(rest, entries.last().bounds);
        assert(entries.take(entries.len() - 1) =~= rest);
        assert(entries[entries.len() - 1].order as int == next_order(rest, entries.last().bounds));
    }
}

proof fn prefix_stays_ordered(entries: Seq<OrderedBounds>)
    requires
        properly_ordered(entries),
        entries.len() > 0,
    ensures
        properly_ordered(entries.drop_last()),
{
    let rest = entries.drop_last();
    assert forall|i: int| 0 <= i < rest.len() implies (#[trigger] rest[i]).order as int
        == next_order(rest.take(i), rest[i].bounds) by {
        assert(entries[i].order as int == next_order(entries.take(i), entries[i].bounds));
        assert(entries.take(i) =~= rest.take(i));
    }
}

/// No overlapping entry has an order above the highest.
pub proof fn overlap_bounds_the_highest(entries: Seq<OrderedBounds>, bounds: Bounds, i: int)
    requires
        0 <= i < entries.len(),
        entries[i].bounds.overlaps(bounds),
    ensures
        entries[i].order <= highest_overlap(entries, bounds),
    decreases entries.len(),
{
    if i < entries.len() - 1 {
        assert(entries.drop_last()[i] == entries[i]);
        overlap_bounds_the_highest(entries.drop_last(), bounds, i);
    }
}

/// A rectangle is ordered above every earlier rectangle that it overlaps.
pub proof fn later_overlap_is_drawn_later(entries: Seq<OrderedBounds>, i: int, j: int)
    requires
        properly_ordered(entries),
        0 <= i < j < entries.len(),
        entries[i].bounds.overlaps(entries[j].bounds),
    ensures
        entries[i].order < entries[j].order,
{
    let before = entries.take(j);
    assert(before[i] == entries[i]);
    overlap_bounds_the_highest(before, entries[j].bounds, i);
    assert(entries[j].order as int == next_order(before, entries[j].bounds));
}

/// Rectangles that share an order do not overlap.
pub proof fn same_order_is_disjoint(entries: Seq<OrderedBounds>, i: int, j: int)
    requires
        properly_ordered(entries),
        0 <= i < entries.len(),
        0 <= j < entries.len(),
        i != j,
        entries[i].order == entries[j].order,
    ensures
        !entries[i].bounds.overlaps(entries[j].bounds),
{
    if entries[i].bounds.overlaps(entries[j].bounds) {
        if i < j {
            later_overlap_is_drawn_later(entries, i, j);
        } else {
            later_overlap_is_drawn_later(entries, j, i);
        }
    }
}

impl BoundsTree {
    /// The entries, oldest first.
    pub open spec fn view(&self) -> Seq<OrderedBounds> {
        self.entries@
    }

    /// A tree without entries.
    pub fn new() -> (tree: BoundsTree)
        ensures
            tree@ == Seq::<OrderedBounds>::empty(),
    {
        BoundsTree { entries: Vec::new() }
    }

    /// Removes all entries.
    pub fn clear(&mut self)
        ensures
            final(self)@ == Seq::<OrderedBounds>::empty(),
    {
        self.entries.clear();
    }

    /// Enters a rectangle and returns its order: one above the highest order
    /// among the earlier rectangles that it overlaps.
    pub fn insert(&mut self, bounds: Bounds) -> (order: u32)
        requires
            properly_ordered(old(self)@),
            old(self)@.len() < u32::MAX,
        ensures
            order as int == next_order(old(self)@, bounds),
            final(self)@ == old(self)@.push(OrderedBounds { bounds, order }),
            properly_ordered(final(self)@),
    {
        let ghost before = self.entries@;
        let mut highest: u32 = 0;
        let mut i: usize = 0;
        while i < self.entries.len()
            invariant
                self.entries@ == before,
                0 <= i <= before.len(),
                highest as int == highest_overlap(before.take(i as int), bounds),
            decreases before.len() - i,
        {
            let entry = self.entries[i];
            proof {
                assert(before.take(i + 1).drop_last() =~= before.take(i as int));
                assert(before.take(i + 1).last() == entry);
            }
            if entry.bounds.intersects(bounds) && entry.order > highest {
                highest = entry.order;
            }
            i = i + 1;
        }
        proof {
            assert(before.take(i as int) =~= before);
            orders_are_counted(before, bounds);
        }
        let order: u32 = highest + 1;
        self.entries.push(OrderedBounds { bounds, order });
        proof {
            let after = self.entries@;
            assert forall|k: int| 0 <= k < after.len() implies (#[trigger] after[k]).order as int
                == next_order(after.take(k), after[k].bounds) by {
                if k < before.len() {
                    assert(after.take(k) =~= before.take(k));
                    assert(before[k].order as int == next_order(before.take(k), before[k].bounds));
                } else {
                    assert(after.take(k) =~= before);
                }
            }
        }
        order
    }
}

} // verus!
