//! Range lookups over measured virtual-list items.
use vstd::prelude::*;

use crate::window::{window, window_requires, window_spec};

verus! {

/// A measured item of a virtual list: its data index and where it starts and
/// how large it is along the scroll axis.
#[derive(Clone, Copy, Debug, PartialEq, Eq, Structural)]
pub struct VirtualItem {
    /// Index of the item in the data.
    pub index: usize,
    /// Offset of the item's start along the scroll axis.
    pub start: u32,
    /// Size of the item along the scroll axis.
    pub size: u32,
}

impl VirtualItem {
    /// Offset of the item's start along the scroll axis.
    pub fn start(&self) -> (start: u32)
        ensures
            start == self.start,
    {
        self.start
    }
}

/// Items ordered by start offset.
pub open spec fn sorted_by_start(items: Seq<VirtualItem>) -> bool {
    forall|i: int, j: int| 0 <= i <= j < items.len() ==> items[i].start <= items[j].start
}

/// The number of items that start before `offset`.
pub open spec fn count_before(items: Seq<VirtualItem>, offset: u32) -> int
    decreases items.len(),
{
    if items.len() == 0 {
        0
    } else {
        count_before(items.drop_last(), offset) + if items.last().start < offset { 1int } else { 0 }
    }
}

proof fn lemma_count_before_sorted(items: Seq<VirtualItem>, offset: u32, k: int)
    requires
        sorted_by_start(items),
        0 <= k <= items.len(),
        forall|j: int| 0 <= j < k ==> items[j].start < offset,
        forall|j: int| k <= j < items.len() ==> items[j].start >= offset,
    ensures
        count_before(items, offset) == k,
    decreases items.len(),
{
    if items.len() > 0 {
        if k == items.len() {
            lemma_count_before_sorted(items.drop_last(), offset, k - 1);
        } else {
            lemma_count_before_sorted(items.drop_last(), offset, k);
        }
    }
}

/// Binary search for the item at or before `offset`: on items ordered by
/// start, an item starting exactly at `offset` if there is one (any one of
/// them when several do), else the last item starting before `offset`, else
/// `0`.
pub fn find_nearest_binary_search(measurements: &[VirtualItem], offset: u32) -> (index: usize)
    ensures
        measurements@.len() == 0 ==> index == 0,
        measurements@.len() > 0 ==> index < measurements@.len(),
        sorted_by_start(measurements@) ==> {
            if exists|j: int| 0 <= j < measurements@.len() && measurements@[j].start == offset {
                measurements@[index as int].start == offset
            } else {
                index == if count_before(measurements@, offset) == 0 { 0 } else { count_before(measurements@, offset) - 1 }
            }
        },
{
    let mut lo: usize = 0;
    let mut hi: usize = measurements.len();
    while lo < hi
        invariant
            0 <= lo <= hi <= measurements@.len(),
            sorted_by_start(measurements@) ==> forall|j: int| 0 <= j < lo ==> measurements@[j].start < offset,
            sorted_by_start(measurements@) ==> forall|j: int| hi <= j < measurements@.len() ==> measurements@[j].start > offset,
        decreases hi - lo,
    {
        let mid = lo + (hi - lo) / 2;
        let start = measurements[mid].start();
        if start < offset {
            lo = mid + 1;
        } else if start > offset {
            hi = mid;
        } else {
            return mid;
        }
    }
    proof {
        if sorted_by_start(measurements@) {
            lemma_count_before_sorted(measurements@, offset, lo as int);
        }
    }
    if lo == 0 {
        0
    } else {
        lo - 1
    }
}

/// Extract indices from a range with overscan applied: the first and last
/// data index of the clamped window over `range.start..=range.end`, or
/// `0..=0` when there is nothing to show.
pub fn default_range_extractor(range: std::ops::Range<usize>, overscan: usize, count: usize) -> (r: std::ops::RangeInclusive<usize>)
    requires
        window_requires(count, range.start as isize, range.end as isize, overscan, false),
    ensures
        ({
            let w = window_spec(count, range.start as isize, range.end as isize, overscan, false);
            if count == 0 || w.len() == 0 {
                r@.start == 0 && r@.end == 0
            } else {
                r@.start == w[0].data_index && r@.end == w.last().data_index
            }
        }),
        !r@.exhausted,
{
    if count == 0 {
        return std::ops::RangeInclusive::new(0, 0);
    }
    let items = window(count, range.start as isize, range.end as isize, overscan, false);
    if items.len() == 0 {
        std::ops::RangeInclusive::new(0, 0)
    } else {
        let first = items[0].data_index;
        let last = items[items.len() - 1].data_index;
        std::ops::RangeInclusive::new(first, last)
    }
}

} // verus!
