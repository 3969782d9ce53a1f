//! Pure "which items are in the window" math for virtual lists and looping
//! virtual carousels.
use vstd::prelude::*;

verus! {

/// One rendered position in a virtual window.
#[derive(Clone, Copy, Debug, PartialEq, Eq, Structural)]
pub struct WindowItem {
    /// Index into the data; always `< count`.
    pub data_index: usize,
    /// The logical position this item occupies; unique within one window.
    pub position: isize,
}

/// First padded position of a window: `start - overscan`.
pub open spec fn padded_start(start: isize, overscan: usize) -> int {
    start - (overscan as isize)
}

/// Last padded position of a window: `max(start, end) + overscan`.
pub open spec fn padded_end(start: isize, end: isize, overscan: usize) -> int {
    (if start > end { start } else { end }) + (overscan as isize)
}

/// The item a wrapping window renders at `position`, for a data count whose
/// `isize` reading is `count`.
pub open spec fn wrapped_item(position: int, count: int) -> WindowItem {
    WindowItem { data_index: (position % count) as usize, position: position as isize }
}

/// The item a clamped window renders at `position`.
pub open spec fn clamped_item(position: int) -> WindowItem {
    WindowItem { data_index: position as usize, position: position as isize }
}

/// The items of a window, as a sequence.
pub open spec fn window_spec(count: usize, start: isize, end: isize, overscan: usize, wrap: bool) -> Seq<WindowItem> {
    let ps = padded_start(start, overscan);
    let pe = padded_end(start, end, overscan);
    if count == 0 {
        Seq::empty()
    } else if wrap {
        if ps > pe {
            Seq::empty()
        } else {
            Seq::new((pe - ps + 1) as nat, |k: int| wrapped_item(ps + k, (count as isize) as int))
        }
    } else {
        let cs = if ps < 0 { 0 } else { ps };
        let ce = if pe < (count as isize) - 1 { pe } else { (count as isize) - 1 };
        if cs > ce {
            Seq::empty()
        } else {
            Seq::new(
                (ce - cs + 1) as nat,
                |k: int| clamped_item(cs + k),
            )
        }
    }
}

/// Where `window` does not panic: the padded bounds fit in `isize`, the
/// clamped upper bound `count - 1` does not overflow, a wrapping window's
/// length fits in `usize`, and no `rem_euclid` overflows (`isize::MIN`
/// taken modulo a count that reads as `-1`).
pub open spec fn window_requires(count: usize, start: isize, end: isize, overscan: usize, wrap: bool) -> bool {
    count != 0 ==> {
        &&& isize::MIN <= padded_start(start, overscan) <= isize::MAX
        &&& isize::MIN <= padded_end(start, end, overscan) <= isize::MAX
        &&& !wrap ==> (count as isize) != isize::MIN
        &&& wrap ==> padded_end(start, end, overscan) - padded_start(start, overscan) < usize::MAX
        &&& wrap && (count as isize) == -1 ==> padded_start(start, overscan) != isize::MIN
    }
}

proof fn lemma_nonzero_cast(count: usize)
    requires
        count != 0,
    ensures
        (count as isize) != 0,
{
    assert(count != 0 ==> (count as isize) != 0) by (bit_vector);
}

proof fn lemma_euclid_rem_bounds(p: int, d: int)
    requires
        d != 0,
        isize::MIN <= d <= isize::MAX,
    ensures
        0 <= p % d,
        p % d <= isize::MAX,
{
    assert(0 <= p % d < (if d > 0 { d } else { -d })) by (nonlinear_arith)
        requires
            d != 0,
    ;
}

/// Items covering logical positions `start..=end`, padded by `overscan` on
/// both sides, in ascending `position` order. Without `wrap` positions are
/// clamped to `0..count`; with `wrap` every padded position `p` is kept and
/// maps to `p.rem_euclid(count)`. `count == 0` gives an empty window and
/// `start > end` is treated as `start..=start`.
pub fn window(count: usize, start: isize, end: isize, overscan: usize, wrap: bool) -> (items: Vec<WindowItem>)
    requires
        window_requires(count, start, end, overscan, wrap),
    ensures
        items@ == window_spec(count, start, end, overscan, wrap),
{
    if count == 0 {
        return Vec::new();
    }
    let last_position = if start > end { start } else { end };
    let pad = overscan as isize;
    let padded_start = start - pad;
    let padded_end = last_position + pad;
    let mut items: Vec<WindowItem> = Vec::new();
    if wrap {
        let count_isize = count as isize;
        proof { lemma_nonzero_cast(count); }
        if padded_start > padded_end {
            return Vec::new();
        }
        let mut position = padded_start;
        loop
            invariant_except_break
                items@.len() == position - padded_start,
            invariant
                padded_start <= position <= padded_end,
                count_isize == count as isize,
                count_isize != 0,
                padded_end - padded_start < usize::MAX,
                count_isize == -1 ==> padded_start != isize::MIN,
                forall|k: int| 0 <= k < items@.len() ==> #[trigger] items@[k] == wrapped_item(padded_start + k, count_isize as int),
            ensures
                items@.len() == padded_end - padded_start + 1,
                forall|k: int| 0 <= k < items@.len() ==> #[trigger] items@[k] == wrapped_item(padded_start + k, count_isize as int),
            decreases padded_end - position,
        {
            proof { lemma_euclid_rem_bounds(position as int, count_isize as int); }
            let r = position.checked_rem_euclid(count_isize);
            let data_index = r.unwrap() as usize;
            items.push(WindowItem { data_index, position });
            if position == padded_end {
                break;
            }
            position = position + 1;
        }
        assert(items@ =~= window_spec(count, start, end, overscan, wrap));
        items
    } else {
        let clamped_start = if padded_start < 0 { 0 } else { padded_start };
        let last = count as isize - 1;
        let clamped_end = if padded_end < last { padded_end } else { last };
        if clamped_start > clamped_end {
            return Vec::new();
        }
        let mut position = clamped_start;
        loop
            invariant_except_break
                items@.len() == position - clamped_start,
            invariant
                0 <= clamped_start <= position <= clamped_end,
                forall|k: int| 0 <= k < items@.len() ==> #[trigger] items@[k] == clamped_item(clamped_start + k),
            ensures
                items@.len() == clamped_end - clamped_start + 1,
                forall|k: int| 0 <= k < items@.len() ==> #[trigger] items@[k] == clamped_item(clamped_start + k),
            decreases clamped_end - position,
        {
            items.push(WindowItem { data_index: position as usize, position });
            if position == clamped_end {
                break;
            }
            position = position + 1;
        }
        assert(items@ =~= window_spec(count, start, end, overscan, wrap));
        items
    }
}

/// A count read as an `isize` is the count itself when it fits, and is
/// never further from zero than the count otherwise.
proof fn lemma_count_cast(count: usize)
    requires
        count != 0,
    ensures
        count <= isize::MAX ==> (count as isize) as int == count as int,
        (count as isize) as int <= count as int,
        -((count as isize) as int) <= count as int,
{
}

/// Every window holds valid data indices (`< count`) at strictly
/// increasing, hence unique, positions; without wrapping each item's data
/// index is its position.
pub proof fn lemma_window_well_formed(count: usize, start: isize, end: isize, overscan: usize, wrap: bool)
    requires
        window_requires(count, start, end, overscan, wrap),
    ensures
        forall|i: int|
            0 <= i < window_spec(count, start, end, overscan, wrap).len() ==> (#[trigger] window_spec(
                count,
                start,
                end,
                overscan,
                wrap,
            )[i]).data_index < count,
        forall|i: int, j: int|
            0 <= i < j < window_spec(count, start, end, overscan, wrap).len() ==> window_spec(
                count,
                start,
                end,
                overscan,
                wrap,
            )[i].position < window_spec(count, start, end, overscan, wrap)[j].position,
        !wrap ==> forall|i: int|
            0 <= i < window_spec(count, start, end, overscan, wrap).len() ==> (#[trigger] window_spec(
                count,
                start,
                end,
                overscan,
                wrap,
            )[i]).data_index == window_spec(count, start, end, overscan, wrap)[i].position,
{
    if count != 0 {
        lemma_count_cast(count);
        lemma_nonzero_cast(count);
        let c = (count as isize) as int;
        let w = window_spec(count, start, end, overscan, wrap);
        let ps = padded_start(start, overscan);
        if wrap {
            assert forall|i: int| 0 <= i < w.len() implies (#[trigger] w[i]).data_index < count by {
                lemma_euclid_rem_bounds(ps + i, c);
                assert((ps + i) % c < (if c > 0 { c } else { -c })) by (nonlinear_arith)
                    requires
                        c != 0,
                ;
            }
        }
    }
}

} // verus!
