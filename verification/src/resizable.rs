//! Resizable panel groups: the layout direction's names, the keyboard
//! decisions of a resize handle, and the per-panel slots a group keeps
//! (constraints, sizes before collapsing). The sizes themselves are
//! fractional percentages and are computed outside this library; the slot
//! functions are generic over what a slot holds.
use vstd::prelude::*;

use crate::keyboard::{Direction, Key};

verus! {

/// How the panels of a group are laid out.
#[derive(Clone, Copy, Debug, PartialEq, Eq, Structural)]
pub enum ResizableDirection {
    /// Side by side (a row); handles move with ArrowLeft/ArrowRight.
    Horizontal,
    /// Stacked (a column); handles move with ArrowUp/ArrowDown.
    Vertical,
}

impl Default for ResizableDirection {
    /// Panels side by side.
    fn default() -> (direction: Self)
        ensures
            direction == ResizableDirection::Horizontal,
    {
        ResizableDirection::Horizontal
    }
}

impl ResizableDirection {
    /// The direction's name: `"horizontal"` or `"vertical"`.
    pub fn as_str(self) -> (name: &'static str)
        ensures
            name@ == (match self {
                ResizableDirection::Horizontal => "horizontal"@,
                ResizableDirection::Vertical => "vertical"@,
            }),
    {
        match self {
            ResizableDirection::Horizontal => "horizontal",
            ResizableDirection::Vertical => "vertical",
        }
    }

    /// The `aria-orientation` of a handle in a group of this direction: the
    /// bar's own orientation, the other one (a row of panels is split by
    /// vertical bars).
    pub fn handle_aria_orientation(self) -> (orientation: &'static str)
        ensures
            orientation@ == (match self {
                ResizableDirection::Horizontal => "vertical"@,
                ResizableDirection::Vertical => "horizontal"@,
            }),
    {
        match self {
            ResizableDirection::Horizontal => "vertical",
            ResizableDirection::Vertical => "horizontal",
        }
    }
}

/// What a resize handle does with a key.
#[derive(Clone, Copy, Debug, PartialEq, Eq, Structural)]
pub enum HandleKeyAction {
    /// Move the boundary one step by the arrow key's own delta, negated
    /// when `flip` (a horizontal group laid out right to left).
    Step {
        /// Whether the key's delta is negated.
        flip: bool,
    },
    /// Resize the panel before the handle to its smallest size.
    Home,
    /// Resize the panel before the handle to its largest size.
    End,
    /// Collapse the panel before the handle, or restore it.
    ToggleCollapse,
}

/// The arrow keys that move a handle in a group of `direction`.
pub open spec fn is_axis_key(direction: ResizableDirection, key: Key) -> bool {
    match direction {
        ResizableDirection::Horizontal => key is ArrowLeft || key is ArrowRight,
        ResizableDirection::Vertical => key is ArrowUp || key is ArrowDown,
    }
}

/// A resize handle's keydown handler. A disabled group or handle ignores
/// every key. The arrows of the group's axis step the boundary (mirrored in
/// a right-to-left horizontal group); Home/End resize the panel before the
/// handle to its bounds; Enter collapses or restores it when it is
/// collapsible.
pub fn resize_handle_keydown(
    key: &Key,
    disabled: bool,
    direction: ResizableDirection,
    text_direction: Direction,
    collapsible: bool,
) -> (action: Option<HandleKeyAction>)
    ensures
        disabled ==> action is None,
        !disabled && is_axis_key(direction, *key) ==> action == Some(
            HandleKeyAction::Step {
                flip: direction == ResizableDirection::Horizontal && text_direction == Direction::Rtl,
            },
        ),
        !disabled && !is_axis_key(direction, *key) ==> action == match *key {
            Key::Home => Some(HandleKeyAction::Home),
            Key::End => Some(HandleKeyAction::End),
            Key::Enter => if collapsible { Some(HandleKeyAction::ToggleCollapse) } else { None },
            _ => None,
        },
{
    if disabled {
        return None;
    }
    let axis_key = match direction {
        ResizableDirection::Horizontal => match key {
            Key::ArrowLeft | Key::ArrowRight => true,
            _ => false,
        },
        ResizableDirection::Vertical => match key {
            Key::ArrowUp | Key::ArrowDown => true,
            _ => false,
        },
    };
    if axis_key {
        let flip = match (direction, text_direction) {
            (ResizableDirection::Horizontal, Direction::Rtl) => true,
            _ => false,
        };
        return Some(HandleKeyAction::Step { flip });
    }
    match key {
        Key::Home => Some(HandleKeyAction::Home),
        Key::End => Some(HandleKeyAction::End),
        Key::Enter => if collapsible { Some(HandleKeyAction::ToggleCollapse) } else { None },
        _ => None,
    }
}

/// The slots after setting slot `index` to `value`, growing the slots
/// with `filler` first when there are too few.
pub open spec fn slots_set<T>(slots: Seq<T>, index: int, value: T, filler: T) -> Seq<T> {
    let grown = if slots.len() <= index {
        slots + Seq::new((index + 1 - slots.len()) as nat, |k: int| filler)
    } else {
        slots
    };
    grown.update(index, value)
}

/// Set slot `index` (a panel registering its constraints, or a panel's
/// size being remembered before it collapses), growing the slots with
/// `filler` when needed.
pub fn set_slot<T: Copy>(slots: &mut Vec<T>, index: usize, value: T, filler: T)
    requires
        index < usize::MAX,
    ensures
        final(slots)@ == slots_set(old(slots)@, index as int, value, filler),
{
    let ghost original = slots@;
    if slots.len() <= index {
        assert(slots@ =~= original + Seq::new(0, |k: int| filler));
        while slots.len() <= index
            invariant
                original.len() <= slots@.len() <= index + 1,
                slots@ == original + Seq::new((slots@.len() - original.len()) as nat, |k: int| filler),
            decreases index + 1 - slots@.len(),
        {
            slots.push(filler);
            proof {
                assert(slots@ =~= original + Seq::new((slots@.len() - original.len()) as nat, |k: int| filler));
            }
        }
    }
    proof {
        if original.len() <= index {
            assert(slots@ =~= original + Seq::new((index + 1 - original.len()) as nat, |k: int| filler));
        } else {
            assert(slots@ =~= original);
        }
    }
    slots.set(index, value);
}

/// Empty slot `index` if there is one (a collapsed panel was restored).
pub fn clear_slot<T>(slots: &mut Vec<Option<T>>, index: usize)
    ensures
        final(slots)@ == if index < old(slots)@.len() {
            old(slots)@.update(index as int, None)
        } else {
            old(slots)@
        },
{
    if index < slots.len() {
        slots.set(index, None);
    }
}

/// The value in slot `index`, if the slot exists and holds one.
pub fn slot_value<T: Copy>(slots: &[Option<T>], index: usize) -> (value: Option<T>)
    ensures
        value == if index < slots@.len() { slots@[index as int] } else { None },
{
    if index < slots.len() {
        slots[index]
    } else {
        None
    }
}

/// The value in slot `index`, or `default` past the last slot.
pub fn slot_or<T: Copy>(slots: &[T], index: usize, default: T) -> (value: T)
    ensures
        value == if index < slots@.len() { slots@[index as int] } else { default },
{
    if index < slots.len() {
        slots[index]
    } else {
        default
    }
}

/// The sizes a group of `count` panels shows: the committed sizes when
/// there are enough of them, else each panel's committed size if it has
/// one, then its computed initial size, then `fallback`.
pub open spec fn effective<T>(count: nat, committed: Seq<T>, computed: Seq<T>, fallback: T) -> Seq<T> {
    if committed.len() >= count {
        committed.subrange(0, count as int)
    } else {
        Seq::new(
            count,
            |i: int|
                if i < committed.len() {
                    committed[i]
                } else if i < computed.len() {
                    computed[i]
                } else {
                    fallback
                },
        )
    }
}

/// The sizes a group of `count` panels shows (see `effective`).
pub fn effective_values<T: Copy>(count: usize, committed: &[T], computed: &[T], fallback: T) -> (sizes: Vec<T>)
    ensures
        sizes@ == effective(count as nat, committed@, computed@, fallback),
{
    let mut sizes: Vec<T> = Vec::new();
    let mut i: usize = 0;
    while i < count
        invariant
            0 <= i <= count,
            sizes@.len() == i,
            forall|j: int|
                0 <= j < i ==> #[trigger] sizes@[j] == if j < committed@.len() {
                    committed@[j]
                } else if j < computed@.len() {
                    computed@[j]
                } else {
                    fallback
                },
        decreases count - i,
    {
        let value = if i < committed.len() {
            committed[i]
        } else if i < computed.len() {
            computed[i]
        } else {
            fallback
        };
        sizes.push(value);
        i = i + 1;
    }
    assert(sizes@ =~= effective(count as nat, committed@, computed@, fallback));
    sizes
}

/// A slot reads back what was last set in it, and setting one slot leaves
/// every other existing slot as it was.
pub proof fn lemma_set_slot_reads_back<T>(slots: Seq<T>, index: nat, value: T, filler: T, other: nat)
    requires
        other != index,
        other < slots.len(),
    ensures
        slots_set(slots, index as int, value, filler)[index as int] == value,
        slots_set(slots, index as int, value, filler).len() == if slots.len() <= index { index + 1 } else { slots.len() },
        slots_set(slots, index as int, value, filler)[other as int] == slots[other as int],
{
}

} // verus!
