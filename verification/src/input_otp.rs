//! One-time-passcode entry: the slot arithmetic behind the row of boxes
//! that mirror one real text input.
use vstd::prelude::*;
use vstd::string::{StrSliceExecFns, StringExecFns};

verus! {

/// The number of slots: `max_length`, but at least one.
pub fn slot_count(max_length: usize) -> (count: usize)
    ensures
        count == if max_length < 1 { 1 } else { max_length },
{
    if max_length < 1 {
        1
    } else {
        max_length
    }
}

/// Whether a value change completes the passcode: the value's length (in
/// characters) reached `max_length` just now, having been below it.
pub fn completes(current: &str, previous: &str, max_length: usize) -> (complete: bool)
    ensures
        complete == (current@.len() >= max_length && previous@.len() < max_length),
{
    current.unicode_len() >= max_length && previous.unicode_len() < max_length
}

/// The slot holding the caret: none while the input is unfocused or the
/// control disabled, else the caret's position clamped to the last slot.
pub fn active_slot(has_focus: bool, disabled: bool, selection_start: usize, max_length: usize) -> (slot: Option<usize>)
    ensures
        slot == if !has_focus || disabled {
            None::<usize>
        } else {
            Some(
                if selection_start < max_length { selection_start } else if max_length == 0 { 0 } else { (max_length - 1) as usize },
            )
        },
{
    if !has_focus || disabled {
        None
    } else {
        let last = max_length.saturating_sub(1);
        Some(if selection_start < last { selection_start } else { last })
    }
}

/// The text a slot shows: the value's character at `index`, or nothing
/// past the end of the value.
pub fn slot_text(value: &str, index: usize) -> (text: String)
    ensures
        text@ == if index < value@.len() { seq![value@[index as int]] } else { Seq::<char>::empty() },
{
    if index < value.unicode_len() {
        let c = value.substring_char(index, index + 1);
        String::from_str(c)
    } else {
        String::new()
    }
}

/// Whether the slot at `index` holds the caret.
pub fn slot_is_active(active: Option<usize>, index: usize) -> (is_active: bool)
    ensures
        is_active == (active == Some(index)),
{
    match active {
        Some(a) => a == index,
        None => false,
    }
}

} // verus!
