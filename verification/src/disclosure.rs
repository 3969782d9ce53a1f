//! Which surface is open: the open/close decisions of triggers, hover and
//! focus handlers, and of rows of menus (a menubar, a navigation menu) where
//! at most one menu, by index, is open at a time.
use vstd::prelude::*;

verus! {

/// A hover or focus change on a tooltip or hover card trigger: entering
/// (pointer enters, focus arrives) asks to open, leaving asks to close; a
/// disabled surface asks nothing.
pub fn hover_request(disabled: bool, entering: bool) -> (request: Option<bool>)
    ensures
        request == if disabled { None } else { Some(entering) },
{
    if disabled {
        None
    } else {
        Some(entering)
    }
}

/// The open menu of a row after activating the trigger at `index`: it
/// closes when it was the open one, and otherwise becomes the open one.
pub open spec fn toggled(open: Option<usize>, index: usize) -> Option<usize> {
    if open == Some(index) {
        None
    } else {
        Some(index)
    }
}

/// Activating (clicking) the trigger at `index` of a row of menus.
pub fn toggle_open(open: Option<usize>, index: usize) -> (next: Option<usize>)
    ensures
        next == toggled(open, index),
{
    match open {
        Some(i) => if i == index {
            None
        } else {
            Some(index)
        },
        None => Some(index),
    }
}

/// Activating the same trigger twice opens and closes its menu: from a
/// closed row, or from a row where another menu is open, it ends closed;
/// from a row where this menu is open, it ends open again.
pub proof fn lemma_toggle_twice(open: Option<usize>, index: usize)
    ensures
        toggled(toggled(open, index), index) == if open == Some(index) { Some(index) } else { None },
        toggled(open, index) is Some || open == Some(index),
{
}

/// While a menubar has a menu open, moving focus along the triggers opens
/// the focused trigger's menu instead (`Some(new_open)`); with no menu open
/// nothing changes (`None`).
pub fn open_follows_focus(open: Option<usize>, focused: Option<usize>) -> (change: Option<Option<usize>>)
    ensures
        change == if open is Some { Some(focused) } else { None::<Option<usize>> },
{
    match open {
        Some(_) => Some(focused),
        None => None,
    }
}

/// A delayed hover close of the menu at `target` only applies if that menu
/// is still the open one when the delay ends.
pub fn still_open(open: Option<usize>, target: usize) -> (applies: bool)
    ensures
        applies == (open == Some(target)),
{
    match open {
        Some(i) => i == target,
        None => false,
    }
}

/// A dropdown menu's open state follows whether any of its items has
/// focus, except while a submenu is open (focus then legitimately sits in
/// the submenu): `Some(new_open)` when it must change.
pub fn open_follows_item_focus(open: bool, any_focused: bool, submenu_open_count: usize) -> (change: Option<bool>)
    ensures
        change == if open != any_focused && submenu_open_count == 0 { Some(any_focused) } else { None::<bool> },
{
    if open != any_focused && submenu_open_count == 0 {
        Some(any_focused)
    } else {
        None
    }
}

/// Whether a dropdown trigger losing focus means focus left the whole
/// menu (so it closes, counting as an outside interaction): no item has
/// focus and no submenu is open.
pub fn trigger_blur_closes(any_focused: bool, submenu_open_count: usize) -> (closes: bool)
    ensures
        closes == (!any_focused && submenu_open_count == 0),
{
    !any_focused && submenu_open_count == 0
}

/// Where a select opens its focus: the selected option when there is one,
/// else the first available one.
pub fn open_focus_target(selected: Option<usize>, first_available: Option<usize>) -> (target: Option<usize>)
    ensures
        target == match selected {
            Some(s) => Some(s),
            None => first_available,
        },
{
    match selected {
        Some(s) => Some(s),
        None => first_available,
    }
}

/// Whether closing returns focus to the trigger: on the transition from
/// open to closed, unless the close came from an interaction outside.
pub fn refocus_on_close(was_open: bool, open: bool, interacted_outside: bool) -> (refocus: bool)
    ensures
        refocus == (was_open && !open && !interacted_outside),
{
    was_open && !open && !interacted_outside
}

/// Whether an open select listbox takes focus itself: while open, with no
/// option focused, unless it was opened to keep focus on the trigger.
pub fn listbox_takes_focus(open: bool, any_focused: bool, keep_trigger_focus: bool) -> (takes: bool)
    ensures
        takes == (open && !any_focused && !keep_trigger_focus),
{
    open && !any_focused && !keep_trigger_focus
}

} // verus!
