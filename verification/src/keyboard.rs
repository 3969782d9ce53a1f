//! Keyboard decision tables of the widgets: for each keydown handler, which
//! action a key press leads to, given the widget's state. A handler that
//! decides `None` leaves the event alone (no `preventDefault`); any other
//! decision is carried out and the event's default action is prevented.
use vstd::prelude::*;
use vstd::string::StrSliceExecFns;

verus! {

/// A keyboard key, as far as the widgets tell keys apart.
pub enum Key {
    /// A key that produces text (a printable character such as `"a"` or `" "`).
    Character(String),
    /// Enter.
    Enter,
    /// Escape.
    Escape,
    /// Arrow up.
    ArrowUp,
    /// Arrow down.
    ArrowDown,
    /// Arrow left.
    ArrowLeft,
    /// Arrow right.
    ArrowRight,
    /// Home.
    Home,
    /// End.
    End,
    /// Any other key.
    Other,
}

/// The key is the space bar (the one-character text `" "`).
pub open spec fn is_space(key: Key) -> bool {
    key matches Key::Character(c) && c@ == seq![' ']
}

/// The key produces exactly one character.
pub open spec fn is_single_character(key: Key) -> bool {
    key matches Key::Character(c) && c@.len() == 1
}

/// The text a key produces (nothing for a key that produces none).
pub open spec fn key_text(key: Key) -> Seq<char> {
    match key {
        Key::Character(c) => c@,
        _ => Seq::empty(),
    }
}

/// Whether the key is the space bar.
pub fn key_is_space(key: &Key) -> (space: bool)
    ensures
        space == is_space(*key),
{
    match key {
        Key::Character(c) => {
            let text = c.as_str();
            if text.unicode_len() != 1 {
                return false;
            }
            let ch = text.get_char(0);
            proof {
                if ch == ' ' {
                    assert(c@ =~= seq![' ']);
                }
            }
            ch == ' '
        },
        _ => false,
    }
}

/// The text direction that decides what ArrowLeft/ArrowRight mean in a
/// horizontal row.
#[derive(Clone, Copy, Debug, PartialEq, Eq, Structural)]
pub enum Direction {
    /// Left to right.
    Ltr,
    /// Right to left.
    Rtl,
}

/// A step through a horizontal row.
#[derive(Clone, Copy, Debug, PartialEq, Eq, Structural)]
pub enum HorizontalNav {
    /// Towards the start of the row.
    Prev,
    /// Towards the end of the row.
    Next,
}

/// What a horizontal arrow key means in `direction`: ArrowRight moves to
/// the next item left to right and to the previous one right to left, and
/// ArrowLeft the other way round; other keys mean nothing.
pub open spec fn horizontal_step(direction: Direction, key: Key) -> Option<HorizontalNav> {
    match key {
        Key::ArrowRight => Some(if direction == Direction::Ltr { HorizontalNav::Next } else { HorizontalNav::Prev }),
        Key::ArrowLeft => Some(if direction == Direction::Ltr { HorizontalNav::Prev } else { HorizontalNav::Next }),
        _ => None,
    }
}

impl Direction {
    /// The meaning of a horizontal arrow key in this direction.
    pub fn resolve_horizontal(&self, key: &Key) -> (step: Option<HorizontalNav>)
        ensures
            step == horizontal_step(*self, *key),
    {
        match key {
            Key::ArrowRight => Some(
                match self {
                    Direction::Ltr => HorizontalNav::Next,
                    Direction::Rtl => HorizontalNav::Prev,
                },
            ),
            Key::ArrowLeft => Some(
                match self {
                    Direction::Ltr => HorizontalNav::Prev,
                    Direction::Rtl => HorizontalNav::Next,
                },
            ),
            _ => None,
        }
    }
}

/// What a menu's keyboard handler does.
#[derive(Clone, Copy, Debug, PartialEq, Eq, Structural)]
pub enum MenuKeyAction {
    /// Close the menu.
    Close,
    /// Open the menu and focus its first item.
    OpenFocusFirst,
    /// Open the menu and focus its last item.
    OpenFocusLast,
    /// Focus the next item.
    FocusNext,
    /// Focus the previous item.
    FocusPrev,
    /// Focus the first item.
    FocusFirst,
    /// Focus the last item.
    FocusLast,
    /// Nothing more to do, but the key is handled.
    Consume,
}

/// The dropdown menu root's keydown handler. A disabled menu ignores every
/// key. Enter toggles (opening focuses the first item); Space only opens;
/// Escape closes, except on the web where the browser's own light dismiss
/// handles it; ArrowDown/ArrowUp open onto the first/last item or move
/// focus in an open menu; Home/End focus the first/last item.
pub fn dropdown_menu_keydown(key: &Key, disabled: bool, open: bool, web: bool) -> (action: Option<MenuKeyAction>)
    ensures
        disabled ==> action is None,
        !disabled ==> action == match *key {
            Key::Enter => Some(if open { MenuKeyAction::Close } else { MenuKeyAction::OpenFocusFirst }),
            Key::Escape => if web { None } else { Some(MenuKeyAction::Close) },
            Key::ArrowDown => Some(if open { MenuKeyAction::FocusNext } else { MenuKeyAction::OpenFocusFirst }),
            Key::ArrowUp => Some(if open { MenuKeyAction::FocusPrev } else { MenuKeyAction::OpenFocusLast }),
            Key::Home => Some(MenuKeyAction::FocusFirst),
            Key::End => Some(MenuKeyAction::FocusLast),
            _ => if is_space(*key) {
                Some(if open { MenuKeyAction::Consume } else { MenuKeyAction::OpenFocusFirst })
            } else {
                None
            },
        },
{
    if disabled {
        return None;
    }
    match key {
        Key::Enter => Some(if open { MenuKeyAction::Close } else { MenuKeyAction::OpenFocusFirst }),
        Key::Escape => if web { None } else { Some(MenuKeyAction::Close) },
        Key::ArrowDown => Some(if open { MenuKeyAction::FocusNext } else { MenuKeyAction::OpenFocusFirst }),
        Key::ArrowUp => Some(if open { MenuKeyAction::FocusPrev } else { MenuKeyAction::OpenFocusLast }),
        Key::Home => Some(MenuKeyAction::FocusFirst),
        Key::End => Some(MenuKeyAction::FocusLast),
        _ => {
            if key_is_space(key) {
                Some(if open { MenuKeyAction::Consume } else { MenuKeyAction::OpenFocusFirst })
            } else {
                None
            }
        },
    }
}

/// Enter or Space on a menu item: the keys that activate it.
pub open spec fn activates_item(key: Key) -> bool {
    key is Enter || is_space(key)
}

/// What Enter or Space does on a menu item: `None` for other keys (left
/// alone); otherwise `Some(select)`, where `select` says whether the item is
/// selected (it is not when disabled). Either way the key is handled and
/// does not propagate.
pub fn menu_item_keydown(key: &Key, disabled: bool) -> (outcome: Option<bool>)
    ensures
        outcome == if activates_item(*key) { Some(!disabled) } else { None },
{
    let activates = match key {
        Key::Enter => true,
        _ => key_is_space(key),
    };
    if activates {
        Some(!disabled)
    } else {
        None
    }
}

/// A submenu trigger's keydown handler: ArrowRight, Enter and Space open
/// the submenu and focus its first item (`true`); a disabled trigger and
/// every other key do nothing (`false`, the event left alone).
pub fn sub_trigger_keydown(key: &Key, disabled: bool) -> (opens: bool)
    ensures
        opens == (!disabled && (*key is ArrowRight || *key is Enter || is_space(*key))),
{
    if disabled {
        return false;
    }
    match key {
        Key::ArrowRight | Key::Enter => true,
        _ => key_is_space(key),
    }
}

/// What a submenu's content does with a key.
#[derive(Clone, Copy, Debug, PartialEq, Eq, Structural)]
pub enum SubContentAction {
    /// Close the submenu, clear its focus and refocus its trigger.
    CloseToTrigger,
    /// Focus the next item.
    FocusNext,
    /// Focus the previous item.
    FocusPrev,
    /// Focus the first item.
    FocusFirst,
    /// Focus the last item.
    FocusLast,
}

/// A submenu content's keydown handler: Escape and ArrowLeft go back to
/// the trigger, the vertical arrows and Home/End move focus within the
/// submenu.
pub fn sub_content_keydown(key: &Key) -> (action: Option<SubContentAction>)
    ensures
        action == match *key {
            Key::Escape | Key::ArrowLeft => Some(SubContentAction::CloseToTrigger),
            Key::ArrowDown => Some(SubContentAction::FocusNext),
            Key::ArrowUp => Some(SubContentAction::FocusPrev),
            Key::Home => Some(SubContentAction::FocusFirst),
            Key::End => Some(SubContentAction::FocusLast),
            _ => None,
        },
{
    match key {
        Key::Escape | Key::ArrowLeft => Some(SubContentAction::CloseToTrigger),
        Key::ArrowDown => Some(SubContentAction::FocusNext),
        Key::ArrowUp => Some(SubContentAction::FocusPrev),
        Key::Home => Some(SubContentAction::FocusFirst),
        Key::End => Some(SubContentAction::FocusLast),
        _ => None,
    }
}

/// What a menubar menu's keydown handler does.
#[derive(Clone, Copy, Debug, PartialEq, Eq, Structural)]
pub enum MenubarKeyAction {
    /// Open this menu and focus its first item.
    OpenFocusFirst,
    /// Open this menu and focus its last item.
    OpenFocusLast,
    /// Close the open menu.
    Close,
    /// Close the open menu and move focus back to this menu's trigger.
    CloseToTrigger,
    /// Focus the previous trigger of the menubar.
    TriggerPrev,
    /// Focus the next trigger of the menubar.
    TriggerNext,
    /// Focus the first trigger of the menubar.
    TriggerFirst,
    /// Focus the last trigger of the menubar.
    TriggerLast,
    /// Focus the next item of this menu.
    ItemNext,
    /// Focus the previous item of this menu.
    ItemPrev,
    /// Hand the key to this menu's typeahead; the key counts as handled
    /// only if the typeahead takes it.
    Typeahead,
    /// Nothing more to do, but the key is handled.
    Consume,
}

/// The menubar menu's keydown handler. Enter toggles this menu (opening
/// focuses its first item); Space only opens; Escape closes and returns
/// focus to this menu's trigger; ArrowLeft/ArrowRight step between the
/// menubar's triggers as `direction` says; ArrowDown/ArrowUp open onto the
/// first/last item or move through the open menu's items; Home/End focus
/// the first/last trigger; a printable character goes to the typeahead of
/// an open menu. Enter, Space, the vertical arrows and typeahead do nothing
/// when the menu is disabled.
pub fn menubar_menu_keydown(key: &Key, disabled: bool, open: bool, direction: Direction) -> (action: Option<MenubarKeyAction>)
    ensures
        action == match *key {
            Key::Enter => if disabled {
                None
            } else {
                Some(if open { MenubarKeyAction::Close } else { MenubarKeyAction::OpenFocusFirst })
            },
            Key::Escape => Some(MenubarKeyAction::CloseToTrigger),
            Key::ArrowLeft | Key::ArrowRight => Some(
                if horizontal_step(direction, *key) == Some(HorizontalNav::Prev) {
                    MenubarKeyAction::TriggerPrev
                } else {
                    MenubarKeyAction::TriggerNext
                },
            ),
            Key::ArrowDown => if disabled {
                None
            } else {
                Some(if open { MenubarKeyAction::ItemNext } else { MenubarKeyAction::OpenFocusFirst })
            },
            Key::ArrowUp => if disabled {
                None
            } else {
                Some(if open { MenubarKeyAction::ItemPrev } else { MenubarKeyAction::OpenFocusLast })
            },
            Key::Home => Some(MenubarKeyAction::TriggerFirst),
            Key::End => Some(MenubarKeyAction::TriggerLast),
            Key::Character(_) => if disabled {
                None
            } else if is_space(*key) {
                Some(if open { MenubarKeyAction::Consume } else { MenubarKeyAction::OpenFocusFirst })
            } else if open {
                Some(MenubarKeyAction::Typeahead)
            } else {
                None
            },
            Key::Other => None,
        },
{
    match key {
        Key::Enter => if disabled {
            None
        } else {
            Some(if open { MenubarKeyAction::Close } else { MenubarKeyAction::OpenFocusFirst })
        },
        Key::Escape => Some(MenubarKeyAction::CloseToTrigger),
        Key::ArrowLeft | Key::ArrowRight => {
            let step = direction.resolve_horizontal(key);
            Some(
                match step {
                    Some(HorizontalNav::Prev) => MenubarKeyAction::TriggerPrev,
                    _ => MenubarKeyAction::TriggerNext,
                },
            )
        },
        Key::ArrowDown => if disabled {
            None
        } else {
            Some(if open { MenubarKeyAction::ItemNext } else { MenubarKeyAction::OpenFocusFirst })
        },
        Key::ArrowUp => if disabled {
            None
        } else {
            Some(if open { MenubarKeyAction::ItemPrev } else { MenubarKeyAction::OpenFocusLast })
        },
        Key::Home => Some(MenubarKeyAction::TriggerFirst),
        Key::End => Some(MenubarKeyAction::TriggerLast),
        Key::Character(_) => {
            if disabled {
                None
            } else if key_is_space(key) {
                Some(if open { MenubarKeyAction::Consume } else { MenubarKeyAction::OpenFocusFirst })
            } else if open {
                Some(MenubarKeyAction::Typeahead)
            } else {
                None
            }
        },
        Key::Other => None,
    }
}

/// What a navigation menu trigger's keydown handler does.
#[derive(Clone, Copy, Debug, PartialEq, Eq, Structural)]
pub enum NavTriggerAction {
    /// Close whichever panel is open.
    CloseOpen,
    /// Focus the previous top-level item.
    FocusPrev,
    /// Focus the next top-level item.
    FocusNext,
    /// Focus the first top-level item.
    FocusFirst,
    /// Focus the last top-level item.
    FocusLast,
    /// Open this trigger's panel (cancelling pending hover timers) and
    /// focus its first link.
    OpenIntoPanel,
    /// This panel is already open: focus its first link.
    IntoPanel,
}

/// The navigation menu trigger's keydown handler. Escape closes whatever
/// panel is open (and does nothing when none is); ArrowLeft/ArrowRight and
/// Home/End move along the top-level items; ArrowDown opens this trigger's
/// panel if needed and moves into it.
pub fn navigation_trigger_keydown(key: &Key, any_open: bool, this_open: bool) -> (action: Option<NavTriggerAction>)
    ensures
        action == match *key {
            Key::Escape => if any_open { Some(NavTriggerAction::CloseOpen) } else { None },
            Key::ArrowLeft => Some(NavTriggerAction::FocusPrev),
            Key::ArrowRight => Some(NavTriggerAction::FocusNext),
            Key::Home => Some(NavTriggerAction::FocusFirst),
            Key::End => Some(NavTriggerAction::FocusLast),
            Key::ArrowDown => Some(if this_open { NavTriggerAction::IntoPanel } else { NavTriggerAction::OpenIntoPanel }),
            _ => None,
        },
{
    match key {
        Key::Escape => if any_open { Some(NavTriggerAction::CloseOpen) } else { None },
        Key::ArrowLeft => Some(NavTriggerAction::FocusPrev),
        Key::ArrowRight => Some(NavTriggerAction::FocusNext),
        Key::Home => Some(NavTriggerAction::FocusFirst),
        Key::End => Some(NavTriggerAction::FocusLast),
        Key::ArrowDown => Some(if this_open { NavTriggerAction::IntoPanel } else { NavTriggerAction::OpenIntoPanel }),
        _ => None,
    }
}

/// Where a navigation menu link's keydown handler moves focus.
#[derive(Clone, Copy, Debug, PartialEq, Eq, Structural)]
pub enum NavLinkAction {
    /// The previous top-level item.
    TopPrev,
    /// The next top-level item.
    TopNext,
    /// The first top-level item.
    TopFirst,
    /// The last top-level item.
    TopLast,
    /// The previous link of the open panel.
    PanelPrev,
    /// The next link of the open panel.
    PanelNext,
}

/// The navigation menu link's keydown handler: a top-level link moves
/// along the top-level items with ArrowLeft/ArrowRight and Home/End; a link
/// inside a panel moves through the panel's links with ArrowUp/ArrowDown.
pub fn navigation_link_keydown(key: &Key, top_level: bool) -> (action: Option<NavLinkAction>)
    ensures
        top_level ==> action == match *key {
            Key::ArrowLeft => Some(NavLinkAction::TopPrev),
            Key::ArrowRight => Some(NavLinkAction::TopNext),
            Key::Home => Some(NavLinkAction::TopFirst),
            Key::End => Some(NavLinkAction::TopLast),
            _ => None,
        },
        !top_level ==> action == match *key {
            Key::ArrowUp => Some(NavLinkAction::PanelPrev),
            Key::ArrowDown => Some(NavLinkAction::PanelNext),
            _ => None,
        },
{
    if top_level {
        match key {
            Key::ArrowLeft => Some(NavLinkAction::TopPrev),
            Key::ArrowRight => Some(NavLinkAction::TopNext),
            Key::Home => Some(NavLinkAction::TopFirst),
            Key::End => Some(NavLinkAction::TopLast),
            _ => None,
        }
    } else {
        match key {
            Key::ArrowUp => Some(NavLinkAction::PanelPrev),
            Key::ArrowDown => Some(NavLinkAction::PanelNext),
            _ => None,
        }
    }
}

/// Whether a key closes the surface that has it: Escape alone (a navigation
/// menu panel, which then refocuses its trigger).
pub fn is_escape(key: &Key) -> (escape: bool)
    ensures
        escape == (*key is Escape),
{
    match key {
        Key::Escape => true,
        _ => false,
    }
}

/// Whether a tooltip trigger's keydown closes the tooltip: Escape while it
/// is open.
pub fn tooltip_keydown(key: &Key, open: bool) -> (close: bool)
    ensures
        close == (*key is Escape && open),
{
    is_escape(key) && open
}

/// Where a radio item's keydown handler moves focus.
#[derive(Clone, Copy, Debug, PartialEq, Eq, Structural)]
pub enum RadioKeyAction {
    /// The previous radio.
    FocusPrev,
    /// The next radio.
    FocusNext,
    /// The first radio.
    FocusStart,
    /// The last radio.
    FocusEnd,
    /// Nothing to move, but the key is handled.
    Consume,
}

/// The radio item's keydown handler. In a vertical group ArrowUp/ArrowDown
/// step back/forward; in a horizontal one ArrowLeft/ArrowRight step as
/// `direction` says; Home/End go to the first/last radio. Every other key
/// is left alone.
pub fn radio_item_keydown(key: &Key, horizontal: bool, direction: Direction) -> (action: Option<RadioKeyAction>)
    ensures
        action == match *key {
            Key::ArrowUp => if horizontal { None } else { Some(RadioKeyAction::FocusPrev) },
            Key::ArrowDown => if horizontal { None } else { Some(RadioKeyAction::FocusNext) },
            Key::ArrowLeft | Key::ArrowRight => if !horizontal {
                None
            } else if horizontal_step(direction, *key) == Some(HorizontalNav::Prev) {
                Some(RadioKeyAction::FocusPrev)
            } else {
                Some(RadioKeyAction::FocusNext)
            },
            Key::Home => Some(RadioKeyAction::FocusStart),
            Key::End => Some(RadioKeyAction::FocusEnd),
            _ => None,
        },
{
    match key {
        Key::ArrowUp => if horizontal { None } else { Some(RadioKeyAction::FocusPrev) },
        Key::ArrowDown => if horizontal { None } else { Some(RadioKeyAction::FocusNext) },
        Key::ArrowLeft | Key::ArrowRight => {
            if !horizontal {
                None
            } else {
                match direction.resolve_horizontal(key) {
                    Some(HorizontalNav::Prev) => Some(RadioKeyAction::FocusPrev),
                    _ => Some(RadioKeyAction::FocusNext),
                }
            }
        },
        Key::Home => Some(RadioKeyAction::FocusStart),
        Key::End => Some(RadioKeyAction::FocusEnd),
        _ => None,
    }
}

/// What a select listbox's keydown handler does.
#[derive(Clone, Copy, Debug, PartialEq, Eq, Structural)]
pub enum SelectListAction {
    /// Select the focused option.
    SelectFocused,
    /// Add the key's text to the typeahead search (the event is not
    /// consumed).
    Typeahead,
    /// Clear the typeahead search and focus the previous option.
    FocusPrev,
    /// Clear the typeahead search and focus the next option.
    FocusNext,
    /// Clear the typeahead search and focus the first option.
    FocusFirst,
    /// Clear the typeahead search and focus the last option.
    FocusLast,
    /// Close the listbox.
    Close,
}

/// The select listbox's keydown handler. Space and Enter select the focused
/// option; any other character goes to the typeahead search; the vertical
/// arrows and Home/End move focus (clearing the search); Escape closes,
/// except on the web where the browser's own light dismiss handles it.
pub fn select_list_keydown(key: &Key, web: bool) -> (action: Option<SelectListAction>)
    ensures
        action == match *key {
            Key::Character(_) => Some(if is_space(*key) { SelectListAction::SelectFocused } else { SelectListAction::Typeahead }),
            Key::ArrowUp => Some(SelectListAction::FocusPrev),
            Key::ArrowDown => Some(SelectListAction::FocusNext),
            Key::Home => Some(SelectListAction::FocusFirst),
            Key::End => Some(SelectListAction::FocusLast),
            Key::Enter => Some(SelectListAction::SelectFocused),
            Key::Escape => if web { None } else { Some(SelectListAction::Close) },
            _ => None,
        },
{
    match key {
        Key::Character(_) => Some(if key_is_space(key) { SelectListAction::SelectFocused } else { SelectListAction::Typeahead }),
        Key::ArrowUp => Some(SelectListAction::FocusPrev),
        Key::ArrowDown => Some(SelectListAction::FocusNext),
        Key::Home => Some(SelectListAction::FocusFirst),
        Key::End => Some(SelectListAction::FocusLast),
        Key::Enter => Some(SelectListAction::SelectFocused),
        Key::Escape => if web { None } else { Some(SelectListAction::Close) },
        _ => None,
    }
}

/// What a select trigger's keydown handler does.
#[derive(Clone, Copy, Debug, PartialEq, Eq, Structural)]
pub enum SelectTriggerAction {
    /// Open and focus the last available option.
    OpenFocusLast,
    /// Open and focus the first available option.
    OpenFocusFirst,
    /// Open and keep focus on the trigger.
    OpenKeepFocus,
    /// Open and focus the selected option, or the first available one.
    OpenFocusSelected,
}

/// The select trigger's keydown handler: ArrowUp opens onto the last
/// option, ArrowDown onto the first (with Alt held, it opens without moving
/// focus), Enter and Space open onto the selected option.
pub fn select_trigger_keydown(key: &Key, alt: bool) -> (action: Option<SelectTriggerAction>)
    ensures
        action == match *key {
            Key::ArrowUp => Some(SelectTriggerAction::OpenFocusLast),
            Key::ArrowDown => Some(if alt { SelectTriggerAction::OpenKeepFocus } else { SelectTriggerAction::OpenFocusFirst }),
            Key::Enter => Some(SelectTriggerAction::OpenFocusSelected),
            _ => if is_space(*key) { Some(SelectTriggerAction::OpenFocusSelected) } else { None },
        },
{
    match key {
        Key::ArrowUp => Some(SelectTriggerAction::OpenFocusLast),
        Key::ArrowDown => Some(if alt { SelectTriggerAction::OpenKeepFocus } else { SelectTriggerAction::OpenFocusFirst }),
        Key::Enter => Some(SelectTriggerAction::OpenFocusSelected),
        _ => if key_is_space(key) { Some(SelectTriggerAction::OpenFocusSelected) } else { None },
    }
}

/// Whether a key press is typeahead input: a single character other than
/// Space, with no Ctrl, Meta or Alt held.
pub fn typeahead_key_qualifies(key: &Key, ctrl: bool, meta: bool, alt: bool) -> (qualifies: bool)
    ensures
        qualifies == (is_single_character(*key) && !is_space(*key) && !ctrl && !meta && !alt),
{
    match key {
        Key::Character(c) => {
            if c.as_str().unicode_len() != 1 || key_is_space(key) {
                return false;
            }
            !ctrl && !meta && !alt
        },
        _ => false,
    }
}

} // verus!
