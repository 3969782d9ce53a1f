use dioxus_primitives::disclosure::{
    hover_request, listbox_takes_focus, open_focus_target, open_follows_focus,
    open_follows_item_focus, refocus_on_close, still_open, toggle_open, trigger_blur_closes,
};

#[test]
fn hover_and_focus_open_and_close_unless_disabled() {
    assert_eq!(hover_request(false, true), Some(true));
    assert_eq!(hover_request(false, false), Some(false));
    assert_eq!(hover_request(true, true), None);
}

#[test]
fn toggling_a_row_of_menus() {
    assert_eq!(toggle_open(None, 2), Some(2));
    assert_eq!(toggle_open(Some(2), 2), None);
    assert_eq!(toggle_open(Some(1), 2), Some(2));
    assert_eq!(toggle_open(toggle_open(None, 3), 3), None);
}

#[test]
fn an_open_menubar_follows_focus() {
    assert_eq!(open_follows_focus(Some(0), Some(2)), Some(Some(2)));
    assert_eq!(open_follows_focus(Some(0), None), Some(None));
    assert_eq!(open_follows_focus(None, Some(2)), None);
    assert!(still_open(Some(4), 4));
    assert!(!still_open(Some(3), 4));
    assert!(!still_open(None, 4));
}

#[test]
fn dropdown_open_follows_item_focus_unless_a_submenu_is_open() {
    assert_eq!(open_follows_item_focus(false, true, 0), Some(true));
    assert_eq!(open_follows_item_focus(true, false, 0), Some(false));
    assert_eq!(open_follows_item_focus(true, true, 0), None);
    assert_eq!(open_follows_item_focus(true, false, 1), None);
    assert!(trigger_blur_closes(false, 0));
    assert!(!trigger_blur_closes(true, 0));
    assert!(!trigger_blur_closes(false, 2));
}

#[test]
fn closing_refocuses_the_trigger_unless_dismissed_outside() {
    assert!(refocus_on_close(true, false, false));
    assert!(!refocus_on_close(true, false, true));
    assert!(!refocus_on_close(false, false, false));
    assert!(!refocus_on_close(true, true, false));
}

#[test]
fn select_focus_targets() {
    assert_eq!(open_focus_target(Some(3), Some(0)), Some(3));
    assert_eq!(open_focus_target(None, Some(0)), Some(0));
    assert_eq!(open_focus_target(None, None), None);
    assert!(listbox_takes_focus(true, false, false));
    assert!(!listbox_takes_focus(true, true, false));
    assert!(!listbox_takes_focus(true, false, true));
    assert!(!listbox_takes_focus(false, false, false));
}
