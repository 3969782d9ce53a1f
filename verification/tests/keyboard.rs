use dioxus_primitives::keyboard::{
    dropdown_menu_keydown, key_is_space, menu_item_keydown, menubar_menu_keydown,
    navigation_link_keydown, navigation_trigger_keydown, radio_item_keydown, select_list_keydown,
    select_trigger_keydown, sub_content_keydown, sub_trigger_keydown, tooltip_keydown,
    typeahead_key_qualifies, Direction, HorizontalNav, Key, MenuKeyAction, MenubarKeyAction,
    NavLinkAction, NavTriggerAction, RadioKeyAction, SelectListAction, SelectTriggerAction,
    SubContentAction,
};

fn ch(text: &str) -> Key {
    Key::Character(text.to_string())
}

#[test]
fn space_is_the_one_space_character() {
    assert!(key_is_space(&ch(" ")));
    assert!(!key_is_space(&ch("  ")));
    assert!(!key_is_space(&ch("a")));
    assert!(!key_is_space(&Key::Enter));
}

#[test]
fn horizontal_arrows_follow_the_text_direction() {
    assert_eq!(Direction::Ltr.resolve_horizontal(&Key::ArrowRight), Some(HorizontalNav::Next));
    assert_eq!(Direction::Ltr.resolve_horizontal(&Key::ArrowLeft), Some(HorizontalNav::Prev));
    assert_eq!(Direction::Rtl.resolve_horizontal(&Key::ArrowRight), Some(HorizontalNav::Prev));
    assert_eq!(Direction::Rtl.resolve_horizontal(&Key::ArrowLeft), Some(HorizontalNav::Next));
    assert_eq!(Direction::Ltr.resolve_horizontal(&Key::ArrowUp), None);
}

#[test]
fn dropdown_menu_root_keys() {
    assert_eq!(dropdown_menu_keydown(&Key::Enter, false, false, false), Some(MenuKeyAction::OpenFocusFirst));
    assert_eq!(dropdown_menu_keydown(&Key::Enter, false, true, false), Some(MenuKeyAction::Close));
    assert_eq!(dropdown_menu_keydown(&ch(" "), false, false, false), Some(MenuKeyAction::OpenFocusFirst));
    assert_eq!(dropdown_menu_keydown(&ch(" "), false, true, false), Some(MenuKeyAction::Consume));
    assert_eq!(dropdown_menu_keydown(&Key::Escape, false, true, false), Some(MenuKeyAction::Close));
    assert_eq!(dropdown_menu_keydown(&Key::Escape, false, true, true), None, "the browser dismisses on the web");
    assert_eq!(dropdown_menu_keydown(&Key::ArrowDown, false, false, false), Some(MenuKeyAction::OpenFocusFirst));
    assert_eq!(dropdown_menu_keydown(&Key::ArrowDown, false, true, false), Some(MenuKeyAction::FocusNext));
    assert_eq!(dropdown_menu_keydown(&Key::ArrowUp, false, false, false), Some(MenuKeyAction::OpenFocusLast));
    assert_eq!(dropdown_menu_keydown(&Key::ArrowUp, false, true, false), Some(MenuKeyAction::FocusPrev));
    assert_eq!(dropdown_menu_keydown(&Key::Home, false, true, false), Some(MenuKeyAction::FocusFirst));
    assert_eq!(dropdown_menu_keydown(&Key::End, false, true, false), Some(MenuKeyAction::FocusLast));
    assert_eq!(dropdown_menu_keydown(&ch("a"), false, true, false), None);
    assert_eq!(dropdown_menu_keydown(&Key::Enter, true, false, false), None, "disabled ignores keys");
}

#[test]
fn menu_items_activate_on_enter_and_space() {
    assert_eq!(menu_item_keydown(&Key::Enter, false), Some(true));
    assert_eq!(menu_item_keydown(&ch(" "), false), Some(true));
    assert_eq!(menu_item_keydown(&ch(" "), true), Some(false), "handled but not selected when disabled");
    assert_eq!(menu_item_keydown(&Key::ArrowDown, false), None);
}

#[test]
fn submenu_trigger_and_content_keys() {
    assert!(sub_trigger_keydown(&Key::ArrowRight, false));
    assert!(sub_trigger_keydown(&Key::Enter, false));
    assert!(sub_trigger_keydown(&ch(" "), false));
    assert!(!sub_trigger_keydown(&Key::ArrowLeft, false));
    assert!(!sub_trigger_keydown(&Key::Enter, true));
    assert_eq!(sub_content_keydown(&Key::Escape), Some(SubContentAction::CloseToTrigger));
    assert_eq!(sub_content_keydown(&Key::ArrowLeft), Some(SubContentAction::CloseToTrigger));
    assert_eq!(sub_content_keydown(&Key::ArrowDown), Some(SubContentAction::FocusNext));
    assert_eq!(sub_content_keydown(&Key::ArrowUp), Some(SubContentAction::FocusPrev));
    assert_eq!(sub_content_keydown(&Key::Home), Some(SubContentAction::FocusFirst));
    assert_eq!(sub_content_keydown(&Key::End), Some(SubContentAction::FocusLast));
    assert_eq!(sub_content_keydown(&Key::ArrowRight), None);
}

#[test]
fn menubar_menu_keys() {
    let ltr = Direction::Ltr;
    assert_eq!(menubar_menu_keydown(&Key::Enter, false, false, ltr), Some(MenubarKeyAction::OpenFocusFirst));
    assert_eq!(menubar_menu_keydown(&Key::Enter, false, true, ltr), Some(MenubarKeyAction::Close));
    assert_eq!(menubar_menu_keydown(&Key::Enter, true, false, ltr), None);
    assert_eq!(menubar_menu_keydown(&ch(" "), false, false, ltr), Some(MenubarKeyAction::OpenFocusFirst));
    assert_eq!(menubar_menu_keydown(&ch(" "), false, true, ltr), Some(MenubarKeyAction::Consume));
    assert_eq!(menubar_menu_keydown(&Key::Escape, true, true, ltr), Some(MenubarKeyAction::CloseToTrigger));
    assert_eq!(menubar_menu_keydown(&Key::ArrowRight, true, false, ltr), Some(MenubarKeyAction::TriggerNext));
    assert_eq!(menubar_menu_keydown(&Key::ArrowRight, false, false, Direction::Rtl), Some(MenubarKeyAction::TriggerPrev));
    assert_eq!(menubar_menu_keydown(&Key::ArrowDown, false, false, ltr), Some(MenubarKeyAction::OpenFocusFirst));
    assert_eq!(menubar_menu_keydown(&Key::ArrowDown, false, true, ltr), Some(MenubarKeyAction::ItemNext));
    assert_eq!(menubar_menu_keydown(&Key::ArrowUp, false, false, ltr), Some(MenubarKeyAction::OpenFocusLast));
    assert_eq!(menubar_menu_keydown(&Key::ArrowUp, false, true, ltr), Some(MenubarKeyAction::ItemPrev));
    assert_eq!(menubar_menu_keydown(&Key::Home, true, false, ltr), Some(MenubarKeyAction::TriggerFirst));
    assert_eq!(menubar_menu_keydown(&Key::End, false, false, ltr), Some(MenubarKeyAction::TriggerLast));
    assert_eq!(menubar_menu_keydown(&ch("f"), false, true, ltr), Some(MenubarKeyAction::Typeahead));
    assert_eq!(menubar_menu_keydown(&ch("f"), false, false, ltr), None);
    assert_eq!(menubar_menu_keydown(&Key::Other, false, true, ltr), None);
}

#[test]
fn navigation_menu_keys() {
    assert_eq!(navigation_trigger_keydown(&Key::Escape, true, false), Some(NavTriggerAction::CloseOpen));
    assert_eq!(navigation_trigger_keydown(&Key::Escape, false, false), None);
    assert_eq!(navigation_trigger_keydown(&Key::ArrowLeft, false, false), Some(NavTriggerAction::FocusPrev));
    assert_eq!(navigation_trigger_keydown(&Key::ArrowRight, false, false), Some(NavTriggerAction::FocusNext));
    assert_eq!(navigation_trigger_keydown(&Key::Home, false, false), Some(NavTriggerAction::FocusFirst));
    assert_eq!(navigation_trigger_keydown(&Key::End, false, false), Some(NavTriggerAction::FocusLast));
    assert_eq!(navigation_trigger_keydown(&Key::ArrowDown, false, false), Some(NavTriggerAction::OpenIntoPanel));
    assert_eq!(navigation_trigger_keydown(&Key::ArrowDown, true, true), Some(NavTriggerAction::IntoPanel));
    assert_eq!(navigation_trigger_keydown(&Key::ArrowUp, true, true), None);
    assert_eq!(navigation_link_keydown(&Key::ArrowLeft, true), Some(NavLinkAction::TopPrev));
    assert_eq!(navigation_link_keydown(&Key::End, true), Some(NavLinkAction::TopLast));
    assert_eq!(navigation_link_keydown(&Key::ArrowDown, true), None);
    assert_eq!(navigation_link_keydown(&Key::ArrowDown, false), Some(NavLinkAction::PanelNext));
    assert_eq!(navigation_link_keydown(&Key::ArrowUp, false), Some(NavLinkAction::PanelPrev));
    assert_eq!(navigation_link_keydown(&Key::ArrowLeft, false), None);
}

#[test]
fn tooltip_closes_on_escape_while_open() {
    assert!(tooltip_keydown(&Key::Escape, true));
    assert!(!tooltip_keydown(&Key::Escape, false));
    assert!(!tooltip_keydown(&Key::Enter, true));
}

#[test]
fn radio_item_keys_follow_orientation() {
    let ltr = Direction::Ltr;
    assert_eq!(radio_item_keydown(&Key::ArrowUp, false, ltr), Some(RadioKeyAction::FocusPrev));
    assert_eq!(radio_item_keydown(&Key::ArrowDown, false, ltr), Some(RadioKeyAction::FocusNext));
    assert_eq!(radio_item_keydown(&Key::ArrowDown, true, ltr), None);
    assert_eq!(radio_item_keydown(&Key::ArrowLeft, false, ltr), None);
    assert_eq!(radio_item_keydown(&Key::ArrowLeft, true, ltr), Some(RadioKeyAction::FocusPrev));
    assert_eq!(radio_item_keydown(&Key::ArrowLeft, true, Direction::Rtl), Some(RadioKeyAction::FocusNext));
    assert_eq!(radio_item_keydown(&Key::Home, true, ltr), Some(RadioKeyAction::FocusStart));
    assert_eq!(radio_item_keydown(&Key::End, false, ltr), Some(RadioKeyAction::FocusEnd));
    assert_eq!(radio_item_keydown(&ch(" "), false, ltr), None);
}

#[test]
fn select_keys() {
    assert_eq!(select_list_keydown(&ch(" "), false), Some(SelectListAction::SelectFocused));
    assert_eq!(select_list_keydown(&ch("b"), false), Some(SelectListAction::Typeahead));
    assert_eq!(select_list_keydown(&Key::Enter, false), Some(SelectListAction::SelectFocused));
    assert_eq!(select_list_keydown(&Key::ArrowUp, false), Some(SelectListAction::FocusPrev));
    assert_eq!(select_list_keydown(&Key::ArrowDown, false), Some(SelectListAction::FocusNext));
    assert_eq!(select_list_keydown(&Key::Home, false), Some(SelectListAction::FocusFirst));
    assert_eq!(select_list_keydown(&Key::End, false), Some(SelectListAction::FocusLast));
    assert_eq!(select_list_keydown(&Key::Escape, false), Some(SelectListAction::Close));
    assert_eq!(select_list_keydown(&Key::Escape, true), None);
    assert_eq!(select_trigger_keydown(&Key::ArrowUp, false), Some(SelectTriggerAction::OpenFocusLast));
    assert_eq!(select_trigger_keydown(&Key::ArrowDown, false), Some(SelectTriggerAction::OpenFocusFirst));
    assert_eq!(select_trigger_keydown(&Key::ArrowDown, true), Some(SelectTriggerAction::OpenKeepFocus));
    assert_eq!(select_trigger_keydown(&Key::Enter, false), Some(SelectTriggerAction::OpenFocusSelected));
    assert_eq!(select_trigger_keydown(&ch(" "), false), Some(SelectTriggerAction::OpenFocusSelected));
    assert_eq!(select_trigger_keydown(&Key::Escape, false), None);
}

#[test]
fn typeahead_takes_single_unmodified_characters_but_space() {
    assert!(typeahead_key_qualifies(&ch("a"), false, false, false));
    assert!(typeahead_key_qualifies(&ch("é"), false, false, false));
    assert!(!typeahead_key_qualifies(&ch(" "), false, false, false));
    assert!(!typeahead_key_qualifies(&ch("ab"), false, false, false));
    assert!(!typeahead_key_qualifies(&ch("a"), true, false, false));
    assert!(!typeahead_key_qualifies(&ch("a"), false, true, false));
    assert!(!typeahead_key_qualifies(&ch("a"), false, false, true));
    assert!(!typeahead_key_qualifies(&Key::Enter, false, false, false));
}
