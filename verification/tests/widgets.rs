use std::collections::HashMap;

use dioxus_primitives::input_otp::{active_slot, completes, slot_count, slot_is_active, slot_text};
use dioxus_primitives::keyboard::{Direction, Key};
use dioxus_primitives::placement::{
    anchor_name_style, position_anchor_style, ContentAlign, ContentSide, PopoverKind,
};
use dioxus_primitives::radio_group::{changed_value, select_focused_value};
use dioxus_primitives::resizable::{resize_handle_keydown, HandleKeyAction, ResizableDirection};
use dioxus_primitives::scroll_area::{
    scroll_styles, visibility_class, Overflow, ScrollDirection, ScrollStyles, ScrollType,
};

#[test]
fn otp_slot_count_is_at_least_one() {
    assert_eq!(slot_count(0), 1);
    assert_eq!(slot_count(1), 1);
    assert_eq!(slot_count(6), 6);
}

#[test]
fn otp_completes_only_on_reaching_full() {
    assert!(completes("123456", "12345", 6));
    assert!(!completes("123456", "123456", 6), "already full: no second completion");
    assert!(!completes("12345", "1234", 6));
    assert!(completes("ab", "", 2));
}

#[test]
fn otp_active_slot_follows_the_caret() {
    assert_eq!(active_slot(false, false, 2, 6), None);
    assert_eq!(active_slot(true, true, 2, 6), None);
    assert_eq!(active_slot(true, false, 2, 6), Some(2));
    assert_eq!(active_slot(true, false, 6, 6), Some(5), "caret past the end sits on the last slot");
    assert_eq!(active_slot(true, false, 9, 1), Some(0));
}

#[test]
fn otp_slots_show_their_character() {
    assert_eq!(slot_text("1a3", 0), "1");
    assert_eq!(slot_text("1a3", 1), "a");
    assert_eq!(slot_text("1a3", 3), "");
    assert_eq!(slot_text("ü9", 0), "ü");
    assert!(slot_is_active(Some(2), 2));
    assert!(!slot_is_active(Some(2), 1));
    assert!(!slot_is_active(None, 0));
}

#[test]
fn resizable_direction_names() {
    assert_eq!(ResizableDirection::default(), ResizableDirection::Horizontal);
    assert_eq!(ResizableDirection::Horizontal.as_str(), "horizontal");
    assert_eq!(ResizableDirection::Vertical.as_str(), "vertical");
    assert_eq!(ResizableDirection::Horizontal.handle_aria_orientation(), "vertical");
    assert_eq!(ResizableDirection::Vertical.handle_aria_orientation(), "horizontal");
}

#[test]
fn resize_handle_keys() {
    let h = ResizableDirection::Horizontal;
    let v = ResizableDirection::Vertical;
    let ltr = Direction::Ltr;
    assert_eq!(resize_handle_keydown(&Key::ArrowLeft, false, h, ltr, false), Some(HandleKeyAction::Step { flip: false }));
    assert_eq!(resize_handle_keydown(&Key::ArrowRight, false, h, Direction::Rtl, false), Some(HandleKeyAction::Step { flip: true }));
    assert_eq!(resize_handle_keydown(&Key::ArrowDown, false, v, Direction::Rtl, false), Some(HandleKeyAction::Step { flip: false }));
    assert_eq!(resize_handle_keydown(&Key::ArrowUp, false, h, ltr, false), None, "off-axis arrows do nothing");
    assert_eq!(resize_handle_keydown(&Key::Home, false, h, ltr, false), Some(HandleKeyAction::Home));
    assert_eq!(resize_handle_keydown(&Key::End, false, v, ltr, false), Some(HandleKeyAction::End));
    assert_eq!(resize_handle_keydown(&Key::Enter, false, h, ltr, false), None);
    assert_eq!(resize_handle_keydown(&Key::Enter, false, h, ltr, true), Some(HandleKeyAction::ToggleCollapse));
    assert_eq!(resize_handle_keydown(&Key::Home, true, h, ltr, true), None, "disabled handles ignore keys");
}

#[test]
fn scroll_area_styles() {
    assert_eq!(ScrollDirection::default(), ScrollDirection::Both);
    assert_eq!(ScrollType::default(), ScrollType::Auto);
    assert_eq!(
        scroll_styles(ScrollType::Auto, ScrollDirection::Vertical),
        ScrollStyles { overflow_x: Overflow::Hidden, overflow_y: Overflow::Auto, hide_scrollbars: false }
    );
    assert_eq!(
        scroll_styles(ScrollType::Always, ScrollDirection::Horizontal),
        ScrollStyles { overflow_x: Overflow::Scroll, overflow_y: Overflow::Hidden, hide_scrollbars: false }
    );
    assert_eq!(
        scroll_styles(ScrollType::Hidden, ScrollDirection::Both),
        ScrollStyles { overflow_x: Overflow::Scroll, overflow_y: Overflow::Scroll, hide_scrollbars: true }
    );
    assert_eq!(Overflow::Auto.as_str(), "auto");
    assert_eq!(ScrollDirection::Both.as_str(), "both");
    assert_eq!(visibility_class(true), "dx-scroll-area-always-show");
    assert_eq!(visibility_class(false), "dx-scroll-area-auto-hide");
}

#[test]
fn placement_names_and_anchor_styles() {
    assert_eq!(ContentSide::Top.as_str(), "top");
    assert_eq!(ContentSide::Left.as_str(), "left");
    assert_eq!(ContentAlign::Center.as_str(), "center");
    assert_eq!(PopoverKind::Auto.as_str(), "auto");
    assert_eq!(PopoverKind::Manual.as_str(), "manual");
    assert_eq!(anchor_name_style("dxc-3"), "anchor-name: --dxa-dxc-3;");
    assert_eq!(position_anchor_style("dxc-3"), "position-anchor: --dxa-dxc-3;");
}

#[test]
fn radio_selects_the_focused_value_once() {
    let mut values = HashMap::new();
    values.insert(0usize, String::from("a"));
    values.insert(1usize, String::from("b"));
    assert_eq!(select_focused_value("a", Some(1), &values), Some(String::from("b")));
    assert_eq!(select_focused_value("b", Some(1), &values), None, "already selected");
    assert_eq!(select_focused_value("a", Some(7), &values), None, "no value at that index");
    assert_eq!(select_focused_value("a", None, &values), None);
    assert_eq!(changed_value("x", String::from("y")), Some(String::from("y")));
    assert_eq!(changed_value("x", String::from("x")), None);
}
