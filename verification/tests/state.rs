use dioxus_primitives::state::{
    id_or, should_apply_animation_result, sync_generated_id, sync_open_submenu, unmount_submenu,
    AnimatedOpen, ControlledState, PreviousValue, TaskSlot,
};

#[test]
fn current_generation_applies() {
    assert!(should_apply_animation_result(3, 3));
}

#[test]
fn superseded_generation_is_skipped() {
    // A newer cycle started (generation moved on) while this one was
    // still awaiting its animation -- applying it now would clobber the
    // newer cycle's state.
    assert!(!should_apply_animation_result(3, 4));
}

#[test]
fn animated_open_shows_at_once_and_hides_after_the_close_settles() {
    let mut state = AnimatedOpen::new();
    assert!(!state.show_in_dom());
    assert_eq!(state.on_open_change(true), None);
    assert!(state.show_in_dom());
    let wait = state.on_open_change(false);
    assert_eq!(wait, Some(2));
    assert!(state.show_in_dom(), "still shown while the close animation runs");
    state.on_close_settled(2);
    assert!(!state.show_in_dom());
}

#[test]
fn a_close_settling_after_a_reopen_is_ignored() {
    let mut state = AnimatedOpen::new();
    state.on_open_change(true);
    let stale = state.on_open_change(false).unwrap();
    assert_eq!(state.on_open_change(true), None);
    state.on_close_settled(stale);
    assert!(state.show_in_dom(), "the stale close must not hide reopened content");
}

#[test]
fn controlled_value_wins_over_the_internal_one() {
    let mut state = ControlledState::new(None, 5);
    assert_eq!(*state.value(&None), 5);
    state.set(8);
    assert_eq!(*state.value(&None), 8);
    assert_eq!(*state.value(&Some(1)), 1);
    let started_controlled = ControlledState::new(Some(3), 5);
    assert_eq!(*started_controlled.value(&None), 3);
}

#[test]
fn id_or_prefers_the_callers_id() {
    let generated = String::from("dxc-1");
    assert_eq!(id_or(&generated, &None), "dxc-1");
    assert_eq!(id_or(&generated, &Some(String::from("mine"))), "mine");
    let mut slot = String::from("dxc-2");
    sync_generated_id(&mut slot, Some(String::from("custom")));
    assert_eq!(slot, "custom");
    sync_generated_id(&mut slot, None);
    assert_eq!(slot, "custom");
}

#[test]
fn previous_value_follows_changes_only() {
    let mut tracker = PreviousValue::new(1);
    assert_eq!(*tracker.previous(), 1);
    tracker.observe(1);
    assert_eq!(*tracker.previous(), 1);
    tracker.observe(2);
    assert_eq!(*tracker.previous(), 1);
    tracker.observe(2);
    assert_eq!(*tracker.previous(), 1, "an unchanged value keeps the previous one");
    tracker.observe(3);
    assert_eq!(*tracker.previous(), 2);
}

#[test]
fn task_slot_hands_back_what_it_replaces() {
    let mut slot: TaskSlot<u32> = TaskSlot::new();
    assert_eq!(slot.replace(1), None);
    assert_eq!(slot.replace(2), Some(1));
    assert_eq!(slot.take(), Some(2));
    assert_eq!(slot.take(), None);
    slot.replace(3);
    slot.finish();
    assert_eq!(slot.take(), None);
}

#[test]
fn open_submenus_are_counted_once_each() {
    let (count, counted) = sync_open_submenu(0, false, true);
    assert_eq!((count, counted), (1, true));
    assert_eq!(sync_open_submenu(count, counted, true), (1, true));
    let (count2, counted2) = sync_open_submenu(count, true, true);
    let (other, other_counted) = sync_open_submenu(count2, false, true);
    assert_eq!((other, other_counted), (2, true));
    assert_eq!(sync_open_submenu(other, counted2, false), (1, false));
    assert_eq!(unmount_submenu(1, true), 0);
    assert_eq!(unmount_submenu(1, false), 1);
    assert_eq!(sync_open_submenu(0, false, false), (0, false));
}
