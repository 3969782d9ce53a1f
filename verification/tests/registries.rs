use dioxus_primitives::portal::{PortalId, PortalRegistry};
use dioxus_primitives::resizable::{clear_slot, effective_values, set_slot, slot_or, slot_value};

#[test]
fn portal_content_comes_out_where_it_was_handed_in() {
    let mut registry: PortalRegistry<String> = PortalRegistry::new();
    let first = registry.open_portal(String::new());
    let second = registry.open_portal(String::new());
    assert_ne!(first, second);
    assert_eq!(registry.content(first).map(String::as_str), Some(""));
    registry.fill(first, String::from("portal content"));
    assert_eq!(registry.content(first).map(String::as_str), Some("portal content"));
    assert_eq!(registry.content(second).map(String::as_str), Some(""));
    registry.close_portal(first);
    assert_eq!(registry.content(first), None);
    registry.fill(first, String::from("late"));
    assert_eq!(registry.content(first), None, "a closed portal takes nothing");
    assert_eq!(registry.content(PortalId(99)), None);
}

#[test]
fn panel_slots_grow_and_read_back() {
    let mut slots: Vec<Option<u32>> = Vec::new();
    set_slot(&mut slots, 2, Some(40), None);
    assert_eq!(slots, vec![None, None, Some(40)]);
    assert_eq!(slot_value(&slots, 2), Some(40));
    assert_eq!(slot_value(&slots, 0), None);
    assert_eq!(slot_value(&slots, 9), None);
    set_slot(&mut slots, 0, Some(7), None);
    assert_eq!(slots, vec![Some(7), None, Some(40)]);
    clear_slot(&mut slots, 2);
    clear_slot(&mut slots, 8);
    assert_eq!(slots, vec![Some(7), None, None]);
    assert_eq!(slot_or(&[1, 2], 1, 9), 2);
    assert_eq!(slot_or(&[1, 2], 5, 9), 9);
}

#[test]
fn effective_values_prefer_committed_then_computed() {
    assert_eq!(effective_values(2, &[10, 20, 30], &[1, 1], 0), vec![10, 20]);
    assert_eq!(effective_values(3, &[10], &[5, 6, 7], 0), vec![10, 6, 7]);
    assert_eq!(effective_values(3, &[], &[5], 0), vec![5, 0, 0]);
    assert_eq!(effective_values(0, &[1], &[2], 0), Vec::<i32>::new());
}

#[test]
fn portal_in_children_render_at_portal_out_site() {
    let mut registry: PortalRegistry<String> = PortalRegistry::new();
    let portal = registry.open_portal(String::new());
    registry.fill(portal, String::from("portal content"));
    assert_eq!(registry.content(portal).map(String::as_str), Some("portal content"));
}

#[test]
fn portal_out_renders_nothing_before_portal_in_runs() {
    let mut registry: PortalRegistry<String> = PortalRegistry::new();
    let portal = registry.open_portal(String::new());
    assert_eq!(registry.content(portal).map(String::as_str), Some(""));
}
