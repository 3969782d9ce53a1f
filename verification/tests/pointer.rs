use dioxus_primitives::pointer::{upsert_pointer, Pointer, PointerRegistry};

#[test]
fn upsert_pointer_updates_existing_pointer() {
    let mut pointers = vec![Pointer {
        id: 1,
        position: (10.0, 20.0),
    }];

    upsert_pointer(&mut pointers, 1, (30.0, 40.0));

    assert_eq!(pointers.len(), 1);
    assert_eq!(pointers[0].position, (30.0, 40.0));
}

#[test]
fn upsert_pointer_appends_an_unknown_pointer() {
    let mut pointers = vec![Pointer {
        id: 1,
        position: (10.0, 20.0),
    }];

    upsert_pointer(&mut pointers, 2, (5.0, 6.0));

    assert_eq!(pointers.len(), 2);
    assert_eq!(pointers[0].position, (10.0, 20.0));
    assert_eq!(pointers[1].id, 2);
    assert_eq!(pointers[1].position, (5.0, 6.0));
}

#[test]
fn track_pointer_down_then_pointer_position_reports_it() {
    let mut registry: PointerRegistry<(f64, f64)> = PointerRegistry::new();
    assert_eq!(registry.pointer_position(101), None, "unknown pointer starts absent");

    registry.track_pointer_down(101, (1.0, 2.0));
    assert_eq!(registry.pointer_position(101), Some((1.0, 2.0)));
}

#[test]
fn add_pointer_then_update_pointer_moves_it() {
    let mut registry: PointerRegistry<(f64, f64)> = PointerRegistry::new();
    registry.add_pointer(102, (5.0, 5.0));
    assert_eq!(registry.pointer_position(102), Some((5.0, 5.0)));

    registry.update_pointer(102, (9.0, 9.0));
    assert_eq!(
        registry.pointer_position(102),
        Some((9.0, 9.0)),
        "update_pointer must move the existing entry, not add a new one"
    );
}

#[test]
fn update_pointer_on_unknown_id_is_a_no_op() {
    let mut registry: PointerRegistry<(f64, f64)> = PointerRegistry::new();
    // No add_pointer(103, ..) beforehand.
    registry.update_pointer(103, (9.0, 9.0));
    assert_eq!(
        registry.pointer_position(103),
        None,
        "update_pointer must not create an entry for an unknown pointer id"
    );
}

#[test]
fn remove_pointer_clears_it_and_leaves_others() {
    let mut registry: PointerRegistry<(f64, f64)> = PointerRegistry::new();
    registry.add_pointer(104, (1.0, 1.0));
    registry.add_pointer(105, (2.0, 2.0));

    registry.remove_pointer(104);

    assert_eq!(registry.pointer_position(104), None, "removed pointer must be gone");
    assert_eq!(
        registry.pointer_position(105),
        Some((2.0, 2.0)),
        "removing one pointer must not affect another"
    );
}

#[test]
fn adding_a_tracked_pointer_again_moves_it() {
    let mut registry: PointerRegistry<(i32, i32)> = PointerRegistry::new();
    registry.add_pointer(7, (1, 1));
    registry.add_pointer(7, (3, 4));
    assert_eq!(registry.pointer_position(7), Some((3, 4)));
    registry.remove_pointer(7);
    assert_eq!(registry.pointer_position(7), None);
}
