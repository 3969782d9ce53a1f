use dioxus_primitives::window::{window, WindowItem};

fn data_indices(items: &[WindowItem]) -> Vec<usize> {
    items.iter().map(|i| i.data_index).collect()
}

fn positions(items: &[WindowItem]) -> Vec<isize> {
    items.iter().map(|i| i.position).collect()
}

#[test]
fn count_zero_is_empty_no_wrap() {
    assert_eq!(window(0, 0, 0, 8, false), Vec::new());
}

#[test]
fn count_zero_is_empty_with_wrap() {
    assert_eq!(window(0, 0, 0, 8, true), Vec::new());
}

#[test]
fn count_one_no_wrap() {
    let items = window(1, 0, 0, 8, false);
    assert_eq!(data_indices(&items), vec![0]);
    assert_eq!(positions(&items), vec![0]);
}

#[test]
fn count_one_with_wrap_repeats_same_index() {
    let items = window(1, 0, 0, 2, true);
    assert_eq!(data_indices(&items), vec![0, 0, 0, 0, 0]);
    assert_eq!(positions(&items), vec![-2, -1, 0, 1, 2]);
}

#[test]
fn count_two_no_wrap_clamped() {
    let items = window(2, 0, 1, 1, false);
    assert_eq!(data_indices(&items), vec![0, 1]);
}

#[test]
fn count_two_with_wrap() {
    let items = window(2, 0, 0, 2, true);
    assert_eq!(positions(&items), vec![-2, -1, 0, 1, 2]);
    assert_eq!(data_indices(&items), vec![0, 1, 0, 1, 0]);
}

#[test]
fn count_three_no_wrap() {
    let items = window(3, 1, 1, 1, false);
    assert_eq!(data_indices(&items), vec![0, 1, 2]);
}

#[test]
fn count_three_with_wrap_around_anchor() {
    let items = window(3, 1, 1, 1, true);
    assert_eq!(positions(&items), vec![0, 1, 2]);
    assert_eq!(data_indices(&items), vec![0, 1, 2]);
}

#[test]
fn count_smaller_than_window_with_wrap_duplicates_data_index_unique_position() {
    let items = window(3, 0, 0, 4, true);
    assert_eq!(
        positions(&items),
        vec![-4, -3, -2, -1, 0, 1, 2, 3, 4],
        "positions must all be distinct even though data_index repeats"
    );
    assert_eq!(data_indices(&items), vec![2, 0, 1, 2, 0, 1, 2, 0, 1]);

    let mut sorted_positions = positions(&items);
    sorted_positions.sort_unstable();
    sorted_positions.dedup();
    assert_eq!(sorted_positions.len(), items.len());
}

#[test]
fn negative_positions_wrap_via_rem_euclid() {
    let items = window(5, -7, -7, 0, true);
    assert_eq!(data_indices(&items), vec![3]);
}

#[test]
fn positions_at_or_beyond_count_wrap_correctly() {
    let items = window(5, 12, 12, 0, true);
    assert_eq!(data_indices(&items), vec![2]);

    let items = window(5, 5, 5, 0, true);
    assert_eq!(data_indices(&items), vec![0]);
}

#[test]
fn clamping_without_wrap_at_left_edge() {
    let items = window(10, 0, 0, 5, false);
    assert_eq!(data_indices(&items), vec![0, 1, 2, 3, 4, 5]);
    assert_eq!(positions(&items), vec![0, 1, 2, 3, 4, 5]);
}

#[test]
fn clamping_without_wrap_at_right_edge() {
    let items = window(10, 9, 9, 5, false);
    assert_eq!(data_indices(&items), vec![4, 5, 6, 7, 8, 9]);
}

#[test]
fn overscan_zero_no_wrap() {
    let items = window(10, 3, 6, 0, false);
    assert_eq!(data_indices(&items), vec![3, 4, 5, 6]);
}

#[test]
fn overscan_zero_with_wrap() {
    let items = window(10, 3, 6, 0, true);
    assert_eq!(data_indices(&items), vec![3, 4, 5, 6]);
    assert_eq!(positions(&items), vec![3, 4, 5, 6]);
}

#[test]
fn start_greater_than_end_no_wrap_treated_as_single_position() {
    let items = window(10, 5, 2, 0, false);
    assert_eq!(data_indices(&items), vec![5]);
}

#[test]
fn start_greater_than_end_with_wrap_treated_as_single_position() {
    let items = window(10, 5, 2, 1, true);
    assert_eq!(positions(&items), vec![4, 5, 6]);
    assert_eq!(data_indices(&items), vec![4, 5, 6]);
}

#[test]
fn start_greater_than_end_never_panics_for_extreme_values() {
    let items = window(4, isize::MAX, isize::MIN, 0, false);
    assert_eq!(data_indices(&items), Vec::<usize>::new());
}

#[test]
fn large_count_small_window_is_cheap_and_correct() {
    let count = 1 << 32;
    let items = window(count, 1_000_000, 1_000_002, 2, false);
    assert_eq!(
        data_indices(&items),
        vec![999_998, 999_999, 1_000_000, 1_000_001, 1_000_002, 1_000_003, 1_000_004]
    );
}

#[test]
fn large_count_small_window_with_wrap_is_cheap_and_correct() {
    let count = 1 << 32;
    let items = window(count, 10, 10, 3, true);
    assert_eq!(data_indices(&items), vec![7, 8, 9, 10, 11, 12, 13]);
    assert_eq!(positions(&items), vec![7, 8, 9, 10, 11, 12, 13]);
}

#[test]
fn wrapping_window_keys_are_strictly_increasing_positions() {
    let items = window(4, -3, 5, 2, true);
    assert_eq!(items.len(), 13);
    for pair in items.windows(2) {
        assert_eq!(pair[1].position, pair[0].position + 1);
    }
    for item in &items {
        assert_eq!(item.data_index as isize, item.position.rem_euclid(4));
        assert!(item.data_index < 4);
    }
}

#[test]
fn clamped_window_data_index_equals_position() {
    let items = window(6, 2, 3, 1, false);
    assert_eq!(
        items,
        vec![
            WindowItem { data_index: 1, position: 1 },
            WindowItem { data_index: 2, position: 2 },
            WindowItem { data_index: 3, position: 3 },
            WindowItem { data_index: 4, position: 4 },
        ]
    );
}
