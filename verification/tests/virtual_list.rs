use dioxus_primitives::virtual_list::{default_range_extractor, find_nearest_binary_search, VirtualItem};

fn items(starts: &[u32]) -> Vec<VirtualItem> {
    starts
        .iter()
        .enumerate()
        .map(|(index, &start)| VirtualItem { index, start, size: 10 })
        .collect()
}

#[test]
fn binary_search_finds_exact_start() {
    let measurements = items(&[0, 10, 20, 30]);
    assert_eq!(find_nearest_binary_search(&measurements, 20), 2);
    assert_eq!(find_nearest_binary_search(&measurements, 0), 0);
    assert_eq!(find_nearest_binary_search(&measurements, 30), 3);
}

#[test]
fn binary_search_finds_item_before_offset() {
    let measurements = items(&[0, 10, 20, 30]);
    assert_eq!(find_nearest_binary_search(&measurements, 25), 2);
    assert_eq!(find_nearest_binary_search(&measurements, 999), 3);
    assert_eq!(find_nearest_binary_search(&measurements, 1), 0);
}

#[test]
fn binary_search_before_first_and_on_empty_is_zero() {
    let measurements = items(&[5, 10]);
    assert_eq!(find_nearest_binary_search(&measurements, 2), 0);
    assert_eq!(find_nearest_binary_search(&[], 2), 0);
}

#[test]
fn range_extractor_applies_overscan_and_clamps() {
    let r = default_range_extractor(3..6, 2, 100);
    assert_eq!((*r.start(), *r.end()), (1, 8));
    let r = default_range_extractor(0..2, 5, 4);
    assert_eq!((*r.start(), *r.end()), (0, 3));
}

#[test]
fn range_extractor_empty_count_is_zero_range() {
    let r = default_range_extractor(0..10, 3, 0);
    assert_eq!((*r.start(), *r.end()), (0, 0));
}

#[test]
fn range_extractor_past_the_end_is_zero_range() {
    let r = default_range_extractor(50..60, 0, 10);
    assert_eq!((*r.start(), *r.end()), (0, 0));
}
