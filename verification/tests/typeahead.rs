use dioxus_primitives::keyboard::Key;
use dioxus_primitives::typeahead::{find_next_match, TypeaheadBuffer};

fn item(index: usize, label: &str) -> (usize, String, bool) {
    (index, label.to_string(), false)
}

fn disabled_item(index: usize, label: &str) -> (usize, String, bool) {
    (index, label.to_string(), true)
}

#[test]
fn finds_first_match_from_no_current_focus() {
    let items = vec![item(0, "Apple"), item(1, "Banana"), item(2, "Cherry")];
    assert_eq!(find_next_match(&items, None, "b"), Some(1));
}

#[test]
fn wraps_past_the_end_back_to_the_first_match() {
    let items = vec![item(0, "Apple"), item(1, "Banana"), item(2, "Cherry")];
    assert_eq!(find_next_match(&items, Some(2), "a"), Some(0));
}

#[test]
fn skips_disabled_items_even_when_their_label_matches() {
    let items = vec![
        disabled_item(0, "Apple"),
        item(1, "Avocado"),
        item(2, "Banana"),
    ];
    assert_eq!(find_next_match(&items, None, "a"), Some(1));
}

#[test]
fn repeating_the_same_character_cycles_through_matches() {
    let items = vec![item(0, "Apple"), item(1, "Avocado"), item(2, "Banana")];
    assert_eq!(find_next_match(&items, Some(0), "aa"), Some(1));
    assert_eq!(find_next_match(&items, Some(1), "aaa"), Some(0));
}

#[test]
fn matching_is_case_insensitive() {
    let items = vec![item(0, "Apple")];
    assert_eq!(find_next_match(&items, None, "A"), Some(0));
    assert_eq!(find_next_match(&items, Some(0), "a"), Some(0));
}

#[test]
fn a_narrowing_search_keeps_the_still_matching_current_item() {
    let items = vec![item(0, "Delete"), item(1, "Delta")];
    assert_eq!(find_next_match(&items, Some(0), "de"), Some(0));
}

#[test]
fn a_narrowing_search_moves_on_when_the_current_item_no_longer_matches() {
    let items = vec![item(0, "Duplicate"), item(1, "Delete")];
    assert_eq!(find_next_match(&items, Some(0), "de"), Some(1));
}

#[test]
fn empty_buffer_matches_nothing() {
    let items = vec![item(0, "Apple")];
    assert_eq!(find_next_match(&items, None, ""), None);
}

#[test]
fn all_items_disabled_matches_nothing() {
    let items = vec![disabled_item(0, "Apple")];
    assert_eq!(find_next_match(&items, None, "a"), None);
}

#[test]
fn unordered_input_is_still_navigated_in_index_order() {
    let items = vec![item(2, "Cherry"), item(0, "Apple"), item(1, "Banana")];
    assert_eq!(find_next_match(&items, None, "b"), Some(1));
    assert_eq!(find_next_match(&items, Some(0), "c"), Some(2));
}

#[test]
fn focus_on_a_disabled_or_unknown_index_starts_from_the_first_item() {
    let items = vec![item(0, "Apple"), disabled_item(1, "Avocado"), item(2, "Apricot")];
    assert_eq!(find_next_match(&items, Some(1), "a"), Some(0));
    assert_eq!(find_next_match(&items, Some(7), "a"), Some(0));
}

#[test]
fn no_label_matching_gives_none() {
    let items = vec![item(0, "Apple"), item(1, "Banana")];
    assert_eq!(find_next_match(&items, Some(0), "z"), None);
}

#[test]
fn uppercase_buffer_and_non_ascii_labels_match_case_insensitively() {
    let items = vec![item(0, "Zebra"), item(1, "Ölbaum")];
    assert_eq!(find_next_match(&items, None, "Ö"), Some(1));
    assert_eq!(find_next_match(&items, None, "ÖL"), Some(1));
}

#[test]
fn a_single_match_repeated_stays_on_itself() {
    let items = vec![item(0, "Apple"), item(1, "Banana")];
    assert_eq!(find_next_match(&items, Some(0), "aa"), Some(0));
}

#[test]
fn typeahead_buffer_accumulates_and_moves_focus() {
    let items = vec![
        (0usize, String::from("Apple"), false),
        (1usize, String::from("Banana"), false),
        (2usize, String::from("Blueberry"), false),
    ];
    let mut buffer = TypeaheadBuffer::new();
    let b = Key::Character(String::from("b"));
    let l = Key::Character(String::from("l"));
    assert_eq!(buffer.handle_key(&b, false, false, false, &items, Some(0)), Some(Some(1)));
    assert_eq!(buffer.as_str(), "b");
    assert_eq!(buffer.handle_key(&l, false, false, false, &items, Some(1)), Some(Some(2)));
    assert_eq!(buffer.as_str(), "bl");
    assert_eq!(buffer.handle_key(&b, true, false, false, &items, Some(2)), None, "Ctrl+key is not typeahead");
    assert_eq!(buffer.as_str(), "bl");
    let space = Key::Character(String::from(" "));
    assert_eq!(buffer.handle_key(&space, false, false, false, &items, Some(2)), None);
    buffer.clear();
    assert_eq!(buffer.as_str(), "");
    let z = Key::Character(String::from("z"));
    assert_eq!(buffer.handle_key(&z, false, false, false, &items, Some(2)), Some(None), "qualifies but matches nothing");
    assert_eq!(buffer.push("q"), "zq");
}
