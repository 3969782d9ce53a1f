use dioxus_primitives::selection::{
    insert_option, option_text_value, remove_option_state, resolve_text_value, selected_text,
    sync_option_state, OptionState,
};

fn option(id: &str, index: usize) -> OptionState<String> {
    OptionState {
        id: id.to_string(),
        index,
        value: id.to_string(),
        text_value: id.to_string(),
    }
}

fn ids(options: &[OptionState<String>]) -> Vec<&str> {
    options.iter().map(|option| option.text_value.as_str()).collect()
}

fn indices(options: &[OptionState<String>]) -> Vec<usize> {
    options.iter().map(|option| option.index).collect()
}

#[test]
fn sync_option_state_keeps_sorted_order() {
    let mut options = vec![option("a", 0), option("b", 1), option("c", 2)];

    sync_option_state(&mut options, option("d", 3));

    assert_eq!(ids(&options), ["a", "b", "c", "d"]);
    assert_eq!(indices(&options), [0, 1, 2, 3]);
}

#[test]
fn sync_option_state_updates_matching_id_and_reorders() {
    let mut options = vec![option("a", 0), option("b", 1), option("c", 2)];

    sync_option_state(&mut options, option("b", 3));

    assert_eq!(ids(&options), ["a", "c", "b"]);
    assert_eq!(indices(&options), [0, 2, 3]);
}

#[test]
fn removing_stale_option_does_not_remove_option_that_moved_to_same_index() {
    let mut options = vec![option("a", 0), option("b", 1)];

    sync_option_state(&mut options, option("b", 0));
    remove_option_state(&mut options, "a");

    assert_eq!(ids(&options), ["b"]);
    assert_eq!(indices(&options), [0]);
}

#[test]
fn option_text_value_prefers_explicit_text_value() {
    let value = "ignored".to_string();
    let text = option_text_value(&value, Some("explicit".to_string()), "Select");
    assert_eq!(text, "explicit");
}

#[test]
fn option_text_value_falls_back_to_string_value() {
    let value = "from-string".to_string();
    let text = option_text_value(&value, None, "Select");
    assert_eq!(text, "from-string");
}

#[test]
fn option_text_value_falls_back_to_str_value() {
    let value: &str = "from-str";
    let text = option_text_value(&value, None, "Select");
    assert_eq!(text, "from-str");
}

#[test]
fn option_text_value_defaults_to_empty_for_non_string_types_without_text_value() {
    let value = 42i32;
    let text = option_text_value(&value, None, "Select");
    assert_eq!(text, "");
}

#[test]
fn selected_text_joins_matching_options_in_selection_order() {
    let options = vec![option("a", 0), option("b", 1), option("c", 2)];
    let a_value = "a".to_string();
    let c_value = "c".to_string();

    let text = selected_text(&[&c_value, &a_value], &options);
    assert_eq!(text, Some("c, a".to_string()));
}

#[test]
fn selected_text_skips_values_with_no_matching_option() {
    let options = vec![option("a", 0)];
    let stale_value = "gone".to_string();

    let text = selected_text(&[&stale_value], &options);
    assert_eq!(
        text, None,
        "no matching option means no text, not an empty joined string"
    );
}

#[test]
fn selected_text_returns_none_for_no_values() {
    let options = vec![option("a", 0)];
    let values: Vec<&String> = Vec::new();

    assert_eq!(selected_text(&values, &options), None);
}

#[test]
fn selected_text_skips_only_the_unmatched_values() {
    let options = vec![option("a", 0), option("b", 1)];
    let b = "b".to_string();
    let gone = "gone".to_string();
    let a = "a".to_string();
    assert_eq!(
        selected_text(&[&b, &gone, &a], &options),
        Some("b, a".to_string())
    );
}

#[test]
fn selected_text_uses_first_matching_option_text() {
    let mut first = option("x", 0);
    first.value = "v".to_string();
    first.text_value = "First".to_string();
    let mut second = option("y", 1);
    second.value = "v".to_string();
    second.text_value = "Second".to_string();
    let v = "v".to_string();
    assert_eq!(selected_text(&[&v], &[first, second]), Some("First".to_string()));
}

#[test]
fn insert_option_goes_after_equal_indices() {
    let mut options = vec![option("a", 0), option("b", 1), option("c", 1), option("d", 2)];
    insert_option(&mut options, option("e", 1));
    assert_eq!(ids(&options), ["a", "b", "c", "e", "d"]);
}

#[test]
fn sync_option_state_replaces_in_place_when_index_is_unchanged() {
    let mut options = vec![option("a", 0), option("b", 1)];
    let mut replacement = option("a", 0);
    replacement.text_value = "A!".to_string();
    sync_option_state(&mut options, replacement);
    assert_eq!(ids(&options), ["A!", "b"]);
}

#[test]
fn remove_option_state_removes_every_option_with_the_id() {
    let mut options = vec![option("a", 0), option("b", 1), option("a", 2)];
    remove_option_state(&mut options, "a");
    assert_eq!(ids(&options), ["b"]);
    remove_option_state(&mut options, "missing");
    assert_eq!(ids(&options), ["b"]);
}

#[test]
fn resolve_text_value_precedence() {
    assert_eq!(
        resolve_text_value(Some("t".into()), Some("s".into()), Some("r".into())),
        "t"
    );
    assert_eq!(resolve_text_value(None, Some("s".into()), Some("r".into())), "s");
    assert_eq!(resolve_text_value(None, None, Some("r".into())), "r");
    assert_eq!(resolve_text_value(None, None, None), "");
}
