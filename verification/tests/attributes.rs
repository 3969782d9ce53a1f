use dioxus_primitives::attributes::{join_class, merge_attributes, Attribute, AttributeValue};

fn attr(name: &'static str, value: &str) -> Attribute<()> {
    Attribute {
        name,
        namespace: None,
        volatile: false,
        value: AttributeValue::Text(value.to_string()),
    }
}

fn get_value(attr: &Attribute<()>) -> &str {
    match &attr.value {
        AttributeValue::Text(s) => s,
        _ => panic!("expected Text"),
    }
}

#[test]
fn merge_empty_lists() {
    let result = merge_attributes::<()>(vec![]);
    assert!(result.is_empty());
}

#[test]
fn merge_single_list() {
    let result = merge_attributes(vec![vec![attr("a", "1"), attr("b", "2")]]);
    assert_eq!(result.len(), 2);
    assert_eq!(result[0].name, "a");
    assert_eq!(result[1].name, "b");
}

#[test]
fn merge_preserves_sorted_order() {
    let result = merge_attributes(vec![
        vec![attr("a", "1"), attr("c", "3")],
        vec![attr("b", "2"), attr("d", "4")],
    ]);
    assert_eq!(result.len(), 4);
    assert_eq!(result[0].name, "a");
    assert_eq!(result[1].name, "b");
    assert_eq!(result[2].name, "c");
    assert_eq!(result[3].name, "d");
}

#[test]
fn later_list_overwrites() {
    let result = merge_attributes(vec![vec![attr("a", "first")], vec![attr("a", "second")]]);
    assert_eq!(result.len(), 1);
    assert_eq!(get_value(&result[0]), "second");
}

#[test]
fn class_attributes_are_merged() {
    let result = merge_attributes(vec![vec![attr("class", "foo")], vec![attr("class", "bar")]]);
    assert_eq!(result.len(), 1);
    assert_eq!(get_value(&result[0]), "foo bar");
}

#[test]
fn class_merge_trims_whitespace() {
    let result = merge_attributes(vec![
        vec![attr("class", "  foo  ")],
        vec![attr("class", "  bar  ")],
    ]);
    assert_eq!(get_value(&result[0]), "foo bar");
}

#[test]
fn class_merge_handles_empty() {
    let result = merge_attributes(vec![vec![attr("class", "")], vec![attr("class", "bar")]]);
    assert_eq!(get_value(&result[0]), "bar");
}

#[test]
fn mixed_attributes() {
    let result = merge_attributes(vec![
        vec![attr("class", "a"), attr("id", "x")],
        vec![attr("class", "b"), attr("id", "y")],
    ]);
    assert_eq!(result.len(), 2);
    // Should be sorted by name
    assert_eq!(result[0].name, "class");
    assert_eq!(result[1].name, "id");
    // class merged, id overwritten
    assert_eq!(get_value(&result[0]), "a b");
    assert_eq!(get_value(&result[1]), "y");
}

#[test]
fn unsorted_input_still_works() {
    // Even if inputs aren't sorted, the function should handle it
    let result = merge_attributes(vec![
        vec![attr("z", "1"), attr("a", "2")],
        vec![attr("m", "3")],
    ]);
    assert_eq!(result.len(), 3);
    // Output should be sorted
    assert_eq!(result[0].name, "a");
    assert_eq!(result[1].name, "m");
    assert_eq!(result[2].name, "z");
}

#[test]
fn volatile_flag_preserved_on_class_merge() {
    let mut a1 = attr("class", "foo");
    a1.volatile = true;
    let a2 = attr("class", "bar");

    let result = merge_attributes(vec![vec![a1], vec![a2]]);
    assert!(result[0].volatile);
}

#[test]
fn same_name_different_namespace_are_kept_apart() {
    let mut styled = attr("color", "red");
    styled.namespace = Some("style");
    let plain = attr("color", "blue");
    let mut later_styled = attr("color", "green");
    later_styled.namespace = Some("style");
    let result = merge_attributes(vec![vec![styled, plain], vec![later_styled]]);
    assert_eq!(result.len(), 2);
    assert_eq!(result[0].namespace, Some("style"));
    assert_eq!(get_value(&result[0]), "green");
    assert_eq!(result[1].namespace, None);
    assert_eq!(get_value(&result[1]), "blue");
}

#[test]
fn non_text_class_value_is_replaced_not_joined() {
    let first = attr("class", "foo");
    let second: Attribute<()> = Attribute {
        name: "class",
        namespace: None,
        volatile: false,
        value: AttributeValue::Other(()),
    };
    let result = merge_attributes(vec![vec![first], vec![second]]);
    assert_eq!(result.len(), 1);
    assert!(matches!(result[0].value, AttributeValue::Other(())));
}

#[test]
fn three_class_lists_join_in_list_order() {
    let result = merge_attributes(vec![
        vec![attr("class", "a")],
        vec![attr("class", " b ")],
        vec![attr("class", "c")],
    ]);
    assert_eq!(get_value(&result[0]), "a b c");
}

#[test]
fn names_sort_by_their_characters() {
    let result = merge_attributes(vec![vec![attr("ab", "1"), attr("a", "2"), attr("B", "3")]]);
    let names: Vec<&str> = result.iter().map(|a| a.name).collect();
    assert_eq!(names, vec!["B", "a", "ab"]);
}

#[test]
fn join_class_trims_and_separates() {
    assert_eq!(join_class("  x ", " y  "), "x y");
    assert_eq!(join_class("   ", "y"), "y");
    assert_eq!(join_class("x", ""), "x");
    assert_eq!(join_class("", ""), "");
}

#[test]
fn class_trim_removes_unicode_white_space() {
    assert_eq!(join_class("\u{3000}x\u{00A0}", "\u{2009}y\n"), "x y");
    assert_eq!(join_class("\u{200B}x", "y"), "\u{200B}x y", "a zero-width space is not white space");
}
