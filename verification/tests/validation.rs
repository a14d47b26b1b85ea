use mabe::helpers::style_prefix;
use mabe::validator::validate;

fn strings(items: &[&str]) -> Vec<String> {
    items.iter().map(|s| s.to_string()).collect()
}

#[test]
fn all_fields_used_gives_empty_report() {
    let fields = strings(&["cause", "retry_in"]);
    let lists = vec![strings(&["cause"]), strings(&["retry_in", "cause"])];
    assert_eq!(validate(&fields, &lists), Vec::<String>::new());
}

#[test]
fn unused_fields_are_reported_in_field_order() {
    let fields = strings(&["a", "b", "c"]);
    let lists = vec![strings(&["b"])];
    assert_eq!(validate(&fields, &lists), strings(&["a", "c"]));
}

#[test]
fn usage_is_verbatim_text_equality() {
    let fields = strings(&["field_name"]);
    let lists = vec![strings(&["field_name_suffix"])];
    assert_eq!(validate(&fields, &lists), strings(&["field_name"]));
}

#[test]
fn empty_group_leaves_every_field_unused() {
    let fields = strings(&["0", "1"]);
    let lists: Vec<Vec<String>> = Vec::new();
    assert_eq!(validate(&fields, &lists), strings(&["0", "1"]));
}

#[test]
fn no_fields_means_nothing_to_report() {
    let fields = Vec::<String>::new();
    let lists = vec![strings(&["x"])];
    assert_eq!(validate(&fields, &lists), Vec::<String>::new());
}

#[test]
fn style_prefix_brackets_the_category() {
    assert_eq!(style_prefix(&"error".to_string()), "[error]");
    assert_eq!(style_prefix(&"reason".to_string()), "[reason]");
    assert_eq!(style_prefix(&"solution".to_string()), "[solution]");
}
