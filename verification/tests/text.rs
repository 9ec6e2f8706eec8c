use wordbook::text::{decimal_string, join, push_decimal};

fn strings(items: &[&str]) -> Vec<String> {
    items.iter().map(|s| s.to_string()).collect()
}

#[test]
fn decimal_of_small_numbers() {
    assert_eq!(decimal_string(0), "0");
    assert_eq!(decimal_string(1), "1");
    assert_eq!(decimal_string(9), "9");
}

#[test]
fn decimal_of_larger_numbers() {
    assert_eq!(decimal_string(10), "10");
    assert_eq!(decimal_string(101), "101");
    assert_eq!(decimal_string(9876543210), "9876543210");
}

#[test]
fn decimal_agrees_with_the_standard_library() {
    for n in [0usize, 7, 10, 42, 99, 100, 1234, 65535, usize::MAX] {
        assert_eq!(decimal_string(n), n.to_string());
    }
}

#[test]
fn push_decimal_appends() {
    let mut out = String::from("no. ");
    push_decimal(&mut out, 305);
    assert_eq!(out, "no. 305");
}

#[test]
fn join_of_nothing_is_empty() {
    assert_eq!(join(&Vec::new(), ", "), "");
}

#[test]
fn join_of_one_item_has_no_separator() {
    assert_eq!(join(&strings(&["alone"]), ", "), "alone");
}

#[test]
fn join_keeps_the_order() {
    assert_eq!(join(&strings(&["b", "a", "c"]), ", "), "b, a, c");
}

#[test]
fn join_agrees_with_the_standard_library() {
    let items = strings(&["", "x", "", "yz"]);
    assert_eq!(join(&items, "--"), items.join("--"));
}
