use reust::path::{decimal_string, derive_path, signed_decimal_string};

#[test]
fn decimal_of_zero_is_one_digit() {
    assert_eq!(decimal_string(0), "0");
}

#[test]
fn decimal_has_no_leading_zero() {
    assert_eq!(decimal_string(7), "7");
    assert_eq!(decimal_string(10), "10");
    assert_eq!(decimal_string(1205), "1205");
    assert_eq!(decimal_string(65535), "65535");
}

#[test]
fn decimal_of_the_largest_number() {
    assert_eq!(decimal_string(u64::MAX), "18446744073709551615");
}

#[test]
fn signed_decimal_puts_a_minus_before_the_magnitude() {
    assert_eq!(signed_decimal_string(-80), "-80");
    assert_eq!(signed_decimal_string(0), "0");
    assert_eq!(signed_decimal_string(26), "26");
    assert_eq!(signed_decimal_string(i64::MIN), "-9223372036854775808");
    assert_eq!(signed_decimal_string(i64::MAX), "9223372036854775807");
}

#[test]
fn path_of_the_root_node() {
    assert_eq!(derive_path("", 0, "Node"), "/0~Node");
}

#[test]
fn path_joins_parent_index_and_kind() {
    assert_eq!(derive_path("/0~Node", 3, "Container"), "/0~Node/3~Container");
    assert_eq!(derive_path("/0~Node/3~Container", 12, "Counter"), "/0~Node/3~Container/12~Counter");
}

#[test]
fn sibling_paths_differ_by_index_alone() {
    let first = derive_path("/0~Node", 1, "Counter");
    let second = derive_path("/0~Node", 2, "Counter");
    let eleventh = derive_path("/0~Node", 11, "Counter");
    assert_ne!(first, second);
    assert_ne!(first, eleventh);
    assert!(!eleventh.starts_with(&first));
}
