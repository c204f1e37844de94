use bevy_settings::{
    compute_delta, copy_value, equals, merge_values, merge_with_defaults, Number, SettingsError,
    Tree,
};

fn s(text: &str) -> String {
    text.to_string()
}

fn num(n: u64) -> Tree {
    Tree::Number(Number::PosInt(n))
}

fn text(t: &str) -> Tree {
    Tree::String(t.to_string())
}

fn obj(entries: Vec<(&str, Tree)>) -> Tree {
    Tree::Object(entries.into_iter().map(|(k, v)| (k.to_string(), v)).collect())
}

/// The serialized defaults of a settings type with a nested group.
fn test_settings_defaults() -> Tree {
    obj(vec![
        ("value", num(0)),
        ("name", text("")),
        ("nested", obj(vec![("enabled", Tree::Bool(false)), ("count", num(0))])),
    ])
}

fn test_settings_with_value(v: u64) -> Tree {
    obj(vec![
        ("value", num(v)),
        ("name", text("")),
        ("nested", obj(vec![("enabled", Tree::Bool(false)), ("count", num(0))])),
    ])
}

fn check_no_changes() {
    let defaults = test_settings_defaults();
    let settings = test_settings_defaults();
    let delta = compute_delta(&settings, &defaults);
    assert!(delta.is_none());
}

fn check_with_changes() {
    let defaults = test_settings_defaults();
    let settings = test_settings_with_value(42);
    let delta = compute_delta(&settings, &defaults);
    assert!(delta.is_some());
    let delta_value = delta.unwrap();
    assert!(delta_value.get("value").is_some());
    assert_eq!(delta_value.get("value").unwrap(), &num(42));
    assert!(delta_value.get("name").is_none());
}

fn check_merge() {
    let defaults = test_settings_defaults();
    let delta = obj(vec![("value", num(100))]);
    let result = merge_with_defaults(&defaults, Some(&delta));
    assert_eq!(result.get("value").unwrap(), &num(100));
    assert_eq!(result.get("name").unwrap(), &text(""));
}

#[test]
fn delta_test_compute_delta_no_changes() {
    check_no_changes();
}

#[test]
fn delta_test_compute_delta_with_changes() {
    check_with_changes();
}

#[test]
fn delta_test_merge_with_defaults() {
    check_merge();
}

#[test]
fn storage_test_compute_delta_no_changes() {
    check_no_changes();
}

#[test]
fn storage_test_compute_delta_with_changes() {
    check_with_changes();
}

#[test]
fn storage_test_merge_with_defaults() {
    check_merge();
}

#[test]
fn unified_storage_test_compute_delta_no_changes() {
    check_no_changes();
}

#[test]
fn unified_storage_test_compute_delta_with_changes() {
    check_with_changes();
}

#[test]
fn unified_storage_test_merge_with_defaults() {
    check_merge();
}

#[test]
fn test_settings_error_display() {
    assert_eq!(SettingsError::UnknownKey.message(), "unknown key");
    assert_eq!(SettingsError::TypeMismatch.message(), "type mismatch");
    assert_eq!(
        SettingsError::ValidationFailed("out of bounds".to_string()).message(),
        "validation failed: out of bounds"
    );
}

#[test]
fn defaults_have_no_delta() {
    let defaults = obj(vec![
        ("a", num(1)),
        ("list", Tree::Array(vec![num(1), num(2)])),
        ("nested", obj(vec![("x", Tree::Bool(false))])),
    ]);
    let same = copy_value(&defaults);
    assert!(compute_delta(&same, &defaults).is_none());
    assert!(compute_delta(&Tree::Null, &Tree::Null).is_none());
}

#[test]
fn partial_update_keeps_only_the_changed_leaf() {
    let defaults = obj(vec![
        ("a", num(1)),
        ("b", num(2)),
        ("nested", obj(vec![("x", Tree::Bool(false)), ("y", num(0))])),
    ]);
    let live = obj(vec![
        ("a", num(1)),
        ("b", num(2)),
        ("nested", obj(vec![("x", Tree::Bool(true)), ("y", num(0))])),
    ]);
    let delta = compute_delta(&live, &defaults).unwrap();
    assert_eq!(delta, obj(vec![("nested", obj(vec![("x", Tree::Bool(true))]))]));
    assert!(delta.get("b").is_none());
    assert!(delta.get("nested").unwrap().get("y").is_none());
}

#[test]
fn round_trip_restores_the_value() {
    let defaults = obj(vec![
        ("port", num(8080)),
        ("host", text("localhost")),
        ("tags", Tree::Array(vec![text("a")])),
        ("limits", obj(vec![("max", num(10)), ("min", num(1))])),
    ]);
    let live = obj(vec![
        ("host", text("example.org")),
        ("port", num(8080)),
        ("limits", obj(vec![("min", num(1)), ("max", num(99))])),
        ("tags", Tree::Array(vec![text("a"), text("b")])),
    ]);
    let delta = compute_delta(&live, &defaults);
    let back = merge_with_defaults(&defaults, delta.as_ref());
    assert_eq!(back, live);
    assert_ne!(back, defaults);
}

#[test]
fn changed_array_is_copied_whole() {
    let defaults = obj(vec![("list", Tree::Array(vec![num(1), num(2), num(3)]))]);
    let live = obj(vec![("list", Tree::Array(vec![num(1), num(2), num(4)]))]);
    let delta = compute_delta(&live, &defaults).unwrap();
    assert_eq!(delta, obj(vec![("list", Tree::Array(vec![num(1), num(2), num(4)]))]));
}

#[test]
fn key_missing_from_defaults_is_kept() {
    let defaults = obj(vec![("a", num(1))]);
    let live = obj(vec![("a", num(1)), ("extra", obj(vec![("z", num(5))]))]);
    let delta = compute_delta(&live, &defaults).unwrap();
    assert_eq!(delta, obj(vec![("extra", obj(vec![("z", num(5))]))]));
}

#[test]
fn scalar_change_replaces_whole_value() {
    let delta = compute_delta(&text("new"), &num(3)).unwrap();
    assert_eq!(delta, text("new"));
    let neg = compute_delta(&Tree::Number(Number::NegInt(-5)), &num(5)).unwrap();
    assert_eq!(neg, Tree::Number(Number::NegInt(-5)));
}

#[test]
fn merge_without_delta_gives_defaults() {
    let defaults = obj(vec![("a", num(1))]);
    let result = merge_with_defaults(&defaults, None);
    assert_eq!(result, defaults);
}

#[test]
fn merge_adds_unknown_keys_and_recurses() {
    let mut target = obj(vec![
        ("a", num(1)),
        ("nested", obj(vec![("x", num(1)), ("y", num(2))])),
    ]);
    let source = obj(vec![
        ("nested", obj(vec![("y", num(20))])),
        ("new_field", Tree::Bool(true)),
    ]);
    merge_values(&mut target, &source);
    let expected = obj(vec![
        ("a", num(1)),
        ("nested", obj(vec![("x", num(1)), ("y", num(20))])),
        ("new_field", Tree::Bool(true)),
    ]);
    assert_eq!(target, expected);
}

#[test]
fn merge_replaces_non_object_target() {
    let mut target = num(4);
    merge_values(&mut target, &obj(vec![("k", num(1))]));
    assert_eq!(target, obj(vec![("k", num(1))]));
}

#[test]
fn equality_ignores_entry_order() {
    let a = obj(vec![("x", num(1)), ("y", text("two"))]);
    let b = obj(vec![("y", text("two")), ("x", num(1))]);
    let c = obj(vec![("y", text("two")), ("x", num(2))]);
    let d = obj(vec![("x", num(1))]);
    assert!(equals(&a, &b));
    assert!(!equals(&a, &c));
    assert!(!equals(&a, &d));
    assert!(!equals(&d, &a));
    assert!(!equals(&Tree::Array(vec![num(1)]), &Tree::Array(vec![num(1), num(1)])));
}

#[test]
fn later_duplicate_key_counts() {
    let dup = Tree::Object(vec![(s("k"), num(1)), (s("k"), num(2))]);
    assert_eq!(dup.get("k").unwrap(), &num(2));
    assert!(equals(&dup, &obj(vec![("k", num(2))])));
}

#[test]
fn float_bits_compare_exactly() {
    let half = Tree::Number(Number::Float(0.5f64.to_bits()));
    let same = Tree::Number(Number::Float(0.5f64.to_bits()));
    let other = Tree::Number(Number::Float(0.25f64.to_bits()));
    assert!(equals(&half, &same));
    assert!(compute_delta(&other, &half).is_some());
}
