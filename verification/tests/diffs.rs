//! Diffs as JSON patches, applied with an independent patch implementation.

use colyseus::diff::diff;
use colyseus::json::Json;
use colyseus::pointer::{child_path, escape, unescape};
use colyseus::value::parse_json;
use serde_json::Value;

fn j(text: &str) -> Json {
    parse_json(text).expect("valid JSON")
}

fn apply(doc: &Json, ops: &Vec<Json>) -> Value {
    let mut doc: Value = doc.to_value();
    let patch: json_patch::Patch =
        serde_json::from_value(Json::Array(ops.clone()).to_value()).unwrap();
    json_patch::patch(&mut doc, &patch).expect("patch must apply");
    doc
}

fn roundtrip(old: &str, new: &str) -> Vec<Value> {
    let (old, new) = (j(old), j(new));
    let ops = diff(&old, &new);
    let result = apply(&old, &ops);
    assert_eq!(result, new.to_value(), "patch did not produce target; ops: {ops:?}");
    ops.iter().map(|op| op.to_value()).collect()
}

fn messages(from: u32, to: u32) -> String {
    let items: Vec<String> =
        (from..to).map(|i| format!("{{\"id\": {i}, \"text\": \"m{i}\"}}")).collect();
    format!("{{\"messages\": [{}]}}", items.join(","))
}

#[test]
fn sliding_window_queue_is_two_ops() {
    let ops = roundtrip(&messages(0, 50), &messages(1, 51));
    assert_eq!(ops.len(), 2, "expected remove+add, got {ops:?}");
    assert_eq!(ops[0]["op"], "remove");
    assert_eq!(ops[0]["path"], "/messages/0");
    assert_eq!(ops[1]["op"], "add");
}

#[test]
fn same_length_entity_array_deep_diffs() {
    let ops = roundtrip(
        r#"{"players": [{"x": 1, "y": 2}, {"x": 3, "y": 4}]}"#,
        r#"{"players": [{"x": 1, "y": 2}, {"x": 9, "y": 4}]}"#,
    );
    let expected: Value =
        serde_json::from_str(r#"{"op": "replace", "path": "/players/1/x", "value": 9}"#).unwrap();
    assert_eq!(ops, vec![expected]);
}

#[test]
fn object_key_add_remove() {
    roundtrip(r#"{"a": 1, "b": 2}"#, r#"{"b": 3, "c": 4}"#);
}

#[test]
fn array_append_and_prepend() {
    roundtrip("[1, 2, 3]", "[1, 2, 3, 4]");
    roundtrip("[1, 2, 3]", "[0, 1, 2, 3]");
}

#[test]
fn array_mixed_edits_and_shift() {
    let old: Vec<String> = (0..10).map(|i| format!("{{\"id\": {i}, \"hp\": 100}}")).collect();
    let mut new: Vec<String> = (1..11).map(|i| format!("{{\"id\": {i}, \"hp\": 100}}")).collect();
    new[0] = "{\"id\": 1, \"hp\": 50}".to_string(); // shifted + edited
    roundtrip(
        &format!("{{\"e\": [{}]}}", old.join(",")),
        &format!("{{\"e\": [{}]}}", new.join(",")),
    );
}

#[test]
fn truncation_and_growth() {
    roundtrip("[1, 2, 3, 4, 5]", "[1, 2]");
    roundtrip("[1]", "[1, 2, 3, 4]");
}

#[test]
fn nested_paths_escaped() {
    let ops = roundtrip(r#"{"a/b": {"~x": 1}}"#, r#"{"a/b": {"~x": 2}}"#);
    assert_eq!(ops[0]["path"], "/a~1b/~0x");
}

#[test]
fn no_change_no_ops() {
    assert!(diff(&j(r#"{"a": [1, 2, {"b": 3}]}"#), &j(r#"{"a": [1, 2, {"b": 3}]}"#)).is_empty());
}

#[test]
fn different_kinds_are_replaced_whole() {
    let ops = roundtrip(r#"{"a": [1]}"#, r#"{"a": {"b": 1}}"#);
    assert_eq!(ops.len(), 1);
    assert_eq!(ops[0]["op"], "replace");
    assert_eq!(ops[0]["path"], "/a");
    // a change at the root has the empty path
    assert_eq!(roundtrip("1", "2")[0]["path"], "");
}

#[test]
fn doubles_and_nulls_are_compared_by_value() {
    assert!(diff(&j("0.0"), &j("-0.0")).is_empty());
    assert_eq!(roundtrip("1.5", "2.5").len(), 1);
    assert_eq!(roundtrip("null", "false").len(), 1);
    // a whole number and a double of the same value are different values
    assert_eq!(diff(&j("1"), &j("1.0")).len(), 1);
}

#[test]
fn long_arrays_fall_back_to_positions() {
    // too many cells for the table: the tails are compared place by place
    let numbers = |from: u32, to: u32| {
        let items: Vec<String> = (from..to).map(|i| i.to_string()).collect();
        format!("[{}]", items.join(","))
    };
    let ops = roundtrip(&numbers(0, 200), &numbers(1000, 1150));
    assert_eq!(ops.len(), 150 + 50);
    assert_eq!(ops[0]["op"], "replace");
    assert_eq!(ops[199]["op"], "remove");
}

#[test]
fn an_edit_script_is_as_short_as_can_be() {
    // one element leaves the middle and one comes at the end
    let ops = roundtrip("[1, 2, 3, 4, 5, 6, 7, 8, 9, 10]", "[1, 3, 4, 5, 6, 7, 8, 9, 10, 11]");
    assert_eq!(ops.len(), 2);
    assert_eq!(ops[0]["op"], "remove");
    assert_eq!(ops[0]["path"], "/1");
    assert_eq!(ops[1]["op"], "add");
    assert_eq!(ops[1]["path"], "/9");
    // short arrays of one length are compared place by place
    assert_eq!(roundtrip("[1, 2, 3, 4]", "[1, 3, 4, 5]").len(), 3);
}

#[test]
fn path_segments_are_escaped_and_read_back() {
    assert_eq!(escape("a/b~c"), "a~1b~0c");
    assert_eq!(unescape("a~1b~0c"), "a/b~c");
    assert_eq!(unescape("~01"), "~1");
    assert_eq!(child_path("/a", "b/c"), "/a/b~1c");
    assert_eq!(child_path("", "~"), "/~0");
}
