use matrix_user_swap::json::{
    array_object_to_text, array_to_text, can_merge, checked_merge_json, merge_json, note_entry,
    object_to_text, show_value, JsonMap,
};
use matrix_user_swap::members::{merge_members, Members, IGNORED_USERS_MEMBER, TAGS_MEMBER};
use matrix_user_swap::text_map::TextMap;

fn map(entries: &[(&str, &str)]) -> JsonMap {
    let mut map = JsonMap::new();
    for (key, value) in entries {
        map.insert(key.to_string(), value.to_string());
    }
    map
}

fn value(text: &str) -> serde_json::Value {
    serde_json::from_str(text).unwrap()
}

fn assert_merged(
    old: &[(&str, &str)],
    new: &[(&str, &str)],
    expected: Option<&str>,
    expected_errors: &[(&str, &str, &str)],
) {
    assert!(can_merge(&map(old), &map(new)));
    let (merged, errors) = merge_json(map(old), map(new));
    let merged = merged.map(|merged| value(&object_to_text(&merged)));
    assert_eq!(merged, expected.map(value));
    assert_eq!(errors.len(), expected_errors.len());
    for (error, (key, old_value, new_value)) in errors.iter().zip(expected_errors) {
        assert_eq!(error.key, *key);
        assert_eq!(value(&error.old_value), value(old_value));
        assert_eq!(value(&error.new_value), value(new_value));
    }
}

#[test]
fn test_merge_empty() {
    assert_merged(&[], &[], None, &[]);
}

#[test]
fn test_merge_empty_new() {
    assert_merged(
        &[("key", "\"value\"")],
        &[],
        Some("{\"key\": \"value\"}"),
        &[],
    );
}

#[test]
fn test_merge_empty_old() {
    assert_merged(&[], &[("key", "\"value\"")], None, &[]);
}

#[test]
fn test_merge_simple() {
    assert_merged(
        &[("key1", "[ \"value1\" ]")],
        &[("key2", "\"value2\"")],
        Some("{\"key1\": [ \"value1\" ], \"key2\": \"value2\"}"),
        &[],
    );
}

#[test]
fn test_merge_conflict() {
    assert_merged(
        &[
            ("shared_key", "\"value1\""),
            ("conflicted_key", "\"value2\""),
            ("new_key", "\"value3\""),
        ],
        &[
            ("shared_key", "\"value1\""),
            ("conflicted_key", "\"value4\""),
        ],
        Some(
            "{\"shared_key\": \"value1\", \"conflicted_key\": \"value4\", \"new_key\": \"value3\"}",
        ),
        &[("conflicted_key", "\"value2\"", "\"value4\"")],
    );
}

#[test]
fn values_are_compared_as_json() {
    // The same value in another notation is no conflict, and nothing is added.
    assert_merged(
        &[("key", "{\"a\": 1, \"b\": [2]}")],
        &[("key", "{ \"b\":[2],\"a\":1 }")],
        None,
        &[],
    );
    // A conflict alone adds nothing either.
    assert_merged(
        &[("key", "1")],
        &[("key", "2")],
        None,
        &[("key", "1", "2")],
    );
}

#[test]
fn merging_again_adds_nothing() {
    let old = [("a", "1"), ("b", "2")];
    let new = [("b", "3"), ("c", "4")];
    let (merged, errors) = merge_json(map(&old), map(&new));
    assert_eq!(errors.len(), 1);
    let merged = merged.unwrap();
    assert_eq!(object_to_text(&merged), "{\"a\":1,\"b\":3,\"c\":4}");
    let (again, same_errors) = merge_json(map(&old), merged);
    assert!(again.is_none());
    // The same conflicts are reported as before.
    assert_eq!(same_errors.len(), errors.len());
    for (again, before) in same_errors.iter().zip(&errors) {
        assert_eq!(again.key, before.key);
        assert_eq!(again.old_value, before.old_value);
        assert_eq!(again.new_value, before.new_value);
    }
}

fn tagged(inner: &[(&str, &str)], rest: &[(&str, &str)]) -> Members {
    let mut object = map(rest);
    object.insert(TAGS_MEMBER.to_string(), object_to_text(&map(inner)));
    Members { object, inner: Some(map(inner)) }
}

fn plain(object: &[(&str, &str)]) -> Members {
    Members { object: map(object), inner: None }
}

fn merge(old: Members, new: Members) -> (Option<String>, Vec<String>) {
    let (merged, errors) = merge_members(old, new, TAGS_MEMBER).unwrap();
    let errors = errors
        .iter()
        .map(|error| format!("{} {} {}", error.key, error.old_value, error.new_value))
        .collect();
    (merged.map(|members| members.to_text(TAGS_MEMBER)), errors)
}

#[test]
fn members_are_merged_one_by_one() {
    let (merged, errors) = merge(
        tagged(&[("u.a", "{}"), ("u.c", "1")], &[]),
        tagged(&[("u.b", "{}"), ("u.c", "2")], &[("x", "0")]),
    );
    assert_eq!(
        merged.as_deref(),
        Some("{\"tags\":{\"u.a\":{},\"u.b\":{},\"u.c\":2},\"x\":0}")
    );
    assert_eq!(errors, ["u.c 1 2"]);
    // Nothing is added.
    let (merged, errors) = merge(tagged(&[("u.a", "{}")], &[]), tagged(&[("u.a", "{ }")], &[]));
    assert!(merged.is_none() && errors.is_empty());
    // What is outside of the inner object counts too, after it.
    let (merged, errors) = merge(
        tagged(&[("u.a", "1")], &[("a", "1"), ("y", "1")]),
        tagged(&[("u.a", "2")], &[("y", "2")]),
    );
    assert_eq!(merged.as_deref(), Some("{\"a\":1,\"tags\":{\"u.a\":2},\"y\":2}"));
    assert_eq!(errors, ["u.a 1 2", "y 1 2"]);
    // Values that cannot be compared.
    let unreadable = |old: Members, new: Members| merge_members(old, new, TAGS_MEMBER).is_none();
    assert!(unreadable(tagged(&[("a", "{")], &[]), tagged(&[("a", "1")], &[])));
    assert!(unreadable(tagged(&[], &[("a", "1")]), tagged(&[], &[("a", "{")])));
    assert!(unreadable(plain(&[("a", "1")]), plain(&[("a", "{")])));
}

#[test]
fn events_that_do_not_both_hold_an_object_are_merged_as_a_whole() {
    let (merged, errors) = merge(plain(&[("x", "1")]), plain(&[("y", "2")]));
    assert_eq!(merged.as_deref(), Some("{\"x\":1,\"y\":2}"));
    assert!(errors.is_empty());
    let (merged, errors) = merge(tagged(&[("u.a", "1")], &[]), plain(&[("y", "2")]));
    assert_eq!(merged.as_deref(), Some("{\"tags\":{\"u.a\":1},\"y\":2}"));
    assert!(errors.is_empty());
    let (merged, errors) = merge(plain(&[("y", "2")]), tagged(&[("u.a", "1")], &[]));
    assert_eq!(merged.as_deref(), Some("{\"tags\":{\"u.a\":1},\"y\":2}"));
    assert!(errors.is_empty());
    let (merged, errors) = merge(tagged(&[], &[]), plain(&[("tags", "[]")]));
    assert_eq!(merged, None);
    assert_eq!(errors, ["tags {} []"]);
}

#[test]
fn merging_members_again_adds_nothing() {
    for (old, new) in [
        (|| tagged(&[("u.a", "1"), ("u.c", "1")], &[("x", "1")]), tagged(&[("u.c", "2")], &[])),
        (|| tagged(&[("u.a", "1"), ("u.c", "1")], &[("x", "1")]), plain(&[("x", "2")])),
        (|| tagged(&[("u.a", "1"), ("u.c", "1")], &[("x", "1")]), plain(&[("tags", "2")])),
    ] as [(fn() -> Members, Members); 3]
    {
        let (merged, errors) = merge_members(old(), new, TAGS_MEMBER).unwrap();
        let (again, same_errors) =
            merge_members(old(), merged.unwrap(), TAGS_MEMBER).unwrap();
        assert!(again.is_none());
        assert_eq!(errors.len(), 1);
        assert_eq!(same_errors.len(), 1);
        assert_eq!(same_errors[0].key, errors[0].key);
        assert_eq!(same_errors[0].old_value, errors[0].old_value);
        assert_eq!(same_errors[0].new_value, errors[0].new_value);
    }
}

#[test]
fn events_hold_their_members_under_a_name() {
    assert_eq!(Members::new().to_text(TAGS_MEMBER), "{}");
    assert_eq!(plain(&[("x", "[ 1 ]")]).to_text(TAGS_MEMBER), "{\"x\":[ 1 ]}");
    let ignored = Members {
        object: map(&[("ignored_users", "{}"), ("a", "1"), ("x\"", "2")]),
        inner: Some(map(&[("@b:x", "{}"), ("@a:x", "{}")])),
    };
    assert_eq!(
        ignored.to_text(IGNORED_USERS_MEMBER),
        "{\"a\":1,\"ignored_users\":{\"@a:x\":{},\"@b:x\":{}},\"x\\\"\":2}"
    );
}

#[test]
fn only_different_values_are_noted() {
    let (key, old, new) = ("k".to_string(), "1".to_string(), "2".to_string());
    let mut errors = vec![];
    note_entry(&key, &old, &new, true, &mut errors);
    assert!(errors.is_empty());
    note_entry(&key, &old, &new, false, &mut errors);
    assert_eq!(errors.len(), 1);
    assert_eq!((&errors[0].key, &errors[0].old_value, &errors[0].new_value), (&key, &old, &new));
}

#[test]
fn equal_values_are_told_from_different_ones() {
    for (a, b, same) in [
        ("1", " 1 ", true),
        ("1", "1.0", false),
        ("0.0", "-0.0", true),
        ("1.5", "15e-1", true),
        ("\"\\u0061\"", "\"a\"", true),
        ("[1, 2]", "[2, 1]", false),
        ("{\"a\": 1, \"b\": 2}", "{\"b\": 2, \"a\": 1}", true),
        ("null", "false", false),
    ] {
        for (a, b, same) in [(a, b, same), (b, a, same), (a, a, true), (b, b, true)] {
            let (_, errors) = merge_json(map(&[("key", a)]), map(&[("key", b)]));
            assert_eq!(errors.is_empty(), same, "{a} and {b}");
        }
    }
    // Numbers that are too large to be told from others are not read.
    assert!(!can_merge(&map(&[("key", "1e999")]), &map(&[("key", "1e999")])));
}

#[test]
fn unreadable_values_are_not_merged() {
    assert!(!can_merge(&map(&[("key", "{")]), &map(&[("key", "1")])));
    assert!(checked_merge_json(map(&[("key", "{")]), map(&[("key", "1")])).is_none());
    // A value that is only copied is not looked at.
    let (merged, errors) = checked_merge_json(map(&[("key", "{")]), map(&[])).unwrap();
    assert_eq!(merged.unwrap().get("key"), Some(&"{".to_string()));
    assert!(errors.is_empty());
}

#[test]
fn values_are_shown_as_json() {
    assert_eq!(show_value("{ \"a\" : [ 1,2 ] }"), "{\"a\":[1,2]}");
    assert_eq!(show_value("not json"), "not json");
}

#[test]
fn objects_are_written_as_json() {
    assert_eq!(object_to_text(&map(&[])), "{}");
    assert_eq!(
        object_to_text(&map(&[("b\"", "[1, 2]"), ("a", "null")])),
        "{\"a\":null,\"b\\\"\":[1, 2]}"
    );
    // The order in which members were added does not show.
    assert_eq!(
        object_to_text(&map(&[("x", "1"), ("y", "2"), ("z", "3")])),
        object_to_text(&map(&[("z", "0"), ("y", "2"), ("x", "1"), ("z", "3")]))
    );
    assert_eq!(array_to_text(&vec![]), "[]");
    assert_eq!(
        array_to_text(&vec!["x".to_string(), "y\n".to_string()]),
        "[\"x\",\"y\\n\"]"
    );
    let mut direct: TextMap<Vec<String>> = TextMap::new();
    direct.insert("@b:x".to_string(), vec!["!1:x".to_string(), "!2:x".to_string()]);
    direct.insert("@a:x".to_string(), vec![]);
    assert_eq!(
        array_object_to_text(&direct),
        "{\"@a:x\":[],\"@b:x\":[\"!1:x\",\"!2:x\"]}"
    );
}
