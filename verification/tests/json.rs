use aniflow::json::{canonical_sha256, contains_null, object_from, write_canonical, JsonValue};

fn object(members: Vec<(&str, JsonValue)>) -> JsonValue {
    JsonValue::Object(members.into_iter().map(|(key, value)| (key.to_owned(), value)).collect())
}

#[test]
fn a_null_at_any_depth_is_found() {
    assert!(contains_null(&JsonValue::Null));
    let nested = object(vec![
        ("schema", JsonValue::String("x".to_owned())),
        ("values", JsonValue::Array(vec![JsonValue::Bool(true), object(vec![("deep", JsonValue::Null)])])),
    ]);
    assert!(contains_null(&nested));
}

#[test]
fn values_without_null_are_clean() {
    let clean = object(vec![
        ("count", JsonValue::Number("3".to_owned())),
        ("items", JsonValue::Array(vec![JsonValue::String("null".to_owned()), JsonValue::Array(Vec::new())])),
    ]);
    assert!(!contains_null(&clean));
    assert!(!contains_null(&JsonValue::Bool(false)));
}

fn members(members: Vec<(&str, JsonValue)>) -> Vec<(String, JsonValue)> {
    members.into_iter().map(|(key, value)| (key.to_owned(), value)).collect()
}

#[test]
fn canonical_digest_ignores_object_key_insertion_order() {
    let left = object_from(members(vec![
        ("tile_size", JsonValue::Number("128".to_owned())),
        ("scale", JsonValue::Number("2".to_owned())),
    ]));
    let right = object_from(members(vec![
        ("scale", JsonValue::Number("2".to_owned())),
        ("tile_size", JsonValue::Number("128".to_owned())),
    ]));

    assert_eq!(
        canonical_sha256(&left).expect("left should hash"),
        canonical_sha256(&right).expect("right should hash")
    );
}

#[test]
fn objects_keep_the_last_value_of_a_repeated_key_in_key_order() {
    let built = object_from(members(vec![
        ("b", JsonValue::Bool(true)),
        ("a", JsonValue::Null),
        ("b", JsonValue::Bool(false)),
    ]));
    let mut out = Vec::new();
    assert!(write_canonical(&mut out, &built));
    assert_eq!(out, b"{\"a\":null,\"b\":false}".to_vec());
}

#[test]
fn strings_are_written_with_json_escapes() {
    let mut out = Vec::new();
    let text = JsonValue::String("q\"b\\n\n\u{1}\u{1f}t\té".to_owned());
    assert!(write_canonical(&mut out, &text));
    let expected: Vec<u8> = b"\"q\\\"b\\\\n\\n\\u0001\\u001ft\\t\xc3\xa9\"".to_vec();
    assert_eq!(out, expected);
}

#[test]
fn unsorted_object_members_are_not_encodable() {
    let unsorted = object(vec![("b", JsonValue::Null), ("a", JsonValue::Null)]);
    assert_eq!(canonical_sha256(&unsorted), None);
}
