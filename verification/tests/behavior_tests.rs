use navi_json::error::NaviError;
use navi_json::pagination::limit_n;
use navi_json::pagination::normalize;
use navi_json::pagination::run_query;
use navi_json::pagination::skip_n;
use navi_json::select::find_recursive;
use navi_json::select::select_f;
use navi_json::text::split_str;
use navi_json::value::obj_insert;
use navi_json::value::JsonNumber;
use navi_json::value::JsonValue;

fn num(n: u64) -> JsonValue {
    JsonValue::Num(JsonNumber { positive: true, mantissa: n, exponent: 0 })
}

fn named_obj(name: &str) -> JsonValue {
    JsonValue::Obj(vec![(String::from("name"), JsonValue::Str(String::from(name)))])
}

fn six_objects() -> JsonValue {
    JsonValue::Arr(vec![
        named_obj("Object1"),
        named_obj("Object2"),
        named_obj("Object3"),
        named_obj("Object4"),
        named_obj("Object5"),
        named_obj("Object6"),
    ])
}

#[test]
fn normalize_wraps_bare_object() {
    let bare = named_obj("Object1");
    let shaped = normalize(bare);
    assert_eq!(shaped, JsonValue::Arr(vec![named_obj("Object1")]));
}

#[test]
fn normalize_keeps_array() {
    let arr = six_objects();
    let shaped = normalize(arr);
    assert_eq!(shaped, six_objects());
}

#[test]
fn select_reconstructs_nested_path() {
    // element {"a":{"b":1}}, path "a.b": the nesting is rebuilt
    let elem = JsonValue::Obj(vec![(
        String::from("a"),
        JsonValue::Obj(vec![(String::from("b"), num(1))]),
    )]);
    let input = JsonValue::Arr(vec![elem]);
    let out = select_f(input, "a.b").unwrap();
    let expected = JsonValue::Arr(vec![JsonValue::Obj(vec![(
        String::from("a"),
        JsonValue::Obj(vec![(String::from("b"), num(1))]),
    )])]);
    assert_eq!(out, expected);
}

#[test]
fn select_missing_path_yields_sentinel() {
    // element {"a":{"b":1}}, path "a.c": the whole path keys the sentinel
    let elem = JsonValue::Obj(vec![(
        String::from("a"),
        JsonValue::Obj(vec![(String::from("b"), num(1))]),
    )]);
    let input = JsonValue::Arr(vec![elem]);
    let out = select_f(input, "a.c").unwrap();
    let expected = JsonValue::Arr(vec![JsonValue::Obj(vec![(
        String::from("a.c"),
        JsonValue::Str(String::from("not found")),
    )])]);
    assert_eq!(out, expected);
}

#[test]
fn select_shared_top_key_overwrites() {
    // element {"a":{"b":1,"c":2}}, spec "a.b,a.c": the later path wins
    let elem = JsonValue::Obj(vec![(
        String::from("a"),
        JsonValue::Obj(vec![
            (String::from("b"), num(1)),
            (String::from("c"), num(2)),
        ]),
    )]);
    let input = JsonValue::Arr(vec![elem]);
    let out = select_f(input, "a.b,a.c").unwrap();
    let expected = JsonValue::Arr(vec![JsonValue::Obj(vec![(
        String::from("a"),
        JsonValue::Obj(vec![(String::from("c"), num(2))]),
    )])]);
    assert_eq!(out, expected);
}

#[test]
fn select_null_field_counts_as_absent() {
    let elem = JsonValue::Obj(vec![(String::from("a"), JsonValue::Null)]);
    let input = JsonValue::Arr(vec![elem]);
    let out = select_f(input, "a").unwrap();
    let expected = JsonValue::Arr(vec![JsonValue::Obj(vec![(
        String::from("a"),
        JsonValue::Str(String::from("not found")),
    )])]);
    assert_eq!(out, expected);
}

#[test]
fn select_array_is_opaque_to_paths() {
    // a path cannot step into an array
    let elem = JsonValue::Obj(vec![(
        String::from("a"),
        JsonValue::Arr(vec![JsonValue::Obj(vec![(String::from("b"), num(1))])]),
    )]);
    let input = JsonValue::Arr(vec![elem]);
    let out = select_f(input, "a.b").unwrap();
    let expected = JsonValue::Arr(vec![JsonValue::Obj(vec![(
        String::from("a.b"),
        JsonValue::Str(String::from("not found")),
    )])]);
    assert_eq!(out, expected);
}

#[test]
fn select_empty_spec_looks_up_empty_key() {
    let input = JsonValue::Arr(vec![named_obj("Object1")]);
    let out = select_f(input, "").unwrap();
    let expected = JsonValue::Arr(vec![JsonValue::Obj(vec![(
        String::from(""),
        JsonValue::Str(String::from("not found")),
    )])]);
    assert_eq!(out, expected);
}

#[test]
fn select_non_array_yields_empty_array() {
    let out = select_f(JsonValue::Str(String::from("x")), "a").unwrap();
    assert_eq!(out, JsonValue::Arr(vec![]));
}

#[test]
fn find_recursive_returns_top_key_and_subtree() {
    let elem = JsonValue::Obj(vec![(
        String::from("a"),
        JsonValue::Obj(vec![(
            String::from("b"),
            JsonValue::Obj(vec![(String::from("c"), num(7))]),
        )]),
    )]);
    let (key, val) = find_recursive(&elem, "a.b.c").unwrap();
    assert_eq!(key, String::from("a"));
    assert_eq!(
        val,
        JsonValue::Obj(vec![(
            String::from("b"),
            JsonValue::Obj(vec![(String::from("c"), num(7))]),
        )])
    );
    assert!(find_recursive(&elem, "a.x").is_none());
    assert!(find_recursive(&elem, "x").is_none());
}

#[test]
fn skip_zero_is_identity() {
    let arr = six_objects();
    assert_eq!(skip_n(arr, &0).unwrap(), six_objects());
}

#[test]
fn limit_at_or_past_length_is_identity() {
    let arr = six_objects();
    let arr1 = six_objects();
    assert_eq!(limit_n(arr, &6).unwrap(), six_objects());
    assert_eq!(limit_n(arr1, &u32::MAX).unwrap(), six_objects());
}

#[test]
fn limit_zero_is_empty() {
    let arr = six_objects();
    assert_eq!(limit_n(arr, &0).unwrap(), JsonValue::Arr(vec![]));
}

#[test]
fn skip_and_limit_on_non_array_yield_empty() {
    assert_eq!(skip_n(num(3), &0).unwrap(), JsonValue::Arr(vec![]));
    assert_eq!(limit_n(JsonValue::Bool(true), &5).unwrap(), JsonValue::Arr(vec![]));
}

#[test]
fn end_to_end_skip_two() {
    // six elements, select the name field, skip 2, no limit
    let out = run_query(six_objects(), "name", 2, u32::MAX).unwrap();
    let expected = JsonValue::Arr(vec![
        named_obj("Object3"),
        named_obj("Object4"),
        named_obj("Object5"),
        named_obj("Object6"),
    ]);
    assert_eq!(out, expected);
}

#[test]
fn end_to_end_limit_two() {
    // six elements, select the name field, no skip, limit 2
    let out = run_query(six_objects(), "name", 0, 2).unwrap();
    let expected = JsonValue::Arr(vec![named_obj("Object1"), named_obj("Object2")]);
    assert_eq!(out, expected);
}

#[test]
fn end_to_end_bare_object_is_normalized() {
    let out = run_query(named_obj("Object1"), "name", 0, u32::MAX).unwrap();
    assert_eq!(out, JsonValue::Arr(vec![named_obj("Object1")]));
}

#[test]
fn split_str_dots_and_commas() {
    assert_eq!(split_str("a.b.c", '.'), vec![
        String::from("a"),
        String::from("b"),
        String::from("c"),
    ]);
    assert_eq!(split_str("", ','), vec![String::from("")]);
    assert_eq!(split_str("a,,b", ','), vec![
        String::from("a"),
        String::from(""),
        String::from("b"),
    ]);
    assert_eq!(split_str(",a,", ','), vec![
        String::from(""),
        String::from("a"),
        String::from(""),
    ]);
}

#[test]
fn obj_insert_overwrites_first_match_in_place() {
    let mut fields = vec![
        (String::from("a"), num(1)),
        (String::from("b"), num(2)),
    ];
    obj_insert(&mut fields, String::from("a"), num(9));
    assert_eq!(fields, vec![
        (String::from("a"), num(9)),
        (String::from("b"), num(2)),
    ]);
    obj_insert(&mut fields, String::from("c"), num(3));
    assert_eq!(fields, vec![
        (String::from("a"), num(9)),
        (String::from("b"), num(2)),
        (String::from("c"), num(3)),
    ]);
}

#[test]
fn get_field_reads_objects_only() {
    let elem = named_obj("Object1");
    assert_eq!(
        elem.get_field("name"),
        Some(&JsonValue::Str(String::from("Object1")))
    );
    assert_eq!(elem.get_field("other"), None);
    assert_eq!(num(1).get_field("name"), None);
}

#[test]
fn deep_clone_copies_the_tree() {
    let arr = six_objects();
    assert_eq!(arr.deep_clone(), six_objects());
}

#[test]
fn error_messages() {
    assert_eq!(NaviError::IoError.message(), "could not read the source file");
    assert_eq!(NaviError::ParseError.message(), "the content is not well-formed JSON");
    assert_eq!(
        NaviError::StructuralError.message(),
        "could not insert into a value"
    );
}
