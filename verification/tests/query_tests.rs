use navi_json::value::JsonValue;
use navi_json::pagination::limit_n;
use navi_json::pagination::skip_n;

fn named_obj(name: &str) -> JsonValue {
    JsonValue::Obj(vec![(String::from("name"), JsonValue::Str(String::from(name)))])
}

/// The six-element array that the query stages are exercised on.
fn six_objects() -> JsonValue {
    JsonValue::Arr(vec![
        named_obj("Object1"),
        named_obj("Object2"),
        named_obj("Object3"),
        named_obj("Object4"),
        named_obj("Object5"),
        named_obj("Object6"),
    ])
}

#[test]
fn skip_test() {
    let obj = six_objects();
    let obj1 = six_objects();
    assert_eq!(
        skip_n(obj, &2).unwrap(),
        JsonValue::Arr(vec![
            named_obj("Object3"),
            named_obj("Object4"),
            named_obj("Object5"),
            named_obj("Object6"),
        ])
    );
    assert_eq!(skip_n(obj1, &9).unwrap(), JsonValue::Arr(vec![]));
}

#[test]
fn limit_test() {
    let obj = six_objects();
    let obj1 = six_objects();
    assert_eq!(
        limit_n(obj, &2).unwrap(),
        JsonValue::Arr(vec![named_obj("Object1"), named_obj("Object2")])
    );
    assert_eq!(limit_n(obj1, &9).unwrap(), six_objects());
}

#[test]
fn select_test() {
    let obj = six_objects();
    let obj1 = six_objects();
    assert_eq!(
        limit_n(obj, &2).unwrap(),
        JsonValue::Arr(vec![named_obj("Object1"), named_obj("Object2")])
    );
    assert_eq!(limit_n(obj1, &9).unwrap(), six_objects());
}
