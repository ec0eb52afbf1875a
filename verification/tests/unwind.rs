use json2csv::interop::from_value;
use json2csv::json::JsonValue;
use json2csv::unwind::unwind_json;

fn json(text: &str) -> JsonValue {
    from_value(serde_json::from_str(text).unwrap())
}

fn number(n: u64) -> JsonValue {
    JsonValue::Number(serde_json::Number::from(n))
}

fn member(name: &str, value: JsonValue) -> (String, JsonValue) {
    (String::from(name), value)
}

#[test]
fn unwind_on_absent_key_gives_the_record_back() {
    let record = json(r#"{"a": 1, "b": [1, 2]}"#);
    let out = unwind_json(record.clone(), &String::from("missing"));
    assert_eq!(out, vec![record]);
}

#[test]
fn unwind_on_key_without_array_gives_the_record_back() {
    let record = json(r#"{"a": 1, "b": {"c": [1, 2]}}"#);
    assert_eq!(unwind_json(record.clone(), &String::from("a")), vec![record.clone()]);
    assert_eq!(unwind_json(record.clone(), &String::from("b")), vec![record]);
}

#[test]
fn unwind_of_a_value_that_is_no_object_gives_it_back() {
    let value = json(r#"[1, 2]"#);
    assert_eq!(unwind_json(value.clone(), &String::from("a")), vec![value]);
    assert_eq!(unwind_json(JsonValue::Null, &String::from("a")), vec![JsonValue::Null]);
}

#[test]
fn unwind_on_empty_array_gives_no_record() {
    let record = json(r#"{"a": 1, "b": []}"#);
    assert_eq!(unwind_json(record, &String::from("b")), Vec::<JsonValue>::new());
}

#[test]
fn unwind_keeps_the_order_of_the_array() {
    let record = json(r#"{"k": ["x", "y", "z"]}"#);
    let out = unwind_json(record, &String::from("k"));
    assert_eq!(
        out,
        vec![json(r#"{"k": "x"}"#), json(r#"{"k": "y"}"#), json(r#"{"k": "z"}"#)]
    );
}

#[test]
fn unwind_puts_the_element_in_the_place_of_the_array() {
    let record = JsonValue::Object(vec![
        member("first", number(1)),
        member("list", JsonValue::Array(vec![number(7), JsonValue::Null])),
        member("last", JsonValue::Bool(true)),
    ]);
    let out = unwind_json(record, &String::from("list"));
    assert_eq!(
        out,
        vec![
            JsonValue::Object(vec![
                member("first", number(1)),
                member("list", number(7)),
                member("last", JsonValue::Bool(true)),
            ]),
            JsonValue::Object(vec![
                member("first", number(1)),
                member("list", JsonValue::Null),
                member("last", JsonValue::Bool(true)),
            ]),
        ]
    );
}

#[test]
fn unwind_does_not_reach_into_nested_arrays() {
    let record = json(r#"{"a": [[1, 2], [3]]}"#);
    let out = unwind_json(record, &String::from("a"));
    assert_eq!(out, vec![json(r#"{"a": [1, 2]}"#), json(r#"{"a": [3]}"#)]);
}

#[test]
fn unwind_takes_the_key_as_one_name_not_as_a_path() {
    let record = json(r#"{"a": {"b": [1, 2]}}"#);
    assert_eq!(unwind_json(record.clone(), &String::from("a.b")), vec![record]);
}
