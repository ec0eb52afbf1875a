use json2csv::error::ConvertError;
use json2csv::flatten::{flat_record_from, flatten, is_flat_record};
use json2csv::interop::from_value;
use json2csv::json::JsonValue;

fn json(text: &str) -> JsonValue {
    from_value(serde_json::from_str(text).unwrap())
}

#[test]
fn flatten_joins_names_with_a_dot() {
    let record = json(r#"{"b": {"nested": {"A": 2}}, "a": "x"}"#);
    assert_eq!(flatten(&record), Ok(json(r#"{"a": "x", "b.nested.A": 2}"#)));
}

#[test]
fn flatten_names_array_elements_by_their_index() {
    let record = json(r#"{"array": [1, {"k": [true, null]}]}"#);
    assert_eq!(
        flatten(&record),
        Ok(json(r#"{"array.0": 1, "array.1.k.0": true, "array.1.k.1": null}"#))
    );
}

#[test]
fn flatten_keeps_every_scalar_under_its_path() {
    let record = json(r#"{"s": "text", "n": {"x": 1.5, "y": [false, "z"]}, "e": null}"#);
    let flat = flatten(&record).unwrap();
    let s = String::from("s");
    let nx = String::from("n.x");
    let ny0 = String::from("n.y.0");
    let ny1 = String::from("n.y.1");
    let e = String::from("e");
    assert_eq!(flat.get(&s), Some(&JsonValue::String(String::from("text"))));
    assert_eq!(flat.get(&nx), Some(&json("1.5")));
    assert_eq!(flat.get(&ny0), Some(&JsonValue::Bool(false)));
    assert_eq!(flat.get(&ny1), Some(&JsonValue::String(String::from("z"))));
    assert_eq!(flat.get(&e), Some(&JsonValue::Null));
    assert!(is_flat_record(&flat));
}

#[test]
fn flatten_gives_no_member_for_empty_objects_and_arrays() {
    let record = json(r#"{"a": {}, "b": [], "c": {"d": {}, "e": 1}}"#);
    assert_eq!(flatten(&record), Ok(json(r#"{"c.e": 1}"#)));
}

#[test]
fn flatten_leaves_a_flat_record_as_it_is() {
    let record = JsonValue::Object(vec![
        (String::from("z"), JsonValue::Bool(true)),
        (String::from("a"), JsonValue::String(String::from("1"))),
    ]);
    assert_eq!(flatten(&record), Ok(record.clone()));
}

#[test]
fn flatten_twice_is_flatten_once() {
    let record = json(r#"{"a": {"b": [1, 2]}, "c": "d"}"#);
    let once = flatten(&record).unwrap();
    assert_eq!(flatten(&once), Ok(once.clone()));
}

#[test]
fn flatten_does_not_turn_strings_into_other_values() {
    let record = json(r#"{"a": {"n": "007", "t": "true"}}"#);
    assert_eq!(flatten(&record), Ok(json(r#"{"a.n": "007", "a.t": "true"}"#)));
}

#[test]
fn flatten_refuses_what_is_no_object() {
    assert_eq!(flatten(&json("[1, 2]")), Err(ConvertError::InvalidRecordShape));
    assert_eq!(flatten(&json("3")), Err(ConvertError::InvalidRecordShape));
    assert_eq!(flatten(&JsonValue::Null), Err(ConvertError::InvalidRecordShape));
}

#[test]
fn flat_records_are_told_from_others() {
    assert!(is_flat_record(&json(r#"{}"#)));
    assert!(is_flat_record(&json(r#"{"a": 1, "b": "x", "c": null, "d": false}"#)));
    assert!(!is_flat_record(&json(r#"{"a": []}"#)));
    assert!(!is_flat_record(&json(r#"{"a": 1, "b": {}}"#)));
    assert!(!is_flat_record(&json(r#"[]"#)));
    assert!(!is_flat_record(&json(r#""a""#)));
}

#[test]
fn flat_record_is_taken_from_exactly_one_document() {
    let flat = json(r#"{"a": 1}"#);
    assert_eq!(flat_record_from((vec![flat.clone()], None)), Ok(flat.clone()));
    assert_eq!(
        flat_record_from((Vec::new(), None)),
        Err(ConvertError::InvalidRecordShape)
    );
    assert_eq!(
        flat_record_from((vec![flat.clone(), flat.clone()], None)),
        Err(ConvertError::InvalidRecordShape)
    );
    assert_eq!(
        flat_record_from((vec![flat.clone()], Some((1, 9)))),
        Err(ConvertError::InvalidRecordShape)
    );
    assert_eq!(
        flat_record_from((vec![json(r#"{"a": [1]}"#)], None)),
        Err(ConvertError::InvalidRecordShape)
    );
}
