use json2csv::error::ConvertError;
use json2csv::interop::{from_value, parse_documents, render, to_value};
use json2csv::json::JsonValue;

fn json(text: &str) -> JsonValue {
    from_value(serde_json::from_str(text).unwrap())
}

fn number(n: i64) -> JsonValue {
    JsonValue::Number(serde_json::Number::from(n))
}

#[test]
fn from_value_takes_every_kind_of_value() {
    let value: serde_json::Value =
        serde_json::from_str(r#"{"a": [null, true, -2, "s"], "b": {"c": {}}}"#).unwrap();
    assert_eq!(
        from_value(value),
        JsonValue::Object(vec![
            (
                String::from("a"),
                JsonValue::Array(vec![
                    JsonValue::Null,
                    JsonValue::Bool(true),
                    number(-2),
                    JsonValue::String(String::from("s")),
                ])
            ),
            (
                String::from("b"),
                JsonValue::Object(vec![(String::from("c"), JsonValue::Object(Vec::new()))])
            ),
        ])
    );
}

#[test]
fn to_value_builds_what_from_value_reads() {
    let text = r#"{"a": [null, true, -2, 2.5, "s"], "b": {"c": {}, "d": []}}"#;
    let value: serde_json::Value = serde_json::from_str(text).unwrap();
    assert_eq!(to_value(&json(text)), value);
    assert_eq!(from_value(to_value(&json(text))), json(text));
}

#[test]
fn clone_of_a_value_is_equal_to_it() {
    let value = json(r#"{"a": [null, true, -2, 2.5, "s"], "b": {"c": {}, "d": []}}"#);
    assert_eq!(value.clone(), value);
}

#[test]
fn get_finds_the_first_member_of_that_name() {
    let record = JsonValue::Object(vec![
        (String::from("a"), number(1)),
        (String::from("b"), number(2)),
        (String::from("a"), number(3)),
    ]);
    assert_eq!(record.get(&String::from("a")), Some(&number(1)));
    assert_eq!(record.get(&String::from("b")), Some(&number(2)));
    assert_eq!(record.get(&String::from("c")), None);
    assert_eq!(json("[1]").get(&String::from("a")), None);
}

#[test]
fn values_know_their_kind() {
    assert!(json("{}").is_object());
    assert!(!json("[]").is_object());
    assert!(!json("1").is_object());
    assert!(json("1").is_scalar());
    assert!(json("null").is_scalar());
    assert!(json("\"s\"").is_scalar());
    assert!(json("false").is_scalar());
    assert!(!json("[]").is_scalar());
    assert!(!json("{}").is_scalar());
}

#[test]
fn render_gives_compact_json() {
    assert_eq!(render(&json(r#"{ "a" : [ 1 , "q\"t" ] , "b" : null }"#)), r#"{"a":[1,"q\"t"],"b":null}"#);
    assert_eq!(render(&json("  [ ]  ")), "[]");
    assert_eq!(render(&json("0.25")), "0.25");
    assert_eq!(render(&json("\"x\"")), "\"x\"");
}

#[test]
fn documents_are_read_one_after_another() {
    let (docs, failure) = parse_documents(b"{\"a\": 1}\n[2]   \"three\"\n\n4 ");
    assert_eq!(failure, None);
    assert_eq!(docs, vec![json(r#"{"a": 1}"#), json("[2]"), json("\"three\""), json("4")]);
}

#[test]
fn documents_may_span_lines() {
    let (docs, failure) = parse_documents(b"{\n  \"a\": [\n    1,\n    2\n  ]\n}\n{\n}\n");
    assert_eq!(failure, None);
    assert_eq!(docs, vec![json(r#"{"a": [1, 2]}"#), json("{}")]);
}

#[test]
fn no_input_holds_no_document() {
    assert_eq!(parse_documents(b""), (Vec::new(), None));
    assert_eq!(parse_documents(b"  \n\t "), (Vec::new(), None));
}

#[test]
fn reading_stops_at_a_malformed_document() {
    let (docs, failure) = parse_documents(b"{\"a\": 1}\n{\"b\": }\n{\"c\": 3}");
    assert_eq!(docs, vec![json(r#"{"a": 1}"#)]);
    assert_eq!(failure, Some((2, 7)));
}

#[test]
fn error_messages_tell_the_failures_apart() {
    let all = [
        ConvertError::Parse { line: 1, column: 2 },
        ConvertError::InvalidRecordShape,
        ConvertError::Io,
        ConvertError::EmptyStream,
    ];
    assert_eq!(all[0].message(), "malformed JSON document");
    assert_eq!(all[1].message(), "record is not a JSON object");
    assert_eq!(all[2].message(), "could not write CSV row");
    assert_eq!(all[3].message(), "no record to detect the columns from");
}
