use json2csv::headers::{detect_headers, HeaderSet};
use json2csv::interop::from_value;
use json2csv::json::JsonValue;

fn json(text: &str) -> JsonValue {
    from_value(serde_json::from_str(text).unwrap())
}

fn strings(cells: &[&str]) -> Vec<String> {
    cells.iter().map(|c| String::from(*c)).collect()
}

#[test]
fn header_set_starts_empty() {
    assert_eq!(HeaderSet::new().names(), Vec::<String>::new());
}

#[test]
fn header_set_keeps_the_first_place_of_a_name() {
    let mut set = HeaderSet::new();
    assert!(set.insert(String::from("b")));
    assert!(set.insert(String::from("a")));
    assert!(!set.insert(String::from("b")));
    assert!(set.insert(String::from("c")));
    assert!(!set.insert(String::from("a")));
    assert_eq!(set.names(), strings(&["b", "a", "c"]));
}

#[test]
fn header_set_takes_the_names_of_a_record_in_their_order() {
    let mut set = HeaderSet::new();
    set.insert(String::from("m"));
    set.add_record(&JsonValue::Object(vec![
        (String::from("z"), JsonValue::Null),
        (String::from("m"), JsonValue::Null),
        (String::from("a"), JsonValue::Null),
    ]));
    assert_eq!(set.names(), strings(&["m", "z", "a"]));
    set.add_record(&json("[1, 2]"));
    set.add_record(&json("\"text\""));
    assert_eq!(set.names(), strings(&["m", "z", "a"]));
}

#[test]
fn detected_headers_are_first_seen_and_unique() {
    let records = vec![
        json(r#"{"b": 1, "c": 2}"#),
        json(r#"{"a": 1, "c": 2}"#),
        json(r#"{}"#),
        json(r#"{"d": {"e": 1}, "b": 0}"#),
    ];
    assert_eq!(detect_headers(&records), strings(&["b", "c", "a", "d"]));
}

#[test]
fn detected_headers_of_no_record_are_none() {
    assert_eq!(detect_headers(&Vec::new()), Vec::<String>::new());
}
