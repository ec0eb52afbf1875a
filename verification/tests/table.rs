use json2csv::error::ConvertError;
use json2csv::interop::from_value;
use json2csv::json::JsonValue;
use json2csv::options::Options;
use json2csv::table::{resolve_headers, table_of};
use json2csv::writer::{encode_rows, join_lines};

fn json(text: &str) -> JsonValue {
    from_value(serde_json::from_str(text).unwrap())
}

fn strings(cells: &[&str]) -> Vec<String> {
    cells.iter().map(|c| String::from(*c)).collect()
}

fn two_documents() -> Vec<Vec<JsonValue>> {
    vec![
        vec![json(r#"{"b": "x", "a": 1}"#), json(r#"{"c": true}"#)],
        vec![json(r#"{"a": null, "d": "y"}"#)],
    ]
}

#[test]
fn resolved_headers_are_the_named_fields() {
    let fields = Some(strings(&["z", "a", "z"]));
    assert_eq!(resolve_headers(&fields, &two_documents(), 1), strings(&["z", "a", "z"]));
    assert_eq!(resolve_headers(&fields, &Vec::new(), 0), strings(&["z", "a", "z"]));
}

#[test]
fn resolved_headers_are_detected_from_the_sampled_documents() {
    assert_eq!(resolve_headers(&None, &two_documents(), 0), Vec::<String>::new());
    assert_eq!(resolve_headers(&None, &two_documents(), 1), strings(&["a", "b", "c"]));
    assert_eq!(resolve_headers(&None, &two_documents(), 2), strings(&["a", "b", "c", "d"]));
    assert_eq!(resolve_headers(&None, &two_documents(), 9), strings(&["a", "b", "c", "d"]));
    assert_eq!(resolve_headers(&None, &Vec::new(), 3), Vec::<String>::new());
}

#[test]
fn table_starts_with_the_header_and_has_a_row_for_every_record() {
    let options = Options::default();
    assert_eq!(
        table_of(&two_documents(), &options),
        Ok(vec![
            strings(&["a", "b", "c"]),
            strings(&["1", "x", ""]),
            strings(&["", "", "true"]),
            strings(&["null", "", ""]),
        ])
    );
}

#[test]
fn table_without_header_holds_the_rows_alone() {
    let mut options = Options::default();
    options.no_header = true;
    options.fields = Some(strings(&["d", "a"]));
    assert_eq!(
        table_of(&two_documents(), &options),
        Ok(vec![strings(&["", "1"]), strings(&["", ""]), strings(&["y", "null"])])
    );
}

#[test]
fn table_of_no_document_needs_named_fields() {
    let mut options = Options::default();
    assert_eq!(table_of(&Vec::new(), &options), Err(ConvertError::EmptyStream));
    options.fields = Some(strings(&["a"]));
    assert_eq!(table_of(&Vec::new(), &options), Ok(vec![strings(&["a"])]));
}

#[test]
fn table_refuses_a_record_that_is_no_object() {
    let options = Options::default();
    let groups = vec![vec![json(r#"{"a": 1}"#)], vec![json("[1]")]];
    assert_eq!(table_of(&groups, &options), Err(ConvertError::InvalidRecordShape));
}

#[test]
fn rows_are_written_line_by_line() {
    let rows = vec![strings(&["a", "b"]), strings(&["1", "x,y"]), strings(&["", ""])];
    assert_eq!(encode_rows(&rows, b',', false), Ok(b"a,b\n1,\"x,y\"\n,\n".to_vec()));
    assert_eq!(encode_rows(&rows, b';', false), Ok(b"a;b\n1;x,y\n;\n".to_vec()));
    assert_eq!(encode_rows(&Vec::new(), b',', false), Ok(Vec::new()));
}

#[test]
fn lines_are_joined_in_their_order() {
    assert_eq!(
        join_lines(vec![Some(b"ab\n".to_vec()), Some(Vec::new()), Some(b"c\n".to_vec())]),
        Ok(b"ab\nc\n".to_vec())
    );
    assert_eq!(join_lines(Vec::new()), Ok(Vec::new()));
}

#[test]
fn missing_line_fails_the_run() {
    assert_eq!(join_lines(vec![Some(b"ab\n".to_vec()), None]), Err(ConvertError::Io));
    assert_eq!(join_lines(vec![None, Some(b"ab\n".to_vec())]), Err(ConvertError::Io));
}
