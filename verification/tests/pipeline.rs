use json2csv::convert::{convert, get_headers, preprocess, preprocess_all, write_json_to_csv};
use json2csv::options::Options;
use json2csv::error::ConvertError;
use json2csv::interop::from_value;
use json2csv::json::JsonValue;

fn json(text: &str) -> JsonValue {
    from_value(serde_json::from_str(text).unwrap())
}

fn strings(cells: &[&str]) -> Vec<String> {
    cells.iter().map(|c| String::from(*c)).collect()
}

fn run(input: &str, options: &Options) -> Result<String, ConvertError> {
    convert(input.as_bytes(), options).map(|bytes| String::from_utf8(bytes).unwrap())
}

#[test]
fn default_options_are_those_of_a_plain_run() {
    let options = Options::default();
    assert_eq!(options.fields, None);
    assert_eq!(options.delimiter, b',');
    assert!(!options.flatten);
    assert_eq!(options.unwind_on, None);
    assert_eq!(options.samples, 1);
    assert!(!options.no_header);
    assert!(!options.double_quote);
}

#[test]
fn preprocess_without_options_gives_the_document() {
    let doc = json(r#"{"a": {"b": 1}, "c": [1, 2]}"#);
    assert_eq!(preprocess(doc.clone(), false, &None), Ok(vec![doc]));
}

#[test]
fn preprocess_unwinds_then_flattens() {
    let doc = json(r#"{"b": [{"c": 1}, {"c": 2}], "a": {"c": 3}}"#);
    assert_eq!(
        preprocess(doc.clone(), false, &Some(String::from("b"))),
        Ok(vec![
            json(r#"{"a": {"c": 3}, "b": {"c": 1}}"#),
            json(r#"{"a": {"c": 3}, "b": {"c": 2}}"#),
        ])
    );
    assert_eq!(
        preprocess(doc.clone(), true, &Some(String::from("b"))),
        Ok(vec![json(r#"{"a.c": 3, "b.c": 1}"#), json(r#"{"a.c": 3, "b.c": 2}"#)])
    );
    assert_eq!(
        preprocess(doc, true, &None),
        Ok(vec![json(r#"{"a.c": 3, "b.0.c": 1, "b.1.c": 2}"#)])
    );
}

#[test]
fn preprocess_refuses_a_document_that_is_no_object() {
    assert_eq!(preprocess(json("[1]"), false, &None), Err(ConvertError::InvalidRecordShape));
    assert_eq!(preprocess(json("1"), true, &None), Err(ConvertError::InvalidRecordShape));
    assert_eq!(
        preprocess(json("\"a\""), false, &Some(String::from("a"))),
        Err(ConvertError::InvalidRecordShape)
    );
}

#[test]
fn columns_come_from_as_many_documents_as_are_sampled() {
    let input = "{\"a\": 1, \"b\": 2}\n{\"a\": 3, \"c\": 2}\n{\"d\": 4}";
    let mut options = Options::default();
    assert_eq!(run(input, &options), Ok(String::from("a,b\n1,2\n3,\n,\n")));
    options.samples = 2;
    assert_eq!(run(input, &options), Ok(String::from("a,b,c\n1,2,\n3,,2\n,,\n")));
    options.samples = 50;
    assert_eq!(run(input, &options), Ok(String::from("a,b,c,d\n1,2,,\n3,,2,\n,,,4\n")));
}

#[test]
fn samples_count_documents_not_unwound_records() {
    let input = "{\"k\": [{\"a\": 1}, {\"b\": 2}]}\n{\"k\": [{\"c\": 3}]}";
    let mut options = Options::default();
    options.flatten = true;
    options.unwind_on = Some(String::from("k"));
    assert_eq!(run(input, &options), Ok(String::from("k.a,k.b\n1,\n,2\n,\n")));
}

#[test]
fn no_sample_gives_no_column() {
    let mut options = Options::default();
    options.samples = 0;
    assert_eq!(run("{\"a\": 1}\n{\"b\": 2}", &options), Ok(String::from("\"\"\n\"\"\n\"\"\n")));
}

#[test]
fn named_fields_are_taken_as_they_are() {
    let mut options = Options::default();
    options.fields = Some(strings(&["b", "nope", "b"]));
    assert_eq!(
        run("{\"a\": 1, \"b\": 2}\n{\"b\": \"x\"}", &options),
        Ok(String::from("b,nope,b\n2,,2\nx,,x\n"))
    );
}

#[test]
fn named_fields_and_no_document_give_the_header_alone() {
    let mut options = Options::default();
    options.fields = Some(strings(&["a", "b"]));
    assert_eq!(run("", &options), Ok(String::from("a,b\n")));
    options.no_header = true;
    assert_eq!(run("  \n", &options), Ok(String::new()));
}

#[test]
fn detection_and_no_document_is_an_error() {
    let options = Options::default();
    assert_eq!(run("", &options), Err(ConvertError::EmptyStream));
    assert_eq!(run(" \n ", &options), Err(ConvertError::EmptyStream));
    assert_eq!(get_headers(b"", false, None, 1), Err(ConvertError::EmptyStream));
}

#[test]
fn malformed_document_is_an_error() {
    let options = Options::default();
    assert_eq!(
        run("{\"a\": 1}\n{\"a\": ", &options),
        Err(ConvertError::Parse { line: 2, column: 6 })
    );
    assert_eq!(run("{", &options), Err(ConvertError::Parse { line: 1, column: 1 }));
    let mut named = Options::default();
    named.fields = Some(strings(&["a"]));
    assert_eq!(run("{\"a\": 1} nonsense", &named), Err(ConvertError::Parse { line: 1, column: 11 }));
}

#[test]
fn document_that_is_no_object_is_an_error() {
    let options = Options::default();
    assert_eq!(run("[{\"a\": 1}]", &options), Err(ConvertError::InvalidRecordShape));
    assert_eq!(run("{\"a\": 1} 2", &options), Err(ConvertError::InvalidRecordShape));
    assert_eq!(run("\"text\"", &options), Err(ConvertError::InvalidRecordShape));
}

#[test]
fn earlier_document_decides_the_error() {
    let options = Options::default();
    assert_eq!(run("[1]\n{\"a\": ", &options), Err(ConvertError::InvalidRecordShape));
}

#[test]
fn header_line_can_be_left_out() {
    let mut options = Options::default();
    options.no_header = true;
    assert_eq!(run("{\"a\": 1, \"b\": 2}\n{\"a\": 3}", &options), Ok(String::from("1,2\n3,\n")));
}

#[test]
fn delimiter_stands_between_cells() {
    let mut options = Options::default();
    options.delimiter = b';';
    assert_eq!(
        run("{\"a\": \"x;y\", \"b\": \"1,5\"}", &options),
        Ok(String::from("a;b\n\"x;y\";1,5\n"))
    );
    options.delimiter = b'\t';
    assert_eq!(run("{\"a\": 1, \"b\": 2}", &options), Ok(String::from("a\tb\n1\t2\n")));
}

#[test]
fn quotes_are_escaped_or_doubled() {
    let mut options = Options::default();
    let input = r#"{"a": "say \"hi\""}"#;
    assert_eq!(run(input, &options), Ok(String::from("a\n\"say \\\"hi\\\"\"\n")));
    options.double_quote = true;
    assert_eq!(run(input, &options), Ok(String::from("a\n\"say \"\"hi\"\"\"\n")));
}

#[test]
fn nested_values_are_written_as_json_without_flattening() {
    let options = Options::default();
    assert_eq!(
        run("{\"a\": [1, 2], \"b\": {\"c\": null}}", &options),
        Ok(String::from("a,b\n\"[1,2]\",\"{\\\"c\\\":null}\"\n"))
    );
}

#[test]
fn unwinding_an_empty_array_drops_the_document() {
    let mut options = Options::default();
    options.unwind_on = Some(String::from("k"));
    options.samples = 2;
    assert_eq!(
        run("{\"k\": [], \"a\": 1}\n{\"k\": [5], \"b\": 2}", &options),
        Ok(String::from("b,k\n2,5\n"))
    );
}

#[test]
fn write_json_to_csv_takes_the_first_byte_of_the_delimiter() {
    let out = write_json_to_csv(
        b"{\"a\": 1, \"b\": 2}",
        None,
        Some(String::from("|x")),
        false,
        None,
        Some(1),
    );
    assert_eq!(out, Ok(b"a|b\n1|2\n".to_vec()));
}

#[test]
fn write_json_to_csv_scans_one_document_by_default() {
    let out = write_json_to_csv(b"{\"a\": 1}\n{\"b\": 2}", None, None, false, None, None);
    assert_eq!(out, Ok(b"a\n1\n\"\"\n".to_vec()));
}

#[test]
fn get_headers_gives_the_detected_columns() {
    let input = b"{\"b\": {\"x\": 1}, \"a\": [1, 2]}\n{\"c\": 3}";
    assert_eq!(get_headers(input, false, None, 1), Ok(strings(&["a", "b"])));
    assert_eq!(get_headers(input, true, None, 1), Ok(strings(&["a.0", "a.1", "b.x"])));
    assert_eq!(get_headers(input, false, None, 2), Ok(strings(&["a", "b", "c"])));
    assert_eq!(
        get_headers(input, true, Some(String::from("a")), 5),
        Ok(strings(&["a", "b.x", "c"]))
    );
    assert_eq!(get_headers(input, false, None, 0), Ok(Vec::new()));
    assert_eq!(get_headers(b"[1]", false, None, 1), Err(ConvertError::InvalidRecordShape));
    assert_eq!(get_headers(b"{", false, None, 1), Err(ConvertError::Parse { line: 1, column: 1 }));
}

#[test]
fn preprocess_all_keeps_the_records_of_each_document_together() {
    let docs = vec![json(r#"{"k": [1, 2]}"#), json(r#"{"k": []}"#), json(r#"{"a": 1}"#)];
    assert_eq!(
        preprocess_all(docs, false, &Some(String::from("k"))),
        Ok(vec![
            vec![json(r#"{"k": 1}"#), json(r#"{"k": 2}"#)],
            Vec::new(),
            vec![json(r#"{"a": 1}"#)],
        ])
    );
    assert_eq!(preprocess_all(Vec::new(), true, &None), Ok(Vec::new()));
}

#[test]
fn preprocess_all_fails_on_the_first_document_that_is_no_object() {
    let docs = vec![json(r#"{"a": 1}"#), json("[1]"), json(r#"{"b": 1}"#)];
    assert_eq!(preprocess_all(docs, false, &None), Err(ConvertError::InvalidRecordShape));
}
