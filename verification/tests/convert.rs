use json2csv::convert::write_json_to_csv;

fn run_test(
    input: &str,
    expected: &str,
    fields: Option<Vec<&str>>,
    delimiter: Option<String>,
    flatten: bool,
    unwind_on: Option<String>,
    samples: Option<u32>,
) {
    let sample_json = input.as_bytes();
    let output =
        write_json_to_csv(sample_json, fields, delimiter, flatten, unwind_on, samples).unwrap();
    let str_out = std::str::from_utf8(&output).unwrap();
    assert_eq!(str_out, expected)
}

#[test]
fn test_first_row_params_only() {
    run_test(
        r#"{ "a": 1, "b": 2}
            {"a": 3, "c": 2}"#,
        "a,b\n1,2\n3,\n",
        None,
        None,
        false,
        None,
        Some(1),
    )
}

#[test]
fn test_flatten() {
    run_test(
        r#"{"b": {"nested": {"A": 2}}}"#,
        "b.nested.A\n2\n",
        None,
        None,
        true,
        None,
        Some(1),
    );
    run_test(
        r#"{"array": [1,2] }"#,
        "array.0,array.1\n1,2\n",
        None,
        None,
        true,
        None,
        Some(1),
    );
}

#[test]
fn test_unwind() {
    run_test(
        r#"{"b": [1,2], "a": 3}"#,
        "a,b\n3,1\n3,2\n",
        None,
        None,
        false,
        Option::from(String::from("b")),
        Some(1),
    );
}

#[test]
fn test_fields() {
    run_test(
        r#"{"a": "a", "b": "b"}"#,
        "a\na\n",
        Option::from(vec!["a"]),
        None,
        false,
        None,
        Some(1),
    )
}

#[test]
fn test_unwind_and_flatten() {
    run_test(
        r#"{"b": [{"c": 1},{"c": 2}], "a": {"c": 3}}"#,
        "a.c,b.c\n3,1\n3,2\n",
        None,
        None,
        true,
        Option::from(String::from("b")),
        Some(1),
    );
}
