use json_parser::json_value::{JsonValue, Text};
use json_parser::parse_json;

#[test]
fn just_one_string_trailing_comma() {
    let input = br##"{
    "a_string": "Hello world!",
}}"##;

    let expected = JsonValue::Object(vec![
        (
            Text::Borrowed(b"a_string"),
            JsonValue::String(Text::Borrowed(b"Hello world!")),
        ),
    ]);

    assert_eq!(parse_json(input).unwrap(), expected);
}

#[test]
fn bigger_object() {
    let input = br##"{"a_string":"Hello world!","an_integer":17,"a_float":3.14,"a_true_bool":true,"a_false_bool":false}"##;

    let expected = JsonValue::Object(vec![
        (
            Text::Borrowed(b"a_string"),
            JsonValue::String(Text::Borrowed(b"Hello world!")),
        ),
        (Text::Borrowed(b"an_integer"), JsonValue::Number(b"17")),
        (Text::Borrowed(b"a_float"), JsonValue::Number(b"3.14")),
        (Text::Borrowed(b"a_true_bool"), JsonValue::Boolean(true)),
        (Text::Borrowed(b"a_false_bool"), JsonValue::Boolean(false)),
    ]);

    assert_eq!(parse_json(input).unwrap(), expected);
}

#[test]
fn simple_composite_array() {
    let input = br##"[true, 1, 0, 17.9, "A string"]"##;

    let mut expected = Vec::new();
    expected.push(JsonValue::Boolean(true));
    expected.push(JsonValue::Number(b"1"));
    expected.push(JsonValue::Number(b"0"));
    expected.push(JsonValue::Number(b"17.9"));
    expected.push(JsonValue::String(Text::Borrowed(b"A string")));

    let expected = JsonValue::Array(expected);

    assert_eq!(parse_json(input).unwrap(), expected);
}
